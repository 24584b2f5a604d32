//! What is answered of a command that has ended: as much of its output as an answer has room for.
use vstd::prelude::*;

use crate::command_output::{
    clamp_limit, clamped_limit, law_previews_show_the_ends_of_their_stream, lemma_address_bytes, lemma_envelope_words, lemma_words, longest_id,
    longest_id_text, preview_of, resource_uri, shared_budget, shows_ends, split_preview_budget, stream_address,
    stream_preview, StreamPreview, MAX_JSONRPC_ID_SERIALIZED_BYTES, MIN_INLINE_OUTPUT_LIMIT,
};
use crate::command_result::{
    class_of, lemma_name_sizes, name_sizes, property_names, BoundedCommandOutput, CommandErrorKind,
    CommandOutcome, CommandStatus, OutcomeView, COMMAND_RESULT_SCHEMA_VERSION, MAX_REASON_BYTES,
};
use crate::job_id::{lemma_uuid_text, uuid_text, JobId};
use crate::json::{compact, quoted, render, Json, JsonView};
use crate::json_size::{
    entries_within, escaped_bytes, lemma_brief, lemma_decimal_printable, lemma_escaped_bytes_concat,
    lemma_filled_bytes, lemma_object_bytes, lemma_plain_sizes, lemma_printable_bytes,
    lemma_quoted_bytes, lemma_quoted_unescaped, lemma_single_item_bytes, lemma_unescaped_size,
    lemma_with_bytes, lemma_word_size, sum_to, unescaped,
};
use crate::requests::{lemma_response_bytes, respond, response_view, success_response};
use crate::sandbox::{LoggedOutput, StopTrigger, Termination};
use crate::text::{
    byte_len, byte_length, contains_text, decimal, lemma_byte_len_concat, lemma_byte_len_one,
};

verus! {

/// The word for what caused an end.
pub open spec fn cause_word(termination: Termination) -> Option<Seq<char>> {
    match termination.cause() {
        Some(trigger) => Some(trigger.word()),
        None => None,
    }
}

/// The outcome of a command that has ended, with a budget of bytes for what it shows of the streams.
pub open spec fn shown_outcome(job: u128, output: LoggedOutput, budget: int) -> OutcomeView {
    let budgets = shared_budget(budget, output.stdout, output.stderr);
    let out = preview_of(output.stdout, budgets.0);
    let err = preview_of(output.stderr, budgets.1);
    let class = class_of(
        output.status,
        output.termination.word(),
        cause_word(output.termination),
    );
    OutcomeView {
        schema_version: COMMAND_RESULT_SCHEMA_VERSION,
        ok: class.0,
        status: class.1,
        error_kind: class.2,
        exit_code: Some(output.status),
        retryable: class.3,
        job_id: Some(uuid_text(job)),
        message: class.4,
        termination: Some(output.termination.word()),
        termination_trigger: cause_word(output.termination),
        stdout_bytes: output.stdout.bytes,
        stderr_bytes: output.stderr.bytes,
        stdout_truncated: out.0,
        stderr_truncated: err.0,
        stdout_head: out.1,
        stdout_tail: out.2,
        stderr_head: err.1,
        stderr_tail: err.2,
        stdout_resource: Some(stream_address(job, "stdout"@)),
        stderr_resource: Some(stream_address(job, "stderr"@)),
        read_tool: Some("read_job_log"@),
    }
}

fn show_outcome(job_id: JobId, output: &LoggedOutput, budget: usize) -> (outcome: CommandOutcome)
    ensures
        outcome@ == shown_outcome(job_id.bits, *output, budget as int),
        outcome@.consistent(),
{
    let budgets: (usize, usize) = split_preview_budget(budget, &output.stdout, &output.stderr);
    let out: StreamPreview = stream_preview(&output.stdout, budgets.0);
    let err: StreamPreview = stream_preview(&output.stderr, budgets.1);
    let trigger: Option<String> = match output.termination.trigger() {
        Some(trigger) => Some(trigger.as_str().to_owned()),
        None => None,
    };
    let bounded: BoundedCommandOutput = BoundedCommandOutput {
        job_id,
        exit_code: output.status,
        termination: output.termination.as_str().to_owned(),
        termination_trigger: trigger,
        stdout_bytes: out.bytes,
        stderr_bytes: err.bytes,
        stdout_truncated: out.truncated,
        stderr_truncated: err.truncated,
        stdout_head: out.head,
        stdout_tail: out.tail,
        stderr_head: err.head,
        stderr_tail: err.tail,
        stdout_resource: resource_uri(job_id, "stdout"),
        stderr_resource: resource_uri(job_id, "stderr"),
        read_tool: "read_job_log".to_owned(),
    };
    let outcome: CommandOutcome = CommandOutcome::from_bounded_output(bounded);
    proof {
        assert(outcome@ =~= shown_outcome(job_id.bits, *output, budget as int));
    }
    outcome
}

/// How many bytes an answer can take on the wire, its line end among them, under any identifier that a
/// request may have.
pub open spec fn answer_bytes(answer: JsonView) -> int {
    1 + byte_len(compact(success_response(JsonView::Text(longest_id()), answer))) as int
}

fn answer_length(outcome: &CommandOutcome) -> (bytes: usize)
    ensures
        bytes == if answer_bytes(outcome@.answer()) <= usize::MAX {
            answer_bytes(outcome@.answer())
        } else {
            usize::MAX as int
        },
{
    let response: Json = respond(Json::Text(longest_id_text()), Ok(outcome.tool_result()));
    byte_length(render(&response).as_str()).saturating_add(1)
}

/// A budget with which an answer was too long by `excess` bytes, lowered: by as much, but by no more than
/// an eighth of it, since an answer shows each stream twice, and some of its bytes take several; and by
/// 64 at least.
pub open spec fn lowered(budget: int, excess: int) -> int {
    let part = if excess < budget / 8 {
        excess
    } else {
        budget / 8
    };
    let step = if part > 64 {
        part
    } else {
        64
    };
    if budget > step {
        budget - step
    } else {
        0
    }
}

fn lower(budget: usize, excess: usize) -> (next: usize)
    ensures
        next == lowered(budget as int, excess as int),
{
    let part: usize = if excess < budget / 8 {
        excess
    } else {
        budget / 8
    };
    let step: usize = if part > 64 {
        part
    } else {
        64
    };
    budget.saturating_sub(step)
}

/// The budget with which the outcome of a command fits into a limit: beginning with `budget`, it is
/// lowered until the answer fits or nothing is left.
pub open spec fn outcome_budget(job: u128, output: LoggedOutput, limit: int, budget: int) -> int
    decreases budget,
{
    let bytes = answer_bytes(shown_outcome(job, output, budget).answer());
    if bytes <= limit || budget <= 0 {
        budget
    } else {
        outcome_budget(job, output, limit, lowered(budget, bytes - limit))
    }
}

/// The outcome of a command that has ended, with as much of its streams as fits into a limit.
pub open spec fn outcome_within(job: u128, output: LoggedOutput, requested_limit: int) -> OutcomeView {
    let limit = clamped_limit(requested_limit);
    shown_outcome(job, output, outcome_budget(job, output, limit, limit))
}

proof fn lemma_outcome_words()
    ensures
        forall|status: CommandStatus|
            unescaped(#[trigger] status.word()) && status.word().len() <= 9,
        forall|kind: CommandErrorKind|
            unescaped(#[trigger] kind.word()) && kind.word().len() <= 17,
{
    reveal_strlit("running");
    reveal_strlit("completed");
    reveal_strlit("failed");
    reveal_strlit("stopped");
    reveal_strlit("process_exit");
    reveal_strlit("spawn_error");
    reveal_strlit("cancellation");
    reveal_strlit("approval_denied");
    reveal_strlit("invalid_arguments");
    reveal_strlit("internal");
}

/// The sentence about the end of a command takes at most 64 bytes.
proof fn lemma_class_words(exit_code: i32, termination: Termination)
    ensures
        ({
            let message = class_of(exit_code, termination.word(), cause_word(termination)).4;
            unescaped(message) && message.len() <= 64
        }),
{
    lemma_words();
    lemma_decimal_printable(exit_code as int);
    reveal_strlit("Command completed successfully.");
    reveal_strlit("Command exited with status ");
    reveal_strlit(".");
    reveal_strlit("Command was stopped by request.");
    reveal_strlit("Command exceeded its execution deadline.");
    reveal_strlit("Command was cancelled.");
    reveal_strlit("Command process tree was force-killed after ");
    reveal_strlit("Command process tree was force-killed.");
    reveal_strlit("Command ended with lifecycle state ");
}

/// The text of an outcome that shows nothing of the streams takes at most 157 bytes.
proof fn lemma_bare_text(job: u128, output: LoggedOutput)
    ensures
        unescaped(shown_outcome(job, output, 0).readable()),
        shown_outcome(job, output, 0).readable().len() <= 157,
{
    let outcome = shown_outcome(job, output, 0);
    lemma_class_words(output.status, output.termination);
    lemma_words();
    lemma_decimal_printable(output.status as int);
    lemma_uuid_text(job);
    reveal_strlit(" Exit code: ");
    reveal_strlit(".");
    reveal_strlit(" Job: ");
    reveal_strlit(" Termination: ");
}

/// The bytes that the values of an outcome take that shows nothing of the streams, with those of its
/// sentence and of the addresses of the streams.
spec fn value_sizes(message: int, address: int) -> Seq<int> {
    seq![
        1,
        5,
        11,
        19,
        11,
        5,
        38,
        message,
        13,
        14,
        20,
        20,
        5,
        5,
        2,
        2,
        2,
        2,
        address,
        address,
        14,
    ]
}

/// The values of the part of an outcome that tells how the command ended.
proof fn lemma_end_sizes(outcome: OutcomeView)
    requires
        outcome.schema_version == COMMAND_RESULT_SCHEMA_VERSION,
    ensures
        byte_len(compact(JsonView::Int(outcome.schema_version as int))) == 1,
        byte_len(compact(JsonView::Bool(outcome.ok))) <= 5,
        byte_len(compact(JsonView::Text(outcome.status.word()))) <= 11,
        byte_len(compact(outcome.error_kind_json())) <= 19,
        byte_len(compact(outcome.exit_code_json())) <= 11,
        byte_len(compact(JsonView::Bool(outcome.retryable))) <= 5,
{
    lemma_outcome_words();
    lemma_plain_sizes(0);
    assert(decimal(1) =~= seq!['1']);
    lemma_printable_bytes(decimal(1));
    lemma_word_size(outcome.status.word());
    if let Some(kind) = outcome.error_kind {
        lemma_word_size(kind.word());
    }
    if let Some(code) = outcome.exit_code {
        lemma_plain_sizes(code as int);
    }
}

/// The values of the part of an outcome that tells of the streams.
proof fn lemma_stream_sizes(outcome: OutcomeView)
    requires
        outcome.stdout_head.len() == 0 && outcome.stdout_tail.len() == 0,
        outcome.stderr_head.len() == 0 && outcome.stderr_tail.len() == 0,
    ensures
        byte_len(compact(JsonView::Int(outcome.stdout_bytes as int))) <= 20,
        byte_len(compact(JsonView::Int(outcome.stderr_bytes as int))) <= 20,
        byte_len(compact(JsonView::Bool(outcome.stdout_truncated))) <= 5,
        byte_len(compact(JsonView::Bool(outcome.stderr_truncated))) <= 5,
        byte_len(compact(JsonView::Text(outcome.stdout_head))) == 2,
        byte_len(compact(JsonView::Text(outcome.stdout_tail))) == 2,
        byte_len(compact(JsonView::Text(outcome.stderr_head))) == 2,
        byte_len(compact(JsonView::Text(outcome.stderr_tail))) == 2,
{
    lemma_plain_sizes(outcome.stdout_bytes as int);
    lemma_plain_sizes(outcome.stderr_bytes as int);
    lemma_word_size(outcome.stdout_head);
    lemma_word_size(outcome.stdout_tail);
    lemma_word_size(outcome.stderr_head);
    lemma_word_size(outcome.stderr_tail);
}

/// An outcome that shows nothing of the streams takes 507 bytes as data at most, besides its sentence
/// and the addresses of the streams.
proof fn lemma_bare_data(outcome: OutcomeView, message: int, address: int)
    requires
        outcome.schema_version == COMMAND_RESULT_SCHEMA_VERSION,
        outcome.stdout_head.len() == 0 && outcome.stdout_tail.len() == 0,
        outcome.stderr_head.len() == 0 && outcome.stderr_tail.len() == 0,
        byte_len(compact(JsonView::optional_text(outcome.job_id))) <= 38,
        byte_len(compact(JsonView::Text(outcome.message))) <= message,
        byte_len(compact(JsonView::optional_text(outcome.termination))) <= 13,
        byte_len(compact(JsonView::optional_text(outcome.termination_trigger))) <= 14,
        byte_len(compact(JsonView::optional_text(outcome.stdout_resource))) <= address,
        byte_len(compact(JsonView::optional_text(outcome.stderr_resource))) <= address,
        byte_len(compact(JsonView::optional_text(outcome.read_tool))) <= 14,
    ensures
        byte_len(compact(outcome.json())) <= 507 + message + 2 * address,
{
    let entries = outcome.entries();
    let keys = name_sizes();
    let values = value_sizes(message, address);
    assert(entries_within(entries, keys, values)) by {
        lemma_end_sizes(outcome);
        lemma_stream_sizes(outcome);
        assert forall|i: int| 0 <= i < entries.len() implies byte_len(
            quoted((#[trigger] entries[i]).0),
        ) <= keys[i] && byte_len(compact(entries[i].1)) <= values[i] by {
            lemma_name_sizes(i);
            assert(entries[i].0 == property_names()[i]);
        }
    }
    lemma_filled_bytes(entries, keys, values, entries.len() as int);
    assert(sum_to(keys, 21) == 274 && sum_to(values, 21) == 189 + message + 2 * address) by {
        reveal_with_fuel(sum_to, 22);
    }
}

/// An answer takes 81 bytes at most besides its text and its data.
proof fn lemma_answer_parts(outcome: OutcomeView)
    ensures
        byte_len(compact(outcome.answer())) <= byte_len(quoted(outcome.readable())) + byte_len(
            compact(outcome.json()),
        ) + 81,
{
    lemma_envelope_words();
    lemma_object_bytes();
    lemma_plain_sizes(0);
    reveal_strlit("structuredContent");
    reveal_strlit("isError");
    lemma_word_size("type"@);
    lemma_word_size("text"@);
    lemma_word_size("content"@);
    lemma_word_size("structuredContent"@);
    lemma_word_size("isError"@);
    let empty = JsonView::object();
    let text = JsonView::Text(outcome.readable());
    let typed = empty.with("type"@, JsonView::Text("text"@));
    lemma_with_bytes(empty, "type"@, JsonView::Text("text"@));
    let item = typed.with("text"@, text);
    lemma_with_bytes(typed, "text"@, text);
    let content = JsonView::list().item(item);
    lemma_single_item_bytes(item);
    let told = empty.with("content"@, content);
    lemma_with_bytes(empty, "content"@, content);
    let structured = told.with("structuredContent"@, outcome.json());
    lemma_with_bytes(told, "structuredContent"@, outcome.json());
    lemma_with_bytes(structured, "isError"@, JsonView::Bool(!outcome.ok));
}

/// A response takes 293 bytes at most besides what it answers.
proof fn lemma_answer_bytes(answer: JsonView)
    ensures
        answer_bytes(answer) <= byte_len(compact(answer)) + 293,
{
    let id = JsonView::Text(longest_id());
    lemma_response_bytes(id, "result"@, answer);
    lemma_envelope_words();
    lemma_word_size("jsonrpc"@);
    lemma_word_size("2.0"@);
    lemma_word_size("id"@);
    lemma_word_size("result"@);
    lemma_word_size(longest_id());
}

/// An outcome that shows nothing of the streams takes at most 697 bytes as data.
proof fn lemma_shown_data(job: u128, output: LoggedOutput)
    ensures
        byte_len(compact(shown_outcome(job, output, 0).json())) <= 697,
{
    let outcome = shown_outcome(job, output, 0);
    lemma_words();
    lemma_class_words(output.status, output.termination);
    lemma_uuid_text(job);
    reveal_strlit("stdout");
    reveal_strlit("stderr");
    lemma_address_bytes(job, "stdout"@);
    lemma_address_bytes(job, "stderr"@);
    reveal_strlit("read_job_log");
    lemma_word_size(uuid_text(job));
    lemma_word_size(outcome.message);
    lemma_word_size(output.termination.word());
    if let Some(cause) = output.termination.cause() {
        lemma_word_size(cause.word());
    }
    lemma_plain_sizes(0);
    lemma_word_size(stream_address(job, "stdout"@));
    lemma_word_size(stream_address(job, "stderr"@));
    lemma_word_size("read_job_log"@);
    lemma_bare_data(outcome, 66, 62);
}

/// The answer that shows nothing of the streams fits into the smallest limit.
proof fn lemma_bare_answer_fits(job: u128, output: LoggedOutput)
    ensures
        answer_bytes(shown_outcome(job, output, 0).answer()) <= MIN_INLINE_OUTPUT_LIMIT,
{
    let outcome = shown_outcome(job, output, 0);
    lemma_shown_data(job, output);
    lemma_bare_text(job, output);
    lemma_word_size(outcome.readable());
    lemma_answer_parts(outcome);
    lemma_answer_bytes(outcome.answer());
}

/// The text of an outcome without streams takes at most 70 bytes besides its sentence.
proof fn lemma_text_without_streams(outcome: OutcomeView)
    requires
        outcome.without_streams(),
    ensures
        byte_len(quoted(outcome.readable())) <= escaped_bytes(outcome.message) + 72,
{
    let message = outcome.message;
    let with_job = match outcome.job_id {
        Some(job) => if contains_text(message, job) {
            message
        } else {
            message + " Job: "@ + job + "."@
        },
        None => message,
    };
    reveal_strlit(" Job: ");
    reveal_strlit(".");
    reveal_strlit(" Termination: ");
    reveal_strlit("cancelled");
    reveal_strlit("orphaned");
    lemma_unescaped_size(" Job: "@);
    lemma_unescaped_size("."@);
    lemma_unescaped_size(" Termination: "@);
    assert(escaped_bytes(with_job) <= escaped_bytes(message) + 43) by {
        if let Some(job) = outcome.job_id {
            let bits = choose|bits: u128| job == #[trigger] uuid_text(bits);
            lemma_uuid_text(bits);
            lemma_unescaped_size(job);
            lemma_escaped_bytes_concat(message, " Job: "@);
            lemma_escaped_bytes_concat(message + " Job: "@, job);
            lemma_escaped_bytes_concat(message + " Job: "@ + job, "."@);
        }
    }
    if let Some(termination) = outcome.termination {
        lemma_unescaped_size(termination);
        lemma_escaped_bytes_concat(with_job, " Termination: "@);
        lemma_escaped_bytes_concat(with_job + " Termination: "@, termination);
        lemma_escaped_bytes_concat(with_job + " Termination: "@ + termination, "."@);
    }
    lemma_quoted_bytes(outcome.readable());
}

/// The response that tells of a command without output fits into the smallest limit, whatever the reason
/// that it gives.
pub proof fn law_reasons_fit(outcome: OutcomeView)
    requires
        outcome.without_streams(),
    ensures
        answer_bytes(outcome.brief().answer()) <= MIN_INLINE_OUTPUT_LIMIT,
{
    let told = outcome.brief();
    lemma_brief(outcome.message, MAX_REASON_BYTES as int);
    lemma_quoted_bytes(told.message);
    lemma_plain_sizes(0);
    if let Some(job) = told.job_id {
        let bits = choose|bits: u128| job == #[trigger] uuid_text(bits);
        lemma_uuid_text(bits);
        lemma_word_size(job);
    }
    reveal_strlit("cancelled");
    reveal_strlit("orphaned");
    if let Some(termination) = told.termination {
        lemma_word_size(termination);
    }
    lemma_bare_data(told, 514, 4);
    lemma_text_without_streams(told);
    lemma_answer_parts(told);
    lemma_answer_bytes(told.answer());
}

proof fn lemma_outcome_budget_fits(job: u128, output: LoggedOutput, limit: int, budget: int)
    requires
        MIN_INLINE_OUTPUT_LIMIT <= limit,
        0 <= budget,
    ensures
        ({
            let fitting = outcome_budget(job, output, limit, budget);
            &&& 0 <= fitting <= budget
            &&& answer_bytes(shown_outcome(job, output, fitting).answer()) <= limit
        }),
    decreases budget,
{
    let bytes = answer_bytes(shown_outcome(job, output, budget).answer());
    if bytes > limit {
        if budget == 0 {
            lemma_bare_answer_fits(job, output);
        } else {
            lemma_outcome_budget_fits(job, output, limit, lowered(budget, bytes - limit));
        }
    }
}

/// Under every identifier that a request may have, the line of the response takes no more than the bytes
/// that are counted for its answer, and just as many under the longest.
pub proof fn law_answer_bytes_bound_responses(id: JsonView, answer: JsonView)
    requires
        byte_len(compact(id)) <= MAX_JSONRPC_ID_SERIALIZED_BYTES,
    ensures
        byte_len(compact(response_view(id, Ok(answer))) + "\n"@) <= answer_bytes(answer),
        byte_len(compact(id)) == MAX_JSONRPC_ID_SERIALIZED_BYTES ==> byte_len(
            compact(response_view(id, Ok(answer))) + "\n"@,
        ) == answer_bytes(answer),
{
    let longest = JsonView::Text(longest_id());
    lemma_response_bytes(id, "result"@, answer);
    lemma_response_bytes(longest, "result"@, answer);
    lemma_envelope_words();
    lemma_quoted_unescaped(longest_id());
    lemma_printable_bytes(compact(longest));
    reveal_strlit("\n");
    assert("\n"@ =~= seq!['\n']);
    lemma_byte_len_one('\n');
    lemma_byte_len_concat(compact(response_view(id, Ok(answer))), "\n"@);
}

/// Whatever a command wrote and whatever the identifier of the request, the response that tells its
/// outcome fits into the limit for output, its text and its data together.
pub proof fn law_outcomes_fit(id: JsonView, job: u128, output: LoggedOutput, requested_limit: int)
    requires
        byte_len(compact(id)) <= MAX_JSONRPC_ID_SERIALIZED_BYTES,
    ensures
        answer_bytes(outcome_within(job, output, requested_limit).answer()) <= clamped_limit(
            requested_limit,
        ),
        byte_len(
            compact(response_view(id, Ok(outcome_within(job, output, requested_limit).answer())))
                + "\n"@,
        ) <= clamped_limit(requested_limit),
{
    let limit = clamped_limit(requested_limit);
    lemma_outcome_budget_fits(job, output, limit, limit);
    law_answer_bytes_bound_responses(id, outcome_within(job, output, requested_limit).answer());
}

/// The outcome of a command that has ended, with as much of its streams as fits into the limit.
pub fn bounded_outcome(job_id: JobId, output: &LoggedOutput, requested_limit: usize) -> (outcome:
    CommandOutcome)
    ensures
        outcome@ == outcome_within(job_id.bits, *output, requested_limit as int),
        outcome@.consistent(),
        answer_bytes(outcome@.answer()) <= clamped_limit(requested_limit as int),
{
    let limit: usize = clamp_limit(requested_limit);
    let mut budget: usize = limit;
    proof {
        lemma_outcome_budget_fits(job_id.bits, *output, limit as int, limit as int);
    }
    loop
        invariant
            limit == clamped_limit(requested_limit as int),
            budget <= limit,
            outcome_budget(job_id.bits, *output, limit as int, budget as int) == outcome_budget(
                job_id.bits,
                *output,
                limit as int,
                limit as int,
            ),
            answer_bytes(outcome_within(job_id.bits, *output, requested_limit as int).answer())
                <= limit,
        decreases budget,
    {
        let outcome: CommandOutcome = show_outcome(job_id, output, budget);
        let bytes: usize = answer_length(&outcome);
        if bytes <= limit || budget == 0 {
            return outcome;
        }
        budget = lower(budget, bytes - limit);
    }
}

/// What the outcome of a command shows of each stream comes from that stream: its two ends, as much of them
/// as the share of the budget that the stream has allows; and it tells how much the stream holds, where it can
/// be read, and how the command ended.
pub proof fn law_outcomes_show_their_streams(job: u128, output: LoggedOutput, budget: int)
    requires
        0 <= budget,
    ensures
        ({
            let outcome = shown_outcome(job, output, budget);
            let both = output.stdout.bytes > 0 && output.stderr.bytes > 0;
            let out = if output.stdout.bytes == 0 {
                0
            } else if both {
                (budget + 1) / 2
            } else {
                budget
            };
            let err = if output.stderr.bytes == 0 {
                0
            } else if both {
                budget / 2
            } else {
                budget
            };
            &&& shows_ends(
                output.stdout,
                out,
                outcome.stdout_truncated,
                outcome.stdout_head,
                outcome.stdout_tail,
            )
            &&& shows_ends(
                output.stderr,
                err,
                outcome.stderr_truncated,
                outcome.stderr_head,
                outcome.stderr_tail,
            )
            &&& outcome.stdout_bytes == output.stdout.bytes
            &&& outcome.stderr_bytes == output.stderr.bytes
            &&& outcome.stdout_resource == Some(
                "local-mcp://jobs/"@ + uuid_text(job) + "/"@ + "stdout"@,
            )
            &&& outcome.stderr_resource == Some(
                "local-mcp://jobs/"@ + uuid_text(job) + "/"@ + "stderr"@,
            )
            &&& outcome.read_tool == Some("read_job_log"@)
            &&& outcome.job_id == Some(uuid_text(job))
            &&& outcome.exit_code == Some(output.status)
        }),
{
    let (out, err) = shared_budget(budget, output.stdout, output.stderr);
    law_previews_show_the_ends_of_their_stream(output.stdout, out);
    law_previews_show_the_ends_of_their_stream(output.stderr, err);
}

/// What is shown of a stream depends on that stream and its share of the budget alone: whatever the other
/// stream holds, as long as it holds something, the same is shown.
pub proof fn law_streams_are_shown_apart(
    job: u128,
    output: LoggedOutput,
    other: LoggedOutput,
    budget: int,
)
    requires
        0 <= budget,
        output.stdout.bytes == 0 <==> other.stdout.bytes == 0,
        output.stderr.bytes == 0 <==> other.stderr.bytes == 0,
    ensures
        ({
            let one = shown_outcome(job, output, budget);
            let two = shown_outcome(job, other, budget);
            &&& output.stderr == other.stderr ==> one.stderr_head == two.stderr_head
                && one.stderr_tail == two.stderr_tail && one.stderr_truncated
                == two.stderr_truncated
            &&& output.stdout == other.stdout ==> one.stdout_head == two.stdout_head
                && one.stdout_tail == two.stdout_tail && one.stdout_truncated
                == two.stdout_truncated
        }),
{
}

/// The end of a command tells whether it succeeded: only a command that exited by itself with zero did; one
/// that exited with another status failed, and is not worth another try as it is; any other was stopped,
/// and may be tried again. The outcome says in words how it ended and what asked for it.
pub proof fn law_outcomes_tell_how_the_command_ended(job: u128, output: LoggedOutput, budget: int)
    ensures
        ({
            let outcome = shown_outcome(job, output, budget);
            let exited = output.termination is Exited;
            &&& outcome.ok <==> exited && output.status == 0
            &&& outcome.status == if !exited {
                CommandStatus::Stopped
            } else if output.status == 0 {
                CommandStatus::Completed
            } else {
                CommandStatus::Failed
            }
            &&& outcome.error_kind == if !exited {
                Some(CommandErrorKind::Cancellation)
            } else if output.status == 0 {
                None
            } else {
                Some(CommandErrorKind::ProcessExit)
            }
            &&& outcome.retryable <==> !exited
            &&& outcome.termination == Some(
                match output.termination {
                    Termination::Exited => "exited"@,
                    Termination::Stopped => "stopped"@,
                    Termination::TimedOut => "timeout"@,
                    Termination::Cancelled => "cancelled"@,
                    Termination::ForcedKill(_) => "forced_kill"@,
                },
            )
            &&& outcome.termination_trigger == match output.termination {
                Termination::Exited => None,
                Termination::Stopped => Some("stop"@),
                Termination::TimedOut => Some("timeout"@),
                Termination::Cancelled => Some("cancellation"@),
                Termination::ForcedKill(StopTrigger::Requested) => Some("stop"@),
                Termination::ForcedKill(StopTrigger::Timeout) => Some("timeout"@),
                Termination::ForcedKill(StopTrigger::Cancellation) => Some("cancellation"@),
                Termination::ForcedKill(StopTrigger::Completion) => Some("completion"@),
            }
            &&& outcome.message == match output.termination {
                Termination::Exited => if output.status == 0 {
                    "Command completed successfully."@
                } else {
                    "Command exited with status "@ + decimal(output.status as int) + "."@
                },
                Termination::Stopped => "Command was stopped by request."@,
                Termination::TimedOut => "Command exceeded its execution deadline."@,
                Termination::Cancelled => "Command was cancelled."@,
                Termination::ForcedKill(_) => "Command process tree was force-killed after "@
                    + outcome.termination_trigger->0 + "."@,
            }
        }),
{
    reveal_strlit("exited");
    reveal_strlit("stopped");
    reveal_strlit("timeout");
    reveal_strlit("cancelled");
    reveal_strlit("forced_kill");
    assert("exited"@.len() == 6 && "stopped"@.len() == 7 && "timeout"@.len() == 7);
    assert("stopped"@[0] == 's' && "timeout"@[0] == 't');
    assert("cancelled"@.len() == 9 && "forced_kill"@.len() == 11);
}

proof fn lemma_outcome_budget_is_not_wasted(job: u128, output: LoggedOutput, limit: int, budget: int)
    requires
        0 <= budget <= limit,
    ensures
        ({
            let fitting = outcome_budget(job, output, limit, budget);
            fitting == budget || exists|more: int|
                fitting < more <= limit && answer_bytes(
                    (#[trigger] shown_outcome(job, output, more)).answer(),
                ) > limit && (more - fitting <= 64 || more - fitting <= more / 8)
        }),
    decreases budget,
{
    let bytes = answer_bytes(shown_outcome(job, output, budget).answer());
    if bytes > limit && budget > 0 {
        lemma_outcome_budget_is_not_wasted(job, output, limit, lowered(budget, bytes - limit));
    }
}

/// An answer shows as much as fits: with the whole limit for a budget where that fits, and else with a budget
/// that follows one with which the answer was too long, by no more than 64 bytes or an eighth of it.
pub proof fn law_answers_show_as_much_as_fits(job: u128, output: LoggedOutput, requested_limit: int)
    ensures
        ({
            let limit = clamped_limit(requested_limit);
            exists|budget: int|
                {
                    &&& 0 <= budget <= limit
                    &&& outcome_within(job, output, requested_limit) == #[trigger] shown_outcome(
                        job,
                        output,
                        budget,
                    )
                    &&& budget == limit || exists|more: int|
                        budget < more <= limit && answer_bytes(
                            (#[trigger] shown_outcome(job, output, more)).answer(),
                        ) > limit && (more - budget <= 64 || more - budget <= more / 8)
                }
        }),
{
    let limit = clamped_limit(requested_limit);
    lemma_outcome_budget_fits(job, output, limit, limit);
    lemma_outcome_budget_is_not_wasted(job, output, limit, limit);
}

} // verus!
