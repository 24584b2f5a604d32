//! What is answered of a command's output, and which of its logs are kept and read.
use vstd::prelude::*;

use crate::command_answers::{answer_bytes, bounded_outcome, outcome_within};
use crate::command_result::CommandOutcome;
use crate::encoding::{from_utf8_lossy, lossy_text};
use crate::job_id::{lemma_uuid_text, uuid_text, JobId};
use crate::json::{
    compact, distinct_keys, filled, lemma_entries_held, member, ordered, pairs_view, quoted, render, Json,
    JsonView,
};
use crate::json_size::{
    lemma_decimal_printable, lemma_filled_bytes, lemma_filled_printable, lemma_object_bytes,
    lemma_plain_sizes, lemma_printable_bytes, lemma_quoted_printable, lemma_single_item_bytes,
    lemma_value_bytes, lemma_word_bytes, lemma_word_size, printable, small_object, sum_to,
    unescaped,
};
use crate::kept_outcomes::{given, kept_text, render_outcome, told};
use crate::sandbox::{LoggedOutput, StopTrigger, StreamCapture, Termination};
use crate::text::{
    bounded_utf8_prefix, bounded_utf8_suffix, byte_len, byte_length, is_longest_beginning,
    is_longest_ending, law_cut_texts_keep_as_much_as_fits, lemma_byte_len_bounds, parse_usize, parsed_usize,
    prefix_within, suffix_within,
};

verus! {

pub const DEFAULT_INLINE_OUTPUT_LIMIT: usize = 16384;

pub const MIN_INLINE_OUTPUT_LIMIT: usize = 2048;

pub const MAX_INLINE_OUTPUT_LIMIT: usize = 1048576;

pub const DEFAULT_LOG_READ_BYTES: usize = 8192;

pub const MAX_LOG_READ_BYTES: usize = 65536;

pub const MAX_JSONRPC_ID_SERIALIZED_BYTES: usize = 256;

pub const LOG_RETENTION_DIRECTORIES: usize = 128;

/// A limit, moved into the range that limits may have.
pub open spec fn clamped_limit(limit: int) -> int {
    if limit < MIN_INLINE_OUTPUT_LIMIT {
        MIN_INLINE_OUTPUT_LIMIT as int
    } else if limit > MAX_INLINE_OUTPUT_LIMIT {
        MAX_INLINE_OUTPUT_LIMIT as int
    } else {
        limit
    }
}

/// The limit that a setting asks for: its number moved into the allowed range, or the default
/// where there is no setting or it is no number.
pub open spec fn limit_of_setting(setting: Option<Seq<char>>) -> int {
    match setting {
        Some(text) => match parsed_usize(text) {
            Some(number) => clamped_limit(number),
            None => DEFAULT_INLINE_OUTPUT_LIMIT as int,
        },
        None => DEFAULT_INLINE_OUTPUT_LIMIT as int,
    }
}

pub fn clamp_limit(limit: usize) -> (clamped: usize)
    ensures
        clamped == clamped_limit(limit as int),
{
    if limit < MIN_INLINE_OUTPUT_LIMIT {
        MIN_INLINE_OUTPUT_LIMIT
    } else if limit > MAX_INLINE_OUTPUT_LIMIT {
        MAX_INLINE_OUTPUT_LIMIT
    } else {
        limit
    }
}

/// How many bytes an answer may take, by the setting of the server.
pub fn inline_output_limit(setting: Option<&str>) -> (limit: usize)
    ensures
        limit == limit_of_setting(
            match setting {
                Some(text) => Some(text@),
                None => None,
            },
        ),
        MIN_INLINE_OUTPUT_LIMIT <= limit <= MAX_INLINE_OUTPUT_LIMIT,
{
    match setting {
        Some(text) => match parse_usize(text) {
            Some(number) => clamp_limit(number),
            None => DEFAULT_INLINE_OUTPUT_LIMIT,
        },
        None => DEFAULT_INLINE_OUTPUT_LIMIT,
    }
}

/// How many bytes are kept of each end of a stream, by the setting of the server.
pub fn capture_preview_limit(setting: Option<&str>) -> (limit: usize)
    ensures
        limit == limit_of_setting(
            match setting {
                Some(text) => Some(text@),
                None => None,
            },
        ),
        MIN_INLINE_OUTPUT_LIMIT <= limit <= MAX_INLINE_OUTPUT_LIMIT,
{
    inline_output_limit(setting)
}

/// Whether the identifier of a request is short enough to be answered.
pub fn jsonrpc_id_within_budget(id: &Json) -> (within: bool)
    requires
        ordered(id@),
    ensures
        within == (byte_len(compact(id@)) <= MAX_JSONRPC_ID_SERIALIZED_BYTES),
{
    byte_length(render(id).as_str()) <= MAX_JSONRPC_ID_SERIALIZED_BYTES
}

/// The address of a stored stream.
pub open spec fn stream_address(job: u128, stream: Seq<char>) -> Seq<char> {
    "local-mcp://jobs/"@ + uuid_text(job) + "/"@ + stream
}

/// The address of a stored stream.
pub fn resource_uri(job_id: JobId, stream: &str) -> (uri: String)
    ensures
        uri@ == stream_address(job_id.bits, stream@),
{
    let mut uri: String = "local-mcp://jobs/".to_owned();
    uri.append(job_id.to_text().as_str());
    uri.append("/");
    uri.append(stream);
    uri
}

/// What an answer shows of a stream.
#[derive(Debug)]
pub struct StreamPreview {
    pub bytes: u64,
    pub truncated: bool,
    pub head: String,
    pub tail: String,
}

/// Whether an answer leaves something of a stream out, and what it shows of its two ends.
pub open spec fn preview_of(stream: StreamCapture, budget: int) -> (bool, Seq<char>, Seq<char>) {
    if stream.bytes == 0 || budget == 0 {
        (stream.bytes != 0, Seq::empty(), Seq::empty())
    } else if stream.bytes <= budget && stream.head@.len() >= stream.bytes {
        (false, lossy_text(stream.head@.take(stream.bytes as int)), Seq::empty())
    } else {
        (
            true,
            prefix_within(lossy_text(stream.head@), budget / 2 + budget % 2),
            suffix_within(lossy_text(stream.tail@), budget / 2),
        )
    }
}

/// What an answer shows of a stream with a budget of bytes for it.
pub fn stream_preview(stream: &StreamCapture, budget: usize) -> (preview: StreamPreview)
    ensures
        preview.bytes == stream.bytes,
        (preview.truncated, preview.head@, preview.tail@) == preview_of(*stream, budget as int),
{
    if stream.bytes == 0 || budget == 0 {
        return StreamPreview {
            bytes: stream.bytes,
            truncated: stream.bytes != 0,
            head: String::new(),
            tail: String::new(),
        };
    }
    if stream.bytes <= budget as u64 && stream.head.len() as u64 >= stream.bytes {
        let complete: &[u8] = stream.head.as_slice().split_at(stream.bytes as usize).0;
        proof {
            assert(complete@ =~= stream.head@.take(stream.bytes as int));
        }
        return StreamPreview {
            bytes: stream.bytes,
            truncated: false,
            head: from_utf8_lossy(complete),
            tail: String::new(),
        };
    }
    let head: String = from_utf8_lossy(stream.head.as_slice());
    let tail: String = from_utf8_lossy(stream.tail.as_slice());
    StreamPreview {
        bytes: stream.bytes,
        truncated: true,
        head: bounded_utf8_prefix(head.as_str(), budget / 2 + budget % 2),
        tail: bounded_utf8_suffix(tail.as_str(), budget / 2),
    }
}

/// How a budget is shared between the two streams of a command.
pub open spec fn shared_budget(total: int, stdout: StreamCapture, stderr: StreamCapture) -> (int, int) {
    if stdout.bytes == 0 && stderr.bytes == 0 {
        (0, 0)
    } else if stderr.bytes == 0 {
        (total, 0)
    } else if stdout.bytes == 0 {
        (0, total)
    } else {
        (total / 2 + total % 2, total / 2)
    }
}

/// Shares a budget between the two streams of a command: a stream that wrote nothing needs none.
pub fn split_preview_budget(
    total: usize,
    stdout: &StreamCapture,
    stderr: &StreamCapture,
) -> (budgets: (usize, usize))
    ensures
        (budgets.0 as int, budgets.1 as int) == shared_budget(total as int, *stdout, *stderr),
        budgets.0 + budgets.1 <= total,
{
    if stdout.bytes == 0 && stderr.bytes == 0 {
        (0, 0)
    } else if stderr.bytes == 0 {
        (total, 0)
    } else if stdout.bytes == 0 {
        (0, total)
    } else {
        (total / 2 + total % 2, total / 2)
    }
}

/// The word for how a command fared.
pub open spec fn status_word(exit_code: i32, termination: Termination) -> Seq<char> {
    if termination == Termination::Exited {
        if exit_code == 0 {
            "completed"@
        } else {
            "failed"@
        }
    } else {
        "stopped"@
    }
}

/// What the answer about a finished command holds: names and values, with a budget of bytes for what it
/// shows of the streams.
pub open spec fn result_entries(
    job: u128,
    exit_code: i32,
    termination: Termination,
    stdout: StreamCapture,
    stderr: StreamCapture,
    budget: int,
) -> Seq<(Seq<char>, JsonView)> {
    let budgets = shared_budget(budget, stdout, stderr);
    let out = preview_of(stdout, budgets.0);
    let err = preview_of(stderr, budgets.1);
    seq![
        ("job_id"@, JsonView::Text(uuid_text(job))),
        ("status"@, JsonView::Text(status_word(exit_code, termination))),
        ("exit_code"@, JsonView::Int(exit_code as int)),
        ("termination"@, JsonView::Text(termination.word())),
        (
            "termination_trigger"@,
            JsonView::optional_text(
                match termination.cause() {
                    Some(trigger) => Some(trigger.word()),
                    None => None,
                },
            ),
        ),
        ("stdout_bytes"@, JsonView::Int(stdout.bytes as int)),
        ("stderr_bytes"@, JsonView::Int(stderr.bytes as int)),
        ("stdout_truncated"@, JsonView::Bool(out.0)),
        ("stderr_truncated"@, JsonView::Bool(err.0)),
        ("stdout_head"@, JsonView::Text(out.1)),
        ("stdout_tail"@, JsonView::Text(out.2)),
        ("stderr_head"@, JsonView::Text(err.1)),
        ("stderr_tail"@, JsonView::Text(err.2)),
        ("stdout_resource"@, JsonView::Text(stream_address(job, "stdout"@))),
        ("stderr_resource"@, JsonView::Text(stream_address(job, "stderr"@))),
        ("read_tool"@, JsonView::Text("read_job_log"@)),
    ]
}

/// The answer about a finished command, with a budget of bytes for what it shows of the streams.
pub open spec fn result_view(
    job: u128,
    exit_code: i32,
    termination: Termination,
    stdout: StreamCapture,
    stderr: StreamCapture,
    budget: int,
) -> JsonView {
    filled(result_entries(job, exit_code, termination, stdout, stderr, budget))
}

fn result_json(
    job_id: JobId,
    exit_code: i32,
    termination: Termination,
    stdout: &StreamCapture,
    stderr: &StreamCapture,
    budget: usize,
) -> (json: Json)
    ensures
        json@ == result_view(
            job_id.bits,
            exit_code,
            termination,
            *stdout,
            *stderr,
            budget as int,
        ),
        ordered(json@),
{
    let budgets: (usize, usize) = split_preview_budget(budget, stdout, stderr);
    let out: StreamPreview = stream_preview(stdout, budgets.0);
    let err: StreamPreview = stream_preview(stderr, budgets.1);
    let status: &str = if termination == Termination::Exited {
        if exit_code == 0 {
            "completed"
        } else {
            "failed"
        }
    } else {
        "stopped"
    };
    let trigger: Json = match termination.trigger() {
        Some(trigger) => Json::text(trigger.as_str()),
        None => Json::Null,
    };
    let pairs: Vec<(&'static str, Json)> = vec![
        ("job_id", Json::Text(job_id.to_text())),
        ("status", Json::text(status)),
        ("exit_code", Json::Signed(exit_code as i64)),
        ("termination", Json::text(termination.as_str())),
        ("termination_trigger", trigger),
        ("stdout_bytes", Json::Unsigned(out.bytes)),
        ("stderr_bytes", Json::Unsigned(err.bytes)),
        ("stdout_truncated", Json::Bool(out.truncated)),
        ("stderr_truncated", Json::Bool(err.truncated)),
        ("stdout_head", Json::Text(out.head)),
        ("stdout_tail", Json::Text(out.tail)),
        ("stderr_head", Json::Text(err.head)),
        ("stderr_tail", Json::Text(err.tail)),
        ("stdout_resource", Json::Text(resource_uri(job_id, "stdout"))),
        ("stderr_resource", Json::Text(resource_uri(job_id, "stderr"))),
        ("read_tool", Json::text("read_job_log")),
    ];
    proof {
        assert(pairs_view(pairs@) =~= result_entries(
            job_id.bits,
            exit_code,
            termination,
            *stdout,
            *stderr,
            budget as int,
        ));
    }
    Json::filled(pairs)
}

/// The longest identifier that a request may have, quotes aside.
pub open spec fn longest_id() -> Seq<char> {
    Seq::new(254, |i: int| 'i')
}

/// The longest identifier that a request may have, quotes aside.
pub fn longest_id_text() -> (id: String)
    ensures
        id@ == longest_id(),
{
    let mut id: String = String::new();
    let mut count: usize = 0;
    while count < 254
        invariant
            count <= 254,
            id@ == Seq::new(count as nat, |i: int| 'i'),
        decreases 254 - count,
    {
        id.push('i');
        count = count + 1;
        proof {
            assert(id@ =~= Seq::new(count as nat, |i: int| 'i'));
        }
    }
    id
}

/// The answer to a tool call that succeeds with a text.
pub open spec fn success_envelope(text: Seq<char>) -> JsonView {
    JsonView::object()
        .with("jsonrpc"@, JsonView::Text("2.0"@))
        .with("id"@, JsonView::Text(longest_id()))
        .with("result"@, JsonView::object().with("content"@, JsonView::list().item(
            JsonView::object()
                .with("type"@, JsonView::Text("text"@))
                .with("text"@, JsonView::Text(text)),
        )))
}

/// The answer to a tool call that fails with a text.
pub open spec fn error_envelope(text: Seq<char>) -> JsonView {
    JsonView::object()
        .with("jsonrpc"@, JsonView::Text("2.0"@))
        .with("id"@, JsonView::Text(longest_id()))
        .with("error"@, JsonView::object()
            .with("code"@, JsonView::Int(-32000))
            .with("message"@, JsonView::Text(text)))
}

/// How many bytes an answer with a text can take on the wire, its line end among them.
pub open spec fn response_bytes(text: Seq<char>) -> int {
    let success = byte_len(compact(success_envelope(text)));
    let error = byte_len(compact(error_envelope(text)));
    1 + if success > error {
        success as int
    } else {
        error as int
    }
}

/// How many bytes an answer with a text can take on the wire, its line end among them.
pub fn max_jsonrpc_response_bytes(text: &str) -> (bytes: usize)
    ensures
        bytes == if response_bytes(text@) <= usize::MAX {
            response_bytes(text@)
        } else {
            usize::MAX as int
        },
{
    let id: String = longest_id_text();
    let success: Json = Json::object()
        .with("jsonrpc", Json::text("2.0"))
        .with("id", Json::text(id.as_str()))
        .with("result", Json::object().with("content", Json::list().item(
            Json::object().with("type", Json::text("text")).with("text", Json::text(text)),
        )));
    let error: Json = Json::object()
        .with("jsonrpc", Json::text("2.0"))
        .with("id", Json::text(id.as_str()))
        .with("error", Json::object()
            .with("code", Json::Signed(-32000))
            .with("message", Json::text(text)));
    let success_bytes: usize = byte_length(render(&success).as_str());
    let error_bytes: usize = byte_length(render(&error).as_str());
    let longer: usize = if success_bytes > error_bytes {
        success_bytes
    } else {
        error_bytes
    };
    longer.saturating_add(1)
}

/// The budget with which the answer about a command fits into a limit: beginning with `budget`, it
/// is lowered by as much as the answer is too long, by 64 at least, until the answer fits or
/// nothing is left.
pub open spec fn fitting_budget(
    job: u128,
    exit_code: i32,
    termination: Termination,
    stdout: StreamCapture,
    stderr: StreamCapture,
    limit: int,
    budget: int,
) -> int
    decreases budget,
{
    let bytes = response_bytes(
        compact(result_view(job, exit_code, termination, stdout, stderr, budget)),
    );
    if bytes <= limit || budget <= 0 {
        budget
    } else {
        let excess = if bytes - limit > 64 {
            bytes - limit
        } else {
            64
        };
        let lower = if budget > excess {
            budget - excess
        } else {
            0
        };
        fitting_budget(job, exit_code, termination, stdout, stderr, limit, lower)
    }
}

/// The answer about a finished command that fits into a limit.
pub open spec fn bounded_result_view(
    job: u128,
    exit_code: i32,
    termination: Termination,
    stdout: StreamCapture,
    stderr: StreamCapture,
    requested_limit: int,
) -> JsonView {
    let limit = clamped_limit(requested_limit);
    result_view(
        job,
        exit_code,
        termination,
        stdout,
        stderr,
        fitting_budget(job, exit_code, termination, stdout, stderr, limit, limit),
    )
}

/// The words for the end of a command.
pub proof fn lemma_words()
    ensures
        forall|exit_code: i32, termination: Termination|
            unescaped(#[trigger] status_word(exit_code, termination)) && status_word(
                exit_code,
                termination,
            ).len() <= 9,
        forall|termination: Termination|
            unescaped(#[trigger] termination.word()) && termination.word().len() <= 11,
        forall|trigger: StopTrigger|
            unescaped(#[trigger] trigger.word()) && trigger.word().len() <= 12,
{
    reveal_strlit("completed");
    reveal_strlit("failed");
    reveal_strlit("stopped");
    reveal_strlit("exited");
    reveal_strlit("timeout");
    reveal_strlit("cancelled");
    reveal_strlit("forced_kill");
    reveal_strlit("stop");
    reveal_strlit("cancellation");
    reveal_strlit("completion");
}

/// The address of a stream takes 54 bytes and its name.
pub proof fn lemma_address_bytes(job: u128, stream: Seq<char>)
    requires
        unescaped(stream),
    ensures
        unescaped(stream_address(job, stream)),
        stream_address(job, stream).len() == 54 + stream.len(),
{
    reveal_strlit("local-mcp://jobs/");
    reveal_strlit("/");
    lemma_uuid_text(job);
}

/// The bytes of the names in an answer as JSON strings.
spec fn key_sizes() -> Seq<int> {
    seq![8, 8, 11, 13, 21, 14, 14, 18, 18, 13, 13, 13, 13, 17, 17, 11]
}

/// The bytes that the values of an answer take that shows nothing of the streams.
spec fn value_sizes() -> Seq<int> {
    seq![38, 11, 11, 13, 14, 20, 20, 5, 5, 2, 2, 2, 2, 62, 62, 14]
}

proof fn lemma_size_sums()
    ensures
        sum_to(key_sizes(), 16) == 222,
        sum_to(value_sizes(), 16) == 283,
{
    reveal_with_fuel(sum_to, 17);
}

/// What the names in an answer take as JSON strings.
proof fn lemma_key_sizes(
    job: u128,
    exit_code: i32,
    termination: Termination,
    stdout: StreamCapture,
    stderr: StreamCapture,
    place: int,
)
    requires
        0 <= place < 16,
    ensures
        ({
            let key = result_entries(job, exit_code, termination, stdout, stderr, 0)[place].0;
            printable(quoted(key)) && byte_len(quoted(key)) == key_sizes()[place]
        }),
{
    reveal_strlit("job_id");
    reveal_strlit("status");
    reveal_strlit("exit_code");
    reveal_strlit("termination");
    reveal_strlit("termination_trigger");
    reveal_strlit("stdout_bytes");
    reveal_strlit("stderr_bytes");
    reveal_strlit("stdout_truncated");
    reveal_strlit("stderr_truncated");
    reveal_strlit("stdout_head");
    reveal_strlit("stdout_tail");
    reveal_strlit("stderr_head");
    reveal_strlit("stderr_tail");
    reveal_strlit("stdout_resource");
    reveal_strlit("stderr_resource");
    reveal_strlit("read_tool");
    lemma_word_size(result_entries(job, exit_code, termination, stdout, stderr, 0)[place].0);
}

/// What the values of an answer take that shows nothing of the streams.
proof fn lemma_bare_value_sizes(
    job: u128,
    exit_code: i32,
    termination: Termination,
    stdout: StreamCapture,
    stderr: StreamCapture,
    place: int,
)
    requires
        0 <= place < 16,
    ensures
        ({
            let value = result_entries(job, exit_code, termination, stdout, stderr, 0)[place].1;
            printable(compact(value)) && byte_len(compact(value)) <= value_sizes()[place]
        }),
{
    lemma_words();
    lemma_uuid_text(job);
    reveal_strlit("stdout");
    reveal_strlit("stderr");
    reveal_strlit("read_job_log");
    lemma_address_bytes(job, "stdout"@);
    lemma_address_bytes(job, "stderr"@);
    lemma_word_size(uuid_text(job));
    lemma_word_size(status_word(exit_code, termination));
    lemma_word_size(termination.word());
    if let Some(cause) = termination.cause() {
        lemma_word_size(cause.word());
    }
    lemma_plain_sizes(exit_code as int);
    lemma_plain_sizes(stdout.bytes as int);
    lemma_plain_sizes(stderr.bytes as int);
    lemma_word_size(Seq::empty());
    lemma_word_size(stream_address(job, "stdout"@));
    lemma_word_size(stream_address(job, "stderr"@));
    lemma_word_size("read_job_log"@);
}

/// The answer without a byte of the streams is printable and takes at most 550 bytes.
proof fn lemma_bare_result_bytes(
    job: u128,
    exit_code: i32,
    termination: Termination,
    stdout: StreamCapture,
    stderr: StreamCapture,
)
    ensures
        small_object(result_view(job, exit_code, termination, stdout, stderr, 0), 550),
{
    let entries = result_entries(job, exit_code, termination, stdout, stderr, 0);
    lemma_size_sums();
    assert(entries.len() == 16);
    assert forall|i: int| 0 <= i < 16 implies printable(quoted((#[trigger] entries[i]).0))
        && printable(compact(entries[i].1)) && byte_len(quoted(entries[i].0)) <= key_sizes()[i]
        && byte_len(compact(entries[i].1)) <= value_sizes()[i] by {
        lemma_key_sizes(job, exit_code, termination, stdout, stderr, i);
        lemma_bare_value_sizes(job, exit_code, termination, stdout, stderr, i);
    }
    lemma_filled_printable(entries, 16);
    lemma_filled_bytes(entries, key_sizes(), value_sizes(), 16);
}

pub proof fn lemma_envelope_words()
    ensures
        unescaped("jsonrpc"@) && "jsonrpc"@.len() == 7,
        unescaped("2.0"@) && "2.0"@.len() == 3,
        unescaped("id"@) && "id"@.len() == 2,
        unescaped("result"@) && "result"@.len() == 6,
        unescaped("content"@) && "content"@.len() == 7,
        unescaped("type"@) && "type"@.len() == 4,
        unescaped("text"@) && "text"@.len() == 4,
        unescaped("error"@) && "error"@.len() == 5,
        unescaped("code"@) && "code"@.len() == 4,
        unescaped("message"@) && "message"@.len() == 7,
        unescaped(longest_id()) && longest_id().len() == 254,
{
    reveal_strlit("jsonrpc");
    reveal_strlit("2.0");
    reveal_strlit("id");
    reveal_strlit("result");
    reveal_strlit("content");
    reveal_strlit("type");
    reveal_strlit("text");
    reveal_strlit("error");
    reveal_strlit("code");
    reveal_strlit("message");
}

/// An answer with a printable text takes at most 420 bytes more than twice the text.
proof fn lemma_printable_response_bytes(text: Seq<char>)
    requires
        printable(text),
    ensures
        response_bytes(text) <= 2 * text.len() + 420,
{
    lemma_envelope_words();
    lemma_quoted_printable(text);
    lemma_object_bytes();
    lemma_decimal_printable(-32000);
    let size = 2 * text.len();
    let empty = JsonView::object();
    lemma_word_bytes(empty, "jsonrpc"@, "2.0"@, 2);
    let head = empty.with("jsonrpc"@, JsonView::Text("2.0"@));
    lemma_word_bytes(head, "id"@, longest_id(), 18);
    let envelope = head.with("id"@, JsonView::Text(longest_id()));

    lemma_word_bytes(empty, "type"@, "text"@, 2);
    let typed = empty.with("type"@, JsonView::Text("text"@));
    lemma_value_bytes(typed, "text"@, JsonView::Text(text), 16);
    let item = typed.with("text"@, JsonView::Text(text));
    lemma_single_item_bytes(item);
    let content = JsonView::list().item(item);
    lemma_printable_bytes(compact(content));
    lemma_value_bytes(empty, "content"@, content, 2);
    let result = empty.with("content"@, content);
    lemma_printable_bytes(compact(result));
    lemma_value_bytes(envelope, "result"@, result, 280);

    lemma_value_bytes(empty, "code"@, JsonView::Int(-32000), 2);
    let coded = empty.with("code"@, JsonView::Int(-32000));
    lemma_value_bytes(coded, "message"@, JsonView::Text(text), 30);
    let error = coded.with("message"@, JsonView::Text(text));
    lemma_printable_bytes(compact(error));
    lemma_value_bytes(envelope, "error"@, error, 280);
}

/// Whatever a command wrote, the answer about it fits into the limit, whether it is sent as a
/// success or as an error, with the longest identifier that a request may have.
pub proof fn law_result_fits(
    job: u128,
    exit_code: i32,
    termination: Termination,
    stdout: StreamCapture,
    stderr: StreamCapture,
    requested_limit: int,
)
    ensures
        response_bytes(
            compact(
                bounded_result_view(job, exit_code, termination, stdout, stderr, requested_limit),
            ),
        ) <= clamped_limit(requested_limit),
{
    let limit = clamped_limit(requested_limit);
    lemma_fitting_budget_fits(job, exit_code, termination, stdout, stderr, limit, limit);
}

proof fn lemma_fitting_budget_fits(
    job: u128,
    exit_code: i32,
    termination: Termination,
    stdout: StreamCapture,
    stderr: StreamCapture,
    limit: int,
    budget: int,
)
    requires
        MIN_INLINE_OUTPUT_LIMIT <= limit,
        0 <= budget,
    ensures
        ({
            let fitting = fitting_budget(job, exit_code, termination, stdout, stderr, limit, budget);
            &&& 0 <= fitting <= budget
            &&& response_bytes(
                compact(result_view(job, exit_code, termination, stdout, stderr, fitting)),
            ) <= limit
        }),
    decreases budget,
{
    let bytes = response_bytes(
        compact(result_view(job, exit_code, termination, stdout, stderr, budget)),
    );
    if bytes > limit {
        if budget == 0 {
            let bare = result_view(job, exit_code, termination, stdout, stderr, 0);
            lemma_bare_result_bytes(job, exit_code, termination, stdout, stderr);
            lemma_printable_bytes(compact(bare));
            lemma_printable_response_bytes(compact(bare));
        } else {
            let excess = if bytes - limit > 64 {
                bytes - limit
            } else {
                64
            };
            let lower = if budget > excess {
                budget - excess
            } else {
                0
            };
            lemma_fitting_budget_fits(job, exit_code, termination, stdout, stderr, limit, lower);
        }
    }
}

/// The answer about a finished command, with as much of its streams as fits into the limit.
pub fn bounded_result_value(
    job_id: JobId,
    exit_code: i32,
    termination: Termination,
    stdout: &StreamCapture,
    stderr: &StreamCapture,
    requested_limit: usize,
) -> (json: Json)
    ensures
        json@ == bounded_result_view(
            job_id.bits,
            exit_code,
            termination,
            *stdout,
            *stderr,
            requested_limit as int,
        ),
        ordered(json@),
        response_bytes(compact(json@)) <= clamped_limit(requested_limit as int),
{
    proof {
        law_result_fits(
            job_id.bits,
            exit_code,
            termination,
            *stdout,
            *stderr,
            requested_limit as int,
        );
    }
    let limit: usize = clamp_limit(requested_limit);
    let mut budget: usize = limit;
    loop
        invariant
            limit == clamped_limit(requested_limit as int),
            budget <= limit,
            fitting_budget(
                job_id.bits,
                exit_code,
                termination,
                *stdout,
                *stderr,
                limit as int,
                budget as int,
            ) == fitting_budget(
                job_id.bits,
                exit_code,
                termination,
                *stdout,
                *stderr,
                limit as int,
                limit as int,
            ),
            response_bytes(
                compact(
                    bounded_result_view(
                        job_id.bits,
                        exit_code,
                        termination,
                        *stdout,
                        *stderr,
                        requested_limit as int,
                    ),
                ),
            ) <= limit,
        decreases budget,
    {
        let json: Json = result_json(job_id, exit_code, termination, stdout, stderr, budget);
        let bytes: usize = max_jsonrpc_response_bytes(render(&json).as_str());
        if bytes <= limit || budget == 0 {
            return json;
        }
        let excess: usize = if bytes - limit > 64 {
            bytes - limit
        } else {
            64
        };
        budget = budget.saturating_sub(excess);
    }
}

/// What is kept of a finished command: the text of its outcome, as an error where it exited by itself
/// with another status than zero. What is answered of that text is the outcome, within the limit.
pub fn render_logged_output(
    job_id: JobId,
    output: LoggedOutput,
    setting: Option<&str>,
) -> (result: Result<String, String>)
    ensures
        ({
            let limit = limit_of_setting(
                match setting {
                    Some(text) => Some(text@),
                    None => None,
                },
            );
            let outcome = outcome_within(job_id.bits, output, limit);
            &&& given(result) == kept_text(outcome)
            &&& result is Err <==> output.termination is Exited && output.status != 0
            &&& told(given(result)) == Ok::<JsonView, Seq<char>>(outcome.answer())
            &&& answer_bytes(outcome.answer()) <= limit
        }),
{
    proof {
        reveal_strlit("exited");
        reveal_strlit("stopped");
        reveal_strlit("timeout");
        reveal_strlit("cancelled");
        reveal_strlit("forced_kill");
        assert("exited"@.len() == 6 && "stopped"@.len() == 7 && "timeout"@.len() == 7);
        assert("cancelled"@.len() == 9 && "forced_kill"@.len() == 11);
    }
    let outcome: CommandOutcome = bounded_outcome(job_id, &output, inline_output_limit(setting));
    render_outcome(&outcome)
}

/// Whether what is shown of a stream are its two ends: all of it where it fits into the budget and was
/// captured whole; else the longest beginning of what was captured of its beginning and the longest ending of
/// what was captured of its end that fit into a half of the budget each.
pub open spec fn shows_ends(
    stream: StreamCapture,
    budget: int,
    truncated: bool,
    head: Seq<char>,
    tail: Seq<char>,
) -> bool {
    let complete = stream.bytes <= budget && stream.head@.len() >= stream.bytes;
    &&& truncated <==> !complete
    &&& complete && stream.bytes > 0 ==> head == lossy_text(stream.head@.take(stream.bytes as int))
    &&& complete && stream.bytes == 0 ==> head.len() == 0
    &&& complete ==> tail.len() == 0
    &&& truncated ==> is_longest_beginning(head, lossy_text(stream.head@), (budget + 1) / 2)
    &&& truncated ==> is_longest_ending(tail, lossy_text(stream.tail@), budget / 2)
}

/// An answer shows the two ends of a stream, as much of them as its budget allows.
pub proof fn law_previews_show_the_ends_of_their_stream(stream: StreamCapture, budget: int)
    requires
        0 <= budget,
    ensures
        ({
            let (truncated, head, tail) = preview_of(stream, budget);
            shows_ends(stream, budget, truncated, head, tail)
        }),
{
    let (begun, ended) = (lossy_text(stream.head@), lossy_text(stream.tail@));
    law_cut_texts_keep_as_much_as_fits(begun, budget / 2 + budget % 2);
    law_cut_texts_keep_as_much_as_fits(ended, budget / 2);
    if budget == 0 && stream.bytes > 0 {
        let (front, back) = (prefix_within(begun, 0), suffix_within(ended, 0));
        lemma_byte_len_bounds(front);
        lemma_byte_len_bounds(back);
        assert(front =~= Seq::<char>::empty());
        assert(back =~= Seq::<char>::empty());
    }
}

/// What was written is shown: a stream that fits into the capture and into the budget is shown whole, with
/// nothing said to be missing; of a longer one, a beginning of its beginning and an ending of its end.
pub proof fn law_previews_show_what_was_written(
    capture: StreamCapture,
    stream: Seq<u8>,
    limit: int,
    budget: int,
)
    requires
        0 <= limit,
        0 <= budget,
        stream.len() <= u64::MAX,
        capture.keeps(stream, limit),
    ensures
        ({
            let (truncated, head, tail) = preview_of(capture, budget);
            &&& truncated <==> stream.len() > budget || stream.len() > limit
            &&& !truncated && stream.len() > 0 ==> head == lossy_text(stream) && tail.len() == 0
            &&& !truncated && stream.len() == 0 ==> head.len() == 0 && tail.len() == 0
            &&& truncated && stream.len() > limit ==> {
                &&& is_longest_beginning(head, lossy_text(stream.take(limit)), (budget + 1) / 2)
                &&& is_longest_ending(
                    tail,
                    lossy_text(stream.skip(stream.len() - limit)),
                    budget / 2,
                )
            }
            &&& truncated && stream.len() <= limit ==> {
                &&& is_longest_beginning(head, lossy_text(stream), (budget + 1) / 2)
                &&& is_longest_ending(tail, lossy_text(stream), budget / 2)
            }
        }),
{
    law_previews_show_the_ends_of_their_stream(capture, budget);
    if stream.len() <= limit {
        assert(capture.head@.take(stream.len() as int) =~= stream);
    }
}

/// A budget is shared so that a stream which wrote nothing takes nothing from the other, and two that
/// wrote something get halves of it; nothing of it is left over.
pub proof fn law_budgets_are_shared(total: int, stdout: StreamCapture, stderr: StreamCapture)
    requires
        0 <= total,
    ensures
        ({
            let (out, err) = shared_budget(total, stdout, stderr);
            &&& 0 <= out && 0 <= err
            &&& stdout.bytes == 0 ==> out == 0
            &&& stderr.bytes == 0 ==> err == 0
            &&& stdout.bytes > 0 || stderr.bytes > 0 ==> out + err == total
            &&& stdout.bytes > 0 && stderr.bytes > 0 ==> err <= out <= err + 1
        }),
{
}

/// The result of a command that has ended tells how it ended and shows of each stream its own two ends.
pub proof fn law_results_show_their_streams(
    job: u128,
    exit_code: i32,
    termination: Termination,
    stdout: StreamCapture,
    stderr: StreamCapture,
    budget: int,
)
    requires
        0 <= budget,
    ensures
        ({
            let result = result_view(job, exit_code, termination, stdout, stderr, budget);
            let (out, err) = shared_budget(budget, stdout, stderr);
            &&& member(result, "job_id"@) == Some(JsonView::Text(uuid_text(job)))
            &&& member(result, "exit_code"@) == Some(JsonView::Int(exit_code as int))
            &&& member(result, "termination"@) == Some(JsonView::Text(termination.word()))
            &&& member(result, "status"@) == Some(
                JsonView::Text(
                    if termination is Exited && exit_code == 0 {
                        "completed"@
                    } else if termination is Exited {
                        "failed"@
                    } else {
                        "stopped"@
                    },
                ),
            )
            &&& member(result, "stdout_bytes"@) == Some(JsonView::Int(stdout.bytes as int))
            &&& member(result, "stderr_bytes"@) == Some(JsonView::Int(stderr.bytes as int))
            &&& member(result, "stdout_truncated"@) matches Some(JsonView::Bool(truncated))
                && member(result, "stdout_head"@) matches Some(JsonView::Text(head)) && member(
                result,
                "stdout_tail"@,
            ) matches Some(JsonView::Text(tail)) && shows_ends(stdout, out, truncated, head, tail)
            &&& member(result, "stderr_truncated"@) matches Some(JsonView::Bool(truncated))
                && member(result, "stderr_head"@) matches Some(JsonView::Text(head)) && member(
                result,
                "stderr_tail"@,
            ) matches Some(JsonView::Text(tail)) && shows_ends(stderr, err, truncated, head, tail)
            &&& member(result, "stdout_resource"@) == Some(
                JsonView::Text("local-mcp://jobs/"@ + uuid_text(job) + "/"@ + "stdout"@),
            )
            &&& member(result, "stderr_resource"@) == Some(
                JsonView::Text("local-mcp://jobs/"@ + uuid_text(job) + "/"@ + "stderr"@),
            )
            &&& member(result, "read_tool"@) == Some(JsonView::Text("read_job_log"@))
        }),
{
    let entries = result_entries(job, exit_code, termination, stdout, stderr, budget);
    let (out, err) = shared_budget(budget, stdout, stderr);
    law_budgets_are_shared(budget, stdout, stderr);
    law_previews_show_the_ends_of_their_stream(stdout, out);
    law_previews_show_the_ends_of_their_stream(stderr, err);
    assert(distinct_keys(entries)) by {
        assert forall|i: int, j: int| 0 <= i < j < entries.len() implies (#[trigger] entries[i]).0 != (
        #[trigger] entries[j]).0 by {
            lemma_key_codes(job, exit_code, termination, stdout, stderr, budget, i);
            lemma_key_codes(job, exit_code, termination, stdout, stderr, budget, j);
        }
    }
    lemma_entries_held(entries);
    assert(entries[0].0 == "job_id"@ && entries[1].0 == "status"@ && entries[2].0 == "exit_code"@);
    assert(entries[3].0 == "termination"@ && entries[5].0 == "stdout_bytes"@);
    assert(entries[6].0 == "stderr_bytes"@ && entries[7].0 == "stdout_truncated"@);
    assert(entries[8].0 == "stderr_truncated"@ && entries[9].0 == "stdout_head"@);
    assert(entries[10].0 == "stdout_tail"@ && entries[11].0 == "stderr_head"@);
    assert(entries[12].0 == "stderr_tail"@ && entries[13].0 == "stdout_resource"@);
    assert(entries[14].0 == "stderr_resource"@ && entries[15].0 == "read_tool"@);
}

/// Numbers that tell the names in a result apart.
spec fn key_codes() -> Seq<int> {
    seq![417636, 423027, 619621, 748910, 1273202, 814963, 812403, 1077092, 1074532, 749412, 749420, 746852, 746860, 1011557, 1008997, 615532]
}

proof fn lemma_key_codes(
    job: u128,
    exit_code: i32,
    termination: Termination,
    stdout: StreamCapture,
    stderr: StreamCapture,
    budget: int,
    place: int,
)
    requires
        0 <= place < 16,
    ensures
        ({
            let key = result_entries(job, exit_code, termination, stdout, stderr, budget)[place].0;
            key.len() * 65536 + key[3] as int * 256 + key[key.len() - 1] as int == key_codes()[place]
        }),
        forall|i: int, j: int| 0 <= i < j < 16 ==> #[trigger] key_codes()[i] != #[trigger] key_codes()[j],
{
    reveal_strlit("job_id");
    reveal_strlit("status");
    reveal_strlit("exit_code");
    reveal_strlit("termination");
    reveal_strlit("termination_trigger");
    reveal_strlit("stdout_bytes");
    reveal_strlit("stderr_bytes");
    reveal_strlit("stdout_truncated");
    reveal_strlit("stderr_truncated");
    reveal_strlit("stdout_head");
    reveal_strlit("stdout_tail");
    reveal_strlit("stderr_head");
    reveal_strlit("stderr_tail");
    reveal_strlit("stdout_resource");
    reveal_strlit("stderr_resource");
    reveal_strlit("read_tool");
}

/// A result shows as much as fits: with the whole limit for a budget where that fits, and else with a
/// budget that follows one with which the result was too long, by no more than it was too long or 64 bytes.
pub proof fn law_results_show_as_much_as_fits(
    job: u128,
    exit_code: i32,
    termination: Termination,
    stdout: StreamCapture,
    stderr: StreamCapture,
    requested_limit: int,
)
    ensures
        ({
            let limit = clamped_limit(requested_limit);
            exists|budget: int|
                {
                    &&& 0 <= budget <= limit
                    &&& bounded_result_view(
                        job,
                        exit_code,
                        termination,
                        stdout,
                        stderr,
                        requested_limit,
                    ) == #[trigger] result_view(job, exit_code, termination, stdout, stderr, budget)
                    &&& budget == limit || exists|more: int|
                        {
                            let bytes = response_bytes(
                                compact(
                                    #[trigger] result_view(
                                        job,
                                        exit_code,
                                        termination,
                                        stdout,
                                        stderr,
                                        more,
                                    ),
                                ),
                            );
                            budget < more <= limit && bytes > limit && (more - budget <= 64 || more
                                - budget <= bytes - limit)
                        }
                }
        }),
{
    let limit = clamped_limit(requested_limit);
    lemma_fitting_budget_fits(job, exit_code, termination, stdout, stderr, limit, limit);
    lemma_budget_is_not_wasted(job, exit_code, termination, stdout, stderr, limit, limit);
}

proof fn lemma_budget_is_not_wasted(
    job: u128,
    exit_code: i32,
    termination: Termination,
    stdout: StreamCapture,
    stderr: StreamCapture,
    limit: int,
    budget: int,
)
    requires
        0 <= budget <= limit,
    ensures
        ({
            let fitting = fitting_budget(job, exit_code, termination, stdout, stderr, limit, budget);
            fitting == budget || exists|more: int|
                {
                    let bytes = response_bytes(
                        compact(
                            #[trigger] result_view(job, exit_code, termination, stdout, stderr, more),
                        ),
                    );
                    fitting < more <= limit && bytes > limit && (more - fitting <= 64 || more - fitting
                        <= bytes - limit)
                }
        }),
    decreases budget,
{
    let bytes = response_bytes(
        compact(result_view(job, exit_code, termination, stdout, stderr, budget)),
    );
    if bytes > limit && budget > 0 {
        let excess = if bytes - limit > 64 {
            bytes - limit
        } else {
            64
        };
        let lower = if budget > excess {
            budget - excess
        } else {
            0
        };
        lemma_budget_is_not_wasted(job, exit_code, termination, stdout, stderr, limit, lower);
    }
}

/// A setting that is a number within the range is the limit; a number beyond it gives the nearest end of the
/// range, from 2 KiB to 1 MiB; no setting, and one that is no number, give 16 KiB.
pub proof fn law_limits_follow_the_setting(setting: Option<Seq<char>>)
    ensures
        ({
            let limit = limit_of_setting(setting);
            &&& 2048 <= limit <= 1048576
            &&& setting is None ==> limit == 16384
            &&& setting matches Some(text) ==> match parsed_usize(text) {
                None => limit == 16384,
                Some(number) => (2048 <= number <= 1048576 ==> limit == number) && (number < 2048
                    ==> limit == 2048) && (number > 1048576 ==> limit == 1048576),
            }
        }),
{
}

} // verus!
