//! Outcomes of commands that are kept as text, and what is answered of them.
use vstd::prelude::*;

use crate::answers::{text_answer, text_result};
use crate::command_answers::{answer_bytes, law_reasons_fit};
use crate::command_output::MIN_INLINE_OUTPUT_LIMIT;
use crate::command_result::{
    lemma_outcome_property, CommandErrorKind, CommandOutcome, CommandStatus, OutcomeView,
    COMMAND_RESULT_SCHEMA_VERSION,
};
use crate::job_id::{uuid_text, JobId};
use crate::json::{
    all_plain, compact, lemma_filled_flat, member, ordered, parse, parsed, render, text_member,
    Json, JsonView,
};
use crate::json_size::escaped_bytes;
use crate::text::{optional_view, same_text};

verus! {

/// A flag under a key.
pub open spec fn flag_in(value: JsonView, key: Seq<char>) -> Option<bool> {
    match member(value, key) {
        Some(JsonView::Bool(flag)) => Some(flag),
        _ => None,
    }
}

/// A number of bytes under a key.
pub open spec fn count_in(value: JsonView, key: Seq<char>) -> Option<u64> {
    match member(value, key) {
        Some(JsonView::Int(n)) => if 0 <= n <= u64::MAX {
            Some(n as u64)
        } else {
            None
        },
        _ => None,
    }
}

/// A text under a key that may be null or missing.
pub open spec fn optional_text_in(value: JsonView, key: Seq<char>) -> Option<Option<Seq<char>>> {
    match member(value, key) {
        Some(JsonView::Text(text)) => Some(Some(text)),
        Some(JsonView::Null) => Some(None),
        None => Some(None),
        _ => None,
    }
}

/// An exit code under a key that may be null or missing.
pub open spec fn exit_code_in(value: JsonView, key: Seq<char>) -> Option<Option<i32>> {
    match member(value, key) {
        Some(JsonView::Int(n)) => if i32::MIN <= n <= i32::MAX {
            Some(Some(n as i32))
        } else {
            None
        },
        Some(JsonView::Null) => Some(None),
        None => Some(None),
        _ => None,
    }
}

/// The status that a word stands for.
pub open spec fn status_of(word: Seq<char>) -> Option<CommandStatus> {
    if word == CommandStatus::Running.word() {
        Some(CommandStatus::Running)
    } else if word == CommandStatus::Completed.word() {
        Some(CommandStatus::Completed)
    } else if word == CommandStatus::Failed.word() {
        Some(CommandStatus::Failed)
    } else if word == CommandStatus::Stopped.word() {
        Some(CommandStatus::Stopped)
    } else {
        None
    }
}

/// The kind of error that a word stands for.
pub open spec fn error_kind_of(word: Seq<char>) -> Option<CommandErrorKind> {
    if word == CommandErrorKind::ProcessExit.word() {
        Some(CommandErrorKind::ProcessExit)
    } else if word == CommandErrorKind::SpawnError.word() {
        Some(CommandErrorKind::SpawnError)
    } else if word == CommandErrorKind::Cancellation.word() {
        Some(CommandErrorKind::Cancellation)
    } else if word == CommandErrorKind::ApprovalDenied.word() {
        Some(CommandErrorKind::ApprovalDenied)
    } else if word == CommandErrorKind::InvalidArguments.word() {
        Some(CommandErrorKind::InvalidArguments)
    } else if word == CommandErrorKind::Internal.word() {
        Some(CommandErrorKind::Internal)
    } else {
        None
    }
}

/// A status under a key.
pub open spec fn status_in(value: JsonView, key: Seq<char>) -> Option<CommandStatus> {
    match member(value, key) {
        Some(JsonView::Text(word)) => status_of(word),
        _ => None,
    }
}

/// A kind of error under a key that may be null or missing.
pub open spec fn error_kind_in(value: JsonView, key: Seq<char>) -> Option<Option<CommandErrorKind>> {
    match member(value, key) {
        Some(JsonView::Text(word)) => match error_kind_of(word) {
            Some(kind) => Some(Some(kind)),
            None => None,
        },
        Some(JsonView::Null) => Some(None),
        None => Some(None),
        _ => None,
    }
}

/// Whether a value has what an outcome has, each part of its type, and the version that is known.
pub open spec fn holds_outcome(value: JsonView) -> bool {
    &&& count_in(value, "schema_version"@) == Some(COMMAND_RESULT_SCHEMA_VERSION as u64)
    &&& flag_in(value, "ok"@) is Some
    &&& status_in(value, "status"@) is Some
    &&& error_kind_in(value, "error_kind"@) is Some
    &&& exit_code_in(value, "exit_code"@) is Some
    &&& flag_in(value, "retryable"@) is Some
    &&& optional_text_in(value, "job_id"@) is Some
    &&& text_member(value, "message"@) is Some
    &&& optional_text_in(value, "termination"@) is Some
    &&& optional_text_in(value, "termination_trigger"@) is Some
    &&& count_in(value, "stdout_bytes"@) is Some
    &&& count_in(value, "stderr_bytes"@) is Some
    &&& flag_in(value, "stdout_truncated"@) is Some
    &&& flag_in(value, "stderr_truncated"@) is Some
    &&& text_member(value, "stdout_head"@) is Some
    &&& text_member(value, "stdout_tail"@) is Some
    &&& text_member(value, "stderr_head"@) is Some
    &&& text_member(value, "stderr_tail"@) is Some
    &&& optional_text_in(value, "stdout_resource"@) is Some
    &&& optional_text_in(value, "stderr_resource"@) is Some
    &&& optional_text_in(value, "read_tool"@) is Some
}

/// The outcome that a value holds; nothing where it holds none.
pub open spec fn outcome_in(value: JsonView) -> Option<OutcomeView> {
    if holds_outcome(value) {
        Some(
            OutcomeView {
                schema_version: COMMAND_RESULT_SCHEMA_VERSION,
                ok: flag_in(value, "ok"@)->0,
                status: status_in(value, "status"@)->0,
                error_kind: error_kind_in(value, "error_kind"@)->0,
                exit_code: exit_code_in(value, "exit_code"@)->0,
                retryable: flag_in(value, "retryable"@)->0,
                job_id: optional_text_in(value, "job_id"@)->0,
                message: text_member(value, "message"@)->0,
                termination: optional_text_in(value, "termination"@)->0,
                termination_trigger: optional_text_in(value, "termination_trigger"@)->0,
                stdout_bytes: count_in(value, "stdout_bytes"@)->0,
                stderr_bytes: count_in(value, "stderr_bytes"@)->0,
                stdout_truncated: flag_in(value, "stdout_truncated"@)->0,
                stderr_truncated: flag_in(value, "stderr_truncated"@)->0,
                stdout_head: text_member(value, "stdout_head"@)->0,
                stdout_tail: text_member(value, "stdout_tail"@)->0,
                stderr_head: text_member(value, "stderr_head"@)->0,
                stderr_tail: text_member(value, "stderr_tail"@)->0,
                stdout_resource: optional_text_in(value, "stdout_resource"@)->0,
                stderr_resource: optional_text_in(value, "stderr_resource"@)->0,
                read_tool: optional_text_in(value, "read_tool"@)->0,
            },
        )
    } else {
        None
    }
}

fn flag_of(value: &Json, key: &str) -> (flag: Option<bool>)
    ensures
        flag == flag_in(value@, key@),
{
    match value.get(key) {
        Some(Json::Bool(flag)) => Some(*flag),
        _ => None,
    }
}

fn count_of(value: &Json, key: &str) -> (count: Option<u64>)
    ensures
        count == count_in(value@, key@),
{
    match value.get(key) {
        Some(Json::Unsigned(n)) => Some(*n),
        Some(Json::Signed(n)) => if *n >= 0 {
            Some(*n as u64)
        } else {
            None
        },
        _ => None,
    }
}

fn text_of(value: &Json, key: &str) -> (text: Option<String>)
    ensures
        optional_view(text) == text_member(value@, key@),
{
    match value.get_text(key) {
        Some(text) => Some(text.to_owned()),
        None => None,
    }
}

/// What a text says that may be missing.
pub open spec fn optional_texts_view(text: Option<Option<String>>) -> Option<Option<Seq<char>>> {
    match text {
        Some(text) => Some(optional_view(text)),
        None => None,
    }
}

fn optional_text_of(value: &Json, key: &str) -> (text: Option<Option<String>>)
    ensures
        optional_texts_view(text) == optional_text_in(value@, key@),
{
    match value.get(key) {
        Some(Json::Text(text)) => Some(Some(text.clone())),
        Some(Json::Null) => Some(None),
        None => Some(None),
        _ => None,
    }
}

fn exit_code_of(value: &Json, key: &str) -> (code: Option<Option<i32>>)
    ensures
        code == exit_code_in(value@, key@),
{
    match value.get(key) {
        Some(Json::Unsigned(n)) => if *n <= 0x7fff_ffff {
            Some(Some(*n as i32))
        } else {
            None
        },
        Some(Json::Signed(n)) => if -0x8000_0000 <= *n && *n <= 0x7fff_ffff {
            Some(Some(*n as i32))
        } else {
            None
        },
        Some(Json::Null) => Some(None),
        None => Some(None),
        _ => None,
    }
}

/// Reads the word for a status.
pub fn parse_status(word: &str) -> (status: Option<CommandStatus>)
    ensures
        status == status_of(word@),
{
    if same_text(word, CommandStatus::Running.as_str()) {
        Some(CommandStatus::Running)
    } else if same_text(word, CommandStatus::Completed.as_str()) {
        Some(CommandStatus::Completed)
    } else if same_text(word, CommandStatus::Failed.as_str()) {
        Some(CommandStatus::Failed)
    } else if same_text(word, CommandStatus::Stopped.as_str()) {
        Some(CommandStatus::Stopped)
    } else {
        None
    }
}

/// Reads the word for a kind of error.
pub fn parse_error_kind(word: &str) -> (kind: Option<CommandErrorKind>)
    ensures
        kind == error_kind_of(word@),
{
    if same_text(word, CommandErrorKind::ProcessExit.as_str()) {
        Some(CommandErrorKind::ProcessExit)
    } else if same_text(word, CommandErrorKind::SpawnError.as_str()) {
        Some(CommandErrorKind::SpawnError)
    } else if same_text(word, CommandErrorKind::Cancellation.as_str()) {
        Some(CommandErrorKind::Cancellation)
    } else if same_text(word, CommandErrorKind::ApprovalDenied.as_str()) {
        Some(CommandErrorKind::ApprovalDenied)
    } else if same_text(word, CommandErrorKind::InvalidArguments.as_str()) {
        Some(CommandErrorKind::InvalidArguments)
    } else if same_text(word, CommandErrorKind::Internal.as_str()) {
        Some(CommandErrorKind::Internal)
    } else {
        None
    }
}

fn status_under(value: &Json, key: &str) -> (status: Option<CommandStatus>)
    ensures
        status == status_in(value@, key@),
{
    match value.get_text(key) {
        Some(word) => parse_status(word),
        None => None,
    }
}

fn error_kind_under(value: &Json, key: &str) -> (kind: Option<Option<CommandErrorKind>>)
    ensures
        kind == error_kind_in(value@, key@),
{
    match value.get(key) {
        Some(Json::Text(word)) => match parse_error_kind(word.as_str()) {
            Some(kind) => Some(Some(kind)),
            None => None,
        },
        Some(Json::Null) => Some(None),
        None => Some(None),
        _ => None,
    }
}

/// What an outcome says that may be missing.
pub open spec fn optional_outcome(outcome: Option<CommandOutcome>) -> Option<OutcomeView> {
    match outcome {
        Some(outcome) => Some(outcome@),
        None => None,
    }
}

impl CommandOutcome {
    /// Reads an outcome out of a value; nothing where it holds none.
    pub fn from_json(value: &Json) -> (outcome: Option<CommandOutcome>)
        ensures
            optional_outcome(outcome) == outcome_in(value@),
    {
        match count_of(value, "schema_version") {
            Some(version) => {
                if version != COMMAND_RESULT_SCHEMA_VERSION as u64 {
                    return None;
                }
            },
            None => {
                return None;
            },
        }
        let ok: bool = match flag_of(value, "ok") {
            Some(ok) => ok,
            None => {
                return None;
            },
        };
        let status: CommandStatus = match status_under(value, "status") {
            Some(status) => status,
            None => {
                return None;
            },
        };
        let error_kind: Option<CommandErrorKind> = match error_kind_under(value, "error_kind") {
            Some(error_kind) => error_kind,
            None => {
                return None;
            },
        };
        let exit_code: Option<i32> = match exit_code_of(value, "exit_code") {
            Some(exit_code) => exit_code,
            None => {
                return None;
            },
        };
        let retryable: bool = match flag_of(value, "retryable") {
            Some(retryable) => retryable,
            None => {
                return None;
            },
        };
        let job_id: Option<String> = match optional_text_of(value, "job_id") {
            Some(job_id) => job_id,
            None => {
                return None;
            },
        };
        let message: String = match text_of(value, "message") {
            Some(message) => message,
            None => {
                return None;
            },
        };
        let termination: Option<String> = match optional_text_of(value, "termination") {
            Some(termination) => termination,
            None => {
                return None;
            },
        };
        let termination_trigger: Option<String> = match optional_text_of(value, "termination_trigger") {
            Some(termination_trigger) => termination_trigger,
            None => {
                return None;
            },
        };
        let stdout_bytes: u64 = match count_of(value, "stdout_bytes") {
            Some(stdout_bytes) => stdout_bytes,
            None => {
                return None;
            },
        };
        let stderr_bytes: u64 = match count_of(value, "stderr_bytes") {
            Some(stderr_bytes) => stderr_bytes,
            None => {
                return None;
            },
        };
        let stdout_truncated: bool = match flag_of(value, "stdout_truncated") {
            Some(stdout_truncated) => stdout_truncated,
            None => {
                return None;
            },
        };
        let stderr_truncated: bool = match flag_of(value, "stderr_truncated") {
            Some(stderr_truncated) => stderr_truncated,
            None => {
                return None;
            },
        };
        let stdout_head: String = match text_of(value, "stdout_head") {
            Some(stdout_head) => stdout_head,
            None => {
                return None;
            },
        };
        let stdout_tail: String = match text_of(value, "stdout_tail") {
            Some(stdout_tail) => stdout_tail,
            None => {
                return None;
            },
        };
        let stderr_head: String = match text_of(value, "stderr_head") {
            Some(stderr_head) => stderr_head,
            None => {
                return None;
            },
        };
        let stderr_tail: String = match text_of(value, "stderr_tail") {
            Some(stderr_tail) => stderr_tail,
            None => {
                return None;
            },
        };
        let stdout_resource: Option<String> = match optional_text_of(value, "stdout_resource") {
            Some(stdout_resource) => stdout_resource,
            None => {
                return None;
            },
        };
        let stderr_resource: Option<String> = match optional_text_of(value, "stderr_resource") {
            Some(stderr_resource) => stderr_resource,
            None => {
                return None;
            },
        };
        let read_tool: Option<String> = match optional_text_of(value, "read_tool") {
            Some(read_tool) => read_tool,
            None => {
                return None;
            },
        };
        let outcome: CommandOutcome = CommandOutcome {
            schema_version: COMMAND_RESULT_SCHEMA_VERSION,
            ok,
            status,
            error_kind,
            exit_code,
            retryable,
            job_id,
            message,
            termination,
            termination_trigger,
            stdout_bytes,
            stderr_bytes,
            stdout_truncated,
            stderr_truncated,
            stdout_head,
            stdout_tail,
            stderr_head,
            stderr_tail,
            stdout_resource,
            stderr_resource,
            read_tool,
        };
        proof {
            assert(outcome@ =~= outcome_in(value@)->0);
        }
        Some(outcome)
    }
}

proof fn lemma_words_are_read(status: CommandStatus, kind: CommandErrorKind)
    ensures
        status_of(status.word()) == Some(status),
        error_kind_of(kind.word()) == Some(kind),
{
    reveal_strlit("running");
    reveal_strlit("completed");
    reveal_strlit("failed");
    reveal_strlit("stopped");
    assert("running"@[0] == 'r' && "completed"@[0] == 'c' && "failed"@[0] == 'f' && "stopped"@[0]
        == 's');
    reveal_strlit("process_exit");
    reveal_strlit("spawn_error");
    reveal_strlit("cancellation");
    reveal_strlit("approval_denied");
    reveal_strlit("invalid_arguments");
    reveal_strlit("internal");
    assert("process_exit"@[0] == 'p' && "spawn_error"@[0] == 's' && "cancellation"@[0] == 'c');
    assert("approval_denied"@[0] == 'a' && "invalid_arguments"@[2] == 'v' && "internal"@[2] == 't');
    assert("invalid_arguments"@[0] == 'i' && "internal"@[0] == 'i');
}

/// An outcome that was written as data is read back as it was.
pub proof fn law_outcomes_are_read_back(outcome: OutcomeView)
    requires
        outcome.schema_version == COMMAND_RESULT_SCHEMA_VERSION,
    ensures
        outcome_in(outcome.json()) == Some(outcome),
{
    let value = outcome.json();
    lemma_words_are_read(
        outcome.status,
        match outcome.error_kind {
            Some(kind) => kind,
            None => CommandErrorKind::Internal,
        },
    );
    lemma_outcome_property(outcome, 0);
    lemma_outcome_property(outcome, 1);
    lemma_outcome_property(outcome, 2);
    lemma_outcome_property(outcome, 3);
    lemma_outcome_property(outcome, 4);
    lemma_outcome_property(outcome, 5);
    lemma_outcome_property(outcome, 6);
    lemma_outcome_property(outcome, 7);
    lemma_outcome_property(outcome, 8);
    lemma_outcome_property(outcome, 9);
    lemma_outcome_property(outcome, 10);
    lemma_outcome_property(outcome, 11);
    lemma_outcome_property(outcome, 12);
    lemma_outcome_property(outcome, 13);
    lemma_outcome_property(outcome, 14);
    lemma_outcome_property(outcome, 15);
    lemma_outcome_property(outcome, 16);
    lemma_outcome_property(outcome, 17);
    lemma_outcome_property(outcome, 18);
    lemma_outcome_property(outcome, 19);
    lemma_outcome_property(outcome, 20);
    assert(outcome_in(value)->0 =~= outcome);
}

/// The outcome that is written in a text; nothing where it is the text of none.
pub open spec fn outcome_in_text(text: Seq<char>) -> Option<OutcomeView> {
    match parsed(text) {
        Ok(value) => outcome_in(value),
        Err(_) => None,
    }
}

/// What a command gave, as text.
pub open spec fn given(result: Result<String, String>) -> Result<Seq<char>, Seq<char>> {
    match result {
        Ok(text) => Ok(text@),
        Err(message) => Err(message@),
    }
}

/// What is answered of what a command gave: its outcome where that is what the text holds, whether the
/// command failed or not; else the text, or the error.
pub open spec fn told(result: Result<Seq<char>, Seq<char>>) -> Result<JsonView, Seq<char>> {
    let text = match result {
        Ok(text) => text,
        Err(text) => text,
    };
    match outcome_in_text(text) {
        Some(outcome) => Ok(outcome.answer()),
        None => match result {
            Ok(text) => Ok(text_answer(text)),
            Err(message) => Err(message),
        },
    }
}

/// What is answered of what a command gave, with the value that its text holds as `value`.
pub fn tell_value(result: &Result<String, String>, value: &Result<Json, String>) -> (answer: Result<
    Json,
    String,
>)
    ensures
        ({
            let outcome = match value {
                Ok(value) => outcome_in(value@),
                Err(_) => None,
            };
            match outcome {
                Some(outcome) => answer matches Ok(json) && json@ == outcome.answer() && ordered(
                    json@,
                ),
                None => match result {
                    Ok(text) => answer matches Ok(json) && json@ == text_answer(text@) && ordered(
                        json@,
                    ),
                    Err(message) => answer matches Err(told) && told@ == message@,
                },
            }
        }),
{
    if let Ok(value) = value {
        if let Some(outcome) = CommandOutcome::from_json(value) {
            return Ok(outcome.tool_result());
        }
    }
    match result {
        Ok(text) => Ok(text_result(text.as_str())),
        Err(message) => Err(message.clone()),
    }
}

/// What is answered of what a command gave.
pub fn tell(result: &Result<String, String>) -> (answer: Result<Json, String>)
    ensures
        match answer {
            Ok(json) => told(given(*result)) == Ok::<JsonView, Seq<char>>(json@) && ordered(json@),
            Err(message) => told(given(*result)) == Err::<JsonView, Seq<char>>(message@),
        },
{
    let value: Result<Json, String> = match result {
        Ok(text) => parse(text.as_str()),
        Err(text) => parse(text.as_str()),
    };
    tell_value(result, &value)
}

/// An outcome as the text that is kept of it, an error where the command failed.
pub open spec fn kept_text(outcome: OutcomeView) -> Result<Seq<char>, Seq<char>> {
    if outcome.status is Failed {
        Err(compact(outcome.json()))
    } else {
        Ok(compact(outcome.json()))
    }
}

/// An outcome as the text that is kept of it, an error where the command failed. Telling the text
/// gives the answer that the outcome gives.
pub fn render_outcome(outcome: &CommandOutcome) -> (result: Result<String, String>)
    ensures
        given(result) == kept_text(outcome@),
        outcome.schema_version == COMMAND_RESULT_SCHEMA_VERSION ==> told(given(result)) == Ok::<
            JsonView,
            Seq<char>,
        >(outcome@.answer()),
{
    let text: String = render(&outcome.to_json());
    proof {
        assert(all_plain(outcome@.entries()));
        lemma_filled_flat(outcome@.entries(), outcome@.entries().len() as int);
        if outcome.schema_version == COMMAND_RESULT_SCHEMA_VERSION {
            law_outcomes_are_read_back(outcome@);
        }
    }
    if outcome.status == CommandStatus::Failed {
        Err(text)
    } else {
        Ok(text)
    }
}

/// The outcome that is kept of a job which gave no output, with a reason that fits into any answer.
pub open spec fn kept_failure(outcome: OutcomeView, job_id: JobId) -> OutcomeView {
    OutcomeView { job_id: Some(uuid_text(job_id.bits)), ..outcome.brief() }
}

/// The outcome of a job which gave no output, as the text that is kept of it. The answer that it gives
/// fits into the smallest limit for output.
pub fn render_failure(outcome: CommandOutcome, job_id: JobId) -> (result: Result<String, String>)
    requires
        outcome@.without_streams(),
    ensures
        given(result) == kept_text(kept_failure(outcome@, job_id)),
        told(given(result)) == Ok::<JsonView, Seq<char>>(kept_failure(outcome@, job_id).answer()),
        answer_bytes(kept_failure(outcome@, job_id).answer()) <= MIN_INLINE_OUTPUT_LIMIT,
{
    proof {
        law_reasons_fit(OutcomeView { job_id: Some(uuid_text(job_id.bits)), ..outcome@ });
    }
    render_outcome(&outcome.brief().with_job_id(job_id))
}

/// What is read as an outcome is what is written: each part stands in the value under its name, and the
/// version is the one that is known.
pub proof fn law_outcomes_are_read_as_written(value: JsonView)
    requires
        outcome_in(value) is Some,
    ensures
        ({
            let outcome = outcome_in(value)->0;
            &&& member(value, "schema_version"@) == Some(JsonView::Int(1))
            &&& outcome.schema_version == 1
            &&& member(value, "ok"@) == Some(JsonView::Bool(outcome.ok))
            &&& member(value, "retryable"@) == Some(JsonView::Bool(outcome.retryable))
            &&& member(value, "status"@) == Some(JsonView::Text(outcome.status.word()))
            &&& outcome.error_kind matches Some(kind) ==> member(value, "error_kind"@) == Some(
                JsonView::Text(kind.word()),
            )
            &&& outcome.exit_code matches Some(code) ==> member(value, "exit_code"@) == Some(
                JsonView::Int(code as int),
            )
            &&& outcome.job_id matches Some(job) ==> member(value, "job_id"@) == Some(
                JsonView::Text(job),
            )
            &&& outcome.termination matches Some(word) ==> member(value, "termination"@) == Some(
                JsonView::Text(word),
            )
            &&& outcome.termination_trigger matches Some(word) ==> member(
                value,
                "termination_trigger"@,
            ) == Some(JsonView::Text(word))
            &&& member(value, "message"@) == Some(JsonView::Text(outcome.message))
            &&& member(value, "stdout_bytes"@) == Some(JsonView::Int(outcome.stdout_bytes as int))
            &&& member(value, "stderr_bytes"@) == Some(JsonView::Int(outcome.stderr_bytes as int))
            &&& member(value, "stdout_truncated"@) == Some(JsonView::Bool(outcome.stdout_truncated))
            &&& member(value, "stderr_truncated"@) == Some(JsonView::Bool(outcome.stderr_truncated))
            &&& member(value, "stdout_head"@) == Some(JsonView::Text(outcome.stdout_head))
            &&& member(value, "stdout_tail"@) == Some(JsonView::Text(outcome.stdout_tail))
            &&& member(value, "stderr_head"@) == Some(JsonView::Text(outcome.stderr_head))
            &&& member(value, "stderr_tail"@) == Some(JsonView::Text(outcome.stderr_tail))
            &&& outcome.stdout_resource matches Some(address) ==> member(value, "stdout_resource"@)
                == Some(JsonView::Text(address))
            &&& outcome.stderr_resource matches Some(address) ==> member(value, "stderr_resource"@)
                == Some(JsonView::Text(address))
            &&& outcome.read_tool matches Some(tool) ==> member(value, "read_tool"@) == Some(
                JsonView::Text(tool),
            )
        }),
{
}

/// What a command gave is answered as its outcome where the text is one, whether it is kept as a result or as
/// an error; and any other text is answered as it is, a result as a text and an error as an error.
pub proof fn law_texts_without_an_outcome_are_answered_as_they_are(text: Seq<char>)
    ensures
        outcome_in_text(text) matches Some(outcome) ==> told(Ok(text)) == Ok::<JsonView, Seq<char>>(
            outcome.answer(),
        ) && told(Err(text)) == Ok::<JsonView, Seq<char>>(outcome.answer()),
        outcome_in_text(text) is None ==> told(Ok(text)) == Ok::<JsonView, Seq<char>>(text_answer(text))
            && told(Err(text)) == Err::<JsonView, Seq<char>>(text),
        parsed(text) is Err ==> outcome_in_text(text) is None,
{
}

/// What is kept of an outcome is its data as text: as an error exactly where the command failed, so that one
/// which runs, has completed or was stopped is kept as a result; and telling it gives the answer back.
pub proof fn law_outcomes_are_kept_by_their_status(outcome: OutcomeView)
    requires
        outcome.schema_version == COMMAND_RESULT_SCHEMA_VERSION,
    ensures
        kept_text(outcome) is Err <==> outcome.status == CommandStatus::Failed,
        kept_text(outcome) matches Ok(text) ==> text == compact(outcome.json()),
        kept_text(outcome) matches Err(text) ==> text == compact(outcome.json()),
        parsed(compact(outcome.json())) == Ok::<JsonView, Seq<char>>(outcome.json()) ==> told(
            kept_text(outcome),
        ) == Ok::<JsonView, Seq<char>>(outcome.answer()),
{
    if parsed(compact(outcome.json())) == Ok::<JsonView, Seq<char>>(outcome.json()) {
        law_outcomes_are_read_back(outcome);
    }
}

/// What is kept of a failure without output names its job, and is otherwise the failure, with its reason as
/// far as it fits.
pub proof fn law_failures_are_kept_with_their_job(outcome: OutcomeView, job_id: JobId)
    ensures
        ({
            let kept = kept_failure(outcome, job_id);
            &&& kept.job_id == Some(uuid_text(job_id.bits))
            &&& kept.status == outcome.status && kept.error_kind == outcome.error_kind && kept.ok
                == outcome.ok && kept.retryable == outcome.retryable
            &&& escaped_bytes(outcome.message) <= 512 ==> kept.message == outcome.message
            &&& kept.exit_code == outcome.exit_code && kept.termination == outcome.termination
        }),
{
}

} // verus!
