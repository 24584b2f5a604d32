//! The journal of jobs: one record for each, from its start to its end.
use vstd::prelude::*;

use crate::json::{
    compact, distinct_keys, filled, filled_to, lemma_entries_held, member, parse, parsed, quoted, render,
    Json, JsonView,
};
use crate::json_size::{
    lemma_decimal_printable, lemma_object_bytes, lemma_printable_bytes, lemma_quoted_printable,
    lemma_value_bytes, lemma_word_bytes, unescaped,
};
use crate::text::{
    bounded_utf8_prefix, bounded_utf8_suffix, byte_len, byte_length, copy_optional,
    is_longest_beginning, is_longest_ending, law_cut_texts_keep_as_much_as_fits,
    lemma_byte_len_concat, lemma_prefix_within, lemma_suffix_within, optional_view, prefix_within,
    same_text, suffix_within,
};

verus! {

pub const JOURNAL_VERSION: u32 = 1;

pub const MAX_JOBS_PER_SESSION: usize = 256;

/// Thirty days in milliseconds.
pub const RETENTION_AGE_MS: u64 = 2592000000;

pub const MAX_COMMAND_BYTES: usize = 8192;

pub const MAX_PERSISTED_FIELD_SERIALIZED_BYTES: usize = 65536;

pub const MAX_JOURNAL_SNAPSHOT_BYTES: u64 = 131072;

#[derive(Clone, Copy, Debug, PartialEq, Eq, Structural)]
pub enum JobState {
    Running,
    Completed,
    Failed,
    Stopped,
    Orphaned,
}

#[derive(Clone, Copy, Debug, PartialEq, Eq, Structural)]
pub enum ExecutionMode {
    Sandboxed,
    Unrestricted,
}

impl JobState {
    /// The word for this state.
    pub open spec fn word(self) -> Seq<char> {
        match self {
            JobState::Running => "running"@,
            JobState::Completed => "completed"@,
            JobState::Failed => "failed"@,
            JobState::Stopped => "stopped"@,
            JobState::Orphaned => "orphaned"@,
        }
    }

    /// Reads the word for a state.
    pub fn parse(value: &str) -> (result: Result<JobState, String>)
        ensures
            match result {
                Ok(state) => value@ == state.word(),
                Err(message) => (forall|state: JobState| value@ != #[trigger] state.word())
                    && message@ == "unknown job state: "@ + value@,
            },
    {
        if same_text(value, "running") {
            Ok(JobState::Running)
        } else if same_text(value, "completed") {
            Ok(JobState::Completed)
        } else if same_text(value, "failed") {
            Ok(JobState::Failed)
        } else if same_text(value, "stopped") {
            Ok(JobState::Stopped)
        } else if same_text(value, "orphaned") {
            Ok(JobState::Orphaned)
        } else {
            let mut message: String = "unknown job state: ".to_owned();
            message.append(value);
            Err(message)
        }
    }

    pub fn as_str(self) -> (word: &'static str)
        ensures
            word@ == self.word(),
    {
        match self {
            JobState::Running => "running",
            JobState::Completed => "completed",
            JobState::Failed => "failed",
            JobState::Stopped => "stopped",
            JobState::Orphaned => "orphaned",
        }
    }

    /// Whether a job in this state has ended.
    pub fn terminal(self) -> (terminal: bool)
        ensures
            terminal == (self != JobState::Running),
    {
        self != JobState::Running
    }
}

/// Two states with the same word are the same state, so that reading the word of a state gives it
/// back.
pub proof fn law_state_words_differ(a: JobState, b: JobState)
    ensures
        a.word() == b.word() ==> a == b,
{
    reveal_strlit("running");
    reveal_strlit("completed");
    reveal_strlit("failed");
    reveal_strlit("stopped");
    reveal_strlit("orphaned");
    assert("running"@[0] == 'r' && "completed"@[0] == 'c' && "failed"@[0] == 'f' && "stopped"@[0]
        == 's' && "orphaned"@[0] == 'o');
}

/// What the journal keeps of a job.
#[derive(Debug)]
pub struct JobRecord {
    pub version: u32,
    pub job_id: String,
    pub session_id: String,
    pub command: String,
    pub cwd: String,
    pub execution_mode: ExecutionMode,
    pub state: JobState,
    pub created_at_ms: u64,
    pub started_at_ms: u64,
    pub updated_at_ms: u64,
    pub finished_at_ms: Option<u64>,
    pub exit_code: Option<i32>,
    pub result: Option<String>,
    pub error: Option<String>,
    pub server_pid: u32,
    pub process_id: Option<u32>,
    pub reattachable: bool,
}

/// What a record says.
#[verifier::ext_equal]
pub struct RecordView {
    pub version: u32,
    pub job_id: Seq<char>,
    pub session_id: Seq<char>,
    pub command: Seq<char>,
    pub cwd: Seq<char>,
    pub execution_mode: ExecutionMode,
    pub state: JobState,
    pub created_at_ms: u64,
    pub started_at_ms: u64,
    pub updated_at_ms: u64,
    pub finished_at_ms: Option<u64>,
    pub exit_code: Option<i32>,
    pub result: Option<Seq<char>>,
    pub error: Option<Seq<char>>,
    pub server_pid: u32,
    pub process_id: Option<u32>,
    pub reattachable: bool,
}

impl View for JobRecord {
    type V = RecordView;

    open spec fn view(&self) -> RecordView {
        RecordView {
            version: self.version,
            job_id: self.job_id@,
            session_id: self.session_id@,
            command: self.command@,
            cwd: self.cwd@,
            execution_mode: self.execution_mode,
            state: self.state,
            created_at_ms: self.created_at_ms,
            started_at_ms: self.started_at_ms,
            updated_at_ms: self.updated_at_ms,
            finished_at_ms: self.finished_at_ms,
            exit_code: self.exit_code,
            result: optional_view(self.result),
            error: optional_view(self.error),
            server_pid: self.server_pid,
            process_id: self.process_id,
            reattachable: self.reattachable,
        }
    }
}

impl Clone for JobRecord {
    fn clone(&self) -> (copy: JobRecord)
        ensures
            copy@ == self@,
    {
        JobRecord {
            version: self.version,
            job_id: self.job_id.clone(),
            session_id: self.session_id.clone(),
            command: self.command.clone(),
            cwd: self.cwd.clone(),
            execution_mode: self.execution_mode,
            state: self.state,
            created_at_ms: self.created_at_ms,
            started_at_ms: self.started_at_ms,
            updated_at_ms: self.updated_at_ms,
            finished_at_ms: self.finished_at_ms,
            exit_code: self.exit_code,
            result: copy_optional(&self.result),
            error: copy_optional(&self.error),
            server_pid: self.server_pid,
            process_id: self.process_id,
            reattachable: self.reattachable,
        }
    }
}

/// What a list of jobs says of one.
#[derive(Debug)]
pub struct JobSummary {
    pub job_id: String,
    pub command: String,
    pub cwd: String,
    pub execution_mode: ExecutionMode,
    pub state: JobState,
    pub created_at_ms: u64,
    pub updated_at_ms: u64,
    pub finished_at_ms: Option<u64>,
    pub exit_code: Option<i32>,
    pub result_available: bool,
    pub error_available: bool,
    pub process_id: Option<u32>,
    pub reattachable: bool,
}

/// A part of the list of jobs.
#[derive(Debug)]
pub struct ListPage {
    pub jobs: Vec<JobSummary>,
    pub total: usize,
    pub offset: usize,
    pub next_offset: Option<usize>,
    pub corrupt_entries: usize,
}

/// What a summary says.
#[verifier::ext_equal]
pub struct SummaryView {
    pub job_id: Seq<char>,
    pub command: Seq<char>,
    pub cwd: Seq<char>,
    pub execution_mode: ExecutionMode,
    pub state: JobState,
    pub created_at_ms: u64,
    pub updated_at_ms: u64,
    pub finished_at_ms: Option<u64>,
    pub exit_code: Option<i32>,
    pub result_available: bool,
    pub error_available: bool,
    pub process_id: Option<u32>,
    pub reattachable: bool,
}

impl View for JobSummary {
    type V = SummaryView;

    open spec fn view(&self) -> SummaryView {
        SummaryView {
            job_id: self.job_id@,
            command: self.command@,
            cwd: self.cwd@,
            execution_mode: self.execution_mode,
            state: self.state,
            created_at_ms: self.created_at_ms,
            updated_at_ms: self.updated_at_ms,
            finished_at_ms: self.finished_at_ms,
            exit_code: self.exit_code,
            result_available: self.result_available,
            error_available: self.error_available,
            process_id: self.process_id,
            reattachable: self.reattachable,
        }
    }
}

impl RecordView {
    /// What a list of jobs says of this one.
    pub open spec fn summary(self) -> SummaryView {
        SummaryView {
            job_id: self.job_id,
            command: self.command,
            cwd: self.cwd,
            execution_mode: self.execution_mode,
            state: self.state,
            created_at_ms: self.created_at_ms,
            updated_at_ms: self.updated_at_ms,
            finished_at_ms: self.finished_at_ms,
            exit_code: self.exit_code,
            result_available: self.result is Some,
            error_available: self.error is Some,
            process_id: self.process_id,
            reattachable: self.reattachable,
        }
    }
}

impl From<&JobRecord> for JobSummary {
    fn from(record: &JobRecord) -> (summary: JobSummary)
        ensures
            summary@ == record@.summary(),
    {
        JobSummary {
            job_id: record.job_id.clone(),
            command: record.command.clone(),
            cwd: record.cwd.clone(),
            execution_mode: record.execution_mode,
            state: record.state,
            created_at_ms: record.created_at_ms,
            updated_at_ms: record.updated_at_ms,
            finished_at_ms: record.finished_at_ms,
            exit_code: record.exit_code,
            result_available: record.result.is_some(),
            error_available: record.error.is_some(),
            process_id: record.process_id,
            reattachable: record.reattachable,
        }
    }
}

impl vstd::std_specs::convert::FromSpecImpl<&JobRecord> for JobSummary {
    open spec fn obeys_from_spec() -> bool {
        true
    }

    open spec fn from_spec(record: &JobRecord) -> JobSummary {
        JobSummary {
            job_id: record.job_id,
            command: record.command,
            cwd: record.cwd,
            execution_mode: record.execution_mode,
            state: record.state,
            created_at_ms: record.created_at_ms,
            updated_at_ms: record.updated_at_ms,
            finished_at_ms: record.finished_at_ms,
            exit_code: record.exit_code,
            result_available: record.result is Some,
            error_available: record.error is Some,
            process_id: record.process_id,
            reattachable: record.reattachable,
        }
    }
}

/// A text as it is where it fits into `max` bytes; else its two ends with a mark between them.
pub open spec fn plain_text_within(text: Seq<char>, max: int) -> Seq<char> {
    if byte_len(text) <= max {
        text
    } else {
        let budget = if max > 32 {
            max - 32
        } else {
            0
        };
        prefix_within(text, budget / 2 + budget % 2) + "\n... journal text truncated ...\n"@
            + suffix_within(text, budget / 2)
    }
}

proof fn lemma_mark_bytes()
    ensures
        byte_len("\n... journal text truncated ...\n"@) == 32,
{
    reveal_strlit("\n... journal text truncated ...\n");
    let mark = "\n... journal text truncated ...\n"@;
    assert(mark.len() == 32);
    assert(vstd::utf8::is_ascii_chars(mark));
    vstd::utf8::is_ascii_chars_encode_utf8(mark);
}

/// Keeps a text within a limit by leaving out its middle.
pub fn bound_plain_text(text: &str, max_bytes: usize) -> (bounded: String)
    ensures
        bounded@ == plain_text_within(text@, max_bytes as int),
        max_bytes >= 32 ==> byte_len(bounded@) <= max_bytes,
{
    if byte_length(text) <= max_bytes {
        return text.to_owned();
    }
    let budget: usize = max_bytes.saturating_sub(32);
    let mut bounded: String = bounded_utf8_prefix(text, budget / 2 + budget % 2);
    bounded.append("\n... journal text truncated ...\n");
    bounded.append(bounded_utf8_suffix(text, budget / 2).as_str());
    proof {
        let mark = "\n... journal text truncated ...\n"@;
        let head = prefix_within(text@, (budget / 2 + budget % 2) as int);
        let tail = suffix_within(text@, (budget / 2) as int);
        lemma_mark_bytes();
        lemma_prefix_within(text@, (budget / 2 + budget % 2) as int);
        lemma_suffix_within(text@, (budget / 2) as int);
        lemma_byte_len_concat(head, mark);
        lemma_byte_len_concat(head + mark, tail);
    }
    bounded
}

/// The status that a JSON object names as its exit code.
pub open spec fn exit_code_in(value: JsonView) -> Option<i32> {
    match member(value, "exit_code"@) {
        Some(JsonView::Int(n)) => if i32::MIN <= n <= i32::MAX {
            Some(n as i32)
        } else {
            None
        },
        _ => None,
    }
}

/// The status that a text names as the exit code, where it is a JSON object that has one.
pub open spec fn exit_code_in_text(text: Seq<char>) -> Option<i32> {
    match parsed(text) {
        Ok(value) => exit_code_in(value),
        Err(_) => None,
    }
}

/// The status that a JSON object names as its exit code.
pub fn exit_code_of(value: &Json) -> (code: Option<i32>)
    ensures
        code == exit_code_in(value@),
{
    match value.get("exit_code") {
        Some(Json::Unsigned(n)) => {
            if *n <= 0x7fff_ffff {
                Some(*n as i32)
            } else {
                None
            }
        },
        Some(Json::Signed(n)) => {
            if -0x8000_0000 <= *n && *n <= 0x7fff_ffff {
                Some(*n as i32)
            } else {
                None
            }
        },
        _ => None,
    }
}

/// The status that a text names as the exit code, where it is a JSON object that has one.
pub fn parse_exit_code(text: &str) -> (code: Option<i32>)
    ensures
        code == exit_code_in_text(text@),
{
    match parse(text) {
        Ok(value) => exit_code_of(&value),
        Err(_) => None,
    }
}

/// What is kept of a text that is too long, with a budget of bytes for its two ends.
pub open spec fn payload_view(
    text: Seq<char>,
    exit_code: Option<i32>,
    kind: Seq<char>,
    budget: int,
) -> JsonView {
    JsonView::object()
        .with("exit_code"@, match exit_code {
            Some(code) => JsonView::Int(code as int),
            None => JsonView::Null,
        })
        .with("journal_truncated"@, JsonView::Bool(true))
        .with("kind"@, JsonView::Text(kind))
        .with("original_bytes"@, JsonView::Int(byte_len(text) as int))
        .with("head"@, JsonView::Text(prefix_within(text, budget / 2 + budget % 2)))
        .with("tail"@, JsonView::Text(suffix_within(text, budget / 2)))
}

/// What is kept of a text that is too long: beginning with `budget` bytes of it, and with less
/// until it fits.
pub open spec fn fitting_payload(
    text: Seq<char>,
    exit_code: Option<i32>,
    kind: Seq<char>,
    budget: int,
) -> Seq<char>
    decreases budget,
{
    let rendered = compact(payload_view(text, exit_code, kind, budget));
    let bytes = byte_len(quoted(rendered));
    if bytes <= MAX_PERSISTED_FIELD_SERIALIZED_BYTES || budget <= 0 {
        rendered
    } else {
        let excess = if bytes - MAX_PERSISTED_FIELD_SERIALIZED_BYTES > 64 {
            bytes - MAX_PERSISTED_FIELD_SERIALIZED_BYTES
        } else {
            64
        };
        let lower = if budget > excess {
            budget - excess
        } else {
            0
        };
        fitting_payload(text, exit_code, kind, lower)
    }
}

/// What the journal keeps of the result or the error of a job: the text where it fits as a JSON
/// string, else an object that holds its two ends.
pub open spec fn kept_payload(text: Seq<char>, exit_code: Option<i32>, kind: Seq<char>) -> Seq<char> {
    if byte_len(quoted(text)) <= MAX_PERSISTED_FIELD_SERIALIZED_BYTES {
        text
    } else {
        fitting_payload(text, exit_code, kind, 64512)
    }
}

/// Whether a payload is the result or the error of a job.
pub open spec fn is_payload_kind(kind: Seq<char>) -> bool {
    kind == "result"@ || kind == "error"@
}

proof fn lemma_payload_words()
    ensures
        unescaped("exit_code"@) && "exit_code"@.len() == 9,
        unescaped("journal_truncated"@) && "journal_truncated"@.len() == 17,
        unescaped("kind"@) && "kind"@.len() == 4,
        unescaped("original_bytes"@) && "original_bytes"@.len() == 14,
        unescaped("head"@) && "head"@.len() == 4,
        unescaped("tail"@) && "tail"@.len() == 4,
        unescaped("result"@) && "result"@.len() == 6,
        unescaped("error"@) && "error"@.len() == 5,
{
    reveal_strlit("exit_code");
    reveal_strlit("journal_truncated");
    reveal_strlit("kind");
    reveal_strlit("original_bytes");
    reveal_strlit("head");
    reveal_strlit("tail");
    reveal_strlit("result");
    reveal_strlit("error");
}

proof fn lemma_bare_payload_bytes(text: Seq<char>, exit_code: Option<i32>, kind: Seq<char>)
    requires
        is_payload_kind(kind),
        byte_len(text) <= u64::MAX,
    ensures
        byte_len(quoted(compact(payload_view(text, exit_code, kind, 0))))
            <= MAX_PERSISTED_FIELD_SERIALIZED_BYTES,
{
    lemma_payload_words();
    lemma_object_bytes();
    lemma_decimal_printable(byte_len(text) as int);
    let code = match exit_code {
        Some(code) => JsonView::Int(code as int),
        None => JsonView::Null,
    };
    if let Some(code) = exit_code {
        lemma_decimal_printable(code as int);
    }
    let nothing = Seq::<char>::empty();
    lemma_prefix_within(text, 0);
    lemma_suffix_within(text, 0);
    crate::text::lemma_byte_len_bounds(prefix_within(text, 0));
    crate::text::lemma_byte_len_bounds(suffix_within(text, 0));
    assert(prefix_within(text, 0) =~= nothing);
    assert(suffix_within(text, 0) =~= nothing);
    let o1 = JsonView::object();
    lemma_value_bytes(o1, "exit_code"@, code, 2);
    let o2 = o1.with("exit_code"@, code);
    lemma_value_bytes(o2, "journal_truncated"@, JsonView::Bool(true), 30);
    let o3 = o2.with("journal_truncated"@, JsonView::Bool(true));
    lemma_word_bytes(o3, "kind"@, kind, 60);
    let o4 = o3.with("kind"@, JsonView::Text(kind));
    lemma_value_bytes(o4, "original_bytes"@, JsonView::Int(byte_len(text) as int), 80);
    let o5 = o4.with("original_bytes"@, JsonView::Int(byte_len(text) as int));
    lemma_word_bytes(o5, "head"@, nothing, 130);
    let o6 = o5.with("head"@, JsonView::Text(nothing));
    lemma_word_bytes(o6, "tail"@, nothing, 150);
    let bare = payload_view(text, exit_code, kind, 0);
    assert(bare == o6.with("tail"@, JsonView::Text(nothing)));
    lemma_printable_bytes(compact(bare));
    lemma_quoted_printable(compact(bare));
    lemma_printable_bytes(quoted(compact(bare)));
}

proof fn lemma_fitting_payload_fits(
    text: Seq<char>,
    exit_code: Option<i32>,
    kind: Seq<char>,
    budget: int,
)
    requires
        is_payload_kind(kind),
        byte_len(text) <= u64::MAX,
        0 <= budget,
    ensures
        byte_len(quoted(fitting_payload(text, exit_code, kind, budget)))
            <= MAX_PERSISTED_FIELD_SERIALIZED_BYTES,
    decreases budget,
{
    let rendered = compact(payload_view(text, exit_code, kind, budget));
    let bytes = byte_len(quoted(rendered));
    if bytes > MAX_PERSISTED_FIELD_SERIALIZED_BYTES {
        if budget == 0 {
            lemma_bare_payload_bytes(text, exit_code, kind);
        } else {
            let excess = if bytes - MAX_PERSISTED_FIELD_SERIALIZED_BYTES > 64 {
                bytes - MAX_PERSISTED_FIELD_SERIALIZED_BYTES
            } else {
                64
            };
            let lower = if budget > excess {
                budget - excess
            } else {
                0
            };
            lemma_fitting_payload_fits(text, exit_code, kind, lower);
        }
    }
}

/// Whatever a job gave, what the journal keeps of it takes at most 64 KiB as a JSON string.
pub proof fn law_kept_payload_fits(text: Seq<char>, exit_code: Option<i32>, kind: Seq<char>)
    requires
        is_payload_kind(kind),
        byte_len(text) <= u64::MAX,
    ensures
        byte_len(quoted(kept_payload(text, exit_code, kind)))
            <= MAX_PERSISTED_FIELD_SERIALIZED_BYTES,
{
    if byte_len(quoted(text)) > MAX_PERSISTED_FIELD_SERIALIZED_BYTES {
        lemma_fitting_payload_fits(text, exit_code, kind, 64512);
    }
}

/// What the journal keeps of the result or the error of a job.
pub fn bound_persisted_payload(text: &str, exit_code: Option<i32>, kind: &str) -> (kept: String)
    requires
        is_payload_kind(kind@),
    ensures
        kept@ == kept_payload(text@, exit_code, kind@),
        byte_len(quoted(kept@)) <= MAX_PERSISTED_FIELD_SERIALIZED_BYTES,
{
    let length: usize = byte_length(text);
    proof {
        law_kept_payload_fits(text@, exit_code, kind@);
    }
    if byte_length(render(&Json::text(text)).as_str()) <= MAX_PERSISTED_FIELD_SERIALIZED_BYTES {
        return text.to_owned();
    }
    let mut budget: usize = 64512;
    loop
        invariant
            length == byte_len(text@),
            kept_payload(text@, exit_code, kind@) == fitting_payload(
                text@,
                exit_code,
                kind@,
                budget as int,
            ),
            byte_len(quoted(kept_payload(text@, exit_code, kind@)))
                <= MAX_PERSISTED_FIELD_SERIALIZED_BYTES,
        decreases budget,
    {
        let code: Json = match exit_code {
            Some(code) => Json::Signed(code as i64),
            None => Json::Null,
        };
        let value: Json = Json::object()
            .with("exit_code", code)
            .with("journal_truncated", Json::Bool(true))
            .with("kind", Json::text(kind))
            .with("original_bytes", Json::Unsigned(length as u64))
            .with("head", Json::Text(bounded_utf8_prefix(text, budget / 2 + budget % 2)))
            .with("tail", Json::Text(bounded_utf8_suffix(text, budget / 2)));
        let rendered: String = render(&value);
        let bytes: usize = byte_length(render(&Json::text(rendered.as_str())).as_str());
        if bytes <= MAX_PERSISTED_FIELD_SERIALIZED_BYTES || budget == 0 {
            return rendered;
        }
        let excess: usize = if bytes - MAX_PERSISTED_FIELD_SERIALIZED_BYTES > 64 {
            bytes - MAX_PERSISTED_FIELD_SERIALIZED_BYTES
        } else {
            64
        };
        budget = budget.saturating_sub(excess);
    }
}

/// A text that is too long for the journal keeps its two ends with a mark between them, as much of each as
/// fits; one that is not is kept as it is.
pub proof fn law_long_texts_keep_both_ends(text: Seq<char>, max: int)
    requires
        32 <= max,
    ensures
        byte_len(text) <= max ==> plain_text_within(text, max) == text,
        byte_len(text) > max ==> exists|head: Seq<char>, tail: Seq<char>|
            {
                &&& #[trigger] is_longest_beginning(head, text, (max - 31) / 2)
                &&& #[trigger] is_longest_ending(tail, text, (max - 32) / 2)
                &&& plain_text_within(text, max) == head + "\n... journal text truncated ...\n"@ + tail
            },
        byte_len(plain_text_within(text, max)) <= max,
{
    let budget = max - 32;
    let head = prefix_within(text, budget / 2 + budget % 2);
    let tail = suffix_within(text, budget / 2);
    law_cut_texts_keep_as_much_as_fits(text, budget / 2 + budget % 2);
    law_cut_texts_keep_as_much_as_fits(text, budget / 2);
    assert(budget / 2 + budget % 2 == (max - 31) / 2);
    assert(is_longest_beginning(head, text, (max - 31) / 2));
    assert(is_longest_ending(tail, text, (max - 32) / 2));
    lemma_mark_bytes();
    let mark = "\n... journal text truncated ...\n"@;
    lemma_byte_len_concat(head, mark);
    lemma_byte_len_concat(head + mark, tail);
}

proof fn lemma_fitting_payload_is(text: Seq<char>, exit_code: Option<i32>, kind: Seq<char>, budget: int)
    requires
        0 <= budget <= 64512,
    ensures
        exists|kept: int|
            0 <= kept <= 64512 && fitting_payload(text, exit_code, kind, budget) == compact(
                #[trigger] payload_view(text, exit_code, kind, kept),
            ),
    decreases budget,
{
    let rendered = compact(payload_view(text, exit_code, kind, budget));
    let bytes = byte_len(quoted(rendered));
    if bytes > MAX_PERSISTED_FIELD_SERIALIZED_BYTES && budget > 0 {
        let excess = if bytes - MAX_PERSISTED_FIELD_SERIALIZED_BYTES > 64 {
            bytes - MAX_PERSISTED_FIELD_SERIALIZED_BYTES
        } else {
            64
        };
        let lower = if budget > excess {
            budget - excess
        } else {
            0
        };
        lemma_fitting_payload_is(text, exit_code, kind, lower);
    }
}

/// What is kept of a result or an error that is too long says so, and of which kind it is, with its exit code
/// and its length, and holds its two ends; one that is not too long is kept as it is.
pub proof fn law_long_payloads_keep_both_ends(text: Seq<char>, exit_code: Option<i32>, kind: Seq<char>)
    ensures
        byte_len(quoted(text)) <= 65536 ==> kept_payload(text, exit_code, kind) == text,
        byte_len(quoted(text)) > 65536 ==> exists|
            value: JsonView,
            budget: int,
            head: Seq<char>,
            tail: Seq<char>,
        |
            {
                &&& kept_payload(text, exit_code, kind) == #[trigger] compact(value)
                &&& 0 <= budget <= 64512
                &&& member(value, "journal_truncated"@) == Some(JsonView::Bool(true))
                &&& member(value, "kind"@) == Some(JsonView::Text(kind))
                &&& member(value, "original_bytes"@) == Some(JsonView::Int(byte_len(text) as int))
                &&& member(value, "exit_code"@) == Some(
                    match exit_code {
                        Some(code) => JsonView::Int(code as int),
                        None => JsonView::Null,
                    },
                )
                &&& member(value, "head"@) == Some(JsonView::Text(head))
                &&& member(value, "tail"@) == Some(JsonView::Text(tail))
                &&& #[trigger] are_ends(text, budget, head, tail)
            },
{
    if byte_len(quoted(text)) > MAX_PERSISTED_FIELD_SERIALIZED_BYTES {
        lemma_fitting_payload_is(text, exit_code, kind, 64512);
        let budget = choose|kept: int|
            0 <= kept <= 64512 && kept_payload(text, exit_code, kind) == compact(
                #[trigger] payload_view(text, exit_code, kind, kept),
            );
        let head = prefix_within(text, budget / 2 + budget % 2);
        let tail = suffix_within(text, budget / 2);
        law_cut_texts_keep_as_much_as_fits(text, budget / 2 + budget % 2);
        law_cut_texts_keep_as_much_as_fits(text, budget / 2);
        assert(are_ends(text, budget, head, tail));
        let code = match exit_code {
            Some(code) => JsonView::Int(code as int),
            None => JsonView::Null,
        };
        let entries = seq![
            ("exit_code"@, code),
            ("journal_truncated"@, JsonView::Bool(true)),
            ("kind"@, JsonView::Text(kind)),
            ("original_bytes"@, JsonView::Int(byte_len(text) as int)),
            ("head"@, JsonView::Text(head)),
            ("tail"@, JsonView::Text(tail)),
        ];
        reveal_strlit("exit_code");
        reveal_strlit("journal_truncated");
        reveal_strlit("kind");
        reveal_strlit("original_bytes");
        reveal_strlit("head");
        reveal_strlit("tail");
        assert("kind"@[0] == 'k' && "head"@[0] == 'h' && "tail"@[0] == 't');
        assert(distinct_keys(entries));
        lemma_entries_held(entries);
        reveal_with_fuel(filled_to, 7);
        let value = payload_view(text, exit_code, kind, budget);
        assert(filled(entries) == value);
        assert(entries[0].0 == "exit_code"@ && entries[1].0 == "journal_truncated"@);
        assert(entries[2].0 == "kind"@ && entries[3].0 == "original_bytes"@);
        assert(entries[4].0 == "head"@ && entries[5].0 == "tail"@);
        assert(kept_payload(text, exit_code, kind) == compact(value));
    }
}

/// Whether two texts are the ends of a text that fit into a half of a budget each.
pub open spec fn are_ends(text: Seq<char>, budget: int, head: Seq<char>, tail: Seq<char>) -> bool {
    is_longest_beginning(head, text, (budget + 1) / 2) && is_longest_ending(tail, text, budget / 2)
}

/// What a list says of a job is what its record says, and whether it has a result and an error.
pub proof fn law_summaries_tell_the_record(record: RecordView)
    ensures
        ({
            let told = record.summary();
            &&& told.job_id == record.job_id && told.command == record.command && told.cwd
                == record.cwd
            &&& told.execution_mode == record.execution_mode && told.state == record.state
            &&& told.created_at_ms == record.created_at_ms && told.updated_at_ms
                == record.updated_at_ms && told.finished_at_ms == record.finished_at_ms
            &&& told.exit_code == record.exit_code && told.process_id == record.process_id
                && told.reattachable == record.reattachable
            &&& told.result_available <==> record.result is Some
            &&& told.error_available <==> record.error is Some
        }),
{
}

} // verus!
