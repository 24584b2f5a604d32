//! What the session sees of the calls that are made in it.
use vstd::prelude::*;

use crate::config::{alphanumeric, is_alphanumeric};
use crate::job_id::{uuid_text, JobId};
use crate::json::{member, parse, parsed, text_member, Json, JsonView};
use crate::lines::{lines, lines_of, trim_end, trimmed_end};
use crate::text::{
    bounded_text, byte_len, debug_string, debug_form, decimal_digits, decimal_text, join_texts, joined,
    lemma_shortened_within, optional_view, shortened, texts_view,
};

verus! {

pub const MAX_COMMAND_BYTES: usize = 512;

pub const MAX_ERROR_BYTES: usize = 2048;

/// One line of activity, and what is shown below it.
#[derive(Debug)]
pub struct Activity {
    pub title: String,
    pub detail: Option<String>,
}

/// One line of activity, and what is shown below it.
pub type ActivityView = (Seq<char>, Option<Seq<char>>);

impl View for Activity {
    type V = ActivityView;

    open spec fn view(&self) -> ActivityView {
        (self.title@, optional_view(self.detail))
    }
}

/// Whether a character needs no quotes in a command line.
pub open spec fn is_plain_char(c: char) -> bool {
    is_alphanumeric(c) || c == '-' || c == '_' || c == '.' || c == '/' || c == ':' || c == '='
        || c == '+'
}

/// An argument as it is shown: as it is where all its characters are plain, else in quotes.
pub open spec fn shown_word(value: Seq<char>) -> Seq<char> {
    if forall|i: int| 0 <= i < value.len() ==> is_plain_char(#[trigger] value[i]) {
        value
    } else {
        debug_form(value)
    }
}

/// An argument as it is shown.
pub fn shell_word(value: &str) -> (word: String)
    ensures
        word@ == shown_word(value@),
{
    for character in iter: value.chars()
        invariant
            iter.seq() == value@,
            forall|i: int| 0 <= i < iter.index() ==> is_plain_char(#[trigger] value@[i]),
    {
        assert(value@[iter.index() as int] == character);
        if !(alphanumeric(character) || character == '-' || character == '_' || character == '.'
            || character == '/' || character == ':' || character == '=' || character == '+') {
            return debug_string(value);
        }
    }
    value.to_owned()
}

/// The arguments of a command as they are shown.
pub open spec fn shown_words(command: Seq<Seq<char>>) -> Seq<Seq<char>> {
    Seq::new(command.len(), |i: int| shown_word(command[i]))
}

/// A command as it is shown, in at most 512 bytes.
pub open spec fn shown_command(command: Seq<Seq<char>>) -> Seq<char> {
    shortened(joined(shown_words(command), " "@), MAX_COMMAND_BYTES as int)
}

/// A command as it is shown, in at most 512 bytes.
pub fn render_command(command: &Vec<String>) -> (rendered: String)
    ensures
        rendered@ == shown_command(texts_view(command@)),
        byte_len(rendered@) <= MAX_COMMAND_BYTES,
{
    let mut words: Vec<String> = Vec::new();
    let mut index: usize = 0;
    while index < command.len()
        invariant
            index <= command@.len(),
            words@.len() == index,
            forall|i: int| 0 <= i < index ==> (#[trigger] words@[i])@ == shown_word(command@[i]@),
        decreases command@.len() - index,
    {
        words.push(shell_word(command[index].as_str()));
        index = index + 1;
    }
    proof {
        assert(texts_view(words@) =~= shown_words(texts_view(command@)));
        lemma_shortened_within(joined(texts_view(words@), " "@), MAX_COMMAND_BYTES as int);
    }
    bounded_text(join_texts(&words, " ").as_str(), MAX_COMMAND_BYTES)
}

/// The text that a value holds under a key, without the white space at its end; nothing where it
/// holds no text there.
pub open spec fn trimmed_member(value: JsonView, key: Seq<char>) -> Seq<char> {
    match text_member(value, key) {
        Some(text) => trimmed_end(text),
        None => Seq::empty(),
    }
}

fn get_trimmed(value: &Json, key: &str) -> (text: String)
    ensures
        text@ == trimmed_member(value@, key@),
{
    match value.get_text(key) {
        Some(text) => trim_end(text),
        None => String::new(),
    }
}

/// The beginning of a stream, and its end where something between them is missing.
pub open spec fn stream_text(
    value: JsonView,
    head_key: Seq<char>,
    tail_key: Seq<char>,
    truncated_key: Seq<char>,
) -> Seq<char> {
    let head = trimmed_member(value, head_key);
    let tail = trimmed_member(value, tail_key);
    if member(value, truncated_key) == Some(JsonView::Bool(true)) && tail.len() > 0 {
        head + "\n... output truncated; use read_job_log ...\n"@ + tail
    } else {
        head
    }
}

fn stream_summary(value: &Json, head_key: &str, tail_key: &str, truncated_key: &str) -> (text: String)
    ensures
        text@ == stream_text(value@, head_key@, tail_key@, truncated_key@),
{
    let head: String = get_trimmed(value, head_key);
    let tail: String = get_trimmed(value, tail_key);
    let truncated: bool = match value.get(truncated_key) {
        Some(Json::Bool(flag)) => *flag,
        _ => false,
    };
    if truncated && !tail.as_str().is_empty() {
        let mut text: String = head;
        text.append("\n... output truncated; use read_job_log ...\n");
        text.append(tail.as_str());
        text
    } else {
        head
    }
}

/// Whether a result shows its streams by their beginnings and ends.
pub open spec fn has_bounded_streams(value: JsonView) -> bool {
    member(value, "stdout_head"@) is Some || member(value, "stdout_tail"@) is Some || member(
        value,
        "stderr_head"@,
    ) is Some || member(value, "stderr_tail"@) is Some
}

/// What a command wrote, as its result tells: its standard output, or its standard error where the
/// first is empty.
pub open spec fn shown_output(value: JsonView) -> Seq<char> {
    let stdout = if has_bounded_streams(value) {
        stream_text(value, "stdout_head"@, "stdout_tail"@, "stdout_truncated"@)
    } else {
        trimmed_member(value, "stdout"@)
    };
    let stderr = if has_bounded_streams(value) {
        stream_text(value, "stderr_head"@, "stderr_tail"@, "stderr_truncated"@)
    } else {
        trimmed_member(value, "stderr"@)
    };
    if stdout.len() == 0 {
        stderr
    } else {
        stdout
    }
}

/// Lines, each after a mark.
pub open spec fn marked(lines: Seq<Seq<char>>) -> Seq<Seq<char>> {
    Seq::new(lines.len(), |i: int| "└ "@ + lines[i])
}

/// What is shown of a result: the lines of the output, each after a mark; nothing where there is
/// no output.
pub open spec fn summary_of(value: JsonView) -> Option<Seq<char>> {
    if shown_output(value).len() == 0 {
        None
    } else {
        Some(joined(marked(lines_of(shown_output(value))), "\n"@))
    }
}

/// What is shown of a result: the lines of the output, each after a mark; nothing where there is
/// no output.
pub fn result_summary(value: &Json) -> (summary: Option<String>)
    ensures
        optional_view(summary) == summary_of(value@),
{
    let bounded: bool = value.get("stdout_head").is_some() || value.get("stdout_tail").is_some()
        || value.get("stderr_head").is_some() || value.get("stderr_tail").is_some();
    let stdout: String = if bounded {
        stream_summary(value, "stdout_head", "stdout_tail", "stdout_truncated")
    } else {
        get_trimmed(value, "stdout")
    };
    let stderr: String = if bounded {
        stream_summary(value, "stderr_head", "stderr_tail", "stderr_truncated")
    } else {
        get_trimmed(value, "stderr")
    };
    let output: String = if stdout.as_str().is_empty() {
        stderr
    } else {
        stdout
    };
    if output.as_str().is_empty() {
        return None;
    }
    let plain: Vec<String> = lines(output.as_str());
    let mut shown: Vec<String> = Vec::new();
    let mut index: usize = 0;
    while index < plain.len()
        invariant
            index <= plain@.len(),
            shown@.len() == index,
            forall|i: int| 0 <= i < index ==> (#[trigger] shown@[i])@ == "└ "@ + plain@[i]@,
        decreases plain@.len() - index,
    {
        let mut line: String = "└ ".to_owned();
        line.append(plain[index].as_str());
        shown.push(line);
        index = index + 1;
    }
    proof {
        assert(texts_view(shown@) =~= marked(texts_view(plain@)));
    }
    Some(join_texts(&shown, "\n"))
}

/// What is shown of the text of a result; nothing where it is no JSON.
pub open spec fn summary_of_text(text: Seq<char>) -> Option<Seq<char>> {
    match parsed(text) {
        Ok(value) => summary_of(value),
        Err(_) => None,
    }
}

/// What is shown of the text of a result; nothing where it is no JSON or holds no output.
pub fn command_summary(text: &str) -> (summary: Option<String>)
    ensures
        optional_view(summary) == summary_of_text(text@),
{
    match parse(text) {
        Ok(value) => result_summary(&value),
        Err(_) => None,
    }
}

/// A text made of two.
pub(crate) fn concat(first: &str, second: &str) -> (text: String)
    ensures
        text@ == first@ + second@,
{
    let mut text: String = first.to_owned();
    text.append(second);
    text
}

/// What is shown below a call that failed.
pub open spec fn error_detail(message: Seq<char>) -> Seq<char> {
    "└ Error: "@ + message
}

/// A call that read something, with its error where it failed.
pub fn report_result(title: String, error: Option<&str>) -> (activity: Activity)
    ensures
        activity@ == (
            title@,
            match error {
                Some(message) => Some(error_detail(message@)),
                None => None,
            },
        ),
{
    let detail: Option<String> = match error {
        Some(message) => Some(concat("└ Error: ", message)),
        None => None,
    };
    Activity { title, detail }
}

/// How a command task failed: the message of the failure itself, and the one that also names its
/// causes.
#[derive(Debug)]
pub struct Failure {
    pub message: String,
    pub with_causes: String,
}

/// What is shown below a command that has ended: its output; or, where it failed with none, why.
pub open spec fn finished_detail(result: Result<String, Failure>) -> Option<Seq<char>> {
    match result {
        Ok(text) => summary_of_text(text@),
        Err(failure) => match summary_of_text(failure.message@) {
            Some(summary) => Some(summary),
            None => Some(
                shortened(error_detail(failure.with_causes@), MAX_ERROR_BYTES as int),
            ),
        },
    }
}

/// A command that has ended.
pub fn report_command_finished(command: &str, result: &Result<String, Failure>) -> (activity: Activity)
    ensures
        activity@ == ("Ran "@ + command@, finished_detail(*result)),
{
    let detail: Option<String> = match result {
        Ok(text) => command_summary(text.as_str()),
        Err(failure) => match command_summary(failure.message.as_str()) {
            Some(summary) => Some(summary),
            None => Some(
                bounded_text(
                    concat("└ Error: ", failure.with_causes.as_str()).as_str(),
                    MAX_ERROR_BYTES,
                ),
            ),
        },
    };
    Activity { title: concat("Ran ", command), detail }
}

/// A command that goes on in the background, under the identifier of its job.
pub fn report_stored_job(word: &str, command: &str, job_id: JobId) -> (activity: Activity)
    ensures
        activity@ == (
            word@ + " "@ + command@,
            Some("└ job "@ + uuid_text(job_id.bits)),
        ),
{
    let mut title: String = concat(word, " ");
    title.append(command);
    Activity { title, detail: Some(concat("└ job ", job_id.to_text().as_str())) }
}

/// A command that was stopped, and how it ended.
pub fn report_stopped_job(command: &str, job_id: JobId, termination: &str) -> (activity: Activity)
    ensures
        activity@ == (
            "Stopped "@ + command@,
            Some("└ job "@ + uuid_text(job_id.bits) + "; termination "@ + termination@),
        ),
{
    let mut detail: String = concat("└ job ", job_id.to_text().as_str());
    detail.append("; termination ");
    detail.append(termination);
    Activity { title: concat("Stopped ", command), detail: Some(detail) }
}

/// A part of the log of a job that was read.
pub fn report_log_read(stream: &str, job_id: JobId, offset: u64, length: u64) -> (activity: Activity)
    ensures
        activity@ == (
            "Read "@ + stream@ + " for job "@ + uuid_text(job_id.bits),
            Some(
                "└ offset "@ + decimal_digits(offset as nat) + ", length "@ + decimal_digits(
                    length as nat,
                ),
            ),
        ),
{
    let mut title: String = concat("Read ", stream);
    title.append(" for job ");
    title.append(job_id.to_text().as_str());
    let mut detail: String = concat("└ offset ", decimal_text(offset as u128).as_str());
    detail.append(", length ");
    detail.append(decimal_text(length as u128).as_str());
    Activity { title, detail: Some(detail) }
}

/// An argument is shown as it is exactly if it needs no quotes: if it is made of ASCII letters, digits and
/// some marks. Any other stands in quotes.
pub proof fn law_plain_words_are_shown_as_they_are(value: Seq<char>)
    ensures
        (forall|i: int|
            0 <= i < value.len() ==> {
                let c = #[trigger] value[i];
                'a' <= c <= 'z' || 'A' <= c <= 'Z' || '0' <= c <= '9' || c == '-' || c == '_' || c == '.'
                    || c == '/' || c == ':' || c == '=' || c == '+'
            }) ==> shown_word(value) == value,
        (exists|i: int|
            0 <= i < value.len() && {
                let c = #[trigger] value[i];
                !('a' <= c <= 'z' || 'A' <= c <= 'Z' || '0' <= c <= '9' || c == '-' || c == '_' || c
                    == '.' || c == '/' || c == ':' || c == '=' || c == '+')
            }) ==> shown_word(value) == debug_form(value),
{
    if exists|i: int|
        0 <= i < value.len() && {
            let c = #[trigger] value[i];
            !('a' <= c <= 'z' || 'A' <= c <= 'Z' || '0' <= c <= '9' || c == '-' || c == '_' || c == '.'
                || c == '/' || c == ':' || c == '=' || c == '+')
        } {
        let i = choose|i: int|
            0 <= i < value.len() && {
                let c = #[trigger] value[i];
                !('a' <= c <= 'z' || 'A' <= c <= 'Z' || '0' <= c <= '9' || c == '-' || c == '_' || c
                    == '.' || c == '/' || c == ':' || c == '=' || c == '+')
            };
        assert(!is_plain_char(value[i]));
    }
    if forall|i: int|
        0 <= i < value.len() ==> {
            let c = #[trigger] value[i];
            'a' <= c <= 'z' || 'A' <= c <= 'Z' || '0' <= c <= '9' || c == '-' || c == '_' || c == '.' || c
                == '/' || c == ':' || c == '=' || c == '+'
        } {
        assert forall|i: int| 0 <= i < value.len() implies is_plain_char(#[trigger] value[i]) by {}
    }
}

/// What a command wrote is shown from its standard output, and from its standard error only where the
/// first shows nothing: of each stream its beginning, and its end too where something between is missing.
pub proof fn law_summaries_show_the_output(
    value: JsonView,
    out_head: Seq<char>,
    out_tail: Seq<char>,
    out_cut: bool,
    err_head: Seq<char>,
    err_tail: Seq<char>,
    err_cut: bool,
)
    requires
        member(value, "stdout_head"@) == Some(JsonView::Text(out_head)),
        member(value, "stdout_tail"@) == Some(JsonView::Text(out_tail)),
        member(value, "stdout_truncated"@) == Some(JsonView::Bool(out_cut)),
        member(value, "stderr_head"@) == Some(JsonView::Text(err_head)),
        member(value, "stderr_tail"@) == Some(JsonView::Text(err_tail)),
        member(value, "stderr_truncated"@) == Some(JsonView::Bool(err_cut)),
    ensures
        ({
            let mark = "\n... output truncated; use read_job_log ...\n"@;
            let out = if out_cut && trimmed_end(out_tail).len() > 0 {
                trimmed_end(out_head) + mark + trimmed_end(out_tail)
            } else {
                trimmed_end(out_head)
            };
            let err = if err_cut && trimmed_end(err_tail).len() > 0 {
                trimmed_end(err_head) + mark + trimmed_end(err_tail)
            } else {
                trimmed_end(err_head)
            };
            &&& out.len() > 0 ==> shown_output(value) == out
            &&& out.len() == 0 ==> shown_output(value) == err
            &&& summary_of(value) is None <==> out.len() == 0 && err.len() == 0
        }),
{
}

/// Below a command that failed with no output stands why it failed; and where there is output, that is shown,
/// whether it failed or not.
pub proof fn law_finished_commands_show_output_or_error(text: String, failure: Failure)
    ensures
        finished_detail(Ok(text)) == summary_of_text(text@),
        summary_of_text(failure.message@) is Some ==> finished_detail(Err(failure)) == summary_of_text(
            failure.message@,
        ),
        summary_of_text(failure.message@) is None && byte_len("└ Error: "@ + failure.with_causes@)
            <= MAX_ERROR_BYTES ==> finished_detail(Err(failure)) == Some(
            "└ Error: "@ + failure.with_causes@,
        ),
{
}

/// Every line of what is shown stands behind a mark, in its order.
pub proof fn law_lines_are_marked(value: JsonView, i: int)
    requires
        summary_of(value) is Some,
        0 <= i < lines_of(shown_output(value)).len(),
    ensures
        ({
            let shown = marked(lines_of(shown_output(value)));
            &&& summary_of(value) == Some(joined(shown, "\n"@))
            &&& shown.len() == lines_of(shown_output(value)).len()
            &&& shown[i] == "└ "@ + lines_of(shown_output(value))[i]
        }),
{
}

} // verus!
