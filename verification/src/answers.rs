//! The answers of the tools.
use vstd::prelude::*;

use crate::json::{
    compact, distinct_keys, filled, filled_to, lemma_entries_held, member, ordered, render, Json, JsonView,
};
use crate::sandbox::{Output, Termination};

verus! {

/// An answer that is a text.
pub open spec fn text_answer(text: Seq<char>) -> JsonView {
    JsonView::object().with("content"@, JsonView::list().item(
        JsonView::object()
            .with("type"@, JsonView::Text("text"@))
            .with("text"@, JsonView::Text(text)),
    ))
}

/// An answer that is a text.
pub fn text_result(text: &str) -> (json: Json)
    ensures
        json@ == text_answer(text@),
        ordered(json@),
{
    Json::object().with("content", Json::list().item(
        Json::object().with("type", Json::text("text")).with("text", Json::text(text)),
    ))
}

/// How a command ended and what it wrote.
pub open spec fn output_view(output: Output) -> JsonView {
    JsonView::object()
        .with("exit_code"@, JsonView::Int(output.status as int))
        .with("stdout"@, JsonView::Text(output.stdout@))
        .with("stderr"@, JsonView::Text(output.stderr@))
        .with("termination"@, JsonView::Text(output.termination.word()))
        .with(
            "termination_trigger"@,
            JsonView::optional_text(
                match output.termination.cause() {
                    Some(trigger) => Some(trigger.word()),
                    None => None,
                },
            ),
        )
}

/// How a command ended and what it wrote, as JSON text. It is an error where the command exited by
/// itself with another status than zero.
pub open spec fn told_output(output: Output) -> Result<Seq<char>, Seq<char>> {
    if output.termination == Termination::Exited && output.status != 0 {
        Err(compact(output_view(output)))
    } else {
        Ok(compact(output_view(output)))
    }
}

/// How a command ended and what it wrote, as JSON text. It is an error where the command exited by
/// itself with another status than zero.
pub fn render_output(output: &Output) -> (result: Result<String, String>)
    ensures
        match result {
            Ok(text) => told_output(*output) == Ok::<Seq<char>, Seq<char>>(text@),
            Err(text) => told_output(*output) == Err::<Seq<char>, Seq<char>>(text@),
        },
{
    let trigger: Json = match output.termination.trigger() {
        Some(trigger) => Json::text(trigger.as_str()),
        None => Json::Null,
    };
    let value: Json = Json::object()
        .with("exit_code", Json::Signed(output.status as i64))
        .with("stdout", Json::text(output.stdout.as_str()))
        .with("stderr", Json::text(output.stderr.as_str()))
        .with("termination", Json::text(output.termination.as_str()))
        .with("termination_trigger", trigger);
    let text: String = render(&value);
    if output.termination == Termination::Exited && output.status != 0 {
        Err(text)
    } else {
        Ok(text)
    }
}

/// What is told of a command holds its exit code, what it wrote to each stream under the name of that stream,
/// and how it ended; and an answer that is a text holds that text.
pub proof fn law_outputs_are_told_as_they_are(output: Output, text: Seq<char>)
    ensures
        member(output_view(output), "exit_code"@) == Some(JsonView::Int(output.status as int)),
        member(output_view(output), "stdout"@) == Some(JsonView::Text(output.stdout@)),
        member(output_view(output), "stderr"@) == Some(JsonView::Text(output.stderr@)),
        member(output_view(output), "termination"@) == Some(
            JsonView::Text(
                match output.termination {
                    Termination::Exited => "exited"@,
                    Termination::Stopped => "stopped"@,
                    Termination::TimedOut => "timeout"@,
                    Termination::Cancelled => "cancelled"@,
                    Termination::ForcedKill(_) => "forced_kill"@,
                },
            ),
        ),
        member(text_answer(text), "content"@) matches Some(JsonView::Array(items)) && items.len() == 1
            && member(items[0], "text"@) == Some(JsonView::Text(text)) && member(items[0], "type"@)
            == Some(JsonView::Text("text"@)),
{
    let told = seq![
        ("exit_code"@, JsonView::Int(output.status as int)),
        ("stdout"@, JsonView::Text(output.stdout@)),
        ("stderr"@, JsonView::Text(output.stderr@)),
        ("termination"@, JsonView::Text(output.termination.word())),
        (
            "termination_trigger"@,
            JsonView::optional_text(
                match output.termination.cause() {
                    Some(trigger) => Some(trigger.word()),
                    None => None,
                },
            ),
        ),
    ];
    let item = seq![("type"@, JsonView::Text("text"@)), ("text"@, JsonView::Text(text))];
    let content = JsonView::list().item(filled(item));
    let answer = seq![("content"@, content)];
    reveal_strlit("exit_code");
    reveal_strlit("stdout");
    reveal_strlit("stderr");
    reveal_strlit("termination");
    reveal_strlit("termination_trigger");
    reveal_strlit("type");
    reveal_strlit("text");
    assert("stdout"@[3] == 'o' && "stderr"@[3] == 'e');
    assert("type"@[1] == 'y' && "text"@[1] == 'e');
    assert(distinct_keys(told));
    assert(distinct_keys(item));
    assert(distinct_keys(answer));
    lemma_entries_held(told);
    lemma_entries_held(item);
    lemma_entries_held(answer);
    reveal_with_fuel(filled_to, 6);
    assert(filled(told) == output_view(output));
    assert(filled(answer) == text_answer(text));
    assert(told[0].0 == "exit_code"@ && told[1].0 == "stdout"@ && told[2].0 == "stderr"@);
    assert(told[3].0 == "termination"@);
    assert(item[0].0 == "type"@ && item[1].0 == "text"@ && answer[0].0 == "content"@);
}

/// A command has failed exactly if it exited by itself with another status than zero; either way all that it
/// left is told.
pub proof fn law_only_bad_exits_are_errors(output: Output)
    ensures
        told_output(output) is Err <==> output.termination is Exited && output.status != 0,
        told_output(output) is Ok ==> told_output(output)->Ok_0 == compact(output_view(output)),
        told_output(output) is Err ==> told_output(output)->Err_0 == compact(output_view(output)),
{
}

} // verus!
