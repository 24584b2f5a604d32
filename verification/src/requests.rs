//! Requests and responses, one to a line.
use vstd::prelude::*;

use crate::activity::concat;
use crate::answers::text_answer;
use crate::command_answers::{answer_bytes, law_reasons_fit};
use crate::command_output::{
    bounded_result_view, clamped_limit, error_envelope, jsonrpc_id_within_budget, law_result_fits,
    longest_id, response_bytes, success_envelope, MAX_JSONRPC_ID_SERIALIZED_BYTES,
    MIN_INLINE_OUTPUT_LIMIT,
};
use crate::command_result::{
    lemma_outcome_property, CommandErrorKind, CommandOutcome, OutcomeView, MAX_REASON_BYTES,
};
use crate::json::{
    comma_entries, comma_items, compact, distinct_keys, escaped, escaped_char, filled, filled_to,
    items_view, lemma_entries_held, lemma_filled_member, lemma_member_with, member, ordered, parse,
    parsed, quoted, render, text_member, with_entry, Json, JsonView,
};
use crate::json_size::{
    brief, lemma_filled_object_bytes, lemma_new_entry_bytes, lemma_printable_bytes,
    lemma_quoted_unescaped, unescaped,
};
use crate::lines::{blank, is_blank, is_white_space};
use crate::sandbox::{StreamCapture, Termination};
use crate::text::{
    byte_len, decimal_digits, digit_char, lemma_byte_len_concat, lemma_byte_len_empty,
    lemma_byte_len_one, same_text,
};
use crate::tools::{
    all_tools, law_tool_names_differ, read_resource, resource_answer, resources, resources_view, tools, tools_view,
    ToolName,
};

verus! {

/// A response that refuses a request.
pub open spec fn error_response(id: JsonView, code: int, message: Seq<char>) -> JsonView {
    JsonView::object()
        .with("jsonrpc"@, JsonView::Text("2.0"@))
        .with("id"@, id)
        .with(
            "error"@,
            JsonView::object()
                .with("code"@, JsonView::Int(code))
                .with("message"@, JsonView::Text(message)),
        )
}

/// A response that grants a request.
pub open spec fn success_response(id: JsonView, result: JsonView) -> JsonView {
    JsonView::object()
        .with("jsonrpc"@, JsonView::Text("2.0"@))
        .with("id"@, id)
        .with("result"@, result)
}

fn refuse(id: Json, code: i64, message: String) -> (response: Json)
    requires
        ordered(id@),
    ensures
        response@ == error_response(id@, code as int, message@),
        ordered(response@),
{
    let error: Json = Json::object()
        .with("code", Json::Signed(code))
        .with("message", Json::Text(message));
    Json::object().with("jsonrpc", Json::text("2.0")).with("id", id).with("error", error)
}

/// What a request is answered: its result, or why it failed.
pub open spec fn response_view(id: JsonView, result: Result<JsonView, Seq<char>>) -> JsonView {
    match result {
        Ok(value) => success_response(id, value),
        Err(message) => error_response(id, -32000, message),
    }
}

/// What a request is answered: its result, or why it failed.
pub fn respond(id: Json, result: Result<Json, String>) -> (response: Json)
    requires
        ordered(id@),
        result matches Ok(value) ==> ordered(value@),
    ensures
        response@ == response_view(
            id@,
            match result {
                Ok(value) => Ok(value@),
                Err(message) => Err(message@),
            },
        ),
        ordered(response@),
{
    match result {
        Ok(value) => Json::object()
            .with("jsonrpc", Json::text("2.0"))
            .with("id", id)
            .with("result", value),
        Err(message) => refuse(id, -32000, message),
    }
}

/// What is to be done about a line that came in.
#[derive(Debug)]
pub enum LineStep {
    /// Nothing: it is empty, or tells something that is not answered.
    Skip,
    /// Send this response.
    Answer(Json),
    /// Handle this request and answer it under this identifier.
    Handle { id: Json, request: Json },
}

/// What is to be done about a line that came in.
pub enum StepView {
    Skip,
    Answer(JsonView),
    Handle(JsonView, JsonView),
}

impl View for LineStep {
    type V = StepView;

    open spec fn view(&self) -> StepView {
        match self {
            LineStep::Skip => StepView::Skip,
            LineStep::Answer(response) => StepView::Answer(response@),
            LineStep::Handle { id, request } => StepView::Handle(id@, request@),
        }
    }
}

/// What a request is told whose identifier is too long.
pub open spec fn long_id_message() -> Seq<char> {
    "JSON-RPC request id exceeds 256 serialized bytes"@
}

/// What is to be done about a message, or about a line that holds none. A message without an
/// identifier is not answered; one whose identifier is too long is refused before it is handled.
pub open spec fn message_step(message: Result<JsonView, Seq<char>>) -> StepView {
    match message {
        Err(error) => StepView::Answer(error_response(JsonView::Null, -32700, error)),
        Ok(request) => match member(request, "id"@) {
            None => StepView::Skip,
            Some(id) => if byte_len(compact(id)) > MAX_JSONRPC_ID_SERIALIZED_BYTES {
                StepView::Answer(error_response(JsonView::Null, -32600, long_id_message()))
            } else {
                StepView::Handle(id, request)
            },
        },
    }
}

/// What is to be done about a message, or about a line that holds none.
pub fn take_message(message: Result<Json, String>) -> (step: LineStep)
    requires
        message matches Ok(request) ==> ordered(request@),
    ensures
        step@ == message_step(
            match message {
                Ok(request) => Ok(request@),
                Err(error) => Err(error@),
            },
        ),
        match step {
            LineStep::Skip => true,
            LineStep::Answer(response) => ordered(response@),
            LineStep::Handle { id, request } => ordered(id@) && ordered(request@),
        },
{
    match message {
        Err(error) => LineStep::Answer(refuse(Json::Null, -32700, error)),
        Ok(request) => {
            let id: Json = match request.get("id") {
                None => {
                    return LineStep::Skip;
                },
                Some(id) => id.clone(),
            };
            if !jsonrpc_id_within_budget(&id) {
                let message: String = "JSON-RPC request id exceeds 256 serialized bytes".to_owned();
                LineStep::Answer(refuse(Json::Null, -32600, message))
            } else {
                LineStep::Handle { id, request }
            }
        },
    }
}

/// What is to be done about a line that came in.
pub open spec fn line_step(line: Seq<char>) -> StepView {
    if is_blank(line) {
        StepView::Skip
    } else {
        message_step(parsed(line))
    }
}

/// What is to be done about a line that came in.
pub fn take_line(line: &str) -> (step: LineStep)
    ensures
        step@ == line_step(line@),
        match step {
            LineStep::Skip => true,
            LineStep::Answer(response) => ordered(response@),
            LineStep::Handle { id, request } => ordered(id@) && ordered(request@),
        },
{
    if blank(line) {
        LineStep::Skip
    } else {
        take_message(parse(line))
    }
}

/// The line on which a message is sent.
pub fn message_line(message: &Json) -> (line: String)
    requires
        ordered(message@),
    ensures
        line@ == compact(message@) + "\n"@,
{
    concat(render(message).as_str(), "\n")
}

/// What a client is told that introduces itself.
pub open spec fn introduction(version: Seq<char>) -> JsonView {
    JsonView::object()
        .with("protocolVersion"@, JsonView::Text("2025-06-18"@))
        .with(
            "capabilities"@,
            JsonView::object()
                .with("tools"@, JsonView::object().with("listChanged"@, JsonView::Bool(false)))
                .with(
                    "resources"@,
                    JsonView::object()
                        .with("subscribe"@, JsonView::Bool(false))
                        .with("listChanged"@, JsonView::Bool(false)),
                ),
        )
        .with(
            "serverInfo"@,
            JsonView::object()
                .with("name"@, JsonView::Text("local-mcp"@))
                .with("version"@, JsonView::Text(version)),
        )
        .with(
            "instructions"@,
            JsonView::Text(
                "Every tool call requires the local-mcp session_id supplied by the user. Call session_info with that ID to inspect its working directory and sandbox roots."@,
            ),
        )
}

fn introduce(version: &str) -> (json: Json)
    ensures
        json@ == introduction(version@),
        ordered(json@),
{
    let resources: Json = Json::object()
        .with("subscribe", Json::Bool(false))
        .with("listChanged", Json::Bool(false));
    let capabilities: Json = Json::object()
        .with("tools", Json::object().with("listChanged", Json::Bool(false)))
        .with("resources", resources);
    let server: Json = Json::object()
        .with("name", Json::text("local-mcp"))
        .with("version", Json::text(version));
    Json::object()
        .with("protocolVersion", Json::text("2025-06-18"))
        .with("capabilities", capabilities)
        .with("serverInfo", server)
        .with(
            "instructions",
            Json::text(
                "Every tool call requires the local-mcp session_id supplied by the user. Call session_info with that ID to inspect its working directory and sandbox roots.",
            ),
        )
}

/// A call of a tool: its arguments, which are none where the client gave none.
pub open spec fn called_tool(params: JsonView, tool: ToolName) -> bool {
    text_member(params, "name"@) == Some(tool.word())
}

/// The arguments that a client gave to a tool.
pub open spec fn arguments_of(params: JsonView) -> JsonView {
    match member(params, "arguments"@) {
        Some(arguments) => arguments,
        None => JsonView::object(),
    }
}

/// The tool that a client calls and the arguments that it gives; or why there is no such call.
pub fn call_tool(params: &Json) -> (call: Result<(ToolName, Json), String>)
    requires
        ordered(params@),
    ensures
        match call {
            Ok((tool, arguments)) => called_tool(params@, tool) && arguments@ == arguments_of(params@)
                && ordered(arguments@),
            Err(message) => match text_member(params@, "name"@) {
                None => message@ == "missing tool name"@,
                Some(name) => message@ == "unknown tool: "@ + name && forall|tool: ToolName|
                    (#[trigger] tool.word()) != name,
            },
        },
{
    let name: &str = match params.get_text("name") {
        None => {
            return Err("missing tool name".to_owned());
        },
        Some(name) => name,
    };
    let tool: ToolName = match ToolName::parse(name) {
        None => {
            return Err(concat("unknown tool: ", name));
        },
        Some(tool) => tool,
    };
    let arguments: Json = match params.get("arguments") {
        Some(arguments) => arguments.clone(),
        None => Json::object(),
    };
    Ok((tool, arguments))
}

/// What is to be done about a request.
#[derive(Debug)]
pub enum Dispatch {
    /// Answer this.
    Answer(Json),
    /// Call a tool with arguments.
    Call(ToolName, Json),
}

/// The name of the method that a request asks for.
pub open spec fn method_of(request: JsonView) -> Seq<char> {
    match text_member(request, "method"@) {
        Some(method) => method,
        None => Seq::empty(),
    }
}

/// The parameters of a request.
pub open spec fn params_of(request: JsonView) -> JsonView {
    match member(request, "params"@) {
        Some(params) => params,
        None => JsonView::Null,
    }
}

/// What a request is answered that calls no tool; nothing where it calls one.
pub open spec fn direct_answer(
    request: JsonView,
    schemas: Seq<JsonView>,
    version: Seq<char>,
    windows: bool,
) -> Option<Result<JsonView, Seq<char>>> {
    let method = method_of(request);
    if method == "initialize"@ {
        Some(Ok(introduction(version)))
    } else if method == "ping"@ {
        Some(Ok(JsonView::object()))
    } else if method == "tools/list"@ {
        Some(Ok(JsonView::object().with("tools"@, tools_view(schemas, windows))))
    } else if method == "tools/call"@ {
        None
    } else if method == "resources/list"@ {
        Some(Ok(JsonView::object().with("resources"@, resources_view())))
    } else if method == "resources/read"@ {
        Some(resource_answer(params_of(request)))
    } else {
        Some(Err("method not found: "@ + method))
    }
}

/// What is to be done about a request: answer it, or call a tool; or why neither can be done. The
/// schemas are those of the arguments of the tools, in the order of the tools; `windows` says on
/// which system the server runs.
pub fn dispatch(
    request: &Json,
    schemas: &Vec<Json>,
    version: &str,
    windows: bool,
) -> (result: Result<Dispatch, String>)
    requires
        ordered(request@),
        schemas@.len() == all_tools().len(),
        forall|i: int| 0 <= i < schemas@.len() ==> ordered((#[trigger] schemas@[i])@),
    ensures
        match direct_answer(request@, items_view(schemas@), version@, windows) {
            Some(Ok(answer)) => result matches Ok(Dispatch::Answer(json)) && json@ == answer
                && ordered(json@),
            Some(Err(error)) => result matches Err(message) && message@ == error,
            None => match result {
                Ok(Dispatch::Answer(_)) => false,
                Ok(Dispatch::Call(tool, arguments)) => called_tool(params_of(request@), tool)
                    && arguments@ == arguments_of(params_of(request@)) && ordered(arguments@),
                Err(message) => match text_member(params_of(request@), "name"@) {
                    None => message@ == "missing tool name"@,
                    Some(name) => message@ == "unknown tool: "@ + name && forall|tool: ToolName|
                        (#[trigger] tool.word()) != name,
                },
            },
        },
{
    let null: Json = Json::Null;
    let params: &Json = match request.get("params") {
        Some(params) => params,
        None => &null,
    };
    let method: &str = match request.get_text("method") {
        Some(method) => method,
        None => "",
    };
    proof {
        reveal_strlit("");
        assert(""@ =~= Seq::<char>::empty());
    }
    if same_text(method, "initialize") {
        Ok(Dispatch::Answer(introduce(version)))
    } else if same_text(method, "ping") {
        Ok(Dispatch::Answer(Json::object()))
    } else if same_text(method, "tools/list") {
        Ok(Dispatch::Answer(Json::object().with("tools", tools(schemas, windows))))
    } else if same_text(method, "tools/call") {
        match call_tool(params) {
            Ok((tool, arguments)) => Ok(Dispatch::Call(tool, arguments)),
            Err(message) => Err(message),
        }
    } else if same_text(method, "resources/list") {
        Ok(Dispatch::Answer(Json::object().with("resources", resources())))
    } else if same_text(method, "resources/read") {
        match read_resource(params) {
            Ok(json) => Ok(Dispatch::Answer(json)),
            Err(message) => Err(message),
        }
    } else {
        Err(concat("method not found: ", method))
    }
}

/// Why a call is refused whose arguments cannot be read.
pub open spec fn refusal(tool: ToolName, reason: Seq<char>) -> Seq<char> {
    "invalid arguments for "@ + tool.word() + ": "@ + reason
}

/// Why a call is refused whose arguments cannot be read.
pub fn invalid_arguments(tool: ToolName, reason: &str) -> (message: String)
    ensures
        message@ == refusal(tool, reason@),
{
    let mut message: String = concat("invalid arguments for ", tool.as_str());
    message.append(": ");
    message.append(reason);
    message
}

/// What a call is answered whose arguments cannot be read: of a tool that runs commands, the outcome
/// of a command that failed, with a reason that fits into any answer; of another tool, an error.
pub open spec fn refused_arguments(tool: ToolName, reason: Seq<char>) -> Result<
    JsonView,
    Seq<char>,
> {
    if tool.runs_commands() {
        Ok(
            OutcomeView::failure(
                CommandErrorKind::InvalidArguments,
                false,
                refusal(tool, reason),
            ).brief().answer(),
        )
    } else {
        Err(refusal(tool, reason))
    }
}

/// What a call is answered whose arguments cannot be read.
pub fn refuse_arguments(tool: ToolName, reason: &str) -> (answer: Result<Json, String>)
    ensures
        match answer {
            Ok(json) => {
                &&& refused_arguments(tool, reason@) == Ok::<JsonView, Seq<char>>(json@)
                &&& ordered(json@)
                &&& answer_bytes(json@) <= MIN_INLINE_OUTPUT_LIMIT
            },
            Err(message) => refused_arguments(tool, reason@) == Err::<JsonView, Seq<char>>(message@),
        },
{
    let message: String = invalid_arguments(tool, reason);
    if tool.is_command() {
        let outcome: CommandOutcome = CommandOutcome::invalid_arguments(message.as_str());
        proof {
            law_reasons_fit(outcome@);
        }
        Ok(outcome.brief().tool_result())
    } else {
        Err(message)
    }
}

/// The answer about a command holds its outcome as data, the text of it for readers in the same place as
/// any answer that is a text, and whether it is an error.
pub proof fn law_answers_hold_the_outcome(outcome: OutcomeView)
    ensures
        member(outcome.answer(), "structuredContent"@) == Some(outcome.json()),
        member(outcome.answer(), "isError"@) == Some(JsonView::Bool(!outcome.ok)),
        member(outcome.answer(), "content"@) == member(text_answer(outcome.readable()), "content"@),
{
    reveal_strlit("content");
    reveal_strlit("structuredContent");
    reveal_strlit("isError");
    assert("content"@.len() == 7 && "structuredContent"@.len() == 17 && "isError"@.len() == 7);
    assert("content"@[0] == 'c' && "isError"@[0] == 'i');
    let bare = JsonView::object();
    let content = JsonView::list().item(
        JsonView::object()
            .with("type"@, JsonView::Text("text"@))
            .with("text"@, JsonView::Text(outcome.readable())),
    );
    let told = bare.with("content"@, content);
    let structured = told.with("structuredContent"@, outcome.json());
    let failed = JsonView::Bool(!outcome.ok);
    assert(outcome.answer() == structured.with("isError"@, failed));
    assert forall|key: Seq<char>|
        #[trigger] member(outcome.answer(), key) == if key == "isError"@ {
            Some(failed)
        } else if key == "structuredContent"@ {
            Some(outcome.json())
        } else if key == "content"@ {
            Some(content)
        } else {
            None
        } by {
        lemma_member_with(bare, "content"@, content, key);
        lemma_member_with(told, "structuredContent"@, outcome.json(), key);
        lemma_member_with(structured, "isError"@, failed, key);
    }
    assert(text_answer(outcome.readable()) == told);
    lemma_member_with(bare, "content"@, content, "content"@);
}

/// Wrong arguments of a tool that runs commands are answered with an error that has the form of an
/// outcome: it has failed, for its arguments. The response fits into the smallest limit for output.
pub proof fn law_wrong_arguments_of_commands_are_outcomes(tool: ToolName, reason: Seq<char>)
    requires
        tool.runs_commands(),
    ensures
        refused_arguments(tool, reason) is Ok,
        ({
            let answer = refused_arguments(tool, reason)->Ok_0;
            &&& member(answer, "isError"@) == Some(JsonView::Bool(true))
            &&& member(answer, "structuredContent"@) matches Some(outcome) && member(
                outcome,
                "status"@,
            ) == Some(JsonView::Text("failed"@)) && member(outcome, "error_kind"@) == Some(
                JsonView::Text("invalid_arguments"@),
            ) && member(outcome, "message"@) == Some(
                JsonView::Text(brief(refusal(tool, reason), MAX_REASON_BYTES as int)),
            )
            &&& answer_bytes(answer) <= MIN_INLINE_OUTPUT_LIMIT
        }),
{
    let whole = OutcomeView::failure(
        CommandErrorKind::InvalidArguments,
        false,
        refusal(tool, reason),
    );
    let outcome = whole.brief();
    law_reasons_fit(whole);
    law_answers_hold_the_outcome(outcome);
    lemma_outcome_property(outcome, 2);
    lemma_outcome_property(outcome, 3);
    lemma_outcome_property(outcome, 7);
}

/// A response has the identifier of its request, and either a result or an error.
pub proof fn law_responses_name_their_request(id: JsonView, result: Result<JsonView, Seq<char>>)
    ensures
        member(response_view(id, result), "jsonrpc"@) == Some(JsonView::Text("2.0"@)),
        member(response_view(id, result), "id"@) == Some(id),
        member(response_view(id, result), "result"@) == match result {
            Ok(value) => Some(value),
            Err(_) => None,
        },
        (member(response_view(id, result), "error"@) is Some) == (result is Err),
{
    reveal_strlit("jsonrpc");
    reveal_strlit("id");
    reveal_strlit("result");
    reveal_strlit("error");
    assert("jsonrpc"@.len() == 7 && "id"@.len() == 2 && "result"@.len() == 6 && "error"@.len() == 5);
    let bare = JsonView::object();
    let named = bare.with("jsonrpc"@, JsonView::Text("2.0"@));
    let numbered = named.with("id"@, id);
    assert forall|key: Seq<char>|
        #[trigger] member(numbered, key) == if key == "id"@ {
            Some(id)
        } else if key == "jsonrpc"@ {
            Some(JsonView::Text("2.0"@))
        } else {
            None
        } by {
        lemma_member_with(bare, "jsonrpc"@, JsonView::Text("2.0"@), key);
        lemma_member_with(named, "id"@, id, key);
    }
    let last = match result {
        Ok(value) => ("result"@, value),
        Err(message) => (
            "error"@,
            JsonView::object()
                .with("code"@, JsonView::Int(-32000))
                .with("message"@, JsonView::Text(message)),
        ),
    };
    assert(response_view(id, result) == numbered.with(last.0, last.1));
    lemma_member_with(numbered, last.0, last.1, "jsonrpc"@);
    lemma_member_with(numbered, last.0, last.1, "id"@);
    lemma_member_with(numbered, last.0, last.1, "result"@);
    lemma_member_with(numbered, last.0, last.1, "error"@);
}

/// A response takes the bytes of its identifier and of what is under its last key, and the same
/// number more whatever they are.
pub proof fn lemma_response_bytes(id: JsonView, key: Seq<char>, value: JsonView)
    requires
        key == "result"@ || key == "error"@,
    ensures
        byte_len(
            compact(
                JsonView::object()
                    .with("jsonrpc"@, JsonView::Text("2.0"@))
                    .with("id"@, id)
                    .with(key, value),
            ),
        ) == 7 + byte_len(quoted("jsonrpc"@)) + byte_len(quoted("2.0"@)) + byte_len(quoted("id"@))
            + byte_len(compact(id)) + byte_len(quoted(key)) + byte_len(compact(value)),
{
    reveal_strlit("jsonrpc");
    reveal_strlit("id");
    reveal_strlit("result");
    reveal_strlit("error");
    assert("jsonrpc"@.len() == 7 && "id"@.len() == 2 && "result"@.len() == 6 && "error"@.len() == 5);
    let bare = Seq::<(Seq<char>, JsonView)>::empty();
    let word = JsonView::Text("2.0"@);
    let named = with_entry(bare, "jsonrpc"@, word);
    let numbered = with_entry(named, "id"@, id);
    lemma_member_with(JsonView::Object(bare), "jsonrpc"@, word, "id"@);
    lemma_member_with(JsonView::Object(bare), "jsonrpc"@, word, key);
    lemma_member_with(JsonView::Object(named), "id"@, id, key);
    lemma_new_entry_bytes(bare, "jsonrpc"@, word);
    lemma_new_entry_bytes(named, "id"@, id);
    lemma_new_entry_bytes(numbered, key, value);
    lemma_byte_len_empty();
    lemma_filled_object_bytes(with_entry(numbered, key, value));
}

/// Whatever a request is answered with a text, the response takes on the wire no more than what is
/// reckoned for that text, under any identifier that a request may have.
pub proof fn law_responses_take_what_is_reckoned(id: JsonView, text: Seq<char>)
    requires
        byte_len(compact(id)) <= MAX_JSONRPC_ID_SERIALIZED_BYTES,
    ensures
        byte_len(compact(response_view(id, Ok(text_answer(text)))) + "\n"@) <= response_bytes(text),
        byte_len(compact(response_view(id, Err(text))) + "\n"@) <= response_bytes(text),
{
    let longest = JsonView::Text(longest_id());
    assert(unescaped(longest_id()));
    lemma_quoted_unescaped(longest_id());
    lemma_printable_bytes(compact(longest));
    let error = JsonView::object()
        .with("code"@, JsonView::Int(-32000))
        .with("message"@, JsonView::Text(text));
    lemma_response_bytes(id, "result"@, text_answer(text));
    lemma_response_bytes(longest, "result"@, text_answer(text));
    lemma_response_bytes(id, "error"@, error);
    lemma_response_bytes(longest, "error"@, error);
    assert(success_envelope(text) == success_response(longest, text_answer(text)));
    assert(error_envelope(text) == error_response(longest, -32000, text));
    reveal_strlit("\n");
    assert("\n"@ =~= seq!['\n']);
    lemma_byte_len_one('\n');
    lemma_byte_len_concat(compact(response_view(id, Ok(text_answer(text)))), "\n"@);
    lemma_byte_len_concat(compact(response_view(id, Err(text))), "\n"@);
}

/// The response to a call that ran a command fits into the limit for output, whatever the command
/// wrote and whatever the identifier of the request.
pub proof fn law_command_responses_fit(
    id: JsonView,
    job: u128,
    exit_code: i32,
    termination: Termination,
    stdout: StreamCapture,
    stderr: StreamCapture,
    limit: int,
)
    requires
        byte_len(compact(id)) <= MAX_JSONRPC_ID_SERIALIZED_BYTES,
    ensures
        ({
            let text = compact(
                bounded_result_view(job, exit_code, termination, stdout, stderr, limit),
            );
            &&& byte_len(compact(response_view(id, Ok(text_answer(text)))) + "\n"@) <= clamped_limit(
                limit,
            )
            &&& byte_len(compact(response_view(id, Err(text))) + "\n"@) <= clamped_limit(limit)
        }),
{
    law_result_fits(job, exit_code, termination, stdout, stderr, limit);
    law_responses_take_what_is_reckoned(
        id,
        compact(bounded_result_view(job, exit_code, termination, stdout, stderr, limit)),
    );
}

/// Whether a text has no line end.
pub open spec fn on_one_line(text: Seq<char>) -> bool {
    forall|i: int| 0 <= i < text.len() ==> #[trigger] text[i] != '\n'
}

/// Whether no number in a value is written with a line end.
pub open spec fn numbers_on_one_line(value: JsonView) -> bool
    decreases value,
{
    match value {
        JsonView::Float(text) => on_one_line(text),
        JsonView::Array(items) => forall|i: int|
            0 <= i < items.len() ==> numbers_on_one_line(#[trigger] items[i]),
        JsonView::Object(entries) => forall|i: int|
            0 <= i < entries.len() ==> numbers_on_one_line((#[trigger] entries[i]).1),
        _ => true,
    }
}

proof fn lemma_escaped_on_one_line(text: Seq<char>)
    ensures
        on_one_line(escaped(text)),
    decreases text.len(),
{
    if text.len() > 0 {
        lemma_escaped_on_one_line(text.drop_last());
        assert(on_one_line(escaped_char(text.last())));
    }
}

proof fn lemma_decimal_on_one_line(n: nat)
    ensures
        on_one_line(decimal_digits(n)),
    decreases n,
{
    if n >= 10 {
        lemma_decimal_on_one_line(n / 10);
        assert(digit_char((n % 10) as int) != '\n');
    } else {
        assert(digit_char(n as int) != '\n');
    }
}

proof fn lemma_items_on_one_line(items: Seq<JsonView>)
    requires
        forall|i: int| 0 <= i < items.len() ==> numbers_on_one_line(#[trigger] items[i]),
    ensures
        on_one_line(comma_items(items)),
    decreases items,
{
    if items.len() > 0 {
        law_messages_stay_on_one_line(items[0]);
        let rest = items.drop_first();
        assert forall|i: int| 0 <= i < rest.len() implies numbers_on_one_line(#[trigger] rest[i]) by {
            assert(rest[i] == items[i + 1]);
        }
        lemma_items_on_one_line(rest);
    }
}

proof fn lemma_entries_on_one_line(entries: Seq<(Seq<char>, JsonView)>)
    requires
        forall|i: int| 0 <= i < entries.len() ==> numbers_on_one_line((#[trigger] entries[i]).1),
    ensures
        on_one_line(comma_entries(entries)),
    decreases entries,
{
    if entries.len() > 0 {
        lemma_escaped_on_one_line(entries[0].0);
        assert(on_one_line(quoted(entries[0].0)));
        law_messages_stay_on_one_line(entries[0].1);
        let rest = entries.drop_first();
        assert forall|i: int| 0 <= i < rest.len() implies numbers_on_one_line(
            (#[trigger] rest[i]).1,
        ) by {
            assert(rest[i] == entries[i + 1]);
        }
        lemma_entries_on_one_line(rest);
    }
}

/// A message has no line end within it, so that the one after it is where it ends.
pub proof fn law_messages_stay_on_one_line(value: JsonView)
    requires
        numbers_on_one_line(value),
    ensures
        on_one_line(compact(value)),
    decreases value,
{
    match value {
        JsonView::Int(n) => {
            if n < 0 {
                lemma_decimal_on_one_line((-n) as nat);
            } else {
                lemma_decimal_on_one_line(n as nat);
            }
        },
        JsonView::Text(text) => {
            lemma_escaped_on_one_line(text);
        },
        JsonView::Array(items) => {
            lemma_items_on_one_line(items);
        },
        JsonView::Object(entries) => {
            lemma_entries_on_one_line(entries);
        },
        _ => {},
    }
}

/// A message is handled exactly if it has an identifier that takes at most 256 bytes, and then under that
/// identifier; one without an identifier is not answered; and a line that holds no message, or one whose
/// identifier is too long, is answered with an error that names no request.
pub proof fn law_messages_are_handled_under_their_identifier(message: Result<JsonView, Seq<char>>)
    ensures
        ({
            let step = message_step(message);
            &&& message matches Ok(request) ==> match member(request, "id"@) {
                None => step == StepView::Skip,
                Some(id) => (byte_len(compact(id)) <= 256 ==> step == StepView::Handle(id, request))
                    && (byte_len(compact(id)) > 256 ==> step is Answer),
            }
            &&& message is Err ==> step is Answer
            &&& step matches StepView::Answer(response) ==> {
                &&& member(response, "id"@) == Some(JsonView::Null)
                &&& member(response, "result"@) is None
                &&& member(response, "error"@) matches Some(error) && member(error, "code"@) == Some(
                    JsonView::Int(
                        if message is Err {
                            -32700
                        } else {
                            -32600
                        },
                    ),
                ) && member(error, "message"@) == Some(
                    JsonView::Text(
                        match message {
                            Err(reason) => reason,
                            Ok(_) => "JSON-RPC request id exceeds 256 serialized bytes"@,
                        },
                    ),
                )
            }
        }),
{
    match message {
        Err(reason) => {
            lemma_error_response(JsonView::Null, -32700, reason);
        },
        Ok(_) => {
            lemma_error_response(JsonView::Null, -32600, long_id_message());
        },
    }
}

proof fn lemma_error_response(id: JsonView, code: int, message: Seq<char>)
    ensures
        ({
            let response = error_response(id, code, message);
            &&& member(response, "jsonrpc"@) == Some(JsonView::Text("2.0"@))
            &&& member(response, "id"@) == Some(id)
            &&& member(response, "result"@) is None
            &&& member(response, "error"@) matches Some(error) && member(error, "code"@) == Some(
                JsonView::Int(code),
            ) && member(error, "message"@) == Some(JsonView::Text(message))
        }),
{
    let told = seq![("code"@, JsonView::Int(code)), ("message"@, JsonView::Text(message))];
    let entries = seq![
        ("jsonrpc"@, JsonView::Text("2.0"@)),
        ("id"@, id),
        ("error"@, filled(told)),
    ];
    reveal_strlit("jsonrpc");
    reveal_strlit("id");
    reveal_strlit("error");
    reveal_strlit("code");
    reveal_strlit("message");
    reveal_strlit("result");
    assert(distinct_keys(told));
    assert(distinct_keys(entries));
    lemma_entries_held(told);
    lemma_entries_held(entries);
    lemma_filled_member(entries, "result"@);
    reveal_with_fuel(filled_to, 4);
    assert(filled(entries) == error_response(id, code, message));
    assert(told[0].0 == "code"@ && told[1].0 == "message"@);
    assert(entries[0].0 == "jsonrpc"@ && entries[1].0 == "id"@ && entries[2].0 == "error"@);
}

/// A request that fails is answered with its error: the code of the server, and the message.
pub proof fn law_failures_are_told_as_errors(id: JsonView, message: Seq<char>)
    ensures
        member(response_view(id, Err(message)), "error"@) matches Some(error) && member(error, "code"@)
            == Some(JsonView::Int(-32000)) && member(error, "message"@) == Some(
            JsonView::Text(message),
        ),
{
    lemma_error_response(id, -32000, message);
}

/// A request for a tool is never answered directly, and every other request is: with what its method asks
/// for, or, where the method is not known, with an error that names it.
pub proof fn law_methods_are_routed(
    request: JsonView,
    schemas: Seq<JsonView>,
    version: Seq<char>,
    windows: bool,
    method: Seq<char>,
)
    requires
        member(request, "method"@) == Some(JsonView::Text(method)),
    ensures
        ({
            let answer = direct_answer(request, schemas, version, windows);
            let known = method == "initialize"@ || method == "ping"@ || method == "tools/list"@ || method
                == "tools/call"@ || method == "resources/list"@ || method == "resources/read"@;
            &&& answer is None <==> method == "tools/call"@
            &&& !known ==> answer == Some(
                Err::<JsonView, Seq<char>>("method not found: "@ + method),
            )
            &&& method == "ping"@ ==> answer == Some(
                Ok::<JsonView, Seq<char>>(JsonView::Object(Seq::empty())),
            )
            &&& method == "tools/list"@ ==> (answer matches Some(Ok(value)) && member(value, "tools"@)
                matches Some(JsonView::Array(items)) && items.len() == all_tools().len())
            &&& method == "initialize"@ ==> (answer matches Some(Ok(value)) && (member(
                value,
                "protocolVersion"@,
            ) is Some) && (member(value, "serverInfo"@) matches Some(server) && member(
                server,
                "version"@,
            ) == Some(JsonView::Text(version)) && member(server, "name"@) == Some(
                JsonView::Text("local-mcp"@),
            )))
        }),
{
    reveal_strlit("initialize");
    reveal_strlit("ping");
    reveal_strlit("tools/list");
    reveal_strlit("tools/call");
    reveal_strlit("resources/list");
    reveal_strlit("resources/read");
    assert("initialize"@.len() == 10 && "ping"@.len() == 4 && "tools/list"@.len() == 10);
    assert("tools/call"@.len() == 10 && "resources/list"@.len() == 14 && "resources/read"@.len() == 14);
    assert("initialize"@[0] == 'i' && "tools/list"@[0] == 't' && "tools/call"@[6] == 'c');
    assert("tools/list"@[6] == 'l' && "resources/list"@[10] == 'l' && "resources/read"@[10] == 'r');
    let server = seq![
        ("name"@, JsonView::Text("local-mcp"@)),
        ("version"@, JsonView::Text(version)),
    ];
    let capabilities = JsonView::object()
        .with("tools"@, JsonView::object().with("listChanged"@, JsonView::Bool(false)))
        .with(
            "resources"@,
            JsonView::object()
                .with("subscribe"@, JsonView::Bool(false))
                .with("listChanged"@, JsonView::Bool(false)),
        );
    let entries = seq![
        ("protocolVersion"@, JsonView::Text("2025-06-18"@)),
        ("capabilities"@, capabilities),
        ("serverInfo"@, filled(server)),
        (
            "instructions"@,
            JsonView::Text(
                "Every tool call requires the local-mcp session_id supplied by the user. Call session_info with that ID to inspect its working directory and sandbox roots."@,
            ),
        ),
    ];
    let tools = seq![("tools"@, tools_view(schemas, windows))];
    reveal_strlit("name");
    reveal_strlit("version");
    reveal_strlit("protocolVersion");
    reveal_strlit("capabilities");
    reveal_strlit("serverInfo");
    reveal_strlit("instructions");
    assert("capabilities"@[0] == 'c' && "instructions"@[0] == 'i');
    assert(distinct_keys(server));
    assert(distinct_keys(entries));
    assert(distinct_keys(tools));
    lemma_entries_held(server);
    lemma_entries_held(entries);
    lemma_entries_held(tools);
    reveal_with_fuel(filled_to, 5);
    assert(filled(entries) == introduction(version));
    assert(filled(tools) == JsonView::object().with("tools"@, tools_view(schemas, windows)));
    assert(server[0].0 == "name"@ && server[1].0 == "version"@ && tools[0].0 == "tools"@);
    assert(entries[0].0 == "protocolVersion"@ && entries[2].0 == "serverInfo"@);
}

/// A tool is called with the arguments that the client gave, and with none where it gave none.
pub proof fn law_calls_have_the_arguments_of_the_client(params: JsonView, arguments: JsonView)
    ensures
        member(params, "arguments"@) == Some(arguments) ==> arguments_of(params) == arguments,
        member(params, "arguments"@) is None ==> arguments_of(params) == JsonView::Object(Seq::empty()),
{
}

/// A line that is not blank is answered or handled unless it holds a message without an identifier; a blank
/// one is passed over.
pub proof fn law_lines_are_taken(line: Seq<char>, i: int)
    ensures
        line.len() == 0 ==> line_step(line) == StepView::Skip,
        0 <= i < line.len() && !is_white_space(line[i]) ==> {
            &&& parsed(line) is Err ==> line_step(line) is Answer
            &&& parsed(line) matches Ok(request) ==> (line_step(line) is Skip <==> member(request, "id"@)
                is None)
        },
{
    if 0 <= i < line.len() && !is_white_space(line[i]) {
        assert(!is_blank(line));
    }
}

/// A call reaches the one tool whose name it gives, and a call without a name reaches none.
pub proof fn law_calls_reach_the_tool_that_is_named(params: JsonView, tool: ToolName, other: ToolName)
    ensures
        member(params, "name"@) == Some(JsonView::Text(tool.word())) ==> called_tool(params, tool),
        called_tool(params, tool) && called_tool(params, other) ==> tool == other,
        member(params, "name"@) is None ==> !called_tool(params, tool),
{
    if called_tool(params, tool) && called_tool(params, other) {
        law_tool_names_differ(tool, other);
    }
}

} // verus!
