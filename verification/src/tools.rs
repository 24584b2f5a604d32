//! The tools that the server offers, and the page that shows images.
use vstd::prelude::*;

use crate::activity::concat;
use crate::command_result::{output_schema, output_schema_view};
use crate::image_viewer::{IMAGE_VIEWER_HTML, IMAGE_VIEWER_URI, MCP_APP_MIME_TYPE};
use crate::json::{
    distinct_keys, entries_view, entry_value, filled, filled_to, items_view, lemma_entries_held,
    lemma_filled_member, lemma_json_array, lemma_json_object, member, ordered, text_member, Json, JsonView,
};
use crate::text::{lemma_text_before_irreflexive, same_text, text_before};

verus! {

/// A tool.
#[derive(Clone, Copy, Debug, PartialEq, Eq, Structural)]
pub enum ToolName {
    SessionInfo,
    ReadFile,
    GetImage,
    ListDirectory,
    WriteFile,
    Execute,
    StartCommand,
    PollJob,
    StopJob,
    ReadJobLog,
    HeartbeatStart,
    HeartbeatWait,
    HeartbeatStatus,
    HeartbeatStop,
    WithoutSandbox,
}

/// The tools, in the order in which they are offered.
pub open spec fn all_tools() -> Seq<ToolName> {
    seq![
        ToolName::SessionInfo,
        ToolName::ReadFile,
        ToolName::GetImage,
        ToolName::ListDirectory,
        ToolName::WriteFile,
        ToolName::Execute,
        ToolName::StartCommand,
        ToolName::PollJob,
        ToolName::StopJob,
        ToolName::ReadJobLog,
        ToolName::HeartbeatStart,
        ToolName::HeartbeatWait,
        ToolName::HeartbeatStatus,
        ToolName::HeartbeatStop,
        ToolName::WithoutSandbox,
    ]
}

impl ToolName {
    /// The name by which a client calls this tool.
    pub open spec fn word(self) -> Seq<char> {
        match self {
            ToolName::SessionInfo => "session_info"@,
            ToolName::ReadFile => "read_file"@,
            ToolName::GetImage => "get_image"@,
            ToolName::ListDirectory => "list_directory"@,
            ToolName::WriteFile => "write_file"@,
            ToolName::Execute => "execute"@,
            ToolName::StartCommand => "start_command"@,
            ToolName::PollJob => "poll_job"@,
            ToolName::StopJob => "stop_job"@,
            ToolName::ReadJobLog => "read_job_log"@,
            ToolName::HeartbeatStart => "heartbeat_start"@,
            ToolName::HeartbeatWait => "heartbeat_wait"@,
            ToolName::HeartbeatStatus => "heartbeat_status"@,
            ToolName::HeartbeatStop => "heartbeat_stop"@,
            ToolName::WithoutSandbox => "without_sandbox"@,
        }
    }

    /// Whether this tool is answered with the outcome of a command.
    pub open spec fn runs_commands(self) -> bool {
        self == ToolName::Execute || self == ToolName::StartCommand || self == ToolName::PollJob
            || self == ToolName::StopJob || self == ToolName::WithoutSandbox
    }

    /// What a client is told of this tool, on Windows and elsewhere.
    pub open spec fn purpose(self, windows: bool) -> Seq<char> {
        match self {
            ToolName::SessionInfo => "Show a local-mcp session's ID, working directory, and allowed sandbox roots."@,
            ToolName::ReadFile => "Read a UTF-8 file from the local machine. Relative paths use the session working directory."@,
            ToolName::GetImage => "Read a local image and return it as MCP image content. Relative paths use the session working directory."@,
            ToolName::ListDirectory => "List entries in a local directory. Relative paths use the session working directory."@,
            ToolName::WriteFile => if windows {
                "Write a UTF-8 file directly on the Windows host without a Codex sandbox. Relative paths use the session working directory."@
            } else {
                "Write a UTF-8 file in the Codex sandbox. Relative paths use the session working directory."@
            },
            ToolName::Execute => if windows {
                "Execute argv without a shell directly on the Windows host. Returns the normal result when it finishes within 30 seconds; otherwise returns a job_id for use with poll_job or stop_job. This has the user's filesystem and network access and requires approval unless the session is in yolo mode."@
            } else {
                "Execute argv without a shell in the Codex sandbox. Returns the normal result when it finishes within 30 seconds; otherwise returns a job_id for use with poll_job or stop_job. Network is disabled and approval is not required."@
            },
            ToolName::StartCommand => if windows {
                "Start argv immediately as a background job directly on the Windows host and return a job_id without waiting for completion. This has the user's filesystem and network access and requires approval unless the session is in yolo mode."@
            } else {
                "Start argv immediately as a background job in the Codex sandbox and return a job_id without waiting for completion. Network is disabled and approval is not required."@
            },
            ToolName::PollJob => "Poll a background command returned by execute or start_command. Returns running while active, or the command result once completed."@,
            ToolName::StopJob => "Stop a background command returned by execute or start_command. The command's complete process tree receives a graceful stop followed by forced termination after a bounded grace period; repeated calls return the cached terminal result."@,
            ToolName::ReadJobLog => "Read a bounded byte range from a command's stored stdout or stderr. Use the job_id returned in foreground/background results; access is scoped to the supplied session_id."@,
            ToolName::HeartbeatStart => "Start or reset an in-turn heartbeat schedule for this local-mcp session. After starting it, call heartbeat_wait repeatedly. A tick is delivered only while heartbeat_wait is actively waiting; ticks that occur while the agent is busy doing work are skipped instead of queued."@,
            ToolName::HeartbeatWait => "Wait for the next heartbeat tick in short long-poll chunks. Call this repeatedly until status is tick, then do one work cycle and call it again. If a scheduled tick passes while no heartbeat_wait call is active because the agent is still working, that tick is skipped. This does not revive a ChatGPT turn after the turn has ended."@,
            ToolName::HeartbeatStatus => "Show the current in-turn heartbeat schedule, delivered tick count, skipped tick count, and time until the next tick."@,
            ToolName::HeartbeatStop => "Stop and remove an in-turn heartbeat schedule for this local-mcp session."@,
            ToolName::WithoutSandbox => "Execute argv directly on the host with full user permissions and network access. Every call requires approval unless the session is in yolo mode."@,
        }
    }

    /// The tools, in the order in which they are offered.
    pub fn all() -> (tools: Vec<ToolName>)
        ensures
            tools@ == all_tools(),
    {
        let tools: Vec<ToolName> = vec![
            ToolName::SessionInfo,
            ToolName::ReadFile,
            ToolName::GetImage,
            ToolName::ListDirectory,
            ToolName::WriteFile,
            ToolName::Execute,
            ToolName::StartCommand,
            ToolName::PollJob,
            ToolName::StopJob,
            ToolName::ReadJobLog,
            ToolName::HeartbeatStart,
            ToolName::HeartbeatWait,
            ToolName::HeartbeatStatus,
            ToolName::HeartbeatStop,
            ToolName::WithoutSandbox,
        ];
        assert(tools@ =~= all_tools());
        tools
    }

    /// The name by which a client calls this tool.
    pub fn as_str(self) -> (word: &'static str)
        ensures
            word@ == self.word(),
    {
        match self {
            ToolName::SessionInfo => "session_info",
            ToolName::ReadFile => "read_file",
            ToolName::GetImage => "get_image",
            ToolName::ListDirectory => "list_directory",
            ToolName::WriteFile => "write_file",
            ToolName::Execute => "execute",
            ToolName::StartCommand => "start_command",
            ToolName::PollJob => "poll_job",
            ToolName::StopJob => "stop_job",
            ToolName::ReadJobLog => "read_job_log",
            ToolName::HeartbeatStart => "heartbeat_start",
            ToolName::HeartbeatWait => "heartbeat_wait",
            ToolName::HeartbeatStatus => "heartbeat_status",
            ToolName::HeartbeatStop => "heartbeat_stop",
            ToolName::WithoutSandbox => "without_sandbox",
        }
    }

    /// Whether this tool is answered with the outcome of a command.
    pub fn is_command(self) -> (holds: bool)
        ensures
            holds == self.runs_commands(),
    {
        match self {
            ToolName::Execute => true,
            ToolName::StartCommand => true,
            ToolName::PollJob => true,
            ToolName::StopJob => true,
            ToolName::WithoutSandbox => true,
            _ => false,
        }
    }

    /// What a client is told of this tool, on Windows and elsewhere.
    pub fn description(self, windows: bool) -> (text: &'static str)
        ensures
            text@ == self.purpose(windows),
    {
        match self {
            ToolName::SessionInfo => "Show a local-mcp session's ID, working directory, and allowed sandbox roots.",
            ToolName::ReadFile => "Read a UTF-8 file from the local machine. Relative paths use the session working directory.",
            ToolName::GetImage => "Read a local image and return it as MCP image content. Relative paths use the session working directory.",
            ToolName::ListDirectory => "List entries in a local directory. Relative paths use the session working directory.",
            ToolName::WriteFile => if windows {
                "Write a UTF-8 file directly on the Windows host without a Codex sandbox. Relative paths use the session working directory."
            } else {
                "Write a UTF-8 file in the Codex sandbox. Relative paths use the session working directory."
            },
            ToolName::Execute => if windows {
                "Execute argv without a shell directly on the Windows host. Returns the normal result when it finishes within 30 seconds; otherwise returns a job_id for use with poll_job or stop_job. This has the user's filesystem and network access and requires approval unless the session is in yolo mode."
            } else {
                "Execute argv without a shell in the Codex sandbox. Returns the normal result when it finishes within 30 seconds; otherwise returns a job_id for use with poll_job or stop_job. Network is disabled and approval is not required."
            },
            ToolName::StartCommand => if windows {
                "Start argv immediately as a background job directly on the Windows host and return a job_id without waiting for completion. This has the user's filesystem and network access and requires approval unless the session is in yolo mode."
            } else {
                "Start argv immediately as a background job in the Codex sandbox and return a job_id without waiting for completion. Network is disabled and approval is not required."
            },
            ToolName::PollJob => "Poll a background command returned by execute or start_command. Returns running while active, or the command result once completed.",
            ToolName::StopJob => "Stop a background command returned by execute or start_command. The command's complete process tree receives a graceful stop followed by forced termination after a bounded grace period; repeated calls return the cached terminal result.",
            ToolName::ReadJobLog => "Read a bounded byte range from a command's stored stdout or stderr. Use the job_id returned in foreground/background results; access is scoped to the supplied session_id.",
            ToolName::HeartbeatStart => "Start or reset an in-turn heartbeat schedule for this local-mcp session. After starting it, call heartbeat_wait repeatedly. A tick is delivered only while heartbeat_wait is actively waiting; ticks that occur while the agent is busy doing work are skipped instead of queued.",
            ToolName::HeartbeatWait => "Wait for the next heartbeat tick in short long-poll chunks. Call this repeatedly until status is tick, then do one work cycle and call it again. If a scheduled tick passes while no heartbeat_wait call is active because the agent is still working, that tick is skipped. This does not revive a ChatGPT turn after the turn has ended.",
            ToolName::HeartbeatStatus => "Show the current in-turn heartbeat schedule, delivered tick count, skipped tick count, and time until the next tick.",
            ToolName::HeartbeatStop => "Stop and remove an in-turn heartbeat schedule for this local-mcp session.",
            ToolName::WithoutSandbox => "Execute argv directly on the host with full user permissions and network access. Every call requires approval unless the session is in yolo mode.",
        }
    }

    /// The tool that has a name.
    pub fn parse(value: &str) -> (tool: Option<ToolName>)
        ensures
            match tool {
                Some(tool) => tool.word() == value@ && forall|other: ToolName|
                    (#[trigger] other.word()) == value@ ==> other == tool,
                None => forall|tool: ToolName| (#[trigger] tool.word()) != value@,
            },
    {
        let tools: Vec<ToolName> = ToolName::all();
        let mut index: usize = 0;
        while index < tools.len()
            invariant
                tools@ == all_tools(),
                index <= tools@.len(),
                forall|i: int| 0 <= i < index ==> (#[trigger] all_tools()[i]).word() != value@,
            decreases tools@.len() - index,
        {
            if same_text(tools[index].as_str(), value) {
                proof {
                    assert forall|other: ToolName| (#[trigger] other.word()) == value@ implies other
                        == tools@[index as int] by {
                        law_tool_names_differ(other, tools@[index as int]);
                    }
                }
                return Some(tools[index]);
            }
            index = index + 1;
        }
        proof {
            assert forall|tool: ToolName| (#[trigger] tool.word()) != value@ by {
                lemma_all_tools(tool);
                assert(all_tools()[tool_place(tool)].word() != value@);
            }
        }
        None
    }
}

/// Where a tool stands among all.
pub open spec fn tool_place(tool: ToolName) -> int {
    match tool {
        ToolName::SessionInfo => 0,
        ToolName::ReadFile => 1,
        ToolName::GetImage => 2,
        ToolName::ListDirectory => 3,
        ToolName::WriteFile => 4,
        ToolName::Execute => 5,
        ToolName::StartCommand => 6,
        ToolName::PollJob => 7,
        ToolName::StopJob => 8,
        ToolName::ReadJobLog => 9,
        ToolName::HeartbeatStart => 10,
        ToolName::HeartbeatWait => 11,
        ToolName::HeartbeatStatus => 12,
        ToolName::HeartbeatStop => 13,
        ToolName::WithoutSandbox => 14,
    }
}

/// Each tool is offered, at its place.
pub proof fn lemma_all_tools(tool: ToolName)
    ensures
        0 <= tool_place(tool) < all_tools().len(),
        all_tools()[tool_place(tool)] == tool,
        all_tools().len() == 15,
{
}

/// No two tools have the same name, so that a name tells which tool handles a call.
pub proof fn law_tool_names_differ(a: ToolName, b: ToolName)
    requires
        a.word() == b.word(),
    ensures
        a == b,
{
    reveal_strlit("session_info");
    reveal_strlit("read_file");
    reveal_strlit("get_image");
    reveal_strlit("list_directory");
    reveal_strlit("write_file");
    reveal_strlit("execute");
    reveal_strlit("start_command");
    reveal_strlit("poll_job");
    reveal_strlit("stop_job");
    reveal_strlit("read_job_log");
    reveal_strlit("heartbeat_start");
    reveal_strlit("heartbeat_wait");
    reveal_strlit("heartbeat_status");
    reveal_strlit("heartbeat_stop");
    reveal_strlit("without_sandbox");
    assert("session_info"@.len() == 12 && "session_info"@[0] == 's');
    assert("read_file"@.len() == 9 && "read_file"@[0] == 'r');
    assert("get_image"@.len() == 9 && "get_image"@[0] == 'g');
    assert("list_directory"@.len() == 14 && "list_directory"@[0] == 'l');
    assert("write_file"@.len() == 10 && "write_file"@[0] == 'w');
    assert("execute"@.len() == 7 && "execute"@[0] == 'e');
    assert("start_command"@.len() == 13 && "start_command"@[0] == 's');
    assert("poll_job"@.len() == 8 && "poll_job"@[0] == 'p');
    assert("stop_job"@.len() == 8 && "stop_job"@[0] == 's');
    assert("read_job_log"@.len() == 12 && "read_job_log"@[0] == 'r');
    assert("heartbeat_start"@.len() == 15 && "heartbeat_start"@[0] == 'h');
    assert("heartbeat_wait"@.len() == 14 && "heartbeat_wait"@[0] == 'h');
    assert("heartbeat_status"@.len() == 16 && "heartbeat_status"@[0] == 'h');
    assert("heartbeat_stop"@.len() == 14 && "heartbeat_stop"@[0] == 'h');
    assert("without_sandbox"@.len() == 15 && "without_sandbox"@[0] == 'w');
    assert("heartbeat_wait"@[10] == 'w' && "heartbeat_stop"@[10] == 's');
    assert(a.word().len() == b.word().len());
    assert(a.word()[0] == b.word()[0]);
    assert(a.word()[10] == b.word()[10]);
}

/// Each tool is offered once: those at two places differ.
pub proof fn law_tools_are_offered_once(i: int, j: int)
    requires
        0 <= i < j < all_tools().len(),
    ensures
        all_tools()[i] != all_tools()[j],
        all_tools()[i].word() != all_tools()[j].word(),
{
    assert(tool_place(all_tools()[i]) == i);
    assert(tool_place(all_tools()[j]) == j);
    if all_tools()[i].word() == all_tools()[j].word() {
        law_tool_names_differ(all_tools()[i], all_tools()[j]);
    }
}

/// What a client is told of the page that shows an image.
pub open spec fn viewer_meta() -> JsonView {
    JsonView::object()
        .with(
            "ui"@,
            JsonView::object()
                .with("resourceUri"@, JsonView::Text(IMAGE_VIEWER_URI@))
                .with(
                    "visibility"@,
                    JsonView::list().item(JsonView::Text("model"@)).item(JsonView::Text("app"@)),
                ),
        )
        .with("openai/outputTemplate"@, JsonView::Text(IMAGE_VIEWER_URI@))
        .with("openai/toolInvocation/invoking"@, JsonView::Text("Reading image…"@))
        .with("openai/toolInvocation/invoked"@, JsonView::Text("Image ready"@))
}

fn viewer_meta_json() -> (json: Json)
    ensures
        json@ == viewer_meta(),
        ordered(json@),
{
    let visibility: Json = Json::list().item(Json::text("model")).item(Json::text("app"));
    let ui: Json = Json::object()
        .with("resourceUri", Json::text(IMAGE_VIEWER_URI))
        .with("visibility", visibility);
    Json::object()
        .with("ui", ui)
        .with("openai/outputTemplate", Json::text(IMAGE_VIEWER_URI))
        .with("openai/toolInvocation/invoking", Json::text("Reading image…"))
        .with("openai/toolInvocation/invoked", Json::text("Image ready"))
}

/// What a client is told of a tool, its arguments, and its answers where they are those of
/// commands.
pub open spec fn tool_view(tool: ToolName, schema: JsonView, windows: bool) -> JsonView {
    let definition = JsonView::object()
        .with("name"@, JsonView::Text(tool.word()))
        .with("description"@, JsonView::Text(tool.purpose(windows)))
        .with("inputSchema"@, schema);
    if tool.runs_commands() {
        definition.with("outputSchema"@, output_schema_view())
    } else if tool == ToolName::GetImage {
        definition.with("_meta"@, viewer_meta())
    } else {
        definition
    }
}

fn tool_json(tool: ToolName, schema: &Json, windows: bool) -> (json: Json)
    requires
        ordered(schema@),
    ensures
        json@ == tool_view(tool, schema@, windows),
        ordered(json@),
{
    let definition: Json = Json::object()
        .with("name", Json::text(tool.as_str()))
        .with("description", Json::text(tool.description(windows)))
        .with("inputSchema", schema.clone());
    if tool.is_command() {
        definition.with("outputSchema", output_schema())
    } else if tool == ToolName::GetImage {
        definition.with("_meta", viewer_meta_json())
    } else {
        definition
    }
}

/// What a client is told of all tools. The schemas of their arguments stand in the same order.
pub open spec fn tools_view(schemas: Seq<JsonView>, windows: bool) -> JsonView {
    JsonView::Array(
        Seq::new(all_tools().len(), |i: int| tool_view(all_tools()[i], schemas[i], windows)),
    )
}

/// What a client is told of all tools, on Windows and elsewhere. The schemas of their arguments
/// stand in the same order.
pub fn tools(schemas: &Vec<Json>, windows: bool) -> (json: Json)
    requires
        schemas@.len() == all_tools().len(),
        forall|i: int| 0 <= i < schemas@.len() ==> ordered((#[trigger] schemas@[i])@),
    ensures
        json@ == tools_view(items_view(schemas@), windows),
        ordered(json@),
{
    let all: Vec<ToolName> = ToolName::all();
    let mut values: Vec<Json> = Vec::new();
    let mut index: usize = 0;
    while index < all.len()
        invariant
            all@ == all_tools(),
            index <= all@.len(),
            schemas@.len() == all_tools().len(),
            forall|i: int| 0 <= i < schemas@.len() ==> ordered((#[trigger] schemas@[i])@),
            values@.len() == index,
            forall|i: int|
                0 <= i < index ==> (#[trigger] values@[i])@ == tool_view(
                    all@[i],
                    schemas@[i]@,
                    windows,
                ) && ordered(values@[i]@),
        decreases all@.len() - index,
    {
        values.push(tool_json(all[index], &schemas[index], windows));
        index = index + 1;
    }
    proof {
        lemma_json_array(values);
        assert(items_view(values@) =~= tools_view(items_view(schemas@), windows)->Array_0);
    }
    Json::Array(values)
}

/// The first place where entries have a key; the length where none has it.
pub open spec fn key_place(entries: Seq<(Seq<char>, JsonView)>, key: Seq<char>) -> int
    decreases entries.len(),
{
    if entries.len() == 0 || entries[0].0 == key {
        0
    } else {
        1 + key_place(entries.drop_first(), key)
    }
}

/// An object without the entry that has a key.
pub open spec fn without(value: JsonView, key: Seq<char>) -> JsonView {
    match value {
        JsonView::Object(entries) => if key_place(entries, key) < entries.len() {
            JsonView::Object(entries.remove(key_place(entries, key)))
        } else {
            value
        },
        _ => value,
    }
}

proof fn lemma_key_place(entries: Seq<(Seq<char>, JsonView)>, key: Seq<char>, place: int)
    requires
        0 <= place <= entries.len(),
        forall|i: int| 0 <= i < place ==> (#[trigger] entries[i]).0 != key,
        place < entries.len() ==> entries[place].0 == key,
    ensures
        key_place(entries, key) == place,
    decreases entries.len(),
{
    if entries.len() > 0 && entries[0].0 != key {
        let rest = entries.drop_first();
        assert forall|i: int| 0 <= i < place - 1 implies (#[trigger] rest[i]).0 != key by {
            assert(rest[i] == entries[i + 1]);
        }
        lemma_key_place(rest, key, place - 1);
    } else if entries.len() > 0 && place > 0 {
        assert(entries[0].0 != key);
    }
}

fn without_key(json: Json, key: &str) -> (rest: Json)
    ensures
        rest@ == without(json@, key@),
        ordered(json@) ==> ordered(rest@),
{
    match json {
        Json::Object(entries) => {
            let ghost before = entries;
            let ghost all = entries_view(entries@);
            proof {
                lemma_json_object(before);
            }
            let mut entries: Vec<(String, Json)> = entries;
            let mut place: usize = 0;
            while place < entries.len() && !same_text(entries[place].0.as_str(), key)
                invariant
                    entries@ == before@,
                    all == entries_view(before@),
                    place <= entries@.len(),
                    forall|i: int| 0 <= i < place ==> (#[trigger] all[i]).0 != key@,
                decreases entries@.len() - place,
            {
                place = place + 1;
            }
            proof {
                lemma_key_place(all, key@, place as int);
            }
            if place < entries.len() {
                let removed: (String, Json) = entries.remove(place);
                proof {
                    lemma_json_object(entries);
                    assert(entries_view(entries@) =~= all.remove(place as int));
                    if ordered(JsonView::Object(all)) {
                        let rest = all.remove(place as int);
                        assert forall|i: int| 0 <= i < rest.len() implies #[trigger] rest[i] == all[if i
                            < place {
                            i
                        } else {
                            i + 1
                        }] by {}
                        assert(ordered(JsonView::Object(rest)));
                    }
                }
            }
            Json::Object(entries)
        },
        other => other,
    }
}

/// The schema of the arguments of a tool, without what only names the schema itself.
pub fn generated_schema(schema: Json) -> (rest: Json)
    ensures
        rest@ == without(without(schema@, "$schema"@), "title"@),
        ordered(schema@) ==> ordered(rest@),
{
    without_key(without_key(schema, "$schema"), "title")
}

/// The pages that a client can ask for.
pub open spec fn resources_view() -> JsonView {
    JsonView::list().item(
        JsonView::object()
            .with("uri"@, JsonView::Text(IMAGE_VIEWER_URI@))
            .with("name"@, JsonView::Text("local_mcp_image_viewer"@))
            .with("description"@, JsonView::Text("Inline viewer for images returned by get_image."@))
            .with("mimeType"@, JsonView::Text(MCP_APP_MIME_TYPE@)),
    )
}

/// The pages that a client can ask for.
pub fn resources() -> (json: Json)
    ensures
        json@ == resources_view(),
        ordered(json@),
{
    let viewer: Json = Json::object()
        .with("uri", Json::text(IMAGE_VIEWER_URI))
        .with("name", Json::text("local_mcp_image_viewer"))
        .with("description", Json::text("Inline viewer for images returned by get_image."))
        .with("mimeType", Json::text(MCP_APP_MIME_TYPE));
    Json::list().item(viewer)
}

/// The page that shows an image.
pub open spec fn viewer_page() -> JsonView {
    JsonView::object().with(
        "contents"@,
        JsonView::list().item(
            JsonView::object()
                .with("uri"@, JsonView::Text(IMAGE_VIEWER_URI@))
                .with("mimeType"@, JsonView::Text(MCP_APP_MIME_TYPE@))
                .with("text"@, JsonView::Text(IMAGE_VIEWER_HTML@))
                .with(
                    "_meta"@,
                    JsonView::object()
                        .with("ui"@, JsonView::object().with("prefersBorder"@, JsonView::Bool(false)))
                        .with("openai/widgetPrefersBorder"@, JsonView::Bool(false))
                        .with(
                            "openai/widgetDescription"@,
                            JsonView::Text("Displays the image returned by local-mcp."@),
                        ),
                ),
        ),
    )
}

fn viewer_page_json() -> (json: Json)
    ensures
        json@ == viewer_page(),
        ordered(json@),
{
    let meta: Json = Json::object()
        .with("ui", Json::object().with("prefersBorder", Json::Bool(false)))
        .with("openai/widgetPrefersBorder", Json::Bool(false))
        .with("openai/widgetDescription", Json::text("Displays the image returned by local-mcp."));
    let page: Json = Json::object()
        .with("uri", Json::text(IMAGE_VIEWER_URI))
        .with("mimeType", Json::text(MCP_APP_MIME_TYPE))
        .with("text", Json::text(IMAGE_VIEWER_HTML))
        .with("_meta", meta);
    Json::object().with("contents", Json::list().item(page))
}

/// What a client is answered that asks for a page.
pub open spec fn resource_answer(params: JsonView) -> Result<JsonView, Seq<char>> {
    match text_member(params, "uri"@) {
        None => Err("missing resource uri"@),
        Some(uri) => if uri == IMAGE_VIEWER_URI@ {
            Ok(viewer_page())
        } else {
            Err("unknown resource: "@ + uri)
        },
    }
}

/// What a client is answered that asks for a page.
pub fn read_resource(params: &Json) -> (result: Result<Json, String>)
    ensures
        match result {
            Ok(json) => resource_answer(params@) == Ok::<JsonView, Seq<char>>(json@) && ordered(json@),
            Err(message) => resource_answer(params@) == Err::<JsonView, Seq<char>>(message@),
        },
{
    match params.get_text("uri") {
        None => Err("missing resource uri".to_owned()),
        Some(uri) => if same_text(uri, IMAGE_VIEWER_URI) {
            Ok(viewer_page_json())
        } else {
            Err(concat("unknown resource: ", uri))
        },
    }
}

/// What a client is told of a tool names it, says what it is for and what it takes; the schema of its answers
/// is told exactly of the tools that are answered with the outcome of a command.
pub proof fn law_tools_are_told_with_their_schemas(tool: ToolName, schema: JsonView, windows: bool)
    ensures
        ({
            let told = tool_view(tool, schema, windows);
            &&& member(told, "name"@) == Some(JsonView::Text(tool.word()))
            &&& member(told, "description"@) == Some(JsonView::Text(tool.purpose(windows)))
            &&& member(told, "inputSchema"@) == Some(schema)
            &&& member(told, "outputSchema"@) is Some <==> tool == ToolName::Execute || tool
                == ToolName::StartCommand || tool == ToolName::PollJob || tool == ToolName::StopJob || tool
                == ToolName::WithoutSandbox
            &&& member(told, "outputSchema"@) matches Some(schema) ==> schema == output_schema_view()
            &&& member(told, "_meta"@) is Some <==> tool == ToolName::GetImage
        }),
{
    let base = seq![
        ("name"@, JsonView::Text(tool.word())),
        ("description"@, JsonView::Text(tool.purpose(windows))),
        ("inputSchema"@, schema),
    ];
    let entries = if tool.runs_commands() {
        base.push(("outputSchema"@, output_schema_view()))
    } else if tool == ToolName::GetImage {
        base.push(("_meta"@, viewer_meta()))
    } else {
        base
    };
    reveal_strlit("name");
    reveal_strlit("description");
    reveal_strlit("inputSchema");
    reveal_strlit("outputSchema");
    reveal_strlit("_meta");
    assert("description"@[0] == 'd' && "inputSchema"@[0] == 'i');
    assert("description"@.len() == 11 && "inputSchema"@.len() == 11 && "outputSchema"@.len() == 12);
    assert("name"@.len() == 4 && "_meta"@.len() == 5);
    assert(distinct_keys(entries));
    lemma_entries_held(entries);
    lemma_filled_member(entries, "outputSchema"@);
    lemma_filled_member(entries, "_meta"@);
    reveal_with_fuel(filled_to, 5);
    lemma_filled_same(entries, base, 3);
    assert(filled(entries) == tool_view(tool, schema, windows));
    assert(entries[0].0 == "name"@ && entries[1].0 == "description"@ && entries[2].0
        == "inputSchema"@);
    if entries.len() == 4 {
        assert(entries[3] == if tool.runs_commands() {
            ("outputSchema"@, output_schema_view())
        } else {
            ("_meta"@, viewer_meta())
        });
    }
}

/// The tools are told in their order, each with the schema that stands at its place.
pub proof fn law_tools_are_told_in_order(schemas: Seq<JsonView>, windows: bool, place: int)
    requires
        0 <= place < all_tools().len(),
    ensures
        tools_view(schemas, windows) matches JsonView::Array(items) && items.len() == 15
            && items[place] == tool_view(all_tools()[place], schemas[place], windows),
{
}

/// Without a key an object has nothing under it, and all else that it had.
pub proof fn law_keys_are_taken_out(value: JsonView, key: Seq<char>, other: Seq<char>)
    requires
        ordered(value),
    ensures
        value is Object ==> member(without(value, key), key) is None,
        other != key ==> member(without(value, key), other) == member(value, other),
{
    if let JsonView::Object(entries) = value {
        lemma_without(entries, key, other);
    }
}

proof fn lemma_without(entries: Seq<(Seq<char>, JsonView)>, key: Seq<char>, other: Seq<char>)
    requires
        forall|i: int, j: int|
            0 <= i < j < entries.len() ==> text_before(
                (#[trigger] entries[i]).0,
                (#[trigger] entries[j]).0,
            ),
    ensures
        ({
            let place = key_place(entries, key);
            let rest = if place < entries.len() {
                entries.remove(place)
            } else {
                entries
            };
            &&& 0 <= place <= entries.len()
            &&& entry_value(rest, key) is None
            &&& other != key ==> entry_value(rest, other) == entry_value(entries, other)
        }),
    decreases entries.len(),
{
    if entries.len() > 0 {
        let tail = entries.drop_first();
        assert forall|i: int, j: int| 0 <= i < j < tail.len() implies text_before(
            (#[trigger] tail[i]).0,
            (#[trigger] tail[j]).0,
        ) by {
            assert(tail[i] == entries[i + 1] && tail[j] == entries[j + 1]);
        }
        lemma_without(tail, key, other);
        if entries[0].0 == key {
            assert(entries.remove(0) =~= tail);
            assert forall|i: int| 0 <= i < tail.len() implies (#[trigger] tail[i]).0 != key by {
                assert(tail[i] == entries[i + 1]);
                assert(text_before(entries[0].0, entries[i + 1].0));
                lemma_text_before_irreflexive(key);
            }
            lemma_no_entry(tail, key);
        } else {
            let place = key_place(tail, key);
            if place < tail.len() {
                let rest = entries.remove(place + 1);
                assert(rest.drop_first() =~= tail.remove(place));
                assert(rest[0] == entries[0]);
            }
        }
    }
}

proof fn lemma_no_entry(entries: Seq<(Seq<char>, JsonView)>, key: Seq<char>)
    requires
        forall|i: int| 0 <= i < entries.len() ==> (#[trigger] entries[i]).0 != key,
    ensures
        entry_value(entries, key) is None,
    decreases entries.len(),
{
    if entries.len() > 0 {
        assert(entries[0].0 != key);
        let tail = entries.drop_first();
        assert forall|i: int| 0 <= i < tail.len() implies (#[trigger] tail[i]).0 != key by {
            assert(tail[i] == entries[i + 1]);
        }
        lemma_no_entry(tail, key);
    }
}

proof fn lemma_filled_same(
    a: Seq<(Seq<char>, JsonView)>,
    b: Seq<(Seq<char>, JsonView)>,
    count: int,
)
    requires
        0 <= count <= a.len(),
        count <= b.len(),
        forall|i: int| 0 <= i < count ==> a[i] == b[i],
    ensures
        filled_to(a, count) == filled_to(b, count),
    decreases count,
{
    if count > 0 {
        lemma_filled_same(a, b, count - 1);
    }
}

/// A page is given exactly to one who asks for it by its address.
pub proof fn law_pages_are_asked_for_by_their_address(params: JsonView)
    ensures
        match member(params, "uri"@) {
            Some(JsonView::Text(uri)) => (resource_answer(params) is Ok <==> uri == IMAGE_VIEWER_URI@) && (
            resource_answer(params) is Err ==> resource_answer(params)->Err_0 == "unknown resource: "@
                + uri),
            _ => resource_answer(params) == Err::<JsonView, Seq<char>>("missing resource uri"@),
        },
{
}

} // verus!
