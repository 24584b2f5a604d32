use local_mcp::command_result::{output_schema, CommandErrorKind};
use local_mcp::image_viewer::{IMAGE_VIEWER_URI, MCP_APP_MIME_TYPE};
use local_mcp::job_journal::ExecutionMode;
use local_mcp::json::{parse, Json};
use local_mcp::launch::{approval_preview, command_plan, denied_outcome, CommandPlan};
use local_mcp::tools::{generated_schema, read_resource, resources, tools, ToolName};

fn schemas() -> Vec<Json> {
    ToolName::all()
        .into_iter()
        .map(|tool| Json::object().with("description", Json::text(tool.as_str())))
        .collect()
}

fn items(json: &Json) -> &Vec<Json> {
    match json {
        Json::Array(items) => items,
        _ => panic!("expected an array"),
    }
}

fn follow<'a>(json: &'a Json, keys: &[&str]) -> &'a Json {
    keys.iter().fold(json, |value, key| value.get(key).unwrap())
}

#[test]
fn get_image_tool_declares_image_viewer_ui() {
    let tools = tools(&schemas(), false);
    let get_image = items(&tools)
        .iter()
        .find(|tool| tool.get_text("name") == Some("get_image"))
        .unwrap();

    assert_eq!(
        follow(get_image, &["_meta", "ui", "resourceUri"]).as_str(),
        Some(IMAGE_VIEWER_URI)
    );
    assert_eq!(
        follow(get_image, &["_meta", "openai/outputTemplate"]).as_str(),
        Some(IMAGE_VIEWER_URI)
    );
    assert_eq!(
        follow(get_image, &["_meta", "ui", "visibility"]),
        &Json::Array(vec![Json::text("model"), Json::text("app")])
    );
}

#[test]
fn other_tools_declare_no_ui() {
    let tools = tools(&schemas(), false);
    for tool in items(&tools) {
        assert_eq!(
            tool.get("_meta").is_some(),
            tool.get_text("name") == Some("get_image")
        );
        assert_eq!(
            follow(tool, &["inputSchema", "description"]).as_str(),
            tool.get_text("name")
        );
    }
}

#[test]
fn image_viewer_resource_is_valid_mcp_app_html() {
    let listed = resources();
    let resource = &items(&listed)[0];
    assert_eq!(resource.get_text("uri"), Some(IMAGE_VIEWER_URI));
    assert_eq!(resource.get_text("mimeType"), Some(MCP_APP_MIME_TYPE));

    let request = Json::object().with("uri", Json::text(IMAGE_VIEWER_URI));
    let result = read_resource(&request).unwrap();
    let content = &items(result.get("contents").unwrap())[0];
    assert_eq!(content.get_text("uri"), Some(IMAGE_VIEWER_URI));
    assert_eq!(content.get_text("mimeType"), Some(MCP_APP_MIME_TYPE));
    let html = content.get_text("text").unwrap();
    assert!(html.starts_with("<!doctype html>"));
    assert!(html.contains("ui/notifications/tool-result"));
    assert!(html.contains("data:${mimeType};base64,${image.data}"));
    assert!(html.contains("toolResponseMetadata"));
}

#[test]
fn rejects_unknown_ui_resource() {
    let request = Json::object().with("uri", Json::text("ui://local-mcp/unknown.html"));
    let error = read_resource(&request).unwrap_err();
    assert!(error.contains("unknown resource"));
    assert_eq!(
        read_resource(&Json::Null).unwrap_err(),
        "missing resource uri"
    );
}

#[test]
fn heartbeat_tools_are_declared() {
    let tools = tools(&schemas(), false);
    for name in [
        "heartbeat_start",
        "heartbeat_wait",
        "heartbeat_status",
        "heartbeat_stop",
    ] {
        assert!(
            items(&tools).iter().any(|tool| tool.get_text("name") == Some(name)),
            "missing tool {name}"
        );
    }
}

#[test]
fn declared_tool_names_and_dispatch_handlers_are_bijective() {
    let tools = tools(&schemas(), false);
    let declared = items(&tools)
        .iter()
        .map(|tool| tool.get_text("name").unwrap().to_owned())
        .collect::<Vec<_>>();
    let handled = ToolName::all()
        .into_iter()
        .map(|tool| tool.as_str().to_owned())
        .collect::<Vec<_>>();

    assert_eq!(declared, handled);
    let mut unique = handled.clone();
    unique.sort();
    unique.dedup();
    assert_eq!(unique.len(), ToolName::all().len());
    for name in declared {
        assert!(ToolName::parse(&name).is_some(), "missing handler for {name}");
    }
}

#[test]
fn describes_windows_command_execution_as_approved_host_access() {
    let tools = tools(&schemas(), true);
    let description = |name: &str| {
        items(&tools)
            .iter()
            .find(|tool| tool.get_text("name") == Some(name))
            .unwrap()
            .get_text("description")
            .unwrap()
            .to_owned()
    };
    for name in ["execute", "start_command"] {
        let description = description(name);
        assert!(description.contains("Windows host"));
        assert!(description.contains("requires approval"));
        assert!(description.contains("filesystem and network access"));
    }

    let write_file_description = description("write_file");
    assert!(write_file_description.contains("Windows host"));
    assert!(write_file_description.contains("without a Codex sandbox"));
}

#[test]
fn sandboxes_are_described_where_there_are_some() {
    for tool in [ToolName::Execute, ToolName::StartCommand, ToolName::WriteFile] {
        assert!(tool.description(false).contains("in the Codex sandbox"));
        assert!(!tool.description(false).contains("Windows"));
    }
}

#[test]
fn command_tools_publish_the_schema_of_their_answers() {
    let tools = tools(&schemas(), false);
    for tool in items(&tools) {
        let name = tool.get_text("name").unwrap();
        let runs = ["execute", "start_command", "poll_job", "stop_job", "without_sandbox"];
        match tool.get("outputSchema") {
            Some(schema) => {
                assert!(runs.contains(&name));
                assert_eq!(schema, &output_schema());
            }
            None => assert!(!runs.contains(&name)),
        }
        assert_eq!(ToolName::parse(name).unwrap().is_command(), runs.contains(&name));
    }
}

#[test]
fn commands_on_the_host_are_approved() {
    let plan = |tool: ToolName, windows: bool| command_plan(tool, windows);
    let host = CommandPlan { approval: true, mode: ExecutionMode::Unrestricted };
    let confined = CommandPlan { approval: false, mode: ExecutionMode::Sandboxed };
    assert_eq!(plan(ToolName::Execute, false), confined);
    assert_eq!(plan(ToolName::StartCommand, false), confined);
    assert_eq!(plan(ToolName::WithoutSandbox, false), host);
    assert_eq!(plan(ToolName::Execute, true), host);
    assert_eq!(plan(ToolName::WithoutSandbox, true), host);
    assert_eq!(approval_preview("cargo test"), "argv preview: cargo test");
    let denied = denied_outcome(ToolName::Execute);
    assert_eq!(denied.message, "user denied execute");
    assert_eq!(denied.error_kind, Some(CommandErrorKind::ApprovalDenied));
}

#[test]
fn tools_are_found_by_their_names() {
    for tool in ToolName::all() {
        assert_eq!(ToolName::parse(tool.as_str()), Some(tool));
        assert!(!tool.description(true).is_empty() && !tool.description(false).is_empty());
    }
    assert_eq!(ToolName::parse("delete_everything"), None);
}

#[test]
fn schemas_lose_their_headers() {
    let schema = parse(
        "{\"$schema\":\"x\",\"title\":\"ExecuteArgs\",\"type\":\"object\",\"properties\":{\"title\":{}}}",
    )
    .unwrap();
    let expected = parse("{\"type\":\"object\",\"properties\":{\"title\":{}}}").unwrap();
    assert_eq!(generated_schema(schema), expected);
    assert_eq!(generated_schema(Json::Bool(true)), Json::Bool(true));
}
