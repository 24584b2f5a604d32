use local_mcp::cli::{Cli, Command};

fn arguments(parts: &[&str]) -> Vec<String> {
    parts.iter().map(|part| (*part).to_owned()).collect()
}

#[test]
fn parses_start_yolo_without_session_id() {
    let cli = Cli::try_parse_from(&arguments(&["local-mcp", "start", "--yolo"])).unwrap();
    match cli.command.unwrap() {
        Command::Start { session_id, yolo } => {
            assert_eq!(session_id, None);
            assert!(yolo);
        }
        Command::Mcp => panic!("expected start command"),
    }
}

#[test]
fn parses_start_yolo_with_named_session() {
    let cli =
        Cli::try_parse_from(&arguments(&["local-mcp", "start", "web-agent", "--yolo"])).unwrap();
    match cli.command.unwrap() {
        Command::Start { session_id, yolo } => {
            assert_eq!(session_id.as_deref(), Some("web-agent"));
            assert!(yolo);
        }
        Command::Mcp => panic!("expected start command"),
    }
}

#[test]
fn flags_may_stand_before_the_session_id() {
    let cli =
        Cli::try_parse_from(&arguments(&["local-mcp", "start", "--yolo", "web-agent"])).unwrap();
    match cli.command.unwrap() {
        Command::Start { session_id, yolo } => {
            assert_eq!(session_id.as_deref(), Some("web-agent"));
            assert!(yolo);
        }
        Command::Mcp => panic!("expected start command"),
    }
}

#[test]
fn parses_start_without_flags() {
    let cli = Cli::try_parse_from(&arguments(&["local-mcp", "start"])).unwrap();
    assert!(matches!(
        cli.command,
        Some(Command::Start { session_id: None, yolo: false })
    ));
}

#[test]
fn parses_the_server_command() {
    let cli = Cli::try_parse_from(&arguments(&["local-mcp", "mcp"])).unwrap();
    assert!(matches!(cli.command, Some(Command::Mcp)));
    assert!(matches!(cli.chosen(), Command::Mcp));
}

#[test]
fn starts_a_session_where_no_command_is_given() {
    let cli = Cli::try_parse_from(&arguments(&["local-mcp"])).unwrap();
    assert!(cli.command.is_none());
    assert!(matches!(
        cli.chosen(),
        Command::Start { session_id: None, yolo: false }
    ));
}

#[test]
fn refuses_unknown_commands_and_flags() {
    let refused = Cli::try_parse_from(&arguments(&["local-mcp", "stop"])).unwrap_err();
    assert_eq!(refused.exit_code, 2);
    assert!(Cli::try_parse_from(&arguments(&["local-mcp", "mcp", "--yolo"])).is_err());
    assert!(Cli::try_parse_from(&arguments(&["local-mcp", "start", "a", "b"])).is_err());
}

#[test]
fn shows_help_and_version() {
    let help = Cli::try_parse_from(&arguments(&["local-mcp", "--help"])).unwrap_err();
    assert_eq!(help.exit_code, 0);
    assert!(help.message.contains("start"));
    let version = Cli::try_parse_from(&arguments(&["local-mcp", "--version"])).unwrap_err();
    assert_eq!(version.exit_code, 0);
    assert!(version.message.contains("0.1.0"));
}

#[test]
fn parses_start_with_a_named_session() {
    let cli = Cli::try_parse_from(&arguments(&["local-mcp", "start", "web-agent"])).unwrap();
    match cli.command.unwrap() {
        Command::Start { session_id, yolo } => {
            assert_eq!(session_id.as_deref(), Some("web-agent"));
            assert!(!yolo);
        }
        Command::Mcp => panic!("expected start command"),
    }
    let cli = Cli::try_parse_from(&arguments(&["local-mcp", "start", "help"])).unwrap();
    assert!(matches!(
        cli.command,
        Some(Command::Start { session_id: Some(_), yolo: false })
    ));
}
