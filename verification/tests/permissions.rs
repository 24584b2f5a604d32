use local_mcp::permissions::{split_words, PermissionCommand};

#[test]
fn lines_are_split_into_words() {
    for line in ["", "  ", "one", " one  two\tthree\n", "\u{3000}a\u{a0}b", "/permission allow ../x"] {
        let expected: Vec<&str> = line.split_whitespace().collect();
        assert_eq!(split_words(line), expected);
    }
}

#[test]
fn both_spellings_of_permission_commands_are_read() {
    for word in ["/permission", "/permissions"] {
        let parse = |rest: &str| PermissionCommand::parse(&format!("{word} {rest}"));
        assert_eq!(parse("ask"), Some(PermissionCommand::Ask));
        assert_eq!(parse("yolo"), Some(PermissionCommand::Yolo));
        assert_eq!(parse("list"), Some(PermissionCommand::List));
        assert_eq!(parse("status"), Some(PermissionCommand::Status));
        assert_eq!(
            parse("allow ../another-project"),
            Some(PermissionCommand::Allow("../another-project".to_string()))
        );
        assert_eq!(
            parse("revoke ../another-project"),
            Some(PermissionCommand::Revoke("../another-project".to_string()))
        );
    }
}

#[test]
fn other_lines_are_no_permission_commands() {
    for line in [
        "",
        "y",
        "/permission",
        "/permission maybe",
        "/permission allow",
        "/permission yolo now",
        "/permission allow one two",
        "/permissionsx yolo",
        "permission yolo",
    ] {
        assert_eq!(PermissionCommand::parse(line), None);
    }
}
