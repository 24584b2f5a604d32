use local_mcp::files::{
    list_directory, write_command, write_plan, written_output, DirectoryEntry,
};
use local_mcp::launch::{absolute_directories, missing_helper, sandbox_helper, split_command};
use local_mcp::paths::{
    components, display_path, parent, path_starts_with, requested_directory, resolve_path,
};
use local_mcp::storage::{job_root, session_job_root, session_step_root, step_root};
use local_mcp::job_id::JobId;
use std::path::Path;

const SAMPLES: [&str; 24] = [
    "", "/", ".", "..", "./", "a", "a/", "a//", "a/b", "./a", "a/.", "a/./b", "/a", "/a/", "//a",
    "/a//b", "/a/./b/", "/a/b/..", "/a/b/c", "/a/bc", "/./a", "a/../b", "/a/b/.", "/tmp/x y",
];

#[test]
fn paths_split_as_the_system_splits_them() {
    for path in SAMPLES {
        let expected: Vec<String> = Path::new(path)
            .components()
            .filter(|part| !matches!(part, std::path::Component::RootDir))
            .map(|part| part.as_os_str().to_string_lossy().into_owned())
            .collect();
        assert_eq!(components(path), expected, "{path:?}");
    }
}

#[test]
fn prefixes_parents_and_joins_are_those_of_the_system() {
    for path in SAMPLES {
        assert_eq!(
            parent(path),
            Path::new(path).parent().map(|parent| parent.to_string_lossy().into_owned()),
            "{path:?}"
        );
        for base in SAMPLES {
            assert_eq!(
                path_starts_with(path, base),
                Path::new(path).starts_with(base),
                "{path:?} {base:?}"
            );
            let shown = Path::new(path).strip_prefix(base).unwrap_or(Path::new(path));
            assert_eq!(display_path(path, base), shown.to_string_lossy(), "{path:?} {base:?}");
            assert_eq!(
                resolve_path(base, path),
                Path::new(base).join(path).to_string_lossy(),
                "{base:?} {path:?}"
            );
        }
    }
}

#[test]
fn paths_are_shown_from_the_working_directory() {
    assert_eq!(display_path("/work/src/main.rs", "/work"), "src/main.rs");
    assert_eq!(display_path("/workshop/a", "/work"), "/workshop/a");
    assert_eq!(display_path("/work", "/work"), "");
}

#[test]
fn directories_are_asked_for_or_those_of_the_session() {
    assert_eq!(requested_directory(None, "/work"), "/work");
    assert_eq!(requested_directory(Some("sub"), "/work"), "/work/sub");
    assert_eq!(requested_directory(Some("/other"), "/work"), "/other");
}

#[test]
fn listings_are_sorted() {
    let entry = |name: &str, is_directory: bool| DirectoryEntry {
        name: name.to_owned(),
        is_directory,
    };
    let entries = vec![
        entry("zeta", false),
        entry("src", true),
        entry("src.rs", false),
        entry("Alpha", false),
        entry("éa", false),
    ];
    assert_eq!(list_directory(&entries), "Alpha\nsrc.rs\nsrc/\nzeta\néa");
    assert_eq!(list_directory(&Vec::new()), "");
}

#[test]
fn files_are_written_by_a_command() {
    assert_eq!(
        write_command("/work/a b.txt"),
        vec!["sh", "-c", "cat > \"$1\"", "local-mcp-write", "/work/a b.txt"]
    );
}

#[test]
fn commands_have_a_program() {
    let launch = split_command(&vec!["cargo".to_owned(), "test".to_owned()]).unwrap();
    assert_eq!(launch.program, "cargo");
    assert_eq!(launch.arguments, vec!["test"]);
    assert_eq!(split_command(&Vec::new()).unwrap_err(), "command must not be empty");
}

#[test]
fn directories_begin_at_the_root() {
    let directories = vec!["/a".to_owned(), "b".to_owned()];
    assert_eq!(absolute_directories(&directories, "/work"), vec!["/a", "/work/b"]);
}

#[test]
fn the_helper_stands_beside_the_server() {
    assert_eq!(
        sandbox_helper("/opt/local-mcp/local-mcp").unwrap(),
        "/opt/local-mcp/codex-linux-sandbox"
    );
    assert_eq!(
        sandbox_helper("/").unwrap_err(),
        "local-mcp executable has no parent directory"
    );
    assert_eq!(missing_helper("/x/y"), "sandbox helper is missing: /x/y");
}

#[test]
fn records_are_kept_below_their_session() {
    let job_id = JobId { bits: 1 };
    assert_eq!(session_job_root("/state", "s").unwrap(), "/state/jobs/s");
    assert_eq!(
        job_root("/state", "s", job_id).unwrap(),
        "/state/jobs/s/00000000-0000-0000-0000-000000000001"
    );
    assert_eq!(session_step_root("/state", "s").unwrap(), "/state/workflow-steps/s");
    assert_eq!(step_root("/state", "s", "a").unwrap(), "/state/workflow-steps/s/a");
    assert_eq!(step_root("/state", "s", "").unwrap_err(), "step_id must not be empty");
    assert!(step_root("/state", ".", "a").is_err());
    assert!(job_root("/state", "a b", job_id).is_err());
}

#[test]
fn files_are_written_directly_where_there_is_no_sandbox() {
    assert_eq!(write_plan("/work/a", false), Some(write_command("/work/a")));
    assert_eq!(write_plan("C:/work/a", true), None);
    let output = written_output();
    assert_eq!((output.status, output.stdout.as_str(), output.stderr.as_str()), (0, "", ""));
    assert_eq!(output.termination.as_str(), "exited");
}
