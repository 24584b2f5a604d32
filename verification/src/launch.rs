//! How commands are started.
use vstd::prelude::*;

use crate::activity::concat;
use crate::command_answers::{answer_bytes, law_reasons_fit};
use crate::command_output::MIN_INLINE_OUTPUT_LIMIT;
use crate::command_result::{CommandErrorKind, CommandOutcome, OutcomeView};
use crate::job_journal::ExecutionMode;
use crate::json_size::{lemma_unescaped_size, unescaped};
use crate::paths::{
    law_relative_paths_lie_below, parent, parent_of, resolve_path, resolved, starts_with,
};
use crate::text::{copy_texts, texts_view};
use crate::tools::ToolName;

verus! {

/// A program and the arguments that it is given.
#[derive(Debug)]
pub struct Launch {
    pub program: String,
    pub arguments: Vec<String>,
}

/// The program and the arguments of a command; a command without a program is refused.
pub fn split_command(command: &Vec<String>) -> (result: Result<Launch, String>)
    ensures
        match result {
            Ok(launch) => command@.len() > 0 && seq![launch.program@] + texts_view(
                launch.arguments@,
            ) == texts_view(command@),
            Err(message) => command@.len() == 0 && message@ == "command must not be empty"@,
        },
{
    if command.len() == 0 {
        return Err("command must not be empty".to_owned());
    }
    let program: String = command[0].clone();
    let mut arguments: Vec<String> = copy_texts(command);
    let ghost all = arguments@;
    let first: String = arguments.remove(0);
    proof {
        assert forall|i: int| 0 <= i < all.len() implies (#[trigger] all[i])@ == command@[i]@ by {
            assert(texts_view(all)[i] == texts_view(command@)[i]);
        }
        let rest = texts_view(arguments@);
        assert forall|i: int| 0 <= i < rest.len() implies #[trigger] rest[i] == command@[i + 1]@ by {
            assert(arguments@[i] == all[i + 1]);
        }
        assert(seq![program@] + rest =~= texts_view(command@));
    }
    Ok(Launch { program, arguments })
}

/// Directories from the root on: those that begin elsewhere begin at the current directory.
pub open spec fn rooted(directories: Seq<Seq<char>>, current: Seq<char>) -> Seq<Seq<char>> {
    Seq::new(directories.len(), |i: int| resolved(current, directories[i]))
}

/// Directories from the root on: those that begin elsewhere begin at the current directory.
pub fn absolute_directories(directories: &Vec<String>, current: &str) -> (full: Vec<String>)
    ensures
        texts_view(full@) == rooted(texts_view(directories@), current@),
{
    let mut full: Vec<String> = Vec::new();
    let mut index: usize = 0;
    while index < directories.len()
        invariant
            index <= directories@.len(),
            full@.len() == index,
            forall|i: int|
                0 <= i < index ==> (#[trigger] full@[i])@ == resolved(current@, directories@[i]@),
        decreases directories@.len() - index,
    {
        full.push(resolve_path(current, directories[index].as_str()));
        index = index + 1;
    }
    proof {
        assert(texts_view(full@) =~= rooted(texts_view(directories@), current@));
    }
    full
}

/// The program that confines commands, beside the executable of the server.
pub fn sandbox_helper(executable: &str) -> (result: Result<String, String>)
    ensures
        match parent_of(executable@) {
            Some(directory) => result matches Ok(helper) && helper@ == resolved(
                directory,
                "codex-linux-sandbox"@,
            ),
            None => result matches Err(message) && message@
                == "local-mcp executable has no parent directory"@,
        },
{
    match parent(executable) {
        Some(directory) => Ok(resolve_path(directory.as_str(), "codex-linux-sandbox")),
        None => Err("local-mcp executable has no parent directory".to_owned()),
    }
}

/// Why a command cannot be confined where the program for that is not there.
pub fn missing_helper(helper: &str) -> (message: String)
    ensures
        message@ == "sandbox helper is missing: "@ + helper@,
{
    concat("sandbox helper is missing: ", helper)
}

/// Under which conditions a command is started.
#[derive(Clone, Copy, Debug, PartialEq, Eq, Structural)]
pub struct CommandPlan {
    /// Whether the user of the session is asked before.
    pub approval: bool,
    /// Whether the command is confined.
    pub mode: ExecutionMode,
}

/// How a tool starts commands. On Windows there is nothing that confines them, so that there each
/// command runs on the host, and the user is asked before; elsewhere only those are that are to run
/// without a sandbox.
pub open spec fn planned(tool: ToolName, windows: bool) -> CommandPlan {
    if windows || tool == ToolName::WithoutSandbox {
        CommandPlan { approval: true, mode: ExecutionMode::Unrestricted }
    } else {
        CommandPlan { approval: false, mode: ExecutionMode::Sandboxed }
    }
}

/// How a tool starts commands, on Windows and elsewhere.
pub fn command_plan(tool: ToolName, windows: bool) -> (plan: CommandPlan)
    ensures
        plan == planned(tool, windows),
{
    if windows || tool == ToolName::WithoutSandbox {
        CommandPlan { approval: true, mode: ExecutionMode::Unrestricted }
    } else {
        CommandPlan { approval: false, mode: ExecutionMode::Sandboxed }
    }
}

/// No command runs on the host that the user was not asked about.
pub proof fn law_host_commands_are_approved(tool: ToolName, windows: bool)
    ensures
        planned(tool, windows).mode == ExecutionMode::Unrestricted <==> planned(tool, windows).approval,
{
}

/// What the user is shown of a command that is to be approved.
pub fn approval_preview(rendered: &str) -> (text: String)
    ensures
        text@ == "argv preview: "@ + rendered@,
{
    concat("argv preview: ", rendered)
}

/// The name of a tool takes at most 16 bytes.
proof fn lemma_tool_words(tool: ToolName)
    ensures
        unescaped(tool.word()) && tool.word().len() <= 16,
{
    reveal_strlit("session_info");
    reveal_strlit("read_file");
    reveal_strlit("get_image");
    reveal_strlit("list_directory");
    reveal_strlit("write_file");
    reveal_strlit("execute");
    reveal_strlit("start_command");
    reveal_strlit("poll_job");
    reveal_strlit("stop_job");
    reveal_strlit("read_job_log");
    reveal_strlit("heartbeat_start");
    reveal_strlit("heartbeat_wait");
    reveal_strlit("heartbeat_status");
    reveal_strlit("heartbeat_stop");
    reveal_strlit("without_sandbox");
}

/// What is answered where the user does not approve a command.
pub fn denied_outcome(tool: ToolName) -> (outcome: CommandOutcome)
    ensures
        outcome@ == OutcomeView::failure(
            CommandErrorKind::ApprovalDenied,
            false,
            "user denied "@ + tool.word(),
        ),
        answer_bytes(outcome@.answer()) <= MIN_INLINE_OUTPUT_LIMIT,
{
    let outcome: CommandOutcome = CommandOutcome::approval_denied(
        concat("user denied ", tool.as_str()).as_str(),
    );
    proof {
        reveal_strlit("user denied ");
        lemma_tool_words(tool);
        lemma_unescaped_size(outcome@.message);
        law_reasons_fit(outcome@);
    }
    outcome
}

/// A command is confined exactly if the system can confine it and it was not asked to run without that; only
/// then is it run without asking.
pub proof fn law_commands_are_confined_unless_asked_otherwise(tool: ToolName, windows: bool)
    ensures
        planned(tool, windows).mode == ExecutionMode::Sandboxed <==> !windows && tool
            != ToolName::WithoutSandbox,
        planned(tool, windows).approval <==> windows || tool == ToolName::WithoutSandbox,
{
}

/// Directories keep their order, and each of them begins at the root: those that do stay as they are, the
/// others lie below the current directory.
pub proof fn law_directories_begin_at_the_root(directories: Seq<Seq<char>>, current: Seq<char>, i: int)
    requires
        0 <= i < directories.len(),
        current.len() > 0 && current[0] == '/',
    ensures
        rooted(directories, current).len() == directories.len(),
        rooted(directories, current)[i].len() > 0 && rooted(directories, current)[i][0] == '/',
        directories[i].len() > 0 && directories[i][0] == '/' ==> rooted(directories, current)[i]
            == directories[i],
        starts_with(rooted(directories, current)[i], current) || (directories[i].len() > 0
            && directories[i][0] == '/'),
{
    law_relative_paths_lie_below(current, directories[i]);
}

} // verus!
