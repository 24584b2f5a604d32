//! The command line of the program.
use vstd::prelude::*;

use clap::{Arg, ArgAction, Command as Program};

use crate::text::{optional_view, same_text, texts_view};

verus! {

/// Why nothing is done: what is wrong with a command line, or the help that was asked for; and the
/// status with which the program exits.
#[derive(Debug)]
pub struct Refusal {
    pub message: String,
    pub exit_code: i32,
}

/// What the program is asked to do.
#[derive(Debug)]
pub enum Command {
    /// Start a session in the current directory and show its permission UI.
    Start { session_id: Option<String>, yolo: bool },
    /// Run the session-independent MCP server over stdin/stdout.
    Mcp,
}

/// A command line.
#[derive(Debug)]
pub struct Cli {
    pub command: Option<Command>,
}

/// What was found on a command line: the command, and its value and its flag where it takes them.
pub type Found = Option<(String, Option<String>, Option<bool>)>;

/// What was found on a command line.
pub type FoundView = Option<(Seq<char>, Option<Seq<char>>, Option<bool>)>;

/// What was found on a command line.
pub open spec fn found_view(found: Found) -> FoundView {
    match found {
        Some((command, value, flag)) => Some((command@, optional_view(value), flag)),
        None => None,
    }
}

/// What `clap` finds on a command line: one of two commands, or none; with the first of them a value
/// and a flag. Nothing where it refuses the command line.
pub uninterp spec fn found_arguments(
    first: Seq<char>,
    value: Seq<char>,
    flag: Seq<char>,
    second: Seq<char>,
    arguments: Seq<Seq<char>>,
) -> Option<FoundView>;

/// Whether a text can be a value on a command line wherever it stands: it is no flag.
pub open spec fn plain_value(text: Seq<char>) -> bool {
    text.len() > 0 && text[0] != '-'
}

/// Whether a name is made of small letters and underscores, of two or more of them, and is none of those
/// that `clap` itself gives to commands and flags.
pub open spec fn own_name(name: Seq<char>) -> bool {
    &&& name.len() > 1
    &&& forall|i: int|
        0 <= i < name.len() ==> ('a' <= #[trigger] name[i] && name[i] <= 'z') || name[i] == '_'
    &&& name != "help"@
    &&& name != "version"@
}

/// What is found on a plain command line: no command, the second one, or the first one, with a
/// value or without one, and with its flag before or after that, or without it.
pub open spec fn plain_line(
    first: Seq<char>,
    flag: Seq<char>,
    second: Seq<char>,
    arguments: Seq<Seq<char>>,
) -> Option<FoundView> {
    let set = "--"@ + flag;
    if arguments.len() == 1 {
        Some(None)
    } else if arguments.len() == 2 && arguments[1] == second {
        Some(Some((second, None, None)))
    } else if arguments.len() == 2 && arguments[1] == first {
        Some(Some((first, None, Some(false))))
    } else if arguments.len() == 3 && arguments[1] == first && arguments[2] == set {
        Some(Some((first, None, Some(true))))
    } else if arguments.len() == 3 && arguments[1] == first && plain_value(arguments[2]) {
        Some(Some((first, Some(arguments[2]), Some(false))))
    } else if arguments.len() == 4 && arguments[1] == first && plain_value(arguments[2])
        && arguments[3] == set {
        Some(Some((first, Some(arguments[2]), Some(true))))
    } else if arguments.len() == 4 && arguments[1] == first && arguments[2] == set && plain_value(
        arguments[3],
    ) {
        Some(Some((first, Some(arguments[3]), Some(true))))
    } else {
        None
    }
}

/// `clap::Command::try_get_matches_from` reads a command line that can hold one of two commands, the
/// first of which takes a value and a flag. Where it refuses one is not said here, only that this
/// depends on the names and on the arguments alone; and what it finds on the plain command lines. It
/// panics where names clash, and cuts an argument in two at `=`; names of one's own do neither.
#[verifier::external_body]
fn find_arguments(
    program: &'static str,
    version: &'static str,
    first: &'static str,
    first_help: &'static str,
    value: &'static str,
    value_help: &'static str,
    flag: &'static str,
    flag_help: &'static str,
    second: &'static str,
    second_help: &'static str,
    arguments: &Vec<String>,
) -> (found: Result<Found, (i32, String)>)
    requires
        own_name(first@) && own_name(value@) && own_name(flag@) && own_name(second@),
        first@ != second@,
        value@ != flag@,
    ensures
        match found {
            Ok(found) => found_arguments(first@, value@, flag@, second@, texts_view(arguments@))
                == Some(found_view(found)),
            Err(_) => found_arguments(first@, value@, flag@, second@, texts_view(arguments@)) is None,
        },
        match plain_line(first@, flag@, second@, texts_view(arguments@)) {
            Some(view) => found matches Ok(found) && found_view(found) == view,
            None => true,
        },
{
    let flag_arg = Arg::new(flag).long(flag).help(flag_help).action(ArgAction::SetTrue);
    let mut matches = Program::new(program)
        .version(version)
        .subcommand(
            Program::new(first).about(first_help).arg(Arg::new(value).help(value_help)).arg(flag_arg),
        )
        .subcommand(Program::new(second).about(second_help))
        .try_get_matches_from(arguments)
        .map_err(|e| (e.exit_code(), e.to_string()))?;
    let Some((name, mut rest)) = matches.remove_subcommand() else { return Ok(None) };
    let value = rest.try_remove_one(value).ok().flatten();
    Ok(Some((name, value, rest.try_remove_one(flag).ok().flatten())))
}

/// The command that was found on a command line: the server, or else a session.
pub open spec fn command_found(found: FoundView) -> Option<(bool, Option<Seq<char>>, bool)> {
    match found {
        None => None,
        Some((name, value, flag)) => if name == "mcp"@ {
            Some((false, None, false))
        } else {
            Some((true, value, flag == Some(true)))
        },
    }
}

/// A command: whether it starts a session, and if so under which identifier and whether it allows
/// every call.
pub open spec fn command_view(command: Option<Command>) -> Option<(bool, Option<Seq<char>>, bool)> {
    match command {
        None => None,
        Some(Command::Start { session_id, yolo }) => Some((true, optional_view(session_id), yolo)),
        Some(Command::Mcp) => Some((false, None, false)),
    }
}

/// The command that was found on a command line.
pub fn command_of(found: Found) -> (cli: Cli)
    ensures
        command_view(cli.command) == command_found(found_view(found)),
{
    match found {
        None => Cli { command: None },
        Some((name, value, flag)) => if same_text(name.as_str(), "mcp") {
            Cli { command: Some(Command::Mcp) }
        } else {
            let yolo: bool = match flag {
                Some(flag) => flag,
                None => false,
            };
            Cli { command: Some(Command::Start { session_id: value, yolo }) }
        },
    }
}

impl Cli {
    /// Reads a command line, the name of the program first.
    pub fn try_parse_from(arguments: &Vec<String>) -> (result: Result<Cli, Refusal>)
        ensures
            match found_arguments(
                "start"@,
                "session_id"@,
                "yolo"@,
                "mcp"@,
                texts_view(arguments@),
            ) {
                Some(found) => result matches Ok(cli) && command_view(cli.command) == command_found(
                    found,
                ),
                None => result is Err,
            },
            match plain_line("start"@, "yolo"@, "mcp"@, texts_view(arguments@)) {
                Some(found) => result matches Ok(cli) && command_view(cli.command) == command_found(
                    found,
                ),
                None => true,
            },
    {
        proof {
            reveal_strlit("start");
            reveal_strlit("mcp");
            reveal_strlit("session_id");
            reveal_strlit("yolo");
            reveal_strlit("help");
            reveal_strlit("version");
            assert("start"@.len() == 5 && "mcp"@.len() == 3 && "session_id"@.len() == 10);
            assert("yolo"@[0] == 'y' && "help"@[0] == 'h' && "help"@.len() == 4 && "yolo"@.len() == 4);
            assert("start"@[0] == 's' && "mcp"@[0] == 'm' && "version"@.len() == 7);
        }
        let found: Result<Found, (i32, String)> = find_arguments(
            "local-mcp",
            "0.1.0",
            "start",
            "Start a session in the current directory and show its permission UI",
            "session_id",
            "Session ID to use instead of generating a UUID",
            "yolo",
            "Allow every unsandboxed call from startup without prompting",
            "mcp",
            "Run the session-independent MCP server over stdin/stdout",
            arguments,
        );
        match found {
            Ok(found) => Ok(command_of(found)),
            Err((exit_code, message)) => Err(Refusal { message, exit_code }),
        }
    }

    /// What the program does: what it is asked to do, and to start a session where it is asked for
    /// nothing.
    pub fn chosen(self) -> (command: Command)
        ensures
            match self.command {
                Some(command_given) => command == command_given,
                None => command_view(Some(command)) == Some((true, None::<Seq<char>>, false)),
            },
    {
        match self.command {
            Some(command) => command,
            None => Command::Start { session_id: None, yolo: false },
        }
    }
}

/// A command line that asks for the server starts no session; any other command starts one, under the
/// identifier that was given, and allows every call only where that was asked for.
pub proof fn law_sessions_start_as_asked(name: Seq<char>, value: Option<Seq<char>>, flag: Option<bool>)
    ensures
        command_found(None) is None,
        command_found(Some(("mcp"@, value, flag))) == Some((false, None::<Seq<char>>, false)),
        name != "mcp"@ ==> (command_found(Some((name, value, flag))) matches Some((starts, id, yolo))
            && starts && id == value && (yolo <==> flag == Some(true))),
{
}

} // verus!
