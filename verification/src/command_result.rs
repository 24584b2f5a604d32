//! The answer to a command, as data and as text.
use vstd::prelude::*;

use crate::job_id::{uuid_text, JobId};
use crate::json::{
    distinct_keys, filled, items_view, lemma_filled_member, lemma_json_array, lemma_member_with, member, ordered,
    pairs_view, quoted, Json, JsonView,
};
use crate::json_size::{brief, brief_text, lemma_word_size};
use crate::sandbox::{StopTrigger, Termination};
use crate::text::{
    bounded_text, byte_len, contains_text, decimal, optional_str_view, optional_view, same_text,
    shortened, signed_decimal_text, text_contains,
};

verus! {

pub const COMMAND_RESULT_SCHEMA_VERSION: u32 = 1;

/// The bytes that the sentence of an answer without output takes at most in a JSON string.
pub const MAX_REASON_BYTES: usize = 512;

#[derive(Clone, Copy, Debug, PartialEq, Eq, Structural)]
pub enum CommandStatus {
    Running,
    Completed,
    Failed,
    Stopped,
}

#[derive(Clone, Copy, Debug, PartialEq, Eq, Structural)]
pub enum CommandErrorKind {
    ProcessExit,
    SpawnError,
    Cancellation,
    ApprovalDenied,
    InvalidArguments,
    Internal,
}

impl CommandStatus {
    /// The word for this status.
    pub open spec fn word(self) -> Seq<char> {
        match self {
            CommandStatus::Running => "running"@,
            CommandStatus::Completed => "completed"@,
            CommandStatus::Failed => "failed"@,
            CommandStatus::Stopped => "stopped"@,
        }
    }

    /// The word for this status.
    pub fn as_str(self) -> (word: &'static str)
        ensures
            word@ == self.word(),
    {
        match self {
            CommandStatus::Running => "running",
            CommandStatus::Completed => "completed",
            CommandStatus::Failed => "failed",
            CommandStatus::Stopped => "stopped",
        }
    }
}

impl CommandErrorKind {
    /// The word for this kind of error.
    pub open spec fn word(self) -> Seq<char> {
        match self {
            CommandErrorKind::ProcessExit => "process_exit"@,
            CommandErrorKind::SpawnError => "spawn_error"@,
            CommandErrorKind::Cancellation => "cancellation"@,
            CommandErrorKind::ApprovalDenied => "approval_denied"@,
            CommandErrorKind::InvalidArguments => "invalid_arguments"@,
            CommandErrorKind::Internal => "internal"@,
        }
    }

    /// The word for this kind of error.
    pub fn as_str(self) -> (word: &'static str)
        ensures
            word@ == self.word(),
    {
        match self {
            CommandErrorKind::ProcessExit => "process_exit",
            CommandErrorKind::SpawnError => "spawn_error",
            CommandErrorKind::Cancellation => "cancellation",
            CommandErrorKind::ApprovalDenied => "approval_denied",
            CommandErrorKind::InvalidArguments => "invalid_arguments",
            CommandErrorKind::Internal => "internal",
        }
    }
}

/// What is known of a command that was run to its end.
#[derive(Clone, Debug)]
pub struct BoundedCommandOutput {
    pub job_id: JobId,
    pub exit_code: i32,
    pub termination: String,
    pub termination_trigger: Option<String>,
    pub stdout_bytes: u64,
    pub stderr_bytes: u64,
    pub stdout_truncated: bool,
    pub stderr_truncated: bool,
    pub stdout_head: String,
    pub stdout_tail: String,
    pub stderr_head: String,
    pub stderr_tail: String,
    pub stdout_resource: String,
    pub stderr_resource: String,
    pub read_tool: String,
}

/// The answer to a command.
#[derive(Clone, Debug, PartialEq, Eq)]
pub struct CommandOutcome {
    pub schema_version: u32,
    pub ok: bool,
    pub status: CommandStatus,
    pub error_kind: Option<CommandErrorKind>,
    pub exit_code: Option<i32>,
    pub retryable: bool,
    pub job_id: Option<String>,
    pub message: String,
    pub termination: Option<String>,
    pub termination_trigger: Option<String>,
    pub stdout_bytes: u64,
    pub stderr_bytes: u64,
    pub stdout_truncated: bool,
    pub stderr_truncated: bool,
    pub stdout_head: String,
    pub stdout_tail: String,
    pub stderr_head: String,
    pub stderr_tail: String,
    pub stdout_resource: Option<String>,
    pub stderr_resource: Option<String>,
    pub read_tool: Option<String>,
}

/// What an answer says.
#[verifier::ext_equal]
pub struct OutcomeView {
    pub schema_version: u32,
    pub ok: bool,
    pub status: CommandStatus,
    pub error_kind: Option<CommandErrorKind>,
    pub exit_code: Option<i32>,
    pub retryable: bool,
    pub job_id: Option<Seq<char>>,
    pub message: Seq<char>,
    pub termination: Option<Seq<char>>,
    pub termination_trigger: Option<Seq<char>>,
    pub stdout_bytes: u64,
    pub stderr_bytes: u64,
    pub stdout_truncated: bool,
    pub stderr_truncated: bool,
    pub stdout_head: Seq<char>,
    pub stdout_tail: Seq<char>,
    pub stderr_head: Seq<char>,
    pub stderr_tail: Seq<char>,
    pub stdout_resource: Option<Seq<char>>,
    pub stderr_resource: Option<Seq<char>>,
    pub read_tool: Option<Seq<char>>,
}

impl View for CommandOutcome {
    type V = OutcomeView;

    open spec fn view(&self) -> OutcomeView {
        OutcomeView {
            schema_version: self.schema_version,
            ok: self.ok,
            status: self.status,
            error_kind: self.error_kind,
            exit_code: self.exit_code,
            retryable: self.retryable,
            job_id: optional_view(self.job_id),
            message: self.message@,
            termination: optional_view(self.termination),
            termination_trigger: optional_view(self.termination_trigger),
            stdout_bytes: self.stdout_bytes,
            stderr_bytes: self.stderr_bytes,
            stdout_truncated: self.stdout_truncated,
            stderr_truncated: self.stderr_truncated,
            stdout_head: self.stdout_head@,
            stdout_tail: self.stdout_tail@,
            stderr_head: self.stderr_head@,
            stderr_tail: self.stderr_tail@,
            stdout_resource: optional_view(self.stdout_resource),
            stderr_resource: optional_view(self.stderr_resource),
            read_tool: optional_view(self.read_tool),
        }
    }
}

/// How the end of a command is classed: whether it is a success, its status, the kind of error,
/// whether to try again, and a sentence about it.
pub open spec fn class_of(
    exit_code: i32,
    termination: Seq<char>,
    trigger: Option<Seq<char>>,
) -> (bool, CommandStatus, Option<CommandErrorKind>, bool, Seq<char>) {
    if termination == "exited"@ {
        if exit_code == 0 {
            (true, CommandStatus::Completed, None, false, "Command completed successfully."@)
        } else {
            (
                false,
                CommandStatus::Failed,
                Some(CommandErrorKind::ProcessExit),
                false,
                "Command exited with status "@ + decimal(exit_code as int) + "."@,
            )
        }
    } else {
        (
            false,
            CommandStatus::Stopped,
            Some(CommandErrorKind::Cancellation),
            true,
            if termination == "stopped"@ {
                "Command was stopped by request."@
            } else if termination == "timeout"@ {
                "Command exceeded its execution deadline."@
            } else if termination == "cancelled"@ {
                "Command was cancelled."@
            } else if termination == "forced_kill"@ {
                match trigger {
                    Some(trigger) => "Command process tree was force-killed after "@ + trigger
                        + "."@,
                    None => "Command process tree was force-killed."@,
                }
            } else {
                "Command ended with lifecycle state "@ + termination + "."@
            },
        )
    }
}

/// Classes the end of a command.
pub fn classify_termination(exit_code: i32, termination: &str, trigger: Option<&str>) -> (class: (
    bool,
    CommandStatus,
    Option<CommandErrorKind>,
    bool,
    String,
))
    ensures
        (class.0, class.1, class.2, class.3, class.4@) == class_of(
            exit_code,
            termination@,
            optional_str_view(trigger),
        ),
{
    if same_text(termination, "exited") {
        if exit_code == 0 {
            return (
                true,
                CommandStatus::Completed,
                None,
                false,
                "Command completed successfully.".to_owned(),
            );
        }
        let mut message: String = "Command exited with status ".to_owned();
        message.append(signed_decimal_text(exit_code as i128).as_str());
        message.append(".");
        return (
            false,
            CommandStatus::Failed,
            Some(CommandErrorKind::ProcessExit),
            false,
            message,
        );
    }
    let message: String = if same_text(termination, "stopped") {
        "Command was stopped by request.".to_owned()
    } else if same_text(termination, "timeout") {
        "Command exceeded its execution deadline.".to_owned()
    } else if same_text(termination, "cancelled") {
        "Command was cancelled.".to_owned()
    } else if same_text(termination, "forced_kill") {
        match trigger {
            Some(trigger) => {
                let mut message: String = "Command process tree was force-killed after ".to_owned();
                message.append(trigger);
                message.append(".");
                message
            },
            None => "Command process tree was force-killed.".to_owned(),
        }
    } else {
        let mut message: String = "Command ended with lifecycle state ".to_owned();
        message.append(termination);
        message.append(".");
        message
    };
    (false, CommandStatus::Stopped, Some(CommandErrorKind::Cancellation), true, message)
}

/// The text of an answer so far, with what is shown of a stream behind it.
pub open spec fn with_preview(
    text: Seq<char>,
    name: Seq<char>,
    head: Seq<char>,
    tail: Seq<char>,
    truncated: bool,
) -> Seq<char> {
    if head.len() == 0 && tail.len() == 0 {
        text
    } else {
        let shown = text + "\n"@ + name + ":\n"@ + head;
        if truncated {
            shown + "\n... output truncated; use read_job_log ...\n"@ + tail
        } else {
            shown
        }
    }
}

/// Puts what is shown of a stream behind a text.
pub fn append_stream_preview(target: &mut String, name: &str, head: &str, tail: &str, truncated: bool)
    ensures
        final(target)@ == with_preview(old(target)@, name@, head@, tail@, truncated),
{
    if head.is_empty() && tail.is_empty() {
        return;
    }
    target.append("\n");
    target.append(name);
    target.append(":\n");
    target.append(head);
    if truncated {
        target.append("\n... output truncated; use read_job_log ...\n");
        target.append(tail);
    }
}

impl OutcomeView {
    /// An answer with no output.
    pub open spec fn empty(
        ok: bool,
        status: CommandStatus,
        error_kind: Option<CommandErrorKind>,
        exit_code: Option<i32>,
        retryable: bool,
        job_id: Option<Seq<char>>,
        message: Seq<char>,
    ) -> OutcomeView {
        OutcomeView {
            schema_version: COMMAND_RESULT_SCHEMA_VERSION,
            ok,
            status,
            error_kind,
            exit_code,
            retryable,
            job_id,
            message,
            termination: None,
            termination_trigger: None,
            stdout_bytes: 0,
            stderr_bytes: 0,
            stdout_truncated: false,
            stderr_truncated: false,
            stdout_head: Seq::empty(),
            stdout_tail: Seq::empty(),
            stderr_head: Seq::empty(),
            stderr_tail: Seq::empty(),
            stdout_resource: None,
            stderr_resource: None,
            read_tool: None,
        }
    }

    /// The answer that a command failed before it ran.
    pub open spec fn failure(kind: CommandErrorKind, retryable: bool, message: Seq<char>) -> OutcomeView {
        OutcomeView::empty(
            false,
            CommandStatus::Failed,
            Some(kind),
            None,
            retryable,
            None,
            message,
        )
    }

    /// The answer that a command was ended, with a word for how.
    pub open spec fn ended(
        job_id: Option<Seq<char>>,
        retryable: bool,
        message: Seq<char>,
        termination: Seq<char>,
    ) -> OutcomeView {
        OutcomeView {
            termination: Some(termination),
            ..OutcomeView::empty(
                false,
                CommandStatus::Stopped,
                Some(CommandErrorKind::Cancellation),
                None,
                retryable,
                job_id,
                message,
            )
        }
    }

    /// The answer that a command runs.
    pub open spec fn runs(job: u128) -> OutcomeView {
        OutcomeView::empty(
            true,
            CommandStatus::Running,
            None,
            None,
            false,
            Some(uuid_text(job)),
            "Command is running as job "@ + uuid_text(job) + "."@,
        )
    }

    /// The answer that a command could not be started.
    pub open spec fn not_started(message: Seq<char>) -> OutcomeView {
        OutcomeView::failure(
            CommandErrorKind::SpawnError,
            true,
            "Command could not be started: "@ + message,
        )
    }

    /// The answer that a command was not approved.
    pub open spec fn denied(message: Seq<char>) -> OutcomeView {
        OutcomeView::failure(CommandErrorKind::ApprovalDenied, false, message)
    }

    /// The answer that the arguments of a command are wrong.
    pub open spec fn refused(message: Seq<char>) -> OutcomeView {
        OutcomeView::failure(CommandErrorKind::InvalidArguments, false, message)
    }

    /// The answer that the server failed.
    pub open spec fn broken(message: Seq<char>) -> OutcomeView {
        OutcomeView::failure(CommandErrorKind::Internal, true, message)
    }

    /// The answer that a command was cancelled.
    pub open spec fn cancelled(job: Option<u128>, message: Seq<char>) -> OutcomeView {
        OutcomeView::ended(
            match job {
                Some(job) => Some(uuid_text(job)),
                None => None,
            },
            true,
            message,
            "cancelled"@,
        )
    }

    /// The answer that the server that ran a command is gone.
    pub open spec fn lost(job: u128, message: Seq<char>) -> OutcomeView {
        OutcomeView::ended(Some(uuid_text(job)), false, message, "orphaned"@)
    }

    /// Whether an answer is about a command without output, which was not run or whose server is gone.
    pub open spec fn without_streams(self) -> bool {
        &&& self.schema_version == COMMAND_RESULT_SCHEMA_VERSION
        &&& self.exit_code is None
        &&& self.job_id matches Some(job) ==> exists|bits: u128| job == #[trigger] uuid_text(bits)
        &&& self.termination is None || self.termination == Some("cancelled"@) || self.termination
            == Some("orphaned"@)
        &&& self.termination_trigger is None
        &&& self.stdout_bytes == 0 && self.stderr_bytes == 0
        &&& self.stdout_head.len() == 0 && self.stdout_tail.len() == 0
        &&& self.stderr_head.len() == 0 && self.stderr_tail.len() == 0
        &&& self.stdout_resource is None && self.stderr_resource is None && self.read_tool is None
    }

    /// An answer with a sentence that leaves room for the rest.
    pub open spec fn brief(self) -> OutcomeView {
        OutcomeView { message: brief(self.message, MAX_REASON_BYTES as int), ..self }
    }

    /// The answer about a command that was run to its end.
    pub open spec fn of_output(output: BoundedCommandOutput) -> OutcomeView {
        let class = class_of(
            output.exit_code,
            output.termination@,
            optional_view(output.termination_trigger),
        );
        OutcomeView {
            schema_version: COMMAND_RESULT_SCHEMA_VERSION,
            ok: class.0,
            status: class.1,
            error_kind: class.2,
            exit_code: Some(output.exit_code),
            retryable: class.3,
            job_id: Some(uuid_text(output.job_id.bits)),
            message: class.4,
            termination: Some(output.termination@),
            termination_trigger: optional_view(output.termination_trigger),
            stdout_bytes: output.stdout_bytes,
            stderr_bytes: output.stderr_bytes,
            stdout_truncated: output.stdout_truncated,
            stderr_truncated: output.stderr_truncated,
            stdout_head: output.stdout_head@,
            stdout_tail: output.stdout_tail@,
            stderr_head: output.stderr_head@,
            stderr_tail: output.stderr_tail@,
            stdout_resource: Some(output.stdout_resource@),
            stderr_resource: Some(output.stderr_resource@),
            read_tool: Some(output.read_tool@),
        }
    }

    /// An answer as the result of a tool: its text, itself, and whether it is an error.
    pub open spec fn answer(self) -> JsonView {
        JsonView::object()
            .with(
                "content"@,
                JsonView::list().item(
                    JsonView::object()
                        .with("type"@, JsonView::Text("text"@))
                        .with("text"@, JsonView::Text(self.readable())),
                ),
            )
            .with("structuredContent"@, self.json())
            .with("isError"@, JsonView::Bool(!self.ok))
    }

    /// Whether success, status and kind of error agree.
    pub open spec fn consistent(self) -> bool {
        &&& self.schema_version == COMMAND_RESULT_SCHEMA_VERSION
        &&& self.ok <==> self.error_kind is None
        &&& self.ok <==> (self.status is Running || self.status is Completed)
        &&& self.error_kind == Some(CommandErrorKind::Cancellation) <==> self.status is Stopped
    }

    /// What the text of an answer says before it shows the streams.
    pub open spec fn sentences(self) -> Seq<char> {
        let with_code = match self.exit_code {
            Some(code) => self.message + " Exit code: "@ + decimal(code as int) + "."@,
            None => self.message,
        };
        let with_job = match self.job_id {
            Some(job) => if contains_text(with_code, job) {
                with_code
            } else {
                with_code + " Job: "@ + job + "."@
            },
            None => with_code,
        };
        match self.termination {
            Some(termination) => with_job + " Termination: "@ + termination + "."@,
            None => with_job,
        }
    }

    /// The text of an answer for a reader.
    pub open spec fn readable(self) -> Seq<char> {
        with_preview(
            with_preview(
                self.sentences(),
                "stdout"@,
                self.stdout_head,
                self.stdout_tail,
                self.stdout_truncated,
            ),
            "stderr"@,
            self.stderr_head,
            self.stderr_tail,
            self.stderr_truncated,
        )
    }

    /// The kind of error in an answer.
    pub open spec fn error_kind_json(self) -> JsonView {
        match self.error_kind {
            Some(kind) => JsonView::Text(kind.word()),
            None => JsonView::Null,
        }
    }

    /// The exit code in an answer.
    pub open spec fn exit_code_json(self) -> JsonView {
        match self.exit_code {
            Some(code) => JsonView::Int(code as int),
            None => JsonView::Null,
        }
    }

    /// What an answer has as data: names and values.
    pub open spec fn entries(self) -> Seq<(Seq<char>, JsonView)> {
        seq![
            ("schema_version"@, JsonView::Int(self.schema_version as int)),
            ("ok"@, JsonView::Bool(self.ok)),
            ("status"@, JsonView::Text(self.status.word())),
            ("error_kind"@, self.error_kind_json()),
            ("exit_code"@, self.exit_code_json()),
            ("retryable"@, JsonView::Bool(self.retryable)),
            ("job_id"@, JsonView::optional_text(self.job_id)),
            ("message"@, JsonView::Text(self.message)),
            ("termination"@, JsonView::optional_text(self.termination)),
            ("termination_trigger"@, JsonView::optional_text(self.termination_trigger)),
            ("stdout_bytes"@, JsonView::Int(self.stdout_bytes as int)),
            ("stderr_bytes"@, JsonView::Int(self.stderr_bytes as int)),
            ("stdout_truncated"@, JsonView::Bool(self.stdout_truncated)),
            ("stderr_truncated"@, JsonView::Bool(self.stderr_truncated)),
            ("stdout_head"@, JsonView::Text(self.stdout_head)),
            ("stdout_tail"@, JsonView::Text(self.stdout_tail)),
            ("stderr_head"@, JsonView::Text(self.stderr_head)),
            ("stderr_tail"@, JsonView::Text(self.stderr_tail)),
            ("stdout_resource"@, JsonView::optional_text(self.stdout_resource)),
            ("stderr_resource"@, JsonView::optional_text(self.stderr_resource)),
            ("read_tool"@, JsonView::optional_text(self.read_tool)),
        ]
    }

    /// An answer as a JSON object.
    pub open spec fn json(self) -> JsonView {
        filled(self.entries())
    }
}

impl CommandOutcome {
    /// The answer that a command is running.
    pub fn running(job_id: JobId) -> (outcome: CommandOutcome)
        ensures
            outcome@ == OutcomeView::runs(job_id.bits),
            outcome@.consistent(),
    {
        let mut message: String = "Command is running as job ".to_owned();
        message.append(job_id.to_text().as_str());
        message.append(".");
        Self::empty(true, CommandStatus::Running, None, None, false, Some(job_id), message)
    }

    /// This answer with a sentence that leaves room for the rest.
    pub fn brief(self) -> (outcome: CommandOutcome)
        ensures
            outcome@ == self@.brief(),
            self@.consistent() ==> outcome@.consistent(),
    {
        let mut outcome: CommandOutcome = self;
        outcome.message = brief_text(outcome.message.as_str(), MAX_REASON_BYTES);
        outcome
    }

    /// The answer about a command that was run to its end.
    pub fn from_bounded_output(output: BoundedCommandOutput) -> (outcome: CommandOutcome)
        ensures
            outcome@ == OutcomeView::of_output(output),
            outcome@.consistent(),
    {
        let trigger: Option<&str> = match &output.termination_trigger {
            Some(trigger) => Some(trigger.as_str()),
            None => None,
        };
        let (ok, status, error_kind, retryable, message): (
            bool,
            CommandStatus,
            Option<CommandErrorKind>,
            bool,
            String,
        ) = classify_termination(output.exit_code, output.termination.as_str(), trigger);
        CommandOutcome {
            schema_version: COMMAND_RESULT_SCHEMA_VERSION,
            ok,
            status,
            error_kind,
            exit_code: Some(output.exit_code),
            retryable,
            job_id: Some(output.job_id.to_text()),
            message,
            termination: Some(output.termination),
            termination_trigger: output.termination_trigger,
            stdout_bytes: output.stdout_bytes,
            stderr_bytes: output.stderr_bytes,
            stdout_truncated: output.stdout_truncated,
            stderr_truncated: output.stderr_truncated,
            stdout_head: output.stdout_head,
            stdout_tail: output.stdout_tail,
            stderr_head: output.stderr_head,
            stderr_tail: output.stderr_tail,
            stdout_resource: Some(output.stdout_resource),
            stderr_resource: Some(output.stderr_resource),
            read_tool: Some(output.read_tool),
        }
    }

    /// The answer that a command could not be started.
    pub fn spawn_error(message: &str) -> (outcome: CommandOutcome)
        ensures
            outcome@ == OutcomeView::not_started(message@),
            outcome@.consistent(),
    {
        let mut text: String = "Command could not be started: ".to_owned();
        text.append(message);
        Self::failure(CommandErrorKind::SpawnError, true, text)
    }

    /// The answer that a command was cancelled.
    pub fn cancellation(job_id: Option<JobId>, message: &str) -> (outcome: CommandOutcome)
        ensures
            outcome@ == OutcomeView::cancelled(
                match job_id {
                    Some(job_id) => Some(job_id.bits),
                    None => None,
                },
                message@,
            ),
            outcome@.consistent(),
    {
        let mut outcome: CommandOutcome = Self::empty(
            false,
            CommandStatus::Stopped,
            Some(CommandErrorKind::Cancellation),
            None,
            true,
            job_id,
            message.to_owned(),
        );
        outcome.termination = Some("cancelled".to_owned());
        outcome
    }

    /// The answer that the server that ran a command is gone.
    pub fn orphaned(job_id: JobId, message: &str) -> (outcome: CommandOutcome)
        ensures
            outcome@ == OutcomeView::lost(job_id.bits, message@),
            outcome@.consistent(),
    {
        let mut outcome: CommandOutcome = Self::empty(
            false,
            CommandStatus::Stopped,
            Some(CommandErrorKind::Cancellation),
            None,
            false,
            Some(job_id),
            message.to_owned(),
        );
        outcome.termination = Some("orphaned".to_owned());
        outcome
    }

    /// The answer that a command was not approved.
    pub fn approval_denied(message: &str) -> (outcome: CommandOutcome)
        ensures
            outcome@ == OutcomeView::denied(message@),
            outcome@.consistent(),
    {
        Self::failure(CommandErrorKind::ApprovalDenied, false, message.to_owned())
    }

    /// The answer that the arguments of a command are wrong.
    pub fn invalid_arguments(message: &str) -> (outcome: CommandOutcome)
        ensures
            outcome@ == OutcomeView::refused(message@),
            outcome@.consistent(),
    {
        Self::failure(CommandErrorKind::InvalidArguments, false, message.to_owned())
    }

    /// The answer that the server failed.
    pub fn internal(message: &str) -> (outcome: CommandOutcome)
        ensures
            outcome@ == OutcomeView::broken(message@),
            outcome@.consistent(),
    {
        Self::failure(CommandErrorKind::Internal, true, message.to_owned())
    }

    /// This answer with the identifier of a job.
    pub fn with_job_id(self, job_id: JobId) -> (outcome: CommandOutcome)
        ensures
            outcome@ == (OutcomeView { job_id: Some(uuid_text(job_id.bits)), ..self@ }),
    {
        let mut outcome: CommandOutcome = self;
        outcome.job_id = Some(job_id.to_text());
        outcome
    }

    /// The text of this answer for a reader.
    pub fn fallback_text(&self) -> (text: String)
        ensures
            text@ == self@.readable(),
    {
        let mut text: String = self.message.clone();
        if let Some(exit_code) = self.exit_code {
            text.append(" Exit code: ");
            text.append(signed_decimal_text(exit_code as i128).as_str());
            text.append(".");
        }
        if let Some(job_id) = &self.job_id {
            if !text_contains(text.as_str(), job_id.as_str()) {
                text.append(" Job: ");
                text.append(job_id.as_str());
                text.append(".");
            }
        }
        if let Some(termination) = &self.termination {
            text.append(" Termination: ");
            text.append(termination.as_str());
            text.append(".");
        }
        append_stream_preview(
            &mut text,
            "stdout",
            self.stdout_head.as_str(),
            self.stdout_tail.as_str(),
            self.stdout_truncated,
        );
        append_stream_preview(
            &mut text,
            "stderr",
            self.stderr_head.as_str(),
            self.stderr_tail.as_str(),
            self.stderr_truncated,
        );
        text
    }

    /// The text of this answer for a log, within a limit; nothing where there is no text.
    pub fn activity_summary(&self, max_bytes: usize) -> (summary: Option<String>)
        ensures
            optional_view(summary) == if self@.readable().len() == 0 {
                None
            } else {
                Some(shortened(self@.readable(), max_bytes as int))
            },
    {
        let text: String = self.fallback_text();
        if text.as_str().is_empty() {
            None
        } else {
            Some(bounded_text(text.as_str(), max_bytes))
        }
    }

    /// This answer as a JSON object.
    pub fn to_json(&self) -> (json: Json)
        ensures
            json@ == self@.json(),
            ordered(json@),
    {
        let error_kind: Json = match self.error_kind {
            Some(kind) => Json::text(kind.as_str()),
            None => Json::Null,
        };
        let exit_code: Json = match self.exit_code {
            Some(code) => Json::Signed(code as i64),
            None => Json::Null,
        };
        let pairs: Vec<(&'static str, Json)> = vec![
            ("schema_version", Json::Unsigned(self.schema_version as u64)),
            ("ok", Json::Bool(self.ok)),
            ("status", Json::text(self.status.as_str())),
            ("error_kind", error_kind),
            ("exit_code", exit_code),
            ("retryable", Json::Bool(self.retryable)),
            ("job_id", Json::optional_text(&self.job_id)),
            ("message", Json::text(self.message.as_str())),
            ("termination", Json::optional_text(&self.termination)),
            ("termination_trigger", Json::optional_text(&self.termination_trigger)),
            ("stdout_bytes", Json::Unsigned(self.stdout_bytes)),
            ("stderr_bytes", Json::Unsigned(self.stderr_bytes)),
            ("stdout_truncated", Json::Bool(self.stdout_truncated)),
            ("stderr_truncated", Json::Bool(self.stderr_truncated)),
            ("stdout_head", Json::text(self.stdout_head.as_str())),
            ("stdout_tail", Json::text(self.stdout_tail.as_str())),
            ("stderr_head", Json::text(self.stderr_head.as_str())),
            ("stderr_tail", Json::text(self.stderr_tail.as_str())),
            ("stdout_resource", Json::optional_text(&self.stdout_resource)),
            ("stderr_resource", Json::optional_text(&self.stderr_resource)),
            ("read_tool", Json::optional_text(&self.read_tool)),
        ];
        proof {
            assert(pairs_view(pairs@) =~= self@.entries());
        }
        Json::filled(pairs)
    }

    /// This answer as the result of a tool.
    pub fn tool_result(&self) -> (json: Json)
        ensures
            json@ == self@.answer(),
            ordered(json@),
    {
        Json::object()
            .with("content", Json::list().item(
                Json::object()
                    .with("type", Json::text("text"))
                    .with("text", Json::Text(self.fallback_text())),
            ))
            .with("structuredContent", self.to_json())
            .with("isError", Json::Bool(!self.ok))
    }

    fn failure(kind: CommandErrorKind, retryable: bool, message: String) -> (outcome: CommandOutcome)
        ensures
            outcome@ == OutcomeView::failure(kind, retryable, message@),
    {
        Self::empty(
            false,
            CommandStatus::Failed,
            Some(kind),
            None,
            retryable,
            None,
            message,
        )
    }

    fn empty(
        ok: bool,
        status: CommandStatus,
        error_kind: Option<CommandErrorKind>,
        exit_code: Option<i32>,
        retryable: bool,
        job_id: Option<JobId>,
        message: String,
    ) -> (outcome: CommandOutcome)
        ensures
            outcome@ == OutcomeView::empty(
                ok,
                status,
                error_kind,
                exit_code,
                retryable,
                match job_id {
                    Some(job_id) => Some(uuid_text(job_id.bits)),
                    None => None,
                },
                message@,
            ),
    {
        CommandOutcome {
            schema_version: COMMAND_RESULT_SCHEMA_VERSION,
            ok,
            status,
            error_kind,
            exit_code,
            retryable,
            job_id: match job_id {
                Some(job_id) => Some(job_id.to_text()),
                None => None,
            },
            message,
            termination: None,
            termination_trigger: None,
            stdout_bytes: 0,
            stderr_bytes: 0,
            stdout_truncated: false,
            stderr_truncated: false,
            stdout_head: String::new(),
            stdout_tail: String::new(),
            stderr_head: String::new(),
            stderr_tail: String::new(),
            stdout_resource: None,
            stderr_resource: None,
            read_tool: None,
        }
    }
}

/// The schema of a value of one type.
pub open spec fn typed_view(name: Seq<char>) -> JsonView {
    JsonView::object().with("type"@, JsonView::Text(name))
}

/// The schema of a word out of a list, or null.
pub open spec fn nullable_enum_view(words: JsonView) -> JsonView {
    JsonView::object().with("oneOf"@, JsonView::list().item(typed_view("null"@)).item(
        JsonView::object().with("type"@, JsonView::Text("string"@)).with("enum"@, words),
    ))
}

/// The schema of a text, or null.
pub open spec fn nullable_string_view() -> JsonView {
    JsonView::object().with("oneOf"@, JsonView::list().item(typed_view("string"@)).item(
        typed_view("null"@),
    ))
}

/// The schema of one word out of a list.
pub open spec fn enum_view(words: JsonView) -> JsonView {
    JsonView::object().with("type"@, JsonView::Text("string"@)).with("enum"@, words)
}

/// The schema of the version of an answer.
pub open spec fn version_view() -> JsonView {
    JsonView::object().with("type"@, JsonView::Text("integer"@)).with(
        "const"@,
        JsonView::Int(COMMAND_RESULT_SCHEMA_VERSION as int),
    )
}

/// The schema of an exit code.
pub open spec fn exit_code_view() -> JsonView {
    JsonView::object().with(
        "oneOf"@,
        JsonView::list().item(typed_view("integer"@)).item(typed_view("null"@)),
    )
}

/// The schema of the identifier of a job.
pub open spec fn job_id_view() -> JsonView {
    JsonView::object().with(
        "oneOf"@,
        JsonView::list().item(
            JsonView::object()
                .with("type"@, JsonView::Text("string"@))
                .with("format"@, JsonView::Text("uuid"@)),
        ).item(typed_view("null"@)),
    )
}

/// The schema of a number of bytes.
pub open spec fn count_view() -> JsonView {
    JsonView::object().with("type"@, JsonView::Text("integer"@)).with(
        "minimum"@,
        JsonView::Int(0),
    )
}

/// The words that a status may be.
pub open spec fn status_words() -> JsonView {
    JsonView::list()
        .item(JsonView::Text("running"@))
        .item(JsonView::Text("completed"@))
        .item(JsonView::Text("failed"@))
        .item(JsonView::Text("stopped"@))
}

/// The words that a kind of error may be.
pub open spec fn error_kind_words() -> JsonView {
    JsonView::list()
        .item(JsonView::Text("process_exit"@))
        .item(JsonView::Text("spawn_error"@))
        .item(JsonView::Text("cancellation"@))
        .item(JsonView::Text("approval_denied"@))
        .item(JsonView::Text("invalid_arguments"@))
        .item(JsonView::Text("internal"@))
}

/// The words that an end may be.
pub open spec fn termination_words() -> JsonView {
    JsonView::list()
        .item(JsonView::Text("exited"@))
        .item(JsonView::Text("stopped"@))
        .item(JsonView::Text("timeout"@))
        .item(JsonView::Text("cancelled"@))
        .item(JsonView::Text("forced_kill"@))
        .item(JsonView::Text("orphaned"@))
}

/// The words that the cause of an end may be.
pub open spec fn trigger_words() -> JsonView {
    JsonView::list()
        .item(JsonView::Text("stop"@))
        .item(JsonView::Text("timeout"@))
        .item(JsonView::Text("cancellation"@))
        .item(JsonView::Text("completion"@))
}

/// The names of the properties of an answer.
pub open spec fn property_names() -> Seq<Seq<char>> {
    seq![
        "schema_version"@,
        "ok"@,
        "status"@,
        "error_kind"@,
        "exit_code"@,
        "retryable"@,
        "job_id"@,
        "message"@,
        "termination"@,
        "termination_trigger"@,
        "stdout_bytes"@,
        "stderr_bytes"@,
        "stdout_truncated"@,
        "stderr_truncated"@,
        "stdout_head"@,
        "stdout_tail"@,
        "stderr_head"@,
        "stderr_tail"@,
        "stdout_resource"@,
        "stderr_resource"@,
        "read_tool"@,
    ]
}

/// The schemas of the properties of an answer, each under its name.
pub open spec fn property_schemas() -> Seq<(Seq<char>, JsonView)> {
    seq![
        ("schema_version"@, version_view()),
        ("ok"@, typed_view("boolean"@)),
        ("status"@, enum_view(status_words())),
        ("error_kind"@, nullable_enum_view(error_kind_words())),
        ("exit_code"@, exit_code_view()),
        ("retryable"@, typed_view("boolean"@)),
        ("job_id"@, job_id_view()),
        ("message"@, typed_view("string"@)),
        ("termination"@, nullable_enum_view(termination_words())),
        ("termination_trigger"@, nullable_enum_view(trigger_words())),
        ("stdout_bytes"@, count_view()),
        ("stderr_bytes"@, count_view()),
        ("stdout_truncated"@, typed_view("boolean"@)),
        ("stderr_truncated"@, typed_view("boolean"@)),
        ("stdout_head"@, typed_view("string"@)),
        ("stdout_tail"@, typed_view("string"@)),
        ("stderr_head"@, typed_view("string"@)),
        ("stderr_tail"@, typed_view("string"@)),
        ("stdout_resource"@, nullable_string_view()),
        ("stderr_resource"@, nullable_string_view()),
        ("read_tool"@, nullable_string_view()),
    ]
}

/// The schemas of the properties of an answer.
pub open spec fn properties_view() -> JsonView {
    filled(property_schemas())
}

/// The names of the properties that every answer has.
pub open spec fn required_view() -> JsonView {
    JsonView::Array(
        Seq::new(property_names().len(), |i: int| JsonView::Text(property_names()[i])),
    )
}

/// The schema of the answer to a command.
pub open spec fn output_schema_view() -> JsonView {
    JsonView::object()
        .with("$schema"@, JsonView::Text("https://json-schema.org/draft/2020-12/schema"@))
        .with("title"@, JsonView::Text("LocalMcpCommandResultV1"@))
        .with("type"@, JsonView::Text("object"@))
        .with("additionalProperties"@, JsonView::Bool(false))
        .with("properties"@, properties_view())
        .with("required"@, required_view())
}

fn typed(name: &str) -> (json: Json)
    ensures
        json@ == typed_view(name@),
        json@ is Object,
        ordered(json@),
{
    Json::object().with("type", Json::text(name))
}

fn nullable_enum(words: Json) -> (json: Json)
    requires
        ordered(words@),
    ensures
        json@ == nullable_enum_view(words@),
        ordered(json@),
{
    Json::object().with("oneOf", Json::list().item(typed("null")).item(
        Json::object().with("type", Json::text("string")).with("enum", words),
    ))
}

fn nullable_string() -> (json: Json)
    ensures
        json@ == nullable_string_view(),
        ordered(json@),
{
    Json::object().with("oneOf", Json::list().item(typed("string")).item(typed("null")))
}

fn properties() -> (json: Json)
    ensures
        json@ == properties_view(),
        ordered(json@),
{
    let pairs: Vec<(&'static str, Json)> = vec![
        ("schema_version", Json::object().with("type", Json::text("integer")).with("const", Json::Unsigned(COMMAND_RESULT_SCHEMA_VERSION as u64))),
        ("ok", typed("boolean")),
        ("status", Json::object().with("type", Json::text("string")).with("enum", Json::list().item(Json::text("running")).item(Json::text("completed")).item(Json::text("failed")).item(Json::text("stopped")))),
        ("error_kind", nullable_enum(Json::list().item(Json::text("process_exit")).item(Json::text("spawn_error")).item(Json::text("cancellation")).item(Json::text("approval_denied")).item(Json::text("invalid_arguments")).item(Json::text("internal")))),
        ("exit_code", Json::object().with("oneOf", Json::list().item(typed("integer")).item(typed("null")))),
        ("retryable", typed("boolean")),
        ("job_id", Json::object().with("oneOf", Json::list().item(Json::object().with("type", Json::text("string")).with("format", Json::text("uuid"))).item(typed("null")))),
        ("message", typed("string")),
        ("termination", nullable_enum(Json::list().item(Json::text("exited")).item(Json::text("stopped")).item(Json::text("timeout")).item(Json::text("cancelled")).item(Json::text("forced_kill")).item(Json::text("orphaned")))),
        ("termination_trigger", nullable_enum(Json::list().item(Json::text("stop")).item(Json::text("timeout")).item(Json::text("cancellation")).item(Json::text("completion")))),
        ("stdout_bytes", Json::object().with("type", Json::text("integer")).with("minimum", Json::Unsigned(0))),
        ("stderr_bytes", Json::object().with("type", Json::text("integer")).with("minimum", Json::Unsigned(0))),
        ("stdout_truncated", typed("boolean")),
        ("stderr_truncated", typed("boolean")),
        ("stdout_head", typed("string")),
        ("stdout_tail", typed("string")),
        ("stderr_head", typed("string")),
        ("stderr_tail", typed("string")),
        ("stdout_resource", nullable_string()),
        ("stderr_resource", nullable_string()),
        ("read_tool", nullable_string()),
    ];
    proof {
        assert(pairs_view(pairs@) =~= property_schemas());
    }
    Json::filled(pairs)
}

fn required() -> (json: Json)
    ensures
        json@ == required_view(),
        ordered(json@),
{
    let names: Vec<&'static str> = vec![
        "schema_version",
        "ok",
        "status",
        "error_kind",
        "exit_code",
        "retryable",
        "job_id",
        "message",
        "termination",
        "termination_trigger",
        "stdout_bytes",
        "stderr_bytes",
        "stdout_truncated",
        "stderr_truncated",
        "stdout_head",
        "stdout_tail",
        "stderr_head",
        "stderr_tail",
        "stdout_resource",
        "stderr_resource",
        "read_tool",
    ];
    let mut items: Vec<Json> = Vec::new();
    let mut index: usize = 0;
    while index < names.len()
        invariant
            index <= names@.len(),
            items@.len() == index,
            forall|i: int|
                0 <= i < index ==> (#[trigger] items@[i])@ == JsonView::Text(names@[i]@),
        decreases names@.len() - index,
    {
        items.push(Json::text(names[index]));
        index = index + 1;
    }
    proof {
        lemma_json_array(items);
        assert(names@.len() == property_names().len());
        assert forall|i: int| 0 <= i < names@.len() implies (#[trigger] names@[i])@
            == property_names()[i] by {}
        assert(items_view(items@) =~= required_view()->Array_0);
        assert forall|i: int| 0 <= i < items@.len() implies ordered(
            #[trigger] required_view()->Array_0[i],
        ) by {}
    }
    Json::Array(items)
}

/// The schema of the answer to a command.
pub fn output_schema() -> (json: Json)
    ensures
        json@ == output_schema_view(),
        ordered(json@),
{
    Json::object()
        .with("$schema", Json::text("https://json-schema.org/draft/2020-12/schema"))
        .with("title", Json::text("LocalMcpCommandResultV1"))
        .with("type", Json::text("object"))
        .with("additionalProperties", Json::Bool(false))
        .with("properties", properties())
        .with("required", required())
}

/// A number that tells the names of the properties apart.
spec fn name_code(name: Seq<char>) -> int {
    name.len() * 65536 + name[if name.len() > 3 {
        3
    } else {
        name.len() - 1
    }] as int * 256 + name[name.len() - 1] as int
}

/// The numbers of the names of the properties.
spec fn name_codes() -> Seq<int> {
    seq![
        943470,
        158571,
        423027,
        683876,
        619621,
        619109,
        417636,
        488293,
        748910,
        1273202,
        814963,
        812403,
        1077092,
        1074532,
        749412,
        749420,
        746852,
        746860,
        1011557,
        1008997,
        615532,
    ]
}

proof fn lemma_name_codes(place: int)
    requires
        0 <= place < property_names().len(),
    ensures
        name_code(property_names()[place]) == name_codes()[place],
{
    reveal_strlit("schema_version");
    reveal_strlit("ok");
    reveal_strlit("status");
    reveal_strlit("error_kind");
    reveal_strlit("exit_code");
    reveal_strlit("retryable");
    reveal_strlit("job_id");
    reveal_strlit("message");
    reveal_strlit("termination");
    reveal_strlit("termination_trigger");
    reveal_strlit("stdout_bytes");
    reveal_strlit("stderr_bytes");
    reveal_strlit("stdout_truncated");
    reveal_strlit("stderr_truncated");
    reveal_strlit("stdout_head");
    reveal_strlit("stdout_tail");
    reveal_strlit("stderr_head");
    reveal_strlit("stderr_tail");
    reveal_strlit("stdout_resource");
    reveal_strlit("stderr_resource");
    reveal_strlit("read_tool");
}

/// The bytes of the names of the properties as JSON strings.
pub open spec fn name_sizes() -> Seq<int> {
    seq![
        16,
        4,
        8,
        12,
        11,
        11,
        8,
        9,
        13,
        21,
        14,
        14,
        18,
        18,
        13,
        13,
        13,
        13,
        17,
        17,
        11,
    ]
}

/// What the names of the properties take as JSON strings.
pub proof fn lemma_name_sizes(place: int)
    requires
        0 <= place < property_names().len(),
    ensures
        byte_len(quoted(property_names()[place])) == name_sizes()[place],
{
    reveal_strlit("schema_version");
    reveal_strlit("ok");
    reveal_strlit("status");
    reveal_strlit("error_kind");
    reveal_strlit("exit_code");
    reveal_strlit("retryable");
    reveal_strlit("job_id");
    reveal_strlit("message");
    reveal_strlit("termination");
    reveal_strlit("termination_trigger");
    reveal_strlit("stdout_bytes");
    reveal_strlit("stderr_bytes");
    reveal_strlit("stdout_truncated");
    reveal_strlit("stderr_truncated");
    reveal_strlit("stdout_head");
    reveal_strlit("stdout_tail");
    reveal_strlit("stderr_head");
    reveal_strlit("stderr_tail");
    reveal_strlit("stdout_resource");
    reveal_strlit("stderr_resource");
    reveal_strlit("read_tool");
    lemma_word_size(property_names()[place]);
}

/// The names of the properties differ from one another.
pub proof fn lemma_names_differ(i: int, j: int)
    requires
        0 <= i < j < property_names().len(),
    ensures
        property_names()[i] != property_names()[j],
{
    lemma_name_codes(i);
    lemma_name_codes(j);
    assert(name_codes()[i] != name_codes()[j]);
}

/// Whether entries have the names of the properties, in their order.
pub open spec fn has_property_names(entries: Seq<(Seq<char>, JsonView)>) -> bool {
    entries.len() == property_names().len() && forall|i: int|
        0 <= i < entries.len() ==> (#[trigger] entries[i]).0 == property_names()[i]
}

/// An object that is filled under the names of the properties has each of them, and nothing else.
pub proof fn lemma_property(entries: Seq<(Seq<char>, JsonView)>, name: Seq<char>)
    requires
        has_property_names(entries),
    ensures
        member(filled(entries), name) is Some <==> property_names().contains(name),
        forall|i: int|
            0 <= i < entries.len() && #[trigger] property_names()[i] == name ==> member(
                filled(entries),
                name,
            ) == Some(entries[i].1),
{
    assert(distinct_keys(entries)) by {
        assert forall|i: int, j: int| 0 <= i < j < entries.len() implies (#[trigger] entries[i]).0
            != (#[trigger] entries[j]).0 by {
            lemma_names_differ(i, j);
        }
    }
    lemma_filled_member(entries, name);
    if property_names().contains(name) {
        let i = choose|i: int| 0 <= i < property_names().len() && property_names()[i] == name;
        assert(entries[i].0 == name);
    }
    assert forall|i: int|
        0 <= i < entries.len() && #[trigger] property_names()[i] == name implies member(
        filled(entries),
        name,
    ) == Some(entries[i].1) by {
        assert(entries[i].0 == name);
    }
}

/// What an answer has under the name of a property.
pub proof fn lemma_outcome_property(outcome: OutcomeView, place: int)
    requires
        0 <= place < property_names().len(),
    ensures
        member(outcome.json(), property_names()[place]) == Some(outcome.entries()[place].1),
{
    assert(has_property_names(outcome.entries()));
    lemma_property(outcome.entries(), property_names()[place]);
}

/// What the schema has under the name of a property.
proof fn lemma_property_schema(place: int)
    requires
        0 <= place < property_names().len(),
    ensures
        member(properties_view(), property_names()[place]) == Some(property_schemas()[place].1),
{
    assert(has_property_names(property_schemas()));
    lemma_property(property_schemas(), property_names()[place]);
}

/// An answer has exactly the properties that its schema lists, and the schema requires each of
/// them.
pub proof fn law_outcome_has_the_properties_of_its_schema(outcome: OutcomeView, name: Seq<char>)
    ensures
        member(outcome.json(), name) is Some <==> member(properties_view(), name) is Some,
        member(outcome.json(), name) is Some <==> required_view()->Array_0.contains(
            JsonView::Text(name),
        ),
{
    assert(has_property_names(outcome.entries()));
    assert(has_property_names(property_schemas()));
    lemma_property(outcome.entries(), name);
    lemma_property(property_schemas(), name);
    let items = required_view()->Array_0;
    if property_names().contains(name) {
        let i = choose|i: int| 0 <= i < property_names().len() && property_names()[i] == name;
        assert(items[i] == JsonView::Text(name));
    }
    if items.contains(JsonView::Text(name)) {
        let i = choose|i: int| 0 <= i < items.len() && items[i] == JsonView::Text(name);
        assert(property_names()[i] == name);
    }
}

/// The schema lists every word that an answer can have for its status, its kind of error, its end
/// and what caused it.
pub proof fn law_schema_lists_the_words(
    status: CommandStatus,
    kind: CommandErrorKind,
    termination: Termination,
    trigger: StopTrigger,
)
    ensures
        member(properties_view(), "status"@) == Some(
            enum_view(status_words()),
        ),
        member(properties_view(), "error_kind"@) == Some(nullable_enum_view(error_kind_words())),
        member(properties_view(), "termination"@) == Some(nullable_enum_view(termination_words())),
        member(properties_view(), "termination_trigger"@) == Some(
            nullable_enum_view(trigger_words()),
        ),
        status_words()->Array_0.contains(JsonView::Text(status.word())),
        error_kind_words()->Array_0.contains(JsonView::Text(kind.word())),
        termination_words()->Array_0.contains(JsonView::Text(termination.word())),
        termination_words()->Array_0.contains(JsonView::Text("orphaned"@)),
        trigger_words()->Array_0.contains(JsonView::Text(trigger.word())),
{
    lemma_property_schema(2);
    lemma_property_schema(3);
    lemma_property_schema(8);
    lemma_property_schema(9);
    let statuses = status_words()->Array_0;
    assert(statuses[0] == JsonView::Text("running"@));
    assert(statuses[1] == JsonView::Text("completed"@));
    assert(statuses[2] == JsonView::Text("failed"@));
    assert(statuses[3] == JsonView::Text("stopped"@));
    let kinds = error_kind_words()->Array_0;
    assert(kinds[0] == JsonView::Text("process_exit"@));
    assert(kinds[1] == JsonView::Text("spawn_error"@));
    assert(kinds[2] == JsonView::Text("cancellation"@));
    assert(kinds[3] == JsonView::Text("approval_denied"@));
    assert(kinds[4] == JsonView::Text("invalid_arguments"@));
    assert(kinds[5] == JsonView::Text("internal"@));
    let ends = termination_words()->Array_0;
    assert(ends[0] == JsonView::Text("exited"@));
    assert(ends[1] == JsonView::Text("stopped"@));
    assert(ends[2] == JsonView::Text("timeout"@));
    assert(ends[3] == JsonView::Text("cancelled"@));
    assert(ends[4] == JsonView::Text("forced_kill"@));
    assert(ends[5] == JsonView::Text("orphaned"@));
    let triggers = trigger_words()->Array_0;
    assert(triggers[0] == JsonView::Text("stop"@));
    assert(triggers[1] == JsonView::Text("timeout"@));
    assert(triggers[2] == JsonView::Text("cancellation"@));
    assert(triggers[3] == JsonView::Text("completion"@));
}

/// The data of an answer hold all that the answer says, each part under its own name.
pub proof fn law_answers_hold_each_part_under_its_name(outcome: OutcomeView)
    ensures
        member(outcome.json(), "schema_version"@) == Some(
            JsonView::Int(outcome.schema_version as int),
        ),
        member(outcome.json(), "ok"@) == Some(
            JsonView::Bool(outcome.ok),
        ),
        member(outcome.json(), "status"@) == Some(
            JsonView::Text(outcome.status.word()),
        ),
        member(outcome.json(), "error_kind"@) == Some(
            match outcome.error_kind {
                Some(kind) => JsonView::Text(kind.word()),
                None => JsonView::Null,
            },
        ),
        member(outcome.json(), "exit_code"@) == Some(
            match outcome.exit_code {
                Some(code) => JsonView::Int(code as int),
                None => JsonView::Null,
            },
        ),
        member(outcome.json(), "retryable"@) == Some(
            JsonView::Bool(outcome.retryable),
        ),
        member(outcome.json(), "job_id"@) == Some(
            match outcome.job_id {
                Some(text) => JsonView::Text(text),
                None => JsonView::Null,
            },
        ),
        member(outcome.json(), "message"@) == Some(
            JsonView::Text(outcome.message),
        ),
        member(outcome.json(), "termination"@) == Some(
            match outcome.termination {
                Some(text) => JsonView::Text(text),
                None => JsonView::Null,
            },
        ),
        member(outcome.json(), "termination_trigger"@) == Some(
            match outcome.termination_trigger {
                Some(text) => JsonView::Text(text),
                None => JsonView::Null,
            },
        ),
        member(outcome.json(), "stdout_bytes"@) == Some(
            JsonView::Int(outcome.stdout_bytes as int),
        ),
        member(outcome.json(), "stderr_bytes"@) == Some(
            JsonView::Int(outcome.stderr_bytes as int),
        ),
        member(outcome.json(), "stdout_truncated"@) == Some(
            JsonView::Bool(outcome.stdout_truncated),
        ),
        member(outcome.json(), "stderr_truncated"@) == Some(
            JsonView::Bool(outcome.stderr_truncated),
        ),
        member(outcome.json(), "stdout_head"@) == Some(
            JsonView::Text(outcome.stdout_head),
        ),
        member(outcome.json(), "stdout_tail"@) == Some(
            JsonView::Text(outcome.stdout_tail),
        ),
        member(outcome.json(), "stderr_head"@) == Some(
            JsonView::Text(outcome.stderr_head),
        ),
        member(outcome.json(), "stderr_tail"@) == Some(
            JsonView::Text(outcome.stderr_tail),
        ),
        member(outcome.json(), "stdout_resource"@) == Some(
            match outcome.stdout_resource {
                Some(text) => JsonView::Text(text),
                None => JsonView::Null,
            },
        ),
        member(outcome.json(), "stderr_resource"@) == Some(
            match outcome.stderr_resource {
                Some(text) => JsonView::Text(text),
                None => JsonView::Null,
            },
        ),
        member(outcome.json(), "read_tool"@) == Some(
            match outcome.read_tool {
                Some(text) => JsonView::Text(text),
                None => JsonView::Null,
            },
        ),
{
    lemma_outcome_property(outcome, 0);
    lemma_outcome_property(outcome, 1);
    lemma_outcome_property(outcome, 2);
    lemma_outcome_property(outcome, 3);
    lemma_outcome_property(outcome, 4);
    lemma_outcome_property(outcome, 5);
    lemma_outcome_property(outcome, 6);
    lemma_outcome_property(outcome, 7);
    lemma_outcome_property(outcome, 8);
    lemma_outcome_property(outcome, 9);
    lemma_outcome_property(outcome, 10);
    lemma_outcome_property(outcome, 11);
    lemma_outcome_property(outcome, 12);
    lemma_outcome_property(outcome, 13);
    lemma_outcome_property(outcome, 14);
    lemma_outcome_property(outcome, 15);
    lemma_outcome_property(outcome, 16);
    lemma_outcome_property(outcome, 17);
    lemma_outcome_property(outcome, 18);
    lemma_outcome_property(outcome, 19);
    lemma_outcome_property(outcome, 20);
}

/// What is answered of a command that was run to its end is what is known of it, part by part.
pub proof fn law_answers_keep_what_is_known(output: BoundedCommandOutput)
    ensures
        ({
            let outcome = OutcomeView::of_output(output);
            &&& outcome.exit_code == Some(output.exit_code)
            &&& outcome.job_id == Some(uuid_text(output.job_id.bits))
            &&& outcome.termination == Some(output.termination@)
            &&& outcome.termination_trigger == match output.termination_trigger {
                Some(trigger) => Some(trigger@),
                None => None,
            }
            &&& outcome.stdout_bytes == output.stdout_bytes
            &&& outcome.stderr_bytes == output.stderr_bytes
            &&& outcome.stdout_truncated == output.stdout_truncated
            &&& outcome.stderr_truncated == output.stderr_truncated
            &&& outcome.stdout_head == output.stdout_head@
            &&& outcome.stdout_tail == output.stdout_tail@
            &&& outcome.stderr_head == output.stderr_head@
            &&& outcome.stderr_tail == output.stderr_tail@
            &&& outcome.stdout_resource == Some(output.stdout_resource@)
            &&& outcome.stderr_resource == Some(output.stderr_resource@)
            &&& outcome.read_tool == Some(output.read_tool@)
            &&& outcome.ok <==> output.termination@ == "exited"@ && output.exit_code == 0
            &&& outcome.status == if output.termination@ != "exited"@ {
                CommandStatus::Stopped
            } else if output.exit_code == 0 {
                CommandStatus::Completed
            } else {
                CommandStatus::Failed
            }
            &&& outcome.retryable <==> output.termination@ != "exited"@
            &&& outcome.consistent()
        }),
{
}

/// An answer is a success exactly if it names no error: then the command runs or has completed. One that was
/// stopped says so as its error, and no other does.
pub proof fn law_failures_name_their_error(
    kind: CommandErrorKind,
    retryable: bool,
    message: Seq<char>,
    job: Option<Seq<char>>,
    word: Seq<char>,
)
    ensures
        ({
            let failure = OutcomeView::failure(kind, retryable, message);
            let ended = OutcomeView::ended(job, retryable, message, word);
            &&& !failure.ok && failure.status == CommandStatus::Failed && failure.error_kind == Some(
                kind,
            )
            &&& failure.retryable == retryable && failure.message == message
            &&& failure.job_id is None && failure.exit_code is None && failure.termination is None
            &&& !ended.ok && ended.status == CommandStatus::Stopped && ended.error_kind == Some(
                CommandErrorKind::Cancellation,
            )
            &&& ended.retryable == retryable && ended.message == message && ended.job_id == job
            &&& ended.termination == Some(word) && ended.exit_code is None
            &&& forall|outcome: OutcomeView|
                outcome == failure || outcome == ended ==> {
                    &&& #[trigger] outcome.stdout_bytes == 0
                    &&& outcome.stderr_bytes == 0
                    &&& !outcome.stdout_truncated && !outcome.stderr_truncated
                    &&& outcome.stdout_head.len() == 0 && outcome.stdout_tail.len() == 0
                    &&& outcome.stderr_head.len() == 0 && outcome.stderr_tail.len() == 0
                    &&& outcome.stdout_resource is None && outcome.stderr_resource is None
                    &&& outcome.read_tool is None
                }
        }),
{
}

proof fn lemma_contains_middle(first: Seq<char>, part: Seq<char>, rest: Seq<char>)
    ensures
        contains_text(first + part + rest, part),
{
    let text = first + part + rest;
    let start = first.len() as int;
    assert(text.subrange(start, start + part.len()) =~= part);
    assert(0 <= first.len() <= text.len() - part.len());
}

proof fn lemma_contains_more(text: Seq<char>, part: Seq<char>, rest: Seq<char>)
    requires
        contains_text(text, part),
    ensures
        contains_text(text + rest, part),
{
    let start = choose|start: int|
        0 <= start <= text.len() - part.len() && #[trigger] text.subrange(start, start + part.len())
            == part;
    assert((text + rest).subrange(start, start + part.len()) =~= part);
}

proof fn lemma_preview_is_told(
    text: Seq<char>,
    name: Seq<char>,
    head: Seq<char>,
    tail: Seq<char>,
    truncated: bool,
    part: Seq<char>,
)
    ensures
        contains_text(text, part) ==> contains_text(
            with_preview(text, name, head, tail, truncated),
            part,
        ),
        head.len() > 0 ==> contains_text(with_preview(text, name, head, tail, truncated), head),
        truncated && tail.len() > 0 ==> contains_text(
            with_preview(text, name, head, tail, truncated),
            tail,
        ),
        head.len() == 0 && tail.len() == 0 ==> with_preview(text, name, head, tail, truncated) == text,
{
    let all = with_preview(text, name, head, tail, truncated);
    if head.len() > 0 || tail.len() > 0 {
        let nothing = Seq::<char>::empty();
        let before = text + "\n"@ + name + ":\n"@;
        let mark = "\n... output truncated; use read_job_log ...\n"@;
        let rest = if truncated {
            mark + tail
        } else {
            nothing
        };
        assert(all =~= before + head + rest);
        lemma_contains_middle(before, head, rest);
        if truncated {
            assert(all =~= (before + head + mark) + tail + nothing);
            lemma_contains_middle(before + head + mark, tail, nothing);
        }
        if contains_text(text, part) {
            let more = "\n"@ + name + ":\n"@ + head + rest;
            assert(all =~= text + more);
            lemma_contains_more(text, part, more);
        }
    }
}

proof fn lemma_contains_nothing(text: Seq<char>, part: Seq<char>)
    requires
        part.len() == 0,
    ensures
        contains_text(text, part),
{
    assert(text.subrange(0, 0int + part.len()) =~= part);
}

proof fn lemma_preview_behind(
    text: Seq<char>,
    name: Seq<char>,
    head: Seq<char>,
    tail: Seq<char>,
    truncated: bool,
    front: Seq<char>,
)
    requires
        front.len() <= text.len(),
        text.take(front.len() as int) == front,
    ensures
        ({
            let all = with_preview(text, name, head, tail, truncated);
            front.len() <= all.len() && all.take(front.len() as int) == front
        }),
{
    let all = with_preview(text, name, head, tail, truncated);
    assert(all.take(front.len() as int) =~= text.take(front.len() as int));
}

/// The text of an answer begins with its sentence.
pub proof fn law_texts_begin_with_the_sentence(outcome: OutcomeView)
    ensures
        outcome.message.len() <= outcome.readable().len(),
        outcome.readable().take(outcome.message.len() as int) == outcome.message,
{
    let message = outcome.message;
    let ended = outcome.sentences();
    assert(ended.take(message.len() as int) =~= message);
    let (head, tail) = (outcome.stdout_head, outcome.stdout_tail);
    let out = with_preview(ended, "stdout"@, head, tail, outcome.stdout_truncated);
    lemma_preview_behind(ended, "stdout"@, head, tail, outcome.stdout_truncated, message);
    lemma_preview_behind(
        out,
        "stderr"@,
        outcome.stderr_head,
        outcome.stderr_tail,
        outcome.stderr_truncated,
        message,
    );
}

/// The text of an answer shows what the answer shows of both streams.
pub proof fn law_texts_show_the_streams(outcome: OutcomeView)
    ensures
        contains_text(outcome.readable(), outcome.stdout_head),
        contains_text(outcome.readable(), outcome.stderr_head),
        outcome.stdout_truncated ==> contains_text(outcome.readable(), outcome.stdout_tail),
        outcome.stderr_truncated ==> contains_text(outcome.readable(), outcome.stderr_tail),
{
    let ended = outcome.sentences();
    let (head, tail) = (outcome.stdout_head, outcome.stdout_tail);
    let truncated = outcome.stdout_truncated;
    let out = with_preview(ended, "stdout"@, head, tail, truncated);
    lemma_preview_is_told(ended, "stdout"@, head, tail, truncated, head);
    let (last_head, last_tail) = (outcome.stderr_head, outcome.stderr_tail);
    let cut = outcome.stderr_truncated;
    lemma_preview_is_told(out, "stderr"@, last_head, last_tail, cut, head);
    lemma_preview_is_told(out, "stderr"@, last_head, last_tail, cut, tail);
    let all = outcome.readable();
    assert(all == with_preview(out, "stderr"@, last_head, last_tail, cut));
    if head.len() == 0 {
        lemma_contains_nothing(all, head);
    }
    if tail.len() == 0 {
        lemma_contains_nothing(all, tail);
    }
    if last_head.len() == 0 {
        lemma_contains_nothing(all, last_head);
    }
    if last_tail.len() == 0 {
        lemma_contains_nothing(all, last_tail);
    }
}

/// The text of an answer tells the exit code, the job, and how the command ended.
pub proof fn law_texts_tell_the_end(outcome: OutcomeView)
    ensures
        outcome.exit_code matches Some(code) ==> contains_text(
            outcome.readable(),
            " Exit code: "@ + decimal(code as int) + "."@,
        ),
        outcome.job_id matches Some(job) ==> contains_text(outcome.readable(), job),
        outcome.termination matches Some(word) ==> contains_text(
            outcome.readable(),
            " Termination: "@ + word + "."@,
        ),
{
    let nothing = Seq::<char>::empty();
    let message = outcome.message;
    let coded = match outcome.exit_code {
        Some(code) => message + " Exit code: "@ + decimal(code as int) + "."@,
        None => message,
    };
    let with_job = match outcome.job_id {
        Some(job) => if contains_text(coded, job) {
            coded
        } else {
            coded + " Job: "@ + job + "."@
        },
        None => coded,
    };
    let ended = outcome.sentences();
    if let Some(code) = outcome.exit_code {
        let told = " Exit code: "@ + decimal(code as int) + "."@;
        assert(coded =~= message + told + nothing);
        lemma_contains_middle(message, told, nothing);
        lemma_told_on(outcome, coded, with_job, ended, told);
    }
    if let Some(job) = outcome.job_id {
        if !contains_text(coded, job) {
            lemma_contains_middle(coded + " Job: "@, job, "."@);
        }
        lemma_told_on(outcome, with_job, with_job, ended, job);
    }
    if let Some(word) = outcome.termination {
        let told = " Termination: "@ + word + "."@;
        assert(ended =~= with_job + told + nothing);
        lemma_contains_middle(with_job, told, nothing);
        lemma_told_on(outcome, ended, ended, ended, told);
    }
}

/// What stands in the first part of a text stands in all of it.
proof fn lemma_told_on(
    outcome: OutcomeView,
    text: Seq<char>,
    with_job: Seq<char>,
    ended: Seq<char>,
    part: Seq<char>,
)
    requires
        contains_text(text, part),
        with_job == text || (outcome.job_id matches Some(job) && with_job == text + " Job: "@ + job
            + "."@),
        ended == with_job || (outcome.termination matches Some(word) && ended == with_job
            + " Termination: "@ + word + "."@),
    ensures
        contains_text(
            with_preview(
                with_preview(
                    ended,
                    "stdout"@,
                    outcome.stdout_head,
                    outcome.stdout_tail,
                    outcome.stdout_truncated,
                ),
                "stderr"@,
                outcome.stderr_head,
                outcome.stderr_tail,
                outcome.stderr_truncated,
            ),
            part,
        ),
{
    if with_job != text {
        let more = " Job: "@ + outcome.job_id->0 + "."@;
        assert(with_job =~= text + more);
        lemma_contains_more(text, part, more);
    }
    if ended != with_job {
        let more = " Termination: "@ + outcome.termination->0 + "."@;
        assert(ended =~= with_job + more);
        lemma_contains_more(with_job, part, more);
    }
    let out = with_preview(
        ended,
        "stdout"@,
        outcome.stdout_head,
        outcome.stdout_tail,
        outcome.stdout_truncated,
    );
    lemma_preview_is_told(
        ended,
        "stdout"@,
        outcome.stdout_head,
        outcome.stdout_tail,
        outcome.stdout_truncated,
        part,
    );
    lemma_preview_is_told(
        out,
        "stderr"@,
        outcome.stderr_head,
        outcome.stderr_tail,
        outcome.stderr_truncated,
        part,
    );
}

/// Each answer without output says what happened, and whether to try again: a command that could not be started
/// or that the server failed is worth another try, and so is one that was cancelled; one that was refused or
/// not approved is not, nor one that was lost with its server. A command that runs is no failure.
pub proof fn law_answers_say_what_happened(job: u128, message: Seq<char>)
    ensures
        ({
            let runs = OutcomeView::runs(job);
            let not_started = OutcomeView::not_started(message);
            let denied = OutcomeView::denied(message);
            let refused = OutcomeView::refused(message);
            let broken = OutcomeView::broken(message);
            let cancelled = OutcomeView::cancelled(Some(job), message);
            let lost = OutcomeView::lost(job, message);
            &&& runs.ok && runs.status == CommandStatus::Running && runs.error_kind is None
                && !runs.retryable && runs.job_id == Some(uuid_text(job)) && contains_text(
                runs.message,
                uuid_text(job),
            )
            &&& !not_started.ok && not_started.status == CommandStatus::Failed
                && not_started.error_kind == Some(CommandErrorKind::SpawnError)
                && not_started.retryable && contains_text(not_started.message, message)
            &&& !denied.ok && denied.status == CommandStatus::Failed && denied.error_kind == Some(
                CommandErrorKind::ApprovalDenied,
            ) && !denied.retryable && denied.message == message
            &&& !refused.ok && refused.status == CommandStatus::Failed && refused.error_kind == Some(
                CommandErrorKind::InvalidArguments,
            ) && !refused.retryable && refused.message == message
            &&& !broken.ok && broken.status == CommandStatus::Failed && broken.error_kind == Some(
                CommandErrorKind::Internal,
            ) && broken.retryable && broken.message == message
            &&& !cancelled.ok && cancelled.status == CommandStatus::Stopped && cancelled.error_kind
                == Some(CommandErrorKind::Cancellation) && cancelled.retryable && cancelled.job_id
                == Some(uuid_text(job)) && cancelled.termination == Some("cancelled"@)
                && cancelled.message == message
            &&& !lost.ok && lost.status == CommandStatus::Stopped && lost.error_kind == Some(
                CommandErrorKind::Cancellation,
            ) && !lost.retryable && lost.job_id == Some(uuid_text(job)) && lost.termination == Some(
                "orphaned"@,
            ) && lost.message == message
        }),
{
    let nothing = Seq::<char>::empty();
    lemma_contains_middle("Command is running as job "@, uuid_text(job), "."@);
    assert("Command could not be started: "@ + message =~= "Command could not be started: "@ + message
        + nothing);
    lemma_contains_middle("Command could not be started: "@, message, nothing);
}

/// Whether a value is of the type that a schema names.
pub open spec fn is_of_type(name: Seq<char>, value: JsonView) -> bool {
    ||| name == "integer"@ && value is Int
    ||| name == "string"@ && value is Text
    ||| name == "boolean"@ && value is Bool
    ||| name == "null"@ && value is Null
    ||| name == "object"@ && value is Object
}

/// Whether a value is as a schema without choices says: of its type, and one of its values, its only value, or
/// no less than its least value, where it names these.
pub open spec fn is_as_described(schema: JsonView, value: JsonView) -> bool {
    &&& member(schema, "type"@) matches Some(JsonView::Text(name)) && is_of_type(name, value)
    &&& match member(schema, "enum"@) {
        Some(JsonView::Array(words)) => words.contains(value),
        Some(_) => false,
        None => true,
    }
    &&& match member(schema, "const"@) {
        Some(only) => value == only,
        None => true,
    }
    &&& match member(schema, "minimum"@) {
        Some(JsonView::Int(least)) => value matches JsonView::Int(n) && least <= n,
        Some(_) => false,
        None => true,
    }
}

/// Whether a value is as a schema says, or as one of its choices says where it has some.
pub open spec fn conforms(schema: JsonView, value: JsonView) -> bool {
    match member(schema, "oneOf"@) {
        Some(JsonView::Array(choices)) => exists|i: int|
            0 <= i < choices.len() && is_as_described(#[trigger] choices[i], value),
        Some(_) => false,
        None => is_as_described(schema, value),
    }
}

proof fn lemma_schema_members(name: Seq<char>, key: Seq<char>, value: JsonView)
    ensures
        forall|k: Seq<char>|
            #[trigger] member(typed_view(name), k) == if k == "type"@ {
                Some(JsonView::Text(name))
            } else {
                None
            },
        forall|k: Seq<char>|
            #[trigger] member(typed_view(name).with(key, value), k) == if k == key {
                Some(value)
            } else {
                member(typed_view(name), k)
            },
        forall|k: Seq<char>|
            #[trigger] member(JsonView::object().with(key, value), k) == if k == key {
                Some(value)
            } else {
                None
            },
        "type"@ != "enum"@ && "type"@ != "const"@ && "type"@ != "minimum"@ && "type"@ != "oneOf"@
            && "type"@ != "format"@,
        "enum"@ != "const"@ && "enum"@ != "minimum"@ && "enum"@ != "oneOf"@ && "enum"@ != "format"@,
        "const"@ != "minimum"@ && "const"@ != "oneOf"@ && "const"@ != "format"@,
        "minimum"@ != "oneOf"@ && "minimum"@ != "format"@ && "oneOf"@ != "format"@,
{
    reveal_strlit("type");
    reveal_strlit("enum");
    reveal_strlit("const");
    reveal_strlit("minimum");
    reveal_strlit("oneOf");
    reveal_strlit("format");
    assert("type"@[0] == 't' && "enum"@[0] == 'e' && "const"@[0] == 'c' && "oneOf"@[0] == 'o');
    assert("minimum"@.len() == 7 && "format"@.len() == 6 && "type"@.len() == 4 && "const"@.len() == 5);
    let empty = JsonView::object();
    assert forall|k: Seq<char>|
        #[trigger] member(typed_view(name), k) == if k == "type"@ {
            Some(JsonView::Text(name))
        } else {
            None
        } by {
        lemma_member_with(empty, "type"@, JsonView::Text(name), k);
    }
    assert forall|k: Seq<char>|
        #[trigger] member(typed_view(name).with(key, value), k) == if k == key {
            Some(value)
        } else {
            member(typed_view(name), k)
        } by {
        lemma_member_with(typed_view(name), key, value, k);
    }
    assert forall|k: Seq<char>|
        #[trigger] member(empty.with(key, value), k) == if k == key {
            Some(value)
        } else {
            None
        } by {
        lemma_member_with(empty, key, value, k);
    }
}

/// A value of one type.
proof fn lemma_typed_conforms(name: Seq<char>, value: JsonView)
    requires
        is_of_type(name, value),
    ensures
        is_as_described(typed_view(name), value),
        conforms(typed_view(name), value),
{
    lemma_schema_members(name, "enum"@, value);
}

/// A value that is one of two choices.
proof fn lemma_choice_conforms(first: JsonView, second: JsonView, value: JsonView)
    requires
        is_as_described(first, value) || is_as_described(second, value),
    ensures
        conforms(
            JsonView::object().with("oneOf"@, JsonView::list().item(first).item(second)),
            value,
        ),
{
    let choices = JsonView::list().item(first).item(second);
    lemma_schema_members("null"@, "oneOf"@, choices);
    let items = choices->Array_0;
    assert(items[0] == first && items[1] == second);
    if is_as_described(first, value) {
        assert(is_as_described(items[0], value));
    } else {
        assert(is_as_described(items[1], value));
    }
}

/// A word out of a list.
proof fn lemma_word_conforms(words: Seq<JsonView>, word: Seq<char>, place: int)
    requires
        0 <= place < words.len(),
        words[place] == JsonView::Text(word),
    ensures
        is_as_described(enum_view(JsonView::Array(words)), JsonView::Text(word)),
        conforms(enum_view(JsonView::Array(words)), JsonView::Text(word)),
        conforms(nullable_enum_view(JsonView::Array(words)), JsonView::Text(word)),
        conforms(nullable_enum_view(JsonView::Array(words)), JsonView::Null),
{
    let list = JsonView::Array(words);
    lemma_schema_members("string"@, "enum"@, list);
    assert(words.contains(JsonView::Text(word)));
    assert(enum_view(list) == typed_view("string"@).with("enum"@, list));
    assert(is_as_described(enum_view(list), JsonView::Text(word)));
    lemma_typed_conforms("null"@, JsonView::Null);
    lemma_choice_conforms(typed_view("null"@), enum_view(list), JsonView::Text(word));
    lemma_choice_conforms(typed_view("null"@), enum_view(list), JsonView::Null);
}

/// A text that may be missing.
proof fn lemma_nullable_conforms(text: Option<Seq<char>>)
    ensures
        conforms(nullable_string_view(), JsonView::optional_text(text)),
        conforms(job_id_view(), JsonView::optional_text(text)),
{
    let value = JsonView::optional_text(text);
    let format = typed_view("string"@).with("format"@, JsonView::Text("uuid"@));
    lemma_schema_members("string"@, "format"@, JsonView::Text("uuid"@));
    match text {
        Some(text) => {
            lemma_typed_conforms("string"@, value);
            assert(is_as_described(format, value));
        },
        None => {
            lemma_typed_conforms("null"@, value);
        },
    }
    lemma_choice_conforms(typed_view("string"@), typed_view("null"@), value);
    lemma_choice_conforms(format, typed_view("null"@), value);
}

/// A number of bytes, and an exit code.
proof fn lemma_numbers_conform(count: u64, code: Option<i32>)
    ensures
        conforms(count_view(), JsonView::Int(count as int)),
        conforms(version_view(), JsonView::Int(COMMAND_RESULT_SCHEMA_VERSION as int)),
        conforms(
            exit_code_view(),
            match code {
                Some(code) => JsonView::Int(code as int),
                None => JsonView::Null,
            },
        ),
{
    let integer = typed_view("integer"@);
    lemma_schema_members("integer"@, "minimum"@, JsonView::Int(0));
    assert(count_view() == integer.with("minimum"@, JsonView::Int(0)));
    let version = JsonView::Int(COMMAND_RESULT_SCHEMA_VERSION as int);
    lemma_schema_members("integer"@, "const"@, version);
    assert(version_view() == integer.with("const"@, version));
    match code {
        Some(code) => {
            lemma_typed_conforms("integer"@, JsonView::Int(code as int));
            lemma_choice_conforms(integer, typed_view("null"@), JsonView::Int(code as int));
        },
        None => {
            lemma_typed_conforms("null"@, JsonView::Null);
            lemma_choice_conforms(integer, typed_view("null"@), JsonView::Null);
        },
    }
}

/// Whether how a command ended is told in the words that the schema lists.
pub open spec fn ends_in_known_words(outcome: OutcomeView) -> bool {
    &&& outcome.termination matches Some(word) ==> word == "exited"@ || word == "stopped"@ || word
        == "timeout"@ || word == "cancelled"@ || word == "forced_kill"@ || word == "orphaned"@
    &&& outcome.termination_trigger matches Some(word) ==> word == "stop"@ || word == "timeout"@ || word
        == "cancellation"@ || word == "completion"@
}

proof fn lemma_words_conform(outcome: OutcomeView)
    requires
        ends_in_known_words(outcome),
    ensures
        conforms(enum_view(status_words()), JsonView::Text(outcome.status.word())),
        conforms(nullable_enum_view(error_kind_words()), outcome.error_kind_json()),
        conforms(
            nullable_enum_view(termination_words()),
            JsonView::optional_text(outcome.termination),
        ),
        conforms(
            nullable_enum_view(trigger_words()),
            JsonView::optional_text(outcome.termination_trigger),
        ),
{
    let statuses = status_words()->Array_0;
    let kinds = error_kind_words()->Array_0;
    let ends = termination_words()->Array_0;
    let causes = trigger_words()->Array_0;
    lemma_word_conforms(
        statuses,
        outcome.status.word(),
        match outcome.status {
            CommandStatus::Running => 0,
            CommandStatus::Completed => 1,
            CommandStatus::Failed => 2,
            CommandStatus::Stopped => 3,
        },
    );
    lemma_word_conforms(kinds, "process_exit"@, 0);
    if let Some(kind) = outcome.error_kind {
        lemma_word_conforms(
            kinds,
            kind.word(),
            match kind {
                CommandErrorKind::ProcessExit => 0,
                CommandErrorKind::SpawnError => 1,
                CommandErrorKind::Cancellation => 2,
                CommandErrorKind::ApprovalDenied => 3,
                CommandErrorKind::InvalidArguments => 4,
                CommandErrorKind::Internal => 5,
            },
        );
    }
    lemma_word_conforms(ends, "exited"@, 0);
    lemma_word_conforms(ends, "stopped"@, 1);
    lemma_word_conforms(ends, "timeout"@, 2);
    lemma_word_conforms(ends, "cancelled"@, 3);
    lemma_word_conforms(ends, "forced_kill"@, 4);
    lemma_word_conforms(ends, "orphaned"@, 5);
    lemma_word_conforms(causes, "stop"@, 0);
    lemma_word_conforms(causes, "timeout"@, 1);
    lemma_word_conforms(causes, "cancellation"@, 2);
    lemma_word_conforms(causes, "completion"@, 3);
}

/// What an answer has under a name is as the schema of that name says: every answer conforms to the schema that
/// is published of it.
pub proof fn law_answers_conform_to_their_schema(outcome: OutcomeView, name: Seq<char>)
    requires
        outcome.schema_version == COMMAND_RESULT_SCHEMA_VERSION,
        ends_in_known_words(outcome),
        member(outcome.json(), name) is Some,
    ensures
        member(properties_view(), name) matches Some(schema) && conforms(
            schema,
            member(outcome.json(), name)->0,
        ),
{
    let entries = outcome.entries();
    let schemas = property_schemas();
    assert(has_property_names(entries));
    assert(has_property_names(schemas));
    lemma_property(entries, name);
    lemma_property(schemas, name);
    let place = choose|i: int| 0 <= i < property_names().len() && property_names()[i] == name;
    lemma_words_conform(outcome);
    lemma_numbers_conform(outcome.stdout_bytes, outcome.exit_code);
    lemma_numbers_conform(outcome.stderr_bytes, outcome.exit_code);
    lemma_nullable_conforms(outcome.job_id);
    lemma_nullable_conforms(outcome.stdout_resource);
    lemma_nullable_conforms(outcome.stderr_resource);
    lemma_nullable_conforms(outcome.read_tool);
    lemma_typed_conforms("boolean"@, JsonView::Bool(outcome.ok));
    lemma_typed_conforms("boolean"@, JsonView::Bool(outcome.retryable));
    lemma_typed_conforms("boolean"@, JsonView::Bool(outcome.stdout_truncated));
    lemma_typed_conforms("boolean"@, JsonView::Bool(outcome.stderr_truncated));
    lemma_typed_conforms("string"@, JsonView::Text(outcome.message));
    lemma_typed_conforms("string"@, JsonView::Text(outcome.stdout_head));
    lemma_typed_conforms("string"@, JsonView::Text(outcome.stdout_tail));
    lemma_typed_conforms("string"@, JsonView::Text(outcome.stderr_head));
    lemma_typed_conforms("string"@, JsonView::Text(outcome.stderr_tail));
    assert(conforms(schemas[place].1, entries[place].1));
}

} // verus!
