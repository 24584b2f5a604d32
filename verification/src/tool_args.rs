//! What the tools are called with.
use vstd::prelude::*;

use crate::config::{has_name_chars, is_name_char, is_session_id, only_name_chars, validate_session_id};
use crate::job_id::JobId;
use crate::text::{byte_len, byte_length, lemma_byte_len_bounds, copy_texts, same_text, texts_view};

verus! {

pub const HEARTBEAT_MAX_INTERVAL_SECONDS: u64 = 86400;

pub const HEARTBEAT_MAX_WAIT_SECONDS: u64 = 25;

pub const JOB_LOG_MAX_READ_BYTES: u64 = 65536;

/// The identifier of a session.
#[derive(Debug)]
pub struct SessionId {
    value: String,
}

impl View for SessionId {
    type V = Seq<char>;

    closed spec fn view(&self) -> Seq<char> {
        self.value@
    }
}

impl Clone for SessionId {
    fn clone(&self) -> (copy: SessionId)
        ensures
            copy@ == self@,
    {
        proof {
            use_type_invariant(self);
        }
        SessionId { value: self.value.clone() }
    }
}

impl SessionId {
    #[verifier::type_invariant]
    spec fn valid(self) -> bool {
        is_session_id(self.value@)
    }

    /// Reads the identifier of a session.
    pub fn parse(value: &str) -> (result: Result<SessionId, String>)
        ensures
            match result {
                Ok(id) => is_session_id(value@) && id@ == value@,
                Err(message) => !is_session_id(value@) && message@
                    == "session ID must be 1-64 letters, digits, '-', '_' or '.', and not '.' or '..'"@,
            },
    {
        match validate_session_id(value) {
            Ok(_) => Ok(SessionId { value: value.to_owned() }),
            Err(message) => Err(message),
        }
    }

    pub fn as_str(&self) -> (value: &str)
        ensures
            value@ == self@,
            is_session_id(value@),
    {
        proof {
            use_type_invariant(self);
        }
        self.value.as_str()
    }
}

/// A command: a program and its arguments.
#[derive(Debug)]
pub struct CommandArgv {
    value: Vec<String>,
}

impl View for CommandArgv {
    type V = Seq<Seq<char>>;

    closed spec fn view(&self) -> Seq<Seq<char>> {
        texts_view(self.value@)
    }
}

impl Clone for CommandArgv {
    fn clone(&self) -> (copy: CommandArgv)
        ensures
            copy@ == self@,
    {
        proof {
            use_type_invariant(self);
        }
        CommandArgv { value: copy_texts(&self.value) }
    }
}

impl CommandArgv {
    #[verifier::type_invariant]
    spec fn valid(self) -> bool {
        self.value@.len() > 0
    }

    /// Takes a command, which has at least a program.
    pub fn parse(value: Vec<String>) -> (result: Result<CommandArgv, String>)
        ensures
            match result {
                Ok(argv) => value@.len() > 0 && argv@ == texts_view(value@),
                Err(message) => value@.len() == 0 && message@
                    == "command must contain at least one argv entry"@,
            },
    {
        if value.len() == 0 {
            Err("command must contain at least one argv entry".to_owned())
        } else {
            Ok(CommandArgv { value })
        }
    }

    pub fn as_slice(&self) -> (value: &[String])
        ensures
            texts_view(value@) == self@,
            value@.len() > 0,
    {
        proof {
            use_type_invariant(self);
        }
        self.value.as_slice()
    }
}

/// The name of a heartbeat.
#[derive(Debug)]
pub struct HeartbeatName {
    value: String,
}

impl View for HeartbeatName {
    type V = Seq<char>;

    closed spec fn view(&self) -> Seq<char> {
        self.value@
    }
}

/// What is wrong with the name of a heartbeat.
pub open spec fn heartbeat_name_mistake(value: Seq<char>) -> Option<Seq<char>> {
    if value.len() == 0 {
        Some("heartbeat name must not be empty"@)
    } else if byte_len(value) > 64 {
        Some("heartbeat name must be at most 64 bytes"@)
    } else if !has_name_chars(value) {
        Some("heartbeat name may contain only ASCII letters, digits, '.', '_' and '-'"@)
    } else {
        None
    }
}

impl Clone for HeartbeatName {
    fn clone(&self) -> (copy: HeartbeatName)
        ensures
            copy@ == self@,
    {
        proof {
            use_type_invariant(self);
        }
        HeartbeatName { value: self.value.clone() }
    }
}

impl HeartbeatName {
    #[verifier::type_invariant]
    spec fn valid(self) -> bool {
        heartbeat_name_mistake(self.value@) is None
    }

    /// Reads the name of a heartbeat.
    pub fn parse(value: &str) -> (result: Result<HeartbeatName, String>)
        ensures
            match result {
                Ok(name) => heartbeat_name_mistake(value@) is None && name@ == value@,
                Err(message) => heartbeat_name_mistake(value@) == Some(message@),
            },
    {
        if value.is_empty() {
            Err("heartbeat name must not be empty".to_owned())
        } else if byte_length(value) > 64 {
            Err("heartbeat name must be at most 64 bytes".to_owned())
        } else if !only_name_chars(value) {
            Err(
                "heartbeat name may contain only ASCII letters, digits, '.', '_' and '-'".to_owned(),
            )
        } else {
            Ok(HeartbeatName { value: value.to_owned() })
        }
    }

    pub fn as_str(&self) -> (value: &str)
        ensures
            value@ == self@,
            heartbeat_name_mistake(value@) is None,
    {
        proof {
            use_type_invariant(self);
        }
        self.value.as_str()
    }
}

/// The interval of a heartbeat: a second to a day.
#[derive(Clone, Copy, Debug, PartialEq, Eq, Structural)]
pub struct HeartbeatInterval {
    value: u64,
}

impl HeartbeatInterval {
    #[verifier::type_invariant]
    spec fn valid(self) -> bool {
        1 <= self.value <= HEARTBEAT_MAX_INTERVAL_SECONDS
    }

    pub closed spec fn spec_seconds(self) -> u64 {
        self.value
    }

    /// Takes an interval.
    pub fn parse(value: u64) -> (result: Result<HeartbeatInterval, String>)
        ensures
            match result {
                Ok(interval) => 1 <= value <= HEARTBEAT_MAX_INTERVAL_SECONDS
                    && interval.spec_seconds() == value,
                Err(message) => !(1 <= value <= HEARTBEAT_MAX_INTERVAL_SECONDS) && message@
                    == "interval_seconds must be between 1 and 86400"@,
            },
    {
        if 1 <= value && value <= HEARTBEAT_MAX_INTERVAL_SECONDS {
            Ok(HeartbeatInterval { value })
        } else {
            Err("interval_seconds must be between 1 and 86400".to_owned())
        }
    }

    pub fn seconds(self) -> (seconds: u64)
        ensures
            seconds == self.spec_seconds(),
            1 <= seconds <= HEARTBEAT_MAX_INTERVAL_SECONDS,
    {
        proof {
            use_type_invariant(&self);
        }
        self.value
    }
}

/// How long to wait for a tick: one to 25 seconds.
#[derive(Clone, Copy, Debug, PartialEq, Eq, Structural)]
pub struct HeartbeatWait {
    value: u64,
}

impl HeartbeatWait {
    #[verifier::type_invariant]
    spec fn valid(self) -> bool {
        1 <= self.value <= HEARTBEAT_MAX_WAIT_SECONDS
    }

    pub closed spec fn spec_seconds(self) -> u64 {
        self.value
    }

    /// Takes a time to wait.
    pub fn parse(value: u64) -> (result: Result<HeartbeatWait, String>)
        ensures
            match result {
                Ok(wait) => 1 <= value <= HEARTBEAT_MAX_WAIT_SECONDS && wait.spec_seconds()
                    == value,
                Err(message) => !(1 <= value <= HEARTBEAT_MAX_WAIT_SECONDS) && message@
                    == "max_wait_seconds must be between 1 and 25"@,
            },
    {
        if 1 <= value && value <= HEARTBEAT_MAX_WAIT_SECONDS {
            Ok(HeartbeatWait { value })
        } else {
            Err("max_wait_seconds must be between 1 and 25".to_owned())
        }
    }

    pub fn seconds(self) -> (seconds: u64)
        ensures
            seconds == self.spec_seconds(),
            1 <= seconds <= HEARTBEAT_MAX_WAIT_SECONDS,
    {
        proof {
            use_type_invariant(&self);
        }
        self.value
    }
}

/// One of the two streams of a command.
#[derive(Clone, Copy, Debug, PartialEq, Eq, Structural)]
pub enum JobLogStream {
    Stdout,
    Stderr,
}

impl JobLogStream {
    /// The word for this stream.
    pub open spec fn word(self) -> Seq<char> {
        match self {
            JobLogStream::Stdout => "stdout"@,
            JobLogStream::Stderr => "stderr"@,
        }
    }

    /// Reads the word for a stream.
    pub fn parse(value: &str) -> (stream: Option<JobLogStream>)
        ensures
            match stream {
                Some(stream) => value@ == stream.word(),
                None => value@ != "stdout"@ && value@ != "stderr"@,
            },
    {
        if same_text(value, "stdout") {
            Some(JobLogStream::Stdout)
        } else if same_text(value, "stderr") {
            Some(JobLogStream::Stderr)
        } else {
            None
        }
    }

    pub fn as_str(self) -> (word: &'static str)
        ensures
            word@ == self.word(),
    {
        match self {
            JobLogStream::Stdout => "stdout",
            JobLogStream::Stderr => "stderr",
        }
    }
}

/// How many bytes of a stream to read: one to 65536.
#[derive(Clone, Copy, Debug, PartialEq, Eq, Structural)]
pub struct JobLogLength {
    value: u64,
}

impl JobLogLength {
    #[verifier::type_invariant]
    spec fn valid(self) -> bool {
        1 <= self.value <= JOB_LOG_MAX_READ_BYTES
    }

    pub closed spec fn spec_bytes(self) -> u64 {
        self.value
    }

    /// Takes a number of bytes.
    pub fn parse(value: u64) -> (result: Result<JobLogLength, String>)
        ensures
            match result {
                Ok(length) => 1 <= value <= JOB_LOG_MAX_READ_BYTES && length.spec_bytes() == value,
                Err(message) => !(1 <= value <= JOB_LOG_MAX_READ_BYTES) && message@
                    == "length must be between 1 and 65536"@,
            },
    {
        if 1 <= value && value <= JOB_LOG_MAX_READ_BYTES {
            Ok(JobLogLength { value })
        } else {
            Err("length must be between 1 and 65536".to_owned())
        }
    }

    pub fn bytes(self) -> (bytes: usize)
        ensures
            bytes == self.spec_bytes(),
            1 <= bytes <= JOB_LOG_MAX_READ_BYTES,
    {
        proof {
            use_type_invariant(&self);
        }
        self.value as usize
    }
}

#[derive(Debug)]
pub struct SessionInfoArgs {
    pub session_id: SessionId,
}

#[derive(Debug)]
pub struct ReadFileArgs {
    pub session_id: SessionId,
    pub path: String,
}

#[derive(Debug)]
pub struct GetImageArgs {
    pub session_id: SessionId,
    pub path: String,
}

#[derive(Debug)]
pub struct ListDirectoryArgs {
    pub session_id: SessionId,
    pub path: String,
}

#[derive(Debug)]
pub struct WriteFileArgs {
    pub session_id: SessionId,
    pub path: String,
    pub content: String,
}

#[derive(Debug)]
pub struct ExecuteArgs {
    pub session_id: SessionId,
    pub command: CommandArgv,
    pub cwd: Option<String>,
}

#[derive(Debug)]
pub struct StartCommandArgs {
    pub session_id: SessionId,
    pub command: CommandArgv,
    pub cwd: Option<String>,
}

#[derive(Debug)]
pub struct PollJobArgs {
    pub session_id: SessionId,
    pub job_id: JobId,
}

#[derive(Debug)]
pub struct StopJobArgs {
    pub session_id: SessionId,
    pub job_id: JobId,
}

#[derive(Debug)]
pub struct ReadJobLogArgs {
    pub session_id: SessionId,
    pub job_id: JobId,
    pub stream: JobLogStream,
    pub offset: Option<u64>,
    pub length: Option<JobLogLength>,
}

#[derive(Debug)]
pub struct HeartbeatStartArgs {
    pub session_id: SessionId,
    pub interval_seconds: HeartbeatInterval,
    pub name: Option<HeartbeatName>,
}

#[derive(Debug)]
pub struct HeartbeatWaitArgs {
    pub session_id: SessionId,
    pub name: Option<HeartbeatName>,
    pub max_wait_seconds: Option<HeartbeatWait>,
}

#[derive(Debug)]
pub struct HeartbeatStatusArgs {
    pub session_id: SessionId,
    pub name: Option<HeartbeatName>,
}

#[derive(Debug)]
pub struct HeartbeatStopArgs {
    pub session_id: SessionId,
    pub name: Option<HeartbeatName>,
}

#[derive(Debug)]
pub struct WithoutSandboxArgs {
    pub session_id: SessionId,
    pub command: CommandArgv,
    pub cwd: Option<String>,
}

/// The name of a heartbeat is accepted exactly if it has 1 to 64 bytes, each an ASCII letter, a digit, a dot,
/// an underscore or a hyphen.
pub proof fn law_heartbeat_names_are_plain(value: Seq<char>)
    ensures
        heartbeat_name_mistake(value) is None <==> {
            &&& 1 <= byte_len(value) <= 64
            &&& forall|i: int|
                0 <= i < value.len() ==> {
                    let c = #[trigger] value[i];
                    'a' <= c <= 'z' || 'A' <= c <= 'Z' || '0' <= c <= '9' || c == '.' || c == '_' || c
                        == '-'
                }
        },
{
    lemma_byte_len_bounds(value);
    if has_name_chars(value) {
        assert forall|i: int| 0 <= i < value.len() implies {
            let c = #[trigger] value[i];
            'a' <= c <= 'z' || 'A' <= c <= 'Z' || '0' <= c <= '9' || c == '.' || c == '_' || c == '-'
        } by {
            assert(is_name_char(value[i]));
        }
    }
    if forall|i: int|
        0 <= i < value.len() ==> {
            let c = #[trigger] value[i];
            'a' <= c <= 'z' || 'A' <= c <= 'Z' || '0' <= c <= '9' || c == '.' || c == '_' || c == '-'
        } {
        assert(has_name_chars(value));
    }
}

} // verus!
