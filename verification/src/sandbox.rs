//! How a command ends and what is kept of its output.
use vstd::prelude::*;
use vstd::utf8::encode_utf8;

use crate::encoding::{from_utf8_lossy, lossy_text};
use crate::text::same_text;

verus! {

pub const INTERNAL_CAPTURE_LIMIT: usize = 65536;

pub const STREAM_BUFFER_BYTES: usize = 8192;

pub const TERMINATION_GRACE_MILLIS: u64 = 500;

/// Why a command is brought to its end.
#[derive(Clone, Copy, Debug, PartialEq, Eq, Structural)]
pub enum StopTrigger {
    Requested,
    Timeout,
    Cancellation,
    Completion,
}

/// How a command ended.
#[derive(Clone, Copy, Debug, PartialEq, Eq, Structural)]
pub enum Termination {
    Exited,
    Stopped,
    TimedOut,
    Cancelled,
    ForcedKill(StopTrigger),
}

/// What a command left: its status and its two streams as text.
#[derive(Debug)]
pub struct Output {
    pub status: i32,
    pub stdout: String,
    pub stderr: String,
    pub termination: Termination,
}

/// What is kept of a stream: its length, its beginning and its end.
#[derive(Debug)]
pub struct StreamCapture {
    pub bytes: u64,
    pub head: Vec<u8>,
    pub tail: Vec<u8>,
}

/// What a command left, its streams as they were captured.
#[derive(Debug)]
pub struct LoggedOutput {
    pub status: i32,
    pub stdout: StreamCapture,
    pub stderr: StreamCapture,
    pub termination: Termination,
}

impl StopTrigger {
    /// The word for this trigger.
    pub open spec fn word(self) -> Seq<char> {
        match self {
            StopTrigger::Requested => "stop"@,
            StopTrigger::Timeout => "timeout"@,
            StopTrigger::Cancellation => "cancellation"@,
            StopTrigger::Completion => "completion"@,
        }
    }

    pub fn as_str(self) -> (word: &'static str)
        ensures
            word@ == self.word(),
    {
        match self {
            StopTrigger::Requested => "stop",
            StopTrigger::Timeout => "timeout",
            StopTrigger::Cancellation => "cancellation",
            StopTrigger::Completion => "completion",
        }
    }
}

impl Termination {
    /// The word for this end.
    pub open spec fn word(self) -> Seq<char> {
        match self {
            Termination::Exited => "exited"@,
            Termination::Stopped => "stopped"@,
            Termination::TimedOut => "timeout"@,
            Termination::Cancelled => "cancelled"@,
            Termination::ForcedKill(_) => "forced_kill"@,
        }
    }

    /// What brought this end about.
    pub open spec fn cause(self) -> Option<StopTrigger> {
        match self {
            Termination::Exited => None,
            Termination::Stopped => Some(StopTrigger::Requested),
            Termination::TimedOut => Some(StopTrigger::Timeout),
            Termination::Cancelled => Some(StopTrigger::Cancellation),
            Termination::ForcedKill(trigger) => Some(trigger),
        }
    }

    pub fn as_str(self) -> (word: &'static str)
        ensures
            word@ == self.word(),
    {
        match self {
            Termination::Exited => "exited",
            Termination::Stopped => "stopped",
            Termination::TimedOut => "timeout",
            Termination::Cancelled => "cancelled",
            Termination::ForcedKill(_) => "forced_kill",
        }
    }

    pub fn trigger(self) -> (trigger: Option<StopTrigger>)
        ensures
            trigger == self.cause(),
    {
        match self {
            Termination::Exited => None,
            Termination::Stopped => Some(StopTrigger::Requested),
            Termination::TimedOut => Some(StopTrigger::Timeout),
            Termination::Cancelled => Some(StopTrigger::Cancellation),
            Termination::ForcedKill(trigger) => Some(trigger),
        }
    }
}

/// The end of a command that followed a trigger without being killed.
pub open spec fn willing_end(trigger: StopTrigger) -> Termination {
    match trigger {
        StopTrigger::Requested => Termination::Stopped,
        StopTrigger::Timeout => Termination::TimedOut,
        StopTrigger::Cancellation => Termination::Cancelled,
        StopTrigger::Completion => Termination::Exited,
    }
}

/// The end of a command that followed a trigger without being killed.
pub fn graceful_termination(trigger: StopTrigger) -> (termination: Termination)
    ensures
        termination == willing_end(trigger),
{
    match trigger {
        StopTrigger::Requested => Termination::Stopped,
        StopTrigger::Timeout => Termination::TimedOut,
        StopTrigger::Cancellation => Termination::Cancelled,
        StopTrigger::Completion => Termination::Exited,
    }
}

/// A willing end tells its trigger, except that completion is no trigger to speak of.
pub proof fn law_willing_end_tells_its_trigger(trigger: StopTrigger)
    ensures
        willing_end(trigger).cause() == if trigger == StopTrigger::Completion {
            None
        } else {
            Some(trigger)
        },
        Termination::ForcedKill(trigger).cause() == Some(trigger),
{
}

/// The last `limit` bytes of a stream, or all of it where it is shorter.
pub open spec fn ending(stream: Seq<u8>, limit: int) -> Seq<u8> {
    if stream.len() <= limit {
        stream
    } else {
        stream.skip(stream.len() - limit)
    }
}

/// The first `limit` bytes of a stream, or all of it where it is shorter.
pub open spec fn beginning(stream: Seq<u8>, limit: int) -> Seq<u8> {
    if stream.len() <= limit {
        stream
    } else {
        stream.take(limit)
    }
}

impl StreamCapture {
    /// Whether this is what a capture with `limit` bytes at each end keeps of `stream`.
    pub open spec fn keeps(self, stream: Seq<u8>, limit: int) -> bool {
        &&& self.bytes == if stream.len() <= u64::MAX {
            stream.len() as int
        } else {
            u64::MAX as int
        }
        &&& self.head@ == beginning(stream, limit)
        &&& self.tail@ == ending(stream, limit)
    }

    /// The capture of a stream of which nothing was read yet.
    pub fn new() -> (capture: StreamCapture)
        ensures
            forall|limit: int| 0 <= limit ==> #[trigger] capture.keeps(Seq::empty(), limit),
    {
        StreamCapture { bytes: 0, head: Vec::new(), tail: Vec::new() }
    }

    /// Takes in the bytes that a stream gives next.
    pub fn absorb(&mut self, chunk: &[u8], limit: usize)
        ensures
            final(self).bytes == if old(self).bytes + chunk@.len() <= u64::MAX {
                old(self).bytes + chunk@.len()
            } else {
                u64::MAX as int
            },
            final(self).head@ == if old(self).head@.len() < limit {
                old(self).head@ + beginning(chunk@, limit - old(self).head@.len())
            } else {
                old(self).head@
            },
            final(self).tail@ == if limit == 0 {
                old(self).tail@
            } else {
                ending(old(self).tail@ + chunk@, limit as int)
            },
            forall|stream: Seq<u8>| #[trigger]
                old(self).keeps(stream, limit as int) ==> final(self).keeps(
                    stream + chunk@,
                    limit as int,
                ),
    {
        let read: u64 = chunk.len() as u64;
        self.bytes = self.bytes.saturating_add(read);
        let room: usize = limit.saturating_sub(self.head.len());
        let taken: usize = if chunk.len() < room {
            chunk.len()
        } else {
            room
        };
        append_bytes(&mut self.head, chunk, 0, taken);
        update_tail(&mut self.tail, chunk, limit);
        proof {
            assert(chunk@.subrange(0, taken as int) =~= beginning(chunk@, room as int));
            assert(room == 0 ==> self.head@ =~= old(self).head@);
            assert forall|stream: Seq<u8>| #[trigger]
                old(self).keeps(stream, limit as int) implies self.keeps(
                stream + chunk@,
                limit as int,
            ) by {
                lemma_capture_grows(stream, chunk@, limit as int);
                assert(self.head@ == beginning(stream + chunk@, limit as int));
                assert(self.tail@ == ending(stream + chunk@, limit as int));
                assert((stream + chunk@).len() == stream.len() + chunk@.len());
            }
        }
    }
}

proof fn lemma_capture_grows(stream: Seq<u8>, chunk: Seq<u8>, limit: int)
    requires
        0 <= limit,
    ensures
        beginning(stream + chunk, limit) == if beginning(stream, limit).len() < limit {
            beginning(stream, limit) + beginning(chunk, limit - beginning(stream, limit).len())
        } else {
            beginning(stream, limit)
        },
        limit > 0 ==> ending(stream + chunk, limit) == ending(ending(stream, limit) + chunk, limit),
        limit == 0 ==> ending(stream + chunk, limit) == ending(stream, limit),
{
    assert(beginning(stream + chunk, limit) =~= if beginning(stream, limit).len() < limit {
        beginning(stream, limit) + beginning(chunk, limit - beginning(stream, limit).len())
    } else {
        beginning(stream, limit)
    });
    assert(limit > 0 ==> ending(stream + chunk, limit) =~= ending(
        ending(stream, limit) + chunk,
        limit,
    ));
    assert(limit == 0 ==> ending(stream + chunk, limit) =~= ending(stream, limit));
}

/// Appends the bytes of `source` from `from` up to `to`.
fn append_bytes(target: &mut Vec<u8>, source: &[u8], from: usize, to: usize)
    requires
        from <= to <= source@.len(),
    ensures
        final(target)@ == old(target)@ + source@.subrange(from as int, to as int),
{
    let mut index: usize = from;
    while index < to
        invariant
            from <= index <= to <= source@.len(),
            target@ == old(target)@ + source@.subrange(from as int, index as int),
        decreases to - index,
    {
        target.push(source[index]);
        proof {
            assert(source@.subrange(from as int, index + 1) =~= source@.subrange(
                from as int,
                index as int,
            ).push(source@[index as int]));
        }
        index = index + 1;
    }
}

/// Keeps in `tail` the last `limit` bytes of what it held and of `chunk` behind it. With a limit
/// of zero it leaves `tail` alone.
pub fn update_tail(tail: &mut Vec<u8>, chunk: &[u8], limit: usize)
    ensures
        final(tail)@ == if limit == 0 {
            old(tail)@
        } else {
            ending(old(tail)@ + chunk@, limit as int)
        },
{
    if limit == 0 {
        return;
    }
    let length: usize = chunk.len();
    if length >= limit {
        tail.clear();
        append_bytes(tail, chunk, length - limit, length);
        proof {
            assert(tail@ =~= ending(old(tail)@ + chunk@, limit as int));
        }
        return;
    }
    let kept: usize = limit - length;
    if tail.len() > kept {
        let overflow: usize = tail.len() - kept;
        let rest: Vec<u8> = tail.split_off(overflow);
        *tail = rest;
    }
    append_bytes(tail, chunk, 0, length);
    proof {
        assert(tail@ =~= ending(old(tail)@ + chunk@, limit as int));
    }
}

/// What is shown of a captured stream: all of it where the beginning holds all, else the beginning
/// and the end with a mark between them.
pub open spec fn shown_bytes(capture: StreamCapture) -> Seq<u8> {
    if capture.bytes <= capture.head@.len() {
        capture.head@
    } else {
        capture.head@ + encode_utf8("\n... output truncated ...\n"@) + capture.tail@
    }
}

/// What is shown of a captured stream.
pub fn bounded_stream_bytes(capture: StreamCapture) -> (bytes: Vec<u8>)
    ensures
        bytes@ == shown_bytes(capture),
{
    let complete: bool = capture.bytes <= capture.head.len() as u64;
    let mut bytes: Vec<u8> = capture.head;
    if complete {
        return bytes;
    }
    let mark: &[u8] = "\n... output truncated ...\n".as_bytes();
    append_bytes(&mut bytes, mark, 0, mark.len());
    append_bytes(&mut bytes, capture.tail.as_slice(), 0, capture.tail.len());
    proof {
        assert(mark@.subrange(0, mark@.len() as int) =~= mark@);
        assert(capture.tail@.subrange(0, capture.tail@.len() as int) =~= capture.tail@);
    }
    bytes
}

/// What a command left: its status, how it ended, and its streams as text, the first one first.
pub open spec fn shown_output(output: LoggedOutput) -> (i32, Termination, Seq<char>, Seq<char>) {
    (
        output.status,
        output.termination,
        lossy_text(shown_bytes(output.stdout)),
        lossy_text(shown_bytes(output.stderr)),
    )
}

/// What a command left, its streams as text.
pub fn logged_output_to_output(output: LoggedOutput) -> (shown: Output)
    ensures
        (shown.status, shown.termination, shown.stdout@, shown.stderr@) == shown_output(output),
{
    let stdout: Vec<u8> = bounded_stream_bytes(output.stdout);
    let stderr: Vec<u8> = bounded_stream_bytes(output.stderr);
    Output {
        status: output.status,
        stdout: from_utf8_lossy(stdout.as_slice()),
        stderr: from_utf8_lossy(stderr.as_slice()),
        termination: output.termination,
    }
}

/// A stream that fits into the capture is shown as it is; a longer one is shown by its two ends.
pub proof fn law_shown_stream(capture: StreamCapture, stream: Seq<u8>, limit: int)
    requires
        0 <= limit < u64::MAX,
        capture.keeps(stream, limit),
    ensures
        stream.len() <= limit ==> shown_bytes(capture) == stream,
        stream.len() > limit ==> shown_bytes(capture) == stream.take(limit) + encode_utf8(
            "\n... output truncated ...\n"@,
        ) + stream.skip(stream.len() - limit),
{
}

/// The environment variables that a sandboxed command gets to see.
pub open spec fn safe_names() -> Seq<Seq<char>> {
    seq!["PATH"@, "LANG"@, "LC_ALL"@, "TERM"@, "TMPDIR"@, "TEMP"@, "TMP"@, "SystemRoot"@]
}

/// The value of the first variable with this name.
pub open spec fn variable_value(variables: Seq<(String, String)>, name: Seq<char>) -> Option<Seq<char>>
    decreases variables.len(),
{
    if variables.len() == 0 {
        None
    } else if variables[0].0@ == name {
        Some(variables[0].1@)
    } else {
        variable_value(variables.drop_first(), name)
    }
}

/// The variables among `names` that have a value, in the order of the names.
pub open spec fn picked_variables(
    variables: Seq<(String, String)>,
    names: Seq<Seq<char>>,
) -> Seq<(Seq<char>, Seq<char>)>
    decreases names.len(),
{
    if names.len() == 0 {
        Seq::empty()
    } else {
        let before = picked_variables(variables, names.drop_last());
        match variable_value(variables, names.last()) {
            Some(value) => before.push((names.last(), value)),
            None => before,
        }
    }
}

/// Names and values of variables.
pub open spec fn variables_view(variables: Seq<(String, String)>) -> Seq<(Seq<char>, Seq<char>)> {
    Seq::new(variables.len(), |i: int| (variables[i].0@, variables[i].1@))
}

fn find_variable(variables: &Vec<(String, String)>, name: &str) -> (value: Option<String>)
    ensures
        match value {
            Some(value) => variable_value(variables@, name@) == Some(value@),
            None => variable_value(variables@, name@) is None,
        },
{
    let mut index: usize = 0;
    proof {
        assert(variables@.skip(0) =~= variables@);
    }
    while index < variables.len()
        invariant
            index <= variables@.len(),
            variable_value(variables@, name@) == variable_value(
                variables@.skip(index as int),
                name@,
            ),
        decreases variables@.len() - index,
    {
        proof {
            let rest = variables@.skip(index as int);
            assert(rest[0] == variables@[index as int]);
            assert(rest.drop_first() =~= variables@.skip(index + 1));
        }
        if same_text(variables[index].0.as_str(), name) {
            return Some(variables[index].1.clone());
        }
        index = index + 1;
    }
    None
}

fn pick_variable(
    picked: &mut Vec<(String, String)>,
    variables: &Vec<(String, String)>,
    name: &str,
)
    ensures
        variables_view(final(picked)@) == match variable_value(variables@, name@) {
            Some(value) => variables_view(old(picked)@).push((name@, value)),
            None => variables_view(old(picked)@),
        },
{
    if let Some(value) = find_variable(variables, name) {
        picked.push((name.to_owned(), value));
        proof {
            assert(variables_view(picked@) =~= variables_view(old(picked)@).push((name@, value@)));
        }
    }
}

/// The variables that a sandboxed command gets to see, out of those of the server.
pub fn safe_environment(variables: &Vec<(String, String)>) -> (picked: Vec<(String, String)>)
    ensures
        variables_view(picked@) == picked_variables(variables@, safe_names()),
{
    let names: Vec<&'static str> = vec![
        "PATH",
        "LANG",
        "LC_ALL",
        "TERM",
        "TMPDIR",
        "TEMP",
        "TMP",
        "SystemRoot",
    ];
    let mut picked: Vec<(String, String)> = Vec::new();
    let mut index: usize = 0;
    let ghost all = safe_names();
    while index < names.len()
        invariant
            all.len() == names@.len(),
            forall|i: int| 0 <= i < names@.len() ==> (#[trigger] names@[i])@ == all[i],
            index <= names@.len(),
            variables_view(picked@) == picked_variables(variables@, all.take(index as int)),
        decreases names@.len() - index,
    {
        proof {
            assert(all.take(index + 1).drop_last() =~= all.take(index as int));
            assert(all.take(index + 1).last() == all[index as int]);
        }
        pick_variable(&mut picked, variables, names[index]);
        index = index + 1;
    }
    proof {
        assert(all.take(index as int) =~= all);
    }
    picked
}

/// A sandboxed command sees only variables of the list, each with the value that it has.
pub proof fn law_environment_is_restricted(variables: Seq<(String, String)>, names: Seq<Seq<char>>, i: int)
    requires
        0 <= i < picked_variables(variables, names).len(),
    ensures
        names.contains(picked_variables(variables, names)[i].0),
        variable_value(variables, picked_variables(variables, names)[i].0) == Some(
            picked_variables(variables, names)[i].1,
        ),
    decreases names.len(),
{
    let all = picked_variables(variables, names);
    let before = picked_variables(variables, names.drop_last());
    if i < before.len() {
        law_environment_is_restricted(variables, names.drop_last(), i);
        let k = choose|k: int| 0 <= k < names.drop_last().len() && names.drop_last()[k] == before[i].0;
        assert(names[k] == all[i].0);
    } else {
        assert(names[names.len() - 1] == all[i].0);
    }
}

/// A capture holds the first bytes of its stream and the last ones, as many of each as its limit allows, or
/// all of them, and knows how many there were.
pub proof fn law_captures_keep_both_ends(capture: StreamCapture, stream: Seq<u8>, limit: int)
    requires
        0 <= limit,
        capture.keeps(stream, limit),
    ensures
        stream.len() <= limit ==> capture.head@ == stream && capture.tail@ == stream,
        stream.len() > limit ==> capture.head@ == stream.take(limit) && capture.tail@ == stream.skip(
            stream.len() - limit,
        ),
        stream.len() <= u64::MAX ==> capture.bytes == stream.len(),
{
}

proof fn lemma_picked(variables: Seq<(String, String)>, names: Seq<Seq<char>>, k: int)
    requires
        0 <= k < names.len(),
        variable_value(variables, names[k]) is Some,
    ensures
        picked_variables(variables, names).contains(
            (names[k], variable_value(variables, names[k])->0),
        ),
    decreases names.len(),
{
    let all = picked_variables(variables, names);
    let wanted = (names[k], variable_value(variables, names[k])->0);
    if k < names.len() - 1 {
        let fewer = names.drop_last();
        assert(fewer[k] == names[k]);
        lemma_picked(variables, fewer, k);
        let before = picked_variables(variables, fewer);
        let i = choose|i: int| 0 <= i < before.len() && before[i] == wanted;
        assert(all[i] == wanted);
    } else {
        assert(all[all.len() - 1] == wanted);
    }
}

/// A sandboxed command sees these variables and no others: each of them that the server has, with the first
/// value that the server has for it.
pub proof fn law_environments_hold_the_safe_variables(
    variables: Seq<(String, String)>,
    name: Seq<char>,
    place: int,
)
    requires
        0 <= place < variables.len(),
        variables[place].0@ == name,
        forall|j: int| 0 <= j < place ==> (#[trigger] variables[j]).0@ != name,
    ensures
        ({
            let safe = name == "PATH"@ || name == "LANG"@ || name == "LC_ALL"@ || name == "TERM"@ || name
                == "TMPDIR"@ || name == "TEMP"@ || name == "TMP"@ || name == "SystemRoot"@;
            let seen = picked_variables(variables, safe_names());
            &&& safe ==> seen.contains((name, variables[place].1@))
            &&& !safe ==> forall|i: int| 0 <= i < seen.len() ==> (#[trigger] seen[i]).0 != name
        }),
{
    let names = safe_names();
    lemma_first_value(variables, name, place);
    assert(names[0] == "PATH"@ && names[1] == "LANG"@ && names[2] == "LC_ALL"@ && names[3] == "TERM"@);
    assert(names[4] == "TMPDIR"@ && names[5] == "TEMP"@ && names[6] == "TMP"@ && names[7]
        == "SystemRoot"@);
    if names.contains(name) {
        let k = choose|k: int| 0 <= k < names.len() && names[k] == name;
        lemma_picked(variables, names, k);
    }
    let seen = picked_variables(variables, names);
    assert forall|i: int| 0 <= i < seen.len() implies names.contains((#[trigger] seen[i]).0) by {
        law_environment_is_restricted(variables, names, i);
    }
}

proof fn lemma_first_value(variables: Seq<(String, String)>, name: Seq<char>, place: int)
    requires
        0 <= place < variables.len(),
        variables[place].0@ == name,
        forall|j: int| 0 <= j < place ==> (#[trigger] variables[j]).0@ != name,
    ensures
        variable_value(variables, name) == Some(variables[place].1@),
    decreases variables.len(),
{
    if place > 0 {
        assert(variables[0].0@ != name);
        let rest = variables.drop_first();
        assert forall|j: int| 0 <= j < place - 1 implies (#[trigger] rest[j]).0@ != name by {
            assert(rest[j] == variables[j + 1]);
        }
        lemma_first_value(rest, name, place - 1);
    }
}

/// What a command left is told as it was: its status, how it ended, and of each stream what that stream held,
/// all of it where it was captured whole.
pub proof fn law_outputs_tell_their_streams(
    output: LoggedOutput,
    stdout: Seq<u8>,
    stderr: Seq<u8>,
    limit: int,
)
    requires
        0 <= limit < u64::MAX,
        output.stdout.keeps(stdout, limit),
        output.stderr.keeps(stderr, limit),
    ensures
        shown_output(output).0 == output.status,
        shown_output(output).1 == output.termination,
        stdout.len() <= limit ==> shown_output(output).2 == lossy_text(stdout),
        stderr.len() <= limit ==> shown_output(output).3 == lossy_text(stderr),
        stdout.len() > limit ==> shown_output(output).2 == lossy_text(
            stdout.take(limit) + encode_utf8("\n... output truncated ...\n"@) + stdout.skip(
                stdout.len() - limit,
            ),
        ),
        stderr.len() > limit ==> shown_output(output).3 == lossy_text(
            stderr.take(limit) + encode_utf8("\n... output truncated ...\n"@) + stderr.skip(
                stderr.len() - limit,
            ),
        ),
{
    law_shown_stream(output.stdout, stdout, limit);
    law_shown_stream(output.stderr, stderr, limit);
}

} // verus!
