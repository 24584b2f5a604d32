//! The stored logs of commands: which are kept, and how they are read.
use vstd::prelude::*;
use vstd::utf8::{decode_utf8, encode_utf8, valid_utf8};

use crate::command_output::{
    resource_uri, stream_address, LOG_RETENTION_DIRECTORIES, MAX_LOG_READ_BYTES,
};
use crate::encoding::{
    base64_bytes, base64_encode, base64_text, law_base64_is_read_back, text_from_utf8,
};
use crate::job_id::{uuid_text, JobId};
use crate::json::{lemma_member_with, member, ordered, text_member, Json, JsonView};
use crate::order::{
    copy_bytes, goes_before, is_order, keys_view, lemma_lists_all, lemma_places, places,
    sorted_order, KeyView, SortKey,
};
use crate::text::{decimal_digits, decimal_text, same_text};

verus! {

/// The number of the error that Windows gives where a file cannot be opened because it is locked.
pub const WINDOWS_LOCK_VIOLATION: i32 = 33;

/// Whether the marker of a running command is locked, by the number of the error that opening it gave:
/// Windows can refuse to open a file that is locked, other platforms do not.
pub fn open_is_locked(code: Option<i32>, windows: bool) -> (locked: bool)
    ensures
        locked == (windows && code == Some(WINDOWS_LOCK_VIOLATION)),
{
    match code {
        Some(code) => windows && code == WINDOWS_LOCK_VIOLATION,
        None => false,
    }
}

/// Seven days in nanoseconds: how long a log is kept after it was last written.
pub const LOG_RETENTION_AGE_NANOS: i128 = 604800000000000;

/// A directory that holds the logs of one command.
#[derive(Debug)]
pub struct LogDirectory {
    pub name: Vec<u8>,
    /// When it was last changed, in nanoseconds since the beginning of 1970.
    pub modified: i128,
    /// Whether a command is writing to it.
    pub active: bool,
}

/// Whether a directory is in use.
pub open spec fn is_active(directories: Seq<LogDirectory>) -> spec_fn(int) -> bool {
    |i: int| directories[i].active
}

/// Whether a directory is out of use and too old to keep.
pub open spec fn is_stale(directories: Seq<LogDirectory>, now: i128) -> spec_fn(int) -> bool {
    |i: int| !directories[i].active && now - directories[i].modified > LOG_RETENTION_AGE_NANOS
}

/// Whether a directory is out of use and young enough to keep.
pub open spec fn is_fresh(directories: Seq<LogDirectory>, now: i128) -> spec_fn(int) -> bool {
    |i: int| !directories[i].active && now - directories[i].modified <= LOG_RETENTION_AGE_NANOS
}

/// What directories are put in order by: when they were changed, then their names.
pub open spec fn directory_keys(directories: Seq<LogDirectory>, chosen: Seq<usize>) -> Seq<KeyView> {
    Seq::new(
        chosen.len(),
        |i: int| (directories[chosen[i] as int].modified as int, directories[chosen[i] as int].name@),
    )
}

/// How many of the directories that are out of use have to go.
pub open spec fn surplus(active: int, fresh: int, max_existing: int) -> int {
    let room = if max_existing > active {
        max_existing - active
    } else {
        0
    };
    if fresh > room {
        fresh - room
    } else {
        0
    }
}

/// Whether `removed` lists what a cleanup removes: first all that are stale, then the oldest of the
/// others that are out of use, as many as are too many.
pub open spec fn is_cleanup(
    directories: Seq<LogDirectory>,
    now: i128,
    max_existing: int,
    removed: Seq<usize>,
) -> bool {
    let count = directories.len() as int;
    let active = places(count, is_active(directories));
    let stale = places(count, is_stale(directories, now));
    let fresh = places(count, is_fresh(directories, now));
    exists|order: Seq<usize>| #[trigger]
        is_order(directory_keys(directories, fresh), false, order) && removed == stale
            + Seq::new(
            surplus(active.len() as int, fresh.len() as int, max_existing) as nat,
            |k: int| fresh[order[k] as int],
        )
}

proof fn lemma_places_partition(directories: Seq<LogDirectory>, now: i128, count: int)
    requires
        0 <= count <= directories.len(),
    ensures
        places(count, is_active(directories)).len() + places(
            count,
            is_stale(directories, now),
        ).len() + places(count, is_fresh(directories, now)).len() == count,
    decreases count,
{
    if count > 0 {
        lemma_places_partition(directories, now, count - 1);
    }
}

/// What a cleanup removes, in the order in which it is removed.
pub fn log_removals(
    directories: &Vec<LogDirectory>,
    now: i128,
    max_existing: usize,
) -> (removed: Vec<usize>)
    ensures
        is_cleanup(directories@, now, max_existing as int, removed@),
{
    let ghost all = directories@;
    let cutoff: i128 = if now < i128::MIN + LOG_RETENTION_AGE_NANOS {
        i128::MIN
    } else {
        now - LOG_RETENTION_AGE_NANOS
    };
    let mut active: usize = 0;
    let mut removed: Vec<usize> = Vec::new();
    let mut fresh: Vec<usize> = Vec::new();
    let mut keys: Vec<SortKey> = Vec::new();
    let mut index: usize = 0;
    while index < directories.len()
        invariant
            all == directories@,
            index <= all.len(),
            now < i128::MIN + LOG_RETENTION_AGE_NANOS ==> cutoff == i128::MIN,
            now >= i128::MIN + LOG_RETENTION_AGE_NANOS ==> cutoff == now - LOG_RETENTION_AGE_NANOS,
            active == places(index as int, is_active(all)).len(),
            active <= index,
            removed@ == places(index as int, is_stale(all, now)),
            fresh@ == places(index as int, is_fresh(all, now)),
            keys@.len() == fresh@.len(),
            keys_view(keys@) == directory_keys(all, fresh@),
        decreases all.len() - index,
    {
        if directories[index].active {
            active = active + 1;
        } else if directories[index].modified < cutoff {
            removed.push(index);
        } else {
            let ghost fresh_before = fresh@;
            let ghost keys_before = keys@;
            let name: Vec<u8> = copy_bytes(&directories[index].name);
            keys.push(SortKey { time: directories[index].modified, name });
            fresh.push(index);
            proof {
                assert(keys_view(keys@) =~= keys_view(keys_before).push(
                    (all[index as int].modified as int, all[index as int].name@),
                ));
                assert(directory_keys(all, fresh@) =~= directory_keys(all, fresh_before).push(
                    (all[index as int].modified as int, all[index as int].name@),
                ));
            }
        }
        index = index + 1;
    }
    let order: Vec<usize> = sorted_order(&keys, false);
    let room: usize = max_existing.saturating_sub(active);
    let count: usize = fresh.len().saturating_sub(room);
    let ghost stale = removed@;
    let ghost oldest = Seq::new(count as nat, |k: int| fresh@[order@[k] as int]);
    let mut taken: usize = 0;
    proof {
        assert(stale + oldest.take(0) =~= stale);
    }
    while taken < count
        invariant
            count <= fresh@.len(),
            order@.len() == fresh@.len(),
            forall|a: int| 0 <= a < order@.len() ==> 0 <= #[trigger] order@[a] < fresh@.len(),
            taken <= count,
            oldest == Seq::new(count as nat, |k: int| fresh@[order@[k] as int]),
            removed@ == stale + oldest.take(taken as int),
        decreases count - taken,
    {
        removed.push(fresh[order[taken]]);
        proof {
            assert(oldest.take(taken + 1) =~= oldest.take(taken as int).push(oldest[taken as int]));
            assert(stale + oldest.take(taken + 1) =~= (stale + oldest.take(taken as int)).push(
                oldest[taken as int],
            ));
        }
        taken = taken + 1;
    }
    proof {
        assert(oldest.take(count as int) =~= oldest);
        assert(is_order(directory_keys(all, fresh@), false, order@));
    }
    removed
}

/// A cleanup never removes a directory that is in use.
pub proof fn law_cleanup_spares_active(
    directories: Seq<LogDirectory>,
    now: i128,
    max_existing: int,
    removed: Seq<usize>,
    k: int,
)
    requires
        directories.len() <= usize::MAX,
        0 <= max_existing,
        is_cleanup(directories, now, max_existing, removed),
        0 <= k < removed.len(),
    ensures
        removed[k] < directories.len(),
        !directories[removed[k] as int].active,
{
    let count = directories.len() as int;
    let stale = places(count, is_stale(directories, now));
    let fresh = places(count, is_fresh(directories, now));
    lemma_places(count, is_stale(directories, now));
    lemma_places(count, is_fresh(directories, now));
    let order = choose|order: Seq<usize>| #[trigger]
        is_order(directory_keys(directories, fresh), false, order) && removed == stale + Seq::new(
            surplus(
                places(count, is_active(directories)).len() as int,
                fresh.len() as int,
                max_existing,
            ) as nat,
            |k: int| fresh[order[k] as int],
        );
    if k < stale.len() {
        assert(removed[k] == stale[k]);
    } else {
        let place = order[k - stale.len()] as int;
        assert(removed[k] == fresh[place]);
        assert(0 <= place < fresh.len());
    }
}

/// After a cleanup at most `max_existing` directories are left, or those in use where they are
/// more than that.
pub proof fn law_cleanup_meets_the_limit(
    directories: Seq<LogDirectory>,
    now: i128,
    max_existing: int,
    removed: Seq<usize>,
)
    requires
        directories.len() <= usize::MAX,
        0 <= max_existing,
        is_cleanup(directories, now, max_existing, removed),
    ensures
        ({
            let active = places(directories.len() as int, is_active(directories)).len();
            directories.len() - removed.len() <= if active > max_existing {
                active as int
            } else {
                max_existing
            }
        }),
{
    lemma_places_partition(directories, now, directories.len() as int);
}

/// Of the directories that a cleanup could keep, it removes none that is newer than one it keeps.
pub proof fn law_cleanup_removes_the_oldest(
    directories: Seq<LogDirectory>,
    now: i128,
    max_existing: int,
    removed: Seq<usize>,
    gone: usize,
    kept: usize,
)
    requires
        directories.len() <= usize::MAX,
        0 <= max_existing,
        is_cleanup(directories, now, max_existing, removed),
        gone < directories.len(),
        kept < directories.len(),
        is_fresh(directories, now)(gone as int),
        is_fresh(directories, now)(kept as int),
        removed.contains(gone),
        !removed.contains(kept),
    ensures
        directories[gone as int].modified <= directories[kept as int].modified,
{
    let count = directories.len() as int;
    let stale = places(count, is_stale(directories, now));
    let fresh = places(count, is_fresh(directories, now));
    let keys = directory_keys(directories, fresh);
    lemma_places(count, is_stale(directories, now));
    lemma_places(count, is_fresh(directories, now));
    let size = surplus(
        places(count, is_active(directories)).len() as int,
        fresh.len() as int,
        max_existing,
    );
    let order = choose|order: Seq<usize>| #[trigger]
        is_order(keys, false, order) && removed == stale + Seq::new(
            size as nat,
            |k: int| fresh[order[k] as int],
        );
    let r = choose|r: int| 0 <= r < removed.len() && removed[r] == gone;
    assert(r >= stale.len()) by {
        if r < stale.len() {
            assert(is_stale(directories, now)(stale[r] as int));
        }
    }
    let a = r - stale.len();
    assert(fresh.contains(kept));
    let f = choose|f: int| 0 <= f < fresh.len() && #[trigger] fresh[f] == kept;
    lemma_lists_all(keys, false, order, f as usize);
    let b = choose|b: int| 0 <= b < order.len() && #[trigger] order[b] == f as usize;
    assert(b >= size) by {
        if b < size {
            assert(removed[stale.len() + b] == kept);
        }
    }
    assert(goes_before(keys, false, order[a] as int, order[b] as int));
}

/// Whether there is room for the logs of one more command.
pub fn admit_log_directory(existing: usize) -> (result: Result<(), String>)
    ensures
        result is Ok <==> existing < LOG_RETENTION_DIRECTORIES,
        result matches Err(message) ==> message@ == "command log retention limit reached: "@
            + decimal_digits(existing as nat) + " active directories are retained"@,
{
    if existing < LOG_RETENTION_DIRECTORIES {
        Ok(())
    } else {
        let mut message: String = "command log retention limit reached: ".to_owned();
        message.append(decimal_text(existing as u128).as_str());
        message.append(" active directories are retained");
        Err(message)
    }
}

/// After the cleanup that makes room for one more command, there is room unless 128 commands are
/// writing logs.
pub proof fn law_cleanup_makes_room(
    directories: Seq<LogDirectory>,
    now: i128,
    removed: Seq<usize>,
)
    requires
        directories.len() <= usize::MAX,
        is_cleanup(directories, now, LOG_RETENTION_DIRECTORIES - 1, removed),
        places(directories.len() as int, is_active(directories)).len() < LOG_RETENTION_DIRECTORIES,
    ensures
        directories.len() - removed.len() < LOG_RETENTION_DIRECTORIES,
{
    law_cleanup_meets_the_limit(directories, now, LOG_RETENTION_DIRECTORIES - 1, removed);
}

/// A part of a stored stream.
#[derive(Clone, Copy, Debug, PartialEq, Eq, Structural)]
pub struct LogWindow {
    pub start: u64,
    pub count: usize,
    pub total: u64,
}

/// The part that a read gives: from the offset, or from the end where the offset is beyond it, and
/// no more than `length` bytes.
pub open spec fn window_of(offset: u64, length: usize, total: u64) -> LogWindow {
    let start = if offset < total {
        offset
    } else {
        total
    };
    let count = if total - start < length {
        total - start
    } else {
        length as int
    };
    LogWindow { start, count: count as usize, total }
}

/// What is wrong with a request for a part of a stream.
pub open spec fn read_mistake(stream: Seq<char>, length: usize) -> Option<Seq<char>> {
    if stream != "stdout"@ && stream != "stderr"@ {
        Some("stream must be stdout or stderr"@)
    } else if length == 0 {
        Some("length must be at least 1"@)
    } else if length > MAX_LOG_READ_BYTES {
        Some("length must be at most 65536"@)
    } else {
        None
    }
}

/// Checks a request for a part of a stream.
pub fn check_read(stream: &str, length: usize) -> (result: Result<(), String>)
    ensures
        match result {
            Ok(_) => read_mistake(stream@, length) is None,
            Err(message) => read_mistake(stream@, length) == Some(message@),
        },
{
    if !same_text(stream, "stdout") && !same_text(stream, "stderr") {
        Err("stream must be stdout or stderr".to_owned())
    } else if length == 0 {
        Err("length must be at least 1".to_owned())
    } else if length > MAX_LOG_READ_BYTES {
        Err("length must be at most 65536".to_owned())
    } else {
        Ok(())
    }
}

/// The part of a stream of `total` bytes that a read gives.
pub fn log_window(offset: u64, length: usize, total: u64) -> (window: LogWindow)
    ensures
        window == window_of(offset, length, total),
        window.start + window.count <= total,
        window.count <= length,
{
    let start: u64 = if offset < total {
        offset
    } else {
        total
    };
    let available: u64 = total - start;
    let count: usize = if available < length as u64 {
        available as usize
    } else {
        length
    };
    LogWindow { start, count, total }
}

/// How bytes are answered: as text where they are UTF-8, else in base64.
pub open spec fn encoded_bytes(bytes: Seq<u8>) -> (Seq<char>, Seq<char>) {
    if valid_utf8(bytes) {
        ("utf-8"@, decode_utf8(bytes))
    } else {
        ("base64"@, base64_text(bytes))
    }
}

/// The answer to a read of a stream, `bytes` being what the part holds.
pub open spec fn range_view(
    job: u128,
    stream: Seq<char>,
    start: u64,
    total: u64,
    bytes: Seq<u8>,
) -> JsonView {
    let next = start + bytes.len();
    let (encoding, data) = encoded_bytes(bytes);
    JsonView::object()
        .with("job_id"@, JsonView::Text(uuid_text(job)))
        .with("stream"@, JsonView::Text(stream))
        .with("resource_uri"@, JsonView::Text(stream_address(job, stream)))
        .with("offset"@, JsonView::Int(start as int))
        .with("bytes_read"@, JsonView::Int(bytes.len() as int))
        .with("total_bytes"@, JsonView::Int(total as int))
        .with("next_offset"@, JsonView::Int(next))
        .with("eof"@, JsonView::Bool(next >= total))
        .with("encoding"@, JsonView::Text(encoding))
        .with("data"@, JsonView::Text(data))
}

/// The answer to a read of a stream, `bytes` being what the part holds.
pub fn read_range(job_id: JobId, stream: &str, window: LogWindow, bytes: &[u8]) -> (json: Json)
    requires
        bytes@.len() == window.count <= MAX_LOG_READ_BYTES,
        window.start + window.count <= window.total,
    ensures
        json@ == range_view(job_id.bits, stream@, window.start, window.total, bytes@),
        ordered(json@),
{
    let decoded: Option<String> = text_from_utf8(bytes);
    proof {
        if decoded is Some {
            vstd::utf8::encode_utf8_decode_utf8(decoded->0@);
        }
    }
    let (encoding, data): (&str, String) = match decoded {
        Some(text) => ("utf-8", text),
        None => ("base64", base64_encode(bytes)),
    };
    let next_offset: u64 = window.start + bytes.len() as u64;
    Json::object()
        .with("job_id", Json::Text(job_id.to_text()))
        .with("stream", Json::text(stream))
        .with("resource_uri", Json::Text(resource_uri(job_id, stream)))
        .with("offset", Json::Unsigned(window.start))
        .with("bytes_read", Json::Unsigned(bytes.len() as u64))
        .with("total_bytes", Json::Unsigned(window.total))
        .with("next_offset", Json::Unsigned(next_offset))
        .with("eof", Json::Bool(next_offset >= window.total))
        .with("encoding", Json::text(encoding))
        .with("data", Json::Text(data))
}

/// What the answer to a read has under a name.
pub open spec fn range_property(
    job: u128,
    stream: Seq<char>,
    start: u64,
    total: u64,
    bytes: Seq<u8>,
    name: Seq<char>,
) -> Option<JsonView> {
    let next = start + bytes.len();
    let (encoding, data) = encoded_bytes(bytes);
    if name == "data"@ {
        Some(JsonView::Text(data))
    } else if name == "encoding"@ {
        Some(JsonView::Text(encoding))
    } else if name == "eof"@ {
        Some(JsonView::Bool(next >= total))
    } else if name == "next_offset"@ {
        Some(JsonView::Int(next))
    } else if name == "total_bytes"@ {
        Some(JsonView::Int(total as int))
    } else if name == "bytes_read"@ {
        Some(JsonView::Int(bytes.len() as int))
    } else if name == "offset"@ {
        Some(JsonView::Int(start as int))
    } else if name == "resource_uri"@ {
        Some(JsonView::Text(stream_address(job, stream)))
    } else if name == "stream"@ {
        Some(JsonView::Text(stream))
    } else if name == "job_id"@ {
        Some(JsonView::Text(uuid_text(job)))
    } else {
        None
    }
}

proof fn lemma_range_property(
    job: u128,
    stream: Seq<char>,
    start: u64,
    total: u64,
    bytes: Seq<u8>,
    name: Seq<char>,
)
    ensures
        member(range_view(job, stream, start, total, bytes), name) == range_property(
            job,
            stream,
            start,
            total,
            bytes,
            name,
        ),
{
    let next = start + bytes.len();
    let (encoding, data) = encoded_bytes(bytes);
    let o0 = JsonView::object();
    lemma_member_with(o0, "job_id"@, JsonView::Text(uuid_text(job)), name);
    let o1 = o0.with("job_id"@, JsonView::Text(uuid_text(job)));
    lemma_member_with(o1, "stream"@, JsonView::Text(stream), name);
    let o2 = o1.with("stream"@, JsonView::Text(stream));
    lemma_member_with(o2, "resource_uri"@, JsonView::Text(stream_address(job, stream)), name);
    let o3 = o2.with("resource_uri"@, JsonView::Text(stream_address(job, stream)));
    lemma_member_with(o3, "offset"@, JsonView::Int(start as int), name);
    let o4 = o3.with("offset"@, JsonView::Int(start as int));
    lemma_member_with(o4, "bytes_read"@, JsonView::Int(bytes.len() as int), name);
    let o5 = o4.with("bytes_read"@, JsonView::Int(bytes.len() as int));
    lemma_member_with(o5, "total_bytes"@, JsonView::Int(total as int), name);
    let o6 = o5.with("total_bytes"@, JsonView::Int(total as int));
    lemma_member_with(o6, "next_offset"@, JsonView::Int(next), name);
    let o7 = o6.with("next_offset"@, JsonView::Int(next));
    lemma_member_with(o7, "eof"@, JsonView::Bool(next >= total), name);
    let o8 = o7.with("eof"@, JsonView::Bool(next >= total));
    lemma_member_with(o8, "encoding"@, JsonView::Text(encoding), name);
    let o9 = o8.with("encoding"@, JsonView::Text(encoding));
    lemma_member_with(o9, "data"@, JsonView::Text(data), name);
}

/// Whether an answer says that the stream ends with it.
pub open spec fn says_eof(answer: JsonView) -> bool {
    member(answer, "eof"@) == Some(JsonView::Bool(true))
}

/// A number in an answer.
pub open spec fn said_number(answer: JsonView, name: Seq<char>) -> int {
    match member(answer, name) {
        Some(JsonView::Int(n)) => n,
        _ => 0,
    }
}

/// The bytes that an answer holds: its data, read in the encoding that it names.
pub open spec fn said_bytes(answer: JsonView) -> Seq<u8> {
    match text_member(answer, "data"@) {
        Some(data) => if text_member(answer, "encoding"@) == Some("utf-8"@) {
            encode_utf8(data)
        } else {
            base64_bytes(data)
        },
        None => Seq::empty(),
    }
}

/// The bytes of a stream in the part that a read gives.
pub open spec fn window_bytes(log: Seq<u8>, offset: int, length: usize) -> Seq<u8> {
    let window = window_of(offset as u64, length, log.len() as u64);
    log.subrange(window.start as int, window.start + window.count)
}

/// The answer to a read of a stream that holds the bytes `log`.
pub open spec fn read_answer(
    job: u128,
    stream: Seq<char>,
    log: Seq<u8>,
    offset: int,
    length: usize,
) -> JsonView {
    let window = window_of(offset as u64, length, log.len() as u64);
    range_view(job, stream, window.start, window.total, window_bytes(log, offset, length))
}

/// The answers to reads of these lengths, one after the other, each from where the one before says the
/// next begins, until one says that the stream ends with it.
pub open spec fn read_answers(
    job: u128,
    stream: Seq<char>,
    log: Seq<u8>,
    offset: int,
    lengths: Seq<usize>,
) -> Seq<JsonView>
    decreases lengths.len(),
{
    if lengths.len() == 0 {
        Seq::empty()
    } else {
        let answer = read_answer(job, stream, log, offset, lengths[0]);
        if says_eof(answer) {
            seq![answer]
        } else {
            seq![answer] + read_answers(
                job,
                stream,
                log,
                said_number(answer, "next_offset"@),
                lengths.drop_first(),
            )
        }
    }
}

/// The bytes that answers hold, put end to end.
pub open spec fn joined_bytes(answers: Seq<JsonView>) -> Seq<u8>
    decreases answers.len(),
{
    if answers.len() == 0 {
        Seq::empty()
    } else {
        said_bytes(answers[0]) + joined_bytes(answers.drop_first())
    }
}

/// What the answer to one read says: how many bytes it holds, where the next read begins, whether the
/// stream ends there; and its data are the bytes, as text exactly where these are UTF-8.
pub proof fn law_reads_say_what_they_hold(
    job: u128,
    stream: Seq<char>,
    log: Seq<u8>,
    offset: int,
    length: usize,
)
    requires
        log.len() <= u64::MAX,
        0 < length <= MAX_LOG_READ_BYTES,
        0 <= offset <= log.len(),
    ensures
        ({
            let answer = read_answer(job, stream, log, offset, length);
            let bytes = window_bytes(log, offset, length);
            &&& bytes.len() == if log.len() - offset < length {
                log.len() - offset
            } else {
                length as int
            }
            &&& bytes == log.subrange(offset, offset + bytes.len())
            &&& said_bytes(answer) == bytes
            &&& said_number(answer, "bytes_read"@) == bytes.len()
            &&& said_number(answer, "next_offset"@) == offset + bytes.len()
            &&& says_eof(answer) <==> offset + bytes.len() == log.len()
            &&& text_member(answer, "encoding"@) == Some("utf-8"@) <==> valid_utf8(bytes)
            &&& text_member(answer, "encoding"@) == Some("base64"@) <==> !valid_utf8(bytes)
        }),
{
    let window = window_of(offset as u64, length, log.len() as u64);
    let bytes = window_bytes(log, offset, length);
    let (start, total) = (window.start, window.total);
    lemma_range_property(job, stream, start, total, bytes, "data"@);
    lemma_range_property(job, stream, start, total, bytes, "encoding"@);
    lemma_range_property(job, stream, start, total, bytes, "eof"@);
    lemma_range_property(job, stream, start, total, bytes, "next_offset"@);
    lemma_range_property(job, stream, start, total, bytes, "bytes_read"@);
    reveal_strlit("data");
    reveal_strlit("encoding");
    reveal_strlit("eof");
    reveal_strlit("next_offset");
    reveal_strlit("total_bytes");
    reveal_strlit("bytes_read");
    reveal_strlit("utf-8");
    reveal_strlit("base64");
    assert("data"@.len() == 4 && "encoding"@.len() == 8 && "eof"@.len() == 3);
    assert("next_offset"@.len() == 11 && "total_bytes"@.len() == 11 && "bytes_read"@.len() == 10);
    assert("next_offset"@[0] == 'n' && "total_bytes"@[0] == 't');
    assert("utf-8"@.len() == 5 && "base64"@.len() == 6);
    if valid_utf8(bytes) {
        vstd::utf8::decode_utf8_encode_utf8(bytes);
    } else {
        law_base64_is_read_back(bytes);
    }
}

/// A stream that is read part after part, in parts of any lengths, each part from where the one before
/// ended, comes out whole: the data of the answers, decoded and put end to end, are the bytes of the
/// stream. Each answer but the last holds as many bytes as were asked for; and the end is reached.
pub proof fn law_reads_give_the_whole_stream(
    job: u128,
    stream: Seq<char>,
    log: Seq<u8>,
    offset: int,
    lengths: Seq<usize>,
)
    requires
        log.len() <= u64::MAX,
        0 <= offset <= log.len(),
        forall|i: int| 0 <= i < lengths.len() ==> 0 < #[trigger] lengths[i] <= MAX_LOG_READ_BYTES,
    ensures
        ({
            let answers = read_answers(job, stream, log, offset, lengths);
            &&& answers.len() <= lengths.len()
            &&& answers.len() > 0 && says_eof(answers.last()) ==> joined_bytes(answers) == log.skip(
                offset,
            )
            &&& forall|i: int|
                0 <= i < answers.len() - 1 ==> said_number(#[trigger] answers[i], "bytes_read"@)
                    == lengths[i] && !says_eof(answers[i])
            &&& lengths.len() > log.len() - offset ==> answers.len() > 0 && says_eof(answers.last())
        }),
    decreases lengths.len(),
{
    if lengths.len() > 0 {
        let length = lengths[0];
        let answers = read_answers(job, stream, log, offset, lengths);
        let answer = read_answer(job, stream, log, offset, length);
        let bytes = window_bytes(log, offset, length);
        law_reads_say_what_they_hold(job, stream, log, offset, length);
        assert(answers[0] == answer);
        if says_eof(answer) {
            assert(answers.drop_first() =~= Seq::<JsonView>::empty());
            assert(joined_bytes(answers) =~= bytes) by {
                reveal_with_fuel(joined_bytes, 2);
            }
            assert(log.skip(offset) =~= bytes);
        } else {
            let rest = lengths.drop_first();
            let next = offset + bytes.len();
            let later = read_answers(job, stream, log, next, rest);
            assert forall|i: int| 0 <= i < rest.len() implies 0 < #[trigger] rest[i]
                <= MAX_LOG_READ_BYTES by {
                assert(rest[i] == lengths[i + 1]);
            }
            law_reads_give_the_whole_stream(job, stream, log, next, rest);
            assert(answers.drop_first() =~= later);
            assert(answers =~= seq![answer] + later);
            assert forall|i: int| 0 <= i < answers.len() - 1 implies said_number(
                #[trigger] answers[i],
                "bytes_read"@,
            ) == lengths[i] && !says_eof(answers[i]) by {
                if i > 0 {
                    assert(answers[i] == later[i - 1]);
                    assert(lengths[i] == rest[i - 1]);
                }
            }
            if later.len() > 0 {
                assert(answers.last() == later.last());
                assert(log.skip(offset) =~= bytes + log.skip(next));
            }
        }
    }
}

/// The answer to a read names the job and the stream, and where it can be read again; it says from where it
/// holds the stream, which is the offset that was asked for, or the end where that lies beyond it, and how
/// long the stream is. Beyond the end it holds nothing and says so.
pub proof fn law_reads_name_their_stream(
    job: u128,
    stream: Seq<char>,
    log: Seq<u8>,
    offset: int,
    length: usize,
)
    requires
        log.len() <= u64::MAX,
        0 < length <= 65536,
        0 <= offset <= u64::MAX,
    ensures
        ({
            let answer = read_answer(job, stream, log, offset, length);
            &&& member(answer, "job_id"@) == Some(JsonView::Text(uuid_text(job)))
            &&& member(answer, "stream"@) == Some(JsonView::Text(stream))
            &&& member(answer, "resource_uri"@) == Some(
                JsonView::Text("local-mcp://jobs/"@ + uuid_text(job) + "/"@ + stream),
            )
            &&& member(answer, "total_bytes"@) == Some(JsonView::Int(log.len() as int))
            &&& offset <= log.len() ==> member(answer, "offset"@) == Some(JsonView::Int(offset))
            &&& offset > log.len() ==> member(answer, "offset"@) == Some(
                JsonView::Int(log.len() as int),
            ) && says_eof(answer) && said_number(answer, "bytes_read"@) == 0 && said_number(
                answer,
                "next_offset"@,
            ) == log.len()
        }),
{
    let window = window_of(offset as u64, length, log.len() as u64);
    let bytes = window_bytes(log, offset, length);
    let (start, total) = (window.start, window.total);
    lemma_range_property(job, stream, start, total, bytes, "job_id"@);
    lemma_range_property(job, stream, start, total, bytes, "stream"@);
    lemma_range_property(job, stream, start, total, bytes, "resource_uri"@);
    lemma_range_property(job, stream, start, total, bytes, "total_bytes"@);
    lemma_range_property(job, stream, start, total, bytes, "offset"@);
    lemma_range_property(job, stream, start, total, bytes, "eof"@);
    lemma_range_property(job, stream, start, total, bytes, "bytes_read"@);
    lemma_range_property(job, stream, start, total, bytes, "next_offset"@);
    reveal_strlit("data");
    reveal_strlit("encoding");
    reveal_strlit("eof");
    reveal_strlit("next_offset");
    reveal_strlit("total_bytes");
    reveal_strlit("bytes_read");
    reveal_strlit("offset");
    reveal_strlit("resource_uri");
    reveal_strlit("stream");
    reveal_strlit("job_id");
    assert("data"@.len() == 4 && "encoding"@.len() == 8 && "eof"@.len() == 3);
    assert("next_offset"@.len() == 11 && "total_bytes"@.len() == 11 && "bytes_read"@.len() == 10);
    assert("next_offset"@[0] == 'n' && "total_bytes"@[0] == 't' && "resource_uri"@.len() == 12);
    assert("offset"@.len() == 6 && "stream"@.len() == 6 && "job_id"@.len() == 6);
    assert("offset"@[0] == 'o' && "stream"@[0] == 's' && "job_id"@[0] == 'j');
}

/// A read is refused exactly if it asks for another stream than the two that a command has, for no bytes,
/// or for more than 64 KiB.
pub proof fn law_reads_are_refused_for_a_reason(stream: Seq<char>, length: usize)
    ensures
        read_mistake(stream, length) is None <==> (stream == "stdout"@ || stream == "stderr"@) && 1
            <= length <= 65536,
{
}

/// A cleanup removes every log that is out of use and was last written more than seven days ago; and of
/// the others that are out of use no more than are too many: once it has removed one of those, as many are
/// left as may be.
pub proof fn law_cleanup_removes_the_logs_that_have_to_go(
    directories: Seq<LogDirectory>,
    now: i128,
    max_existing: int,
    removed: Seq<usize>,
    place: usize,
)
    requires
        directories.len() <= usize::MAX,
        0 <= max_existing,
        is_cleanup(directories, now, max_existing, removed),
        place < directories.len(),
        !directories[place as int].active,
    ensures
        now - directories[place as int].modified > 604800000000000 ==> removed.contains(place),
        now - directories[place as int].modified <= 604800000000000 && removed.contains(place)
            ==> directories.len() - removed.len() >= max_existing,
{
    let count = directories.len() as int;
    let active = places(count, is_active(directories));
    let stale = places(count, is_stale(directories, now));
    let fresh = places(count, is_fresh(directories, now));
    lemma_places(count, is_stale(directories, now));
    lemma_places(count, is_fresh(directories, now));
    lemma_places_partition(directories, now, count);
    let size = surplus(active.len() as int, fresh.len() as int, max_existing);
    let order = choose|order: Seq<usize>| #[trigger]
        is_order(directory_keys(directories, fresh), false, order) && removed == stale + Seq::new(
            size as nat,
            |k: int| fresh[order[k] as int],
        );
    if now - directories[place as int].modified > 604800000000000 {
        assert(is_stale(directories, now)(place as int));
        assert(stale.contains(place));
        let k = choose|k: int| 0 <= k < stale.len() && stale[k] == place;
        assert(removed[k] == place);
    } else if removed.contains(place) {
        let k = choose|k: int| 0 <= k < removed.len() && removed[k] == place;
        if k < stale.len() {
            assert(is_stale(directories, now)(stale[k] as int));
        }
        assert(size > 0);
    }
}

} // verus!
