//! The journal of one session: its records, what changes them, and what is kept of them.
use vstd::prelude::*;
use vstd::utf8::encode_utf8;

use crate::job_id::{law_identifiers_differ_in_writing, parsed_uuid, uuid_text, JobId};
use crate::job_journal::{
    bound_persisted_payload, bound_plain_text, exit_code_in_text, kept_payload, parse_exit_code,
    plain_text_within, ExecutionMode, JobRecord, JobState, JobSummary, ListPage, RecordView,
    SummaryView, JOURNAL_VERSION, MAX_COMMAND_BYTES, MAX_JOBS_PER_SESSION,
};
use crate::order::{
    goes_before, is_order, keys_view, law_there_is_one_order, lemma_distinct, lemma_lists_all,
    lemma_places, places, sorted_order, KeyView, SortKey,
};
use crate::json::{member, parsed, quoted, JsonView};
use crate::text::{
    byte_len, bytes_before, lemma_bytes_before_irreflexive, lemma_bytes_before_transitive, same_text,
    text_before,
};

verus! {

/// A job of a session, by the name of its directory: its record, or why it cannot be read.
#[derive(Debug)]
pub struct JobEntry {
    pub name: String,
    pub record: Result<JobRecord, String>,
}

pub type EntryView = (Seq<char>, Result<RecordView, Seq<char>>);

/// What a result of an operation says.
pub open spec fn result_view(result: Result<JobRecord, String>) -> Result<RecordView, Seq<char>> {
    match result {
        Ok(record) => Ok(record@),
        Err(message) => Err(message@),
    }
}

/// What a journal says.
pub open spec fn journal_view(entries: Seq<JobEntry>) -> Seq<EntryView> {
    Seq::new(entries.len(), |i: int| (entries[i].name@, result_view(entries[i].record)))
}

/// The place of the first entry with a name; the length where there is none.
pub open spec fn place_of(journal: Seq<EntryView>, name: Seq<char>) -> int
    decreases journal.len(),
{
    if journal.len() == 0 || journal[0].0 == name {
        0
    } else {
        1 + place_of(journal.drop_first(), name)
    }
}

/// The error for a job that the journal does not have.
pub open spec fn unknown_job(name: Seq<char>) -> Seq<char> {
    "unknown job_id: "@ + name
}

/// The record of a job, or why there is none.
pub open spec fn record_of(journal: Seq<EntryView>, name: Seq<char>) -> Result<RecordView, Seq<char>> {
    let place = place_of(journal, name);
    if place < journal.len() {
        journal[place].1
    } else {
        Err(unknown_job(name))
    }
}

/// The journal with a record under a name.
pub open spec fn with_record(journal: Seq<EntryView>, name: Seq<char>, record: RecordView) -> Seq<EntryView> {
    let place = place_of(journal, name);
    let entry = (name, Ok::<RecordView, Seq<char>>(record));
    if place < journal.len() {
        journal.update(place, entry)
    } else {
        journal.push(entry)
    }
}

/// The journal after a change to the record of a job; the same journal where it cannot be read.
pub open spec fn changed(
    journal: Seq<EntryView>,
    name: Seq<char>,
    change: spec_fn(RecordView) -> RecordView,
) -> Seq<EntryView> {
    match record_of(journal, name) {
        Ok(record) => with_record(journal, name, change(record)),
        Err(_) => journal,
    }
}

/// What a change to the record of a job answers.
pub open spec fn answered(
    journal: Seq<EntryView>,
    name: Seq<char>,
    change: spec_fn(RecordView) -> RecordView,
) -> Result<RecordView, Seq<char>> {
    match record_of(journal, name) {
        Ok(record) => Ok(change(record)),
        Err(message) => Err(message),
    }
}

/// The record of a job that has just been started.
pub open spec fn started(
    session_id: Seq<char>,
    job: u128,
    command: Seq<char>,
    cwd: Seq<char>,
    execution_mode: ExecutionMode,
    now: u64,
    server_pid: u32,
) -> RecordView {
    RecordView {
        version: JOURNAL_VERSION,
        job_id: uuid_text(job),
        session_id,
        command: plain_text_within(command, MAX_COMMAND_BYTES as int),
        cwd,
        execution_mode,
        state: JobState::Running,
        created_at_ms: now,
        started_at_ms: now,
        updated_at_ms: now,
        finished_at_ms: None,
        exit_code: None,
        result: None,
        error: None,
        server_pid,
        process_id: None,
        reattachable: false,
    }
}

/// When a job that ends now ended: when it was first said to have.
pub open spec fn end_time(record: RecordView, now: u64) -> Option<u64> {
    match record.finished_at_ms {
        Some(time) => Some(time),
        None => Some(now),
    }
}

/// A record once its job has given a result or an error. A job that has ended stays as it is.
pub open spec fn finished(
    record: RecordView,
    now: u64,
    result: Result<Seq<char>, Seq<char>>,
) -> RecordView {
    if record.state != JobState::Running {
        record
    } else {
        match result {
            Ok(text) => {
                let code = match exit_code_in_text(text) {
                    Some(code) => Some(code),
                    None => Some(0i32),
                };
                RecordView {
                    state: JobState::Completed,
                    updated_at_ms: now,
                    finished_at_ms: Some(now),
                    exit_code: code,
                    result: Some(kept_payload(text, code, "result"@)),
                    error: None,
                    ..record
                }
            },
            Err(text) => {
                let code = exit_code_in_text(text);
                RecordView {
                    state: JobState::Failed,
                    updated_at_ms: now,
                    finished_at_ms: Some(now),
                    exit_code: code,
                    result: None,
                    error: Some(kept_payload(text, code, "error"@)),
                    ..record
                }
            },
        }
    }
}

/// A record once its job was stopped. A job that has ended stays as it is.
pub open spec fn stopped(record: RecordView, now: u64) -> RecordView {
    if record.state != JobState::Running {
        record
    } else {
        RecordView {
            state: JobState::Stopped,
            updated_at_ms: now,
            finished_at_ms: end_time(record, now),
            error: Some("stopped by request"@),
            ..record
        }
    }
}

/// A record whose job the server has lost.
pub open spec fn orphaned(record: RecordView, now: u64) -> RecordView {
    RecordView {
        state: JobState::Orphaned,
        updated_at_ms: now,
        finished_at_ms: end_time(record, now),
        error: Some(
            "MCP server restarted or lost the in-memory process handle; this process cannot be reattached"@,
        ),
        ..record
    }
}

/// A record as it is seen: a job that is said to run and that no one runs has been lost.
pub open spec fn settled(record: RecordView, active: bool, now: u64) -> RecordView {
    if record.state == JobState::Running && !active {
        orphaned(record, now)
    } else {
        record
    }
}

/// The place of the first entry with a name; the length where there is none.
pub fn find_entry(entries: &Vec<JobEntry>, name: &str) -> (place: usize)
    ensures
        place == place_of(journal_view(entries@), name@),
        place <= entries@.len(),
{
    let ghost journal = journal_view(entries@);
    let mut place: usize = 0;
    proof {
        assert(journal.skip(0) =~= journal);
    }
    while place < entries.len()
        invariant
            journal == journal_view(entries@),
            place <= entries@.len(),
            place_of(journal, name@) == place + place_of(journal.skip(place as int), name@),
        decreases entries@.len() - place,
    {
        proof {
            let rest = journal.skip(place as int);
            assert(rest[0] == journal[place as int]);
            assert(rest.drop_first() =~= journal.skip(place + 1));
        }
        if same_text(entries[place].name.as_str(), name) {
            return place;
        }
        place = place + 1;
    }
    place
}

fn unknown_job_message(name: &str) -> (message: String)
    ensures
        message@ == unknown_job(name@),
{
    let mut message: String = "unknown job_id: ".to_owned();
    message.append(name);
    message
}

/// The record of a job, or why there is none.
pub fn find_record(entries: &Vec<JobEntry>, name: &str) -> (result: Result<JobRecord, String>)
    ensures
        result_view(result) == record_of(journal_view(entries@), name@),
{
    let place: usize = find_entry(entries, name);
    if place >= entries.len() {
        return Err(unknown_job_message(name));
    }
    match &entries[place].record {
        Ok(record) => Ok(record.clone()),
        Err(message) => Err(message.clone()),
    }
}

/// Puts a record under a name.
pub fn put_record(entries: &mut Vec<JobEntry>, name: &str, record: JobRecord)
    ensures
        journal_view(final(entries)@) == with_record(journal_view(old(entries)@), name@, record@),
{
    let place: usize = find_entry(entries, name);
    let entry: JobEntry = JobEntry { name: name.to_owned(), record: Ok(record) };
    if place < entries.len() {
        entries[place] = entry;
        proof {
            assert(journal_view(entries@) =~= with_record(
                journal_view(old(entries)@),
                name@,
                record@,
            ));
        }
    } else {
        entries.push(entry);
        proof {
            assert(journal_view(entries@) =~= with_record(
                journal_view(old(entries)@),
                name@,
                record@,
            ));
        }
    }
}

/// What comes of entering a record under a name: the record, or why there is no room for it, and the journal
/// after it.
pub open spec fn entered(journal: Seq<EntryView>, name: Seq<char>, record: RecordView) -> (
    Result<RecordView, Seq<char>>,
    Seq<EntryView>,
) {
    if journal.len() < MAX_JOBS_PER_SESSION {
        (Ok(record), with_record(journal, name, record))
    } else {
        (
            Err("job journal limit reached: 256 records are already retained for this session"@),
            journal,
        )
    }
}

/// Enters a job that has just been started. A session has room for 256 jobs; the caller clears
/// away what need not be kept before.
pub fn create_running(
    entries: &mut Vec<JobEntry>,
    session_id: &str,
    job_id: JobId,
    command: &str,
    cwd: &str,
    execution_mode: ExecutionMode,
    now: u64,
    server_pid: u32,
) -> (result: Result<JobRecord, String>)
    ensures
        (result_view(result), journal_view(final(entries)@)) == entered(
            journal_view(old(entries)@),
            uuid_text(job_id.bits),
            started(session_id@, job_id.bits, command@, cwd@, execution_mode, now, server_pid),
        ),
{
    if entries.len() >= MAX_JOBS_PER_SESSION {
        return Err(
            "job journal limit reached: 256 records are already retained for this session".to_owned(),
        );
    }
    let name: String = job_id.to_text();
    let record: JobRecord = JobRecord {
        version: JOURNAL_VERSION,
        job_id: name.clone(),
        session_id: session_id.to_owned(),
        command: bound_plain_text(command, MAX_COMMAND_BYTES),
        cwd: cwd.to_owned(),
        execution_mode,
        state: JobState::Running,
        created_at_ms: now,
        started_at_ms: now,
        updated_at_ms: now,
        finished_at_ms: None,
        exit_code: None,
        result: None,
        error: None,
        server_pid,
        process_id: None,
        reattachable: false,
    };
    put_record(entries, name.as_str(), record.clone());
    Ok(record)
}

/// What a job gave, as text.
pub open spec fn text_result(result: Result<String, String>) -> Result<Seq<char>, Seq<char>> {
    match result {
        Ok(text) => Ok(text@),
        Err(text) => Err(text@),
    }
}

/// Enters what a job gave.
pub fn finish(
    entries: &mut Vec<JobEntry>,
    job_id: JobId,
    result: &Result<String, String>,
    now: u64,
) -> (answer: Result<JobRecord, String>)
    ensures
        result_view(answer) == answered(
            journal_view(old(entries)@),
            uuid_text(job_id.bits),
            |record: RecordView| finished(record, now, text_result(*result)),
        ),
        journal_view(final(entries)@) == changed(
            journal_view(old(entries)@),
            uuid_text(job_id.bits),
            |record: RecordView| finished(record, now, text_result(*result)),
        ),
{
    let name: String = job_id.to_text();
    let mut record: JobRecord = match find_record(entries, name.as_str()) {
        Ok(record) => record,
        Err(message) => {
            return Err(message);
        },
    };
    let ghost before = record@;
    if !record.state.terminal() {
        record.updated_at_ms = now;
        record.finished_at_ms = Some(now);
        match result {
            Ok(text) => {
                let code: Option<i32> = match parse_exit_code(text.as_str()) {
                    Some(code) => Some(code),
                    None => Some(0),
                };
                record.state = JobState::Completed;
                record.exit_code = code;
                record.result = Some(bound_persisted_payload(text.as_str(), code, "result"));
                record.error = None;
            },
            Err(text) => {
                let code: Option<i32> = parse_exit_code(text.as_str());
                record.state = JobState::Failed;
                record.exit_code = code;
                record.result = None;
                record.error = Some(bound_persisted_payload(text.as_str(), code, "error"));
            },
        }
    }
    proof {
        assert(record@ =~= finished(before, now, text_result(*result)));
    }
    put_record(entries, name.as_str(), record.clone());
    Ok(record)
}

fn known_end_time(finished_at_ms: Option<u64>, now: u64) -> (time: Option<u64>)
    ensures
        time == match finished_at_ms {
            Some(time) => Some(time),
            None => Some(now),
        },
{
    match finished_at_ms {
        Some(time) => Some(time),
        None => Some(now),
    }
}

/// Enters that a job was stopped.
pub fn mark_stopped(entries: &mut Vec<JobEntry>, job_id: JobId, now: u64) -> (answer: Result<
    JobRecord,
    String,
>)
    ensures
        result_view(answer) == answered(
            journal_view(old(entries)@),
            uuid_text(job_id.bits),
            |record: RecordView| stopped(record, now),
        ),
        journal_view(final(entries)@) == changed(
            journal_view(old(entries)@),
            uuid_text(job_id.bits),
            |record: RecordView| stopped(record, now),
        ),
{
    let name: String = job_id.to_text();
    let mut record: JobRecord = match find_record(entries, name.as_str()) {
        Ok(record) => record,
        Err(message) => {
            return Err(message);
        },
    };
    let ghost before = record@;
    if !record.state.terminal() {
        record.state = JobState::Stopped;
        record.updated_at_ms = now;
        record.finished_at_ms = known_end_time(record.finished_at_ms, now);
        record.error = Some("stopped by request".to_owned());
    }
    proof {
        assert(record@ =~= stopped(before, now));
    }
    put_record(entries, name.as_str(), record.clone());
    Ok(record)
}

/// Says of a record that the server has lost its job.
pub fn mark_orphaned(record: &mut JobRecord, now: u64)
    ensures
        final(record)@ == orphaned(old(record)@, now),
{
    record.state = JobState::Orphaned;
    record.updated_at_ms = now;
    record.finished_at_ms = known_end_time(record.finished_at_ms, now);
    record.error = Some(
        "MCP server restarted or lost the in-memory process handle; this process cannot be reattached".to_owned(),
    );
}

/// The record of a job, `active` saying whether this server runs it.
pub fn load(entries: &mut Vec<JobEntry>, job_id: JobId, active: bool, now: u64) -> (answer: Result<
    JobRecord,
    String,
>)
    ensures
        result_view(answer) == answered(
            journal_view(old(entries)@),
            uuid_text(job_id.bits),
            |record: RecordView| settled(record, active, now),
        ),
        journal_view(final(entries)@) == changed(
            journal_view(old(entries)@),
            uuid_text(job_id.bits),
            |record: RecordView| settled(record, active, now),
        ),
{
    let name: String = job_id.to_text();
    let mut record: JobRecord = match find_record(entries, name.as_str()) {
        Ok(record) => record,
        Err(message) => {
            return Err(message);
        },
    };
    if record.state == JobState::Running && !active {
        mark_orphaned(&mut record, now);
    }
    put_record(entries, name.as_str(), record.clone());
    Ok(record)
}

/// The record that a directory of the session leads to: that of the job that its name is the
/// identifier of.
pub open spec fn record_at(journal: Seq<EntryView>, place: int) -> Option<RecordView> {
    match parsed_uuid(journal[place].0) {
        Some(bits) => match record_of(journal, uuid_text(bits)) {
            Ok(record) => Some(record),
            Err(_) => None,
        },
        None => None,
    }
}

/// Whether a job has ended and was last changed before `cutoff`.
pub open spec fn is_expired(journal: Seq<EntryView>, cutoff: int) -> spec_fn(int) -> bool {
    |i: int|
        record_at(journal, i) matches Some(record) && record.state != JobState::Running
            && record.updated_at_ms < cutoff
}

/// Whether a job has ended and was changed at `cutoff` or later.
pub open spec fn is_recent(journal: Seq<EntryView>, cutoff: int) -> spec_fn(int) -> bool {
    |i: int|
        record_at(journal, i) matches Some(record) && record.state != JobState::Running
            && record.updated_at_ms >= cutoff
}

/// What jobs are put in order by when some have to go: when they were changed, then their names.
pub open spec fn age_keys(journal: Seq<EntryView>, chosen: Seq<usize>) -> Seq<KeyView> {
    Seq::new(
        chosen.len(),
        |i: int|
            (
                record_at(journal, chosen[i] as int)->0.updated_at_ms as int,
                encode_utf8(journal[chosen[i] as int].0),
            ),
    )
}

/// How many of the ended jobs have to go, `total` being those that are not too old.
pub open spec fn journal_surplus(total: int, recent: int, max_jobs: int) -> int {
    let excess = if total > max_jobs {
        total - max_jobs
    } else {
        0
    };
    if excess < recent {
        excess
    } else {
        recent
    }
}

/// The time before which ended jobs are too old.
pub open spec fn cutoff_of(now: u64, retention_ms: u64) -> int {
    if now > retention_ms {
        now - retention_ms
    } else {
        0
    }
}

/// Whether `removed` lists what a cleanup removes: the ended jobs that are too old, then the oldest
/// of the other ended jobs, as many as are too many.
pub open spec fn is_journal_cleanup(
    journal: Seq<EntryView>,
    max_jobs: int,
    cutoff: int,
    removed: Seq<usize>,
) -> bool {
    let count = journal.len() as int;
    let expired = places(count, is_expired(journal, cutoff));
    let recent = places(count, is_recent(journal, cutoff));
    exists|order: Seq<usize>| #[trigger]
        is_order(age_keys(journal, recent), false, order) && removed == expired + Seq::new(
            journal_surplus(count - expired.len(), recent.len() as int, max_jobs) as nat,
            |k: int| recent[order[k] as int],
        )
}

/// The record that a directory of the session leads to.
pub fn entry_record(entries: &Vec<JobEntry>, place: usize) -> (record: Option<JobRecord>)
    requires
        place < entries@.len(),
    ensures
        match record {
            Some(record) => record_at(journal_view(entries@), place as int) == Some(record@),
            None => record_at(journal_view(entries@), place as int) is None,
        },
{
    match JobId::parse_str(entries[place].name.as_str()) {
        Some(job_id) => match find_record(entries, job_id.to_text().as_str()) {
            Ok(record) => Some(record),
            Err(_) => None,
        },
        None => None,
    }
}

/// What a cleanup removes from the journal, in the order in which it is removed.
pub fn journal_removals(
    entries: &Vec<JobEntry>,
    max_jobs: usize,
    retention_ms: u64,
    now: u64,
) -> (removed: Vec<usize>)
    ensures
        is_journal_cleanup(
            journal_view(entries@),
            max_jobs as int,
            cutoff_of(now, retention_ms),
            removed@,
        ),
{
    let ghost journal = journal_view(entries@);
    let cutoff: u64 = now.saturating_sub(retention_ms);
    let mut removed: Vec<usize> = Vec::new();
    let mut recent: Vec<usize> = Vec::new();
    let mut keys: Vec<SortKey> = Vec::new();
    let mut index: usize = 0;
    while index < entries.len()
        invariant
            journal == journal_view(entries@),
            cutoff == cutoff_of(now, retention_ms),
            index <= entries@.len(),
            removed@ == places(index as int, is_expired(journal, cutoff as int)),
            recent@ == places(index as int, is_recent(journal, cutoff as int)),
            removed@.len() + recent@.len() <= index,
            keys@.len() == recent@.len(),
            keys_view(keys@) == age_keys(journal, recent@),
        decreases entries@.len() - index,
    {
        if let Some(record) = entry_record(entries, index) {
            if record.state.terminal() {
                if record.updated_at_ms < cutoff {
                    removed.push(index);
                } else {
                    let ghost recent_before = recent@;
                    let ghost keys_before = keys@;
                    let name: Vec<u8> = entries[index].name.as_str().as_bytes_vec();
                    keys.push(SortKey { time: record.updated_at_ms as i128, name });
                    recent.push(index);
                    proof {
                        let key = (
                            record_at(journal, index as int)->0.updated_at_ms as int,
                            encode_utf8(journal[index as int].0),
                        );
                        assert(keys_view(keys@) =~= keys_view(keys_before).push(key));
                        assert(age_keys(journal, recent@) =~= age_keys(journal, recent_before).push(
                            key,
                        ));
                    }
                }
            }
        }
        index = index + 1;
    }
    let order: Vec<usize> = sorted_order(&keys, false);
    let total: usize = entries.len() - removed.len();
    let excess: usize = total.saturating_sub(max_jobs);
    let count: usize = if excess < recent.len() {
        excess
    } else {
        recent.len()
    };
    let ghost expired = removed@;
    let ghost oldest = Seq::new(count as nat, |k: int| recent@[order@[k] as int]);
    let mut taken: usize = 0;
    proof {
        assert(expired + oldest.take(0) =~= expired);
    }
    while taken < count
        invariant
            count <= recent@.len(),
            order@.len() == recent@.len(),
            forall|a: int| 0 <= a < order@.len() ==> 0 <= #[trigger] order@[a] < recent@.len(),
            taken <= count,
            oldest == Seq::new(count as nat, |k: int| recent@[order@[k] as int]),
            removed@ == expired + oldest.take(taken as int),
        decreases count - taken,
    {
        removed.push(recent[order[taken]]);
        proof {
            assert(oldest.take(taken + 1) =~= oldest.take(taken as int).push(oldest[taken as int]));
            assert(expired + oldest.take(taken + 1) =~= (expired + oldest.take(taken as int)).push(
                oldest[taken as int],
            ));
        }
        taken = taken + 1;
    }
    proof {
        assert(oldest.take(count as int) =~= oldest);
        assert(is_order(age_keys(journal, recent@), false, order@));
    }
    removed
}

/// Whether a server runs the job that a directory is named after.
pub open spec fn runs(active: Seq<JobId>, name: Seq<char>) -> bool {
    parsed_uuid(name) matches Some(bits) && active.contains(JobId { bits })
}

/// A record of the journal as it is seen by a server that runs the jobs `active`.
pub open spec fn seen_at(journal: Seq<EntryView>, active: Seq<JobId>, now: u64, place: int) -> Option<RecordView> {
    match record_at(journal, place) {
        Some(record) => Some(settled(record, runs(active, journal[place].0), now)),
        None => None,
    }
}

/// The records of the first `count` entries that a list holds, as they are seen.
pub open spec fn listed(
    journal: Seq<EntryView>,
    active: Seq<JobId>,
    filter: Option<JobState>,
    now: u64,
    count: int,
) -> Seq<RecordView>
    decreases count,
{
    if count <= 0 {
        Seq::empty()
    } else {
        let before = listed(journal, active, filter, now, count - 1);
        match seen_at(journal, active, now, count - 1) {
            Some(record) => if filter is None || filter == Some(record.state) {
                before.push(record)
            } else {
                before
            },
            None => before,
        }
    }
}

/// The records of the first `count` entries whose jobs are seen to be lost.
pub open spec fn newly_lost(journal: Seq<EntryView>, active: Seq<JobId>, now: u64, count: int) -> Seq<RecordView>
    decreases count,
{
    if count <= 0 {
        Seq::empty()
    } else {
        let before = newly_lost(journal, active, now, count - 1);
        match record_at(journal, count - 1) {
            Some(record) => if record.state == JobState::Running && !runs(
                active,
                journal[count - 1].0,
            ) {
                before.push(orphaned(record, now))
            } else {
                before
            },
            None => before,
        }
    }
}

/// How many of the first `count` entries lead to no record.
pub open spec fn unreadable(journal: Seq<EntryView>, count: int) -> int
    decreases count,
{
    if count <= 0 {
        0
    } else {
        unreadable(journal, count - 1) + if record_at(journal, count - 1) is None {
            1int
        } else {
            0
        }
    }
}

/// What jobs are listed by: when they were created, then their identifiers.
pub open spec fn list_keys(records: Seq<RecordView>) -> Seq<KeyView> {
    Seq::new(
        records.len(),
        |i: int| (records[i].created_at_ms as int, encode_utf8(records[i].job_id)),
    )
}

/// How many jobs a page holds.
pub open spec fn page_length(total: int, offset: int, limit: int) -> int {
    if offset >= total {
        0
    } else if total - offset < limit {
        total - offset
    } else {
        limit
    }
}

/// The summaries of a page.
pub open spec fn summaries(jobs: Seq<JobSummary>) -> Seq<SummaryView> {
    Seq::new(jobs.len(), |i: int| jobs[i]@)
}

/// Where the page after this one begins.
pub open spec fn next_page(total: int, offset: int, limit: int) -> Option<int> {
    let consumed = offset + page_length(total, offset, limit);
    if consumed < total {
        Some(consumed)
    } else {
        None
    }
}

/// Whether `page` is the part of a list of records from `offset` on, the newest first, with at
/// most `limit` jobs.
pub open spec fn is_page(records: Seq<RecordView>, offset: int, limit: int, page: ListPage) -> bool {
    &&& page.total == records.len()
    &&& page.offset == offset
    &&& match page.next_offset {
        Some(next) => next_page(records.len() as int, offset, limit) == Some(next as int),
        None => next_page(records.len() as int, offset, limit) is None,
    }
    &&& exists|order: Seq<usize>| #[trigger]
        is_order(list_keys(records), true, order) && summaries(page.jobs@) == Seq::new(
            page_length(records.len() as int, offset, limit) as nat,
            |k: int| records[order[offset + k] as int].summary(),
        )
}

/// The views of records.
pub open spec fn record_views(records: Seq<JobRecord>) -> Seq<RecordView> {
    Seq::new(records.len(), |i: int| records[i]@)
}

fn is_running_here(active: &Vec<JobId>, name: &str) -> (holds: bool)
    ensures
        holds == runs(active@, name@),
{
    match JobId::parse_str(name) {
        Some(job_id) => {
            let mut index: usize = 0;
            while index < active.len()
                invariant
                    parsed_uuid(name@) == Some(job_id.bits),
                    index <= active@.len(),
                    forall|i: int| 0 <= i < index ==> active@[i] != job_id,
                decreases active@.len() - index,
            {
                if active[index] == job_id {
                    assert(active@[index as int] == job_id);
                    return true;
                }
                index = index + 1;
            }
            false
        },
        None => false,
    }
}

/// A page of the records, the newest first.
pub fn page_of(records: &Vec<JobRecord>, offset: usize, limit: usize, corrupt_entries: usize) -> (page: ListPage)
    ensures
        is_page(record_views(records@), offset as int, limit as int, page),
        page.corrupt_entries == corrupt_entries,
{
    let ghost views = record_views(records@);
    let mut keys: Vec<SortKey> = Vec::new();
    let mut index: usize = 0;
    while index < records.len()
        invariant
            views == record_views(records@),
            index <= records@.len(),
            keys@.len() == index,
            forall|i: int| 0 <= i < index ==> (#[trigger] keys@[i])@ == list_keys(views)[i],
        decreases records@.len() - index,
    {
        let name: Vec<u8> = records[index].job_id.as_str().as_bytes_vec();
        keys.push(SortKey { time: records[index].created_at_ms as i128, name });
        index = index + 1;
    }
    proof {
        assert(keys_view(keys@) =~= list_keys(views));
    }
    let order: Vec<usize> = sorted_order(&keys, true);
    let total: usize = records.len();
    let length: usize = if offset >= total {
        0
    } else if total - offset < limit {
        total - offset
    } else {
        limit
    };
    let mut jobs: Vec<JobSummary> = Vec::new();
    let ghost wanted = Seq::new(length as nat, |k: int| views[order@[offset + k] as int].summary());
    while jobs.len() < length
        invariant
            views == record_views(records@),
            total == records@.len(),
            length == page_length(total as int, offset as int, limit as int),
            order@.len() == total,
            forall|a: int| 0 <= a < order@.len() ==> 0 <= #[trigger] order@[a] < total,
            wanted == Seq::new(length as nat, |k: int| views[order@[offset + k] as int].summary()),
            jobs@.len() <= length,
            forall|k: int| 0 <= k < jobs@.len() ==> (#[trigger] jobs@[k])@ == wanted[k],
        decreases length - jobs@.len(),
    {
        let place: usize = order[offset + jobs.len()];
        jobs.push(JobSummary::from(&records[place]));
    }
    proof {
        assert(summaries(jobs@) =~= wanted);
        assert(is_order(list_keys(views), true, order@));
    }
    let next_offset: Option<usize> = if offset < total && length < total - offset {
        Some(offset + length)
    } else {
        None
    };
    ListPage { jobs, total, offset, next_offset, corrupt_entries }
}

/// A page of the jobs of a session, the newest first, as a server that runs the jobs
/// `active_jobs` sees them; and the records of those that are seen to be lost, which are to be
/// kept.
pub fn list(
    entries: &Vec<JobEntry>,
    active_jobs: &Vec<JobId>,
    state_filter: Option<JobState>,
    offset: usize,
    limit: usize,
    now: u64,
) -> (result: Result<(ListPage, Vec<JobRecord>), String>)
    ensures
        match result {
            Ok((page, lost)) => {
                let journal = journal_view(entries@);
                let count = entries@.len() as int;
                &&& 0 < limit <= 100
                &&& is_page(
                    listed(journal, active_jobs@, state_filter, now, count),
                    offset as int,
                    limit as int,
                    page,
                )
                &&& page.corrupt_entries == unreadable(journal, count)
                &&& record_views(lost@) == newly_lost(journal, active_jobs@, now, count)
            },
            Err(message) => !(0 < limit <= 100) && message@ == "limit must be between 1 and 100"@,
        },
{
    if !(0 < limit && limit <= 100) {
        return Err("limit must be between 1 and 100".to_owned());
    }
    let ghost journal = journal_view(entries@);
    let mut records: Vec<JobRecord> = Vec::new();
    let mut lost: Vec<JobRecord> = Vec::new();
    let mut corrupt_entries: usize = 0;
    let mut index: usize = 0;
    proof {
        assert(record_views(records@) =~= Seq::<RecordView>::empty());
        assert(record_views(lost@) =~= Seq::<RecordView>::empty());
    }
    while index < entries.len()
        invariant
            journal == journal_view(entries@),
            index <= entries@.len(),
            corrupt_entries == unreadable(journal, index as int),
            corrupt_entries <= index,
            record_views(records@) == listed(
                journal,
                active_jobs@,
                state_filter,
                now,
                index as int,
            ),
            record_views(lost@) == newly_lost(journal, active_jobs@, now, index as int),
        decreases entries@.len() - index,
    {
        let ghost records_before = records@;
        let ghost lost_before = lost@;
        match entry_record(entries, index) {
            Some(record) => {
                let mut record: JobRecord = record;
                let ghost stored = record@;
                let active: bool = is_running_here(active_jobs, entries[index].name.as_str());
                if record.state == JobState::Running && !active {
                    mark_orphaned(&mut record, now);
                    lost.push(record.clone());
                    proof {
                        assert(record_views(lost@) =~= record_views(lost_before).push(
                            orphaned(stored, now),
                        ));
                    }
                }
                let wanted: bool = match state_filter {
                    Some(state) => state == record.state,
                    None => true,
                };
                if wanted {
                    let ghost seen = record@;
                    records.push(record);
                    proof {
                        assert(record_views(records@) =~= record_views(records_before).push(seen));
                    }
                }
            },
            None => {
                corrupt_entries = corrupt_entries + 1;
            },
        }
        index = index + 1;
    }
    let page: ListPage = page_of(&records, offset, limit, corrupt_entries);
    Ok((page, lost))
}

/// A job that has ended stays as it is, whatever is said of it afterwards.
pub proof fn law_ended_jobs_are_final(
    record: RecordView,
    now: u64,
    result: Result<Seq<char>, Seq<char>>,
    active: bool,
)
    requires
        record.state != JobState::Running,
    ensures
        finished(record, now, result) == record,
        stopped(record, now) == record,
        settled(record, active, now) == record,
{
}

/// A running job that is finished, stopped or lost has ended; nothing else of it changes but its
/// times, its exit code, its result and its error.
pub proof fn law_running_jobs_end_once(
    record: RecordView,
    now: u64,
    result: Result<Seq<char>, Seq<char>>,
)
    requires
        record.state == JobState::Running,
    ensures
        forall|after: RecordView|
            after == finished(record, now, result) || after == stopped(record, now) || after
                == settled(record, false, now) ==> {
                &&& #[trigger] after.finished_at_ms is Some
                &&& after.state != JobState::Running
                &&& after.job_id == record.job_id
                &&& after.session_id == record.session_id
                &&& after.command == record.command
                &&& after.cwd == record.cwd
                &&& after.created_at_ms == record.created_at_ms
                &&& after.started_at_ms == record.started_at_ms
            },
        settled(record, true, now) == record,
{
}

proof fn lemma_place_of(journal: Seq<EntryView>, name: Seq<char>)
    ensures
        0 <= place_of(journal, name) <= journal.len(),
        place_of(journal, name) < journal.len() ==> journal[place_of(journal, name)].0 == name,
        forall|i: int| 0 <= i < place_of(journal, name) ==> (#[trigger] journal[i]).0 != name,
    decreases journal.len(),
{
    if journal.len() > 0 && journal[0].0 != name {
        let rest = journal.drop_first();
        lemma_place_of(rest, name);
        assert forall|i: int| 0 <= i < place_of(journal, name) implies (#[trigger] journal[i]).0
            != name by {
            if i > 0 {
                assert(journal[i] == rest[i - 1]);
            }
        }
    }
}

proof fn lemma_place_unique(journal: Seq<EntryView>, name: Seq<char>, place: int)
    requires
        0 <= place <= journal.len(),
        place < journal.len() ==> journal[place].0 == name,
        forall|i: int| 0 <= i < place ==> (#[trigger] journal[i]).0 != name,
    ensures
        place_of(journal, name) == place,
{
    lemma_place_of(journal, name);
    let found = place_of(journal, name);
    if found < place {
        assert(journal[found].0 != name);
    } else if place < found {
        assert(journal[place].0 != name);
    }
}

/// What is entered under an identifier is found there, and nothing else of the journal changes.
pub proof fn law_records_are_found_again(
    journal: Seq<EntryView>,
    name: Seq<char>,
    record: RecordView,
    other: Seq<char>,
)
    ensures
        record_of(with_record(journal, name, record), name) == Ok::<RecordView, Seq<char>>(record),
        other != name ==> record_of(with_record(journal, name, record), other) == record_of(
            journal,
            other,
        ),
{
    let after = with_record(journal, name, record);
    lemma_place_of(journal, name);
    lemma_place_unique(after, name, place_of(journal, name));
    if other != name {
        lemma_place_of(journal, other);
        let place = place_of(journal, other);
        if place < journal.len() {
            lemma_place_unique(after, other, place);
        } else {
            lemma_place_unique(after, other, after.len() as int);
        }
    }
}

/// A job that was finished is read back as it was finished, by a server that runs it and by one
/// that does not; and stopping it then changes nothing.
pub proof fn law_finished_jobs_survive_reload(
    journal: Seq<EntryView>,
    name: Seq<char>,
    result: Result<Seq<char>, Seq<char>>,
    active: bool,
    then: u64,
    later: u64,
)
    requires
        record_of(journal, name) is Ok,
    ensures
        ({
            let finish = |record: RecordView| finished(record, then, result);
            let after = changed(journal, name, finish);
            let record = answered(journal, name, finish);
            &&& answered(after, name, |record: RecordView| settled(record, active, later)) == record
            &&& answered(after, name, |record: RecordView| stopped(record, later)) == record
            &&& record_of(changed(after, name, |record: RecordView| stopped(record, later)), name)
                == record
        }),
{
    let before = record_of(journal, name)->Ok_0;
    let finish = |record: RecordView| finished(record, then, result);
    let after = changed(journal, name, finish);
    law_records_are_found_again(journal, name, finish(before), name);
    law_ended_jobs_are_final(finish(before), later, result, active);
    law_records_are_found_again(after, name, stopped(finish(before), later), name);
}

/// A job that is said to run and that no one runs is lost for good: it is read back as lost, by
/// every server and at every time.
pub proof fn law_lost_jobs_stay_lost(
    journal: Seq<EntryView>,
    name: Seq<char>,
    active: bool,
    then: u64,
    later: u64,
)
    requires
        record_of(journal, name) matches Ok(record) && record.state == JobState::Running,
    ensures
        ({
            let lose = |record: RecordView| settled(record, false, then);
            let after = changed(journal, name, lose);
            &&& answered(journal, name, lose) matches Ok(record) && record.state
                == JobState::Orphaned
            &&& answered(after, name, |record: RecordView| settled(record, active, later))
                == answered(journal, name, lose)
        }),
{
    let before = record_of(journal, name)->Ok_0;
    law_records_are_found_again(journal, name, settled(before, false, then), name);
}

/// A cleanup never removes a job that runs, nor one whose record cannot be read.
pub proof fn law_cleanup_spares_running_jobs(
    journal: Seq<EntryView>,
    max_jobs: int,
    cutoff: int,
    removed: Seq<usize>,
    k: int,
)
    requires
        journal.len() <= usize::MAX,
        0 <= max_jobs,
        is_journal_cleanup(journal, max_jobs, cutoff, removed),
        0 <= k < removed.len(),
    ensures
        removed[k] < journal.len(),
        record_at(journal, removed[k] as int) matches Some(record) && record.state
            != JobState::Running,
{
    let count = journal.len() as int;
    let expired = places(count, is_expired(journal, cutoff));
    let recent = places(count, is_recent(journal, cutoff));
    lemma_places(count, is_expired(journal, cutoff));
    lemma_places(count, is_recent(journal, cutoff));
    let order = choose|order: Seq<usize>| #[trigger]
        is_order(age_keys(journal, recent), false, order) && removed == expired + Seq::new(
            journal_surplus(count - expired.len(), recent.len() as int, max_jobs) as nat,
            |k: int| recent[order[k] as int],
        );
    if k < expired.len() {
        assert(removed[k] == expired[k]);
        assert(is_expired(journal, cutoff)(expired[k] as int));
    } else {
        let place = order[k - expired.len()] as int;
        assert(removed[k] == recent[place]);
        assert(is_recent(journal, cutoff)(recent[place] as int));
    }
}

/// Whether a job has not ended, or cannot be read.
pub open spec fn is_unfinished(journal: Seq<EntryView>) -> spec_fn(int) -> bool {
    |i: int| !(record_at(journal, i) matches Some(record) && record.state != JobState::Running)
}

proof fn lemma_journal_partition(journal: Seq<EntryView>, cutoff: int, count: int)
    requires
        0 <= count <= journal.len(),
    ensures
        places(count, is_unfinished(journal)).len() + places(
            count,
            is_expired(journal, cutoff),
        ).len() + places(count, is_recent(journal, cutoff)).len() == count,
    decreases count,
{
    if count > 0 {
        lemma_journal_partition(journal, cutoff, count - 1);
    }
}

/// After a cleanup at most `max_jobs` jobs are left, or those that have not ended or cannot be read
/// where they are more than that.
pub proof fn law_cleanup_meets_the_job_limit(
    journal: Seq<EntryView>,
    max_jobs: int,
    cutoff: int,
    removed: Seq<usize>,
)
    requires
        0 <= max_jobs,
        is_journal_cleanup(journal, max_jobs, cutoff, removed),
    ensures
        ({
            let unfinished = places(journal.len() as int, is_unfinished(journal)).len();
            journal.len() - removed.len() <= if unfinished > max_jobs {
                unfinished as int
            } else {
                max_jobs
            }
        }),
{
    lemma_journal_partition(journal, cutoff, journal.len() as int);
}

/// After the cleanup that makes room for one more job, there is room unless 256 jobs have not
/// ended or cannot be read.
pub proof fn law_cleanup_makes_room_for_a_job(
    journal: Seq<EntryView>,
    cutoff: int,
    removed: Seq<usize>,
)
    requires
        is_journal_cleanup(journal, MAX_JOBS_PER_SESSION - 1, cutoff, removed),
        places(journal.len() as int, is_unfinished(journal)).len() < MAX_JOBS_PER_SESSION,
    ensures
        journal.len() - removed.len() < MAX_JOBS_PER_SESSION,
{
    law_cleanup_meets_the_job_limit(journal, MAX_JOBS_PER_SESSION - 1, cutoff, removed);
}

/// Of the ended jobs that are not too old, a cleanup removes none that was changed after one that
/// it keeps.
pub proof fn law_cleanup_removes_the_oldest_jobs(
    journal: Seq<EntryView>,
    max_jobs: int,
    cutoff: int,
    removed: Seq<usize>,
    gone: usize,
    kept: usize,
)
    requires
        journal.len() <= usize::MAX,
        0 <= max_jobs,
        is_journal_cleanup(journal, max_jobs, cutoff, removed),
        gone < journal.len(),
        kept < journal.len(),
        is_recent(journal, cutoff)(gone as int),
        is_recent(journal, cutoff)(kept as int),
        removed.contains(gone),
        !removed.contains(kept),
    ensures
        record_at(journal, gone as int)->0.updated_at_ms <= record_at(
            journal,
            kept as int,
        )->0.updated_at_ms,
{
    let count = journal.len() as int;
    let expired = places(count, is_expired(journal, cutoff));
    let recent = places(count, is_recent(journal, cutoff));
    let keys = age_keys(journal, recent);
    lemma_places(count, is_expired(journal, cutoff));
    lemma_places(count, is_recent(journal, cutoff));
    let size = journal_surplus(count - expired.len(), recent.len() as int, max_jobs);
    let order = choose|order: Seq<usize>| #[trigger]
        is_order(keys, false, order) && removed == expired + Seq::new(
            size as nat,
            |k: int| recent[order[k] as int],
        );
    let r = choose|r: int| 0 <= r < removed.len() && removed[r] == gone;
    assert(r >= expired.len()) by {
        if r < expired.len() {
            assert(is_expired(journal, cutoff)(expired[r] as int));
        }
    }
    let a = r - expired.len();
    assert(recent.contains(kept));
    let f = choose|f: int| 0 <= f < recent.len() && #[trigger] recent[f] == kept;
    lemma_lists_all(keys, false, order, f as usize);
    let b = choose|b: int| 0 <= b < order.len() && #[trigger] order[b] == f as usize;
    assert(b >= size) by {
        if b < size {
            assert(removed[expired.len() + b] == kept);
        }
    }
    assert(goes_before(keys, false, order[a] as int, order[b] as int));
}

/// Whether pages were read one after the other, the first from `offset` on and each other one from where
/// the one before says that the next begins, until one says that none follows.
pub open spec fn are_pages(
    records: Seq<RecordView>,
    offset: int,
    limit: int,
    pages: Seq<ListPage>,
) -> bool
    decreases pages.len(),
{
    &&& pages.len() > 0
    &&& is_page(records, offset, limit, pages[0])
    &&& match pages[0].next_offset {
        Some(next) => are_pages(records, next as int, limit, pages.drop_first()),
        None => pages.len() == 1,
    }
}

/// The jobs of pages, put end to end.
pub open spec fn joined_jobs(pages: Seq<ListPage>) -> Seq<SummaryView>
    decreases pages.len(),
{
    if pages.len() == 0 {
        Seq::empty()
    } else {
        summaries(pages[0].jobs@) + joined_jobs(pages.drop_first())
    }
}

/// The summaries of records in an order, from a place on.
pub open spec fn in_order(records: Seq<RecordView>, order: Seq<usize>, from: int) -> Seq<SummaryView> {
    Seq::new((records.len() - from) as nat, |k: int| records[order[from + k] as int].summary())
}

proof fn lemma_joined_pages(
    records: Seq<RecordView>,
    offset: int,
    limit: int,
    pages: Seq<ListPage>,
    order: Seq<usize>,
)
    requires
        0 <= offset <= records.len(),
        0 < limit,
        are_pages(records, offset, limit, pages),
        is_order(list_keys(records), true, order),
    ensures
        joined_jobs(pages) == in_order(records, order, offset),
        forall|p: int|
            0 <= p < pages.len() ==> (#[trigger] pages[p]).total == records.len()
                && pages[p].next_offset == if pages[p].offset + pages[p].jobs@.len() < records.len() {
                Some((pages[p].offset + pages[p].jobs@.len()) as usize)
            } else {
                None
            },
    decreases pages.len(),
{
    let page = pages[0];
    let total = records.len() as int;
    let length = page_length(total, offset, limit);
    let own = choose|own: Seq<usize>| #[trigger]
        is_order(list_keys(records), true, own) && summaries(page.jobs@) == Seq::new(
            length as nat,
            |k: int| records[own[offset + k] as int].summary(),
        );
    law_there_is_one_order(list_keys(records), true, own, order);
    assert(summaries(page.jobs@).len() == page.jobs@.len());
    let rest = pages.drop_first();
    match page.next_offset {
        Some(next) => {
            assert(next == offset + length);
            lemma_joined_pages(records, next as int, limit, rest, order);
            assert(joined_jobs(pages) =~= in_order(records, order, offset));
            assert forall|p: int| 0 <= p < pages.len() implies (#[trigger] pages[p]).total
                == records.len() && pages[p].next_offset == if pages[p].offset
                + pages[p].jobs@.len() < records.len() {
                Some((pages[p].offset + pages[p].jobs@.len()) as usize)
            } else {
                None
            } by {
                if p > 0 {
                    assert(pages[p] == rest[p - 1]);
                }
            }
        },
        None => {
            assert(rest =~= Seq::<ListPage>::empty());
            assert(joined_jobs(pages) =~= in_order(records, order, offset)) by {
                reveal_with_fuel(joined_jobs, 2);
            }
        },
    }
}

/// Whether no two directories of a session are named after one job, and each that bears the identifier of
/// a job as it is written holds the record of that job, if any.
pub open spec fn well_named(journal: Seq<EntryView>) -> bool {
    &&& forall|i: int, j: int|
        0 <= i < j < journal.len() && parsed_uuid((#[trigger] journal[i]).0) is Some ==> parsed_uuid(
            journal[i].0,
        ) != parsed_uuid((#[trigger] journal[j]).0)
    &&& forall|i: int, bits: u128|
        0 <= i < journal.len() && (#[trigger] journal[i]).0 == #[trigger] uuid_text(bits)
            ==> match journal[i].1 {
            Ok(record) => record.job_id == uuid_text(bits),
            Err(_) => true,
        }
}

/// Whether a list with a filter holds a record.
pub open spec fn wanted(filter: Option<JobState>, record: RecordView) -> bool {
    filter is None || filter == Some(record.state)
}

proof fn lemma_seen_name(journal: Seq<EntryView>, active: Seq<JobId>, now: u64, place: int)
    requires
        well_named(journal),
        0 <= place < journal.len(),
    ensures
        match seen_at(journal, active, now, place) {
            Some(record) => parsed_uuid(journal[place].0) is Some && record.job_id == uuid_text(
                parsed_uuid(journal[place].0)->0,
            ),
            None => true,
        },
{
    if let Some(bits) = parsed_uuid(journal[place].0) {
        lemma_place_of(journal, uuid_text(bits));
    }
}

/// Whether a record is that of the job that one of the first `count` directories is named after.
pub open spec fn is_named(journal: Seq<EntryView>, count: int, record: RecordView) -> bool {
    exists|place: int|
        0 <= place < count && parsed_uuid((#[trigger] journal[place]).0) is Some && record.job_id
            == uuid_text(parsed_uuid(journal[place].0)->0)
}

proof fn lemma_listed(
    journal: Seq<EntryView>,
    active: Seq<JobId>,
    filter: Option<JobState>,
    now: u64,
    count: int,
)
    requires
        well_named(journal),
        0 <= count <= journal.len(),
    ensures
        ({
            let records = listed(journal, active, filter, now, count);
            &&& forall|a: int|
                0 <= a < records.len() ==> is_named(journal, count, #[trigger] records[a])
            &&& forall|a: int, b: int|
                0 <= a < b < records.len() ==> (#[trigger] records[a]).job_id != (
                #[trigger] records[b]).job_id
            &&& forall|place: int|
                0 <= place < count ==> match #[trigger] seen_at(journal, active, now, place) {
                    Some(record) => wanted(filter, record) ==> records.contains(record),
                    None => true,
                }
        }),
    decreases count,
{
    if count > 0 {
        let before = listed(journal, active, filter, now, count - 1);
        let records = listed(journal, active, filter, now, count);
        lemma_listed(journal, active, filter, now, count - 1);
        lemma_seen_name(journal, active, now, count - 1);
        assert forall|a: int| 0 <= a < records.len() implies is_named(
            journal,
            count,
            #[trigger] records[a],
        ) by {
            if a < before.len() {
                assert(is_named(journal, count - 1, before[a]));
                let place = choose|place: int|
                    0 <= place < count - 1 && parsed_uuid((#[trigger] journal[place]).0) is Some
                        && before[a].job_id == uuid_text(parsed_uuid(journal[place].0)->0);
                assert(parsed_uuid(journal[place].0) is Some);
            } else {
                assert(parsed_uuid(journal[count - 1].0) is Some);
            }
        }
        assert forall|a: int, b: int| 0 <= a < b < records.len() implies (
        #[trigger] records[a]).job_id != (#[trigger] records[b]).job_id by {
            assert(records[a] == before[a]);
            if b < before.len() {
                assert(records[b] == before[b]);
            } else {
                assert(is_named(journal, count - 1, before[a]));
                let place = choose|place: int|
                    0 <= place < count - 1 && parsed_uuid((#[trigger] journal[place]).0) is Some
                        && before[a].job_id == uuid_text(parsed_uuid(journal[place].0)->0);
                let earlier = parsed_uuid(journal[place].0)->0;
                let later = parsed_uuid(journal[count - 1].0)->0;
                assert(earlier != later);
                if uuid_text(earlier) == uuid_text(later) {
                    law_identifiers_differ_in_writing(earlier, later);
                }
            }
        }
        assert forall|place: int| 0 <= place < count implies match #[trigger] seen_at(
            journal,
            active,
            now,
            place,
        ) {
            Some(record) => wanted(filter, record) ==> records.contains(record),
            None => true,
        } by {
            if let Some(record) = seen_at(journal, active, now, place) {
                if wanted(filter, record) {
                    if place < count - 1 {
                        let k = choose|k: int| 0 <= k < before.len() && before[k] == record;
                        assert(records[k] == record);
                    } else {
                        assert(records[records.len() - 1] == record);
                    }
                }
            }
        }
    }
}

/// Pages that are read one after the other show every job of the list: put end to end, their jobs are
/// the summaries of the records that are listed, in their one order. All pages name the same total, and
/// that is the number of jobs; no job is shown twice, and none is left out that can be read and passes
/// the filter; and each page says where the next begins, exactly where one follows.
pub proof fn law_pages_show_every_job(
    journal: Seq<EntryView>,
    active: Seq<JobId>,
    filter: Option<JobState>,
    now: u64,
    limit: int,
    pages: Seq<ListPage>,
)
    requires
        well_named(journal),
        1 <= limit <= 100,
        are_pages(listed(journal, active, filter, now, journal.len() as int), 0, limit, pages),
    ensures
        ({
            let records = listed(journal, active, filter, now, journal.len() as int);
            let jobs = joined_jobs(pages);
            &&& exists|order: Seq<usize>| #[trigger]
                is_order(list_keys(records), true, order) && jobs == in_order(records, order, 0)
            &&& jobs.len() == records.len()
            &&& forall|p: int|
                0 <= p < pages.len() ==> (#[trigger] pages[p]).total == jobs.len()
                    && pages[p].next_offset == if pages[p].offset + pages[p].jobs@.len()
                    < pages[p].total {
                    Some((pages[p].offset + pages[p].jobs@.len()) as usize)
                } else {
                    None
                }
            &&& forall|a: int, b: int|
                0 <= a < b < jobs.len() ==> (#[trigger] jobs[a]).job_id != (
                #[trigger] jobs[b]).job_id
            &&& forall|place: int|
                0 <= place < journal.len() ==> match #[trigger] seen_at(
                    journal,
                    active,
                    now,
                    place,
                ) {
                    Some(record) => wanted(filter, record) ==> jobs.contains(record.summary()),
                    None => true,
                }
        }),
{
    let records = listed(journal, active, filter, now, journal.len() as int);
    let keys = list_keys(records);
    let jobs = joined_jobs(pages);
    assert(is_page(records, 0, limit, pages[0]));
    let order = choose|order: Seq<usize>| #[trigger] is_order(keys, true, order);
    lemma_joined_pages(records, 0, limit, pages, order);
    lemma_listed(journal, active, filter, now, journal.len() as int);
    lemma_distinct(keys, true, order);
    assert(pages[0].total == records.len());
    assert forall|a: int, b: int| 0 <= a < b < jobs.len() implies (#[trigger] jobs[a]).job_id != (
    #[trigger] jobs[b]).job_id by {
        let (i, j) = (order[a] as int, order[b] as int);
        assert(order[a] != order[b]);
        assert(jobs[a] == records[i].summary() && jobs[b] == records[j].summary());
        if i < j {
            assert(records[i].job_id != records[j].job_id);
        } else {
            assert(records[j].job_id != records[i].job_id);
        }
    }
    assert forall|place: int| 0 <= place < journal.len() implies match #[trigger] seen_at(
        journal,
        active,
        now,
        place,
    ) {
        Some(record) => wanted(filter, record) ==> jobs.contains(record.summary()),
        None => true,
    } by {
        if let Some(record) = seen_at(journal, active, now, place) {
            if wanted(filter, record) {
                let k = choose|k: int| 0 <= k < records.len() && records[k] == record;
                lemma_lists_all(keys, true, order, k as usize);
                let a = choose|a: int| 0 <= a < order.len() && #[trigger] order[a] == k as usize;
                assert(jobs[a] == record.summary());
            }
        }
    }
}

/// Whether the record at a place is seen in a state.
pub open spec fn seen_in(
    journal: Seq<EntryView>,
    active: Seq<JobId>,
    now: u64,
    state: JobState,
) -> spec_fn(int) -> bool {
    |i: int| seen_at(journal, active, now, i) matches Some(record) && record.state == state
}

/// Whether a record is found at a place.
pub open spec fn readable_at(journal: Seq<EntryView>) -> spec_fn(int) -> bool {
    |i: int| record_at(journal, i) is Some
}

proof fn lemma_listed_states(
    journal: Seq<EntryView>,
    active: Seq<JobId>,
    state: JobState,
    now: u64,
    count: int,
)
    requires
        0 <= count <= journal.len(),
    ensures
        ({
            let records = listed(journal, active, Some(state), now, count);
            &&& forall|k: int| 0 <= k < records.len() ==> (#[trigger] records[k]).state == state
            &&& records.len() == places(count, seen_in(journal, active, now, state)).len()
        }),
        ({
            let all = listed(journal, active, None, now, count);
            &&& all.len() == places(count, readable_at(journal)).len()
            &&& all.len() + unreadable(journal, count) == count
        }),
    decreases count,
{
    if count > 0 {
        lemma_listed_states(journal, active, state, now, count - 1);
        let before = listed(journal, active, Some(state), now, count - 1);
        let records = listed(journal, active, Some(state), now, count);
        assert forall|k: int| 0 <= k < records.len() implies (#[trigger] records[k]).state == state by {
            if k < before.len() {
                assert(records[k] == before[k]);
            }
        }
        assert(seen_in(journal, active, now, state)(count - 1) == (seen_at(
            journal,
            active,
            now,
            count - 1,
        ) matches Some(record) && record.state == state));
        assert(readable_at(journal)(count - 1) == (record_at(journal, count - 1) is Some));
    }
}

/// Every job on a page of a list that asks for a state has that state, and the total is the number of jobs
/// that are seen in it; a list that asks for none counts every job whose record can be read, and the
/// entries that are told to be corrupt are all the others.
pub proof fn law_pages_hold_the_state_that_is_asked_for(
    journal: Seq<EntryView>,
    active: Seq<JobId>,
    state: JobState,
    now: u64,
    offset: int,
    limit: int,
    page: ListPage,
    whole: ListPage,
)
    requires
        0 <= offset,
        0 < limit,
        is_page(
            listed(journal, active, Some(state), now, journal.len() as int),
            offset,
            limit,
            page,
        ),
        is_page(listed(journal, active, None, now, journal.len() as int), offset, limit, whole),
    ensures
        forall|k: int| 0 <= k < page.jobs@.len() ==> (#[trigger] page.jobs@[k]).state == state,
        page.total == places(journal.len() as int, seen_in(journal, active, now, state)).len(),
        whole.total == places(journal.len() as int, readable_at(journal)).len(),
        whole.total + unreadable(journal, journal.len() as int) == journal.len(),
{
    let count = journal.len() as int;
    let records = listed(journal, active, Some(state), now, count);
    lemma_listed_states(journal, active, state, now, count);
    let order = choose|order: Seq<usize>| #[trigger]
        is_order(list_keys(records), true, order) && summaries(page.jobs@) == Seq::new(
            page_length(records.len() as int, offset, limit) as nat,
            |k: int| records[order[offset + k] as int].summary(),
        );
    assert(summaries(page.jobs@).len() == page.jobs@.len());
    assert forall|k: int| 0 <= k < page.jobs@.len() implies (#[trigger] page.jobs@[k]).state
        == state by {
        assert(page.jobs@[k]@ == summaries(page.jobs@)[k]);
        assert(0 <= order[offset + k] < records.len());
        assert(records[order[offset + k] as int].state == state);
    }
}

/// A page holds as many jobs as it may, up to the end of the list, the newest first; jobs that were created
/// at the same time stand by their identifiers, the greatest first. It says where the next page begins,
/// right behind its last job, exactly where jobs are left.
pub proof fn law_pages_are_full_and_newest_first(
    records: Seq<RecordView>,
    offset: int,
    limit: int,
    page: ListPage,
)
    requires
        0 <= offset,
        0 < limit,
        is_page(records, offset, limit, page),
    ensures
        page.total == records.len(),
        page.offset == offset,
        page.jobs@.len() <= limit,
        offset + page.jobs@.len() <= page.total || page.jobs@.len() == 0,
        page.jobs@.len() == limit || offset + page.jobs@.len() >= page.total,
        page.next_offset is Some <==> offset + page.jobs@.len() < page.total,
        page.next_offset matches Some(next) ==> next == offset + page.jobs@.len(),
        forall|a: int, b: int|
            0 <= a < b < page.jobs@.len() ==> {
                let (first, second) = (#[trigger] page.jobs@[a], #[trigger] page.jobs@[b]);
                first.created_at_ms > second.created_at_ms || (first.created_at_ms
                    == second.created_at_ms && !text_before(first.job_id@, second.job_id@))
            },
        forall|k: int|
            0 <= k < page.jobs@.len() ==> exists|i: int|
                0 <= i < records.len() && (#[trigger] records[i]).job_id == (
                #[trigger] page.jobs@[k]).job_id@ && records[i].state == page.jobs@[k].state
                    && records[i].command == page.jobs@[k].command@ && records[i].cwd
                    == page.jobs@[k].cwd@ && records[i].exit_code == page.jobs@[k].exit_code
                    && records[i].created_at_ms == page.jobs@[k].created_at_ms
                    && records[i].updated_at_ms == page.jobs@[k].updated_at_ms
                    && records[i].finished_at_ms == page.jobs@[k].finished_at_ms
                    && records[i].execution_mode == page.jobs@[k].execution_mode
                    && page.jobs@[k].result_available == (records[i].result is Some)
                    && page.jobs@[k].error_available == (records[i].error is Some),
{
    let keys = list_keys(records);
    let jobs = page.jobs@;
    let order = choose|order: Seq<usize>| #[trigger]
        is_order(keys, true, order) && summaries(jobs) == Seq::new(
            page_length(records.len() as int, offset, limit) as nat,
            |k: int| records[order[offset + k] as int].summary(),
        );
    assert(summaries(jobs).len() == jobs.len());
    assert forall|k: int| 0 <= k < jobs.len() implies 0 <= order[offset + k] < records.len()
        && #[trigger] jobs[k]@ == records[order[offset + k] as int].summary() by {
        assert(jobs[k]@ == summaries(jobs)[k]);
    }
    assert forall|a: int, b: int| 0 <= a < b < jobs.len() implies {
        let (first, second) = (#[trigger] jobs[a], #[trigger] jobs[b]);
        first.created_at_ms > second.created_at_ms || (first.created_at_ms == second.created_at_ms
            && !text_before(first.job_id@, second.job_id@))
    } by {
        assert(jobs[a]@ == records[order[offset + a] as int].summary());
        assert(jobs[b]@ == records[order[offset + b] as int].summary());
        let (i, j) = (order[offset + a] as int, order[offset + b] as int);
        assert(goes_before(keys, true, i, j));
        let (x, y) = (encode_utf8(records[i].job_id), encode_utf8(records[j].job_id));
        if bytes_before(x, y) && bytes_before(y, x) {
            lemma_bytes_before_transitive(x, y, x);
            lemma_bytes_before_irreflexive(x);
        }
    }
    assert forall|k: int| 0 <= k < jobs.len() implies exists|i: int|
        0 <= i < records.len() && (#[trigger] records[i]).job_id == (#[trigger] jobs[k]).job_id@
            && records[i].state == jobs[k].state && records[i].command == jobs[k].command@
            && records[i].cwd == jobs[k].cwd@ && records[i].exit_code == jobs[k].exit_code
            && records[i].created_at_ms == jobs[k].created_at_ms && records[i].updated_at_ms
            == jobs[k].updated_at_ms && records[i].finished_at_ms == jobs[k].finished_at_ms
            && records[i].execution_mode == jobs[k].execution_mode && jobs[k].result_available == (
        records[i].result is Some) && jobs[k].error_available == (records[i].error is Some) by {
        assert(jobs[k]@ == records[order[offset + k] as int].summary());
        let record = records[order[offset + k] as int];
        assert(record.job_id == jobs[k].job_id@);
    }
}

/// A job is seen as its record says, except that one which is said to run is seen to run exactly where the
/// server runs it, and is lost where it does not.
pub proof fn law_jobs_are_seen_to_run_where_they_run(
    journal: Seq<EntryView>,
    active: Seq<JobId>,
    now: u64,
    place: int,
    bits: u128,
)
    requires
        0 <= place < journal.len(),
        parsed_uuid(journal[place].0) == Some(bits),
        record_of(journal, uuid_text(bits)) is Ok,
    ensures
        ({
            let stored = record_of(journal, uuid_text(bits))->Ok_0;
            let active_here = exists|i: int| 0 <= i < active.len() && (#[trigger] active[i]).bits == bits;
            &&& seen_at(journal, active, now, place) is Some
            &&& {
                let seen = seen_at(journal, active, now, place)->0;
                &&& stored.state != JobState::Running ==> seen == stored
                &&& active_here ==> seen == stored
                &&& stored.state == JobState::Running && !active_here ==> seen.state
                    == JobState::Orphaned && seen.updated_at_ms == now && seen.error is Some
                    && seen.job_id == stored.job_id && seen.created_at_ms == stored.created_at_ms
            }
        }),
{
    let active_here = exists|i: int| 0 <= i < active.len() && (#[trigger] active[i]).bits == bits;
    if active_here {
        let i = choose|i: int| 0 <= i < active.len() && (#[trigger] active[i]).bits == bits;
        assert(active[i] == JobId { bits });
    }
    if active.contains(JobId { bits }) {
        let i = choose|i: int| 0 <= i < active.len() && active[i] == JobId { bits };
        assert(active[i].bits == bits);
    }
}

/// Whether a job is said to run and the server does not run it.
pub open spec fn is_lost(journal: Seq<EntryView>, active: Seq<JobId>) -> spec_fn(int) -> bool {
    |i: int|
        record_at(journal, i) matches Some(record) && record.state == JobState::Running && !runs(
            active,
            journal[i].0,
        )
}

/// The records that a list hands back to be kept are those of the jobs that it found to be lost, each once
/// and no others: a job that is said to run and that the server does not run.
pub proof fn law_lists_settle_the_jobs_that_are_lost(
    journal: Seq<EntryView>,
    active: Seq<JobId>,
    now: u64,
    count: int,
)
    requires
        0 <= count <= journal.len(),
    ensures
        ({
            let lost = newly_lost(journal, active, now, count);
            &&& forall|k: int|
                0 <= k < lost.len() ==> (#[trigger] lost[k]).state == JobState::Orphaned
                    && lost[k].updated_at_ms == now
            &&& forall|i: int|
                0 <= i < count ==> match #[trigger] record_at(journal, i) {
                    Some(record) => record.state == JobState::Running && !runs(active, journal[i].0)
                        ==> exists|k: int|
                        0 <= k < lost.len() && (#[trigger] lost[k]).job_id == record.job_id,
                    None => true,
                }
            &&& lost.len() == places(count, is_lost(journal, active)).len()
        }),
    decreases count,
{
    if count > 0 {
        law_lists_settle_the_jobs_that_are_lost(journal, active, now, count - 1);
        let before = newly_lost(journal, active, now, count - 1);
        let lost = newly_lost(journal, active, now, count);
        assert forall|k: int| 0 <= k < lost.len() implies (#[trigger] lost[k]).state
            == JobState::Orphaned && lost[k].updated_at_ms == now by {
            if k < before.len() {
                assert(lost[k] == before[k]);
            }
        }
        assert forall|i: int| 0 <= i < count implies match #[trigger] record_at(journal, i) {
            Some(record) => record.state == JobState::Running && !runs(active, journal[i].0)
                ==> exists|k: int|
                0 <= k < lost.len() && (#[trigger] lost[k]).job_id == record.job_id,
            None => true,
        } by {
            if let Some(record) = record_at(journal, i) {
                if record.state == JobState::Running && !runs(active, journal[i].0) {
                    if i < count - 1 {
                        let k = choose|k: int|
                            0 <= k < before.len() && (#[trigger] before[k]).job_id == record.job_id;
                        assert(lost[k].job_id == record.job_id);
                    } else {
                        assert(lost[lost.len() - 1].job_id == record.job_id);
                    }
                }
            }
        }
        assert(is_lost(journal, active)(count - 1) == (record_at(journal, count - 1) matches Some(record)
            && record.state == JobState::Running && !runs(active, journal[count - 1].0)));
    }
}

/// What is entered of a job: it runs from now on, under its identifier, in its session, with its command,
/// its directory and its mode; nothing has come of it yet.
pub proof fn law_jobs_are_entered_as_running(
    session_id: Seq<char>,
    job: u128,
    command: Seq<char>,
    cwd: Seq<char>,
    mode: ExecutionMode,
    now: u64,
    server_pid: u32,
)
    ensures
        ({
            let record = started(session_id, job, command, cwd, mode, now, server_pid);
            &&& record.state == JobState::Running
            &&& record.job_id == uuid_text(job)
            &&& record.session_id == session_id
            &&& record.cwd == cwd
            &&& record.execution_mode == mode
            &&& record.created_at_ms == now && record.started_at_ms == now && record.updated_at_ms
                == now
            &&& record.finished_at_ms is None && record.exit_code is None && record.result is None
                && record.error is None
            &&& record.server_pid == server_pid
            &&& byte_len(command) <= 8192 ==> record.command == command
            &&& !record.reattachable && record.process_id is None
        }),
{
}

/// What a job gave is entered as its result where it succeeded and as its error where it failed, with the
/// exit code that it names; a success that names none has exited with zero. Texts of at most 64 KiB are kept
/// as they are.
pub proof fn law_ends_of_jobs_are_entered(
    record: RecordView,
    now: u64,
    result: Result<Seq<char>, Seq<char>>,
)
    requires
        record.state == JobState::Running,
    ensures
        ({
            let after = finished(record, now, result);
            &&& after.finished_at_ms == Some(now) && after.updated_at_ms == now
            &&& result matches Ok(text) ==> {
                &&& after.state == JobState::Completed
                &&& after.error is None
                &&& byte_len(quoted(text)) <= 65536 ==> after.result == Some(text)
                &&& after.exit_code is Some
                &&& parsed(text) is Err ==> after.exit_code == Some(0i32)
                &&& parsed(text) matches Ok(value) ==> (member(value, "exit_code"@) matches Some(
                    JsonView::Int(n),
                ) ==> (-2147483648 <= n <= 2147483647 ==> after.exit_code == Some(n as i32)))
            }
            &&& result matches Err(text) ==> {
                &&& after.state == JobState::Failed
                &&& after.result is None
                &&& byte_len(quoted(text)) <= 65536 ==> after.error == Some(text)
                &&& parsed(text) is Err ==> after.exit_code is None
                &&& parsed(text) matches Ok(value) ==> (member(value, "exit_code"@) matches Some(
                    JsonView::Int(n),
                ) ==> (-2147483648 <= n <= 2147483647 ==> after.exit_code == Some(n as i32)))
            }
            &&& after.job_id == record.job_id && after.session_id == record.session_id
                && after.command == record.command && after.cwd == record.cwd
                && after.execution_mode == record.execution_mode && after.created_at_ms
                == record.created_at_ms && after.started_at_ms == record.started_at_ms
        }),
{
}

/// A job that is stopped while it runs has ended by request, and one that is lost says so; neither has a
/// result or an exit code that it did not have, and a time that was known stays.
pub proof fn law_stopped_and_lost_jobs_say_why(record: RecordView, now: u64)
    requires
        record.state == JobState::Running,
    ensures
        ({
            let after = stopped(record, now);
            let gone = orphaned(record, now);
            &&& after.state == JobState::Stopped
            &&& after.error == Some("stopped by request"@)
            &&& gone.state == JobState::Orphaned
            &&& gone.error is Some
            &&& gone.error != after.error
            &&& after.updated_at_ms == now && gone.updated_at_ms == now
            &&& after.result == record.result && gone.result == record.result
            &&& after.exit_code == record.exit_code && gone.exit_code == record.exit_code
            &&& record.finished_at_ms is None ==> after.finished_at_ms == Some(now)
                && gone.finished_at_ms == Some(now)
            &&& record.finished_at_ms is Some ==> after.finished_at_ms == record.finished_at_ms
                && gone.finished_at_ms == record.finished_at_ms
        }),
{
    reveal_strlit("stopped by request");
    reveal_strlit(
        "MCP server restarted or lost the in-memory process handle; this process cannot be reattached",
    );
    assert("stopped by request"@.len() == 18);
}

/// A cleanup removes every job that has ended and was last changed longer ago than jobs are kept, and of
/// the other ended jobs no more than are too many: once it has removed one of those, as many jobs are left as
/// may be.
pub proof fn law_cleanup_removes_what_has_to_go(
    journal: Seq<EntryView>,
    max_jobs: int,
    retention_ms: u64,
    now: u64,
    removed: Seq<usize>,
    place: usize,
)
    requires
        journal.len() <= usize::MAX,
        0 <= max_jobs,
        is_journal_cleanup(journal, max_jobs, cutoff_of(now, retention_ms), removed),
        place < journal.len(),
        record_at(journal, place as int) is Some,
        record_at(journal, place as int)->0.state != JobState::Running,
    ensures
        now - record_at(journal, place as int)->0.updated_at_ms > retention_ms ==> removed.contains(
            place,
        ),
        now - record_at(journal, place as int)->0.updated_at_ms <= retention_ms && removed.contains(
            place,
        ) ==> journal.len() - removed.len() >= max_jobs,
{
    let cutoff = cutoff_of(now, retention_ms);
    let count = journal.len() as int;
    let expired = places(count, is_expired(journal, cutoff));
    let recent = places(count, is_recent(journal, cutoff));
    lemma_places(count, is_expired(journal, cutoff));
    lemma_places(count, is_recent(journal, cutoff));
    let size = journal_surplus(count - expired.len(), recent.len() as int, max_jobs);
    let order = choose|order: Seq<usize>| #[trigger]
        is_order(age_keys(journal, recent), false, order) && removed == expired + Seq::new(
            size as nat,
            |k: int| recent[order[k] as int],
        );
    if now - record_at(journal, place as int)->0.updated_at_ms > retention_ms {
        assert(is_expired(journal, cutoff)(place as int));
        assert(expired.contains(place));
        let k = choose|k: int| 0 <= k < expired.len() && expired[k] == place;
        assert(removed[k] == place);
    } else if removed.contains(place) {
        let k = choose|k: int| 0 <= k < removed.len() && removed[k] == place;
        if k < expired.len() {
            assert(is_expired(journal, cutoff)(expired[k] as int));
        }
        assert(size > 0);
    }
}

/// A job is entered exactly if fewer than 256 are there; then it is found under its name, and the others stay
/// as they are. Where there is no room, nothing changes.
pub proof fn law_jobs_are_entered_where_there_is_room(
    journal: Seq<EntryView>,
    name: Seq<char>,
    record: RecordView,
    other: Seq<char>,
)
    requires
        other != name,
    ensures
        ({
            let (result, after) = entered(journal, name, record);
            &&& result is Ok <==> journal.len() < 256
            &&& result is Err ==> after == journal
            &&& result is Ok ==> result->Ok_0 == record && record_of(after, name) == result && record_of(
                after,
                other,
            ) == record_of(journal, other)
        }),
{
    law_records_are_found_again(journal, name, record, other);
}

/// What changes the record of a job changes no other record; and a job that is not there is told to be
/// unknown.
pub proof fn law_changes_leave_the_other_jobs(
    journal: Seq<EntryView>,
    name: Seq<char>,
    change: spec_fn(RecordView) -> RecordView,
    other: Seq<char>,
)
    requires
        other != name,
    ensures
        record_of(changed(journal, name, change), other) == record_of(journal, other),
        record_of(journal, name) matches Ok(record) ==> record_of(changed(journal, name, change), name)
            == Ok::<RecordView, Seq<char>>(change(record)) && answered(journal, name, change) == Ok::<
            RecordView,
            Seq<char>,
        >(change(record)),
        record_of(journal, name) is Err ==> changed(journal, name, change) == journal && answered(
            journal,
            name,
            change,
        ) == record_of(journal, name),
        (forall|i: int| 0 <= i < journal.len() ==> (#[trigger] journal[i]).0 != name) ==> record_of(
            journal,
            name,
        ) == Err::<RecordView, Seq<char>>("unknown job_id: "@ + name),
{
    if let Ok(record) = record_of(journal, name) {
        law_records_are_found_again(journal, name, change(record), other);
    }
    if forall|i: int| 0 <= i < journal.len() ==> (#[trigger] journal[i]).0 != name {
        lemma_place_unique(journal, name, journal.len() as int);
    }
}

} // verus!
