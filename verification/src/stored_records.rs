//! What a record must say to be stored, and to be taken from where it is stored.
use vstd::prelude::*;

use crate::activity::concat;
use crate::config::{is_session_id, validate_session_id};
use crate::job_id::{parsed_uuid, uuid_text, JobId};
use crate::job_journal::{
    ExecutionMode, JobRecord, RecordView, JOURNAL_VERSION, MAX_JOURNAL_SNAPSHOT_BYTES,
};
use crate::journal_store::{finished, orphaned, started, stopped};
use crate::text::same_text;
use crate::workflow::{
    identifier_mistake, says, validate_identifier, StepRecord, StepView, WorkflowStepArgs,
    WORKFLOW_SCHEMA_VERSION,
};
use crate::workflow_journal::{
    blocked_step, completed_step, pending_step, recovered, running_step, StepOutput,
};

verus! {

/// What is wrong with a record that was stored for a job of a session.
pub open spec fn stored_job_mistake(record: RecordView, session_id: Seq<char>, job: u128) -> Option<
    Seq<char>,
> {
    if record.version != JOURNAL_VERSION {
        Some("unsupported job journal version"@)
    } else if record.session_id != session_id {
        Some("job journal session mismatch"@)
    } else if record.job_id != uuid_text(job) {
        Some("job journal ID mismatch"@)
    } else {
        None
    }
}

/// Checks a record that was stored for a job of a session.
pub fn check_stored_job(record: &JobRecord, session_id: &str, job_id: JobId) -> (result: Result<
    (),
    String,
>)
    ensures
        says(result, stored_job_mistake(record@, session_id@, job_id.bits)),
{
    if record.version != JOURNAL_VERSION {
        Err("unsupported job journal version".to_owned())
    } else if !same_text(record.session_id.as_str(), session_id) {
        Err("job journal session mismatch".to_owned())
    } else if !same_text(record.job_id.as_str(), job_id.to_text().as_str()) {
        Err("job journal ID mismatch".to_owned())
    } else {
        Ok(())
    }
}

/// What a session is told whose identifier is none.
pub open spec fn session_id_mistake(session_id: Seq<char>) -> Option<Seq<char>> {
    if is_session_id(session_id) {
        None
    } else {
        Some("session ID must be 1-64 letters, digits, '-', '_' or '.', and not '.' or '..'"@)
    }
}

/// Checks a record that is to be stored, and tells the job that it is stored for.
pub fn check_job_to_store(record: &JobRecord) -> (result: Result<JobId, String>)
    ensures
        match result {
            Ok(job_id) => record.version == JOURNAL_VERSION && is_session_id(record.session_id@)
                && parsed_uuid(record.job_id@) == Some(job_id.bits),
            Err(message) => if record.version != JOURNAL_VERSION {
                message@ == "unsupported job journal version"@
            } else if !is_session_id(record.session_id@) {
                session_id_mistake(record.session_id@) == Some(message@)
            } else {
                parsed_uuid(record.job_id@) is None && message@ == "invalid journal job_id"@
            },
        },
        forall|job: JobId|
            record.version == JOURNAL_VERSION && is_session_id(record.session_id@) && record.job_id@
                == #[trigger] uuid_text(job.bits) ==> result == Ok::<JobId, String>(job),
{
    if record.version != JOURNAL_VERSION {
        return Err("unsupported job journal version".to_owned());
    }
    match validate_session_id(record.session_id.as_str()) {
        Err(message) => {
            return Err(message);
        },
        Ok(()) => {},
    }
    match JobId::parse_str(record.job_id.as_str()) {
        Some(job_id) => Ok(job_id),
        None => Err("invalid journal job_id".to_owned()),
    }
}

/// Checks how long the text of a record is that is to be stored.
pub fn check_snapshot_to_store(bytes: u64) -> (result: Result<(), String>)
    ensures
        says(
            result,
            if bytes <= MAX_JOURNAL_SNAPSHOT_BYTES {
                None
            } else {
                Some("job journal snapshot exceeds 131072 bytes"@)
            },
        ),
{
    if bytes <= MAX_JOURNAL_SNAPSHOT_BYTES {
        Ok(())
    } else {
        Err("job journal snapshot exceeds 131072 bytes".to_owned())
    }
}

/// Checks how long a file with a record is, before it is read.
pub fn check_stored_snapshot(path: &str, bytes: u64) -> (result: Result<(), String>)
    ensures
        says(
            result,
            if bytes <= MAX_JOURNAL_SNAPSHOT_BYTES {
                None
            } else {
                Some("job journal "@ + path@ + " exceeds 131072 bytes"@)
            },
        ),
{
    if bytes <= MAX_JOURNAL_SNAPSHOT_BYTES {
        Ok(())
    } else {
        let mut message: String = concat("job journal ", path);
        message.append(" exceeds 131072 bytes");
        Err(message)
    }
}

/// What is wrong with a record that was stored for a step of a session.
pub open spec fn stored_step_mistake(
    step: StepView,
    session_id: Seq<char>,
    step_id: Seq<char>,
) -> Option<Seq<char>> {
    if step.version != WORKFLOW_SCHEMA_VERSION {
        Some("unsupported workflow journal version"@)
    } else if step.session_id != session_id {
        Some("workflow session mismatch"@)
    } else if step.step_id != step_id {
        Some("workflow step ID mismatch"@)
    } else {
        None
    }
}

/// Checks a record that was stored for a step of a session.
pub fn check_stored_step(step: &StepRecord, session_id: &str, step_id: &str) -> (result: Result<
    (),
    String,
>)
    ensures
        says(result, stored_step_mistake(step@, session_id@, step_id@)),
{
    if step.version != WORKFLOW_SCHEMA_VERSION {
        Err("unsupported workflow journal version".to_owned())
    } else if !same_text(step.session_id.as_str(), session_id) {
        Err("workflow session mismatch".to_owned())
    } else if !same_text(step.step_id.as_str(), step_id) {
        Err("workflow step ID mismatch".to_owned())
    } else {
        Ok(())
    }
}

/// What is wrong with the record of a step that is to be stored.
pub open spec fn step_to_store_mistake(step: StepView) -> Option<Seq<char>> {
    if step.version != WORKFLOW_SCHEMA_VERSION {
        Some("unsupported workflow journal version"@)
    } else if !is_session_id(step.session_id) {
        session_id_mistake(step.session_id)
    } else {
        identifier_mistake("step_id"@, step.step_id)
    }
}

/// Checks the record of a step that is to be stored.
pub fn check_step_to_store(step: &StepRecord) -> (result: Result<(), String>)
    ensures
        says(result, step_to_store_mistake(step@)),
{
    if step.version != WORKFLOW_SCHEMA_VERSION {
        return Err("unsupported workflow journal version".to_owned());
    }
    match validate_session_id(step.session_id.as_str()) {
        Err(message) => Err(message),
        Ok(()) => validate_identifier("step_id", step.step_id.as_str()),
    }
}

/// The record of a job that is started can be taken again from where it is stored, and so can the
/// same record whatever becomes of the job.
pub proof fn law_job_records_can_be_taken_again(
    session_id: Seq<char>,
    job: u128,
    command: Seq<char>,
    cwd: Seq<char>,
    execution_mode: ExecutionMode,
    now: u64,
    server_pid: u32,
    result: Result<Seq<char>, Seq<char>>,
    later: u64,
)
    ensures
        ({
            let record = started(session_id, job, command, cwd, execution_mode, now, server_pid);
            &&& stored_job_mistake(record, session_id, job) is None
            &&& stored_job_mistake(finished(record, later, result), session_id, job) is None
            &&& stored_job_mistake(stopped(record, later), session_id, job) is None
            &&& stored_job_mistake(orphaned(record, later), session_id, job) is None
        }),
{
}

/// The record of a step that is asked for can be stored and taken again, and so can the same record
/// whatever becomes of the step.
pub proof fn law_step_records_can_be_taken_again(
    args: WorkflowStepArgs,
    session_id: Seq<char>,
    runner: Seq<char>,
    blocked_by: Seq<Seq<char>>,
    missing: Seq<Seq<char>>,
    now: u64,
    output: Result<StepOutput, String>,
    absent: Seq<Seq<char>>,
    other_runner: Seq<char>,
    later: u64,
)
    requires
        is_session_id(session_id),
        identifier_mistake("step_id"@, args.step_id@) is None,
    ensures
        ({
            let step = pending_step(args, session_id, runner, blocked_by, missing, now);
            let running = running_step(step, later);
            let ended = completed_step(running, output, absent, later);
            &&& stored_step_mistake(step, session_id, args.step_id@) is None
            &&& step_to_store_mistake(step) is None
            &&& stored_step_mistake(blocked_step(step, now), session_id, args.step_id@) is None
            &&& step_to_store_mistake(blocked_step(step, now)) is None
            &&& stored_step_mistake(running, session_id, args.step_id@) is None
            &&& step_to_store_mistake(running) is None
            &&& stored_step_mistake(ended, session_id, args.step_id@) is None
            &&& step_to_store_mistake(ended) is None
            &&& step_to_store_mistake(recovered(running, other_runner, later)) is None
        }),
{
}

/// A record is taken for a job only where it is of that job, in that session, and of the version that is
/// known; and likewise for a step.
pub proof fn law_records_are_taken_for_their_owner(
    record: RecordView,
    step: StepView,
    session_id: Seq<char>,
    job: u128,
    step_id: Seq<char>,
)
    ensures
        stored_job_mistake(record, session_id, job) is None <==> record.version == 1
            && record.session_id == session_id && record.job_id == uuid_text(job),
        stored_step_mistake(step, session_id, step_id) is None <==> step.version == 1
            && step.session_id == session_id && step.step_id == step_id,
        step_to_store_mistake(step) is None <==> step.version == 1 && is_session_id(step.session_id)
            && identifier_mistake("step_id"@, step.step_id) is None,
        session_id_mistake(session_id) is None <==> is_session_id(session_id),
{
}

} // verus!
