//! Where sessions keep the logs of their commands and the records of their jobs and steps.
use vstd::prelude::*;

use crate::config::{
    is_name_char, is_session_id, law_session_ids_are_plain_names, validate_session_id,
};
use crate::job_id::{law_identifiers_differ_in_writing, lemma_uuid_text, uuid_text, JobId};
use crate::paths::{resolve_path, resolved};
use crate::stored_records::session_id_mistake;
use crate::workflow::{identifier_mistake, law_identifiers_are_names, validate_identifier};

verus! {

/// The directory of a session below another.
pub open spec fn session_directory(
    state_dir: Seq<char>,
    kind: Seq<char>,
    session_id: Seq<char>,
) -> Seq<char> {
    resolved(resolved(state_dir, kind), session_id)
}

/// Where the logs of the commands of a session are.
pub open spec fn log_root_of(state_dir: Seq<char>, session_id: Seq<char>) -> Seq<char> {
    session_directory(state_dir, "command-logs"@, session_id)
}

/// Where the records of the jobs of a session are.
pub open spec fn job_root_of(state_dir: Seq<char>, session_id: Seq<char>) -> Seq<char> {
    session_directory(state_dir, "jobs"@, session_id)
}

/// Where the records of the workflow steps of a session are.
pub open spec fn step_root_of(state_dir: Seq<char>, session_id: Seq<char>) -> Seq<char> {
    session_directory(state_dir, "workflow-steps"@, session_id)
}

/// Whether a result is a directory, or says what is wrong.
pub open spec fn gives(
    result: Result<String, String>,
    directory: Seq<char>,
    mistake: Option<Seq<char>>,
) -> bool {
    match mistake {
        None => result matches Ok(found) && found@ == directory,
        Some(message) => result matches Err(said) && said@ == message,
    }
}

fn directory_of_session(state_dir: &str, kind: &str, session_id: &str) -> (result: Result<
    String,
    String,
>)
    ensures
        gives(
            result,
            session_directory(state_dir@, kind@, session_id@),
            session_id_mistake(session_id@),
        ),
{
    match validate_session_id(session_id) {
        Err(message) => Err(message),
        Ok(()) => Ok(resolve_path(resolve_path(state_dir, kind).as_str(), session_id)),
    }
}

/// Where the logs of the commands of a session are.
pub fn session_log_root(state_dir: &str, session_id: &str) -> (result: Result<String, String>)
    ensures
        gives(
            result,
            log_root_of(state_dir@, session_id@),
            session_id_mistake(session_id@),
        ),
{
    directory_of_session(state_dir, "command-logs", session_id)
}

/// Where the logs of one command are.
pub fn execution_log_dir(state_dir: &str, session_id: &str, job_id: JobId) -> (result: Result<
    String,
    String,
>)
    ensures
        gives(
            result,
            resolved(
                log_root_of(state_dir@, session_id@),
                uuid_text(job_id.bits),
            ),
            session_id_mistake(session_id@),
        ),
{
    match session_log_root(state_dir, session_id) {
        Err(message) => Err(message),
        Ok(root) => Ok(resolve_path(root.as_str(), job_id.to_text().as_str())),
    }
}

/// Where the records of the jobs of a session are.
pub fn session_job_root(state_dir: &str, session_id: &str) -> (result: Result<String, String>)
    ensures
        gives(
            result,
            job_root_of(state_dir@, session_id@),
            session_id_mistake(session_id@),
        ),
{
    directory_of_session(state_dir, "jobs", session_id)
}

/// Where the record of a job is.
pub fn job_root(state_dir: &str, session_id: &str, job_id: JobId) -> (result: Result<String, String>)
    ensures
        gives(
            result,
            resolved(
                job_root_of(state_dir@, session_id@),
                uuid_text(job_id.bits),
            ),
            session_id_mistake(session_id@),
        ),
{
    match session_job_root(state_dir, session_id) {
        Err(message) => Err(message),
        Ok(root) => Ok(resolve_path(root.as_str(), job_id.to_text().as_str())),
    }
}

/// Where the records of the workflow steps of a session are.
pub fn session_step_root(state_dir: &str, session_id: &str) -> (result: Result<String, String>)
    ensures
        gives(
            result,
            step_root_of(state_dir@, session_id@),
            session_id_mistake(session_id@),
        ),
{
    directory_of_session(state_dir, "workflow-steps", session_id)
}

/// Where the record of a workflow step is.
pub fn step_root(state_dir: &str, session_id: &str, step_id: &str) -> (result: Result<String, String>)
    ensures
        gives(
            result,
            resolved(step_root_of(state_dir@, session_id@), step_id@),
            match identifier_mistake("step_id"@, step_id@) {
                Some(message) => Some(message),
                None => session_id_mistake(session_id@),
            },
        ),
{
    match validate_identifier("step_id", step_id) {
        Err(message) => {
            return Err(message);
        },
        Ok(()) => {},
    }
    match session_step_root(state_dir, session_id) {
        Err(message) => Err(message),
        Ok(root) => Ok(resolve_path(root.as_str(), step_id)),
    }
}

/// Two sessions keep what is theirs in different directories, so that neither sees what the other
/// keeps.
pub proof fn law_sessions_are_kept_apart(
    state_dir: Seq<char>,
    kind: Seq<char>,
    first: Seq<char>,
    second: Seq<char>,
)
    requires
        is_session_id(first),
        is_session_id(second),
        first != second,
    ensures
        session_directory(state_dir, kind, first) != session_directory(state_dir, kind, second),
{
    assert(is_name_char(first[0]));
    assert(is_name_char(second[0]));
    let root = resolved(state_dir, kind);
    let base = if root.len() > 0 && root.last() != '/' {
        root + seq!['/']
    } else {
        root
    };
    let one = session_directory(state_dir, kind, first);
    let other = session_directory(state_dir, kind, second);
    assert(one =~= base + first);
    assert(other =~= base + second);
    assert(one.skip(base.len() as int) =~= first);
    assert(other.skip(base.len() as int) =~= second);
}

/// What a session keeps of one kind lies in a directory of that kind below the directory of the server, under
/// the identifier of the session.
pub proof fn law_sessions_keep_things_below_the_server(
    state_dir: Seq<char>,
    kind: Seq<char>,
    session_id: Seq<char>,
)
    requires
        state_dir.len() > 0 && state_dir.last() != '/',
        kind.len() > 0 && kind[0] != '/' && kind.last() != '/',
        is_session_id(session_id),
    ensures
        session_directory(state_dir, kind, session_id) == state_dir + seq!['/'] + kind + seq!['/']
            + session_id,
{
    law_session_ids_are_plain_names(session_id);
    assert(session_id[0] != '/');
    let root = state_dir + seq!['/'] + kind;
    assert(resolved(state_dir, kind) == root);
    assert(root.last() == kind.last());
}

/// Logs, jobs and steps are kept in different directories, of one session and of two; and two jobs of a session
/// have different directories, and so have two steps.
pub proof fn law_what_is_kept_is_kept_apart(
    state_dir: Seq<char>,
    first: Seq<char>,
    second: Seq<char>,
    job: u128,
    other_job: u128,
    step: Seq<char>,
    other_step: Seq<char>,
)
    requires
        state_dir.len() > 0 && state_dir.last() != '/',
        is_session_id(first),
        is_session_id(second),
        job != other_job,
        step != other_step,
        identifier_mistake("step_id"@, step) is None,
        identifier_mistake("step_id"@, other_step) is None,
    ensures
        log_root_of(state_dir, first) != job_root_of(state_dir, second),
        log_root_of(state_dir, first) != step_root_of(state_dir, second),
        job_root_of(state_dir, first) != step_root_of(state_dir, second),
        resolved(job_root_of(state_dir, first), uuid_text(job)) != resolved(
            job_root_of(state_dir, first),
            uuid_text(other_job),
        ),
        resolved(log_root_of(state_dir, first), uuid_text(job)) != resolved(
            log_root_of(state_dir, first),
            uuid_text(other_job),
        ),
        resolved(step_root_of(state_dir, first), step) != resolved(
            step_root_of(state_dir, first),
            other_step,
        ),
{
    reveal_strlit("command-logs");
    reveal_strlit("jobs");
    reveal_strlit("workflow-steps");
    assert("command-logs"@.len() == 12 && "jobs"@.len() == 4 && "workflow-steps"@.len() == 14);
    assert("command-logs"@[0] == 'c' && "jobs"@[0] == 'j' && "workflow-steps"@[0] == 'w');
    law_sessions_keep_things_below_the_server(state_dir, "command-logs"@, first);
    law_sessions_keep_things_below_the_server(state_dir, "jobs"@, first);
    law_sessions_keep_things_below_the_server(state_dir, "workflow-steps"@, first);
    law_sessions_keep_things_below_the_server(state_dir, "jobs"@, second);
    law_sessions_keep_things_below_the_server(state_dir, "workflow-steps"@, second);
    let at = state_dir.len() as int + 1;
    assert(log_root_of(state_dir, first)[at] == 'c');
    assert(job_root_of(state_dir, first)[at] == 'j');
    assert(job_root_of(state_dir, second)[at] == 'j');
    assert(step_root_of(state_dir, second)[at] == 'w');
    law_session_ids_are_plain_names(first);
    if uuid_text(job) == uuid_text(other_job) {
        law_identifiers_differ_in_writing(job, other_job);
    }
    lemma_names_below_differ(job_root_of(state_dir, first), uuid_text(job), uuid_text(other_job));
    lemma_names_below_differ(log_root_of(state_dir, first), uuid_text(job), uuid_text(other_job));
    law_identifiers_are_names("step_id"@, step);
    law_identifiers_are_names("step_id"@, other_step);
    lemma_uuid_text(job);
    lemma_names_below_differ(step_root_of(state_dir, first), step, other_step);
}

proof fn lemma_names_below_differ(root: Seq<char>, name: Seq<char>, other: Seq<char>)
    requires
        name != other,
    ensures
        !(name.len() > 0 && name[0] == '/') && !(other.len() > 0 && other[0] == '/') ==> resolved(
            root,
            name,
        ) != resolved(root, other),
{
    let base = if root.len() > 0 && root.last() != '/' {
        root + seq!['/']
    } else {
        root
    };
    if !(name.len() > 0 && name[0] == '/') && !(other.len() > 0 && other[0] == '/') {
        assert((base + name).skip(base.len() as int) =~= name);
        assert((base + other).skip(base.len() as int) =~= other);
        assert(resolved(root, name) =~= base + name);
        assert(resolved(root, other) =~= base + other);
    }
}

} // verus!
