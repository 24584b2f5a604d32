//! The jobs of a running server: what is answered of them, and the results that are remembered.
use vstd::prelude::*;

use crate::command_answers::{answer_bytes, law_reasons_fit};
use crate::command_output::MIN_INLINE_OUTPUT_LIMIT;
use crate::command_result::{CommandOutcome, CommandStatus, OutcomeView};
use crate::job_id::{lemma_uuid_text, uuid_text, JobId};
use crate::job_journal::{
    kept_payload, JobRecord, JobState, RecordView, MAX_PERSISTED_FIELD_SERIALIZED_BYTES,
};
use crate::journal_store::{finished, settled};
use crate::json::{member, ordered, parse, parsed, quoted, text_member, Json, JsonView};
use crate::json_size::{escaped_bytes, lemma_unescaped_size};
use crate::kept_outcomes::{given, tell, told};
use crate::text::{byte_len, same_text};

verus! {

pub const MAX_TERMINAL_JOBS: usize = 256;

/// How long a command may run before it goes on in the background.
pub const FOREGROUND_TIMEOUT_MILLIS: u64 = 30000;

/// A job that has ended: its session, and what it gave.
#[derive(Debug)]
pub struct TerminalJob {
    pub job_id: JobId,
    pub session_id: String,
    pub outcome: Result<String, String>,
}

/// The session of a job that has ended, and what it gave.
pub type TerminalView = (Seq<char>, Result<Seq<char>, Seq<char>>);

impl View for TerminalJob {
    type V = TerminalView;

    open spec fn view(&self) -> TerminalView {
        (self.session_id@, given(self.outcome))
    }
}

/// The jobs that have ended and are remembered, at most 256 of them.
#[derive(Debug)]
pub struct TerminalJobs {
    jobs: Vec<TerminalJob>,
}

/// The place of the first job with an identifier; the length where there is none.
spec fn job_place(jobs: Seq<TerminalJob>, id: JobId) -> int
    decreases jobs.len(),
{
    if jobs.len() == 0 || jobs[0].job_id == id {
        0
    } else {
        1 + job_place(jobs.drop_first(), id)
    }
}

proof fn lemma_job_place(jobs: Seq<TerminalJob>, id: JobId)
    ensures
        0 <= job_place(jobs, id) <= jobs.len(),
        job_place(jobs, id) < jobs.len() ==> jobs[job_place(jobs, id)].job_id == id,
        forall|i: int| 0 <= i < job_place(jobs, id) ==> (#[trigger] jobs[i]).job_id != id,
    decreases jobs.len(),
{
    if jobs.len() > 0 && jobs[0].job_id != id {
        let rest = jobs.drop_first();
        lemma_job_place(rest, id);
        assert forall|i: int| 0 <= i < job_place(jobs, id) implies (#[trigger] jobs[i]).job_id != id by {
            if i > 0 {
                assert(jobs[i] == rest[i - 1]);
            }
        }
    }
}

proof fn lemma_job_place_is(jobs: Seq<TerminalJob>, id: JobId, place: int)
    requires
        0 <= place <= jobs.len(),
        place < jobs.len() ==> jobs[place].job_id == id,
        forall|i: int| 0 <= i < place ==> (#[trigger] jobs[i]).job_id != id,
    ensures
        job_place(jobs, id) == place,
{
    lemma_job_place(jobs, id);
    let found = job_place(jobs, id);
    if found < place {
        assert(jobs[found].job_id != id);
    } else if place < found {
        assert(jobs[place].job_id != id);
    }
}

spec fn distinct_ids(jobs: Seq<TerminalJob>) -> bool {
    forall|i: int, j: int|
        0 <= i < j < jobs.len() ==> (#[trigger] jobs[i]).job_id != (#[trigger] jobs[j]).job_id
}

spec fn jobs_map(jobs: Seq<TerminalJob>) -> Map<JobId, TerminalView> {
    Map::new(
        |id: JobId| job_place(jobs, id) < jobs.len(),
        |id: JobId| jobs[job_place(jobs, id)]@,
    )
}

impl View for TerminalJobs {
    type V = Map<JobId, TerminalView>;

    closed spec fn view(&self) -> Map<JobId, TerminalView> {
        jobs_map(self.jobs@)
    }
}

proof fn lemma_drop_oldest(jobs: Seq<TerminalJob>)
    requires
        distinct_ids(jobs),
        jobs.len() > 0,
    ensures
        distinct_ids(jobs.remove(0)),
        jobs_map(jobs.remove(0)) == jobs_map(jobs).remove(jobs[0].job_id),
        jobs_map(jobs).dom().contains(jobs[0].job_id),
{
    let rest = jobs.remove(0);
    let first = jobs[0].job_id;
    assert forall|i: int| 0 <= i < rest.len() implies #[trigger] rest[i] == jobs[i + 1] by {}
    assert forall|i: int, j: int| 0 <= i < j < rest.len() implies (#[trigger] rest[i]).job_id != (
    #[trigger] rest[j]).job_id by {
        assert(jobs[i + 1].job_id != jobs[j + 1].job_id);
    }
    lemma_job_place_is(jobs, first, 0);
    assert forall|id: JobId|
        job_place(rest, id) == if id == first {
            rest.len() as int
        } else {
            #[trigger] job_place(jobs, id) - 1
        } by {
        lemma_job_place(jobs, id);
        if id == first {
            assert forall|i: int| 0 <= i < rest.len() implies (#[trigger] rest[i]).job_id != id by {
                assert(jobs[0].job_id != jobs[i + 1].job_id);
            }
            lemma_job_place_is(rest, id, rest.len() as int);
        } else {
            assert(job_place(jobs, id) != 0);
            assert forall|i: int| 0 <= i < job_place(jobs, id) - 1 implies (#[trigger] rest[i]).job_id
                != id by {
                assert(jobs[i + 1].job_id != id);
            }
            lemma_job_place_is(rest, id, job_place(jobs, id) - 1);
        }
    }
    assert forall|id: JobId| #[trigger] jobs_map(rest).dom().contains(id) <==> jobs_map(jobs).remove(
        first,
    ).dom().contains(id) by {
        lemma_job_place(jobs, id);
        lemma_job_place(rest, id);
    }
    assert forall|id: JobId| jobs_map(rest).dom().contains(id) implies #[trigger] jobs_map(rest)[id]
        == jobs_map(jobs).remove(first)[id] by {
        lemma_job_place(jobs, id);
        lemma_job_place(rest, id);
    }
    assert(jobs_map(rest) =~= jobs_map(jobs).remove(first));
}

proof fn lemma_put_job(before: Seq<TerminalJob>, after: Seq<TerminalJob>, job: TerminalJob)
    requires
        distinct_ids(before),
        after == if job_place(before, job.job_id) < before.len() {
            before.update(job_place(before, job.job_id), job)
        } else {
            before.push(job)
        },
    ensures
        distinct_ids(after),
        jobs_map(after) == jobs_map(before).insert(job.job_id, job@),
{
    let place = job_place(before, job.job_id);
    lemma_job_place(before, job.job_id);
    assert forall|i: int, j: int| 0 <= i < j < after.len() implies (#[trigger] after[i]).job_id != (
    #[trigger] after[j]).job_id by {
        if j < before.len() {
            assert(before[i].job_id != before[j].job_id);
        } else {
            assert(before[i].job_id != job.job_id);
        }
    }
    assert forall|id: JobId|
        #[trigger] job_place(after, id) == if id == job.job_id {
            place
        } else if job_place(before, id) < before.len() {
            job_place(before, id)
        } else {
            after.len() as int
        } by {
        lemma_job_place(before, id);
        if id == job.job_id {
            lemma_job_place_is(after, id, place);
        } else if job_place(before, id) < before.len() {
            lemma_job_place_is(after, id, job_place(before, id));
        } else {
            lemma_job_place_is(after, id, after.len() as int);
        }
    }
    assert forall|id: JobId| #[trigger] jobs_map(after).dom().contains(id) <==> jobs_map(
        before,
    ).insert(job.job_id, job@).dom().contains(id) by {
        lemma_job_place(before, id);
        lemma_job_place(after, id);
    }
    assert forall|id: JobId| jobs_map(after).dom().contains(id) implies #[trigger] jobs_map(after)[id]
        == jobs_map(before).insert(job.job_id, job@)[id] by {
        lemma_job_place(before, id);
        lemma_job_place(after, id);
    }
    assert(jobs_map(after) =~= jobs_map(before).insert(job.job_id, job@));
}

/// What may come of remembering a job: it is entered; and where 256 others are remembered, one of
/// them is forgotten.
pub open spec fn may_become(
    before: Map<JobId, TerminalView>,
    count: int,
    job: JobId,
    view: TerminalView,
    after: Map<JobId, TerminalView>,
) -> bool {
    if count >= MAX_TERMINAL_JOBS && !before.dom().contains(job) {
        exists|forgotten: JobId|
            before.dom().contains(forgotten) && after == #[trigger] before.remove(forgotten).insert(
                job,
                view,
            )
    } else {
        after == before.insert(job, view)
    }
}

impl TerminalJobs {
    /// Whether each job is remembered once, and no more than 256 are.
    pub closed spec fn well_formed(&self) -> bool {
        distinct_ids(self.jobs@) && self.jobs@.len() <= MAX_TERMINAL_JOBS
    }

    /// How many jobs are remembered.
    pub closed spec fn count(&self) -> int {
        self.jobs@.len() as int
    }

    /// No jobs.
    pub fn new() -> (jobs: TerminalJobs)
        ensures
            jobs.well_formed(),
            jobs@ == Map::<JobId, TerminalView>::empty(),
            jobs.count() == 0,
    {
        let jobs: TerminalJobs = TerminalJobs { jobs: Vec::new() };
        proof {
            assert(jobs@ =~= Map::<JobId, TerminalView>::empty());
        }
        jobs
    }

    fn find(&self, job_id: JobId) -> (place: usize)
        ensures
            place == job_place(self.jobs@, job_id),
            place <= self.jobs@.len(),
    {
        let mut place: usize = 0;
        while place < self.jobs.len() && self.jobs[place].job_id != job_id
            invariant
                place <= self.jobs@.len(),
                forall|i: int| 0 <= i < place ==> (#[trigger] self.jobs@[i]).job_id != job_id,
            decreases self.jobs@.len() - place,
        {
            place = place + 1;
        }
        proof {
            lemma_job_place_is(self.jobs@, job_id, place as int);
        }
        place
    }

    /// Remembers what a job gave. Where 256 other jobs are remembered, one of them is forgotten.
    pub fn remember(&mut self, job_id: JobId, session_id: &str, result: &Result<String, String>)
        requires
            old(self).well_formed(),
        ensures
            final(self).well_formed(),
            final(self).count() <= MAX_TERMINAL_JOBS,
            may_become(
                old(self)@,
                old(self).count(),
                job_id,
                (session_id@, given(*result)),
                final(self)@,
            ),
    {
        let ghost start = self.jobs@;
        let outcome: Result<String, String> = match result {
            Ok(text) => Ok(text.clone()),
            Err(message) => Err(message.clone()),
        };
        let job: TerminalJob = TerminalJob { job_id, session_id: session_id.to_owned(), outcome };
        let known: usize = self.find(job_id);
        if self.jobs.len() >= MAX_TERMINAL_JOBS && known >= self.jobs.len() {
            proof {
                lemma_drop_oldest(start);
                lemma_job_place(start, job_id);
                assert forall|i: int| 0 <= i < start.remove(0).len() implies (#[trigger] start.remove(
                    0,
                )[i]).job_id != job_id by {
                    assert(start.remove(0)[i] == start[i + 1]);
                }
                lemma_job_place_is(start.remove(0), job_id, start.len() - 1);
            }
            let ghost forgotten = start[0].job_id;
            let oldest: TerminalJob = self.jobs.remove(0);
            proof {
                lemma_put_job(self.jobs@, self.jobs@.push(job), job);
                assert(jobs_map(self.jobs@.push(job)) == jobs_map(start).remove(forgotten).insert(
                    job_id,
                    job@,
                ));
            }
            self.jobs.push(job);
            return ;
        }
        proof {
            lemma_put_job(
                start,
                if known < start.len() {
                    start.update(known as int, job)
                } else {
                    start.push(job)
                },
                job,
            );
        }
        if known < self.jobs.len() {
            self.jobs[known] = job;
        } else {
            self.jobs.push(job);
        }
    }

    /// What is answered of a job that a session asks for; nothing where it is not remembered. A job of
    /// another session is refused.
    pub fn cached_terminal_result(&self, job_id: JobId, session_id: &str) -> (result: Result<
        Option<Json>,
        String,
    >)
        requires
            self.well_formed(),
        ensures
            match result {
                Ok(Some(json)) => {
                    &&& self@.dom().contains(job_id)
                    &&& self@[job_id].0 == session_id@
                    &&& told(self@[job_id].1) == Ok::<JsonView, Seq<char>>(json@)
                    &&& ordered(json@)
                },
                Ok(None) => !self@.dom().contains(job_id),
                Err(message) => {
                    &&& self@.dom().contains(job_id)
                    &&& if self@[job_id].0 != session_id@ {
                        message@ == "job does not belong to this session"@
                    } else {
                        told(self@[job_id].1) == Err::<JsonView, Seq<char>>(message@)
                    }
                },
            },
    {
        let place: usize = self.find(job_id);
        if place >= self.jobs.len() {
            return Ok(None);
        }
        if !same_text(self.jobs[place].session_id.as_str(), session_id) {
            return Err("job does not belong to this session".to_owned());
        }
        match tell(&self.jobs[place].outcome) {
            Ok(json) => Ok(Some(json)),
            Err(message) => Err(message),
        }
    }
}

/// A job that the server runs: its session, and whether its command has ended.
#[derive(Debug)]
pub struct RunningJob {
    pub session_id: String,
    pub finished: bool,
}

/// What is to be done about a job that a session asks for.
#[derive(Debug)]
pub enum JobStep {
    /// Answer this.
    Answer(Json),
    /// Take the job from those that run and wait for its end.
    Await,
}

/// The outcome of a job that runs.
pub open spec fn running_outcome(job_id: JobId) -> OutcomeView {
    OutcomeView::runs(job_id.bits)
}

/// The answer that a job runs.
pub open spec fn running_answer(job_id: JobId) -> JsonView {
    running_outcome(job_id).answer()
}

proof fn lemma_running_answer_fits(job_id: JobId)
    ensures
        answer_bytes(running_answer(job_id)) <= MIN_INLINE_OUTPUT_LIMIT,
{
    let outcome = running_outcome(job_id);
    reveal_strlit("Command is running as job ");
    reveal_strlit(".");
    lemma_uuid_text(job_id.bits);
    lemma_unescaped_size(outcome.message);
    law_reasons_fit(outcome);
}

/// The answer that a job runs.
pub fn running_result(job_id: JobId) -> (json: Json)
    ensures
        json@ == running_answer(job_id),
        ordered(json@),
        answer_bytes(json@) <= MIN_INLINE_OUTPUT_LIMIT,
{
    proof {
        lemma_running_answer_fits(job_id);
    }
    CommandOutcome::running(job_id).tool_result()
}

/// What is answered of a job whose record the journal has: what it gave; or that it was lost or
/// stopped, and why, with a reason that fits into any answer.
pub open spec fn recorded_answer(record: RecordView, job_id: JobId) -> Result<JsonView, Seq<char>> {
    match record.result {
        Some(text) => told(Ok(text)),
        None => match record.error {
            Some(message) => match record.state {
                JobState::Orphaned => Ok(
                    OutcomeView::ended(
                        Some(uuid_text(job_id.bits)),
                        false,
                        message,
                        "orphaned"@,
                    ).brief().answer(),
                ),
                JobState::Stopped => Ok(
                    OutcomeView::ended(
                        Some(uuid_text(job_id.bits)),
                        true,
                        message,
                        "cancelled"@,
                    ).brief().answer(),
                ),
                _ => told(Err(message)),
            },
            None => Ok(running_answer(job_id)),
        },
    }
}

/// The response that tells of a job which has no result that it was lost or stopped, or that it runs,
/// fits into the smallest limit for output.
pub proof fn law_recorded_ends_fit(record: RecordView, job_id: JobId)
    requires
        record.result is None,
        record.error is None || record.state is Orphaned || record.state is Stopped,
    ensures
        recorded_answer(record, job_id) matches Ok(answer) && answer_bytes(answer)
            <= MIN_INLINE_OUTPUT_LIMIT,
{
    let job = Some(uuid_text(job_id.bits));
    match record.error {
        Some(message) => {
            law_reasons_fit(OutcomeView::ended(job, false, message, "orphaned"@));
            law_reasons_fit(OutcomeView::ended(job, true, message, "cancelled"@));
        },
        None => {
            lemma_running_answer_fits(job_id);
        },
    }
}

/// What is answered of a job that does not run: what is remembered of it, else what its record in
/// the journal of the session says.
pub open spec fn remembered_answer(
    remembered: Map<JobId, TerminalView>,
    recorded: Option<RecordView>,
    job_id: JobId,
    session_id: Seq<char>,
) -> Result<JsonView, Seq<char>> {
    if !remembered.dom().contains(job_id) {
        match recorded {
            Some(record) => recorded_answer(record, job_id),
            None => Err("unknown job_id: "@ + uuid_text(job_id.bits)),
        }
    } else if remembered[job_id].0 != session_id {
        Err("job does not belong to this session"@)
    } else {
        told(remembered[job_id].1)
    }
}

/// What a record says that may be missing.
pub open spec fn optional_record(record: Option<JobRecord>) -> Option<RecordView> {
    match record {
        Some(record) => Some(record@),
        None => None,
    }
}

/// What is answered of a job whose record the journal has.
pub fn answer_from_record(record: &JobRecord, job_id: JobId) -> (result: Result<Json, String>)
    ensures
        match result {
            Ok(json) => recorded_answer(record@, job_id) == Ok::<JsonView, Seq<char>>(json@) && ordered(
                json@,
            ),
            Err(message) => recorded_answer(record@, job_id) == Err::<JsonView, Seq<char>>(message@),
        },
{
    match &record.result {
        Some(text) => tell(&Ok(text.clone())),
        None => match &record.error {
            Some(message) => match record.state {
                JobState::Orphaned => Ok(
                    CommandOutcome::orphaned(job_id, message.as_str()).brief().tool_result(),
                ),
                JobState::Stopped => Ok(
                    CommandOutcome::cancellation(Some(job_id), message.as_str()).brief().tool_result(),
                ),
                _ => tell(&Err(message.clone())),
            },
            None => Ok(running_result(job_id)),
        },
    }
}

fn recall(
    remembered: &TerminalJobs,
    recorded: &Option<JobRecord>,
    job_id: JobId,
    session_id: &str,
) -> (result: Result<Json, String>)
    requires
        remembered.well_formed(),
    ensures
        match result {
            Ok(json) => remembered_answer(
                remembered@,
                optional_record(*recorded),
                job_id,
                session_id@,
            ) == Ok::<JsonView, Seq<char>>(json@) && ordered(json@),
            Err(message) => remembered_answer(
                remembered@,
                optional_record(*recorded),
                job_id,
                session_id@,
            ) == Err::<JsonView, Seq<char>>(message@),
        },
{
    match remembered.cached_terminal_result(job_id, session_id) {
        Ok(Some(json)) => Ok(json),
        Ok(None) => match recorded {
            Some(record) => answer_from_record(record, job_id),
            None => {
                let mut message: String = "unknown job_id: ".to_owned();
                message.append(job_id.to_text().as_str());
                Err(message)
            },
        },
        Err(message) => Err(message),
    }
}

/// A job that the server runs: its session, and whether its command has ended.
pub type RunningView = (Seq<char>, bool);

/// A job that the server runs.
pub open spec fn running_view(job: Option<RunningJob>) -> Option<RunningView> {
    match job {
        Some(job) => Some((job.session_id@, job.finished)),
        None => None,
    }
}

/// What is to be done about a job that a session asks for: answer this, or wait for its end.
pub enum JobStepView {
    Answer(JsonView),
    Await,
}

/// What is to be done about a job that a session asks for, or why nothing is.
pub open spec fn step_view(step: Result<JobStep, String>) -> Result<JobStepView, Seq<char>> {
    match step {
        Ok(JobStep::Answer(json)) => Ok(JobStepView::Answer(json@)),
        Ok(JobStep::Await) => Ok(JobStepView::Await),
        Err(message) => Err(message@),
    }
}

/// What is to be done about a job that the server does not run.
pub open spec fn recalled(
    remembered: Map<JobId, TerminalView>,
    recorded: Option<RecordView>,
    job_id: JobId,
    session_id: Seq<char>,
) -> Result<JobStepView, Seq<char>> {
    match remembered_answer(remembered, recorded, job_id, session_id) {
        Ok(answer) => Ok(JobStepView::Answer(answer)),
        Err(message) => Err(message),
    }
}

/// What is to be done where a session asks how a job stands.
pub open spec fn polled(
    running: Option<RunningView>,
    remembered: Map<JobId, TerminalView>,
    recorded: Option<RecordView>,
    job_id: JobId,
    session_id: Seq<char>,
) -> Result<JobStepView, Seq<char>> {
    match running {
        Some((owner, finished)) => if owner != session_id {
            Err("job does not belong to this session"@)
        } else if finished {
            Ok(JobStepView::Await)
        } else {
            Ok(JobStepView::Answer(running_answer(job_id)))
        },
        None => recalled(remembered, recorded, job_id, session_id),
    }
}

/// What is to be done where a session asks to stop a job.
pub open spec fn stopped_by(
    running: Option<RunningView>,
    remembered: Map<JobId, TerminalView>,
    recorded: Option<RecordView>,
    job_id: JobId,
    session_id: Seq<char>,
) -> Result<JobStepView, Seq<char>> {
    match running {
        Some((owner, _)) => if owner != session_id {
            Err("job does not belong to this session"@)
        } else {
            Ok(JobStepView::Await)
        },
        None => recalled(remembered, recorded, job_id, session_id),
    }
}

/// What is to be done where a session asks how a job stands. `running` is the job where the server
/// runs it, and `recorded` is its record in the journal of the session.
pub fn poll_job(
    running: &Option<RunningJob>,
    remembered: &TerminalJobs,
    recorded: &Option<JobRecord>,
    job_id: JobId,
    session_id: &str,
) -> (step: Result<JobStep, String>)
    requires
        remembered.well_formed(),
    ensures
        step_view(step) == polled(
            running_view(*running),
            remembered@,
            optional_record(*recorded),
            job_id,
            session_id@,
        ),
        step matches Ok(JobStep::Answer(json)) ==> ordered(json@),
{
    match running {
        Some(job) => {
            if !same_text(job.session_id.as_str(), session_id) {
                Err("job does not belong to this session".to_owned())
            } else if job.finished {
                Ok(JobStep::Await)
            } else {
                Ok(JobStep::Answer(running_result(job_id)))
            }
        },
        None => match recall(remembered, recorded, job_id, session_id) {
            Ok(json) => Ok(JobStep::Answer(json)),
            Err(message) => Err(message),
        },
    }
}

/// What is to be done where a session asks to stop a job; to wait for the end of one that runs, its
/// command is first asked to stop.
pub fn stop_job(
    running: &Option<RunningJob>,
    remembered: &TerminalJobs,
    recorded: &Option<JobRecord>,
    job_id: JobId,
    session_id: &str,
) -> (step: Result<JobStep, String>)
    requires
        remembered.well_formed(),
    ensures
        step_view(step) == stopped_by(
            running_view(*running),
            remembered@,
            optional_record(*recorded),
            job_id,
            session_id@,
        ),
        step matches Ok(JobStep::Answer(json)) ==> ordered(json@),
{
    match running {
        Some(job) => {
            if !same_text(job.session_id.as_str(), session_id) {
                Err("job does not belong to this session".to_owned())
            } else {
                Ok(JobStep::Await)
            }
        },
        None => match recall(remembered, recorded, job_id, session_id) {
            Ok(json) => Ok(JobStep::Answer(json)),
            Err(message) => Err(message),
        },
    }
}

/// The word for how a stopped job ended: what its result says, or that it failed.
pub open spec fn stop_word(outcome: Result<Seq<char>, Seq<char>>) -> Seq<char> {
    match outcome {
        Ok(text) => match parsed(text) {
            Ok(value) => match text_member(value, "termination"@) {
                Some(word) => word,
                None => "failed"@,
            },
            Err(_) => "failed"@,
        },
        Err(_) => "failed"@,
    }
}

/// The word that a result has for how its job ended.
pub fn termination_of(value: &Json) -> (word: String)
    ensures
        word@ == match text_member(value@, "termination"@) {
            Some(word) => word,
            None => "failed"@,
        },
{
    match value.get_text("termination") {
        Some(word) => word.to_owned(),
        None => "failed".to_owned(),
    }
}

/// The word for how a stopped job ended: what its result says, or that it failed.
pub fn stopped_termination(outcome: &Result<String, String>) -> (word: String)
    ensures
        word@ == stop_word(given(*outcome)),
{
    match outcome {
        Ok(text) => match parse(text.as_str()) {
            Ok(value) => termination_of(&value),
            Err(_) => "failed".to_owned(),
        },
        Err(_) => "failed".to_owned(),
    }
}

/// Once what a job gave is remembered, it is the answer to its session, each time; and other
/// sessions are refused it.
pub proof fn law_remembered_results_are_answered(
    before: Map<JobId, TerminalView>,
    count: int,
    job_id: JobId,
    session_id: Seq<char>,
    outcome: Result<Seq<char>, Seq<char>>,
    after: Map<JobId, TerminalView>,
    recorded: Option<RecordView>,
    other: Seq<char>,
)
    requires
        may_become(before, count, job_id, (session_id, outcome), after),
        other != session_id,
    ensures
        remembered_answer(after, recorded, job_id, session_id) == told(outcome),
        remembered_answer(after, recorded, job_id, other) == Err::<JsonView, Seq<char>>(
            "job does not belong to this session"@,
        ),
{
}

/// What a job gave is answered also by a server that has been started anew and remembers nothing,
/// as the journal keeps it, and as it is where that is short enough; and a job that the former server
/// left running is answered as lost.
pub proof fn law_results_survive_a_restart(
    record: RecordView,
    job_id: JobId,
    session_id: Seq<char>,
    result: Result<Seq<char>, Seq<char>>,
    now: u64,
    later: u64,
)
    requires
        record.state == JobState::Running,
        record.result is None,
    ensures
        ({
            let nothing = Map::<JobId, TerminalView>::empty();
            let ended = settled(finished(record, now, result), false, later);
            let lost = settled(record, false, later);
            let text = match result {
                Ok(text) => text,
                Err(text) => text,
            };
            &&& byte_len(quoted(text)) <= MAX_PERSISTED_FIELD_SERIALIZED_BYTES
                ==> remembered_answer(nothing, Some(ended), job_id, session_id) == told(result)
            &&& remembered_answer(nothing, Some(ended), job_id, session_id) == told(
                match result {
                    Ok(text) => Ok(kept_payload(text, ended.exit_code, "result"@)),
                    Err(text) => Err(kept_payload(text, ended.exit_code, "error"@)),
                },
            )
            &&& lost.state == JobState::Orphaned
            &&& remembered_answer(nothing, Some(lost), job_id, session_id) == Ok::<
                JsonView,
                Seq<char>,
            >(
                OutcomeView::ended(
                    Some(uuid_text(job_id.bits)),
                    false,
                    lost.error->0,
                    "orphaned"@,
                ).brief().answer(),
            )
        }),
{
}

/// A session is told nothing of the jobs of another, and cannot stop them: whether they run or have ended and
/// are remembered, it is refused.
pub proof fn law_jobs_answer_to_their_session(
    running: Option<RunningView>,
    remembered: Map<JobId, TerminalView>,
    recorded: Option<RecordView>,
    job_id: JobId,
    session_id: Seq<char>,
)
    requires
        match running {
            Some((owner, _)) => owner != session_id,
            None => remembered.dom().contains(job_id) && remembered[job_id].0 != session_id,
        },
    ensures
        polled(running, remembered, recorded, job_id, session_id) == Err::<JobStepView, Seq<char>>(
            "job does not belong to this session"@,
        ),
        stopped_by(running, remembered, recorded, job_id, session_id) == Err::<JobStepView, Seq<char>>(
            "job does not belong to this session"@,
        ),
{
}

/// The session of a job that runs is told that it runs, under its identifier, until its command has ended;
/// then, and where it asks for the stop, it is given the end of the command.
pub proof fn law_running_jobs_are_told_to_run(
    finished: bool,
    remembered: Map<JobId, TerminalView>,
    recorded: Option<RecordView>,
    job_id: JobId,
    session_id: Seq<char>,
)
    ensures
        ({
            let running = Some((session_id, finished));
            let step = polled(running, remembered, recorded, job_id, session_id);
            &&& finished ==> step == Ok::<JobStepView, Seq<char>>(JobStepView::Await)
            &&& !finished ==> (step matches Ok(JobStepView::Answer(answer)) && exists|
                outcome: OutcomeView,
            |
                {
                    &&& answer == #[trigger] outcome.answer()
                    &&& outcome.ok && outcome.status == CommandStatus::Running
                    &&& outcome.job_id == Some(uuid_text(job_id.bits))
                    &&& outcome.exit_code is None && outcome.error_kind is None
                })
            &&& stopped_by(running, remembered, recorded, job_id, session_id) == Ok::<
                JobStepView,
                Seq<char>,
            >(JobStepView::Await)
        }),
{
    assert(running_answer(job_id) == running_outcome(job_id).answer());
}

/// A job that does not run is answered with what is remembered of it; where nothing is, with what its record
/// says; and where there is none, the session is told that it is unknown. To ask how it stands and to
/// ask for its stop then give the same.
pub proof fn law_ended_jobs_are_recalled(
    remembered: Map<JobId, TerminalView>,
    recorded: Option<RecordView>,
    job_id: JobId,
    session_id: Seq<char>,
)
    ensures
        ({
            let step = polled(None, remembered, recorded, job_id, session_id);
            &&& stopped_by(None, remembered, recorded, job_id, session_id) == step
            &&& remembered.dom().contains(job_id) && remembered[job_id].0 == session_id
                ==> match told(remembered[job_id].1) {
                Ok(answer) => step == Ok::<JobStepView, Seq<char>>(JobStepView::Answer(answer)),
                Err(message) => step == Err::<JobStepView, Seq<char>>(message),
            }
            &&& !remembered.dom().contains(job_id) && recorded is None ==> step == Err::<
                JobStepView,
                Seq<char>,
            >("unknown job_id: "@ + uuid_text(job_id.bits))
            &&& !remembered.dom().contains(job_id) && recorded is Some ==> {
                let record = recorded->0;
                &&& record.result matches Some(text) ==> match told(Ok(text)) {
                    Ok(answer) => step == Ok::<JobStepView, Seq<char>>(JobStepView::Answer(answer)),
                    Err(message) => step == Err::<JobStepView, Seq<char>>(message),
                }
                &&& record.result is None && record.error is Some && (record.state
                    == JobState::Orphaned || record.state == JobState::Stopped) ==> (step matches Ok(
                    JobStepView::Answer(answer),
                ) && exists|outcome: OutcomeView|
                    {
                        &&& answer == #[trigger] outcome.answer()
                        &&& !outcome.ok && outcome.status == CommandStatus::Stopped
                        &&& outcome.job_id == Some(uuid_text(job_id.bits))
                        &&& outcome.termination == Some(
                            if record.state == JobState::Orphaned {
                                "orphaned"@
                            } else {
                                "cancelled"@
                            },
                        )
                        &&& outcome.retryable <==> record.state == JobState::Stopped
                        &&& escaped_bytes(record.error->0) <= 512 ==> outcome.message
                            == record.error->0
                    })
                &&& record.result is None && record.error is Some && record.state != JobState::Orphaned
                    && record.state != JobState::Stopped ==> match told(Err(record.error->0)) {
                    Ok(answer) => step == Ok::<JobStepView, Seq<char>>(JobStepView::Answer(answer)),
                    Err(message) => step == Err::<JobStepView, Seq<char>>(message),
                }
            }
        }),
{
    if let Some(record) = recorded {
        if let Some(message) = record.error {
            let job = Some(uuid_text(job_id.bits));
            let lost = OutcomeView::ended(job, false, message, "orphaned"@).brief();
            let stopped = OutcomeView::ended(job, true, message, "cancelled"@).brief();
            if record.result is None && !remembered.dom().contains(job_id) {
                if record.state == JobState::Orphaned {
                    assert(recorded_answer(record, job_id) == Ok::<JsonView, Seq<char>>(lost.answer()));
                } else if record.state == JobState::Stopped {
                    assert(recorded_answer(record, job_id) == Ok::<JsonView, Seq<char>>(
                        stopped.answer(),
                    ));
                }
            }
        }
    }
}

/// The word for how a stopped job ended is the one that its result has; it failed where the result has none,
/// or where there is only an error.
pub proof fn law_stopped_jobs_tell_how_they_ended(text: Seq<char>, word: Seq<char>)
    ensures
        parsed(text) matches Ok(value) ==> (member(value, "termination"@) == Some(JsonView::Text(word))
            ==> stop_word(Ok(text)) == word),
        parsed(text) is Err ==> stop_word(Ok(text)) == "failed"@,
        parsed(text) matches Ok(value) ==> (member(value, "termination"@) is None ==> stop_word(Ok(text))
            == "failed"@),
        stop_word(Err(text)) == "failed"@,
{
}

/// Remembering a job forgets no other as long as fewer than 256 are remembered or the job is one of them, and
/// one other at most where they are more; what is remembered of the rest stays as it is.
pub proof fn law_remembering_forgets_one_at_most(
    before: Map<JobId, TerminalView>,
    count: int,
    job: JobId,
    view: TerminalView,
    after: Map<JobId, TerminalView>,
    one: JobId,
    two: JobId,
)
    requires
        may_become(before, count, job, view, after),
        before.dom().contains(one) && before.dom().contains(two),
        one != two && one != job && two != job,
    ensures
        after.dom().contains(job) && after[job] == view,
        after.dom().contains(one) || after.dom().contains(two),
        count < 256 || before.dom().contains(job) ==> after.dom().contains(one) && after.dom().contains(
            two,
        ),
        after.dom().contains(one) ==> after[one] == before[one],
{
}

} // verus!
