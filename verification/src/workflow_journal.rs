//! The journal of the workflow steps of one session: which step may run, and how it ends.
use vstd::prelude::*;

use crate::text::{
    copy_optional, copy_texts, debug_string, debug_form, decimal, optional_view, same_text,
    signed_decimal_text, texts_view,
};
use crate::workflow::{
    block_reason, conflict_answer, dependency_satisfied, history_view, same_invocation, says,
    validate_args, StepRecord, StepResultView, StepStatus, StepTransition, StepView, TransitionView,
    WorkflowStepArgs, WorkflowStepResult, WORKFLOW_SCHEMA_VERSION,
};

verus! {

/// A step of a session, by the name of its directory: its record, or why it cannot be read.
#[derive(Debug)]
pub struct StepEntry {
    pub name: String,
    pub record: Result<StepRecord, String>,
}

pub type StepEntryView = (Seq<char>, Result<StepView, Seq<char>>);

/// What an operation on a step says.
pub open spec fn step_result_view(result: Result<StepRecord, String>) -> Result<StepView, Seq<char>> {
    match result {
        Ok(record) => Ok(record@),
        Err(message) => Err(message@),
    }
}

/// What a journal of steps says.
pub open spec fn steps_view(entries: Seq<StepEntry>) -> Seq<StepEntryView> {
    Seq::new(entries.len(), |i: int| (entries[i].name@, step_result_view(entries[i].record)))
}

/// The error of a step whose runner is gone.
pub open spec fn runner_lost() -> Seq<char> {
    "workflow runner restarted before this step reached a terminal state; the command is not assumed to be running"@
}

/// A step as a runner finds it: one that another runner left unfinished has failed.
pub open spec fn recovered(step: StepView, runner: Seq<char>, now: u64) -> StepView {
    if (step.status == StepStatus::Pending || step.status == StepStatus::Running)
        && step.runner_instance_id != runner {
        StepView {
            status: StepStatus::Failed,
            updated_at_ms: now,
            finished_at_ms: Some(now),
            error: Some(runner_lost()),
            history: step.history.push(
                TransitionView {
                    status: StepStatus::Failed,
                    at_ms: now,
                    detail: Some(runner_lost()),
                },
            ),
            ..step
        }
    } else {
        step
    }
}

/// A step of the journal as a runner finds it.
pub open spec fn recovered_entry(entry: StepEntryView, runner: Seq<char>, now: u64) -> StepEntryView {
    match entry.1 {
        Ok(step) => (entry.0, Ok(recovered(step, runner, now))),
        Err(_) => entry,
    }
}

/// The journal once a runner has looked at its first `count` steps.
pub open spec fn looked_at(
    steps: Seq<StepEntryView>,
    count: int,
    runner: Seq<char>,
    now: u64,
) -> Seq<StepEntryView> {
    Seq::new(
        steps.len(),
        |i: int|
            if i < count {
                recovered_entry(steps[i], runner, now)
            } else {
                steps[i]
            },
    )
}

/// Whether the search for a key ends at this step.
pub open spec fn ends_search(entry: StepEntryView, key: Seq<char>) -> bool {
    match entry.1 {
        Ok(step) => step.idempotency_key == key,
        Err(_) => true,
    }
}

/// The place at which the search for a key ends: that of the first step that has it or cannot be
/// read; the length where there is none.
pub open spec fn search_end(steps: Seq<StepEntryView>, key: Seq<char>) -> int
    decreases steps.len(),
{
    if steps.len() == 0 || ends_search(steps[0], key) {
        0
    } else {
        1 + search_end(steps.drop_first(), key)
    }
}

/// The place of the first step with a name; the length where there is none.
pub open spec fn step_place(steps: Seq<StepEntryView>, name: Seq<char>) -> int
    decreases steps.len(),
{
    if steps.len() == 0 || steps[0].0 == name {
        0
    } else {
        1 + step_place(steps.drop_first(), name)
    }
}

/// What keeps a step from running that depends on the step of this name.
pub open spec fn obstacle(steps: Seq<StepEntryView>, name: Seq<char>) -> Option<Seq<char>> {
    let place = step_place(steps, name);
    if place >= steps.len() {
        Some(name + ": missing"@)
    } else {
        match steps[place].1 {
            Ok(step) => if step.satisfied() {
                None
            } else {
                Some(name + ": "@ + step.status.word())
            },
            Err(_) => Some(name + ": missing"@),
        }
    }
}

/// What keeps a step from running that depends on steps of these names.
pub open spec fn obstacles(steps: Seq<StepEntryView>, names: Seq<Seq<char>>) -> Seq<Seq<char>>
    decreases names.len(),
{
    if names.len() == 0 {
        Seq::empty()
    } else {
        let before = obstacles(steps, names.drop_last());
        match obstacle(steps, names.last()) {
            Some(text) => before.push(text),
            None => before,
        }
    }
}

/// The record of a step that has just been asked for.
pub open spec fn pending_step(
    args: WorkflowStepArgs,
    session_id: Seq<char>,
    runner: Seq<char>,
    blocked_by: Seq<Seq<char>>,
    missing: Seq<Seq<char>>,
    now: u64,
) -> StepView {
    StepView {
        version: WORKFLOW_SCHEMA_VERSION,
        session_id,
        step_id: args.step_id@,
        idempotency_key: args.idempotency_key@,
        invocation: args.run(),
        runner_instance_id: runner,
        status: StepStatus::Pending,
        continue_on_error: args.continue_on_error,
        created_at_ms: now,
        updated_at_ms: now,
        finished_at_ms: None,
        exit_code: None,
        stdout: Seq::empty(),
        stderr: Seq::empty(),
        error: None,
        blocked_by,
        missing_required_files: missing,
        missing_expected_outputs: Seq::empty(),
        history: seq![TransitionView { status: StepStatus::Pending, at_ms: now, detail: None }],
    }
}

/// A step that has just been asked for and may not run.
pub open spec fn blocked_step(step: StepView, now: u64) -> StepView {
    StepView {
        status: StepStatus::Blocked,
        finished_at_ms: Some(now),
        error: Some(step.obstacles()),
        history: step.history.push(
            TransitionView {
                status: StepStatus::Blocked,
                at_ms: now,
                detail: Some(step.obstacles()),
            },
        ),
        ..step
    }
}

/// A step that has just been asked for and is about to run.
pub open spec fn running_step(step: StepView, now: u64) -> StepView {
    StepView {
        status: StepStatus::Running,
        updated_at_ms: now,
        history: step.history.push(
            TransitionView { status: StepStatus::Running, at_ms: now, detail: None },
        ),
        ..step
    }
}

/// What is to be done about a step that is asked for.
#[derive(Debug)]
pub enum Reservation {
    /// The step was run before: its record is the answer.
    Reused(StepRecord),
    /// The step may not run: this record is to be kept.
    Blocked(StepRecord),
    /// The step is to run: the first record is to be kept, then the second, then the command is
    /// run.
    Launch(StepRecord, StepRecord),
    /// The step cannot be told from another: this is the answer.
    Conflict(WorkflowStepResult),
}

#[verifier::ext_equal]
pub enum ReservationView {
    Reused(StepView),
    Blocked(StepView),
    Launch(StepView, StepView),
    Conflict(StepResultView),
}

impl View for Reservation {
    type V = ReservationView;

    open spec fn view(&self) -> ReservationView {
        match self {
            Reservation::Reused(step) => ReservationView::Reused(step@),
            Reservation::Blocked(step) => ReservationView::Blocked(step@),
            Reservation::Launch(pending, running) => ReservationView::Launch(
                pending@,
                running@,
            ),
            Reservation::Conflict(result) => ReservationView::Conflict(result@),
        }
    }
}

/// What a reservation says.
pub open spec fn reservation_view(result: Result<Reservation, String>) -> Result<
    ReservationView,
    Seq<char>,
> {
    match result {
        Ok(reservation) => Ok(reservation@),
        Err(message) => Err(message@),
    }
}

/// The answer where a key belongs to another run.
pub open spec fn key_conflict(args: WorkflowStepArgs, owner: Seq<char>) -> StepResultView {
    conflict_answer(
        args.step_id@,
        args.idempotency_key@,
        args.continue_on_error,
        "idempotency key "@ + debug_form(args.idempotency_key@) + " already belongs to step "@
            + debug_form(owner) + " with a different invocation"@,
    )
}

/// The answer where a step exists under another key.
pub open spec fn step_conflict(args: WorkflowStepArgs, key: Seq<char>) -> StepResultView {
    conflict_answer(
        args.step_id@,
        args.idempotency_key@,
        args.continue_on_error,
        "step_id "@ + debug_form(args.step_id@) + " already exists with idempotency key "@
            + debug_form(key),
    )
}

/// What is to be done about a step that is asked for, and the journal after that.
pub open spec fn reserved(
    steps: Seq<StepEntryView>,
    args: WorkflowStepArgs,
    session_id: Seq<char>,
    runner: Seq<char>,
    missing: Seq<Seq<char>>,
    now: u64,
    launch_at: u64,
) -> (Result<ReservationView, Seq<char>>, Seq<StepEntryView>) {
    let end = search_end(steps, args.idempotency_key@);
    if end < steps.len() {
        match steps[end].1 {
            Err(message) => (Err(message), looked_at(steps, end, runner, now)),
            Ok(step) => {
                let found = recovered(step, runner, now);
                let reservation = if found.invocation == args.run() {
                    ReservationView::Reused(found)
                } else {
                    ReservationView::Conflict(key_conflict(args, found.step_id))
                };
                (Ok(reservation), looked_at(steps, end + 1, runner, now))
            },
        }
    } else {
        let all = looked_at(steps, steps.len() as int, runner, now);
        let place = step_place(all, args.step_id@);
        if place < all.len() {
            (
                Ok(
                    ReservationView::Conflict(
                        step_conflict(args, all[place].1->Ok_0.idempotency_key),
                    ),
                ),
                all,
            )
        } else {
            let pending = pending_step(
                args,
                session_id,
                runner,
                obstacles(all, texts_view(args.depends_on@)),
                missing,
                now,
            );
            if pending.blocked_by.len() > 0 || missing.len() > 0 {
                let blocked = blocked_step(pending, now);
                (Ok(ReservationView::Blocked(blocked)), all.push((args.step_id@, Ok(blocked))))
            } else {
                let running = running_step(pending, launch_at);
                (
                    Ok(ReservationView::Launch(pending, running)),
                    all.push((args.step_id@, Ok(running))),
                )
            }
        }
    }
}

/// A step as a runner finds it.
pub fn recover_step(record: &StepRecord, runner: &str, now: u64) -> (found: StepRecord)
    ensures
        found@ == recovered(record@, runner@, now),
{
    let mut found: StepRecord = record.clone();
    if (found.status == StepStatus::Pending || found.status == StepStatus::Running) && !same_text(
        found.runner_instance_id.as_str(),
        runner,
    ) {
        let ghost before = found.history@;
        found.status = StepStatus::Failed;
        found.updated_at_ms = now;
        found.finished_at_ms = Some(now);
        let message: String = "workflow runner restarted before this step reached a terminal state; the command is not assumed to be running".to_owned();
        found.error = Some(message.clone());
        found.history.push(
            StepTransition { status: StepStatus::Failed, at_ms: now, detail: Some(message) },
        );
        proof {
            assert(history_view(found.history@) =~= history_view(before).push(
                TransitionView {
                    status: StepStatus::Failed,
                    at_ms: now,
                    detail: Some(runner_lost()),
                },
            ));
            assert(found@ =~= recovered(record@, runner@, now));
        }
    }
    found
}

/// The place of the first step with a name; the length where there is none.
pub fn find_step(entries: &Vec<StepEntry>, name: &str) -> (place: usize)
    ensures
        place == step_place(steps_view(entries@), name@),
        place <= entries@.len(),
{
    let ghost steps = steps_view(entries@);
    let mut place: usize = 0;
    proof {
        assert(steps.skip(0) =~= steps);
    }
    while place < entries.len()
        invariant
            steps == steps_view(entries@),
            place <= entries@.len(),
            step_place(steps, name@) == place + step_place(steps.skip(place as int), name@),
        decreases entries@.len() - place,
    {
        proof {
            let rest = steps.skip(place as int);
            assert(rest[0] == steps[place as int]);
            assert(rest.drop_first() =~= steps.skip(place + 1));
        }
        if same_text(entries[place].name.as_str(), name) {
            return place;
        }
        place = place + 1;
    }
    place
}

/// What keeps a step from running that depends on steps of these names.
fn find_obstacles(entries: &Vec<StepEntry>, names: &Vec<String>) -> (found: Vec<String>)
    ensures
        texts_view(found@) == obstacles(steps_view(entries@), texts_view(names@)),
{
    let ghost steps = steps_view(entries@);
    let ghost views = texts_view(names@);
    let mut found: Vec<String> = Vec::new();
    let mut index: usize = 0;
    proof {
        assert(views.take(0) =~= Seq::<Seq<char>>::empty());
        assert(texts_view(found@) =~= Seq::<Seq<char>>::empty());
    }
    while index < names.len()
        invariant
            steps == steps_view(entries@),
            views == texts_view(names@),
            index <= names@.len(),
            texts_view(found@) == obstacles(steps, views.take(index as int)),
        decreases names@.len() - index,
    {
        let ghost before = found@;
        let name: &str = names[index].as_str();
        let place: usize = find_step(entries, name);
        let text: Option<String> = if place >= entries.len() {
            let mut text: String = name.to_owned();
            text.append(": missing");
            Some(text)
        } else {
            match &entries[place].record {
                Ok(record) => {
                    if dependency_satisfied(record) {
                        None
                    } else {
                        let mut text: String = name.to_owned();
                        text.append(": ");
                        text.append(record.status.as_str());
                        Some(text)
                    }
                },
                Err(_) => {
                    let mut text: String = name.to_owned();
                    text.append(": missing");
                    Some(text)
                },
            }
        };
        assert(optional_view(text) == obstacle(steps, name@));
        if let Some(text) = text {
            let ghost added = text@;
            found.push(text);
            proof {
                assert(texts_view(found@) =~= texts_view(before).push(added));
            }
        }
        proof {
            assert(views.take(index + 1).drop_last() =~= views.take(index as int));
            assert(views.take(index + 1).last() == name@);
        }
        index = index + 1;
    }
    proof {
        assert(views.take(index as int) =~= views);
    }
    found
}

fn conflicting_key(args: &WorkflowStepArgs, owner: &str) -> (result: WorkflowStepResult)
    ensures
        result@ == key_conflict(*args, owner@),
{
    let mut message: String = "idempotency key ".to_owned();
    message.append(debug_string(args.idempotency_key.as_str()).as_str());
    message.append(" already belongs to step ");
    message.append(debug_string(owner).as_str());
    message.append(" with a different invocation");
    WorkflowStepResult::conflict(args, message)
}

fn conflicting_step(args: &WorkflowStepArgs, key: &str) -> (result: WorkflowStepResult)
    ensures
        result@ == step_conflict(*args, key@),
{
    let mut message: String = "step_id ".to_owned();
    message.append(debug_string(args.step_id.as_str()).as_str());
    message.append(" already exists with idempotency key ");
    message.append(debug_string(key).as_str());
    WorkflowStepResult::conflict(args, message)
}

fn new_step(
    args: &WorkflowStepArgs,
    session_id: &str,
    runner: &str,
    blocked_by: Vec<String>,
    missing_required_files: Vec<String>,
    now: u64,
) -> (record: StepRecord)
    ensures
        record@ == pending_step(
            *args,
            session_id@,
            runner@,
            texts_view(blocked_by@),
            texts_view(missing_required_files@),
            now,
        ),
{
    let mut history: Vec<StepTransition> = Vec::new();
    history.push(StepTransition { status: StepStatus::Pending, at_ms: now, detail: None });
    let record: StepRecord = StepRecord {
        version: WORKFLOW_SCHEMA_VERSION,
        session_id: session_id.to_owned(),
        step_id: args.step_id.clone(),
        idempotency_key: args.idempotency_key.clone(),
        invocation: args.invocation(),
        runner_instance_id: runner.to_owned(),
        status: StepStatus::Pending,
        continue_on_error: args.continue_on_error,
        created_at_ms: now,
        updated_at_ms: now,
        finished_at_ms: None,
        exit_code: None,
        stdout: String::new(),
        stderr: String::new(),
        error: None,
        blocked_by,
        missing_required_files,
        missing_expected_outputs: Vec::new(),
        history,
    };
    proof {
        assert(record@.missing_expected_outputs =~= Seq::<Seq<char>>::empty());
        assert(record@.history =~= seq![
            TransitionView { status: StepStatus::Pending, at_ms: now, detail: None },
        ]);
    }
    record
}

fn block_step(record: &StepRecord, now: u64) -> (blocked: StepRecord)
    ensures
        blocked@ == blocked_step(record@, now),
{
    let reason: String = block_reason(record);
    let mut blocked: StepRecord = record.clone();
    let ghost before = blocked.history@;
    blocked.status = StepStatus::Blocked;
    blocked.finished_at_ms = Some(now);
    blocked.error = Some(reason.clone());
    blocked.history.push(
        StepTransition { status: StepStatus::Blocked, at_ms: now, detail: Some(reason) },
    );
    proof {
        assert(history_view(blocked.history@) =~= history_view(before).push(
            TransitionView {
                status: StepStatus::Blocked,
                at_ms: now,
                detail: Some(record@.obstacles()),
            },
        ));
        assert(blocked@ =~= blocked_step(record@, now));
    }
    blocked
}

fn launch_step(record: &StepRecord, now: u64) -> (running: StepRecord)
    ensures
        running@ == running_step(record@, now),
{
    let mut running: StepRecord = record.clone();
    let ghost before = running.history@;
    running.status = StepStatus::Running;
    running.updated_at_ms = now;
    running.history.push(
        StepTransition { status: StepStatus::Running, at_ms: now, detail: None },
    );
    proof {
        assert(history_view(running.history@) =~= history_view(before).push(
            TransitionView { status: StepStatus::Running, at_ms: now, detail: None },
        ));
        assert(running@ =~= running_step(record@, now));
    }
    running
}

/// Looks at the steps of the journal, one after the other, until one has the key or cannot be
/// read; a step that another runner left unfinished has failed.
fn search_key(entries: &mut Vec<StepEntry>, key: &str, runner: &str, now: u64) -> (end: usize)
    ensures
        end == search_end(steps_view(old(entries)@), key@),
        end <= old(entries)@.len(),
        steps_view(final(entries)@) == looked_at(
            steps_view(old(entries)@),
            if end < old(entries)@.len() && steps_view(old(entries)@)[end as int].1 is Ok {
                end + 1
            } else {
                end as int
            },
            runner@,
            now,
        ),
{
    let ghost steps = steps_view(entries@);
    let mut end: usize = 0;
    proof {
        assert(steps.skip(0) =~= steps);
        assert(looked_at(steps, 0, runner@, now) =~= steps);
    }
    while end < entries.len()
        invariant
            steps == steps_view(old(entries)@),
            end <= entries@.len(),
            entries@.len() == steps.len(),
            steps_view(entries@) == looked_at(steps, end as int, runner@, now),
            search_end(steps, key@) == end + search_end(steps.skip(end as int), key@),
        decreases entries@.len() - end,
    {
        proof {
            let rest = steps.skip(end as int);
            assert(rest[0] == steps[end as int]);
            assert(rest.drop_first() =~= steps.skip(end + 1));
            assert(steps_view(entries@)[end as int] == steps[end as int]);
        }
        let found: StepRecord = match &entries[end].record {
            Ok(record) => recover_step(record, runner, now),
            Err(_) => {
                return end;
            },
        };
        let matches_key: bool = same_text(found.idempotency_key.as_str(), key);
        let name: String = entries[end].name.clone();
        let ghost before = entries@;
        let ghost seen = found@;
        entries[end] = StepEntry { name, record: Ok(found) };
        proof {
            let after = looked_at(steps, end + 1, runner@, now);
            assert forall|i: int| 0 <= i < steps.len() implies #[trigger] steps_view(entries@)[i]
                == after[i] by {
                if i == end {
                    assert(steps_view(before)[i] == steps[i]);
                    assert(steps_view(entries@)[i] == (steps[i].0, Ok::<StepView, Seq<char>>(seen)));
                } else {
                    assert(entries@[i] == before[i]);
                    assert(steps_view(before)[i] == looked_at(steps, end as int, runner@, now)[i]);
                }
            }
            assert(steps_view(entries@) =~= after);
        }
        if matches_key {
            return end;
        }
        end = end + 1;
    }
    end
}

proof fn lemma_search_end(steps: Seq<StepEntryView>, key: Seq<char>)
    ensures
        0 <= search_end(steps, key) <= steps.len(),
        search_end(steps, key) < steps.len() ==> ends_search(steps[search_end(steps, key)], key),
        forall|i: int| 0 <= i < search_end(steps, key) ==> !ends_search(#[trigger] steps[i], key),
    decreases steps.len(),
{
    if steps.len() > 0 && !ends_search(steps[0], key) {
        let rest = steps.drop_first();
        lemma_search_end(rest, key);
        assert forall|i: int| 0 <= i < search_end(steps, key) implies !ends_search(
            #[trigger] steps[i],
            key,
        ) by {
            if i > 0 {
                assert(steps[i] == rest[i - 1]);
            }
        }
    }
}

/// Decides what is to be done about a step that is asked for, `missing_required_files` being the
/// files that it needs and that are not there.
pub fn reserve(
    entries: &mut Vec<StepEntry>,
    args: &WorkflowStepArgs,
    session_id: &str,
    runner: &str,
    missing_required_files: Vec<String>,
    now: u64,
    launch_at: u64,
) -> (result: Result<Reservation, String>)
    ensures
        (reservation_view(result), steps_view(final(entries)@)) == reserved(
            steps_view(old(entries)@),
            *args,
            session_id@,
            runner@,
            texts_view(missing_required_files@),
            now,
            launch_at,
        ),
{
    let ghost steps = steps_view(entries@);
    let end: usize = search_key(entries, args.idempotency_key.as_str(), runner, now);
    proof {
        lemma_search_end(steps, args.idempotency_key@);
    }
    if end < entries.len() {
        proof {
            assert(steps_view(entries@)[end as int] == recovered_entry(
                steps[end as int],
                runner@,
                now,
            ));
        }
        let found: StepRecord = match &entries[end].record {
            Ok(record) => record.clone(),
            Err(message) => {
                return Err(message.clone());
            },
        };
        if same_invocation(&found.invocation, &args.invocation()) {
            return Ok(Reservation::Reused(found));
        }
        return Ok(Reservation::Conflict(conflicting_key(args, found.step_id.as_str())));
    }
    let ghost all = steps_view(entries@);
    let place: usize = find_step(entries, args.step_id.as_str());
    if place < entries.len() {
        proof {
            assert(!ends_search(steps[place as int], args.idempotency_key@));
            assert(all[place as int] == recovered_entry(steps[place as int], runner@, now));
        }
        match &entries[place].record {
            Ok(record) => {
                return Ok(
                    Reservation::Conflict(conflicting_step(args, record.idempotency_key.as_str())),
                );
            },
            Err(message) => {
                return Err(message.clone());
            },
        }
    }
    let blocked_by: Vec<String> = find_obstacles(entries, &args.depends_on);
    let pending: StepRecord = new_step(
        args,
        session_id,
        runner,
        blocked_by,
        missing_required_files,
        now,
    );
    let ghost before = entries@;
    if pending.blocked_by.len() > 0 || pending.missing_required_files.len() > 0 {
        let blocked: StepRecord = block_step(&pending, now);
        entries.push(StepEntry { name: args.step_id.clone(), record: Ok(blocked.clone()) });
        proof {
            assert(steps_view(entries@) =~= all.push((args.step_id@, Ok(blocked@))));
        }
        return Ok(Reservation::Blocked(blocked));
    }
    let running: StepRecord = launch_step(&pending, launch_at);
    entries.push(StepEntry { name: args.step_id.clone(), record: Ok(running.clone()) });
    proof {
        assert(steps_view(entries@) =~= all.push((args.step_id@, Ok(running@))));
    }
    Ok(Reservation::Launch(pending, running))
}

/// Checks that the platform has a sandbox, in which steps run.
pub fn check_platform(windows: bool) -> (result: Result<(), String>)
    ensures
        says(
            result,
            if windows {
                Some(
                    "run_workflow_step is unsupported on Windows because this release cannot provide a filesystem/network sandbox there"@,
                )
            } else {
                None
            },
        ),
{
    if windows {
        return Err(
            "run_workflow_step is unsupported on Windows because this release cannot provide a filesystem/network sandbox there".to_owned(),
        );
    }
    Ok(())
}

/// Checks that a step is asked for in its session, with arguments that are in order.
pub fn check_step(args: &WorkflowStepArgs, session_id: &str) -> (result: Result<(), String>)
    ensures
        says(
            result,
            if args.session_id@ != session_id@ {
                Some("session_id does not match the loaded session"@)
            } else {
                args.mistake()
            },
        ),
{
    if !same_text(args.session_id.as_str(), session_id) {
        return Err("session_id does not match the loaded session".to_owned());
    }
    validate_args(args)
}

/// The files among `paths` that are not there, `present` saying of each whether it is.
pub open spec fn absent(paths: Seq<Seq<char>>, present: Seq<bool>) -> Seq<Seq<char>>
    decreases paths.len(),
{
    if paths.len() == 0 {
        Seq::empty()
    } else {
        let before = absent(paths.drop_last(), present);
        if present[paths.len() - 1] {
            before
        } else {
            before.push(paths.last())
        }
    }
}

/// The files among `paths` that are not there, `present` saying of each whether it is.
pub fn missing_files(paths: &Vec<String>, present: &Vec<bool>) -> (missing: Vec<String>)
    requires
        paths@.len() == present@.len(),
    ensures
        texts_view(missing@) == absent(texts_view(paths@), present@),
{
    let ghost views = texts_view(paths@);
    let mut missing: Vec<String> = Vec::new();
    let mut index: usize = 0;
    proof {
        assert(views.take(0) =~= Seq::<Seq<char>>::empty());
        assert(texts_view(missing@) =~= Seq::<Seq<char>>::empty());
    }
    while index < paths.len()
        invariant
            paths@.len() == present@.len(),
            views == texts_view(paths@),
            index <= paths@.len(),
            texts_view(missing@) == absent(views.take(index as int), present@),
        decreases paths@.len() - index,
    {
        let ghost before = missing@;
        if !present[index] {
            missing.push(paths[index].clone());
            proof {
                assert(texts_view(missing@) =~= texts_view(before).push(views[index as int]));
            }
        }
        proof {
            assert(views.take(index + 1).drop_last() =~= views.take(index as int));
            assert(views.take(index + 1).last() == views[index as int]);
        }
        index = index + 1;
    }
    proof {
        assert(views.take(index as int) =~= views);
    }
    missing
}

/// What the command of a step left.
#[derive(Debug)]
pub struct StepOutput {
    pub status: i32,
    pub stdout: String,
    pub stderr: String,
}

/// A step once its command has ended, or could not be run.
pub open spec fn completed_step(
    step: StepView,
    output: Result<StepOutput, String>,
    missing: Seq<Seq<char>>,
    now: u64,
) -> StepView {
    let ended = StepView { updated_at_ms: now, finished_at_ms: Some(now), ..step };
    let judged = match output {
        Ok(output) => {
            let shown = StepView {
                exit_code: Some(output.status),
                stdout: output.stdout@,
                stderr: output.stderr@,
                ..ended
            };
            if output.status != 0 {
                StepView {
                    status: StepStatus::Failed,
                    error: Some("command exited with status "@ + decimal(output.status as int)),
                    ..shown
                }
            } else if missing.len() > 0 {
                StepView {
                    status: StepStatus::Failed,
                    missing_expected_outputs: missing,
                    error: Some(
                        "command exited successfully but expected outputs were not created"@,
                    ),
                    ..shown
                }
            } else {
                StepView { status: StepStatus::Succeeded, error: None, ..shown }
            }
        },
        Err(message) => StepView {
            status: StepStatus::Failed,
            error: Some("command could not be executed: "@ + message@),
            ..ended
        },
    };
    StepView {
        history: judged.history.push(
            TransitionView { status: judged.status, at_ms: now, detail: judged.error },
        ),
        ..judged
    }
}

/// A step once its command has ended, or could not be run; `missing` are the files that it was to
/// write and that are not there.
pub fn complete_step(
    record: &StepRecord,
    output: Result<StepOutput, String>,
    missing: Vec<String>,
    now: u64,
) -> (completed: StepRecord)
    ensures
        completed@ == completed_step(record@, output, texts_view(missing@), now),
{
    let ghost given = output;
    let mut completed: StepRecord = record.clone();
    let ghost before = completed.history@;
    completed.updated_at_ms = now;
    completed.finished_at_ms = Some(now);
    match output {
        Ok(output) => {
            completed.exit_code = Some(output.status);
            completed.stdout = output.stdout;
            completed.stderr = output.stderr;
            if output.status != 0 {
                let mut message: String = "command exited with status ".to_owned();
                message.append(signed_decimal_text(output.status as i128).as_str());
                completed.status = StepStatus::Failed;
                completed.error = Some(message);
            } else if missing.len() > 0 {
                completed.status = StepStatus::Failed;
                completed.missing_expected_outputs = copy_texts(&missing);
                completed.error = Some(
                    "command exited successfully but expected outputs were not created".to_owned(),
                );
            } else {
                completed.status = StepStatus::Succeeded;
                completed.error = None;
            }
        },
        Err(error) => {
            let mut message: String = "command could not be executed: ".to_owned();
            message.append(error.as_str());
            completed.status = StepStatus::Failed;
            completed.error = Some(message);
        },
    }
    let detail: Option<String> = copy_optional(&completed.error);
    let status: StepStatus = completed.status;
    completed.history.push(StepTransition { status, at_ms: now, detail });
    proof {
        assert(history_view(completed.history@) =~= history_view(before).push(
            TransitionView { status, at_ms: now, detail: optional_view(completed.error) },
        ));
        assert(completed@ =~= completed_step(record@, given, texts_view(missing@), now));
    }
    completed
}

/// What comes of the end of a command: the step as it was when the command was started is `launched`.
pub open spec fn finished_step(
    steps: Seq<StepEntryView>,
    launched: StepView,
    output: Result<StepOutput, String>,
    missing: Seq<Seq<char>>,
    runner: Seq<char>,
    now: u64,
) -> Result<StepView, Seq<char>> {
    let place = step_place(steps, launched.step_id);
    if place >= steps.len() {
        Err("workflow step "@ + debug_form(launched.step_id) + " disappeared"@)
    } else {
        match steps[place].1 {
            Err(message) => Err(message),
            Ok(stored) => {
                let current = recovered(stored, runner, now);
                if current.idempotency_key != launched.idempotency_key || current.invocation
                    != launched.invocation {
                    Err("workflow step journal changed while the command was running"@)
                } else if current.status != StepStatus::Running {
                    Err("workflow step is no longer running"@)
                } else {
                    Ok(completed_step(current, output, missing, now))
                }
            },
        }
    }
}

/// The journal with another record for a step that it has.
pub open spec fn with_step(steps: Seq<StepEntryView>, name: Seq<char>, step: StepView) -> Seq<StepEntryView> {
    steps.update(step_place(steps, name), (name, Ok(step)))
}

/// The journal after the end of a command: a step that another runner left unfinished has failed.
pub open spec fn steps_after_end(
    steps: Seq<StepEntryView>,
    launched: StepView,
    output: Result<StepOutput, String>,
    missing: Seq<Seq<char>>,
    runner: Seq<char>,
    now: u64,
) -> Seq<StepEntryView> {
    let place = step_place(steps, launched.step_id);
    if place >= steps.len() {
        steps
    } else {
        match (finished_step(steps, launched, output, missing, runner, now), steps[place].1) {
            (Ok(step), _) => with_step(steps, launched.step_id, step),
            (Err(_), Ok(stored)) => with_step(
                steps,
                launched.step_id,
                recovered(stored, runner, now),
            ),
            (Err(_), Err(_)) => steps,
        }
    }
}

/// Enters the end of a command.
pub fn finish_step(
    entries: &mut Vec<StepEntry>,
    launched: &StepRecord,
    output: Result<StepOutput, String>,
    missing: Vec<String>,
    runner: &str,
    now: u64,
) -> (result: Result<StepRecord, String>)
    ensures
        step_result_view(result) == finished_step(
            steps_view(old(entries)@),
            launched@,
            output,
            texts_view(missing@),
            runner@,
            now,
        ),
        steps_view(final(entries)@) == steps_after_end(
            steps_view(old(entries)@),
            launched@,
            output,
            texts_view(missing@),
            runner@,
            now,
        ),
{
    let place: usize = find_step(entries, launched.step_id.as_str());
    if place >= entries.len() {
        let mut message: String = "workflow step ".to_owned();
        message.append(debug_string(launched.step_id.as_str()).as_str());
        message.append(" disappeared");
        return Err(message);
    }
    let current: StepRecord = match &entries[place].record {
        Ok(record) => recover_step(record, runner, now),
        Err(message) => {
            return Err(message.clone());
        },
    };
    let same_run: bool = same_text(
        current.idempotency_key.as_str(),
        launched.idempotency_key.as_str(),
    ) && same_invocation(&current.invocation, &launched.invocation);
    if !same_run || current.status != StepStatus::Running {
        let ghost seen = current@;
        entries[place] = StepEntry { name: launched.step_id.clone(), record: Ok(current) };
        proof {
            assert(steps_view(entries@) =~= with_step(
                steps_view(old(entries)@),
                launched.step_id@,
                seen,
            ));
        }
        return Err(
            if !same_run {
                "workflow step journal changed while the command was running".to_owned()
            } else {
                "workflow step is no longer running".to_owned()
            },
        );
    }
    let completed: StepRecord = complete_step(&current, output, missing, now);
    entries[place] = StepEntry {
        name: launched.step_id.clone(),
        record: Ok(completed.clone()),
    };
    proof {
        assert(steps_view(entries@) =~= with_step(
            steps_view(old(entries)@),
            launched.step_id@,
            completed@,
        ));
    }
    Ok(completed)
}

proof fn lemma_recovered_once(step: StepView, runner: Seq<char>, then: u64, now: u64)
    ensures
        recovered(recovered(step, runner, then), runner, now) == recovered(step, runner, then),
        recovered(step, runner, then).idempotency_key == step.idempotency_key,
        recovered(step, runner, then).step_id == step.step_id,
        recovered(step, runner, then).invocation == step.invocation,
{
}

proof fn lemma_search_end_at(steps: Seq<StepEntryView>, key: Seq<char>, end: int)
    requires
        0 <= end < steps.len(),
        ends_search(steps[end], key),
        forall|i: int| 0 <= i < end ==> !ends_search(#[trigger] steps[i], key),
    ensures
        search_end(steps, key) == end,
{
    lemma_search_end(steps, key);
    let found = search_end(steps, key);
    if found < end {
        assert(!ends_search(steps[found], key));
    } else if end < found {
        assert(!ends_search(steps[end], key));
    }
}

/// A step that is asked for again, with the same key and for the same run, is not run again: its
/// record is the answer, and the journal stays as it is.
pub proof fn law_retries_reuse_the_step(
    steps: Seq<StepEntryView>,
    args: WorkflowStepArgs,
    session_id: Seq<char>,
    runner: Seq<char>,
    missing: Seq<Seq<char>>,
    now: u64,
    launch_at: u64,
    missing_later: Seq<Seq<char>>,
    later: u64,
    launch_later: u64,
)
    ensures
        ({
            let (first, after) = reserved(
                steps,
                args,
                session_id,
                runner,
                missing,
                now,
                launch_at,
            );
            let again = reserved(
                after,
                args,
                session_id,
                runner,
                missing_later,
                later,
                launch_later,
            );
            match first {
                Ok(ReservationView::Launch(_, step)) => again == (
                    Ok::<ReservationView, Seq<char>>(ReservationView::Reused(step)),
                    after,
                ),
                Ok(ReservationView::Blocked(step)) => again == (
                    Ok::<ReservationView, Seq<char>>(ReservationView::Reused(step)),
                    after,
                ),
                _ => true,
            }
        }),
{
    let (first, after) = reserved(steps, args, session_id, runner, missing, now, launch_at);
    if first is Ok && (first->Ok_0 is Launch || first->Ok_0 is Blocked) {
        let key = args.idempotency_key@;
        let last = steps.len() as int;
        lemma_search_end(steps, key);
        assert forall|i: int| 0 <= i < last implies !ends_search(#[trigger] after[i], key) by {
            assert(!ends_search(steps[i], key));
            assert(after[i] == recovered_entry(steps[i], runner, now));
        }
        lemma_search_end_at(after, key, last);
        assert forall|i: int| 0 <= i < after.len() implies #[trigger] looked_at(
            after,
            last + 1,
            runner,
            later,
        )[i] == after[i] by {
            if i < last {
                assert(after[i] == recovered_entry(steps[i], runner, now));
                if steps[i].1 is Ok {
                    lemma_recovered_once(steps[i].1->Ok_0, runner, now, later);
                }
            }
        }
        assert(looked_at(after, last + 1, runner, later) =~= after);
    }
}

/// A step that is asked for again after its command has ended is not run again: what came of it is the
/// answer, and its entry stays as it is. Between the two the journal may have changed in other steps, so
/// long as each can be read and none has the key.
pub proof fn law_ended_steps_are_reused(
    steps: Seq<StepEntryView>,
    launched: StepView,
    output: Result<StepOutput, String>,
    missing: Seq<Seq<char>>,
    runner: Seq<char>,
    now: u64,
    args: WorkflowStepArgs,
    session_id: Seq<char>,
    next_runner: Seq<char>,
    missing_later: Seq<Seq<char>>,
    later: u64,
    launch_later: u64,
)
    requires
        launched.idempotency_key == args.idempotency_key@,
        launched.invocation == args.run(),
        forall|i: int|
            0 <= i < steps.len() && (#[trigger] steps[i]).0 != launched.step_id ==> !ends_search(
                steps[i],
                args.idempotency_key@,
            ),
    ensures
        match finished_step(steps, launched, output, missing, runner, now) {
            Ok(step) => {
                let after = steps_after_end(steps, launched, output, missing, runner, now);
                let (again, last) = reserved(
                    after,
                    args,
                    session_id,
                    next_runner,
                    missing_later,
                    later,
                    launch_later,
                );
                let place = step_place(steps, launched.step_id);
                &&& again == Ok::<ReservationView, Seq<char>>(ReservationView::Reused(step))
                &&& last.len() == steps.len()
                &&& 0 <= place < last.len()
                &&& after[place] == (launched.step_id, Ok::<StepView, Seq<char>>(step))
                &&& last[place] == after[place]
            },
            Err(_) => true,
        },
{
    let key = args.idempotency_key@;
    let place = step_place(steps, launched.step_id);
    lemma_step_place(steps, launched.step_id);
    if let Ok(step) = finished_step(steps, launched, output, missing, runner, now) {
        let after = steps_after_end(steps, launched, output, missing, runner, now);
        assert(after == steps.update(place, (launched.step_id, Ok(step))));
        assert forall|i: int| 0 <= i < place implies !ends_search(#[trigger] after[i], key) by {
            assert(steps[i].0 != launched.step_id);
        }
        lemma_search_end_at(after, key, place);
        assert(looked_at(after, place + 1, next_runner, later)[place] == recovered_entry(
            after[place],
            next_runner,
            later,
        ));
    }
}

/// From the first request to the last: a step that was launched, whose command was run to its end and
/// entered, is answered with that end whenever it is asked for again, by this runner or by another.
pub proof fn law_launched_steps_run_once(
    steps: Seq<StepEntryView>,
    args: WorkflowStepArgs,
    session_id: Seq<char>,
    runner: Seq<char>,
    required: Seq<Seq<char>>,
    now: u64,
    launch_at: u64,
    output: Result<StepOutput, String>,
    missing: Seq<Seq<char>>,
    ended: u64,
    next_runner: Seq<char>,
    required_later: Seq<Seq<char>>,
    later: u64,
    launch_later: u64,
)
    ensures
        ({
            let (first, after) = reserved(
                steps,
                args,
                session_id,
                runner,
                required,
                now,
                launch_at,
            );
            match first {
                Ok(ReservationView::Launch(_, launched)) => {
                    let step = completed_step(launched, output, missing, ended);
                    let last = steps_after_end(after, launched, output, missing, runner, ended);
                    let again = reserved(
                        last,
                        args,
                        session_id,
                        next_runner,
                        required_later,
                        later,
                        launch_later,
                    );
                    &&& finished_step(after, launched, output, missing, runner, ended) == Ok::<
                        StepView,
                        Seq<char>,
                    >(step)
                    &&& again.0 == Ok::<ReservationView, Seq<char>>(ReservationView::Reused(step))
                },
                _ => true,
            }
        }),
{
    let (first, after) = reserved(steps, args, session_id, runner, required, now, launch_at);
    let key = args.idempotency_key@;
    if let Ok(ReservationView::Launch(_, launched)) = first {
        let all = looked_at(steps, steps.len() as int, runner, now);
        lemma_search_end(steps, key);
        lemma_step_place(all, args.step_id@);
        lemma_step_place(after, args.step_id@);
        assert(after[steps.len() as int] == (args.step_id@, Ok::<StepView, Seq<char>>(launched)));
        assert forall|i: int| 0 <= i < steps.len() implies (#[trigger] after[i]).0 != args.step_id@
            && !ends_search(after[i], key) by {
            assert(after[i] == all[i]);
            assert(all[i] == recovered_entry(steps[i], runner, now));
            assert(!ends_search(steps[i], key));
        }
        assert(step_place(after, args.step_id@) == steps.len());
        law_ended_steps_are_reused(
            after,
            launched,
            output,
            missing,
            runner,
            ended,
            args,
            session_id,
            next_runner,
            required_later,
            later,
            launch_later,
        );
    }
}

/// A key that belongs to another run stays with it: asking for the step again gives the same
/// answer each time, and never runs a command.
pub proof fn law_conflicts_are_deterministic(
    steps: Seq<StepEntryView>,
    args: WorkflowStepArgs,
    session_id: Seq<char>,
    runner: Seq<char>,
    missing: Seq<Seq<char>>,
    now: u64,
    launch_at: u64,
    later: u64,
)
    ensures
        ({
            let (first, after) = reserved(
                steps,
                args,
                session_id,
                runner,
                missing,
                now,
                launch_at,
            );
            first matches Ok(ReservationView::Conflict(_)) ==> reserved(
                after,
                args,
                session_id,
                runner,
                missing,
                later,
                launch_at,
            ) == (first, after)
        }),
{
    let (first, after) = reserved(steps, args, session_id, runner, missing, now, launch_at);
    if first is Ok && first->Ok_0 is Conflict {
        let key = args.idempotency_key@;
        let end = search_end(steps, key);
        lemma_search_end(steps, key);
        lemma_search_end(after, key);
        let count = if end < steps.len() {
            end + 1
        } else {
            end
        };
        assert forall|i: int| 0 <= i < after.len() implies ends_search(#[trigger] after[i], key)
            == ends_search(steps[i], key) by {}
        if end < steps.len() {
            lemma_search_end_at(after, key, end);
        } else {
            if search_end(after, key) < after.len() {
                assert(ends_search(after[search_end(after, key)], key));
                assert(!ends_search(steps[search_end(after, key)], key));
            }
        }
        assert forall|i: int| 0 <= i < after.len() implies #[trigger] looked_at(
            after,
            count,
            runner,
            later,
        )[i] == after[i] by {
            if i < count && steps[i].1 is Ok {
                assert(after[i] == recovered_entry(steps[i], runner, now));
                lemma_recovered_once(steps[i].1->Ok_0, runner, now, later);
            }
        }
        assert(looked_at(after, count, runner, later) =~= after);
        if end < steps.len() {
            lemma_recovered_once(steps[end].1->Ok_0, runner, now, later);
        }
    }
}

proof fn lemma_step_place(steps: Seq<StepEntryView>, name: Seq<char>)
    ensures
        0 <= step_place(steps, name) <= steps.len(),
        step_place(steps, name) < steps.len() ==> steps[step_place(steps, name)].0 == name,
        forall|i: int| 0 <= i < step_place(steps, name) ==> (#[trigger] steps[i]).0 != name,
    decreases steps.len(),
{
    if steps.len() > 0 && steps[0].0 != name {
        let rest = steps.drop_first();
        lemma_step_place(rest, name);
        assert forall|i: int| 0 <= i < step_place(steps, name) implies (#[trigger] steps[i]).0
            != name by {
            if i > 0 {
                assert(steps[i] == rest[i - 1]);
            }
        }
    }
}

proof fn lemma_no_obstacles(steps: Seq<StepEntryView>, names: Seq<Seq<char>>, i: int)
    requires
        obstacles(steps, names).len() == 0,
        0 <= i < names.len(),
    ensures
        obstacle(steps, names[i]) is None,
    decreases names.len(),
{
    if i < names.len() - 1 {
        assert(names.drop_last()[i] == names[i]);
        lemma_no_obstacles(steps, names.drop_last(), i);
    }
}

/// A command is run only where every step that its step depends on is there and has succeeded, or
/// has failed and said that this is no hindrance, and where every file that it needs is there.
pub proof fn law_commands_run_only_when_their_step_may(
    steps: Seq<StepEntryView>,
    args: WorkflowStepArgs,
    session_id: Seq<char>,
    runner: Seq<char>,
    missing: Seq<Seq<char>>,
    now: u64,
    launch_at: u64,
    i: int,
)
    requires
        reserved(steps, args, session_id, runner, missing, now, launch_at).0 matches Ok(
            ReservationView::Launch(_, _),
        ),
        0 <= i < args.depends_on@.len(),
    ensures
        missing.len() == 0,
        ({
            let all = looked_at(steps, steps.len() as int, runner, now);
            let place = step_place(all, args.depends_on@[i]@);
            &&& 0 <= place < all.len()
            &&& all[place].0 == args.depends_on@[i]@
            &&& all[place].1 matches Ok(step) && (step.status == StepStatus::Succeeded || (step.status
                == StepStatus::Failed && step.continue_on_error))
        }),
{
    let all = looked_at(steps, steps.len() as int, runner, now);
    let names = texts_view(args.depends_on@);
    lemma_no_obstacles(all, names, i);
    lemma_step_place(all, args.depends_on@[i]@);
}

/// Whether no two steps have one name or one key.
pub open spec fn distinct_steps(steps: Seq<StepEntryView>) -> bool {
    forall|i: int, j: int|
        0 <= i < j < steps.len() ==> (#[trigger] steps[i]).0 != (#[trigger] steps[j]).0 && (steps[i].1 is Ok
            && steps[j].1 is Ok ==> steps[i].1->Ok_0.idempotency_key
            != steps[j].1->Ok_0.idempotency_key)
}

/// No two steps ever come to have one name or one key.
pub proof fn law_steps_stay_distinct(
    steps: Seq<StepEntryView>,
    args: WorkflowStepArgs,
    session_id: Seq<char>,
    runner: Seq<char>,
    missing: Seq<Seq<char>>,
    now: u64,
    launch_at: u64,
)
    requires
        distinct_steps(steps),
    ensures
        distinct_steps(reserved(steps, args, session_id, runner, missing, now, launch_at).1),
{
    let (first, after) = reserved(steps, args, session_id, runner, missing, now, launch_at);
    lemma_search_end(steps, args.idempotency_key@);
    let all = looked_at(steps, steps.len() as int, runner, now);
    lemma_step_place(all, args.step_id@);
    assert forall|i: int, j: int| 0 <= i < j < after.len() implies (#[trigger] after[i]).0
        != (#[trigger] after[j]).0 && (after[i].1 is Ok && after[j].1 is Ok
        ==> after[i].1->Ok_0.idempotency_key != after[j].1->Ok_0.idempotency_key) by {
        if j < steps.len() {
            assert(steps[i].0 != steps[j].0);
        } else {
            assert(all[i].0 != args.step_id@);
            assert(!ends_search(steps[i], args.idempotency_key@));
        }
    }
}

/// Whether one status may follow another.
pub open spec fn may_follow(before: StepStatus, after: StepStatus) -> bool {
    match before {
        StepStatus::Pending => after == StepStatus::Running || after == StepStatus::Blocked || after
            == StepStatus::Failed,
        StepStatus::Running => after == StepStatus::Succeeded || after == StepStatus::Failed,
        _ => false,
    }
}

/// Whether a status of a history may follow the one before it.
pub open spec fn follows(history: Seq<TransitionView>, i: int) -> bool {
    may_follow(history[i - 1].status, history[i].status)
}

/// Whether the history of a step begins with its being asked for, goes on as it may, and ends with
/// the status that the step has.
pub open spec fn sound_history(step: StepView) -> bool {
    &&& step.history.len() > 0
    &&& step.history[0].status == StepStatus::Pending
    &&& step.history.last().status == step.status
    &&& forall|i: int| 0 < i < step.history.len() ==> #[trigger] follows(step.history, i)
}

/// A sound history stays sound with one more status that may follow.
proof fn lemma_history_grows(step: StepView, next: StepView, transition: TransitionView)
    requires
        sound_history(step),
        next.history == step.history.push(transition),
        next.status == transition.status,
        may_follow(step.status, next.status),
    ensures
        sound_history(next),
{
    assert forall|i: int| 0 < i < next.history.len() implies #[trigger] follows(next.history, i) by {
        if i < step.history.len() {
            assert(follows(step.history, i));
        }
    }
}

/// Whatever befalls a step, its history is sound: it is asked for, and then blocked, or run and
/// then done or failed, or failed because its runner was lost.
pub proof fn law_histories_are_sound(
    args: WorkflowStepArgs,
    session_id: Seq<char>,
    runner: Seq<char>,
    blocked_by: Seq<Seq<char>>,
    missing: Seq<Seq<char>>,
    step: StepView,
    output: Result<StepOutput, String>,
    now: u64,
)
    requires
        sound_history(step),
    ensures
        sound_history(pending_step(args, session_id, runner, blocked_by, missing, now)),
        step.status == StepStatus::Pending ==> sound_history(blocked_step(step, now)),
        step.status == StepStatus::Pending ==> sound_history(running_step(step, now)),
        step.status == StepStatus::Running ==> sound_history(
            completed_step(step, output, missing, now),
        ),
        sound_history(recovered(step, runner, now)),
{
    if step.status == StepStatus::Pending {
        let blocked = blocked_step(step, now);
        let running = running_step(step, now);
        lemma_history_grows(step, blocked, blocked.history.last());
        lemma_history_grows(step, running, running.history.last());
    }
    if step.status == StepStatus::Running {
        let completed = completed_step(step, output, missing, now);
        lemma_history_grows(step, completed, completed.history.last());
    }
    let found = recovered(step, runner, now);
    if found != step {
        lemma_history_grows(step, found, found.history.last());
    }
}

/// A step that a runner finds unfinished is one of its own; and a step that is done, failed or
/// blocked stays as it is.
pub proof fn law_unfinished_steps_fail_closed(step: StepView, runner: Seq<char>, now: u64)
    ensures
        ({
            let found = recovered(step, runner, now);
            &&& found.status == StepStatus::Pending || found.status == StepStatus::Running
                ==> found.runner_instance_id == runner
            &&& step.status != StepStatus::Pending && step.status != StepStatus::Running ==> found
                == step
        }),
{
}

/// The end of a command is entered only for a step that this runner has running, and it is a
/// success only if the command exited with zero and every file it was to write is there.
pub proof fn law_success_needs_a_clean_end(
    steps: Seq<StepEntryView>,
    launched: StepView,
    output: Result<StepOutput, String>,
    missing: Seq<Seq<char>>,
    runner: Seq<char>,
    now: u64,
)
    ensures
        finished_step(steps, launched, output, missing, runner, now) matches Ok(step) ==> {
            &&& step.status == StepStatus::Succeeded || step.status == StepStatus::Failed
            &&& step.runner_instance_id == runner
            &&& step.finished_at_ms == Some(now)
            &&& step.status == StepStatus::Succeeded <==> (output matches Ok(output) && output.status
                == 0 && missing.len() == 0)
        },
{
}

/// The place of the first step with a name, as it is stored.
proof fn lemma_looked_at_place(steps: Seq<StepEntryView>, runner: Seq<char>, now: u64, name: Seq<char>, place: int)
    requires
        0 <= place < steps.len(),
        steps[place].0 == name,
        forall|j: int| 0 <= j < place ==> (#[trigger] steps[j]).0 != name,
    ensures
        ({
            let all = looked_at(steps, steps.len() as int, runner, now);
            step_place(all, name) == place && all[place] == recovered_entry(steps[place], runner, now)
        }),
{
    let all = looked_at(steps, steps.len() as int, runner, now);
    lemma_step_place(all, name);
    let found = step_place(all, name);
    assert(all[place].0 == name);
    if found < place {
        assert(all[found].0 == steps[found].0);
    }
}

proof fn lemma_obstacle_is_listed(steps: Seq<StepEntryView>, names: Seq<Seq<char>>, i: int)
    requires
        0 <= i < names.len(),
        obstacle(steps, names[i]) is Some,
    ensures
        obstacles(steps, names).contains(obstacle(steps, names[i])->0),
    decreases names.len(),
{
    let all = obstacles(steps, names);
    let before = obstacles(steps, names.drop_last());
    if i < names.len() - 1 {
        assert(names.drop_last()[i] == names[i]);
        lemma_obstacle_is_listed(steps, names.drop_last(), i);
        let k = choose|k: int| 0 <= k < before.len() && before[k] == obstacle(steps, names[i])->0;
        assert(all[k] == before[k]);
    } else {
        assert(all[all.len() - 1] == obstacle(steps, names[i])->0);
    }
}

proof fn lemma_all_clear(steps: Seq<StepEntryView>, names: Seq<Seq<char>>)
    requires
        forall|i: int| 0 <= i < names.len() ==> obstacle(steps, #[trigger] names[i]) is None,
    ensures
        obstacles(steps, names).len() == 0,
    decreases names.len(),
{
    if names.len() > 0 {
        assert forall|i: int| 0 <= i < names.len() - 1 implies obstacle(
            steps,
            #[trigger] names.drop_last()[i],
        ) is None by {
            assert(names.drop_last()[i] == names[i]);
        }
        lemma_all_clear(steps, names.drop_last());
    }
}

/// A step that depends on one which runs, is about to run or was blocked is not run, but blocked, and
/// what blocks it is named; likewise one that depends on a step that failed and did not say that this is
/// no hindrance. The dependency is the first step of that name, as it is stored, by this runner.
pub proof fn law_unfinished_dependencies_block(
    steps: Seq<StepEntryView>,
    args: WorkflowStepArgs,
    session_id: Seq<char>,
    runner: Seq<char>,
    missing: Seq<Seq<char>>,
    now: u64,
    launch_at: u64,
    i: int,
    place: int,
)
    requires
        forall|j: int|
            0 <= j < steps.len() ==> (#[trigger] steps[j]).0 != args.step_id@ && steps[j].1 is Ok
                && steps[j].1->Ok_0.idempotency_key != args.idempotency_key@,
        0 <= i < args.depends_on@.len(),
        0 <= place < steps.len(),
        steps[place].0 == args.depends_on@[i]@,
        forall|j: int| 0 <= j < place ==> (#[trigger] steps[j]).0 != args.depends_on@[i]@,
        steps[place].1->Ok_0.runner_instance_id == runner,
    ensures
        ({
            let (reservation, after) = reserved(
                steps,
                args,
                session_id,
                runner,
                missing,
                now,
                launch_at,
            );
            let dependency = steps[place].1->Ok_0;
            let word = match dependency.status {
                StepStatus::Pending => "pending"@,
                StepStatus::Running => "running"@,
                StepStatus::Blocked => "blocked"@,
                StepStatus::Failed => "failed"@,
                StepStatus::Succeeded => "succeeded"@,
            };
            dependency.status == StepStatus::Pending || dependency.status == StepStatus::Running
                || dependency.status == StepStatus::Blocked || (dependency.status
                == StepStatus::Failed && !dependency.continue_on_error) ==> (reservation matches Ok(
                ReservationView::Blocked(step),
            ) && step.status == StepStatus::Blocked && step.blocked_by.contains(
                args.depends_on@[i]@ + ": "@ + word,
            ))
        }),
{
    let all = looked_at(steps, steps.len() as int, runner, now);
    let names = texts_view(args.depends_on@);
    lemma_open_for(steps, args, runner, now);
    lemma_looked_at_place(steps, runner, now, names[i], place);
    if obstacle(all, names[i]) is Some {
        lemma_obstacle_is_listed(all, names, i);
    }
}

/// Where no step of the journal has the name or the key of the step that is asked for, and all can be
/// read, nothing of them is found.
proof fn lemma_open_for(steps: Seq<StepEntryView>, args: WorkflowStepArgs, runner: Seq<char>, now: u64)
    requires
        forall|j: int|
            0 <= j < steps.len() ==> (#[trigger] steps[j]).0 != args.step_id@ && steps[j].1 is Ok
                && steps[j].1->Ok_0.idempotency_key != args.idempotency_key@,
    ensures
        search_end(steps, args.idempotency_key@) == steps.len(),
        ({
            let all = looked_at(steps, steps.len() as int, runner, now);
            step_place(all, args.step_id@) == all.len() && all.len() == steps.len()
        }),
{
    let all = looked_at(steps, steps.len() as int, runner, now);
    lemma_search_end(steps, args.idempotency_key@);
    lemma_step_place(all, args.step_id@);
    let end = search_end(steps, args.idempotency_key@);
    if end < steps.len() {
        assert(steps[end].1 is Ok);
        assert(ends_search(steps[end], args.idempotency_key@));
    }
    let place = step_place(all, args.step_id@);
    if place < all.len() {
        assert(all[place].0 == steps[place].0);
    }
}

/// A step that was not asked for before is run exactly if every file that it needs is there and each step
/// that it depends on is in the journal and has succeeded, or has failed, or was left behind by a runner that
/// is gone, and said that this is no hindrance; otherwise it is blocked. Nothing else is decided of it.
pub proof fn law_steps_run_exactly_when_they_may(
    steps: Seq<StepEntryView>,
    args: WorkflowStepArgs,
    session_id: Seq<char>,
    runner: Seq<char>,
    missing: Seq<Seq<char>>,
    now: u64,
    launch_at: u64,
)
    requires
        forall|j: int|
            0 <= j < steps.len() ==> (#[trigger] steps[j]).0 != args.step_id@ && steps[j].1 is Ok
                && steps[j].1->Ok_0.idempotency_key != args.idempotency_key@,
        forall|j: int, k: int|
            0 <= j < k < steps.len() ==> (#[trigger] steps[j]).0 != (#[trigger] steps[k]).0,
    ensures
        ({
            let reservation = reserved(steps, args, session_id, runner, missing, now, launch_at).0;
            let may_run = missing.len() == 0 && forall|i: int|
                0 <= i < args.depends_on@.len() ==> exists|place: int|
                    {
                        &&& 0 <= place < steps.len()
                        &&& (#[trigger] steps[place]).0 == (#[trigger] args.depends_on@[i])@
                        &&& {
                            let step = steps[place].1->Ok_0;
                            step.status == StepStatus::Succeeded || (step.continue_on_error && (
                            step.status == StepStatus::Failed || (step.runner_instance_id != runner && (
                            step.status == StepStatus::Pending || step.status
                                == StepStatus::Running))))
                        }
                    };
            &&& reservation is Ok
            &&& may_run <==> reservation->Ok_0 is Launch
            &&& !may_run <==> reservation->Ok_0 is Blocked
        }),
{
    let all = looked_at(steps, steps.len() as int, runner, now);
    let names = texts_view(args.depends_on@);
    lemma_open_for(steps, args, runner, now);
    assert forall|i: int| 0 <= i < names.len() implies (obstacle(all, #[trigger] names[i]) is None <==> exists|
        place: int,
    |
        {
            &&& 0 <= place < steps.len()
            &&& (#[trigger] steps[place]).0 == (#[trigger] args.depends_on@[i])@
            &&& {
                let step = steps[place].1->Ok_0;
                step.status == StepStatus::Succeeded || (step.continue_on_error && (step.status
                    == StepStatus::Failed || (step.runner_instance_id != runner && (step.status
                    == StepStatus::Pending || step.status == StepStatus::Running))))
            }
        }) by {
        lemma_step_place(all, names[i]);
        let found = step_place(all, names[i]);
        if found < all.len() {
            assert(all[found] == recovered_entry(steps[found], runner, now));
            assert(steps[found].0 == args.depends_on@[i]@);
        }
        if exists|place: int| 0 <= place < steps.len() && (#[trigger] steps[place]).0 == names[i] {
            let place = choose|place: int|
                0 <= place < steps.len() && (#[trigger] steps[place]).0 == names[i];
            assert forall|j: int| 0 <= j < place implies (#[trigger] steps[j]).0 != names[i] by {
                assert(steps[j].0 != steps[place].0);
            }
            lemma_looked_at_place(steps, runner, now, names[i], place);
        }
    }
    if obstacles(all, names).len() == 0 {
        assert forall|i: int| 0 <= i < names.len() implies obstacle(all, #[trigger] names[i]) is None by {
            lemma_no_obstacles(all, names, i);
        }
        assert forall|i: int| 0 <= i < args.depends_on@.len() implies exists|place: int|
            {
                &&& 0 <= place < steps.len()
                &&& (#[trigger] steps[place]).0 == (#[trigger] args.depends_on@[i])@
                &&& {
                    let step = steps[place].1->Ok_0;
                    step.status == StepStatus::Succeeded || (step.continue_on_error && (step.status
                        == StepStatus::Failed || (step.runner_instance_id != runner && (step.status
                        == StepStatus::Pending || step.status == StepStatus::Running))))
                }
            } by {
            assert(obstacle(all, names[i]) is None);
        }
    } else {
        if forall|i: int| 0 <= i < names.len() ==> obstacle(all, #[trigger] names[i]) is None {
            lemma_all_clear(all, names);
        }
        let i = choose|i: int| 0 <= i < names.len() && obstacle(all, #[trigger] names[i]) is Some;
        assert(obstacle(all, names[i]) is Some);
        assert(args.depends_on@[i]@ == names[i]);
    }
}

/// A key that a step has is answered by that step: where the same is asked of it, part by part, with its
/// record as the runner finds it, whatever has become of it; where anything else is asked, the request is
/// refused, and no command is run.
pub proof fn law_keys_stand_for_one_run(
    steps: Seq<StepEntryView>,
    args: WorkflowStepArgs,
    session_id: Seq<char>,
    runner: Seq<char>,
    missing: Seq<Seq<char>>,
    now: u64,
    launch_at: u64,
    place: int,
)
    requires
        0 <= place < steps.len(),
        forall|j: int|
            0 <= j < place ==> (#[trigger] steps[j]).1 is Ok && steps[j].1->Ok_0.idempotency_key
                != args.idempotency_key@,
        steps[place].1 is Ok,
        steps[place].1->Ok_0.idempotency_key == args.idempotency_key@,
    ensures
        ({
            let reservation = reserved(steps, args, session_id, runner, missing, now, launch_at).0;
            let stored = steps[place].1->Ok_0;
            let run = stored.invocation;
            let same = run.step_id == args.step_id@ && run.depends_on == texts_view(args.depends_on@)
                && run.required_files == texts_view(args.required_files@) && run.expected_outputs
                == texts_view(args.expected_outputs@) && run.command == texts_view(args.command@)
                && run.continue_on_error == args.continue_on_error;
            &&& reservation is Ok
            &&& same ==> (reservation->Ok_0 matches ReservationView::Reused(step) && step.step_id
                == stored.step_id && step.exit_code == stored.exit_code && step.stdout
                == stored.stdout && step.stderr == stored.stderr && (stored.status
                != StepStatus::Pending && stored.status != StepStatus::Running ==> step == stored)
                && (stored.runner_instance_id == runner ==> step == stored))
            &&& !same ==> (reservation->Ok_0 matches ReservationView::Conflict(answer) && answer.status
                == StepStatus::Blocked && !answer.reused && answer.step_id == args.step_id@
                && answer.idempotency_key == args.idempotency_key@ && answer.exit_code is None)
        }),
{
    let key = args.idempotency_key@;
    assert forall|j: int| 0 <= j < place implies !ends_search(#[trigger] steps[j], key) by {
        assert(steps[j].1 is Ok);
    }
    lemma_search_end_at(steps, key, place);
    let run = steps[place].1->Ok_0.invocation;
    if run.step_id == args.step_id@ && run.depends_on == texts_view(args.depends_on@)
        && run.required_files == texts_view(args.required_files@) && run.expected_outputs
        == texts_view(args.expected_outputs@) && run.command == texts_view(args.command@)
        && run.continue_on_error == args.continue_on_error {
        assert(run =~= args.run());
    }
}

/// A step is never run under a name that another step has: it is refused.
pub proof fn law_names_stand_for_one_step(
    steps: Seq<StepEntryView>,
    args: WorkflowStepArgs,
    session_id: Seq<char>,
    runner: Seq<char>,
    missing: Seq<Seq<char>>,
    now: u64,
    launch_at: u64,
    place: int,
)
    requires
        forall|j: int|
            0 <= j < steps.len() ==> (#[trigger] steps[j]).1 is Ok && steps[j].1->Ok_0.idempotency_key
                != args.idempotency_key@,
        0 <= place < steps.len(),
        steps[place].0 == args.step_id@,
    ensures
        reserved(steps, args, session_id, runner, missing, now, launch_at).0 matches Ok(
            ReservationView::Conflict(answer),
        ) && answer.status == StepStatus::Blocked && !answer.reused && answer.step_id
            == args.step_id@,
{
    let all = looked_at(steps, steps.len() as int, runner, now);
    lemma_search_end(steps, args.idempotency_key@);
    let end = search_end(steps, args.idempotency_key@);
    if end < steps.len() {
        assert(steps[end].1 is Ok);
        assert(ends_search(steps[end], args.idempotency_key@));
    }
    lemma_step_place(all, args.step_id@);
    assert(all[place].0 == steps[place].0);
}

/// A step that cannot be read keeps every step from running whose key is not that of one before it: the
/// error is the answer.
pub proof fn law_unreadable_steps_stop_the_search(
    steps: Seq<StepEntryView>,
    args: WorkflowStepArgs,
    session_id: Seq<char>,
    runner: Seq<char>,
    missing: Seq<Seq<char>>,
    now: u64,
    launch_at: u64,
    place: int,
)
    requires
        0 <= place < steps.len(),
        forall|j: int|
            0 <= j < place ==> (#[trigger] steps[j]).1 is Ok && steps[j].1->Ok_0.idempotency_key
                != args.idempotency_key@,
        steps[place].1 is Err,
    ensures
        reserved(steps, args, session_id, runner, missing, now, launch_at).0 == Err::<
            ReservationView,
            Seq<char>,
        >(steps[place].1->Err_0),
{
    let key = args.idempotency_key@;
    assert forall|j: int| 0 <= j < place implies !ends_search(#[trigger] steps[j], key) by {
        assert(steps[j].1 is Ok);
    }
    lemma_search_end_at(steps, key, place);
}

/// What is entered of a step that is launched or blocked is what was asked for, in its session, by this
/// runner, with the times of both; the journal gets this one entry at its end, and the other steps keep
/// their places and names. A blocked step says which files are not there.
pub proof fn law_entered_steps_are_those_asked_for(
    steps: Seq<StepEntryView>,
    args: WorkflowStepArgs,
    session_id: Seq<char>,
    runner: Seq<char>,
    missing: Seq<Seq<char>>,
    now: u64,
    launch_at: u64,
)
    ensures
        ({
            let (reservation, after) = reserved(
                steps,
                args,
                session_id,
                runner,
                missing,
                now,
                launch_at,
            );
            let entered = match reservation {
                Ok(ReservationView::Launch(_, running)) => Some(running),
                Ok(ReservationView::Blocked(blocked)) => Some(blocked),
                _ => None,
            };
            &&& entered matches Some(step) ==> {
                &&& step.session_id == session_id
                &&& step.step_id == args.step_id@
                &&& step.idempotency_key == args.idempotency_key@
                &&& step.invocation.step_id == args.step_id@
                &&& step.invocation.depends_on == texts_view(args.depends_on@)
                &&& step.invocation.required_files == texts_view(args.required_files@)
                &&& step.invocation.expected_outputs == texts_view(args.expected_outputs@)
                &&& step.invocation.command == texts_view(args.command@)
                &&& step.invocation.continue_on_error == args.continue_on_error
                &&& step.continue_on_error == args.continue_on_error
                &&& step.runner_instance_id == runner
                &&& step.created_at_ms == now
                &&& step.exit_code is None
                &&& step.stdout.len() == 0 && step.stderr.len() == 0
                &&& step.missing_required_files == missing
                &&& step.missing_expected_outputs.len() == 0
                &&& step.history.len() == 2
                &&& step.history[0].status == StepStatus::Pending && step.history[0].at_ms == now
                &&& step.history[1].status == step.status
                &&& after.len() == steps.len() + 1
                &&& after.last() == (args.step_id@, Ok::<StepView, Seq<char>>(step))
            }
            &&& entered is None ==> after.len() == steps.len()
            &&& forall|j: int| 0 <= j < steps.len() ==> (#[trigger] after[j]).0 == steps[j].0
            &&& reservation matches Ok(ReservationView::Launch(pending, running)) ==> {
                &&& pending.status == StepStatus::Pending
                &&& running.status == StepStatus::Running
                &&& running.history[1].at_ms == launch_at
                &&& running.updated_at_ms == launch_at
                &&& running.finished_at_ms is None
                &&& running.error is None
                &&& running.blocked_by.len() == 0
                &&& pending == (StepView {
                    status: StepStatus::Pending,
                    updated_at_ms: now,
                    history: running.history.take(1),
                    ..running
                })
            }
            &&& reservation matches Ok(ReservationView::Blocked(blocked)) ==> {
                &&& blocked.status == StepStatus::Blocked
                &&& blocked.history[1].at_ms == now
                &&& blocked.finished_at_ms == Some(now)
                &&& blocked.error is Some
                &&& blocked.history[1].detail == blocked.error
                &&& blocked.blocked_by.len() > 0 || missing.len() > 0
            }
        }),
{
    let (reservation, after) = reserved(steps, args, session_id, runner, missing, now, launch_at);
    if let Ok(ReservationView::Launch(pending, running)) = reservation {
        assert(running.history.take(1) =~= pending.history);
    }
}

/// What came of a command is entered as it is: its exit code and what it wrote, whether it succeeded, which
/// files it did not write, and when it ended; what was asked for stays as it was.
pub proof fn law_ends_are_entered_as_they_are(
    step: StepView,
    output: Result<StepOutput, String>,
    missing: Seq<Seq<char>>,
    now: u64,
)
    ensures
        ({
            let done = completed_step(step, output, missing, now);
            &&& output matches Ok(output) ==> {
                &&& done.exit_code == Some(output.status)
                &&& done.stdout == output.stdout@
                &&& done.stderr == output.stderr@
                &&& done.status == StepStatus::Succeeded <==> output.status == 0 && missing.len() == 0
                &&& output.status == 0 && missing.len() > 0 ==> done.missing_expected_outputs == missing
            }
            &&& output is Err ==> done.status == StepStatus::Failed && done.exit_code == step.exit_code
                && done.stdout == step.stdout && done.stderr == step.stderr
            &&& done.status == StepStatus::Succeeded || done.status == StepStatus::Failed
            &&& done.status == StepStatus::Succeeded <==> done.error is None
            &&& done.finished_at_ms == Some(now)
            &&& done.updated_at_ms == now
            &&& done.history == step.history.push(
                TransitionView { status: done.status, at_ms: now, detail: done.error },
            )
            &&& done.session_id == step.session_id
            &&& done.step_id == step.step_id
            &&& done.idempotency_key == step.idempotency_key
            &&& done.invocation == step.invocation
            &&& done.runner_instance_id == step.runner_instance_id
            &&& done.continue_on_error == step.continue_on_error
            &&& done.created_at_ms == step.created_at_ms
        }),
{
}

/// A step that a runner finds unfinished and that is not its own has failed, since now, with a reason; any
/// other stays as it is. What it was asked for and what it has written are kept.
pub proof fn law_only_lost_steps_are_failed(step: StepView, runner: Seq<char>, now: u64)
    ensures
        ({
            let found = recovered(step, runner, now);
            let lost = (step.status == StepStatus::Pending || step.status == StepStatus::Running)
                && step.runner_instance_id != runner;
            &&& !lost ==> found == step
            &&& lost ==> found.status == StepStatus::Failed && found.finished_at_ms == Some(now)
                && found.updated_at_ms == now && found.error is Some && found.history.len()
                == step.history.len() + 1 && found.history.last().status == StepStatus::Failed
                && found.history.last().at_ms == now && found.history.last().detail == found.error
                && found.history.drop_last() == step.history
            &&& found.step_id == step.step_id && found.session_id == step.session_id
                && found.idempotency_key == step.idempotency_key && found.invocation
                == step.invocation && found.continue_on_error == step.continue_on_error
                && found.created_at_ms == step.created_at_ms && found.exit_code == step.exit_code
                && found.stdout == step.stdout && found.stderr == step.stderr
        }),
{
    assert(recovered(step, runner, now).history.drop_last() =~= step.history
        || recovered(step, runner, now) == step);
}

/// The end of a command is entered in the step that was launched, and in no other: the other steps stay
/// as they are, and where the step is gone, was taken by another run or has ended, nothing is entered.
pub proof fn law_ends_change_only_their_step(
    steps: Seq<StepEntryView>,
    launched: StepView,
    output: Result<StepOutput, String>,
    missing: Seq<Seq<char>>,
    runner: Seq<char>,
    now: u64,
    place: int,
)
    requires
        0 <= place < steps.len(),
        steps[place].0 == launched.step_id,
        forall|j: int| 0 <= j < place ==> (#[trigger] steps[j]).0 != launched.step_id,
    ensures
        ({
            let done = finished_step(steps, launched, output, missing, runner, now);
            let after = steps_after_end(steps, launched, output, missing, runner, now);
            &&& after.len() == steps.len()
            &&& forall|j: int|
                0 <= j < steps.len() && j != place ==> #[trigger] after[j] == steps[j]
            &&& after[place].0 == steps[place].0
            &&& done is Ok <==> (steps[place].1 matches Ok(stored) && stored.status
                == StepStatus::Running && stored.runner_instance_id == runner
                && stored.idempotency_key == launched.idempotency_key && stored.invocation
                == launched.invocation)
            &&& done is Ok ==> after[place].1 == done
            &&& done is Err ==> (after[place].1 matches Ok(step) ==> steps[place].1 matches Ok(
                stored,
            ) && step.exit_code == stored.exit_code && step.stdout == stored.stdout
                && (step.status == StepStatus::Succeeded ==> stored.status == StepStatus::Succeeded))
        }),
{
    lemma_step_place(steps, launched.step_id);
    let found = step_place(steps, launched.step_id);
    if place < found {
        assert(steps[place].0 != launched.step_id);
    }
}

/// The files that are missing are those that are not there, in their order.
pub proof fn law_missing_files_are_those_not_there(paths: Seq<Seq<char>>, present: Seq<bool>)
    requires
        paths.len() == present.len(),
    ensures
        forall|path: Seq<char>|
            #[trigger] absent(paths, present).contains(path) <==> exists|i: int|
                0 <= i < paths.len() && paths[i] == path && !#[trigger] present[i],
        absent(paths, present).len() == 0 <==> forall|i: int|
            0 <= i < present.len() ==> #[trigger] present[i],
        absent(paths, present).len() <= paths.len(),
        (forall|i: int| 0 <= i < present.len() ==> !#[trigger] present[i]) ==> absent(paths, present)
            == paths,
    decreases paths.len(),
{
    if paths.len() > 0 {
        let last = paths.len() - 1;
        let fewer = paths.drop_last();
        let flags = present.drop_last();
        let before = absent(fewer, flags);
        lemma_absent_flags(fewer, flags, present);
        law_missing_files_are_those_not_there(fewer, flags);
        let all = absent(paths, present);
        assert forall|path: Seq<char>|
            #[trigger] all.contains(path) <==> exists|i: int|
                0 <= i < paths.len() && paths[i] == path && !#[trigger] present[i] by {
            if all.contains(path) {
                let k = choose|k: int| 0 <= k < all.len() && all[k] == path;
                if k < before.len() {
                    assert(before[k] == path);
                    assert(before.contains(path));
                    let i = choose|i: int|
                        0 <= i < fewer.len() && fewer[i] == path && !#[trigger] flags[i];
                    assert(paths[i] == path && !present[i]);
                } else {
                    assert(paths[last] == path && !present[last]);
                }
            }
            if exists|i: int| 0 <= i < paths.len() && paths[i] == path && !#[trigger] present[i] {
                let i = choose|i: int|
                    0 <= i < paths.len() && paths[i] == path && !#[trigger] present[i];
                if i < last {
                    assert(fewer[i] == path && !flags[i]);
                    assert(before.contains(path));
                    let k = choose|k: int| 0 <= k < before.len() && before[k] == path;
                    assert(all[k] == path);
                } else {
                    assert(all[all.len() - 1] == path);
                }
            }
        }
        if forall|i: int| 0 <= i < present.len() ==> #[trigger] present[i] {
            assert forall|i: int| 0 <= i < flags.len() implies #[trigger] flags[i] by {
                assert(present[i]);
            }
        }
        if all.len() == 0 {
            assert forall|i: int| 0 <= i < present.len() implies #[trigger] present[i] by {
                if i < last {
                    assert(flags[i]);
                }
            }
        }
        if forall|i: int| 0 <= i < present.len() ==> !#[trigger] present[i] {
            assert forall|i: int| 0 <= i < flags.len() implies !#[trigger] flags[i] by {
                assert(!present[i]);
            }
            assert(!present[last]);
            assert(all =~= paths);
        }
    } else {
        assert(absent(paths, present) =~= paths);
    }
}

proof fn lemma_absent_flags(paths: Seq<Seq<char>>, a: Seq<bool>, b: Seq<bool>)
    requires
        paths.len() <= a.len(),
        paths.len() <= b.len(),
        forall|i: int| 0 <= i < paths.len() ==> a[i] == b[i],
    ensures
        absent(paths, a) == absent(paths, b),
    decreases paths.len(),
{
    if paths.len() > 0 {
        lemma_absent_flags(paths.drop_last(), a, b);
    }
}

/// A runner looks at the steps in their order, and at no more of them than it has to: those at which it has
/// looked are as it finds them, and the others stay as they are stored.
pub proof fn law_steps_are_looked_at_in_order(
    steps: Seq<StepEntryView>,
    count: int,
    runner: Seq<char>,
    now: u64,
    i: int,
)
    requires
        0 <= i < steps.len(),
    ensures
        looked_at(steps, count, runner, now).len() == steps.len(),
        i >= count ==> looked_at(steps, count, runner, now)[i] == steps[i],
        i < count ==> looked_at(steps, count, runner, now)[i].0 == steps[i].0 && (steps[i].1 is Err
            ==> looked_at(steps, count, runner, now)[i] == steps[i]) && (steps[i].1 matches Ok(step)
            ==> looked_at(steps, count, runner, now)[i].1 == Ok::<StepView, Seq<char>>(
            recovered(step, runner, now),
        )),
{
}

/// A request that ends at a step, because this has the key or cannot be read, leaves the steps behind it as they
/// are stored.
pub proof fn law_steps_behind_the_search_stay(
    steps: Seq<StepEntryView>,
    args: WorkflowStepArgs,
    session_id: Seq<char>,
    runner: Seq<char>,
    missing: Seq<Seq<char>>,
    now: u64,
    launch_at: u64,
    place: int,
    behind: int,
)
    requires
        0 <= place < behind < steps.len(),
        forall|j: int|
            0 <= j < place ==> (#[trigger] steps[j]).1 is Ok && steps[j].1->Ok_0.idempotency_key
                != args.idempotency_key@,
        steps[place].1 is Err || steps[place].1->Ok_0.idempotency_key == args.idempotency_key@,
    ensures
        reserved(steps, args, session_id, runner, missing, now, launch_at).1[behind] == steps[behind],
{
    let key = args.idempotency_key@;
    assert forall|j: int| 0 <= j < place implies !ends_search(#[trigger] steps[j], key) by {
        assert(steps[j].1 is Ok);
    }
    lemma_search_end_at(steps, key, place);
}

} // verus!
