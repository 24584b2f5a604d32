//! How a command and the processes that it started are watched and brought to their end.
//!
//! A command runs in a process group of its own. Once it has exited, or once something asks for
//! its end, the group is asked to terminate, is given a grace period, and is killed if any of it
//! remains. A command has ended only once its group was seen to be empty; where a killed group does
//! not become empty in time, that is a failure. The decisions are made here; waiting and signalling
//! are left to the caller.
use vstd::prelude::*;

use crate::sandbox::{graceful_termination, willing_end, StopTrigger, Termination};

verus! {

/// What is told where a killed process group still has members after the grace period.
pub const REMAINING_PROCESSES: &'static str = "process group still has active processes after termination";

/// What is to be done next.
#[derive(Clone, Copy, Debug, PartialEq, Eq, Structural)]
pub enum Step {
    /// Wait until the command exits or a trigger comes.
    AwaitExitOrTrigger,
    /// Ask the process group to terminate.
    AskGroup,
    /// Wait for the command to exit, for the grace period.
    AwaitExit,
    /// Kill the process group.
    KillGroup,
    /// Kill the command itself and wait until it has exited.
    Reap,
    /// See whether the process group has members.
    ProbeGroup,
    /// Wait for the process group to lose its last member, for the grace period.
    AwaitGroupExit,
    /// Nothing: the command has ended so.
    Finish(Termination),
    /// Nothing: the process group was killed and still has members, which is to be told as a failure.
    Fail,
}

/// What came of a step.
#[derive(Clone, Copy, Debug, PartialEq, Eq, Structural)]
pub enum Event {
    Exited(i32),
    Triggered(StopTrigger),
    Asked,
    Killed,
    GroupGone,
    GraceElapsed,
}

#[derive(Clone, Copy, Debug, PartialEq, Eq, Structural)]
pub enum Stage {
    Watching,
    Asking,
    AwaitingExit,
    Killing,
    Reaping,
    Probing,
    AwaitingGroup,
    Finished,
    Failed,
}

/// How far the end of a command has come.
#[derive(Clone, Copy, Debug, PartialEq, Eq, Structural)]
pub struct Supervision {
    pub stage: Stage,
    /// Why the command ends; completion until something else asked for it.
    pub trigger: StopTrigger,
    /// The status with which the command exited.
    pub status: Option<i32>,
    /// Whether the process group was asked to terminate.
    pub asked: bool,
    /// Whether the process group was killed.
    pub killed: bool,
    /// Whether the process group was seen to have no members after the command had exited.
    pub emptied: bool,
}

impl Supervision {
    pub open spec fn start() -> Supervision {
        Supervision {
            stage: Stage::Watching,
            trigger: StopTrigger::Completion,
            status: None,
            asked: false,
            killed: false,
            emptied: false,
        }
    }

    /// What every supervision keeps to.
    pub open spec fn well_formed(self) -> bool {
        &&& self.killed ==> self.asked
        &&& self.emptied <==> self.stage is Finished
        &&& match self.stage {
            Stage::Watching => self == Supervision::start(),
            Stage::Asking => !self.asked && (self.status is Some ==> self.trigger
                == StopTrigger::Completion),
            Stage::AwaitingExit => self.asked && !self.killed && self.status is None,
            Stage::Killing => self.asked && !self.killed,
            Stage::Reaping => self.killed && self.status is None,
            Stage::Probing => !self.killed && self.status is Some && (!self.asked ==> self.trigger
                == StopTrigger::Completion),
            Stage::AwaitingGroup => self.asked && self.status is Some,
            Stage::Finished => self.status is Some,
            Stage::Failed => self.killed && self.status is Some,
        }
    }

    /// How the command ended, or ends if nothing more has to be done.
    pub open spec fn end(self) -> Termination {
        if self.killed {
            Termination::ForcedKill(self.trigger)
        } else {
            willing_end(self.trigger)
        }
    }

    pub open spec fn next_step(self) -> Step {
        match self.stage {
            Stage::Watching => Step::AwaitExitOrTrigger,
            Stage::Asking => Step::AskGroup,
            Stage::AwaitingExit => Step::AwaitExit,
            Stage::Killing => Step::KillGroup,
            Stage::Reaping => Step::Reap,
            Stage::Probing => Step::ProbeGroup,
            Stage::AwaitingGroup => Step::AwaitGroupExit,
            Stage::Finished => Step::Finish(self.end()),
            Stage::Failed => Step::Fail,
        }
    }

    /// Where an event leads. An event that no step of this stage can bring changes nothing.
    pub open spec fn after(self, event: Event) -> Supervision {
        match (self.stage, event) {
            (Stage::Watching, Event::Exited(status)) => Supervision {
                stage: Stage::Probing,
                status: Some(status),
                ..self
            },
            (Stage::Watching, Event::Triggered(trigger)) => Supervision {
                stage: Stage::Asking,
                trigger,
                ..self
            },
            (Stage::Asking, Event::Asked) => Supervision {
                stage: if self.status is None {
                    Stage::AwaitingExit
                } else {
                    Stage::AwaitingGroup
                },
                asked: true,
                ..self
            },
            (Stage::AwaitingExit, Event::Exited(status)) => Supervision {
                stage: Stage::Probing,
                status: Some(status),
                ..self
            },
            (Stage::AwaitingExit, Event::GraceElapsed) => Supervision { stage: Stage::Killing, ..self },
            (Stage::Killing, Event::Killed) => Supervision {
                stage: if self.status is None {
                    Stage::Reaping
                } else {
                    Stage::AwaitingGroup
                },
                killed: true,
                ..self
            },
            (Stage::Reaping, Event::Exited(status)) => Supervision {
                stage: Stage::AwaitingGroup,
                status: Some(status),
                ..self
            },
            (Stage::Probing, Event::GroupGone) => Supervision {
                stage: Stage::Finished,
                emptied: true,
                ..self
            },
            (Stage::Probing, Event::GraceElapsed) => Supervision {
                stage: if self.asked {
                    Stage::AwaitingGroup
                } else {
                    Stage::Asking
                },
                ..self
            },
            (Stage::AwaitingGroup, Event::GroupGone) => Supervision {
                stage: Stage::Finished,
                emptied: true,
                ..self
            },
            (Stage::AwaitingGroup, Event::GraceElapsed) => Supervision {
                stage: if self.killed {
                    Stage::Failed
                } else {
                    Stage::Killing
                },
                ..self
            },
            _ => self,
        }
    }

    /// Where a sequence of events leads.
    pub open spec fn after_all(self, events: Seq<Event>) -> Supervision
        decreases events.len(),
    {
        if events.len() == 0 {
            self
        } else {
            self.after_all(events.drop_last()).after(events.last())
        }
    }

    /// How many events are left at most.
    pub open spec fn distance(self) -> nat {
        match self.stage {
            Stage::Watching => 9,
            Stage::Asking => if self.status is None {
                8
            } else {
                5
            },
            Stage::AwaitingExit => 7,
            Stage::Probing => 6,
            Stage::AwaitingGroup => if self.killed {
                1
            } else {
                4
            },
            Stage::Killing => 3,
            Stage::Reaping => 2,
            Stage::Finished => 0,
            Stage::Failed => 0,
        }
    }

    /// Whether the process group has to be killed if the supervision is given up now.
    pub open spec fn has_to_be_killed(self) -> bool {
        !(self.stage is Finished)
    }

    /// The supervision of a command that was just started.
    pub fn new() -> (supervision: Supervision)
        ensures
            supervision == Supervision::start(),
            supervision.well_formed(),
    {
        Supervision {
            stage: Stage::Watching,
            trigger: StopTrigger::Completion,
            status: None,
            asked: false,
            killed: false,
            emptied: false,
        }
    }

    /// What is to be done next.
    pub fn step(&self) -> (step: Step)
        ensures
            step == self.next_step(),
    {
        match self.stage {
            Stage::Watching => Step::AwaitExitOrTrigger,
            Stage::Asking => Step::AskGroup,
            Stage::AwaitingExit => Step::AwaitExit,
            Stage::Killing => Step::KillGroup,
            Stage::Reaping => Step::Reap,
            Stage::Probing => Step::ProbeGroup,
            Stage::AwaitingGroup => Step::AwaitGroupExit,
            Stage::Finished => Step::Finish(
                if self.killed {
                    Termination::ForcedKill(self.trigger)
                } else {
                    graceful_termination(self.trigger)
                },
            ),
            Stage::Failed => Step::Fail,
        }
    }

    /// Takes in what came of a step.
    pub fn advance(&mut self, event: Event)
        ensures
            *final(self) == old(self).after(event),
            old(self).well_formed() ==> final(self).well_formed(),
    {
        match (self.stage, event) {
            (Stage::Watching, Event::Exited(status)) => {
                self.status = Some(status);
                self.stage = Stage::Probing;
            },
            (Stage::Watching, Event::Triggered(trigger)) => {
                self.trigger = trigger;
                self.stage = Stage::Asking;
            },
            (Stage::Asking, Event::Asked) => {
                self.asked = true;
                self.stage = if self.status.is_none() {
                    Stage::AwaitingExit
                } else {
                    Stage::AwaitingGroup
                };
            },
            (Stage::AwaitingExit, Event::Exited(status)) => {
                self.status = Some(status);
                self.stage = Stage::Probing;
            },
            (Stage::AwaitingExit, Event::GraceElapsed) => {
                self.stage = Stage::Killing;
            },
            (Stage::Killing, Event::Killed) => {
                self.killed = true;
                self.stage = if self.status.is_none() {
                    Stage::Reaping
                } else {
                    Stage::AwaitingGroup
                };
            },
            (Stage::Reaping, Event::Exited(status)) => {
                self.status = Some(status);
                self.stage = Stage::AwaitingGroup;
            },
            (Stage::Probing, Event::GroupGone) => {
                self.emptied = true;
                self.stage = Stage::Finished;
            },
            (Stage::Probing, Event::GraceElapsed) => {
                self.stage = if self.asked {
                    Stage::AwaitingGroup
                } else {
                    Stage::Asking
                };
            },
            (Stage::AwaitingGroup, Event::GroupGone) => {
                self.emptied = true;
                self.stage = Stage::Finished;
            },
            (Stage::AwaitingGroup, Event::GraceElapsed) => {
                self.stage = if self.killed {
                    Stage::Failed
                } else {
                    Stage::Killing
                };
            },
            _ => {},
        }
    }

    /// Whether the process group has to be killed if the supervision is given up now.
    pub fn armed(&self) -> (armed: bool)
        ensures
            armed == self.has_to_be_killed(),
    {
        self.stage != Stage::Finished
    }
}

/// Whatever happens, a supervision keeps to its rules.
pub proof fn law_supervision_well_formed(events: Seq<Event>)
    ensures
        Supervision::start().after_all(events).well_formed(),
    decreases events.len(),
{
    if events.len() > 0 {
        law_supervision_well_formed(events.drop_last());
    }
}

/// When a supervision is finished, the command was reaped and its group was seen to be empty; its end
/// is a forced kill exactly if the group was killed, which only happens after it was asked to
/// terminate; and the end tells what asked for it.
pub proof fn law_finished_supervision(events: Seq<Event>)
    ensures
        ({
            let last = Supervision::start().after_all(events);
            last.stage is Finished ==> {
                &&& last.status is Some
                &&& last.emptied
                &&& last.end() is ForcedKill <==> last.killed
                &&& last.killed ==> last.asked
                &&& last.end() == Termination::ForcedKill(last.trigger) || last.end() == willing_end(
                    last.trigger,
                )
            }
        }),
{
    law_supervision_well_formed(events);
}

/// A command is told to have ended only after its group was seen to be empty: the last event that
/// changed anything said so.
pub proof fn law_ends_are_seen(supervision: Supervision, event: Event)
    requires
        supervision.well_formed(),
        !(supervision.stage is Finished),
        supervision.after(event).next_step() is Finish,
    ensures
        event == Event::GroupGone,
        supervision.stage is Probing || supervision.stage is AwaitingGroup,
{
}

/// A group that is killed and has members for longer than the grace period is a failure, and stays
/// one; it is never told as an end.
pub proof fn law_remaining_groups_are_failures(supervision: Supervision, events: Seq<Event>)
    requires
        supervision.well_formed(),
        supervision.stage is AwaitingGroup,
        supervision.killed,
    ensures
        supervision.after(Event::GraceElapsed).next_step() == Step::Fail,
        supervision.after(Event::GraceElapsed).after_all(events).next_step() == Step::Fail,
    decreases events.len(),
{
    if events.len() > 0 {
        law_remaining_groups_are_failures(supervision, events.drop_last());
    }
}

/// Each event that changes anything brings the end closer, so that a supervision ends after at
/// most nine of them.
pub proof fn law_supervision_ends(supervision: Supervision, event: Event)
    requires
        supervision.well_formed(),
    ensures
        supervision.after(event) == supervision || supervision.after(event).distance()
            < supervision.distance(),
        supervision.distance() <= 9,
        supervision.distance() == 0 <==> supervision.stage is Finished || supervision.stage is Failed,
{
}

/// A command that exits by itself and leaves nothing behind ends as exited, with its status.
pub proof fn law_clean_exit(status: i32)
    ensures
        ({
            let last = Supervision::start().after(Event::Exited(status)).after(Event::GroupGone);
            last.next_step() == Step::Finish(Termination::Exited) && last.status == Some(status)
        }),
{
}

/// A trigger that the group obeys within the grace period ends in the way of that trigger; a group
/// that does not obey is killed, and the end says so and why.
pub proof fn law_triggered_end(trigger: StopTrigger, status: i32)
    ensures
        ({
            let asked = Supervision::start().after(Event::Triggered(trigger)).after(Event::Asked);
            &&& asked.after(Event::Exited(status)).after(Event::GroupGone).next_step()
                == Step::Finish(willing_end(trigger))
            &&& asked.after(Event::GraceElapsed).after(Event::Killed).after(
                Event::Exited(status),
            ).after(Event::GroupGone).next_step() == Step::Finish(Termination::ForcedKill(trigger))
        }),
{
}

/// A process group is killed only after it was waited for: the command was given the grace period to
/// exit, or the group was given it to lose its last member, after it was asked to terminate.
pub proof fn law_groups_are_killed_only_after_a_wait(supervision: Supervision, event: Event)
    requires
        supervision.well_formed(),
        supervision.next_step() != Step::KillGroup,
        supervision.after(event).next_step() == Step::KillGroup,
    ensures
        event == Event::GraceElapsed,
        supervision.next_step() == Step::AwaitExit || supervision.next_step()
            == Step::AwaitGroupExit,
        supervision.asked,
        !supervision.killed,
{
}

/// A group is asked to terminate once at most, and killed once at most.
pub proof fn law_groups_are_asked_and_killed_once(supervision: Supervision, event: Event)
    requires
        supervision.well_formed(),
    ensures
        supervision.next_step() == Step::AskGroup ==> !supervision.asked,
        supervision.next_step() == Step::KillGroup ==> supervision.asked && !supervision.killed,
        supervision.asked ==> supervision.after(event).asked,
        supervision.killed ==> supervision.after(event).killed,
        supervision.after(event).asked && !supervision.asked ==> supervision.next_step()
            == Step::AskGroup && event == Event::Asked,
        supervision.after(event).killed && !supervision.killed ==> supervision.next_step()
            == Step::KillGroup && event == Event::Killed,
{
}

/// A command that exits by itself: where its group is empty, it has exited; where something of the group
/// remains, the group is asked to terminate and given the grace period, and is killed only after that.
pub proof fn law_what_a_command_leaves_behind_is_ended(status: i32)
    ensures
        ({
            let exited = Supervision::start().after(Event::Exited(status));
            let left = exited.after(Event::GraceElapsed);
            let asked = left.after(Event::Asked);
            let gone = asked.after(Event::GroupGone);
            let overdue = asked.after(Event::GraceElapsed);
            let killed = overdue.after(Event::Killed);
            &&& Supervision::start().next_step() == Step::AwaitExitOrTrigger
            &&& exited.next_step() == Step::ProbeGroup
            &&& exited.after(Event::GroupGone).next_step() == Step::Finish(Termination::Exited)
            &&& exited.after(Event::GroupGone).status == Some(status)
            &&& left.next_step() == Step::AskGroup
            &&& asked.next_step() == Step::AwaitGroupExit
            &&& gone.next_step() == Step::Finish(Termination::Exited)
            &&& gone.status == Some(status)
            &&& overdue.next_step() == Step::KillGroup
            &&& killed.next_step() == Step::AwaitGroupExit
            &&& killed.after(Event::GroupGone).next_step() == Step::Finish(
                Termination::ForcedKill(StopTrigger::Completion),
            )
            &&& killed.after(Event::GroupGone).status == Some(status)
            &&& killed.after(Event::GraceElapsed).next_step() == Step::Fail
        }),
{
}

/// A command that is asked to stop and exits within the grace period: what remains of its group is given
/// the grace period too; where the group becomes empty in it, the command has followed willingly, in the
/// way of what asked for it, and only where it does not, the group is killed.
pub proof fn law_obedient_commands_end_willingly(trigger: StopTrigger, status: i32)
    ensures
        ({
            let triggered = Supervision::start().after(Event::Triggered(trigger));
            let asked = triggered.after(Event::Asked);
            let exited = asked.after(Event::Exited(status));
            let left = exited.after(Event::GraceElapsed);
            let overdue = left.after(Event::GraceElapsed);
            let killed = overdue.after(Event::Killed);
            let willing = match trigger {
                StopTrigger::Requested => Termination::Stopped,
                StopTrigger::Timeout => Termination::TimedOut,
                StopTrigger::Cancellation => Termination::Cancelled,
                StopTrigger::Completion => Termination::Exited,
            };
            &&& triggered.next_step() == Step::AskGroup
            &&& asked.next_step() == Step::AwaitExit
            &&& exited.next_step() == Step::ProbeGroup
            &&& exited.after(Event::GroupGone).next_step() == Step::Finish(willing)
            &&& exited.after(Event::GroupGone).status == Some(status)
            &&& left.next_step() == Step::AwaitGroupExit
            &&& left.after(Event::GroupGone).next_step() == Step::Finish(willing)
            &&& left.after(Event::GroupGone).status == Some(status)
            &&& overdue.next_step() == Step::KillGroup
            &&& killed.next_step() == Step::AwaitGroupExit
            &&& killed.after(Event::GroupGone).next_step() == Step::Finish(
                Termination::ForcedKill(trigger),
            )
            &&& killed.after(Event::GroupGone).status == Some(status)
            &&& killed.after(Event::GraceElapsed).next_step() == Step::Fail
        }),
{
}

/// A command that is asked to stop and does not exit within the grace period is killed with its group,
/// and its end says so, with the status with which it was reaped.
pub proof fn law_disobedient_commands_are_killed(trigger: StopTrigger, status: i32)
    ensures
        ({
            let asked = Supervision::start().after(Event::Triggered(trigger)).after(Event::Asked);
            let overdue = asked.after(Event::GraceElapsed);
            let killed = overdue.after(Event::Killed);
            let reaped = killed.after(Event::Exited(status));
            &&& overdue.next_step() == Step::KillGroup
            &&& killed.next_step() == Step::Reap
            &&& reaped.next_step() == Step::AwaitGroupExit
            &&& reaped.after(Event::GroupGone).next_step() == Step::Finish(
                Termination::ForcedKill(trigger),
            )
            &&& reaped.after(Event::GroupGone).status == Some(status)
            &&& reaped.after(Event::GraceElapsed).next_step() == Step::Fail
        }),
{
}

/// What cannot come of the step that is being taken changes nothing: a second trigger does not take the
/// place of the first, and nothing changes an end.
pub proof fn law_unexpected_events_change_nothing(supervision: Supervision, event: Event)
    requires
        supervision.well_formed(),
        match supervision.next_step() {
            Step::AwaitExitOrTrigger => !(event is Exited) && !(event is Triggered),
            Step::AskGroup => event != Event::Asked,
            Step::AwaitExit => !(event is Exited) && event != Event::GraceElapsed,
            Step::KillGroup => event != Event::Killed,
            Step::Reap => !(event is Exited),
            Step::ProbeGroup => event != Event::GroupGone && event != Event::GraceElapsed,
            Step::AwaitGroupExit => event != Event::GroupGone && event != Event::GraceElapsed,
            Step::Finish(_) => true,
            Step::Fail => true,
        },
    ensures
        supervision.after(event) == supervision,
{
}

/// A supervision that is given up kills the process group unless the group was seen to be empty: before that
/// something of it may be left.
pub proof fn law_nothing_is_left_behind(supervision: Supervision)
    requires
        supervision.well_formed(),
    ensures
        supervision.has_to_be_killed() <==> !(supervision.next_step() is Finish),
        supervision.has_to_be_killed() <==> !supervision.emptied,
{
}

} // verus!
