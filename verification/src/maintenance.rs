//! Idle retention: its own owner, independent of job permits, as a machine from events to
//! actions.

use vstd::prelude::*;
use crate::ids::{is_random_uuid, RunId};
use crate::runner::{longer_pause, next_pause, pause_after, LONGEST_PAUSE};

verus! {

/// Where the owner of an idle maintenance stands.
#[derive(Debug, Clone, Copy, PartialEq, Eq, Structural)]
pub enum Upkeep {
    /// Before the first attempt.
    Waiting,
    /// Retention is being applied; whether it is late.
    Pruning { late: bool, pause: u64 },
    /// A pause before the next attempt.
    Pausing { pause: u64 },
    /// Nothing is left to do.
    Ended,
}

/// What happens to an idle maintenance.
#[derive(Debug, Clone, Copy, PartialEq, Eq, Structural)]
pub enum UpkeepEvent {
    Begun,
    /// The attempt takes too long.
    Timeout,
    /// Whether retention was applied.
    Pruned(bool),
    /// A pause is over.
    Woken,
}

/// What the owner of an idle maintenance does.
#[derive(Debug, Clone, Copy, PartialEq, Eq, Structural)]
pub enum UpkeepAction {
    Prune,
    /// Tell the service of a fault of the journal.
    Fault,
    /// Pause for some seconds.
    Pause(u64),
    /// Tell the service that the maintenance ended.
    Done,
}

/// The owner of one idle maintenance.
#[derive(Debug, Clone, Copy, PartialEq, Eq, Structural)]
pub struct Maintenance {
    /// The name under which faults are told of.
    pub id: RunId,
    pub phase: Upkeep,
}

/// What an idle maintenance makes of an event.
pub open spec fn kept_up(phase: Upkeep, event: UpkeepEvent) -> (Upkeep, Seq<UpkeepAction>) {
    match (phase, event) {
        (Upkeep::Waiting, UpkeepEvent::Begun) => (
            Upkeep::Pruning { late: false, pause: 1 },
            seq![UpkeepAction::Prune],
        ),
        (Upkeep::Pruning { late, pause }, UpkeepEvent::Timeout) => if late {
            (phase, Seq::empty())
        } else {
            (Upkeep::Pruning { late: true, pause }, seq![UpkeepAction::Fault])
        },
        (Upkeep::Pruning { pause, .. }, UpkeepEvent::Pruned(ok)) => if ok {
            (Upkeep::Ended, seq![UpkeepAction::Done])
        } else {
            (
                Upkeep::Pausing { pause },
                seq![UpkeepAction::Fault, UpkeepAction::Pause(pause)],
            )
        },
        (Upkeep::Pausing { pause }, UpkeepEvent::Woken) => (
            Upkeep::Pruning { late: false, pause: longer_pause(pause) },
            seq![UpkeepAction::Prune],
        ),
        _ => (phase, Seq::empty()),
    }
}

impl Maintenance {
    /// Whether pauses are within bounds.
    pub open spec fn wf(&self) -> bool {
        match self.phase {
            Upkeep::Pruning { pause, .. } => pause <= LONGEST_PAUSE,
            Upkeep::Pausing { pause } => pause <= LONGEST_PAUSE,
            _ => true,
        }
    }

    /// A maintenance under a fresh random name.
    pub fn new() -> (upkeep: Self)
        ensures
            upkeep.wf(),
            upkeep.phase == Upkeep::Waiting,
            is_random_uuid(upkeep.id@),
    {
        Maintenance { id: RunId::new_v4(), phase: Upkeep::Waiting }
    }

    /// Acts on an event.
    pub fn step(&mut self, event: UpkeepEvent) -> (actions: Vec<UpkeepAction>)
        requires
            old(self).wf(),
        ensures
            final(self).wf(),
            final(self).id == old(self).id,
            (final(self).phase, actions@) == kept_up(old(self).phase, event),
    {
        let mut actions: Vec<UpkeepAction> = Vec::new();
        match (self.phase, event) {
            (Upkeep::Waiting, UpkeepEvent::Begun) => {
                self.phase = Upkeep::Pruning { late: false, pause: 1 };
                actions.push(UpkeepAction::Prune);
            },
            (Upkeep::Pruning { late, pause }, UpkeepEvent::Timeout) => {
                if !late {
                    self.phase = Upkeep::Pruning { late: true, pause };
                    actions.push(UpkeepAction::Fault);
                }
            },
            (Upkeep::Pruning { pause, .. }, UpkeepEvent::Pruned(ok)) => {
                if ok {
                    self.phase = Upkeep::Ended;
                    actions.push(UpkeepAction::Done);
                } else {
                    self.phase = Upkeep::Pausing { pause };
                    actions.push(UpkeepAction::Fault);
                    actions.push(UpkeepAction::Pause(pause));
                }
            },
            (Upkeep::Pausing { pause }, UpkeepEvent::Woken) => {
                self.phase = Upkeep::Pruning { late: false, pause: next_pause(pause) };
                actions.push(UpkeepAction::Prune);
            },
            _ => {},
        }
        assert(actions@ =~= kept_up(old(self).phase, event).1);
        actions
    }
}

/// After the `n`-th failed attempt, a maintenance tells of a fault, pauses for the `n`-th pause,
/// and tries again.
pub proof fn failed_upkeep_backs_off(late: bool, n: nat)
    ensures
        ({
            let failed = kept_up(
                Upkeep::Pruning { late, pause: pause_after(n) },
                UpkeepEvent::Pruned(false),
            );
            let again = kept_up(failed.0, UpkeepEvent::Woken);
            &&& failed.1 == seq![UpkeepAction::Fault, UpkeepAction::Pause(pause_after(n))]
            &&& again == (
                Upkeep::Pruning { late: false, pause: pause_after(n + 1) },
                seq![UpkeepAction::Prune],
            )
        }),
{
    assert(pause_after(n + 1) == longer_pause(pause_after(n)));
}

} // verus!
