//! Polling: what is synchronised in one round over a board, how a round is
//! summed up, and when a monitor stops.

use vstd::prelude::*;
use crate::api::{catalogue_ids, thread_ids, Catalogue};
use crate::error::SyncError;
use crate::sync::SyncSummary;

verus! {

/// What a monitor watches: all threads of a board, or one thread.
#[derive(Clone, Copy, Debug, PartialEq, Eq, Structural)]
pub enum Scope {
    Board,
    Thread,
}

/// Whether a monitor goes on.
#[derive(Clone, Copy, Debug, PartialEq, Eq, Structural)]
pub enum MonitorState {
    Polling,
    Stopped,
}

/// What a monitor does after a round.
#[derive(Clone, Copy, Debug, PartialEq, Eq, Structural)]
pub enum MonitorAction {
    /// Wait for the interval, then synchronise again.
    Wait,
    /// End the monitoring.
    Stop,
}

/// The state of a monitor after a round. A monitor of one thread stops the
/// first time a round fails; a monitor of a board goes on whatever
/// happens; a monitor that has stopped stays so.
pub open spec fn after_round(scope: Scope, state: MonitorState, success: bool) -> MonitorState {
    if state == MonitorState::Stopped || (scope == Scope::Thread && !success) {
        MonitorState::Stopped
    } else {
        MonitorState::Polling
    }
}

/// Decides, after a round that succeeded or failed, whether the monitor
/// goes on.
pub fn monitor_step(scope: Scope, state: MonitorState, success: bool) -> (r: (
    MonitorState,
    MonitorAction,
))
    ensures
        r.0 == after_round(scope, state, success),
        r.1 == if r.0 == MonitorState::Polling {
            MonitorAction::Wait
        } else {
            MonitorAction::Stop
        },
{
    if state == MonitorState::Stopped || (scope == Scope::Thread && !success) {
        (MonitorState::Stopped, MonitorAction::Stop)
    } else {
        (MonitorState::Polling, MonitorAction::Wait)
    }
}

/// The threads to synchronise in a round over a board: those that the
/// catalogue lists, in its order. Without a catalogue the round fails.
pub fn board_round(catalogue: Option<Catalogue>) -> (r: Result<Vec<u64>, SyncError>)
    ensures
        match r {
            Ok(ids) => catalogue matches Some(c) && ids@ == catalogue_ids(c.threads@),
            Err(e) => catalogue is None && e == SyncError::FetchError,
        },
{
    match catalogue {
        Some(c) => Ok(thread_ids(&c)),
        None => Err(SyncError::FetchError),
    }
}

/// How a round over a board ended: how many threads were synchronised and
/// how many failed.
#[derive(Clone, Copy, Debug, PartialEq, Eq, Structural)]
pub struct BoardReport {
    pub synced: usize,
    pub failed: usize,
}

/// Whether the synchronisation of a thread came to a good end. One that
/// failed did not, and neither did one that never reported: its outcome is
/// `None`.
pub open spec fn succeeded(outcome: Option<Result<SyncSummary, SyncError>>) -> bool {
    outcome matches Some(Ok(_))
}

/// How many of the threads did not come to a good end.
pub open spec fn failures(outcomes: Seq<Option<Result<SyncSummary, SyncError>>>) -> nat
    decreases outcomes.len(),
{
    if outcomes.len() == 0 {
        0
    } else {
        failures(outcomes.drop_last()) + if succeeded(outcomes.last()) {
            0nat
        } else {
            1nat
        }
    }
}

/// Sums up a round over a board from the outcome of each thread; `None`
/// stands for a thread whose synchronisation never reported. A thread that
/// failed takes nothing from the others: each thread is counted once.
pub fn board_report(outcomes: &Vec<Option<Result<SyncSummary, SyncError>>>) -> (report: BoardReport)
    ensures
        report.failed == failures(outcomes@),
        report.synced == outcomes@.len() - failures(outcomes@),
{
    let mut synced: usize = 0;
    let mut failed: usize = 0;
    let mut i: usize = 0;
    while i < outcomes.len()
        invariant
            i <= outcomes.len(),
            failed == failures(outcomes@.take(i as int)),
            synced + failed == i,
        decreases outcomes.len() - i,
    {
        proof {
            assert(outcomes@.take(i + 1).drop_last() == outcomes@.take(i as int));
        }
        match outcomes[i] {
            Some(Ok(_)) => {
                synced += 1;
            },
            _ => {
                failed += 1;
            },
        }
        i += 1;
    }
    proof {
        assert(outcomes@.take(outcomes.len() as int) == outcomes@);
    }
    BoardReport { synced, failed }
}

} // verus!
