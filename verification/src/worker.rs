//! The worker pool's per-item logic: claim an item, spend the configured
//! latency on it, and publish it finished — or report it as failed, never
//! dropping it silently.

use vstd::prelude::*;
use crate::order::{Item, ItemState};

verus! {

/// The simulated per-item processing latency, injected as plain data:
/// either a fixed delay or a bounded random range, in milliseconds.
#[derive(Clone, Copy, PartialEq, Eq, Structural, Debug)]
pub enum Latency {
    Fixed(u64),
    Between(u64, u64),
}

impl Latency {
    /// The range is not inverted.
    pub open spec fn wf(self) -> bool {
        match self {
            Latency::Fixed(_) => true,
            Latency::Between(lo, hi) => lo <= hi,
        }
    }

    /// The delay to spend on one item, resolved from an arbitrary roll
    /// (supplied by the caller's randomness, if any): always within bounds.
    pub fn delay_ms(self, roll: u64) -> (d: u64)
        requires
            self.wf(),
        ensures
            match self {
                Latency::Fixed(ms) => d == ms,
                Latency::Between(lo, hi) => lo <= d <= hi,
            },
    {
        match self {
            Latency::Fixed(ms) => ms,
            Latency::Between(lo, hi) => {
                if lo == 0 && hi == u64::MAX {
                    roll
                } else {
                    lo + roll % (hi - lo + 1)
                }
            },
        }
    }
}

/// Claim an item off the work queue: it moves to `InProgress`, keeping its
/// name and owner.  The queue's hand-off is exclusive, so no other worker
/// holds this instance.
pub fn claim_item(item: Item) -> (r: Item)
    requires
        item.state == ItemState::Pending,
    ensures
        r.name@ == item.name@,
        r.owner_id == item.owner_id,
        r.state == ItemState::InProgress,
{
    Item { name: item.name, owner_id: item.owner_id, state: ItemState::InProgress }
}

/// Finish a claimed item: it becomes `Done` and immutable, keeping its name
/// and owner.
pub fn finish_item(item: Item) -> (r: Item)
    requires
        item.state == ItemState::InProgress,
    ensures
        r.name@ == item.name@,
        r.owner_id == item.owner_id,
        r.state == ItemState::Done,
{
    Item { name: item.name, owner_id: item.owner_id, state: ItemState::Done }
}

/// What a worker saw on the shared work queue: one more item to process, or
/// the queue closed and drained.
pub enum WorkerEvent {
    Claimed(Item),
    QueueClosed,
}

/// What the worker does next.
pub enum WorkerAction {
    /// Publish this finished item onto the completion stream.
    Publish(Item),
    /// Processing could not be completed: report the item as failed rather
    /// than letting it vanish.
    ReportFailed(Item),
    /// Queue closed and drained: exit cleanly.
    Exit,
}

/// One reaction of a worker.  `completed` tells whether the simulated
/// processing succeeded; either way the item leaves the worker observably,
/// with its name and owner intact.
pub fn worker_step(event: WorkerEvent, completed: bool) -> (a: WorkerAction)
    requires
        event matches WorkerEvent::Claimed(it) ==> it.state == ItemState::Pending,
    ensures
        match event {
            WorkerEvent::Claimed(it) => {
                if completed {
                    a matches WorkerAction::Publish(done) && done.name@ == it.name@
                        && done.owner_id == it.owner_id && done.state == ItemState::Done
                } else {
                    a matches WorkerAction::ReportFailed(fl) && fl.name@ == it.name@
                        && fl.owner_id == it.owner_id
                }
            },
            WorkerEvent::QueueClosed => a == WorkerAction::Exit,
        },
{
    match event {
        WorkerEvent::Claimed(it) => {
            let started = claim_item(it);
            if completed {
                WorkerAction::Publish(finish_item(started))
            } else {
                WorkerAction::ReportFailed(started)
            }
        },
        WorkerEvent::QueueClosed => WorkerAction::Exit,
    }
}

} // verus!
