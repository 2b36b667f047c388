//! The customer agent: places one order, collects its items incrementally as
//! the router delivers them, and terminates once the order is complete.

use vstd::prelude::*;
use vstd::multiset::Multiset;
use crate::order::{item_names, string_views, Item, ItemState, Order};
use crate::tally::{owned_names, lemma_owned_names_concat};

verus! {

/// The agent's life cycle.
#[derive(Clone, Copy, PartialEq, Eq, Structural, Debug)]
pub enum Phase {
    Ordering,
    Waiting,
    Collecting,
    Done,
}

/// What the phase must be, given how far the agent has come: not yet
/// submitted, submitted with nothing received, partially served, or complete.
pub open spec fn phase_of(submitted: bool, received: nat, ordered: nat) -> Phase {
    if !submitted {
        Phase::Ordering
    } else if received >= ordered {
        Phase::Done
    } else if received == 0 {
        Phase::Waiting
    } else {
        Phase::Collecting
    }
}

/// One customer: its stable identifier, what it ordered, and what it has
/// received so far.
pub struct CustomerAgent {
    pub id: usize,
    pub ordered: Vec<String>,
    pub received: Vec<Item>,
    pub submitted: bool,
    pub phase: Phase,
}

impl CustomerAgent {
    /// The names the customer asked for, as a multiset.
    pub open spec fn ordered_ms(self) -> Multiset<Seq<char>> {
        string_views(self.ordered@).to_multiset()
    }

    /// The names the customer has received, as a multiset.
    pub open spec fn received_ms(self) -> Multiset<Seq<char>> {
        owned_names(self.received@, self.id as int)
    }

    /// Received items are finished and the agent's own; the phase follows the
    /// counters; nothing is ordered or received before submission.
    pub open spec fn wf(self) -> bool {
        &&& forall|k: int|
            0 <= k < self.received@.len() ==> (#[trigger] self.received@[k]).owner_id == self.id
                && self.received@[k].state == ItemState::Done
        &&& self.phase == phase_of(self.submitted, self.received@.len(), self.ordered@.len())
        &&& !self.submitted ==> self.ordered@.len() == 0 && self.received@.len() == 0
    }

    /// A fresh agent that has not ordered yet.
    pub fn new(id: usize) -> (r: CustomerAgent)
        ensures
            r.wf(),
            r.id == id,
            r.phase == Phase::Ordering,
            !r.submitted,
            r.ordered@.len() == 0,
            r.received@.len() == 0,
    {
        CustomerAgent {
            id,
            ordered: Vec::new(),
            received: Vec::new(),
            submitted: false,
            phase: Phase::Ordering,
        }
    }

    /// Construct the order for the given names, remember them, and move on:
    /// an order of zero items is complete at once, any other order starts the
    /// wait.
    pub fn place_order(&mut self, names: Vec<String>) -> (order: Order)
        requires
            old(self).wf(),
            !old(self).submitted,
        ensures
            final(self).wf(),
            final(self).id == old(self).id,
            final(self).submitted,
            final(self).received@.len() == 0,
            final(self).ordered@ == names@,
            final(self).phase == if names@.len() == 0 {
                Phase::Done
            } else {
                Phase::Waiting
            },
            order.wf(),
            order.owner_id == old(self).id,
            order.items@.len() == names@.len(),
            owned_names(order.items@, old(self).id as int) == final(self).ordered_ms(),
    {
        let order = Order::new(self.id, &names);
        self.ordered = names;
        self.submitted = true;
        self.phase = if self.ordered.len() == 0 {
            Phase::Done
        } else {
            Phase::Waiting
        };
        proof {
            crate::tally::lemma_owned_names_all(order.items@, self.id as int);
            assert forall|i: int|
                0 <= i < self.ordered@.len() implies item_names(order.items@)[i] == string_views(
                self.ordered@,
            )[i] by {
                assert(order.spec_names()[i] == self.ordered@[i]@);
            }
            assert(item_names(order.items@) =~= string_views(self.ordered@));
        }
        order
    }

    /// Fold a batch of delivered items into the agent's hands.  The received
    /// tally grows by exactly the batch and the phase advances by the rule
    /// above; everything else stands.
    pub fn receive(&mut self, items: Vec<Item>) -> (got: usize)
        requires
            old(self).wf(),
            old(self).submitted,
            forall|k: int|
                0 <= k < items@.len() ==> (#[trigger] items@[k]).owner_id == old(self).id
                    && items@[k].state == ItemState::Done,
        ensures
            final(self).wf(),
            got == items@.len(),
            final(self).id == old(self).id,
            final(self).submitted,
            final(self).ordered@ == old(self).ordered@,
            final(self).received@ == old(self).received@ + items@,
            final(self).received_ms() == old(self).received_ms().add(
                owned_names(items@, old(self).id as int),
            ),
            final(self).phase == phase_of(
                true,
                old(self).received@.len() + items@.len(),
                old(self).ordered@.len(),
            ),
    {
        let got = items.len();
        let ghost r0 = self.received@;
        let ghost batch = items@;
        let mut batch_vec = items;
        self.received.append(&mut batch_vec);
        self.phase = if self.received.len() >= self.ordered.len() {
            Phase::Done
        } else if self.received.len() == 0 {
            Phase::Waiting
        } else {
            Phase::Collecting
        };
        proof {
            lemma_owned_names_concat(r0, batch, self.id as int);
        }
        got
    }

    /// Whether the agent has reached its terminal phase.
    pub fn is_done(&self) -> (b: bool)
        ensures
            b <==> self.phase == Phase::Done,
    {
        matches!(self.phase, Phase::Done)
    }

    /// How many items are still owed to this customer.
    pub fn outstanding(&self) -> (r: usize)
        ensures
            r == if self.ordered@.len() >= self.received@.len() {
                self.ordered@.len() - self.received@.len()
            } else {
                0
            },
    {
        if self.ordered.len() >= self.received.len() {
            self.ordered.len() - self.received.len()
        } else {
            0
        }
    }

    /// The names received so far, in arrival order: the per-customer
    /// completion report.
    pub fn report(&self) -> (r: Vec<String>)
        ensures
            r@.len() == self.received@.len(),
            forall|k: int| 0 <= k < r@.len() ==> r@[k]@ == self.received@[k].name@,
    {
        let mut r: Vec<String> = Vec::new();
        let mut k: usize = 0;
        while k < self.received.len()
            invariant
                k <= self.received@.len(),
                r@.len() == k,
                forall|i: int| 0 <= i < k ==> r@[i]@ == self.received@[i].name@,
            decreases self.received@.len() - k,
        {
            r.push(self.received[k].name.clone());
            k += 1;
        }
        r
    }
}

/// Whether a waiting customer should stop polling: after `budget` polls that
/// brought nothing, the bounded wait ends in an explicit failure indication
/// instead of waiting forever.
pub fn give_up_waiting(empty_polls: u64, budget: u64) -> (give_up: bool)
    ensures
        give_up <==> empty_polls >= budget,
{
    empty_polls >= budget
}

} // verus!
