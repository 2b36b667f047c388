//! The completion router: demultiplexes the single stream of finished items
//! into per-customer delivery queues, without ever placing an item in a queue
//! whose owner differs from the item's owner.

use vstd::prelude::*;
use vstd::multiset::Multiset;
use crate::order::{Item, ItemState};
use crate::tally::{owned_names, lemma_owned_names_push, lemma_owned_names_none};

verus! {

/// A structural violation surfaced by the router: an item arrived whose owner
/// was never registered, or a customer was addressed that has no queue.
#[derive(Clone, Copy, PartialEq, Eq, Structural, Debug)]
pub enum RouteError {
    UnknownOwner,
}

/// One customer's holding area for finished items, owned by the router until
/// the customer collects.
pub struct DeliveryQueue {
    pub owner_id: usize,
    pub items: Vec<Item>,
}

impl DeliveryQueue {
    /// Everything in the queue is finished and belongs to the queue's owner.
    pub open spec fn wf(self) -> bool {
        forall|k: int|
            0 <= k < self.items@.len() ==> (#[trigger] self.items@[k]).owner_id == self.owner_id
                && self.items@[k].state == ItemState::Done
    }
}

/// The names held for customer `id` by one queue.
pub open spec fn queue_names(q: DeliveryQueue, id: int) -> Multiset<Seq<char>> {
    if q.owner_id == id {
        owned_names(q.items@, id)
    } else {
        Multiset::empty()
    }
}

/// The names held for customer `id` across all queues.
pub open spec fn router_names(qs: Seq<DeliveryQueue>, id: int) -> Multiset<Seq<char>>
    decreases qs.len(),
{
    if qs.len() == 0 {
        Multiset::empty()
    } else {
        router_names(qs.drop_last(), id).add(queue_names(qs.last(), id))
    }
}

/// Replacing one queue exchanges exactly that queue's contribution.
pub proof fn lemma_router_names_update(qs: Seq<DeliveryQueue>, j: int, q2: DeliveryQueue, id: int)
    requires
        0 <= j < qs.len(),
    ensures
        router_names(qs.update(j, q2), id).add(queue_names(qs[j], id)) == router_names(
            qs,
            id,
        ).add(queue_names(q2, id)),
    decreases qs.len(),
{
    broadcast use vstd::multiset::group_multiset_axioms;

    if j == qs.len() - 1 {
        assert(qs.update(j, q2).drop_last() =~= qs.drop_last());
        assert(qs.update(j, q2).last() == q2);
        assert(router_names(qs.drop_last(), id).add(queue_names(q2, id)).add(
            queue_names(qs[j], id),
        ) =~= router_names(qs.drop_last(), id).add(queue_names(qs.last(), id)).add(
            queue_names(q2, id),
        ));
    } else {
        let t = qs.drop_last();
        lemma_router_names_update(t, j, q2, id);
        assert(qs.update(j, q2).drop_last() =~= t.update(j, q2));
        assert(qs.update(j, q2).last() == qs.last());
        assert(t[j] == qs[j]);
        assert(router_names(t.update(j, q2), id).add(queue_names(qs.last(), id)).add(
            queue_names(qs[j], id),
        ) =~= router_names(t.update(j, q2), id).add(queue_names(t[j], id)).add(
            queue_names(qs.last(), id),
        ));
        assert(router_names(t, id).add(queue_names(q2, id)).add(queue_names(qs.last(), id))
            =~= router_names(t, id).add(queue_names(qs.last(), id)).add(queue_names(q2, id)));
    }
}

/// A freshly pushed queue contributes its own names only.
pub proof fn lemma_router_names_grow(qs: Seq<DeliveryQueue>, q: DeliveryQueue, id: int)
    ensures
        router_names(qs.push(q), id) == router_names(qs, id).add(queue_names(q, id)),
{
    assert(qs.push(q).drop_last() =~= qs);
    assert(qs.push(q).last() == q);
}

/// Dropping a queue that holds nothing changes no tally.
pub proof fn lemma_router_names_drop_empty(qs: Seq<DeliveryQueue>, j: int, id: int)
    requires
        0 <= j < qs.len(),
        qs[j].items@.len() == 0,
    ensures
        router_names(qs.remove(j), id) == router_names(qs, id),
    decreases qs.len(),
{
    broadcast use vstd::multiset::group_multiset_axioms;

    assert(queue_names(qs[j], id) =~= Multiset::<Seq<char>>::empty());
    if j == qs.len() - 1 {
        assert(qs.remove(j) =~= qs.drop_last());
        assert(router_names(qs.drop_last(), id).add(queue_names(qs.last(), id)) =~= router_names(
            qs.drop_last(),
            id,
        ));
    } else {
        let t = qs.drop_last();
        lemma_router_names_drop_empty(t, j, id);
        assert(qs.remove(j).drop_last() =~= t.remove(j));
        assert(qs.remove(j).last() == qs.last());
    }
}

/// Customers with no queue have an empty tally.
pub proof fn lemma_router_names_unregistered(qs: Seq<DeliveryQueue>, id: int)
    requires
        forall|j: int| 0 <= j < qs.len() ==> (#[trigger] qs[j]).owner_id != id,
    ensures
        router_names(qs, id) == Multiset::<Seq<char>>::empty(),
    decreases qs.len(),
{
    broadcast use vstd::multiset::group_multiset_axioms;

    if qs.len() > 0 {
        assert(forall|j: int|
            0 <= j < qs.drop_last().len() ==> (#[trigger] qs.drop_last()[j]).owner_id != id);
        lemma_router_names_unregistered(qs.drop_last(), id);
        assert(router_names(qs, id) =~= Multiset::<Seq<char>>::empty());
    }
}

/// With owners pairwise distinct, the whole tally for `id` is the one queue
/// with owner `id`.
pub proof fn lemma_router_names_single(qs: Seq<DeliveryQueue>, j: int, id: int)
    requires
        0 <= j < qs.len(),
        qs[j].owner_id == id,
        forall|k: int| 0 <= k < qs.len() && k != j ==> (#[trigger] qs[k]).owner_id != id,
    ensures
        router_names(qs, id) == owned_names(qs[j].items@, id),
    decreases qs.len(),
{
    broadcast use vstd::multiset::group_multiset_axioms;

    let t = qs.drop_last();
    if j == qs.len() - 1 {
        assert(forall|k: int| 0 <= k < t.len() ==> (#[trigger] t[k]).owner_id != id);
        lemma_router_names_unregistered(t, id);
        assert(router_names(qs, id) =~= owned_names(qs[j].items@, id));
    } else {
        assert(t[j] == qs[j]);
        lemma_router_names_single(t, j, id);
        assert(queue_names(qs.last(), id) =~= Multiset::<Seq<char>>::empty());
        assert(router_names(qs, id) =~= owned_names(qs[j].items@, id));
    }
}

/// The completion router's state: one delivery queue per registered customer.
pub struct Router {
    pub queues: Vec<DeliveryQueue>,
}

impl Router {
    /// Queue owners are pairwise distinct and each queue holds only finished
    /// items of its own owner.
    pub open spec fn wf(self) -> bool {
        (forall|i: int, j: int|
            0 <= i < j < self.queues@.len() ==> self.queues@[i].owner_id
                != self.queues@[j].owner_id) && (forall|i: int|
            0 <= i < self.queues@.len() ==> (#[trigger] self.queues@[i]).wf())
    }

    /// Customer `id` currently has a delivery queue.
    pub open spec fn spec_registered(self, id: int) -> bool {
        exists|j: int| 0 <= j < self.queues@.len() && self.queues@[j].owner_id == id
    }

    /// The names waiting for customer `id`.
    pub open spec fn names_for(self, id: int) -> Multiset<Seq<char>> {
        router_names(self.queues@, id)
    }

    /// A router with no queues.
    pub fn new() -> (r: Router)
        ensures
            r.wf(),
            r.queues@.len() == 0,
            forall|id: int| !r.spec_registered(id),
            forall|id: int| r.names_for(id) == Multiset::<Seq<char>>::empty(),
    {
        let r = Router { queues: Vec::new() };
        proof {
            assert forall|id: int| r.names_for(id) == Multiset::<Seq<char>>::empty() by {
                assert(router_names(r.queues@, id) =~= Multiset::<Seq<char>>::empty());
            }
        }
        r
    }

    /// Position of customer `id`'s queue, if one exists.
    pub fn find_queue(&self, id: usize) -> (r: Option<usize>)
        ensures
            match r {
                Some(j) => j < self.queues@.len() && self.queues@[j as int].owner_id == id,
                None => !self.spec_registered(id as int),
            },
    {
        let mut j: usize = 0;
        while j < self.queues.len()
            invariant
                j <= self.queues@.len(),
                forall|k: int| 0 <= k < j ==> (#[trigger] self.queues@[k]).owner_id != id,
            decreases self.queues@.len() - j,
        {
            if self.queues[j].owner_id == id {
                return Some(j);
            }
            j += 1;
        }
        None
    }

    /// Create customer `id`'s delivery queue if it does not exist yet;
    /// reports whether it was created.  No tally changes either way.
    pub fn register(&mut self, id: usize) -> (fresh: bool)
        requires
            old(self).wf(),
        ensures
            final(self).wf(),
            fresh == !old(self).spec_registered(id as int),
            final(self).spec_registered(id as int),
            forall|id2: int|
                #[trigger] final(self).spec_registered(id2) == (old(self).spec_registered(id2)
                    || id2 == id as int),
            forall|id2: int| #[trigger] final(self).names_for(id2) == old(self).names_for(id2),
            fresh ==> final(self).queues@.len() == old(self).queues@.len() + 1,
            !fresh ==> *final(self) == *old(self),
    {
        if self.find_queue(id).is_some() {
            return false;
        }
        let ghost qs0 = self.queues@;
        let q = DeliveryQueue { owner_id: id, items: Vec::new() };
        self.queues.push(q);
        proof {
            let qn = self.queues@.last();
            assert forall|id2: int| self.names_for(id2) == old(self).names_for(id2) by {
                lemma_router_names_grow(qs0, qn, id2);
                assert(queue_names(qn, id2) =~= Multiset::<Seq<char>>::empty());
                assert(router_names(qs0, id2).add(Multiset::<Seq<char>>::empty()) =~= router_names(
                    qs0,
                    id2,
                ));
            }
            assert forall|id2: int|
                final(self).spec_registered(id2) == (old(self).spec_registered(id2) || id2
                    == id as int) by {
                if old(self).spec_registered(id2) {
                    let w = choose|j: int| 0 <= j < qs0.len() && qs0[j].owner_id == id2;
                    assert(self.queues@[w].owner_id == id2);
                }
                if id2 == id as int {
                    assert(self.queues@[qs0.len() as int].owner_id == id2);
                }
            }
        }
        true
    }

    /// Append a finished item to its owner's queue.  Exactly the owner's
    /// queue, and no other, gains the item; an unregistered owner is a
    /// structural defect reported as `UnknownOwner`, and nothing changes.
    pub fn deliver(&mut self, item: Item) -> (r: Result<(), RouteError>)
        requires
            old(self).wf(),
            item.state == ItemState::Done,
        ensures
            final(self).wf(),
            r is Ok <==> old(self).spec_registered(item.owner_id as int),
            r is Err ==> *final(self) == *old(self) && r == Result::<(), RouteError>::Err(
                RouteError::UnknownOwner,
            ),
            forall|id2: int|
                #[trigger] final(self).spec_registered(id2) == old(self).spec_registered(id2),
            r is Ok ==> final(self).names_for(item.owner_id as int) == old(self).names_for(
                item.owner_id as int,
            ).insert(item.name@),
            forall|id2: int|
                id2 != item.owner_id as int ==> #[trigger] final(self).names_for(id2) == old(
                    self,
                ).names_for(id2),
            r is Ok ==> exists|j: int|
                0 <= j < old(self).queues@.len() && old(self).queues@[j].owner_id == item.owner_id
                    && final(self).queues@ == old(self).queues@.update(
                    j,
                    final(self).queues@[j],
                ) && final(self).queues@[j].owner_id == item.owner_id
                    && (#[trigger] final(self).queues@[j]).items@
                    == old(self).queues@[j].items@.push(item),
    {
        let ghost qs0 = self.queues@;
        match self.find_queue(item.owner_id) {
            Some(j) => {
                let ghost q0 = self.queues@[j as int];
                let ghost name = item.name@;
                let ghost owner = item.owner_id as int;
                self.queues[j].items.push(item);
                proof {
                    let q2 = self.queues@[j as int];
                    assert(q2.owner_id == q0.owner_id);
                    assert(q2.items@ == q0.items@.push(item));
                    assert(self.queues@ == qs0.update(j as int, q2));
                    assert forall|id2: int|
                        final(self).spec_registered(id2) == old(self).spec_registered(id2) by {
                        if old(self).spec_registered(id2) {
                            let w = choose|k: int| 0 <= k < qs0.len() && qs0[k].owner_id == id2;
                            assert(self.queues@[w].owner_id == id2);
                        }
                        if final(self).spec_registered(id2) {
                            let w = choose|k: int|
                                0 <= k < self.queues@.len() && self.queues@[k].owner_id == id2;
                            assert(qs0[w].owner_id == id2);
                        }
                    }
                    assert forall|id2: int| final(self).names_for(id2) == if id2 == owner {
                        old(self).names_for(id2).insert(name)
                    } else {
                        old(self).names_for(id2)
                    } by {
                        lemma_router_names_update(qs0, j as int, q2, id2);
                        lemma_owned_names_push(q0.items@, item, id2);
                        broadcast use vstd::multiset::group_multiset_axioms;

                        if id2 == owner {
                            assert(queue_names(q2, id2) =~= queue_names(q0, id2).insert(name));
                            assert(router_names(qs0, id2).add(queue_names(q2, id2))
                                =~= router_names(qs0, id2).insert(name).add(queue_names(q0, id2)));
                            crate::tally::lemma_add_cancel(
                                router_names(qs0.update(j as int, q2), id2),
                                router_names(qs0, id2).insert(name),
                                queue_names(q0, id2),
                            );
                        } else {
                            assert(queue_names(q2, id2) =~= queue_names(q0, id2));
                            crate::tally::lemma_add_cancel(
                                router_names(qs0.update(j as int, q2), id2),
                                router_names(qs0, id2),
                                queue_names(q0, id2),
                            );
                        }
                    }
                }
                Ok(())
            },
            None => Err(RouteError::UnknownOwner),
        }
    }

    /// Hand customer `id` everything currently waiting for it, leaving its
    /// queue registered but empty.  Every returned item is finished and owned
    /// by `id`; other customers' queues are untouched.
    pub fn take_ready(&mut self, id: usize) -> (r: Result<Vec<Item>, RouteError>)
        requires
            old(self).wf(),
        ensures
            final(self).wf(),
            r is Ok <==> old(self).spec_registered(id as int),
            r is Err ==> *final(self) == *old(self),
            forall|id2: int|
                #[trigger] final(self).spec_registered(id2) == old(self).spec_registered(id2),
            final(self).queues@.len() == old(self).queues@.len(),
            forall|id2: int|
                id2 != id as int ==> #[trigger] final(self).names_for(id2) == old(
                    self,
                ).names_for(id2),
            match r {
                Ok(v) => {
                    &&& final(self).names_for(id as int) == Multiset::<Seq<char>>::empty()
                    &&& owned_names(v@, id as int) == old(self).names_for(id as int)
                    &&& v@.len() == old(self).names_for(id as int).len()
                    &&& forall|k: int|
                        0 <= k < v@.len() ==> (#[trigger] v@[k]).owner_id == id && v@[k].state
                            == ItemState::Done
                },
                Err(e) => e == RouteError::UnknownOwner,
            },
    {
        let ghost qs0 = self.queues@;
        match self.find_queue(id) {
            Some(j) => {
                let ghost q0 = self.queues@[j as int];
                let q = self.queues.remove(j);
                let fresh = DeliveryQueue { owner_id: id, items: Vec::new() };
                self.queues.insert(j, fresh);
                proof {
                    let q2 = self.queues@[j as int];
                    assert(self.queues@ =~= qs0.update(j as int, q2));
                    assert forall|id2: int|
                        final(self).spec_registered(id2) == old(self).spec_registered(id2) by {
                        if old(self).spec_registered(id2) {
                            let w = choose|k: int| 0 <= k < qs0.len() && qs0[k].owner_id == id2;
                            assert(self.queues@[w].owner_id == id2);
                        }
                        if final(self).spec_registered(id2) {
                            let w = choose|k: int|
                                0 <= k < self.queues@.len() && self.queues@[k].owner_id == id2;
                            assert(qs0[w].owner_id == id2);
                        }
                    }
                    broadcast use vstd::multiset::group_multiset_axioms;

                    assert forall|id2: int|
                        id2 != id as int implies final(self).names_for(id2) == old(
                        self,
                    ).names_for(id2) by {
                        lemma_router_names_update(qs0, j as int, q2, id2);
                        assert(queue_names(q0, id2) =~= Multiset::<Seq<char>>::empty());
                        assert(queue_names(q2, id2) =~= Multiset::<Seq<char>>::empty());
                        crate::tally::lemma_add_cancel(
                            router_names(qs0.update(j as int, q2), id2),
                            router_names(qs0, id2),
                            queue_names(q0, id2),
                        );
                    }
                    lemma_router_names_update(qs0, j as int, q2, id as int);
                    lemma_owned_names_none(q2.items@, id as int);
                    assert(queue_names(q2, id as int) =~= Multiset::<Seq<char>>::empty());
                    lemma_router_names_single(qs0, j as int, id as int);
                    assert(queue_names(q0, id as int) == owned_names(q0.items@, id as int));
                    assert(Multiset::<Seq<char>>::empty().add(queue_names(q0, id as int))
                        =~= router_names(qs0, id as int).add(queue_names(q2, id as int)));
                    crate::tally::lemma_add_cancel(
                        router_names(qs0.update(j as int, q2), id as int),
                        Multiset::<Seq<char>>::empty(),
                        queue_names(q0, id as int),
                    );
                    crate::tally::lemma_owned_names_all(q0.items@, id as int);
                }
                Ok(q.items)
            },
            None => Err(RouteError::UnknownOwner),
        }
    }

    /// Retire customer `id`: remove its queue and return any residual items
    /// rather than dropping them.  After retirement the customer is no longer
    /// registered and nothing else changed.
    pub fn retire(&mut self, id: usize) -> (r: Result<Vec<Item>, RouteError>)
        requires
            old(self).wf(),
        ensures
            final(self).wf(),
            r is Ok <==> old(self).spec_registered(id as int),
            r is Err ==> *final(self) == *old(self),
            r is Ok ==> final(self).queues@.len() == old(self).queues@.len() - 1,
            !final(self).spec_registered(id as int),
            forall|id2: int|
                id2 != id as int ==> #[trigger] final(self).spec_registered(id2) == old(
                    self,
                ).spec_registered(id2),
            forall|id2: int|
                id2 != id as int ==> #[trigger] final(self).names_for(id2) == old(
                    self,
                ).names_for(id2),
            match r {
                Ok(v) => owned_names(v@, id as int) == old(self).names_for(id as int)
                    && final(self).names_for(id as int) == Multiset::<Seq<char>>::empty()
                    && forall|k: int|
                    0 <= k < v@.len() ==> (#[trigger] v@[k]).owner_id == id && v@[k].state
                        == ItemState::Done,
                Err(e) => e == RouteError::UnknownOwner,
            },
    {
        let ghost qs0 = self.queues@;
        let taken = self.take_ready(id);
        match taken {
            Ok(v) => {
                let ghost r1 = *self;
                let ghost qs1 = self.queues@;
                match self.find_queue(id) {
                    Some(j) => {
                        proof {
                            lemma_router_names_single(qs1, j as int, id as int);
                            crate::tally::lemma_owned_names_all(
                                self.queues@[j as int].items@,
                                id as int,
                            );
                            assert(self.queues@[j as int].items@.len() == 0);
                        }
                        let q = self.queues.remove(j);
                        proof {
                            assert forall|id2: int|
                                id2 != id as int implies final(self).names_for(id2) == old(
                                self,
                            ).names_for(id2) by {
                                lemma_router_names_drop_empty(qs1, j as int, id2);
                                assert(r1.names_for(id2) == old(self).names_for(id2));
                            }
                            lemma_router_names_drop_empty(qs1, j as int, id as int);
                            assert(r1.names_for(id as int) == Multiset::<Seq<char>>::empty());
                            assert forall|id2: int|
                                id2 != id as int implies final(self).spec_registered(id2)
                                == old(self).spec_registered(id2) by {
                                assert(r1.spec_registered(id2) == old(self).spec_registered(id2));
                                if r1.spec_registered(id2) {
                                    let w = choose|k: int|
                                        0 <= k < qs1.len() && qs1[k].owner_id == id2;
                                    if w < j { assert(self.queues@[w].owner_id == id2); }
                                    if w > j { assert(self.queues@[w - 1].owner_id == id2); }
                                }
                                if final(self).spec_registered(id2) {
                                    let w = choose|k: int|
                                        0 <= k < self.queues@.len() && self.queues@[k].owner_id
                                            == id2;
                                    if w < j { assert(qs1[w].owner_id == id2); }
                                    if w >= j { assert(qs1[w + 1].owner_id == id2); }
                                }
                            }
                            assert forall|k: int|
                                0 <= k < self.queues@.len() implies (
                            #[trigger] self.queues@[k]).owner_id != id by {
                                if k < j { assert(qs1[k].owner_id != id); }
                                if k >= j { assert(qs1[k + 1].owner_id != id); }
                            }
                        }
                        Ok(v)
                    },
                    None => {
                        proof {
                            assert(false);
                        }
                        Err(RouteError::UnknownOwner)
                    },
                }
            },
            Err(e) => Err(e),
        }
    }

    /// No duplication across queues and no misrouting: every item a queue
    /// holds belongs to that queue's owner, and distinct queues have distinct
    /// owners, so a given item instance can only ever sit in the single queue
    /// of its owner, never in another customer's.
    pub proof fn lemma_no_misrouting(self, j: int, k: int)
        requires
            self.wf(),
            0 <= j < self.queues@.len(),
            0 <= k < self.queues@.len(),
        ensures
            forall|m: int|
                0 <= m < self.queues@[j].items@.len() ==> (
                #[trigger] self.queues@[j].items@[m]).owner_id == self.queues@[j].owner_id,
            j != k ==> self.queues@[j].owner_id != self.queues@[k].owner_id,
    {
        assert(self.queues@[j].wf());
    }

    /// Whether every delivery queue is empty: the router holds no residual
    /// item.
    pub fn is_drained(&self) -> (b: bool)
        ensures
            b <==> forall|j: int|
                0 <= j < self.queues@.len() ==> (#[trigger] self.queues@[j]).items@.len() == 0,
    {
        let mut j: usize = 0;
        while j < self.queues.len()
            invariant
                j <= self.queues@.len(),
                forall|k: int| 0 <= k < j ==> (#[trigger] self.queues@[k]).items@.len() == 0,
            decreases self.queues@.len() - j,
        {
            if self.queues[j].items.len() > 0 {
                return false;
            }
            j += 1;
        }
        true
    }

    /// How many customers currently have a queue.
    pub fn queue_count(&self) -> (r: usize)
        ensures
            r == self.queues@.len(),
    {
        self.queues.len()
    }
}

} // verus!
