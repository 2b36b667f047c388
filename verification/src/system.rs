//! The whole pipeline composed as one state machine: customers, the intake
//! inbox, the shared work queue, the workers' claimed items, the completion
//! stream, and the router.  Every transition preserves the conservation
//! invariant: per customer, the names ordered equal the names received plus
//! the names still in flight.  Steps that pick an arbitrary queue position
//! model any interleaving of workers, so the delivery guarantees hold for
//! every parallel schedule.

use vstd::prelude::*;
use vstd::multiset::Multiset;
use crate::customer::{phase_of, CustomerAgent, Phase};
use crate::order::{Item, ItemState, Order};
use crate::router::Router;
use crate::tally::{
    lemma_order_pool_names_none, lemma_order_pool_names_pop, lemma_order_pool_names_push,
    lemma_owned_names_all, lemma_owned_names_concat, lemma_owned_names_none,
    lemma_owned_names_push, lemma_owned_names_remove, order_pool_names, owned_names,
};

verus! {

/// The pipeline's full state between steps.
pub struct System {
    pub customers: Vec<CustomerAgent>,
    pub inbox: Vec<Order>,
    pub work_queue: Vec<Item>,
    pub in_progress: Vec<Item>,
    pub completion: Vec<Item>,
    pub router: Router,
}

impl System {
    /// Everything still owed to customer `id`, wherever it sits.
    pub open spec fn pending_ms(self, id: int) -> Multiset<Seq<char>> {
        order_pool_names(self.inbox@, id).add(owned_names(self.work_queue@, id)).add(
            owned_names(self.in_progress@, id),
        ).add(owned_names(self.completion@, id)).add(self.router.names_for(id))
    }

    /// Conservation for customer `i`: what it ordered is what it has received
    /// plus what is still in flight.
    pub open spec fn customer_ok(self, i: int) -> bool {
        &&& self.customers@[i].wf()
        &&& self.customers@[i].id == i
        &&& self.customers@[i].submitted
        &&& self.customers@[i].ordered_ms() == self.customers@[i].received_ms().add(
            self.pending_ms(i),
        )
    }

    /// Every item of `s` belongs to a known, currently registered customer.
    pub open spec fn items_routable(self, s: Seq<Item>) -> bool {
        forall|k: int|
            0 <= k < s.len() ==> (#[trigger] s[k]).owner_id < self.customers@.len()
                && self.router.spec_registered(s[k].owner_id as int)
    }

    /// Items sit in the pool that matches their life-cycle state.
    pub open spec fn pool_states_ok(self) -> bool {
        &&& forall|k: int|
            0 <= k < self.work_queue@.len() ==> (#[trigger] self.work_queue@[k]).state
                == ItemState::Pending
        &&& forall|k: int|
            0 <= k < self.in_progress@.len() ==> (#[trigger] self.in_progress@[k]).state
                == ItemState::InProgress
        &&& forall|k: int|
            0 <= k < self.completion@.len() ==> (#[trigger] self.completion@[k]).state
                == ItemState::Done
    }

    /// The system invariant, preserved by every step.
    pub open spec fn inv(self) -> bool {
        &&& self.router.wf()
        &&& forall|j: int|
            0 <= j < self.router.queues@.len() ==> (#[trigger] self.router.queues@[j]).owner_id
                < self.customers@.len()
        &&& forall|i: int| 0 <= i < self.customers@.len() ==> self.customer_ok(i)
        &&& self.items_routable(self.work_queue@)
        &&& self.items_routable(self.in_progress@)
        &&& self.items_routable(self.completion@)
        &&& forall|k: int| 0 <= k < self.inbox@.len() ==> (#[trigger] self.inbox@[k]).wf()
        &&& forall|k: int|
            0 <= k < self.inbox@.len() ==> self.items_routable((#[trigger] self.inbox@[k]).items@)
        &&& self.pool_states_ok()
    }

    /// An idle pipeline with no customers.
    pub fn new() -> (sys: System)
        ensures
            sys.inv(),
            sys.customers@.len() == 0,
            sys.inbox@.len() == 0,
            sys.work_queue@.len() == 0,
            sys.in_progress@.len() == 0,
            sys.completion@.len() == 0,
            sys.router.queues@.len() == 0,
    {
        System {
            customers: Vec::new(),
            inbox: Vec::new(),
            work_queue: Vec::new(),
            in_progress: Vec::new(),
            completion: Vec::new(),
            router: Router::new(),
        }
    }

    /// A new customer arrives, registers with the router, builds its order
    /// and submits it to the intake inbox.  An order of zero items leaves the
    /// customer `Done` at once, before intake, workers or router ever touch
    /// it; any other order leaves it `Waiting`.
    pub fn submit_step(&mut self, names: Vec<String>) -> (id: usize)
        requires
            old(self).inv(),
        ensures
            final(self).inv(),
            id == old(self).customers@.len(),
            final(self).customers@.len() == old(self).customers@.len() + 1,
            forall|k: int|
                0 <= k < old(self).customers@.len() ==> final(self).customers@[k] == old(
                    self,
                ).customers@[k],
            final(self).customers@[id as int].id == id,
            final(self).customers@[id as int].ordered@ == names@,
            final(self).customers@[id as int].received@.len() == 0,
            final(self).customers@[id as int].phase == (if names@.len() == 0 {
                Phase::Done
            } else {
                Phase::Waiting
            }),
            final(self).work_queue@ == old(self).work_queue@,
            final(self).in_progress@ == old(self).in_progress@,
            final(self).completion@ == old(self).completion@,
            final(self).inbox@.len() == old(self).inbox@.len() + 1,
            final(self).router.spec_registered(id as int),
            forall|id2: int|
                old(self).router.spec_registered(id2) ==> final(self).router.spec_registered(id2),
    {
        let id = self.customers.len();
        let ghost old_sys = *self;
        let mut agent = CustomerAgent::new(id);
        let order = agent.place_order(names);
        let ghost order_g = order;
        self.router.register(id);
        self.inbox.push(order);
        self.customers.push(agent);
        proof {
            let n = old_sys.customers@.len() as int;
            // Queue owners stay within the (grown) customer range.
            assert forall|j: int|
                0 <= j < self.router.queues@.len() implies (
            #[trigger] self.router.queues@[j]).owner_id < self.customers@.len() by {
                let o = self.router.queues@[j].owner_id;
                assert(self.router.spec_registered(o as int));
                if old_sys.router.spec_registered(o as int) {
                    let w = choose|k: int|
                        0 <= k < old_sys.router.queues@.len() && old_sys.router.queues@[k].owner_id
                            == o;
                    assert(old_sys.router.queues@[w].owner_id < n);
                }
            }
            // Nobody below `id` owns anything of the new order, and the new
            // customer owns nothing anywhere else.
            assert(forall|m: int|
                0 <= m < order_g.items@.len() ==> (#[trigger] order_g.items@[m]).owner_id == id);
            assert forall|i: int| 0 <= i < self.customers@.len() implies self.customer_ok(i) by {
                lemma_order_pool_names_push(old_sys.inbox@, order_g, i);
                if i < n {
                    assert(self.customers@[i] == old_sys.customers@[i]);
                    lemma_owned_names_none(order_g.items@, i);
                    assert(self.pending_ms(i) =~= old_sys.pending_ms(i));
                    assert(old_sys.customer_ok(i));
                } else {
                    assert(self.customers@[i] == agent);
                    lemma_order_pool_names_none(old_sys.inbox@, i);
                    lemma_owned_names_none(old_sys.work_queue@, i);
                    lemma_owned_names_none(old_sys.in_progress@, i);
                    lemma_owned_names_none(old_sys.completion@, i);
                    assert(forall|j: int|
                        0 <= j < old_sys.router.queues@.len() ==> (
                        #[trigger] old_sys.router.queues@[j]).owner_id != i);
                    crate::router::lemma_router_names_unregistered(old_sys.router.queues@, i);
                    assert(self.router.names_for(i) == old_sys.router.names_for(i));
                    lemma_owned_names_all(order_g.items@, i);
                    assert(self.pending_ms(i) =~= owned_names(order_g.items@, i));
                    assert(agent.received_ms() =~= Multiset::<Seq<char>>::empty());
                    assert(agent.received_ms().add(self.pending_ms(i)) =~= owned_names(
                        order_g.items@,
                        i,
                    ));
                }
            }
            // Pools are unchanged and the new order is routable.
            assert forall|k: int|
                0 <= k < self.inbox@.len() implies self.items_routable(
                (#[trigger] self.inbox@[k]).items@,
            ) by {
                if k < old_sys.inbox@.len() {
                    assert(self.inbox@[k] == old_sys.inbox@[k]);
                    assert(old_sys.items_routable(old_sys.inbox@[k].items@));
                    assert forall|m: int|
                        0 <= m < self.inbox@[k].items@.len() implies (
                    #[trigger] self.inbox@[k].items@[m]).owner_id < self.customers@.len()
                        && self.router.spec_registered(
                        self.inbox@[k].items@[m].owner_id as int,
                    ) by {
                        let o = self.inbox@[k].items@[m].owner_id;
                        assert(old_sys.router.spec_registered(o as int));
                    }
                } else {
                    assert(self.inbox@[k] == order_g);
                }
            }
            assert forall|k: int|
                0 <= k < self.work_queue@.len() implies (
            #[trigger] self.work_queue@[k]).owner_id < self.customers@.len()
                && self.router.spec_registered(self.work_queue@[k].owner_id as int) by {
                assert(old_sys.router.spec_registered(self.work_queue@[k].owner_id as int));
            }
            assert forall|k: int|
                0 <= k < self.in_progress@.len() implies (
            #[trigger] self.in_progress@[k]).owner_id < self.customers@.len()
                && self.router.spec_registered(self.in_progress@[k].owner_id as int) by {
                assert(old_sys.router.spec_registered(self.in_progress@[k].owner_id as int));
            }
            assert forall|k: int|
                0 <= k < self.completion@.len() implies (
            #[trigger] self.completion@[k]).owner_id < self.customers@.len()
                && self.router.spec_registered(self.completion@[k].owner_id as int) by {
                assert(old_sys.router.spec_registered(self.completion@[k].owner_id as int));
            }
        }
        id
    }

    /// The intake stage takes one submitted order apart and enqueues its
    /// items on the shared work queue.
    pub fn intake_step(&mut self)
        requires
            old(self).inv(),
            old(self).inbox@.len() > 0,
        ensures
            final(self).inv(),
            final(self).customers@ == old(self).customers@,
            final(self).inbox@ == old(self).inbox@.drop_last(),
            final(self).work_queue@ == old(self).work_queue@ + old(self).inbox@.last().items@,
            final(self).in_progress@ == old(self).in_progress@,
            final(self).completion@ == old(self).completion@,
            final(self).router == old(self).router,
    {
        let ghost old_sys = *self;
        let order = self.inbox.pop().unwrap();
        let ghost order_g = order;
        let mut items = crate::intake::decompose(order);
        self.work_queue.append(&mut items);
        proof {
            assert(self.inbox@ =~= old_sys.inbox@.drop_last());
            assert forall|i: int| 0 <= i < self.customers@.len() implies self.customer_ok(i) by {
                lemma_order_pool_names_pop(old_sys.inbox@, i);
                lemma_owned_names_concat(old_sys.work_queue@, order_g.items@, i);
                assert(self.pending_ms(i) =~= old_sys.pending_ms(i));
                assert(old_sys.customer_ok(i));
            }
            assert forall|k: int|
                0 <= k < self.work_queue@.len() implies (
            #[trigger] self.work_queue@[k]).owner_id < self.customers@.len()
                && self.router.spec_registered(self.work_queue@[k].owner_id as int)
                && self.work_queue@[k].state == ItemState::Pending by {
                if k < old_sys.work_queue@.len() {
                    assert(self.work_queue@[k] == old_sys.work_queue@[k]);
                } else {
                    let m = k - old_sys.work_queue@.len();
                    assert(self.work_queue@[k] == order_g.items@[m]);
                    assert(old_sys.inbox@.last() == order_g);
                    assert(old_sys.items_routable(order_g.items@));
                }
            }
            assert forall|k: int|
                0 <= k < self.inbox@.len() implies (#[trigger] self.inbox@[k]).wf()
                && self.items_routable(self.inbox@[k].items@) by {
                assert(self.inbox@[k] == old_sys.inbox@[k]);
                assert(old_sys.items_routable(old_sys.inbox@[k].items@));
            }
        }
    }
    /// A worker claims the item at any position of the work queue: the hand
    /// off is exclusive, the item moves to the worker marked `InProgress`.
    /// The position is arbitrary, so this covers every assignment of items to
    /// workers.
    pub fn claim_step(&mut self, qi: usize)
        requires
            old(self).inv(),
            qi < old(self).work_queue@.len(),
        ensures
            final(self).inv(),
            final(self).customers@ == old(self).customers@,
            final(self).inbox@ == old(self).inbox@,
            final(self).work_queue@ == old(self).work_queue@.remove(qi as int),
            final(self).in_progress@.drop_last() == old(self).in_progress@,
            final(self).in_progress@.len() == old(self).in_progress@.len() + 1,
            final(self).in_progress@.last().name@ == old(self).work_queue@[qi as int].name@,
            final(self).in_progress@.last().owner_id == old(self).work_queue@[qi as int].owner_id,
            final(self).in_progress@.last().state == ItemState::InProgress,
            final(self).completion@ == old(self).completion@,
            final(self).router == old(self).router,
    {
        let ghost old_sys = *self;
        let item = self.work_queue.remove(qi);
        let ghost item_g = item;
        let started = crate::worker::claim_item(item);
        let ghost started_g = started;
        self.in_progress.push(started);
        proof {
            assert forall|i: int| 0 <= i < self.customers@.len() implies self.customer_ok(i) by {
                lemma_owned_names_remove(old_sys.work_queue@, qi as int, i);
                lemma_owned_names_push(old_sys.in_progress@, started_g, i);
                assert(started_g.name@ == item_g.name@ && started_g.owner_id == item_g.owner_id);
                broadcast use vstd::multiset::group_multiset_axioms;

                assert(self.pending_ms(i) =~= old_sys.pending_ms(i));
                assert(old_sys.customer_ok(i));
            }
            assert forall|k: int|
                0 <= k < self.work_queue@.len() implies (
            #[trigger] self.work_queue@[k]).owner_id < self.customers@.len()
                && self.router.spec_registered(self.work_queue@[k].owner_id as int)
                && self.work_queue@[k].state == ItemState::Pending by {
                if k < qi {
                    assert(self.work_queue@[k] == old_sys.work_queue@[k]);
                } else {
                    assert(self.work_queue@[k] == old_sys.work_queue@[k + 1]);
                }
            }
            assert forall|k: int|
                0 <= k < self.in_progress@.len() implies (
            #[trigger] self.in_progress@[k]).owner_id < self.customers@.len()
                && self.router.spec_registered(self.in_progress@[k].owner_id as int)
                && self.in_progress@[k].state == ItemState::InProgress by {
                if k < old_sys.in_progress@.len() {
                    assert(self.in_progress@[k] == old_sys.in_progress@[k]);
                } else {
                    assert(self.in_progress@[k] == started_g);
                    assert(old_sys.work_queue@[qi as int] == item_g);
                }
            }
        }
    }

    /// A worker finishes the claimed item at any position: it becomes `Done`
    /// and is published on the completion stream.  The position is arbitrary,
    /// so items may complete in any order regardless of claim order.
    pub fn finish_step(&mut self, pi: usize)
        requires
            old(self).inv(),
            pi < old(self).in_progress@.len(),
        ensures
            final(self).inv(),
            final(self).customers@ == old(self).customers@,
            final(self).inbox@ == old(self).inbox@,
            final(self).work_queue@ == old(self).work_queue@,
            final(self).in_progress@ == old(self).in_progress@.remove(pi as int),
            final(self).completion@.drop_last() == old(self).completion@,
            final(self).completion@.len() == old(self).completion@.len() + 1,
            final(self).completion@.last().name@ == old(self).in_progress@[pi as int].name@,
            final(self).completion@.last().owner_id == old(self).in_progress@[pi as int].owner_id,
            final(self).completion@.last().state == ItemState::Done,
            final(self).router == old(self).router,
    {
        let ghost old_sys = *self;
        let item = self.in_progress.remove(pi);
        let ghost item_g = item;
        let done = crate::worker::finish_item(item);
        let ghost done_g = done;
        self.completion.push(done);
        proof {
            assert forall|i: int| 0 <= i < self.customers@.len() implies self.customer_ok(i) by {
                lemma_owned_names_remove(old_sys.in_progress@, pi as int, i);
                lemma_owned_names_push(old_sys.completion@, done_g, i);
                assert(done_g.name@ == item_g.name@ && done_g.owner_id == item_g.owner_id);
                broadcast use vstd::multiset::group_multiset_axioms;

                assert(self.pending_ms(i) =~= old_sys.pending_ms(i));
                assert(old_sys.customer_ok(i));
            }
            assert forall|k: int|
                0 <= k < self.in_progress@.len() implies (
            #[trigger] self.in_progress@[k]).owner_id < self.customers@.len()
                && self.router.spec_registered(self.in_progress@[k].owner_id as int)
                && self.in_progress@[k].state == ItemState::InProgress by {
                if k < pi {
                    assert(self.in_progress@[k] == old_sys.in_progress@[k]);
                } else {
                    assert(self.in_progress@[k] == old_sys.in_progress@[k + 1]);
                }
            }
            assert forall|k: int|
                0 <= k < self.completion@.len() implies (
            #[trigger] self.completion@[k]).owner_id < self.customers@.len()
                && self.router.spec_registered(self.completion@[k].owner_id as int)
                && self.completion@[k].state == ItemState::Done by {
                if k < old_sys.completion@.len() {
                    assert(self.completion@[k] == old_sys.completion@[k]);
                } else {
                    assert(self.completion@[k] == done_g);
                    assert(old_sys.in_progress@[pi as int] == item_g);
                }
            }
        }
    }

    /// The router accepts one finished item from the completion stream and
    /// appends it to its owner's delivery queue.  Under the invariant the
    /// owner is always registered, so routing never fails.
    pub fn route_step(&mut self)
        requires
            old(self).inv(),
            old(self).completion@.len() > 0,
        ensures
            final(self).inv(),
            final(self).customers@ == old(self).customers@,
            final(self).inbox@ == old(self).inbox@,
            final(self).work_queue@ == old(self).work_queue@,
            final(self).in_progress@ == old(self).in_progress@,
            final(self).completion@ == old(self).completion@.drop_last(),
            final(self).router.names_for(old(self).completion@.last().owner_id as int) == old(
                self,
            ).router.names_for(old(self).completion@.last().owner_id as int).insert(
                old(self).completion@.last().name@,
            ),
            forall|id2: int|
                id2 != old(self).completion@.last().owner_id as int
                    ==> #[trigger] final(self).router.names_for(id2)
                    == old(self).router.names_for(id2),
            forall|id2: int|
                #[trigger] final(self).router.spec_registered(id2) == old(
                    self,
                ).router.spec_registered(id2),
    {
        let ghost old_sys = *self;
        let item = self.completion.pop().unwrap();
        let ghost item_g = item;
        let delivered = self.router.deliver(item);
        proof {
            assert(old_sys.completion@.last() == item_g);
            assert(old_sys.router.spec_registered(item_g.owner_id as int));
            assert(delivered is Ok);
            assert(self.completion@ =~= old_sys.completion@.drop_last());
            broadcast use vstd::multiset::group_multiset_axioms;

            assert forall|i: int| 0 <= i < self.customers@.len() implies self.customer_ok(i) by {
                assert(owned_names(old_sys.completion@, i) == if item_g.owner_id == i {
                    owned_names(self.completion@, i).insert(item_g.name@)
                } else {
                    owned_names(self.completion@, i)
                });
                assert(self.pending_ms(i) =~= old_sys.pending_ms(i));
                assert(old_sys.customer_ok(i));
            }
            assert forall|k: int|
                0 <= k < self.completion@.len() implies (
            #[trigger] self.completion@[k]).owner_id < self.customers@.len()
                && self.router.spec_registered(self.completion@[k].owner_id as int) by {
                assert(self.completion@[k] == old_sys.completion@[k]);
                assert(old_sys.router.spec_registered(self.completion@[k].owner_id as int));
            }
            assert forall|k: int|
                0 <= k < self.work_queue@.len() implies (
            #[trigger] self.work_queue@[k]).owner_id < self.customers@.len()
                && self.router.spec_registered(self.work_queue@[k].owner_id as int) by {
                assert(old_sys.router.spec_registered(self.work_queue@[k].owner_id as int));
            }
            assert forall|k: int|
                0 <= k < self.in_progress@.len() implies (
            #[trigger] self.in_progress@[k]).owner_id < self.customers@.len()
                && self.router.spec_registered(self.in_progress@[k].owner_id as int) by {
                assert(old_sys.router.spec_registered(self.in_progress@[k].owner_id as int));
            }
            assert forall|k: int|
                0 <= k < self.inbox@.len() implies self.items_routable(
                (#[trigger] self.inbox@[k]).items@,
            ) by {
                assert(old_sys.items_routable(old_sys.inbox@[k].items@));
                assert forall|m: int|
                    0 <= m < self.inbox@[k].items@.len() implies (
                #[trigger] self.inbox@[k].items@[m]).owner_id < self.customers@.len()
                    && self.router.spec_registered(self.inbox@[k].items@[m].owner_id as int) by {
                    assert(old_sys.router.spec_registered(
                        self.inbox@[k].items@[m].owner_id as int,
                    ));
                }
            }
            assert forall|j: int|
                0 <= j < self.router.queues@.len() implies (
            #[trigger] self.router.queues@[j]).owner_id < self.customers@.len() by {
                assert(self.router.spec_registered(self.router.queues@[j].owner_id as int));
                let w = choose|k: int|
                    0 <= k < old_sys.router.queues@.len() && old_sys.router.queues@[k].owner_id
                        == self.router.queues@[j].owner_id;
                assert(old_sys.router.queues@[w].owner_id < self.customers@.len());
            }
        }
    }

    /// Customer `i` collects everything currently waiting in its delivery
    /// queue, incrementally: whatever has arrived is taken, the rest stays in
    /// flight.  No other customer's state or queue is touched.
    pub fn collect_step(&mut self, i: usize)
        requires
            old(self).inv(),
            i < old(self).customers@.len(),
            old(self).router.spec_registered(i as int),
        ensures
            final(self).inv(),
            final(self).customers@.len() == old(self).customers@.len(),
            forall|k: int|
                0 <= k < old(self).customers@.len() && k != i as int ==> (#[trigger] final(self).customers@[k]) == old(self).customers@[k],
            final(self).customers@[i as int].ordered@ == old(self).customers@[i as int].ordered@,
            final(self).customers@[i as int].received_ms() == old(self).customers@[
                i as int
            ].received_ms().add(old(self).router.names_for(i as int)),
            final(self).inbox@ == old(self).inbox@,
            final(self).work_queue@ == old(self).work_queue@,
            final(self).in_progress@ == old(self).in_progress@,
            final(self).completion@ == old(self).completion@,
            final(self).router.names_for(i as int) == Multiset::<Seq<char>>::empty(),
            forall|id2: int|
                id2 != i as int ==> #[trigger] final(self).router.names_for(id2) == old(
                    self,
                ).router.names_for(id2),
            forall|id2: int|
                #[trigger] final(self).router.spec_registered(id2) == old(
                    self,
                ).router.spec_registered(id2),
    {
        let ghost old_sys = *self;
        let taken = self.router.take_ready(i);
        match taken {
            Ok(v) => {
                let mut agent = self.customers.remove(i);
                proof {
                    assert(old_sys.customer_ok(i as int));
                }
                agent.receive(v);
                self.customers.insert(i, agent);
                proof {
                    assert(self.customers@ =~= old_sys.customers@.update(i as int, agent));
                    broadcast use vstd::multiset::group_multiset_axioms;

                    assert forall|k: int|
                        0 <= k < self.customers@.len() implies self.customer_ok(k) by {
                        if k != i as int {
                            assert(self.customers@[k] == old_sys.customers@[k]);
                            assert(self.router.names_for(k) == old_sys.router.names_for(k));
                            assert(self.pending_ms(k) =~= old_sys.pending_ms(k));
                            assert(old_sys.customer_ok(k));
                        } else {
                            assert(self.customers@[k] == agent);
                            assert(old_sys.customer_ok(k));
                            let r = old_sys.router.names_for(k);
                            assert(agent.received_ms() == old_sys.customers@[k].received_ms().add(
                                r,
                            ));
                            assert(self.router.names_for(k) =~= Multiset::<Seq<char>>::empty());
                            assert(agent.received_ms().add(self.pending_ms(k)) =~= old_sys.customers@[
                                k
                            ].received_ms().add(old_sys.pending_ms(k)));
                        }
                    }
                    assert forall|j: int|
                        0 <= j < self.router.queues@.len() implies (
                    #[trigger] self.router.queues@[j]).owner_id < self.customers@.len() by {
                        assert(self.router.spec_registered(self.router.queues@[j].owner_id as int));
                        let w = choose|k: int|
                            0 <= k < old_sys.router.queues@.len()
                                && old_sys.router.queues@[k].owner_id
                                == self.router.queues@[j].owner_id;
                        assert(old_sys.router.queues@[w].owner_id < self.customers@.len());
                    }
                    assert forall|k: int|
                        0 <= k < self.work_queue@.len() implies (
                    #[trigger] self.work_queue@[k]).owner_id < self.customers@.len()
                        && self.router.spec_registered(self.work_queue@[k].owner_id as int) by {
                        assert(old_sys.router.spec_registered(self.work_queue@[k].owner_id as int));
                    }
                    assert forall|k: int|
                        0 <= k < self.in_progress@.len() implies (
                    #[trigger] self.in_progress@[k]).owner_id < self.customers@.len()
                        && self.router.spec_registered(self.in_progress@[k].owner_id as int) by {
                        assert(old_sys.router.spec_registered(
                            self.in_progress@[k].owner_id as int,
                        ));
                    }
                    assert forall|k: int|
                        0 <= k < self.completion@.len() implies (
                    #[trigger] self.completion@[k]).owner_id < self.customers@.len()
                        && self.router.spec_registered(self.completion@[k].owner_id as int) by {
                        assert(old_sys.router.spec_registered(self.completion@[k].owner_id as int));
                    }
                    assert forall|k: int|
                        0 <= k < self.inbox@.len() implies self.items_routable(
                        (#[trigger] self.inbox@[k]).items@,
                    ) by {
                        assert(old_sys.items_routable(old_sys.inbox@[k].items@));
                        assert forall|m: int|
                            0 <= m < self.inbox@[k].items@.len() implies (
                        #[trigger] self.inbox@[k].items@[m]).owner_id < self.customers@.len()
                            && self.router.spec_registered(
                            self.inbox@[k].items@[m].owner_id as int,
                        ) by {
                            assert(old_sys.router.spec_registered(
                                self.inbox@[k].items@[m].owner_id as int,
                            ));
                        }
                    }
                }
            },
            Err(_) => {
                proof {
                    assert(false);
                }
            },
        }
    }
}

impl System {
    /// A `Done` customer deregisters: its delivery queue — necessarily empty,
    /// since nothing of the customer is in flight any more — is reclaimed so
    /// the router does not grow without bound across short-lived customers.
    pub fn retire_step(&mut self, i: usize)
        requires
            old(self).inv(),
            i < old(self).customers@.len(),
            old(self).customers@[i as int].phase == Phase::Done,
            old(self).router.spec_registered(i as int),
        ensures
            final(self).inv(),
            final(self).customers@ == old(self).customers@,
            final(self).inbox@ == old(self).inbox@,
            final(self).work_queue@ == old(self).work_queue@,
            final(self).in_progress@ == old(self).in_progress@,
            final(self).completion@ == old(self).completion@,
            !final(self).router.spec_registered(i as int),
            forall|id2: int|
                id2 != i as int ==> #[trigger] final(self).router.spec_registered(id2) == old(
                    self,
                ).router.spec_registered(id2),
            final(self).router.queues@.len() == old(self).router.queues@.len() - 1,
    {
        let ghost old_sys = *self;
        proof {
            lemma_done_customer_served(old_sys, i as int);
            broadcast use vstd::multiset::group_multiset_axioms;

            assert(order_pool_names(old_sys.inbox@, i as int).len() == 0);
            assert(owned_names(old_sys.work_queue@, i as int).len() == 0);
            assert(owned_names(old_sys.in_progress@, i as int).len() == 0);
            assert(owned_names(old_sys.completion@, i as int).len() == 0);
            assert(old_sys.router.names_for(i as int).len() == 0);
            vstd::multiset::lemma_multiset_empty_len(old_sys.router.names_for(i as int));
            crate::tally::lemma_order_pool_names_empty_means_none(old_sys.inbox@, i as int);
            crate::tally::lemma_owned_names_empty_means_none(old_sys.work_queue@, i as int);
            crate::tally::lemma_owned_names_empty_means_none(old_sys.in_progress@, i as int);
            crate::tally::lemma_owned_names_empty_means_none(old_sys.completion@, i as int);
        }
        let ghost retired = self.router.queues@.len();
        let residual = self.router.retire(i);
        proof {
            assert(residual is Ok);
            assert forall|k: int| 0 <= k < self.customers@.len() implies self.customer_ok(k) by {
                assert(old_sys.customer_ok(k));
                if k == i as int {
                    assert(self.router.names_for(k) =~= old_sys.router.names_for(k));
                } else {
                    assert(self.router.names_for(k) == old_sys.router.names_for(k));
                }
                assert(self.pending_ms(k) =~= old_sys.pending_ms(k));
            }
            assert forall|j: int|
                0 <= j < self.router.queues@.len() implies (
            #[trigger] self.router.queues@[j]).owner_id < self.customers@.len() by {
                let o = self.router.queues@[j].owner_id;
                assert(self.router.spec_registered(o as int));
                assert(o as int != i as int);
                assert(old_sys.router.spec_registered(o as int));
                let w = choose|k: int|
                    0 <= k < old_sys.router.queues@.len() && old_sys.router.queues@[k].owner_id
                        == o;
                assert(old_sys.router.queues@[w].owner_id < self.customers@.len());
            }
            assert forall|k: int|
                0 <= k < self.work_queue@.len() implies (
            #[trigger] self.work_queue@[k]).owner_id < self.customers@.len()
                && self.router.spec_registered(self.work_queue@[k].owner_id as int) by {
                assert(self.work_queue@[k].owner_id as int != i as int);
                assert(old_sys.router.spec_registered(self.work_queue@[k].owner_id as int));
            }
            assert forall|k: int|
                0 <= k < self.in_progress@.len() implies (
            #[trigger] self.in_progress@[k]).owner_id < self.customers@.len()
                && self.router.spec_registered(self.in_progress@[k].owner_id as int) by {
                assert(self.in_progress@[k].owner_id as int != i as int);
                assert(old_sys.router.spec_registered(self.in_progress@[k].owner_id as int));
            }
            assert forall|k: int|
                0 <= k < self.completion@.len() implies (
            #[trigger] self.completion@[k]).owner_id < self.customers@.len()
                && self.router.spec_registered(self.completion@[k].owner_id as int) by {
                assert(self.completion@[k].owner_id as int != i as int);
                assert(old_sys.router.spec_registered(self.completion@[k].owner_id as int));
            }
            assert forall|k: int|
                0 <= k < self.inbox@.len() implies self.items_routable(
                (#[trigger] self.inbox@[k]).items@,
            ) by {
                assert(old_sys.items_routable(old_sys.inbox@[k].items@));
                assert forall|m: int|
                    0 <= m < self.inbox@[k].items@.len() implies (
                #[trigger] self.inbox@[k].items@[m]).owner_id < self.customers@.len()
                    && self.router.spec_registered(self.inbox@[k].items@[m].owner_id as int) by {
                    assert(self.inbox@[k].items@[m].owner_id as int != i as int);
                    assert(old_sys.router.spec_registered(
                        self.inbox@[k].items@[m].owner_id as int,
                    ));
                }
            }
        }
        match residual {
            Ok(_v) => {},
            Err(_) => {
                proof {
                    assert(false);
                }
            },
        }
    }
}

/// Law: a customer that has reached `Done` has received exactly the multiset
/// of names it ordered, and nothing of it remains in flight anywhere in the
/// pipeline.
pub proof fn lemma_done_customer_served(sys: System, i: int)
    requires
        sys.inv(),
        0 <= i < sys.customers@.len(),
        sys.customers@[i].phase == Phase::Done,
    ensures
        sys.customers@[i].received_ms() == sys.customers@[i].ordered_ms(),
        sys.customers@[i].received@.len() == sys.customers@[i].ordered@.len(),
        sys.pending_ms(i).len() == 0,
{
    broadcast use vstd::multiset::group_multiset_axioms;
    broadcast use vstd::seq_lib::group_to_multiset_ensures;

    let c = sys.customers@[i];
    assert(sys.customer_ok(i));
    lemma_owned_names_all(c.received@, i);
    assert(c.received_ms().len() == c.received@.len());
    assert(crate::order::string_views(c.ordered@).len() == c.ordered@.len());
    assert(c.ordered_ms().len() == c.ordered@.len());
    assert(c.ordered_ms().len() == c.received_ms().add(sys.pending_ms(i)).len());
    assert(c.received@.len() >= c.ordered@.len());
    assert(sys.pending_ms(i).len() == 0);
    vstd::multiset::lemma_multiset_empty_len(sys.pending_ms(i));
    assert(c.received_ms().add(sys.pending_ms(i)) =~= c.received_ms());
}

/// Law: once nothing of customer `i` is in flight anywhere, the customer has
/// necessarily reached `Done` with exactly the ordered multiset in hand.
pub proof fn lemma_pending_empty_done(sys: System, i: int)
    requires
        sys.inv(),
        0 <= i < sys.customers@.len(),
        sys.pending_ms(i).len() == 0,
    ensures
        sys.customers@[i].phase == Phase::Done,
        sys.customers@[i].received_ms() == sys.customers@[i].ordered_ms(),
        sys.customers@[i].received@.len() == sys.customers@[i].ordered@.len(),
{
    broadcast use vstd::multiset::group_multiset_axioms;
    broadcast use vstd::seq_lib::group_to_multiset_ensures;

    let c = sys.customers@[i];
    assert(sys.customer_ok(i));
    lemma_owned_names_all(c.received@, i);
    assert(crate::order::string_views(c.ordered@).len() == c.ordered@.len());
    assert(c.ordered_ms().len() == c.ordered@.len());
    vstd::multiset::lemma_multiset_empty_len(sys.pending_ms(i));
    assert(c.received_ms().add(sys.pending_ms(i)) =~= c.received_ms());
    assert(c.received@.len() == c.ordered@.len());
    assert(c.phase == phase_of(true, c.received@.len(), c.ordered@.len()));
}

/// Run the whole pipeline to completion on the given orders, with a pool of
/// `workers` workers: submit every order, drain the intake inbox, have the
/// workers claim and finish every item (the rotation over `workers` picks the
/// schedule, and the guarantees below do not depend on it), route every
/// finished item, and let every customer collect and depart.  Every loop has
/// an explicit termination measure, so once the submission source is
/// exhausted the whole pipeline provably ends: no stage can deadlock.
pub fn run_simulation(order_lists: &Vec<Vec<String>>, workers: usize) -> (sys: System)
    requires
        workers >= 1,
    ensures
        sys.inv(),
        sys.customers@.len() == order_lists@.len(),
        forall|i: int|
            0 <= i < sys.customers@.len() ==> (#[trigger] sys.customers@[i]).phase == Phase::Done,
        forall|i: int|
            0 <= i < sys.customers@.len() ==> (#[trigger] sys.customers@[i]).received_ms()
                == sys.customers@[i].ordered_ms(),
        forall|i: int|
            0 <= i < sys.customers@.len() ==> crate::order::string_views(
                (#[trigger] sys.customers@[i]).ordered@,
            ) == crate::order::string_views(order_lists@[i]@),
        sys.inbox@.len() == 0,
        sys.work_queue@.len() == 0,
        sys.in_progress@.len() == 0,
        sys.completion@.len() == 0,
        sys.router.queues@.len() == 0,
{
    let mut sys = System::new();
    let mut k: usize = 0;
    while k < order_lists.len()
        invariant
            sys.inv(),
            k <= order_lists@.len(),
            sys.customers@.len() == k,
            forall|k2: int| 0 <= k2 < k ==> sys.router.spec_registered(k2),
            sys.work_queue@.len() == 0,
            sys.in_progress@.len() == 0,
            sys.completion@.len() == 0,
            forall|i: int|
                0 <= i < k ==> crate::order::string_views(
                    (#[trigger] sys.customers@[i]).ordered@,
                ) == crate::order::string_views(order_lists@[i]@),
        decreases order_lists@.len() - k,
    {
        let names = order_lists[k].clone();
        proof {
            assert forall|m: int|
                0 <= m < names@.len() implies names@[m] == order_lists@[k as int]@[m] by {
                assert(cloned::<String>(order_lists@[k as int]@[m], names@[m]));
            }
            assert(names@ =~= order_lists@[k as int]@);
        }
        sys.submit_step(names);
        k += 1;
    }
    while sys.inbox.len() > 0
        invariant
            sys.inv(),
            sys.customers@.len() == order_lists@.len(),
            forall|k2: int| 0 <= k2 < sys.customers@.len() ==> sys.router.spec_registered(k2),
            sys.in_progress@.len() == 0,
            sys.completion@.len() == 0,
            forall|i: int|
                0 <= i < sys.customers@.len() ==> crate::order::string_views(
                    (#[trigger] sys.customers@[i]).ordered@,
                ) == crate::order::string_views(order_lists@[i]@),
        decreases sys.inbox@.len(),
    {
        sys.intake_step();
    }
    let mut w: usize = 0;
    while sys.work_queue.len() > 0
        invariant
            sys.inv(),
            workers >= 1,
            w < workers,
            sys.customers@.len() == order_lists@.len(),
            forall|k2: int| 0 <= k2 < sys.customers@.len() ==> sys.router.spec_registered(k2),
            sys.inbox@.len() == 0,
            sys.completion@.len() == 0,
            forall|i: int|
                0 <= i < sys.customers@.len() ==> crate::order::string_views(
                    (#[trigger] sys.customers@[i]).ordered@,
                ) == crate::order::string_views(order_lists@[i]@),
        decreases sys.work_queue@.len(),
    {
        let qi = w % sys.work_queue.len();
        sys.claim_step(qi);
        w = if w + 1 == workers {
            0
        } else {
            w + 1
        };
    }
    while sys.in_progress.len() > 0
        invariant
            sys.inv(),
            workers >= 1,
            w < workers,
            sys.customers@.len() == order_lists@.len(),
            forall|k2: int| 0 <= k2 < sys.customers@.len() ==> sys.router.spec_registered(k2),
            sys.inbox@.len() == 0,
            sys.work_queue@.len() == 0,
            forall|i: int|
                0 <= i < sys.customers@.len() ==> crate::order::string_views(
                    (#[trigger] sys.customers@[i]).ordered@,
                ) == crate::order::string_views(order_lists@[i]@),
        decreases sys.in_progress@.len(),
    {
        let pi = w % sys.in_progress.len();
        sys.finish_step(pi);
        w = if w + 1 == workers {
            0
        } else {
            w + 1
        };
    }
    while sys.completion.len() > 0
        invariant
            sys.inv(),
            sys.customers@.len() == order_lists@.len(),
            forall|k2: int| 0 <= k2 < sys.customers@.len() ==> sys.router.spec_registered(k2),
            sys.inbox@.len() == 0,
            sys.work_queue@.len() == 0,
            sys.in_progress@.len() == 0,
            forall|i: int|
                0 <= i < sys.customers@.len() ==> crate::order::string_views(
                    (#[trigger] sys.customers@[i]).ordered@,
                ) == crate::order::string_views(order_lists@[i]@),
        decreases sys.completion@.len(),
    {
        sys.route_step();
    }
    let total = sys.customers.len();
    let mut i: usize = 0;
    while i < total
        invariant
            sys.inv(),
            total == sys.customers@.len(),
            i <= total,
            sys.customers@.len() == order_lists@.len(),
            sys.inbox@.len() == 0,
            sys.work_queue@.len() == 0,
            sys.in_progress@.len() == 0,
            sys.completion@.len() == 0,
            forall|k2: int|
                0 <= k2 < sys.customers@.len() ==> crate::order::string_views(
                    (#[trigger] sys.customers@[k2]).ordered@,
                ) == crate::order::string_views(order_lists@[k2]@),
            forall|k2: int| i <= k2 < total ==> sys.router.spec_registered(k2),
            forall|k2: int|
                0 <= k2 < i ==> (#[trigger] sys.customers@[k2]).phase == Phase::Done
                    && sys.customers@[k2].received_ms() == sys.customers@[k2].ordered_ms()
                    && !sys.router.spec_registered(k2),
        decreases total - i,
    {
        proof {
            assert(sys.router.spec_registered(i as int));
        }
        sys.collect_step(i);
        proof {
            broadcast use vstd::multiset::group_multiset_axioms;

            assert(order_pool_names(sys.inbox@, i as int) =~= Multiset::<Seq<char>>::empty());
            assert(owned_names(sys.work_queue@, i as int) =~= Multiset::<Seq<char>>::empty());
            assert(owned_names(sys.in_progress@, i as int) =~= Multiset::<Seq<char>>::empty());
            assert(owned_names(sys.completion@, i as int) =~= Multiset::<Seq<char>>::empty());
            assert(sys.pending_ms(i as int).len() == 0);
            lemma_pending_empty_done(sys, i as int);
        }
        sys.retire_step(i);
        i += 1;
    }
    proof {
        assert forall|k2: int|
            0 <= k2 < sys.customers@.len() implies (#[trigger] sys.customers@[k2]).phase
            == Phase::Done && sys.customers@[k2].received_ms()
            == sys.customers@[k2].ordered_ms() by {}
        if sys.router.queues@.len() > 0 {
            let o = sys.router.queues@[0].owner_id;
            assert(sys.router.spec_registered(o as int));
            assert(o < sys.customers@.len());
            assert(sys.customers@[o as int].phase == Phase::Done);
            assert(!sys.router.spec_registered(o as int));
        }
    }
    sys
}

} // verus!
