//! The intake stage: accepts one order at a time from the customer-facing
//! channel and decomposes it into individual items for the shared work queue.

use vstd::prelude::*;
use crate::order::{Item, Order};

verus! {

/// What the intake stage saw on its inbound channel: one more order, or the
/// channel closed because no further customer will submit.
pub enum IntakeEvent {
    Submitted(Order),
    Closed,
}

/// What the intake stage decides to do next.
pub enum IntakeAction {
    /// Enqueue these items, each tagged with its owner, onto the work queue.
    Dispatch(Vec<Item>),
    /// The order held no items: signal completion for this customer at once,
    /// so it does not wait on the work queue.
    AcknowledgeEmpty(usize),
    /// Inbound channel closed and drained: terminate cleanly.
    Shutdown,
}

/// Take an order apart into the items to enqueue, in order.
pub fn decompose(order: Order) -> (items: Vec<Item>)
    requires
        order.wf(),
    ensures
        items@ == order.items@,
        forall|k: int|
            0 <= k < items@.len() ==> (#[trigger] items@[k]).owner_id == order.owner_id
                && items@[k].state == crate::order::ItemState::Pending,
{
    let Order { owner_id: _, items } = order;
    items
}

/// One reaction of the intake stage: a non-empty order is dispatched item by
/// item, an empty one is acknowledged so its customer is not left waiting,
/// and a closed inbox shuts the stage down.
pub fn intake_step(event: IntakeEvent) -> (a: IntakeAction)
    requires
        event matches IntakeEvent::Submitted(o) ==> o.wf(),
    ensures
        match event {
            IntakeEvent::Submitted(o) => {
                if o.items@.len() == 0 {
                    a == IntakeAction::AcknowledgeEmpty(o.owner_id)
                } else {
                    a matches IntakeAction::Dispatch(items) && items@ == o.items@
                }
            },
            IntakeEvent::Closed => a == IntakeAction::Shutdown,
        },
{
    match event {
        IntakeEvent::Submitted(o) => {
            if o.items.len() == 0 {
                IntakeAction::AcknowledgeEmpty(o.owner_id)
            } else {
                IntakeAction::Dispatch(decompose(o))
            }
        },
        IntakeEvent::Closed => IntakeAction::Shutdown,
    }
}

} // verus!
