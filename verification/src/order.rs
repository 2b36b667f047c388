//! Items and orders: the records that flow through the pipeline.

use vstd::prelude::*;

verus! {

/// The views of a sequence of item names.
pub open spec fn item_names(s: Seq<Item>) -> Seq<Seq<char>> {
    s.map_values(|it: Item| it.name@)
}

/// The views of a sequence of strings.
pub open spec fn string_views(s: Seq<String>) -> Seq<Seq<char>> {
    s.map_values(|n: String| n@)
}

/// Where an item stands in its life cycle: created, claimed by a worker,
/// or finished and immutable.
#[derive(Clone, Copy, PartialEq, Eq, Structural, Debug)]
pub enum ItemState {
    Pending,
    InProgress,
    Done,
}

/// One unit of work: a named menu item tied to exactly one owning customer.
pub struct Item {
    pub name: String,
    pub owner_id: usize,
    pub state: ItemState,
}

/// A customer's full request: zero or more items, all owned by that customer.
/// The order record is not mutated after creation; only its items move on.
pub struct Order {
    pub owner_id: usize,
    pub items: Vec<Item>,
}

impl Order {
    /// Every contained item carries the order's owner and has not been started.
    pub open spec fn wf(self) -> bool {
        forall|i: int|
            0 <= i < self.items@.len() ==> (#[trigger] self.items@[i]).owner_id == self.owner_id
                && self.items@[i].state == ItemState::Pending
    }

    /// The names the order asks for, in submission order.
    pub open spec fn spec_names(self) -> Seq<Seq<char>> {
        item_names(self.items@)
    }

    /// Build an order for `owner_id` out of a list of item names.
    pub fn new(owner_id: usize, names: &Vec<String>) -> (r: Order)
        ensures
            r.wf(),
            r.owner_id == owner_id,
            r.items@.len() == names@.len(),
            forall|i: int| 0 <= i < names@.len() ==> r.spec_names()[i] == names@[i]@,
    {
        let mut items: Vec<Item> = Vec::new();
        let mut i: usize = 0;
        while i < names.len()
            invariant
                i <= names@.len(),
                items@.len() == i,
                forall|k: int|
                    0 <= k < i ==> (#[trigger] items@[k]).owner_id == owner_id
                        && items@[k].state == ItemState::Pending && items@[k].name@ == names@[k]@,
            decreases names@.len() - i,
        {
            items.push(Item { name: names[i].clone(), owner_id, state: ItemState::Pending });
            i += 1;
        }
        Order { owner_id, items }
    }

    /// How many items the order asks for.
    pub fn len(&self) -> (r: usize)
        ensures
            r == self.items@.len(),
    {
        self.items.len()
    }
}

} // verus!
