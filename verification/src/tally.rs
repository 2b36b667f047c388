//! Name-multiset bookkeeping: which item names, per owning customer, sit in a
//! pool of items or orders.  The whole-pipeline conservation argument is
//! phrased with these tallies.

use vstd::prelude::*;
use vstd::multiset::Multiset;
use crate::order::{item_names, Item, Order};

verus! {

/// The multiset of names among `s` that belong to customer `id`.
pub open spec fn owned_names(s: Seq<Item>, id: int) -> Multiset<Seq<char>>
    decreases s.len(),
{
    if s.len() == 0 {
        Multiset::empty()
    } else {
        let rest = owned_names(s.drop_last(), id);
        if s.last().owner_id == id {
            rest.insert(s.last().name@)
        } else {
            rest
        }
    }
}

/// The multiset of names among the orders of `s` that belong to customer `id`.
pub open spec fn order_pool_names(s: Seq<Order>, id: int) -> Multiset<Seq<char>>
    decreases s.len(),
{
    if s.len() == 0 {
        Multiset::empty()
    } else {
        order_pool_names(s.drop_last(), id).add(owned_names(s.last().items@, id))
    }
}

/// Adding the same multiset on both sides of an equation cancels.
pub proof fn lemma_add_cancel<V>(a: Multiset<V>, b: Multiset<V>, c: Multiset<V>)
    requires
        a.add(c) == b.add(c),
    ensures
        a == b,
{
    broadcast use vstd::multiset::group_multiset_axioms;

    assert forall|v: V| a.count(v) == b.count(v) by {
        vstd::multiset::axiom_multiset_add(a, c, v);
        vstd::multiset::axiom_multiset_add(b, c, v);
        assert(a.add(c).count(v) == b.add(c).count(v));
    }
    assert(a =~= b);
}

/// Appending one item grows the owner's tally by that item's name and leaves
/// every other customer's tally unchanged.
pub proof fn lemma_owned_names_push(s: Seq<Item>, x: Item, id: int)
    ensures
        owned_names(s.push(x), id) == if x.owner_id == id {
            owned_names(s, id).insert(x.name@)
        } else {
            owned_names(s, id)
        },
{
    assert(s.push(x).drop_last() =~= s);
    assert(s.push(x).last() == x);
}

/// Removing the item at any position shrinks the owner's tally by that item's
/// name and leaves every other customer's tally unchanged.
pub proof fn lemma_owned_names_remove(s: Seq<Item>, i: int, id: int)
    requires
        0 <= i < s.len(),
    ensures
        owned_names(s, id) == if s[i].owner_id == id {
            owned_names(s.remove(i), id).insert(s[i].name@)
        } else {
            owned_names(s.remove(i), id)
        },
    decreases s.len(),
{
    broadcast use vstd::multiset::group_multiset_axioms;

    if i == s.len() - 1 {
        assert(s.remove(i) =~= s.drop_last());
    } else {
        let t = s.drop_last();
        lemma_owned_names_remove(t, i, id);
        assert(s.remove(i).drop_last() =~= t.remove(i));
        assert(s.remove(i).last() == s.last());
        assert(t[i] == s[i]);
        if s[i].owner_id == id && s.last().owner_id == id {
            assert(owned_names(t.remove(i), id).insert(s[i].name@).insert(s.last().name@)
                =~= owned_names(t.remove(i), id).insert(s.last().name@).insert(s[i].name@));
        }
    }
}

/// Concatenation adds the tallies of the two halves.
pub proof fn lemma_owned_names_concat(a: Seq<Item>, b: Seq<Item>, id: int)
    ensures
        owned_names(a + b, id) == owned_names(a, id).add(owned_names(b, id)),
    decreases b.len(),
{
    broadcast use vstd::multiset::group_multiset_axioms;

    if b.len() == 0 {
        assert(a + b =~= a);
        assert(owned_names(a, id).add(Multiset::empty()) =~= owned_names(a, id));
    } else {
        lemma_owned_names_concat(a, b.drop_last(), id);
        assert((a + b).drop_last() =~= a + b.drop_last());
        assert((a + b).last() == b.last());
        if b.last().owner_id == id {
            assert(owned_names(a, id).add(owned_names(b.drop_last(), id).insert(b.last().name@))
                =~= owned_names(a, id).add(owned_names(b.drop_last(), id)).insert(
                b.last().name@,
            ));
        }
    }
}

/// When every item of `s` belongs to `id`, the tally is exactly the names of
/// `s`, one per item.
pub proof fn lemma_owned_names_all(s: Seq<Item>, id: int)
    requires
        forall|i: int| 0 <= i < s.len() ==> (#[trigger] s[i]).owner_id == id,
    ensures
        owned_names(s, id).len() == s.len(),
        owned_names(s, id) == item_names(s).to_multiset(),
    decreases s.len(),
{
    broadcast use vstd::multiset::group_multiset_axioms;
    broadcast use vstd::seq_lib::group_to_multiset_ensures;

    if s.len() == 0 {
        assert(item_names(s) =~= Seq::<Seq<char>>::empty());
        assert(Seq::<Seq<char>>::empty().to_multiset() =~= Multiset::<Seq<char>>::empty());
    } else {
        let t = s.drop_last();
        lemma_owned_names_all(t, id);
        assert(item_names(s) =~= item_names(t).push(s.last().name@));
    }
}

/// When no item of `s` belongs to `id`, the tally for `id` is empty.
pub proof fn lemma_owned_names_none(s: Seq<Item>, id: int)
    requires
        forall|i: int| 0 <= i < s.len() ==> (#[trigger] s[i]).owner_id != id,
    ensures
        owned_names(s, id) == Multiset::<Seq<char>>::empty(),
    decreases s.len(),
{
    if s.len() > 0 {
        lemma_owned_names_none(s.drop_last(), id);
    }
}

/// An empty tally holds no item of `id`: the converse of the lemma above.
pub proof fn lemma_owned_names_empty_means_none(s: Seq<Item>, id: int)
    requires
        owned_names(s, id).len() == 0,
    ensures
        forall|i: int| 0 <= i < s.len() ==> (#[trigger] s[i]).owner_id != id,
    decreases s.len(),
{
    broadcast use vstd::multiset::group_multiset_axioms;

    if s.len() > 0 {
        assert(owned_names(s.drop_last(), id).len() == 0);
        lemma_owned_names_empty_means_none(s.drop_last(), id);
        assert forall|i: int| 0 <= i < s.len() implies (#[trigger] s[i]).owner_id != id by {
            if i < s.len() - 1 {
                assert(s.drop_last()[i] == s[i]);
            }
        }
    }
}

/// When no item of any order in `s` belongs to `id`, the pool tally for `id`
/// is empty.
pub proof fn lemma_order_pool_names_none(s: Seq<Order>, id: int)
    requires
        forall|k: int, m: int|
            0 <= k < s.len() && 0 <= m < s[k].items@.len() ==> (#[trigger] s[k].items@[m]).owner_id
                != id,
    ensures
        order_pool_names(s, id) == Multiset::<Seq<char>>::empty(),
    decreases s.len(),
{
    broadcast use vstd::multiset::group_multiset_axioms;

    if s.len() > 0 {
        let t = s.drop_last();
        assert(forall|k: int, m: int|
            0 <= k < t.len() && 0 <= m < t[k].items@.len() ==> (#[trigger] t[k].items@[m]).owner_id
                != id);
        lemma_order_pool_names_none(t, id);
        assert(forall|m: int|
            0 <= m < s.last().items@.len() ==> (#[trigger] s.last().items@[m]).owner_id != id);
        lemma_owned_names_none(s.last().items@, id);
        assert(order_pool_names(s, id) =~= Multiset::<Seq<char>>::empty());
    }
}

/// An empty pool tally holds no item of `id` in any of its orders.
pub proof fn lemma_order_pool_names_empty_means_none(s: Seq<Order>, id: int)
    requires
        order_pool_names(s, id).len() == 0,
    ensures
        forall|k: int, m: int|
            0 <= k < s.len() && 0 <= m < s[k].items@.len() ==> (#[trigger] s[k].items@[m]).owner_id
                != id,
    decreases s.len(),
{
    broadcast use vstd::multiset::group_multiset_axioms;

    if s.len() > 0 {
        let t = s.drop_last();
        assert(order_pool_names(t, id).len() == 0);
        lemma_order_pool_names_empty_means_none(t, id);
        assert(owned_names(s.last().items@, id).len() == 0);
        lemma_owned_names_empty_means_none(s.last().items@, id);
        assert forall|k: int, m: int|
            0 <= k < s.len() && 0 <= m < s[k].items@.len() implies (
        #[trigger] s[k].items@[m]).owner_id != id by {
            if k < s.len() - 1 {
                assert(t[k].items@[m].owner_id != id);
            } else {
                assert(s.last().items@[m].owner_id != id);
            }
        }
    }
}

/// Submitting one more order grows only its own customer's pool tally.
pub proof fn lemma_order_pool_names_push(s: Seq<Order>, o: Order, id: int)
    ensures
        order_pool_names(s.push(o), id) == order_pool_names(s, id).add(
            owned_names(o.items@, id),
        ),
{
    assert(s.push(o).drop_last() =~= s);
    assert(s.push(o).last() == o);
}

/// Taking the most recent order out of the pool splits its tally off.
pub proof fn lemma_order_pool_names_pop(s: Seq<Order>, id: int)
    requires
        s.len() > 0,
    ensures
        order_pool_names(s, id) == order_pool_names(s.subrange(0, s.len() - 1), id).add(
            owned_names(s.last().items@, id),
        ),
{
    assert(s.subrange(0, s.len() - 1) =~= s.drop_last());
}

} // verus!
