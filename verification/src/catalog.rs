//! The static menu: a read-only mapping from item name to category and price.
//!
//! The pipeline core only reads names for dispatch bookkeeping; prices are
//! carried in whole cents so the catalog stays plain data.

use vstd::prelude::*;

verus! {

/// Whether a menu item is a drink or food.
#[derive(Clone, Copy, PartialEq, Eq, Structural, Debug)]
pub enum Category {
    Drink,
    Food,
}

/// One entry of the menu: an item name, its category, and its price in cents.
pub struct MenuEntry {
    pub name: String,
    pub category: Category,
    pub price_cents: u64,
}

/// An immutable lookup table from item name to category and price,
/// constructed once at startup and handed to the intake stage.
pub struct Catalog {
    pub entries: Vec<MenuEntry>,
}

impl Catalog {
    /// Entry names are pairwise distinct, so lookup by name is unambiguous.
    pub open spec fn wf(self) -> bool {
        forall|i: int, j: int|
            0 <= i < j < self.entries@.len() ==> self.entries@[i].name@ != self.entries@[j].name@
    }

    /// Some entry carries this name.
    pub open spec fn spec_has_name(self, name: Seq<char>) -> bool {
        exists|i: int| 0 <= i < self.entries@.len() && self.entries@[i].name@ == name
    }

    /// An empty catalog.
    pub fn new() -> (r: Catalog)
        ensures
            r.entries@.len() == 0,
            r.wf(),
    {
        Catalog { entries: Vec::new() }
    }

    /// Add an entry unless the name is already taken; reports whether it was added.
    pub fn add(&mut self, name: String, category: Category, price_cents: u64) -> (added: bool)
        requires
            old(self).wf(),
        ensures
            final(self).wf(),
            added == !old(self).spec_has_name(name@),
            final(self).spec_has_name(name@),
            added ==> final(self).entries@ == old(self).entries@.push(
                MenuEntry { name, category, price_cents },
            ),
            !added ==> *final(self) == *old(self),
            forall|n: Seq<char>|
                #[trigger] old(self).spec_has_name(n) ==> final(self).spec_has_name(n),
    {
        if self.find_index(&name).is_some() {
            return false;
        }
        let ghost len0 = self.entries@.len() as int;
        self.entries.push(MenuEntry { name, category, price_cents });
        proof {
            assert(self.entries@[len0].name@ == name@);
            assert forall|n: Seq<char>| old(self).spec_has_name(n) implies self.spec_has_name(
                n,
            ) by {
                let i = choose|i: int|
                    0 <= i < old(self).entries@.len() && old(self).entries@[i].name@ == n;
                assert(self.entries@[i] == old(self).entries@[i]);
            }
            assert forall|i: int, j: int|
                0 <= i < j < self.entries@.len() implies self.entries@[i].name@
                != self.entries@[j].name@ by {
                if j < len0 {
                    assert(self.entries@[i] == old(self).entries@[i]);
                    assert(self.entries@[j] == old(self).entries@[j]);
                } else {
                    assert(self.entries@[i] == old(self).entries@[i]);
                    assert(!old(self).spec_has_name(name@));
                }
            }
        }
        true
    }

    /// Position of the entry with this name, if any.
    pub fn find_index(&self, name: &String) -> (r: Option<usize>)
        ensures
            match r {
                Some(i) => i < self.entries@.len() && self.entries@[i as int].name@ == name@,
                None => !self.spec_has_name(name@),
            },
    {
        let mut i: usize = 0;
        while i < self.entries.len()
            invariant
                i <= self.entries@.len(),
                forall|k: int| 0 <= k < i ==> self.entries@[k].name@ != name@,
            decreases self.entries@.len() - i,
        {
            if self.entries[i].name == *name {
                return Some(i);
            }
            i += 1;
        }
        None
    }

    /// The entry with this name, if any.
    pub fn lookup(&self, name: &String) -> (r: Option<&MenuEntry>)
        ensures
            match r {
                Some(e) => e.name@ == name@ && self.entries@.contains(*e),
                None => !self.spec_has_name(name@),
            },
    {
        match self.find_index(name) {
            Some(i) => {
                let e = &self.entries[i];
                proof {
                    assert(self.entries@[i as int] == *e);
                }
                Some(e)
            },
            None => None,
        }
    }

    /// The price in cents of the item with this name, if it is on the menu.
    pub fn price_of(&self, name: &String) -> (r: Option<u64>)
        ensures
            r.is_some() == self.spec_has_name(name@),
            match r {
                Some(p) => exists|i: int|
                    0 <= i < self.entries@.len() && self.entries@[i].name@ == name@
                        && self.entries@[i].price_cents == p,
                None => true,
            },
    {
        match self.find_index(name) {
            Some(i) => Some(self.entries[i].price_cents),
            None => None,
        }
    }

    /// How many entries the menu holds.
    pub fn len(&self) -> (r: usize)
        ensures
            r == self.entries@.len(),
    {
        self.entries.len()
    }
}

/// The standard menu of the simulation: three drinks and four foods,
/// each with a fixed price in cents.
pub fn standard_menu() -> (r: Catalog)
    ensures
        r.wf(),
        r.entries@.len() == 7,
        r.spec_has_name("Drip Coffee"@),
        r.spec_has_name("Latte"@),
        r.spec_has_name("Mocha"@),
        r.spec_has_name("Muffin"@),
        r.spec_has_name("Omelette"@),
        r.spec_has_name("Toast"@),
        r.spec_has_name("Egg Bacon English Muffin Sandwich"@),
{
    // The names must be revealed, and told apart by length or first
    // character, before each addition can be shown to be fresh.
    proof {
        reveal_strlit("Drip Coffee");
        reveal_strlit("Latte");
        reveal_strlit("Mocha");
        reveal_strlit("Muffin");
        reveal_strlit("Omelette");
        reveal_strlit("Toast");
        reveal_strlit("Egg Bacon English Muffin Sandwich");
        assert("Drip Coffee"@.len() == 11);
        assert("Drip Coffee"@[0] == 'D');
        assert("Latte"@.len() == 5);
        assert("Latte"@[0] == 'L');
        assert("Mocha"@.len() == 5);
        assert("Mocha"@[0] == 'M');
        assert("Muffin"@.len() == 6);
        assert("Muffin"@[0] == 'M');
        assert("Omelette"@.len() == 8);
        assert("Omelette"@[0] == 'O');
        assert("Toast"@.len() == 5);
        assert("Toast"@[0] == 'T');
        assert("Egg Bacon English Muffin Sandwich"@.len() == 33);
        assert("Egg Bacon English Muffin Sandwich"@[0] == 'E');
        assert("Drip Coffee"@ != "Latte"@);
        assert("Drip Coffee"@ != "Mocha"@);
        assert("Drip Coffee"@ != "Muffin"@);
        assert("Drip Coffee"@ != "Omelette"@);
        assert("Drip Coffee"@ != "Toast"@);
        assert("Drip Coffee"@ != "Egg Bacon English Muffin Sandwich"@);
        assert("Latte"@ != "Mocha"@);
        assert("Latte"@ != "Muffin"@);
        assert("Latte"@ != "Omelette"@);
        assert("Latte"@ != "Toast"@);
        assert("Latte"@ != "Egg Bacon English Muffin Sandwich"@);
        assert("Mocha"@ != "Muffin"@);
        assert("Mocha"@ != "Omelette"@);
        assert("Mocha"@ != "Toast"@);
        assert("Mocha"@ != "Egg Bacon English Muffin Sandwich"@);
        assert("Muffin"@ != "Omelette"@);
        assert("Muffin"@ != "Toast"@);
        assert("Muffin"@ != "Egg Bacon English Muffin Sandwich"@);
        assert("Omelette"@ != "Toast"@);
        assert("Omelette"@ != "Egg Bacon English Muffin Sandwich"@);
        assert("Toast"@ != "Egg Bacon English Muffin Sandwich"@);
    }
    let mut c = Catalog::new();
    let a0 = c.add("Drip Coffee".to_owned(), Category::Drink, 250);
    assert(a0);
    proof {
        assert(c.entries@[0].name@ == "Drip Coffee"@);
    }
    let a1 = c.add("Latte".to_owned(), Category::Drink, 300);
    assert(a1);
    proof {
        assert(c.entries@[0].name@ == "Drip Coffee"@);
        assert(c.entries@[1].name@ == "Latte"@);
    }
    let a2 = c.add("Mocha".to_owned(), Category::Drink, 400);
    assert(a2);
    proof {
        assert(c.entries@[0].name@ == "Drip Coffee"@);
        assert(c.entries@[1].name@ == "Latte"@);
        assert(c.entries@[2].name@ == "Mocha"@);
    }
    let a3 = c.add("Muffin".to_owned(), Category::Food, 500);
    assert(a3);
    proof {
        assert(c.entries@[0].name@ == "Drip Coffee"@);
        assert(c.entries@[1].name@ == "Latte"@);
        assert(c.entries@[2].name@ == "Mocha"@);
        assert(c.entries@[3].name@ == "Muffin"@);
    }
    let a4 = c.add("Omelette".to_owned(), Category::Food, 500);
    assert(a4);
    proof {
        assert(c.entries@[0].name@ == "Drip Coffee"@);
        assert(c.entries@[1].name@ == "Latte"@);
        assert(c.entries@[2].name@ == "Mocha"@);
        assert(c.entries@[3].name@ == "Muffin"@);
        assert(c.entries@[4].name@ == "Omelette"@);
    }
    let a5 = c.add("Toast".to_owned(), Category::Food, 200);
    assert(a5);
    proof {
        assert(c.entries@[0].name@ == "Drip Coffee"@);
        assert(c.entries@[1].name@ == "Latte"@);
        assert(c.entries@[2].name@ == "Mocha"@);
        assert(c.entries@[3].name@ == "Muffin"@);
        assert(c.entries@[4].name@ == "Omelette"@);
        assert(c.entries@[5].name@ == "Toast"@);
    }
    let a6 = c.add("Egg Bacon English Muffin Sandwich".to_owned(), Category::Food, 1500);
    assert(a6);
    c
}

} // verus!
