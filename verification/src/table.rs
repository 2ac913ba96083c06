//! A small table from names to lists of strings, for the few names that a
//! format holds. A name stands in it once.

use vstd::prelude::*;
use vstd::string::*;

verus! {

/// A table from names to lists of strings.
#[derive(Debug)]
pub struct Table {
    rows: Vec<(String, Vec<String>)>,
}

impl View for Table {
    type V = Map<Seq<char>, Seq<Seq<char>>>;

    /// The list of each name.
    closed spec fn view(&self) -> Map<Seq<char>, Seq<Seq<char>>> {
        Map::new(
            |name: Seq<char>| self.holds(name),
            |name: Seq<char>| self.rows[self.slot(name)].1.deep_view(),
        )
    }
}

impl Table {
    #[verifier::type_invariant]
    closed spec fn wf(self) -> bool {
        forall|i: int, j: int| 0 <= i < j < self.rows.len() ==> self.rows[i].0@ != self.rows[j].0@
    }

    spec fn holds(&self, name: Seq<char>) -> bool {
        exists|i: int| 0 <= i < self.rows.len() && (#[trigger] self.rows[i]).0@ == name
    }

    spec fn slot(&self, name: Seq<char>) -> int {
        choose|i: int| 0 <= i < self.rows.len() && (#[trigger] self.rows[i]).0@ == name
    }

    /// An empty table.
    pub fn new() -> (table: Self)
        ensures
            table@ == Map::<Seq<char>, Seq<Seq<char>>>::empty(),
    {
        let table = Self { rows: Vec::new() };
        proof {
            assert(table@ =~= Map::<Seq<char>, Seq<Seq<char>>>::empty());
        }
        table
    }

    fn find(&self, name: &str) -> (found: Option<usize>)
        ensures
            match found {
                Some(i) => i < self.rows.len() && self.rows[i as int].0@ == name@ && self.holds(
                    name@,
                ) && self.slot(name@) == i,
                None => !self.holds(name@),
            },
    {
        proof {
            use_type_invariant(self);
        }
        let wanted = name.to_owned();
        let mut i: usize = 0;
        while i < self.rows.len()
            invariant
                0 <= i <= self.rows.len(),
                wanted@ == name@,
                self.wf(),
                forall|j: int| 0 <= j < i ==> (#[trigger] self.rows[j]).0@ != name@,
            decreases self.rows.len() - i,
        {
            if self.rows[i].0 == wanted {
                assert(self.rows[i as int].0@ == name@);
                return Some(i);
            }
            i += 1;
        }
        None
    }

    /// The list of `name`, if the table has one.
    pub fn get(&self, name: &str) -> (list: Option<&Vec<String>>)
        ensures
            list is Some == self@.contains_key(name@),
            list matches Some(l) ==> l.deep_view() == self@[name@],
    {
        match self.find(name) {
            Some(i) => Some(&self.rows[i].1),
            None => None,
        }
    }

    /// Gives `name` the list `list`, in place of the one it had, if any.
    pub fn insert(&mut self, name: String, list: Vec<String>)
        ensures
            final(self)@ == old(self)@.insert(name@, list.deep_view()),
    {
        proof {
            use_type_invariant(&*self);
        }
        let ghost before = *self;
        let found = self.find(name.as_str());
        let mut rows: Vec<(String, Vec<String>)> = Vec::new();
        std::mem::swap(&mut rows, &mut self.rows);
        match found {
            Some(i) => {
                rows.set(i, (name, list));
                self.rows = rows;
                proof {
                    assert forall|p: Seq<char>| self.holds(p) == before.holds(p) by {
                        if before.holds(p) {
                            assert(self.rows[before.slot(p)].0@ == p);
                        }
                        if self.holds(p) {
                            assert(before.rows[self.slot(p)].0@ == p);
                        }
                    }
                    assert(self@ =~= before@.insert(name@, list.deep_view()));
                }
            },
            None => {
                rows.push((name, list));
                self.rows = rows;
                proof {
                    assert forall|p: Seq<char>| self.holds(p) == (before.holds(p) || p == name@) by {
                        if before.holds(p) {
                            assert(self.rows[before.slot(p)].0@ == p);
                        }
                        if p == name@ {
                            assert(self.rows[self.rows.len() - 1].0@ == p);
                        }
                    }
                    assert(self@ =~= before@.insert(name@, list.deep_view()));
                }
            },
        }
    }
}

} // verus!
