//! The table of global variables: interned names mapped to values.
//!
//! The table is a sequence of pairs with pairwise distinct names; a lookup
//! walks it from the newest entry backward. Defining a name inserts or
//! replaces unconditionally; assigning demands that the name is present.

use vstd::prelude::*;

use crate::intern::{interned_eq, ustr_chars};
use crate::value::Value;

verus! {

/// The value bound to `name` among `entries`, looked up newest first.
pub open spec fn lookup(entries: Seq<(ustr::Ustr, Value)>, name: Seq<char>) -> Option<Value>
    decreases entries.len(),
{
    if entries.len() == 0 {
        None
    } else if ustr_chars(entries.last().0) == name {
        Some(entries.last().1)
    } else {
        lookup(entries.drop_last(), name)
    }
}

/// The table of global variables.
pub struct Globals {
    pub entries: Vec<(ustr::Ustr, Value)>,
}

impl Globals {
    /// The names are pairwise distinct, so one entry per name decides a
    /// lookup.
    pub open spec fn wf(&self) -> bool {
        forall|i: int, j: int|
            0 <= i < j < self.entries@.len() ==> ustr_chars(#[trigger] self.entries@[i].0)
                != ustr_chars(#[trigger] self.entries@[j].0)
    }

    /// The value bound to a name.
    pub open spec fn spec_get(&self, name: Seq<char>) -> Option<Value> {
        lookup(self.entries@, name)
    }

    /// An empty table.
    pub fn new() -> (g: Self)
        ensures
            g.wf(),
            g.entries@ == Seq::<(ustr::Ustr, Value)>::empty(),
    {
        Globals { entries: Vec::new() }
    }

    /// The position of `name` in the table, where it is present.
    fn position(&self, name: &ustr::Ustr) -> (r: Option<usize>)
        ensures
            match r {
                Some(i) => i < self.entries@.len() && ustr_chars(self.entries@[i as int].0)
                    == ustr_chars(*name),
                None => self.spec_get(ustr_chars(*name)) is None,
            },
    {
        let ghost whole = self.entries@;
        let mut i = self.entries.len();
        proof {
            assert(whole.subrange(0, whole.len() as int) =~= whole);
        }
        loop
            invariant
                i <= whole.len(),
                whole == self.entries@,
                lookup(whole, ustr_chars(*name)) == lookup(
                    whole.subrange(0, i as int),
                    ustr_chars(*name),
                ),
            decreases i,
        {
            if i == 0 {
                proof {
                    assert(whole.subrange(0, 0) =~= Seq::<(ustr::Ustr, Value)>::empty());
                }
                return None;
            }
            let ghost prefix = whole.subrange(0, i as int);
            proof {
                assert(prefix.last() == whole[i - 1]);
                assert(prefix.drop_last() =~= whole.subrange(0, i - 1));
            }
            if interned_eq(&self.entries[i - 1].0, name) {
                return Some(i - 1);
            }
            i = i - 1;
        }
    }

    /// Binds `name` to `v`, inserting it or replacing its former value.
    pub fn define(&mut self, name: ustr::Ustr, v: Value)
        requires
            old(self).wf(),
        ensures
            final(self).wf(),
            forall|k: Seq<char>|
                #[trigger] final(self).spec_get(k) == (if k == ustr_chars(name) {
                    Some(v)
                } else {
                    old(self).spec_get(k)
                }),
    {
        let pos = self.position(&name);
        match pos {
            Some(i) => {
                self.entries.set(i, (name, v));
                proof {
                    lemma_lookup_update(old(self).entries@, i as int, name, v);
                }
            },
            None => {
                self.entries.push((name, v));
                proof {
                    lemma_lookup_push(old(self).entries@, name, v);
                }
            },
        }
    }

    /// The value bound to `name`, where one is.
    pub fn get(&self, name: &ustr::Ustr) -> (r: Option<Value>)
        requires
            self.wf(),
        ensures
            r == self.spec_get(ustr_chars(*name)),
    {
        match self.position(name) {
            Some(i) => {
                proof {
                    lemma_lookup_found(self.entries@, i as int, ustr_chars(*name));
                }
                Some(self.entries[i].1)
            },
            None => None,
        }
    }

    /// Rebinds `name` where it is already bound; reports whether it was.
    pub fn assign(&mut self, name: ustr::Ustr, v: Value) -> (present: bool)
        requires
            old(self).wf(),
        ensures
            final(self).wf(),
            present == old(self).spec_get(ustr_chars(name)) is Some,
            present ==> forall|k: Seq<char>|
                #[trigger] final(self).spec_get(k) == (if k == ustr_chars(name) {
                    Some(v)
                } else {
                    old(self).spec_get(k)
                }),
            !present ==> final(self).entries@ == old(self).entries@,
    {
        let pos = self.position(&name);
        match pos {
            Some(i) => {
                proof {
                    lemma_lookup_found(old(self).entries@, i as int, ustr_chars(name));
                }
                self.entries.set(i, (name, v));
                proof {
                    lemma_lookup_update(old(self).entries@, i as int, name, v);
                }
                true
            },
            None => false,
        }
    }
}

/// A name that sits at a position of a well-distinct table is what its
/// lookup finds.
proof fn lemma_lookup_found(entries: Seq<(ustr::Ustr, Value)>, i: int, name: Seq<char>)
    requires
        0 <= i < entries.len(),
        ustr_chars(entries[i].0) == name,
        forall|a: int, b: int|
            0 <= a < b < entries.len() ==> ustr_chars(#[trigger] entries[a].0) != ustr_chars(
                #[trigger] entries[b].0,
            ),
    ensures
        lookup(entries, name) == Some(entries[i].1),
    decreases entries.len(),
{
    if i == entries.len() - 1 {
    } else {
        assert(ustr_chars(entries.last().0) != name);
        assert(entries.drop_last()[i] == entries[i]);
        lemma_lookup_found(entries.drop_last(), i, name);
    }
}

/// Replacing the entry that holds a name rebinds that name and nothing else.
proof fn lemma_lookup_update(entries: Seq<(ustr::Ustr, Value)>, i: int, name: ustr::Ustr, v: Value)
    requires
        0 <= i < entries.len(),
        ustr_chars(entries[i].0) == ustr_chars(name),
        forall|a: int, b: int|
            0 <= a < b < entries.len() ==> ustr_chars(#[trigger] entries[a].0) != ustr_chars(
                #[trigger] entries[b].0,
            ),
    ensures
        forall|k: Seq<char>|
            #[trigger] lookup(entries.update(i, (name, v)), k) == (if k == ustr_chars(name) {
                Some(v)
            } else {
                lookup(entries, k)
            }),
    decreases entries.len(),
{
    let updated = entries.update(i, (name, v));
    if i == entries.len() - 1 {
        assert(updated.last() == (name, v));
        assert(updated.drop_last() =~= entries.drop_last());
        assert forall|k: Seq<char>| #[trigger] lookup(updated, k) == (if k == ustr_chars(name) {
            Some(v)
        } else {
            lookup(entries, k)
        }) by {
            if k != ustr_chars(name) {
                assert(lookup(updated, k) == lookup(updated.drop_last(), k));
            }
        }
    } else {
        assert(updated.last() == entries.last());
        assert(updated.drop_last() =~= entries.drop_last().update(i, (name, v)));
        assert(entries.drop_last()[i] == entries[i]);
        lemma_lookup_update(entries.drop_last(), i, name, v);
        assert forall|k: Seq<char>| #[trigger] lookup(updated, k) == (if k == ustr_chars(name) {
            Some(v)
        } else {
            lookup(entries, k)
        }) by {
            assert(lookup(updated.drop_last(), k) == lookup(
                entries.drop_last().update(i, (name, v)),
                k,
            ));
            if k == ustr_chars(name) {
                assert(ustr_chars(entries[i].0) != ustr_chars(entries[entries.len() - 1].0));
                assert(entries.last() == entries[entries.len() - 1]);
                assert(ustr_chars(entries.last().0) != k);
            }
        }
    }
}

/// Appending an entry for a fresh name binds that name and nothing else.
proof fn lemma_lookup_push(entries: Seq<(ustr::Ustr, Value)>, name: ustr::Ustr, v: Value)
    requires
        lookup(entries, ustr_chars(name)) is None,
    ensures
        forall|k: Seq<char>|
            #[trigger] lookup(entries.push((name, v)), k) == (if k == ustr_chars(name) {
                Some(v)
            } else {
                lookup(entries, k)
            }),
        forall|j: int|
            0 <= j < entries.len() ==> ustr_chars(#[trigger] entries[j].0) != ustr_chars(name),
{
    let pushed = entries.push((name, v));
    assert(pushed.last() == (name, v));
    assert(pushed.drop_last() =~= entries);
    lemma_lookup_none_all(entries, ustr_chars(name));
}

/// A name that a lookup misses sits nowhere in the table.
proof fn lemma_lookup_none_all(entries: Seq<(ustr::Ustr, Value)>, name: Seq<char>)
    requires
        lookup(entries, name) is None,
    ensures
        forall|j: int| 0 <= j < entries.len() ==> ustr_chars(#[trigger] entries[j].0) != name,
    decreases entries.len(),
{
    if entries.len() > 0 {
        lemma_lookup_none_all(entries.drop_last(), name);
        assert forall|j: int| 0 <= j < entries.len() implies ustr_chars(#[trigger] entries[j].0)
            != name by {
            if j < entries.len() - 1 {
                assert(entries.drop_last()[j] == entries[j]);
            }
        }
    }
}

} // verus!
