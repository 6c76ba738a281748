//! A map from names to values that keeps its entries in the order of names.

use crate::text::{
    lemma_precedes_asymmetric, lemma_precedes_irreflexive, lemma_precedes_total,
    lemma_precedes_transitive, precedes, rank_of, Rank,
};
use vstd::prelude::*;

verus! {

/// Whether the names of `s` ascend strictly, so that none occurs twice.
pub open spec fn sorted<T>(s: Seq<(Seq<char>, T)>) -> bool {
    forall|i: int, j: int| 0 <= i < j < s.len() ==> precedes(#[trigger] s[i].0, #[trigger] s[j].0)
}

/// The number of entries at the start of `s` whose names precede `name`: in a
/// sorted sequence, the place where `name` stands or would stand.
pub open spec fn slot<T>(s: Seq<(Seq<char>, T)>, name: Seq<char>) -> int
    decreases s.len(),
{
    if s.len() == 0 || !precedes(s[0].0, name) {
        0
    } else {
        1 + slot(s.drop_first(), name)
    }
}

/// Whether `s` has an entry for `name` at the place where `name` stands.
pub open spec fn has_name<T>(s: Seq<(Seq<char>, T)>, name: Seq<char>) -> bool {
    slot(s, name) < s.len() && s[slot(s, name)].0 == name
}

/// The value that `s` holds for `name`.
pub open spec fn lookup<T>(s: Seq<(Seq<char>, T)>, name: Seq<char>) -> Option<T> {
    if has_name(s, name) {
        Some(s[slot(s, name)].1)
    } else {
        None
    }
}

/// `s` with `value` for `name`: in place of the value that `s` held for it, or
/// as a new entry at the place that the order gives it.
pub open spec fn put<T>(s: Seq<(Seq<char>, T)>, name: Seq<char>, value: T) -> Seq<(Seq<char>, T)> {
    if has_name(s, name) {
        s.update(slot(s, name), (name, value))
    } else {
        s.insert(slot(s, name), (name, value))
    }
}

/// `s` without its entry for `name`.
pub open spec fn without<T>(s: Seq<(Seq<char>, T)>, name: Seq<char>) -> Seq<(Seq<char>, T)> {
    if has_name(s, name) {
        s.remove(slot(s, name))
    } else {
        s
    }
}

/// `slot` lies within the sequence, and the names before it precede `name`,
/// while the one at it does not.
pub proof fn lemma_slot<T>(s: Seq<(Seq<char>, T)>, name: Seq<char>)
    ensures
        0 <= slot(s, name) <= s.len(),
        forall|i: int| 0 <= i < slot(s, name) ==> precedes(#[trigger] s[i].0, name),
        slot(s, name) < s.len() ==> !precedes(s[slot(s, name)].0, name),
    decreases s.len(),
{
    if s.len() == 0 || !precedes(s[0].0, name) {
    } else {
        let t = s.drop_first();
        lemma_slot(t, name);
        assert forall|i: int| 0 <= i < slot(s, name) implies precedes(#[trigger] s[i].0, name) by {
            if i > 0 {
                assert(s[i] == t[i - 1]);
            }
        }
        if slot(s, name) < s.len() {
            assert(s[slot(s, name)] == t[slot(t, name)]);
        }
    }
}

/// Any place that `lemma_slot` describes is `slot`.
pub proof fn lemma_slot_is<T>(s: Seq<(Seq<char>, T)>, name: Seq<char>, p: int)
    requires
        0 <= p <= s.len(),
        forall|i: int| 0 <= i < p ==> precedes(#[trigger] s[i].0, name),
        p < s.len() ==> !precedes(s[p].0, name),
    ensures
        slot(s, name) == p,
{
    lemma_slot(s, name);
    let q = slot(s, name);
    if q < p {
        assert(precedes(s[q].0, name));
    } else if p < q {
        assert(precedes(s[p].0, name));
    }
}

/// In a sorted sequence every entry stands at the slot of its own name.
pub proof fn lemma_slot_of_entry<T>(s: Seq<(Seq<char>, T)>, i: int)
    requires
        sorted(s),
        0 <= i < s.len(),
    ensures
        slot(s, s[i].0) == i,
        lookup(s, s[i].0) == Some(s[i].1),
{
    lemma_precedes_irreflexive(s[i].0);
    lemma_slot_is(s, s[i].0, i);
}

/// In a sorted sequence the names from the slot of `name` on, but for `name`
/// itself, come after `name`.
pub proof fn lemma_after_slot<T>(s: Seq<(Seq<char>, T)>, name: Seq<char>, j: int)
    requires
        sorted(s),
        slot(s, name) <= j < s.len(),
        s[j].0 != name,
    ensures
        precedes(name, s[j].0),
{
    lemma_slot(s, name);
    let p = slot(s, name);
    lemma_precedes_total(s[p].0, name);
    if j > p {
        if s[p].0 == name {
            assert(precedes(s[p].0, s[j].0));
        } else {
            assert(precedes(s[p].0, s[j].0));
            lemma_precedes_transitive(name, s[p].0, s[j].0);
        }
    }
}

/// A sorted sequence stays sorted under `put`.
pub proof fn lemma_put_sorted<T>(s: Seq<(Seq<char>, T)>, name: Seq<char>, value: T)
    requires
        sorted(s),
    ensures
        sorted(put(s, name, value)),
{
    lemma_slot(s, name);
    let p = slot(s, name);
    let r = put(s, name, value);
    assert forall|i: int, j: int| 0 <= i < j < r.len() implies precedes(
        #[trigger] r[i].0,
        #[trigger] r[j].0,
    ) by {
        if has_name(s, name) {
            assert(r[i].0 == s[i].0 && r[j].0 == s[j].0);
        } else {
            if j < p {
                assert(r[i] == s[i] && r[j] == s[j]);
            } else if j == p {
                assert(r[i] == s[i]);
            } else if i == p {
                assert(r[j] == s[j - 1]);
                lemma_after_slot(s, name, j - 1);
            } else if i < p {
                assert(r[i] == s[i] && r[j] == s[j - 1]);
            } else {
                assert(r[i] == s[i - 1] && r[j] == s[j - 1]);
            }
        }
    }
}

/// A sorted sequence stays sorted under `without`.
pub proof fn lemma_without_sorted<T>(s: Seq<(Seq<char>, T)>, name: Seq<char>)
    requires
        sorted(s),
    ensures
        sorted(without(s, name)),
{
    lemma_slot(s, name);
    let p = slot(s, name);
    let r = without(s, name);
    assert forall|i: int, j: int| 0 <= i < j < r.len() implies precedes(
        #[trigger] r[i].0,
        #[trigger] r[j].0,
    ) by {
        if has_name(s, name) {
            let si = if i < p { i } else { i + 1 };
            let sj = if j < p { j } else { j + 1 };
            assert(r[i] == s[si] && r[j] == s[sj]);
        }
    }
}

/// What was put for a name is what is found for it.
pub proof fn lemma_lookup_put_same<T>(s: Seq<(Seq<char>, T)>, name: Seq<char>, value: T)
    requires
        sorted(s),
    ensures
        lookup(put(s, name, value), name) == Some(value),
{
    lemma_slot(s, name);
    lemma_put_sorted(s, name, value);
    let r = put(s, name, value);
    assert(r[slot(s, name)] == (name, value));
    lemma_slot_of_entry(r, slot(s, name));
}

/// What is put for one name changes nothing for another.
pub proof fn lemma_lookup_put_other<T>(
    s: Seq<(Seq<char>, T)>,
    name: Seq<char>,
    value: T,
    other: Seq<char>,
)
    requires
        sorted(s),
        other != name,
    ensures
        lookup(put(s, name, value), other) == lookup(s, other),
{
    lemma_slot(s, name);
    lemma_slot(s, other);
    lemma_put_sorted(s, name, value);
    let p = slot(s, name);
    let q = slot(s, other);
    let r = put(s, name, value);
    if has_name(s, name) {
        assert forall|i: int| 0 <= i < q implies precedes(#[trigger] r[i].0, other) by {
            assert(r[i].0 == s[i].0);
        }
        if q < s.len() {
            assert(r[q].0 == s[q].0);
        }
        lemma_slot_is(r, other, q);
        if has_name(s, other) {
            assert(q != p);
            assert(r[q] == s[q]);
        }
    } else {
        lemma_precedes_total(name, other);
        if precedes(other, name) {
            // `other` stands before the new entry
            assert(q <= p) by {
                if p < q {
                    assert(precedes(s[p].0, other));
                    lemma_precedes_transitive(s[p].0, other, name);
                }
            }
            assert forall|i: int| 0 <= i < q implies precedes(#[trigger] r[i].0, other) by {
                assert(r[i] == s[i]);
            }
            if q < p {
                assert(r[q] == s[q]);
            } else {
                assert(r[q] == (name, value));
                lemma_precedes_asymmetric(other, name);
            }
            lemma_slot_is(r, other, q);
            if q == p && has_name(s, other) {
                assert(false);
            }
        } else {
            // `other` stands after the new entry
            assert(p <= q) by {
                if q < p {
                    assert(precedes(s[q].0, name));
                    lemma_precedes_total(s[q].0, other);
                    if s[q].0 != other {
                        lemma_after_slot(s, other, q);
                        lemma_precedes_transitive(name, other, s[q].0);
                        lemma_precedes_asymmetric(name, s[q].0);
                    } else {
                        lemma_precedes_asymmetric(name, other);
                    }
                }
            }
            assert forall|i: int| 0 <= i < q + 1 implies precedes(#[trigger] r[i].0, other) by {
                if i < p {
                    assert(r[i] == s[i]);
                } else if i == p {
                    assert(r[i] == (name, value));
                } else {
                    assert(r[i] == s[i - 1]);
                }
            }
            if q < s.len() {
                assert(r[q + 1] == s[q]);
            }
            lemma_slot_is(r, other, q + 1);
        }
    }
}

/// Of two values put for one name the later one stays, and the earlier one
/// leaves no trace.
pub proof fn lemma_put_twice<T>(s: Seq<(Seq<char>, T)>, name: Seq<char>, first: T, second: T)
    requires
        sorted(s),
    ensures
        put(put(s, name, first), name, second) == put(s, name, second),
{
    lemma_slot(s, name);
    lemma_put_sorted(s, name, first);
    let p = slot(s, name);
    let r = put(s, name, first);
    assert(r[p] == (name, first));
    lemma_slot_of_entry(r, p);
    assert(put(r, name, second) =~= put(s, name, second));
}

/// To take a name's entry out and put a value for the name is to put the value.
pub proof fn lemma_put_without<T>(s: Seq<(Seq<char>, T)>, name: Seq<char>, value: T)
    requires
        sorted(s),
    ensures
        put(without(s, name), name, value) == put(s, name, value),
{
    lemma_slot(s, name);
    let p = slot(s, name);
    let r = without(s, name);
    if has_name(s, name) {
        assert forall|i: int| 0 <= i < p implies precedes(#[trigger] r[i].0, name) by {
            assert(r[i] == s[i]);
        }
        if p < r.len() {
            assert(r[p] == s[p + 1]);
            assert(precedes(s[p].0, s[p + 1].0));
            lemma_precedes_asymmetric(name, r[p].0);
            lemma_precedes_irreflexive(name);
        }
        lemma_slot_is(r, name, p);
        assert(!has_name(r, name));
        assert(put(r, name, value) =~= put(s, name, value));
    }
}

/// A map from names to values, kept in the order of names.
#[derive(Debug, PartialEq, Eq)]
pub struct NameMap<V> {
    entries: Vec<(String, V)>,
}

impl<V: View> View for NameMap<V> {
    type V = Seq<(Seq<char>, V::V)>;

    closed spec fn view(&self) -> Seq<(Seq<char>, V::V)> {
        Seq::new(self.entries@.len(), |i: int| (self.entries@[i].0@, self.entries@[i].1@))
    }
}

impl<V: View> NameMap<V> {
    /// The invariant: the names ascend strictly.
    pub open spec fn wf(&self) -> bool {
        sorted(self@)
    }

    /// A map without entries.
    pub fn new() -> (m: NameMap<V>)
        ensures
            m@ == Seq::<(Seq<char>, V::V)>::empty(),
            m.wf(),
    {
        let m = NameMap { entries: Vec::new() };
        assert(m@ =~= Seq::<(Seq<char>, V::V)>::empty());
        m
    }

    /// The number of entries.
    pub fn len(&self) -> (n: usize)
        ensures
            n == self@.len(),
    {
        self.entries.len()
    }

    /// The entry at place `i` in the order of names.
    pub fn entry(&self, i: usize) -> (e: (&str, &V))
        requires
            i < self@.len(),
        ensures
            e.0@ == self@[i as int].0,
            e.1@ == self@[i as int].1,
    {
        let e = &self.entries[i];
        (e.0.as_str(), &e.1)
    }

    /// The place where `name` stands or would stand, and whether it stands there.
    fn find(&self, name: &str) -> (r: (usize, bool))
        ensures
            r.0 <= self@.len(),
            r.0 == slot(self@, name@),
            r.1 == has_name(self@, name@),
    {
        let mut i: usize = 0;
        let mut found = false;
        while i < self.entries.len()
            invariant_except_break
                !found,
            invariant
                i <= self.entries@.len(),
                forall|j: int| 0 <= j < i ==> precedes(#[trigger] self@[j].0, name@),
            ensures
                i <= self.entries@.len(),
                forall|j: int| 0 <= j < i ==> precedes(#[trigger] self@[j].0, name@),
                i < self.entries@.len() ==> !precedes(self@[i as int].0, name@),
                found == (i < self.entries@.len() && self@[i as int].0 == name@),
            decreases self.entries@.len() - i,
        {
            match rank_of(self.entries[i].0.as_str(), name) {
                Rank::Before => {
                    i += 1;
                },
                Rank::Same => {
                    proof {
                        lemma_precedes_irreflexive(name@);
                    }
                    found = true;
                    break ;
                },
                Rank::After => {
                    proof {
                        lemma_precedes_asymmetric(name@, self@[i as int].0);
                    }
                    break ;
                },
            }
        }
        proof {
            lemma_slot_is(self@, name@, i as int);
        }
        (i, found)
    }

    /// The value held for `name`.
    pub fn get(&self, name: &str) -> (r: Option<&V>)
        ensures
            match r {
                Some(value) => lookup(self@, name@) == Some(value@),
                None => lookup(self@, name@) is None,
            },
    {
        let (i, found) = self.find(name);
        if found {
            Some(&self.entries[i].1)
        } else {
            None
        }
    }

    /// Puts `value` for `name`; a value held for it before is replaced.
    pub fn insert(&mut self, name: String, value: V)
        requires
            old(self).wf(),
        ensures
            final(self)@ == put(old(self)@, name@, value@),
            final(self).wf(),
    {
        let (i, found) = self.find(name.as_str());
        proof {
            lemma_put_sorted(self@, name@, value@);
        }
        if found {
            self.entries[i] = (name, value);
        } else {
            self.entries.insert(i, (name, value));
        }
        assert(self@ =~= put(old(self)@, name@, value@));
    }

    /// Takes out the entry for `name` and hands back its value.
    pub fn remove(&mut self, name: &str) -> (r: Option<V>)
        requires
            old(self).wf(),
        ensures
            final(self)@ == without(old(self)@, name@),
            final(self).wf(),
            match r {
                Some(value) => lookup(old(self)@, name@) == Some(value@),
                None => lookup(old(self)@, name@) is None,
            },
    {
        let (i, found) = self.find(name);
        proof {
            lemma_without_sorted(self@, name@);
        }
        if found {
            let e = self.entries.remove(i);
            assert(self@ =~= without(old(self)@, name@));
            Some(e.1)
        } else {
            None
        }
    }
}

} // verus!
