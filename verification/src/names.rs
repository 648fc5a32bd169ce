//! A finite map keyed by names, which are compared by their views.

use crate::ast::Name;
use crate::ast::NameView;
use vstd::prelude::*;

verus! {

/// Whether no two entries of `s` have the same key.
pub open spec fn distinct_keys<V>(s: Seq<(Name, V)>) -> bool {
    forall|i: int, j: int| 0 <= i < j < s.len() ==> (#[trigger] s[i]).0@ != (#[trigger] s[j]).0@
}

/// The map that holds each entry of `s` under its key.
pub open spec fn entries_map<V>(s: Seq<(Name, V)>) -> Map<NameView, V>
    decreases s.len(),
{
    if s.len() == 0 {
        Map::empty()
    } else {
        entries_map(s.drop_last()).insert(s.last().0@, s.last().1)
    }
}

/// With distinct keys, the map holds exactly the entries, each under its key.
pub proof fn lemma_entries_map<V>(s: Seq<(Name, V)>)
    requires
        distinct_keys(s),
    ensures
        forall|i: int|
            0 <= i < s.len() ==> entries_map(s).contains_key((#[trigger] s[i]).0@) && entries_map(
                s,
            )[s[i].0@] == s[i].1,
        forall|k: NameView| #[trigger]
            entries_map(s).contains_key(k) ==> exists|i: int|
                0 <= i < s.len() && (#[trigger] s[i]).0@ == k,
    decreases s.len(),
{
    if s.len() > 0 {
        let before = s.drop_last();
        assert forall|i: int, j: int| 0 <= i < j < before.len() implies (#[trigger] before[i]).0@
            != (#[trigger] before[j]).0@ by {
            assert(before[i] == s[i] && before[j] == s[j]);
        }
        lemma_entries_map(before);
        assert forall|i: int| 0 <= i < s.len() implies entries_map(s).contains_key(
            (#[trigger] s[i]).0@,
        ) && entries_map(s)[s[i].0@] == s[i].1 by {
            if i < s.len() - 1 {
                assert(before[i] == s[i]);
                assert(s[i].0@ != s[s.len() - 1].0@);
            }
        }
        assert forall|k: NameView| #[trigger] entries_map(s).contains_key(k) implies exists|i: int|
            0 <= i < s.len() && (#[trigger] s[i]).0@ == k by {
            if k == s.last().0@ {
                assert(s[s.len() - 1].0@ == k);
            } else {
                assert(entries_map(before).contains_key(k));
                let i = choose|i: int| 0 <= i < before.len() && (#[trigger] before[i]).0@ == k;
                assert(s[i] == before[i]);
            }
        }
    }
}

/// A finite map from names to values of `V`.
#[derive(Debug)]
pub struct NameMap<V> {
    entries: Vec<(Name, V)>,
}

impl<V> NameMap<V> {
    /// No name is held twice.
    pub closed spec fn wf(&self) -> bool {
        distinct_keys(self.entries@)
    }

    /// What the map holds.
    pub closed spec fn map(&self) -> Map<NameView, V> {
        entries_map(self.entries@)
    }

    /// The empty map.
    pub fn new() -> (r: NameMap<V>)
        ensures
            r.wf(),
            r.map() == Map::<NameView, V>::empty(),
    {
        NameMap { entries: Vec::new() }
    }

    /// Where `name` is held, if it is.
    fn position(&self, name: &Name) -> (r: Option<usize>)
        requires
            self.wf(),
        ensures
            match r {
                Some(i) => i < self.entries@.len() && self.entries@[i as int].0@ == name@,
                None => !self.map().contains_key(name@),
            },
    {
        proof {
            lemma_entries_map(self.entries@);
        }
        let mut i: usize = 0;
        while i < self.entries.len()
            invariant
                i <= self.entries.len(),
                forall|j: int| 0 <= j < i ==> (#[trigger] self.entries@[j]).0@ != name@,
            decreases self.entries.len() - i,
        {
            if self.entries[i].0.same(name) {
                return Some(i);
            }
            i = i + 1;
        }
        None
    }

    /// Whether `name` is held.
    pub fn contains_key(&self, name: &Name) -> (r: bool)
        requires
            self.wf(),
        ensures
            r == self.map().contains_key(name@),
    {
        proof {
            lemma_entries_map(self.entries@);
        }
        self.position(name).is_some()
    }

    /// What is held under `name`, if anything is.
    pub fn get(&self, name: &Name) -> (r: Option<&V>)
        requires
            self.wf(),
        ensures
            match r {
                Some(v) => self.map().contains_key(name@) && *v == self.map()[name@],
                None => !self.map().contains_key(name@),
            },
    {
        proof {
            lemma_entries_map(self.entries@);
        }
        match self.position(name) {
            Some(i) => Some(&self.entries[i].1),
            None => None,
        }
    }

    /// Puts `value` under `name`, in place of what was held there, and says
    /// whether something was.
    pub fn insert(&mut self, name: Name, value: V) -> (r: bool)
        requires
            old(self).wf(),
        ensures
            final(self).wf(),
            final(self).map() == old(self).map().insert(name@, value),
            r == old(self).map().contains_key(name@),
    {
        proof {
            lemma_entries_map(self.entries@);
        }
        let ghost before = self.entries@;
        match self.position(&name) {
            Some(i) => {
                self.entries.set(i, (name, value));
                proof {
                    let after = self.entries@;
                    assert forall|a: int, b: int| 0 <= a < b < after.len() implies (
                    #[trigger] after[a]).0@ != (#[trigger] after[b]).0@ by {
                        assert(after[a].0@ == before[a].0@ && after[b].0@ == before[b].0@);
                    }
                    lemma_entries_map(after);
                    let wanted = entries_map(before).insert(name@, value);
                    assert forall|k: NameView| #[trigger]
                        wanted.contains_key(k) implies entries_map(after).contains_key(k)
                        && entries_map(after)[k] == wanted[k] by {
                        if k == name@ {
                            assert(after[i as int].0@ == k);
                        } else {
                            let j = choose|j: int|
                                0 <= j < before.len() && (#[trigger] before[j]).0@ == k;
                            assert(after[j] == before[j]);
                        }
                    }
                    assert forall|k: NameView| #[trigger]
                        entries_map(after).contains_key(k) implies wanted.contains_key(k) by {
                        let j = choose|j: int|
                            0 <= j < after.len() && (#[trigger] after[j]).0@ == k;
                        if j != i {
                            assert(after[j] == before[j]);
                        }
                    }
                    assert(entries_map(after) =~= wanted);
                }
                true
            },
            None => {
                self.entries.push((name, value));
                proof {
                    let after = self.entries@;
                    assert(after.drop_last() =~= before);
                    assert forall|a: int, b: int| 0 <= a < b < after.len() implies (
                    #[trigger] after[a]).0@ != (#[trigger] after[b]).0@ by {
                        if b == after.len() - 1 {
                            assert(after[a] == before[a]);
                            assert(entries_map(before).contains_key(before[a].0@));
                        } else {
                            assert(after[a] == before[a] && after[b] == before[b]);
                        }
                    }
                }
                false
            },
        }
    }

    /// How many names are held.
    pub fn len(&self) -> (r: usize)
        ensures
            r == self.count(),
    {
        self.entries.len()
    }

    /// How many names are held.
    pub closed spec fn count(&self) -> nat {
        self.entries@.len()
    }

    /// Takes one entry out of the map, in no particular order; `None` where
    /// the map is empty.
    pub fn pop(&mut self) -> (r: Option<(Name, V)>)
        requires
            old(self).wf(),
        ensures
            final(self).wf(),
            match r {
                Some((name, value)) => {
                    &&& old(self).map().contains_key(name@)
                    &&& old(self).map()[name@] == value
                    &&& final(self).map() == old(self).map().remove(name@)
                    &&& final(self).count() + 1 == old(self).count()
                },
                None => old(self).map() == Map::<NameView, V>::empty() && final(self).map()
                    == old(self).map() && old(self).count() == 0,
            },
    {
        let ghost before = self.entries@;
        proof {
            lemma_entries_map(before);
        }
        match self.entries.pop() {
            Some(entry) => {
                proof {
                    let after = self.entries@;
                    assert(after =~= before.drop_last());
                    assert(before.last() == entry);
                    assert forall|a: int, b: int| 0 <= a < b < after.len() implies (
                    #[trigger] after[a]).0@ != (#[trigger] after[b]).0@ by {
                        assert(after[a] == before[a] && after[b] == before[b]);
                    }
                    lemma_entries_map(after);
                    assert(!entries_map(after).contains_key(entry.0@)) by {
                        if entries_map(after).contains_key(entry.0@) {
                            let j = choose|j: int|
                                0 <= j < after.len() && (#[trigger] after[j]).0@ == entry.0@;
                            assert(after[j] == before[j]);
                            assert(before[before.len() - 1].0@ == entry.0@);
                        }
                    }
                    assert(entries_map(after) =~= entries_map(before).remove(entry.0@));
                }
                Some(entry)
            },
            None => None,
        }
    }
}

} // verus!
