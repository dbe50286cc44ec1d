//! A small map keyed by characters, kept as a list of distinct keys.

use vstd::prelude::*;

verus! {

/// The map that a list of (key, value) entries stands for.
pub open spec fn entries_map<V>(entries: Seq<(char, V)>) -> Map<char, V>
    decreases entries.len(),
{
    if entries.len() == 0 {
        Map::empty()
    } else {
        entries_map(entries.drop_last()).insert(entries.last().0, entries.last().1)
    }
}

/// No key occurs twice among `entries`.
pub open spec fn distinct_keys<V>(entries: Seq<(char, V)>) -> bool {
    forall|i: int, j: int| 0 <= i < j < entries.len() ==> (#[trigger] entries[i]).0 != (#[trigger] entries[j]).0
}

/// The keys of `entries` are those of its map, and each maps to the value
/// beside it.
pub proof fn lemma_entries_map<V>(entries: Seq<(char, V)>)
    requires
        distinct_keys(entries),
    ensures
        entries_map(entries).dom().finite(),
        entries_map(entries).dom().len() == entries.len(),
        forall|k: char| entries_map(entries).dom().contains(k) <==> exists|i: int| 0 <= i < entries.len() && (#[trigger] entries[i]).0 == k,
        forall|i: int| 0 <= i < entries.len() ==> entries_map(entries)[(#[trigger] entries[i]).0] == entries[i].1,
    decreases entries.len(),
{
    if entries.len() > 0 {
        let init = entries.drop_last();
        assert(distinct_keys(init)) by {
            assert forall|i: int, j: int| 0 <= i < j < init.len() implies (#[trigger] init[i]).0 != (#[trigger] init[j]).0 by {
                assert(init[i] == entries[i] && init[j] == entries[j]);
            }
        }
        lemma_entries_map(init);
        let last = entries.last();
        assert(!entries_map(init).dom().contains(last.0)) by {
            if entries_map(init).dom().contains(last.0) {
                let i = choose|i: int| 0 <= i < init.len() && (#[trigger] init[i]).0 == last.0;
                assert(entries[i] == init[i]);
                assert(entries[entries.len() - 1] == last);
            }
        }
        assert forall|k: char| entries_map(entries).dom().contains(k) implies exists|i: int| 0 <= i < entries.len() && (#[trigger] entries[i]).0 == k by {
            if k == last.0 {
                assert(entries[entries.len() - 1].0 == k);
            } else {
                let i = choose|i: int| 0 <= i < init.len() && (#[trigger] init[i]).0 == k;
                assert(entries[i] == init[i]);
            }
        }
        assert forall|k: char| (exists|i: int| 0 <= i < entries.len() && (#[trigger] entries[i]).0 == k) implies entries_map(entries).dom().contains(k) by {
            let i = choose|i: int| 0 <= i < entries.len() && (#[trigger] entries[i]).0 == k;
            if i < entries.len() - 1 {
                assert(init[i] == entries[i]);
            }
        }
        assert forall|i: int| 0 <= i < entries.len() implies entries_map(entries)[(#[trigger] entries[i]).0] == entries[i].1 by {
            if i < entries.len() - 1 {
                assert(init[i] == entries[i]);
                assert(entries[i].0 != last.0);
            }
        }
    }
}

/// A map from characters to values.
#[derive(Debug, Clone)]
pub struct CharMap<V> {
    pub entries: Vec<(char, V)>,
}

impl<V> View for CharMap<V> {
    type V = Map<char, V>;

    open spec fn view(&self) -> Map<char, V> {
        entries_map(self.entries@)
    }
}

impl<V> CharMap<V> {
    /// Every key is held once.
    pub open spec fn wf(&self) -> bool {
        distinct_keys(self.entries@)
    }

    /// The empty map.
    pub fn new() -> (r: Self)
        ensures
            r.wf(),
            r@ == Map::<char, V>::empty(),
    {
        CharMap { entries: Vec::new() }
    }

    /// Maps `k`, which it did not hold, to `v`.
    pub fn insert_new(&mut self, k: char, v: V)
        requires
            old(self).wf(),
            !old(self)@.dom().contains(k),
        ensures
            final(self).wf(),
            final(self)@ == old(self)@.insert(k, v),
    {
        proof {
            lemma_entries_map(self.entries@);
        }
        let ghost before = self.entries@;
        self.entries.push((k, v));
        proof {
            assert(self.entries@.drop_last() =~= before);
            assert forall|i: int, j: int| 0 <= i < j < self.entries@.len() implies (#[trigger] self.entries@[i]).0 != (#[trigger] self.entries@[j]).0 by {
                if j == self.entries@.len() - 1 {
                    assert(self.entries@[i] == before[i]);
                } else {
                    assert(self.entries@[i] == before[i] && self.entries@[j] == before[j]);
                }
            }
        }
    }

    /// The value of `k`, if the map holds it.
    pub fn get(&self, k: &char) -> (r: Option<&V>)
        requires
            self.wf(),
        ensures
            match r {
                Some(v) => self@.dom().contains(*k) && *v == self@[*k],
                None => !self@.dom().contains(*k),
            },
    {
        proof {
            lemma_entries_map(self.entries@);
        }
        let mut i: usize = 0;
        while i < self.entries.len()
            invariant
                i <= self.entries.len(),
                self.wf(),
                forall|j: int| 0 <= j < i ==> (#[trigger] self.entries@[j]).0 != *k,
            decreases self.entries.len() - i,
        {
            if self.entries[i].0 == *k {
                proof {
                    lemma_entries_map(self.entries@);
                    assert(self.entries@[i as int].0 == *k);
                }
                return Some(&self.entries[i].1);
            }
            i = i + 1;
        }
        None
    }

    /// Whether the map holds `k`.
    pub fn contains_key(&self, k: &char) -> (r: bool)
        requires
            self.wf(),
        ensures
            r == self@.dom().contains(*k),
    {
        self.get(k).is_some()
    }

    /// The number of keys.
    pub fn len(&self) -> (r: usize)
        requires
            self.wf(),
        ensures
            r == self@.dom().len(),
    {
        proof {
            lemma_entries_map(self.entries@);
        }
        self.entries.len()
    }
}

} // verus!
