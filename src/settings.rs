//! A mapping from setting names to text values, and the mapping that a
//! sequence of entries describes.
use vstd::prelude::*;

use crate::entry::{entries_view, entry_view, Entry};

verus! {

/// The mapping that `entries` describe, read in order: a later entry for a
/// key overrides an earlier one.
pub open spec fn entry_map(entries: Seq<Entry>) -> Map<Seq<char>, Seq<char>>
    decreases entries.len(),
{
    if entries.len() == 0 {
        Map::empty()
    } else {
        entry_map(entries.drop_last()).insert(entries.last().0, entries.last().1)
    }
}

/// No two of `entries` have the same key.
pub open spec fn keys_unique(entries: Seq<Entry>) -> bool {
    forall|i: int, j: int|
        0 <= i < entries.len() && 0 <= j < entries.len() && i != j ==> entries[i].0 != entries[j].0
}

/// A key is in the mapping exactly where some entry has it.
pub proof fn lemma_entry_map_keys(entries: Seq<Entry>, k: Seq<char>)
    ensures
        entry_map(entries).contains_key(k) <==> exists|j: int|
            0 <= j < entries.len() && (#[trigger] entries[j]).0 == k,
    decreases entries.len(),
{
    if entries.len() > 0 {
        let prev = entries.drop_last();
        lemma_entry_map_keys(prev, k);
        if entry_map(prev).contains_key(k) {
            let j = choose|j: int| 0 <= j < prev.len() && (#[trigger] prev[j]).0 == k;
            assert(entries[j] == prev[j]);
        }
        if exists|j: int| 0 <= j < entries.len() && (#[trigger] entries[j]).0 == k {
            let j = choose|j: int| 0 <= j < entries.len() && (#[trigger] entries[j]).0 == k;
            if j < entries.len() - 1 {
                assert(prev[j] == entries[j]);
            }
        }
    }
}

/// Where keys are unique, each entry's value is the one mapped to its key.
pub proof fn lemma_entry_map_unique(entries: Seq<Entry>, j: int)
    requires
        keys_unique(entries),
        0 <= j < entries.len(),
    ensures
        entry_map(entries).contains_key(entries[j].0),
        entry_map(entries)[entries[j].0] == entries[j].1,
    decreases entries.len(),
{
    let prev = entries.drop_last();
    if j < entries.len() - 1 {
        assert(prev[j] == entries[j]);
        assert(keys_unique(prev)) by {
            assert forall|a: int, b: int|
                0 <= a < prev.len() && 0 <= b < prev.len() && a != b implies prev[a].0 != prev[b].0 by {
                assert(prev[a] == entries[a] && prev[b] == entries[b]);
            }
        }
        lemma_entry_map_unique(prev, j);
        assert(entries[j].0 != entries[entries.len() - 1].0);
    }
}

/// Where keys are unique, the mapping has one key for each entry.
pub proof fn lemma_entry_map_len(entries: Seq<Entry>)
    requires
        keys_unique(entries),
    ensures
        entry_map(entries).dom().finite(),
        entry_map(entries).len() == entries.len(),
    decreases entries.len(),
{
    if entries.len() > 0 {
        let prev = entries.drop_last();
        assert(keys_unique(prev)) by {
            assert forall|a: int, b: int|
                0 <= a < prev.len() && 0 <= b < prev.len() && a != b implies prev[a].0 != prev[b].0 by {
                assert(prev[a] == entries[a] && prev[b] == entries[b]);
            }
        }
        lemma_entry_map_len(prev);
        let k = entries.last().0;
        lemma_entry_map_keys(prev, k);
        if entry_map(prev).contains_key(k) {
            let j = choose|j: int| 0 <= j < prev.len() && (#[trigger] prev[j]).0 == k;
            assert(entries[j] == prev[j]);
        }
    }
}

/// A mapping from setting names to text values.
pub struct Settings {
    entries: Vec<(String, String)>,
}

impl View for Settings {
    type V = Map<Seq<char>, Seq<char>>;

    closed spec fn view(&self) -> Map<Seq<char>, Seq<char>> {
        entry_map(entries_view(self.entries@))
    }
}

impl Settings {
    #[verifier::type_invariant]
    spec fn keys_distinct(self) -> bool {
        keys_unique(entries_view(self.entries@))
    }

    /// An empty mapping.
    pub fn new() -> (r: Settings)
        ensures
            r@ == Map::<Seq<char>, Seq<char>>::empty(),
    {
        let r = Settings { entries: Vec::new() };
        assert(entries_view(r.entries@) =~= Seq::<Entry>::empty());
        r
    }

    /// The position of `key` among the entries, if it is there.
    fn position(&self, key: &String) -> (r: Option<usize>)
        ensures
            match r {
                Some(j) => j < self.entries@.len() && self.entries@[j as int].0@ == key@,
                None => !self@.contains_key(key@),
            },
    {
        let ghost ev = entries_view(self.entries@);
        let mut j: usize = 0;
        while j < self.entries.len()
            invariant
                j <= self.entries@.len(),
                ev == entries_view(self.entries@),
                forall|i: int| 0 <= i < j ==> (#[trigger] ev[i]).0 != key@,
            decreases self.entries.len() - j,
        {
            if self.entries[j].0 == *key {
                return Some(j);
            }
            j = j + 1;
        }
        proof {
            lemma_entry_map_keys(ev, key@);
        }
        None
    }

    /// Maps `key` to `value`, in place of any value it had.
    pub fn insert(&mut self, key: String, value: String)
        ensures
            final(self)@ == old(self)@.insert(key@, value@),
    {
        proof {
            use_type_invariant(&*self);
        }
        let ghost ev = entries_view(self.entries@);
        let found = self.position(&key);
        let mut entries: Vec<(String, String)> = Vec::new();
        std::mem::swap(&mut entries, &mut self.entries);
        match found {
            Some(j) => {
                let ghost k = key@;
                let ghost v = value@;
                let ghost nv = ev.update(j as int, (k, v));
                entries.set(j, (key, value));
                assert(entries_view(entries@) =~= nv);
                assert(ev[j as int].0 == k);
                assert forall|a: int| 0 <= a < nv.len() implies #[trigger] nv[a].0 == ev[a].0 by {}
                assert(keys_unique(nv));
                assert forall|q: Seq<char>| #[trigger] entry_map(nv).contains_key(q) <==> entry_map(ev).insert(k, v).contains_key(q) by {
                    lemma_entry_map_keys(nv, q);
                    lemma_entry_map_keys(ev, q);
                    if q != k && exists|i: int| 0 <= i < nv.len() && (#[trigger] nv[i]).0 == q {
                        let i = choose|i: int| 0 <= i < nv.len() && (#[trigger] nv[i]).0 == q;
                        assert(ev[i].0 == q);
                    }
                    if exists|i: int| 0 <= i < ev.len() && (#[trigger] ev[i]).0 == q {
                        let i = choose|i: int| 0 <= i < ev.len() && (#[trigger] ev[i]).0 == q;
                        if i != j {
                            assert(nv[i].0 == q);
                        }
                    }
                    assert(nv[j as int].0 == k);
                }
                assert forall|q: Seq<char>| #[trigger] entry_map(nv).contains_key(q) implies entry_map(nv)[q] == entry_map(ev).insert(k, v)[q] by {
                    lemma_entry_map_keys(nv, q);
                    let i = choose|i: int| 0 <= i < nv.len() && (#[trigger] nv[i]).0 == q;
                    lemma_entry_map_unique(nv, i);
                    if i != j {
                        assert(ev[i] == nv[i]);
                        lemma_entry_map_unique(ev, i);
                    } else {
                        lemma_entry_map_unique(nv, j as int);
                    }
                }
                assert(entry_map(nv) =~= entry_map(ev).insert(k, v));
            },
            None => {
                let ghost e = entry_view((key, value));
                entries.push((key, value));
                assert(entries_view(entries@) =~= ev.push(e));
                assert(ev.push(e).drop_last() =~= ev);
                assert(keys_unique(ev.push(e))) by {
                    lemma_entry_map_keys(ev, e.0);
                    assert forall|a: int| 0 <= a < ev.len() implies ev[a].0 != e.0 by {
                        assert(ev[a] == ev[a]);
                    }
                }
            },
        }
        self.entries = entries;
    }

    /// The value of `key`, if the mapping has it.
    pub fn get(&self, key: &str) -> (r: Option<&String>)
        ensures
            match r {
                Some(v) => self@.contains_key(key@) && self@[key@] == v@,
                None => !self@.contains_key(key@),
            },
    {
        proof {
            use_type_invariant(self);
        }
        let k = key.to_owned();
        match self.position(&k) {
            Some(j) => {
                proof {
                    lemma_entry_map_unique(entries_view(self.entries@), j as int);
                }
                Some(&self.entries[j].1)
            },
            None => None,
        }
    }

    /// Whether the mapping has `key`.
    pub fn contains_key(&self, key: &str) -> (r: bool)
        ensures
            r == self@.contains_key(key@),
    {
        self.get(key).is_some()
    }

    /// The mapping that `entries` describe, read in order: a later entry for
    /// a key overrides an earlier one.
    pub fn from_entries(entries: Vec<(String, String)>) -> (r: Settings)
        ensures
            r@ == entry_map(entries_view(entries@)),
    {
        let ghost ev = entries_view(entries@);
        let mut r = Settings::new();
        let mut i: usize = 0;
        assert(ev.take(0) =~= Seq::<Entry>::empty());
        while i < entries.len()
            invariant
                i <= entries@.len(),
                ev == entries_view(entries@),
                r@ == entry_map(ev.take(i as int)),
            decreases entries.len() - i,
        {
            r.insert(entries[i].0.clone(), entries[i].1.clone());
            assert(ev.take(i + 1).drop_last() =~= ev.take(i as int));
            i = i + 1;
        }
        assert(ev.take(i as int) =~= ev);
        r
    }

    /// The entries of the mapping, one for each key.
    pub fn as_entries(&self) -> (r: &Vec<(String, String)>)
        ensures
            keys_unique(entries_view(r@)),
            entry_map(entries_view(r@)) == self@,
    {
        proof {
            use_type_invariant(self);
        }
        &self.entries
    }

    /// The entries of the mapping, one for each key.
    pub fn into_entries(self) -> (r: Vec<(String, String)>)
        ensures
            keys_unique(entries_view(r@)),
            entry_map(entries_view(r@)) == self@,
    {
        proof {
            use_type_invariant(&self);
        }
        self.entries
    }

    /// The number of keys.
    pub fn len(&self) -> (r: usize)
        ensures
            r == self@.len(),
    {
        proof {
            use_type_invariant(self);
            lemma_entry_map_len(entries_view(self.entries@));
        }
        self.entries.len()
    }
}

} // verus!
