//! The dependency tracking of screens: each value of the shared context has a
//! generation that advances each time it is set, and a screen rebuilds when
//! a value it read has advanced past the generation it read.
//!
//! Values are named by keys; the generation of a value never set is 0.
use vstd::prelude::*;

use crate::id_sets::{assoc_map, keys_distinct, lemma_entries_absent, lemma_entries_lookup, lemma_entries_update};

verus! {

/// The generation of `key` in `m`: 0 for a value never set.
pub open spec fn generation_in(m: Map<u64, u64>, key: u64) -> u64 {
    if m.dom().contains(key) {
        m[key]
    } else {
        0
    }
}

/// Whether some value of `deps` (key, generation read) has advanced past
/// the generation read.
pub open spec fn changed_since(m: Map<u64, u64>, deps: Seq<(u64, u64)>) -> bool {
    exists|i: int| 0 <= i < deps.len() && generation_in(m, deps[i].0) > #[trigger] deps[i].1
}

/// The generation counters of the values of a shared context.
pub struct Generations {
    entries: Vec<(u64, u64)>,
}

impl View for Generations {
    type V = Map<u64, u64>;

    /// The generation of each value set at least once.
    closed spec fn view(&self) -> Map<u64, u64> {
        assoc_map(self.entries@)
    }
}

impl Generations {
    /// Each key once.
    pub closed spec fn wf(&self) -> bool {
        keys_distinct(self.entries@)
    }

    pub fn new() -> (r: Self)
        ensures
            r.wf(),
            r@ == Map::<u64, u64>::empty(),
    {
        Generations { entries: Vec::new() }
    }

    fn find(&self, key: u64) -> (r: Option<usize>)
        ensures
            match r {
                Some(j) => j < self.entries@.len() && self.entries@[j as int].0 == key,
                None => forall|i: int| 0 <= i < self.entries@.len() ==> self.entries@[i].0 != key,
            },
    {
        let mut i: usize = 0;
        while i < self.entries.len()
            invariant
                i <= self.entries.len(),
                forall|q: int| 0 <= q < i ==> self.entries@[q].0 != key,
            decreases self.entries.len() - i,
        {
            if self.entries[i].0 == key {
                return Some(i);
            }
            i = i + 1;
        }
        None
    }

    /// The generation of the value `key`: the number of times it was set.
    pub fn generation(&self, key: u64) -> (r: u64)
        requires
            self.wf(),
        ensures
            r == generation_in(self@, key),
    {
        match self.find(key) {
            Some(j) => {
                proof {
                    lemma_entries_lookup(self.entries@, j as int);
                }
                self.entries[j].1
            },
            None => {
                proof {
                    lemma_entries_absent(self.entries@, key);
                }
                0
            },
        }
    }

    /// Advances the generation of the value `key`: it was set once more.
    pub fn bump(&mut self, key: u64)
        requires
            old(self).wf(),
            generation_in(old(self)@, key) < u64::MAX,
        ensures
            final(self).wf(),
            final(self)@ == old(self)@.insert(
                key,
                (generation_in(old(self)@, key) + 1) as u64,
            ),
    {
        let ghost old_es = self.entries@;
        match self.find(key) {
            Some(j) => {
                proof {
                    lemma_entries_lookup(old_es, j as int);
                }
                let g = self.entries[j].1;
                self.entries.set(j, (key, g + 1));
                proof {
                    lemma_entries_update(old_es, self.entries@, j as int);
                }
            },
            None => {
                proof {
                    lemma_entries_absent(old_es, key);
                }
                self.entries.push((key, 1));
                proof {
                    assert(self.entries@.drop_last() == old_es);
                    assert forall|a: int, b: int| 0 <= a < b < self.entries@.len() implies self.entries@[a].0
                        != self.entries@[b].0 by {
                        if b == old_es.len() {
                            assert(self.entries@[a] == old_es[a]);
                        } else {
                            assert(self.entries@[a] == old_es[a]);
                            assert(self.entries@[b] == old_es[b]);
                        }
                    }
                }
            },
        }
    }

    /// The generations of the values `keys` as they are now: what a screen
    /// that read them records.
    pub fn snapshot(&self, keys: &Vec<u64>) -> (r: Vec<(u64, u64)>)
        requires
            self.wf(),
        ensures
            r@.len() == keys@.len(),
            forall|i: int|
                0 <= i < keys@.len() ==> #[trigger] r@[i] == (keys@[i], generation_in(
                    self@,
                    keys@[i],
                )),
    {
        let mut r: Vec<(u64, u64)> = Vec::new();
        let mut i: usize = 0;
        while i < keys.len()
            invariant
                self.wf(),
                i <= keys.len(),
                r@.len() == i,
                forall|k: int|
                    0 <= k < i ==> #[trigger] r@[k] == (keys@[k], generation_in(self@, keys@[k])),
            decreases keys.len() - i,
        {
            let g = self.generation(keys[i]);
            r.push((keys[i], g));
            i = i + 1;
        }
        r
    }

    /// Whether a screen that recorded `deps` must rebuild: some value it
    /// read has advanced past the generation it read.
    pub fn deps_changed(&self, deps: &Vec<(u64, u64)>) -> (r: bool)
        requires
            self.wf(),
        ensures
            r == changed_since(self@, deps@),
    {
        let mut i: usize = 0;
        while i < deps.len()
            invariant
                self.wf(),
                i <= deps.len(),
                forall|k: int|
                    0 <= k < i ==> !(generation_in(self@, deps@[k].0) > #[trigger] deps@[k].1),
            decreases deps.len() - i,
        {
            let (key, read) = deps[i];
            if self.generation(key) > read {
                return true;
            }
            i = i + 1;
        }
        false
    }
}

/// What a screen records right after a build sees no change: it rebuilds
/// only once a value it read is set again.
pub proof fn snapshot_is_unchanged(m: Map<u64, u64>, keys: Seq<u64>, deps: Seq<(u64, u64)>)
    requires
        deps.len() == keys.len(),
        forall|i: int| 0 <= i < keys.len() ==> #[trigger] deps[i] == (keys[i], generation_in(m, keys[i])),
    ensures
        !changed_since(m, deps),
{
    assert forall|i: int| 0 <= i < deps.len() implies !(generation_in(m, deps[i].0) > #[trigger] deps[i].1) by {
        assert(deps[i] == (keys[i], generation_in(m, keys[i])));
    }
}

/// Setting a value makes every screen whose recorded generation of it is
/// the current one rebuild, and leaves the decision of a screen that did not
/// read it as it was.
pub proof fn setting_a_value_rebuilds_its_readers(m: Map<u64, u64>, key: u64, deps: Seq<(u64, u64)>)
    requires
        generation_in(m, key) < u64::MAX,
    ensures
        ({
            let after = m.insert(key, (generation_in(m, key) + 1) as u64);
            &&& (exists|i: int| 0 <= i < deps.len() && #[trigger] deps[i] == (key, generation_in(m, key)))
                ==> changed_since(after, deps)
            &&& (forall|i: int| 0 <= i < deps.len() ==> (#[trigger] deps[i]).0 != key)
                ==> (changed_since(after, deps) == changed_since(m, deps))
        }),
{
    let after = m.insert(key, (generation_in(m, key) + 1) as u64);
    if exists|i: int| 0 <= i < deps.len() && #[trigger] deps[i] == (key, generation_in(m, key)) {
        let i = choose|i: int| 0 <= i < deps.len() && #[trigger] deps[i] == (key, generation_in(m, key));
        assert(generation_in(after, deps[i].0) > deps[i].1);
    }
    if forall|i: int| 0 <= i < deps.len() ==> (#[trigger] deps[i]).0 != key {
        assert forall|i: int| 0 <= i < deps.len() implies generation_in(after, deps[i].0)
            == generation_in(m, deps[i].0) by {
            assert(deps[i].0 != key);
        }
        if changed_since(after, deps) {
            let i = choose|i: int| 0 <= i < deps.len() && generation_in(after, deps[i].0) > #[trigger] deps[i].1;
            assert(generation_in(m, deps[i].0) > deps[i].1);
        }
        if changed_since(m, deps) {
            let i = choose|i: int| 0 <= i < deps.len() && generation_in(m, deps[i].0) > #[trigger] deps[i].1;
            assert(generation_in(after, deps[i].0) > deps[i].1);
        }
    }
}

} // verus!
