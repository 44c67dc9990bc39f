//! The indexes of the frame registry: frame ids by name, and for each frame
//! the frames anchored to it, which must be laid out again when it moves.
use vstd::prelude::*;

use crate::text::str_eq;
use crate::id_sets::{
    assoc_map, lemma_entries_present, insert_sorted, keys_distinct, lemma_entries_absent, lemma_entries_lookup,
    lemma_entries_remove, lemma_entries_update, remove_id, set_at, strictly_increasing,
};

verus! {

/// The entries with their ids taken as values.
pub open spec fn deps_entries(es: Seq<(u64, Vec<u64>)>) -> Seq<(u64, Set<u64>)> {
    es.map_values(|e: (u64, Vec<u64>)| (e.0, e.1@.to_set()))
}

/// Whether no target is kept with an empty set of dependents.
pub open spec fn no_empty_sets(m: Map<u64, Set<u64>>) -> bool {
    forall|k: u64| #[trigger] m.dom().contains(k) ==> !m[k].is_empty()
}

/// Unregistering a dependency undoes registering it, when it was not
/// registered before: the index is the same as before (a target that had no
/// dependents is dropped again). `d` stands for the index before `register`;
/// the two updates are those that `register` and `unregister` state.
pub proof fn unregister_undoes_register(d: Map<u64, Set<u64>>, frame_id: u64, target_id: u64)
    requires
        no_empty_sets(d),
        !set_at(d, target_id).contains(frame_id),
    ensures
        ({
            let d1 = d.insert(target_id, set_at(d, target_id).insert(frame_id));
            let d2 = if !d1.dom().contains(target_id) {
                d1
            } else if d1[target_id].remove(frame_id).is_empty() {
                d1.remove(target_id)
            } else {
                d1.insert(target_id, d1[target_id].remove(frame_id))
            };
            d2 == d
        }),
{
    let s = set_at(d, target_id);
    let d1 = d.insert(target_id, s.insert(frame_id));
    assert(d1[target_id].remove(frame_id) =~= s);
    if d.dom().contains(target_id) {
        assert(!s.is_empty());
        assert(d1.insert(target_id, s) =~= d);
    } else {
        assert(s =~= Set::<u64>::empty());
        assert(d1.remove(target_id) =~= d);
    }
}

/// The frames anchored to each frame that has any.
pub struct AnchorDependents {
    entries: Vec<(u64, Vec<u64>)>,
}

impl AnchorDependents {
    /// Each target once, each set of dependents in increasing order and not empty.
    pub closed spec fn wf(&self) -> bool {
        &&& keys_distinct(deps_entries(self.entries@))
        &&& forall|i: int|
            0 <= i < self.entries@.len() ==> strictly_increasing(#[trigger] self.entries@[i].1@)
                && self.entries@[i].1@.len() > 0
    }

    /// For each target, the frames anchored to it.
    pub closed spec fn dependents(&self) -> Map<u64, Set<u64>> {
        assoc_map(deps_entries(self.entries@))
    }

    /// A well-formed index keeps no target with an empty set of dependents.
    pub proof fn lemma_sets_nonempty(&self)
        requires
            self.wf(),
        ensures
            no_empty_sets(self.dependents()),
    {
        assert forall|k: u64| #[trigger] self.dependents().dom().contains(k) implies !self.dependents()[k].is_empty() by {
            let i = crate::id_sets::lemma_entries_present(deps_entries(self.entries@), k);
            lemma_entries_lookup(deps_entries(self.entries@), i);
            assert(self.entries@[i].1@.to_set().contains(self.entries@[i].1@[0]));
        }
    }

    /// The index of the entry of `target`, if any.
    fn find_target(&self, target: u64) -> (r: Option<usize>)
        ensures
            match r {
                Some(j) => j < self.entries@.len() && self.entries@[j as int].0 == target,
                None => forall|i: int| 0 <= i < self.entries@.len() ==> self.entries@[i].0 != target,
            },
    {
        let mut i: usize = 0;
        while i < self.entries.len()
            invariant
                i <= self.entries.len(),
                forall|q: int| 0 <= q < i ==> self.entries@[q].0 != target,
            decreases self.entries.len() - i,
        {
            if self.entries[i].0 == target {
                return Some(i);
            }
            i = i + 1;
        }
        None
    }

    pub fn new() -> (r: Self)
        ensures
            r.wf(),
            r.dependents() == Map::<u64, Set<u64>>::empty(),
    {
        let r = AnchorDependents { entries: Vec::new() };
        assert(deps_entries(r.entries@) =~= Seq::<(u64, Set<u64>)>::empty());
        r
    }

    /// Records that `frame_id` is anchored to `target_id`.
    pub fn register(&mut self, frame_id: u64, target_id: u64)
        requires
            old(self).wf(),
        ensures
            final(self).wf(),
            final(self).dependents() == old(self).dependents().insert(
                target_id,
                set_at(old(self).dependents(), target_id).insert(frame_id),
            ),
    {
        let ghost old_es = self.entries@;
        match self.find_target(target_id) {
            Some(j) => {
                proof {
                    lemma_entries_lookup(deps_entries(old_es), j as int);
                }
                let (t, mut ids) = self.entries.remove(j);
                let ghost old_ids = ids@;
                insert_sorted(&mut ids, frame_id);
                proof {
                    assert(ids@.to_set().contains(frame_id));
                    assert(ids@.len() > 0);
                }
                self.entries.insert(j, (t, ids));
                proof {
                    let new_es = self.entries@;
                    assert forall|i: int| 0 <= i < old_es.len() && i != j implies new_es[i]
                        == old_es[i] by {}
                    lemma_entries_update(deps_entries(old_es), deps_entries(new_es), j as int);
                    assert forall|i: int| 0 <= i < new_es.len() implies strictly_increasing(
                        #[trigger] new_es[i].1@,
                    ) && new_es[i].1@.len() > 0 by {
                        if i != j {
                            assert(new_es[i] == old_es[i]);
                        }
                    }
                }
            },
            None => {
                proof {
                    lemma_entries_absent(deps_entries(old_es), target_id);
                }
                let mut ids: Vec<u64> = Vec::new();
                ids.push(frame_id);
                let ghost ids_view = ids@;
                assert(ids_view[0] == frame_id);
                assert(ids_view.to_set() =~= Set::<u64>::empty().insert(frame_id));
                self.entries.push((target_id, ids));
                proof {
                    let new_es = self.entries@;
                    let ne = deps_entries(new_es);
                    let oe = deps_entries(old_es);
                    assert(ne.drop_last() =~= oe);
                    assert forall|i: int, k: int| 0 <= i < k < ne.len() implies ne[i].0 != ne[k].0 by {
                        if k < oe.len() {
                            assert(ne[i] == oe[i]);
                            assert(ne[k] == oe[k]);
                        } else {
                            assert(ne[i] == oe[i]);
                        }
                    }
                    assert forall|i: int| 0 <= i < new_es.len() implies strictly_increasing(
                        #[trigger] new_es[i].1@,
                    ) && new_es[i].1@.len() > 0 by {
                        if i < old_es.len() {
                            assert(new_es[i] == old_es[i]);
                        }
                    }
                }
            },
        }
    }

    /// Records that `frame_id` is no longer anchored to `target_id`; a target
    /// left without dependents is dropped.
    pub fn unregister(&mut self, frame_id: u64, target_id: u64)
        requires
            old(self).wf(),
        ensures
            final(self).wf(),
            final(self).dependents() == if !old(self).dependents().dom().contains(target_id) {
                old(self).dependents()
            } else if old(self).dependents()[target_id].remove(frame_id).is_empty() {
                old(self).dependents().remove(target_id)
            } else {
                old(self).dependents().insert(
                    target_id,
                    old(self).dependents()[target_id].remove(frame_id),
                )
            },
    {
        let ghost old_es = self.entries@;
        match self.find_target(target_id) {
            Some(j) => {
                proof {
                    lemma_entries_lookup(deps_entries(old_es), j as int);
                }
                let (t, mut ids) = self.entries.remove(j);
                remove_id(&mut ids, frame_id);
                if ids.len() == 0 {
                    proof {
                        assert(ids@.to_set() =~= Set::<u64>::empty());
                        assert(deps_entries(self.entries@) =~= deps_entries(old_es).remove(j as int));
                        lemma_entries_remove(deps_entries(old_es), j as int);
                        let new_es = self.entries@;
                        assert forall|i: int| 0 <= i < new_es.len() implies strictly_increasing(
                            #[trigger] new_es[i].1@,
                        ) && new_es[i].1@.len() > 0 by {
                            let oi = if i < j {
                                i
                            } else {
                                i + 1
                            };
                            assert(new_es[i] == old_es[oi]);
                        }
                    }
                } else {
                    proof {
                        assert(ids@[0] != frame_id ==> ids@.to_set().contains(ids@[0]));
                        assert(ids@.to_set().contains(ids@[0]));
                    }
                    self.entries.insert(j, (t, ids));
                    proof {
                        let new_es = self.entries@;
                        assert forall|i: int| 0 <= i < old_es.len() && i != j implies new_es[i]
                            == old_es[i] by {}
                        lemma_entries_update(deps_entries(old_es), deps_entries(new_es), j as int);
                        assert forall|i: int| 0 <= i < new_es.len() implies strictly_increasing(
                            #[trigger] new_es[i].1@,
                        ) && new_es[i].1@.len() > 0 by {
                            if i != j {
                                assert(new_es[i] == old_es[i]);
                            }
                        }
                    }
                }
            },
            None => {
                proof {
                    lemma_entries_absent(deps_entries(old_es), target_id);
                }
            },
        }
    }

    /// Forgets the dependents of `target_id` (the target frame is gone).
    pub fn remove_target(&mut self, target_id: u64)
        requires
            old(self).wf(),
        ensures
            final(self).wf(),
            final(self).dependents() == old(self).dependents().remove(target_id),
    {
        let ghost old_es = self.entries@;
        match self.find_target(target_id) {
            Some(j) => {
                self.entries.remove(j);
                proof {
                    assert(deps_entries(self.entries@) =~= deps_entries(old_es).remove(j as int));
                    lemma_entries_remove(deps_entries(old_es), j as int);
                    let new_es = self.entries@;
                    assert forall|i: int| 0 <= i < new_es.len() implies strictly_increasing(
                        #[trigger] new_es[i].1@,
                    ) && new_es[i].1@.len() > 0 by {
                        let oi = if i < j {
                            i
                        } else {
                            i + 1
                        };
                        assert(new_es[i] == old_es[oi]);
                    }
                }
            },
            None => {
                proof {
                    lemma_entries_absent(deps_entries(old_es), target_id);
                    assert(old(self).dependents().remove(target_id) =~= old(self).dependents());
                }
            },
        }
    }

    /// The frames anchored to `target_id`, in increasing order.
    pub fn dependents_of(&self, target_id: u64) -> (r: Vec<u64>)
        requires
            self.wf(),
        ensures
            r@.to_set() == set_at(self.dependents(), target_id),
            strictly_increasing(r@),
    {
        match self.find_target(target_id) {
            Some(j) => {
                proof {
                    lemma_entries_lookup(deps_entries(self.entries@), j as int);
                }
                let ids = &self.entries[j].1;
                let mut out: Vec<u64> = Vec::new();
                let mut i: usize = 0;
                while i < ids.len()
                    invariant
                        i <= ids.len(),
                        out@ == ids@.subrange(0, i as int),
                    decreases ids.len() - i,
                {
                    out.push(ids[i]);
                    i = i + 1;
                    assert(out@ =~= ids@.subrange(0, i as int));
                }
                assert(out@ =~= ids@);
                out
            },
            None => {
                proof {
                    lemma_entries_absent(deps_entries(self.entries@), target_id);
                }
                let out: Vec<u64> = Vec::new();
                assert(out@.to_set() =~= Set::<u64>::empty());
                out
            },
        }
    }
}

impl Default for AnchorDependents {
    fn default() -> (r: Self)
        ensures
            r.wf(),
            r.dependents() == Map::<u64, Set<u64>>::empty(),
    {
        Self::new()
    }
}

/// The name entries with names taken as text.
pub open spec fn name_entries(es: Seq<(String, u64)>) -> Seq<(Seq<char>, u64)> {
    es.map_values(|e: (String, u64)| (e.0@, e.1))
}

/// The frame ids by frame name.
pub struct NameIndex {
    entries: Vec<(String, u64)>,
}

impl NameIndex {
    /// Each name once.
    pub closed spec fn wf(&self) -> bool {
        keys_distinct(name_entries(self.entries@))
    }

    /// The frame of each registered name.
    pub closed spec fn names(&self) -> Map<Seq<char>, u64> {
        assoc_map(name_entries(self.entries@))
    }

    /// The index of the entry of `name`, if any.
    fn find_name(&self, name: &str) -> (r: Option<usize>)
        ensures
            match r {
                Some(j) => j < self.entries@.len() && self.entries@[j as int].0@ == name@,
                None => forall|i: int| 0 <= i < self.entries@.len() ==> self.entries@[i].0@ != name@,
            },
    {
        let mut i: usize = 0;
        while i < self.entries.len()
            invariant
                i <= self.entries.len(),
                forall|q: int| 0 <= q < i ==> self.entries@[q].0@ != name@,
            decreases self.entries.len() - i,
        {
            if str_eq(self.entries[i].0.as_str(), name) {
                return Some(i);
            }
            i = i + 1;
        }
        None
    }

    pub fn new() -> (r: Self)
        ensures
            r.wf(),
            r.names() == Map::<Seq<char>, u64>::empty(),
    {
        let r = NameIndex { entries: Vec::new() };
        assert(name_entries(r.entries@) =~= Seq::<(Seq<char>, u64)>::empty());
        r
    }

    /// Maps `name` to `id`, replacing what it mapped to.
    pub fn insert(&mut self, name: String, id: u64)
        requires
            old(self).wf(),
        ensures
            final(self).wf(),
            final(self).names() == old(self).names().insert(name@, id),
    {
        let ghost old_es = self.entries@;
        match self.find_name(name.as_str()) {
            Some(j) => {
                self.entries.remove(j);
                self.entries.insert(j, (name, id));
                proof {
                    let new_es = self.entries@;
                    assert forall|i: int| 0 <= i < old_es.len() && i != j implies new_es[i]
                        == old_es[i] by {}
                    lemma_entries_update(name_entries(old_es), name_entries(new_es), j as int);
                }
            },
            None => {
                proof {
                    lemma_entries_absent(name_entries(old_es), name@);
                }
                self.entries.push((name, id));
                proof {
                    let ne = name_entries(self.entries@);
                    let oe = name_entries(old_es);
                    assert(ne.drop_last() =~= oe);
                    assert forall|i: int, k: int| 0 <= i < k < ne.len() implies ne[i].0 != ne[k].0 by {
                        assert(ne[i] == oe[i]);
                        if k < oe.len() {
                            assert(ne[k] == oe[k]);
                        }
                    }
                }
            },
        }
    }

    /// Forgets `name`.
    pub fn remove(&mut self, name: &str)
        requires
            old(self).wf(),
        ensures
            final(self).wf(),
            final(self).names() == old(self).names().remove(name@),
    {
        let ghost old_es = self.entries@;
        match self.find_name(name) {
            Some(j) => {
                self.entries.remove(j);
                proof {
                    assert(name_entries(self.entries@) =~= name_entries(old_es).remove(j as int));
                    lemma_entries_remove(name_entries(old_es), j as int);
                }
            },
            None => {
                proof {
                    lemma_entries_absent(name_entries(old_es), name@);
                    assert(old(self).names().remove(name@) =~= old(self).names());
                }
            },
        }
    }

    /// The frame that `name` maps to.
    pub fn get(&self, name: &str) -> (r: Option<u64>)
        requires
            self.wf(),
        ensures
            r == (if self.names().dom().contains(name@) {
                Some(self.names()[name@])
            } else {
                None
            }),
    {
        match self.find_name(name) {
            Some(j) => {
                proof {
                    lemma_entries_lookup(name_entries(self.entries@), j as int);
                }
                Some(self.entries[j].1)
            },
            None => {
                proof {
                    lemma_entries_absent(name_entries(self.entries@), name@);
                }
                None
            },
        }
    }
}

impl Default for NameIndex {
    fn default() -> (r: Self)
        ensures
            r.wf(),
            r.names() == Map::<Seq<char>, u64>::empty(),
    {
        Self::new()
    }
}

} // verus!
