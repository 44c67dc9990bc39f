//! Sets of frame ids kept as vectors in strictly increasing order, and maps
//! kept as lists of (key, value) entries with distinct keys.
use vstd::prelude::*;

verus! {

/// Whether the ids are in strictly increasing order (so each occurs once).
pub open spec fn strictly_increasing(s: Seq<u64>) -> bool {
    forall|i: int, j: int| 0 <= i < j < s.len() ==> s[i] < s[j]
}

/// The entries as a map from key to value.
pub open spec fn assoc_map<K, V>(es: Seq<(K, V)>) -> Map<K, V>
    decreases es.len(),
{
    if es.len() == 0 {
        Map::empty()
    } else {
        assoc_map(es.drop_last()).insert(es.last().0, es.last().1)
    }
}

/// Whether no key occurs in two entries.
pub open spec fn keys_distinct<K, V>(es: Seq<(K, V)>) -> bool {
    forall|i: int, j: int| 0 <= i < j < es.len() ==> es[i].0 != es[j].0
}

/// The set of `k` in `m`, empty when `k` has none.
pub open spec fn set_at<K>(m: Map<K, Set<u64>>, k: K) -> Set<u64> {
    if m.dom().contains(k) {
        m[k]
    } else {
        Set::empty()
    }
}

/// The entry of a key gives its value.
pub proof fn lemma_entries_lookup<K, V>(es: Seq<(K, V)>, i: int)
    requires
        keys_distinct(es),
        0 <= i < es.len(),
    ensures
        assoc_map(es).dom().contains(es[i].0),
        assoc_map(es)[es[i].0] == es[i].1,
    decreases es.len(),
{
    if i < es.len() - 1 {
        let init = es.drop_last();
        assert(init[i] == es[i]);
        lemma_entries_lookup(init, i);
    }
}

/// A key that no entry carries is not in the map.
pub proof fn lemma_entries_absent<K, V>(es: Seq<(K, V)>, k: K)
    requires
        forall|i: int| 0 <= i < es.len() ==> es[i].0 != k,
    ensures
        !assoc_map(es).dom().contains(k),
    decreases es.len(),
{
    if es.len() > 0 {
        let init = es.drop_last();
        assert forall|i: int| 0 <= i < init.len() implies init[i].0 != k by {
            assert(init[i] == es[i]);
        }
        lemma_entries_absent(init, k);
    }
}

/// Every key of the map is the key of an entry.
pub proof fn lemma_entries_present<K, V>(es: Seq<(K, V)>, k: K) -> (i: int)
    requires
        assoc_map(es).dom().contains(k),
    ensures
        0 <= i < es.len(),
        es[i].0 == k,
    decreases es.len(),
{
    if es.last().0 == k {
        es.len() - 1
    } else {
        let init = es.drop_last();
        let j = lemma_entries_present(init, k);
        assert(init[j] == es[j]);
        j
    }
}

/// Entries with the same keys, position by position, give maps with the
/// same keys.
pub proof fn lemma_entries_same_keys<K, V>(old_es: Seq<(K, V)>, new_es: Seq<(K, V)>)
    requires
        keys_distinct(old_es),
        old_es.len() == new_es.len(),
        forall|i: int| 0 <= i < old_es.len() ==> (#[trigger] new_es[i]).0 == old_es[i].0,
    ensures
        keys_distinct(new_es),
        assoc_map(new_es).dom() == assoc_map(old_es).dom(),
{
    assert forall|i: int, j: int| 0 <= i < j < new_es.len() implies new_es[i].0 != new_es[j].0 by {
        assert(new_es[i].0 == old_es[i].0);
        assert(new_es[j].0 == old_es[j].0);
    }
    assert forall|k: K| assoc_map(new_es).dom().contains(k) <==> assoc_map(
        old_es,
    ).dom().contains(k) by {
        if assoc_map(new_es).dom().contains(k) {
            let i = lemma_entries_present(new_es, k);
            lemma_entries_lookup(old_es, i);
        }
        if assoc_map(old_es).dom().contains(k) {
            let i = lemma_entries_present(old_es, k);
            lemma_entries_lookup(new_es, i);
        }
    }
    assert(assoc_map(new_es).dom() =~= assoc_map(old_es).dom());
}

/// Replacing the value of entry `j` replaces it in the map.
pub proof fn lemma_entries_update<K, V>(old_es: Seq<(K, V)>, new_es: Seq<(K, V)>, j: int)
    requires
        keys_distinct(old_es),
        0 <= j < old_es.len(),
        new_es.len() == old_es.len(),
        forall|i: int| 0 <= i < old_es.len() ==> (#[trigger] new_es[i]).0 == old_es[i].0,
        forall|i: int| 0 <= i < old_es.len() && i != j ==> (#[trigger] new_es[i]).1 == old_es[i].1,
    ensures
        keys_distinct(new_es),
        assoc_map(new_es) == assoc_map(old_es).insert(old_es[j].0, new_es[j].1),
{
    lemma_entries_same_keys(old_es, new_es);
    let m = assoc_map(old_es).insert(old_es[j].0, new_es[j].1);
    lemma_entries_lookup(old_es, j);
    assert forall|k: K| #[trigger] assoc_map(new_es).dom().contains(k) implies assoc_map(
        new_es,
    )[k] == m[k] by {
        let i = lemma_entries_present(new_es, k);
        lemma_entries_lookup(new_es, i);
        lemma_entries_lookup(old_es, i);
    }
    assert(assoc_map(new_es) =~= m);
}

/// Removing entry `j` removes its key from the map.
pub proof fn lemma_entries_remove<K, V>(es: Seq<(K, V)>, j: int)
    requires
        keys_distinct(es),
        0 <= j < es.len(),
    ensures
        keys_distinct(es.remove(j)),
        assoc_map(es.remove(j)) == assoc_map(es).remove(es[j].0),
{
    let r = es.remove(j);
    assert forall|a: int, b: int| 0 <= a < b < r.len() implies r[a].0 != r[b].0 by {
        let oa = if a < j {
            a
        } else {
            a + 1
        };
        let ob = if b < j {
            b
        } else {
            b + 1
        };
        assert(r[a] == es[oa]);
        assert(r[b] == es[ob]);
    }
    let m = assoc_map(es).remove(es[j].0);
    assert forall|k: K| assoc_map(r).dom().contains(k) <==> m.dom().contains(k) by {
        if assoc_map(r).dom().contains(k) {
            let i = lemma_entries_present(r, k);
            let oi = if i < j {
                i
            } else {
                i + 1
            };
            assert(r[i] == es[oi]);
            lemma_entries_lookup(es, oi);
        }
        if m.dom().contains(k) {
            let i = lemma_entries_present(es, k);
            assert(i != j);
            let ri = if i < j {
                i
            } else {
                i - 1
            };
            assert(r[ri] == es[i]);
            lemma_entries_lookup(r, ri);
        }
    }
    assert forall|k: K| #[trigger] assoc_map(r).dom().contains(k) implies assoc_map(r)[k]
        == m[k] by {
        let i = lemma_entries_present(r, k);
        let oi = if i < j {
            i
        } else {
            i + 1
        };
        assert(r[i] == es[oi]);
        lemma_entries_lookup(r, i);
        lemma_entries_lookup(es, oi);
    }
    assert(assoc_map(r) =~= m);
}

/// Inserts `id` into strictly increasing ids.
pub fn insert_sorted(ids: &mut Vec<u64>, id: u64)
    requires
        strictly_increasing(old(ids)@),
    ensures
        strictly_increasing(final(ids)@),
        final(ids)@.to_set() == old(ids)@.to_set().insert(id),
{
    let mut p: usize = 0;
    while p < ids.len() && ids[p] < id
        invariant
            p <= ids.len(),
            forall|q: int| 0 <= q < p ==> ids@[q] < id,
        decreases ids.len() - p,
    {
        p = p + 1;
    }
    if p < ids.len() && ids[p] == id {
        assert(ids@.to_set() =~= ids@.to_set().insert(id));
        return;
    }
    let ghost before = ids@;
    ids.insert(p, id);
    assert forall|i: int, j: int| 0 <= i < j < ids@.len() implies ids@[i] < ids@[j] by {
        if j < p {
        } else if j == p {
        } else if i < p {
            assert(before[j - 1] > before[i] || i == j - 1);
            if p < before.len() {
                assert(before[p as int] > id);
            }
        } else if i == p {
            assert(before[p as int] > id);
            assert(j - 1 >= p);
            if j - 1 > p {
                assert(before[j - 1] > before[p as int]);
            }
        } else {
        }
    }
    assert forall|x: u64| ids@.to_set().contains(x) <==> before.to_set().insert(id).contains(x) by {
        if ids@.contains(x) {
            let i = choose|i: int| 0 <= i < ids@.len() && ids@[i] == x;
            if i < p {
                assert(before[i] == x);
            } else if i > p {
                assert(before[i - 1] == x);
            }
        }
        if before.contains(x) {
            let i = choose|i: int| 0 <= i < before.len() && before[i] == x;
            if i < p {
                assert(ids@[i] == x);
            } else {
                assert(ids@[i + 1] == x);
            }
        }
        if x == id {
            assert(ids@[p as int] == id);
        }
    }
    assert(ids@.to_set() =~= before.to_set().insert(id));
}

/// Removes `id` from strictly increasing ids.
pub fn remove_id(ids: &mut Vec<u64>, id: u64)
    requires
        strictly_increasing(old(ids)@),
    ensures
        strictly_increasing(final(ids)@),
        final(ids)@.to_set() == old(ids)@.to_set().remove(id),
{
    let mut p: usize = 0;
    while p < ids.len() && ids[p] != id
        invariant
            p <= ids.len(),
            forall|q: int| 0 <= q < p ==> ids@[q] != id,
        decreases ids.len() - p,
    {
        p = p + 1;
    }
    if p == ids.len() {
        assert(ids@.to_set() =~= ids@.to_set().remove(id));
        return;
    }
    let ghost before = ids@;
    ids.remove(p);
    assert forall|i: int, j: int| 0 <= i < j < ids@.len() implies ids@[i] < ids@[j] by {
        let bi = if i < p {
            i
        } else {
            i + 1
        };
        let bj = if j < p {
            j
        } else {
            j + 1
        };
        assert(ids@[i] == before[bi]);
        assert(ids@[j] == before[bj]);
    }
    assert forall|x: u64| ids@.to_set().contains(x) <==> before.to_set().remove(id).contains(x) by {
        if ids@.contains(x) {
            let i = choose|i: int| 0 <= i < ids@.len() && ids@[i] == x;
            let bi = if i < p {
                i
            } else {
                i + 1
            };
            assert(before[bi] == x);
            assert(x != id);
        }
        if before.contains(x) && x != id {
            let i = choose|i: int| 0 <= i < before.len() && before[i] == x;
            if i < p {
                assert(ids@[i] == x);
            } else {
                assert(i != p);
                assert(ids@[i - 1] == x);
            }
        }
    }
    assert(ids@.to_set() =~= before.to_set().remove(id));
}

} // verus!
