//! The bookkeeping of a widget-tree diff (the frames it created, the anchors
//! it could not resolve yet and the texture paths it has checked), and the
//! flattening of a definition tree into the widgets it diffs.
use std::collections::HashSet;

use vstd::prelude::*;

use crate::frame::WidgetType;
use crate::widget_def::{child_model, children_model, def_model, WidgetChild, WidgetChildModel, WidgetDef, WidgetDefModel};

verus! {

pub struct DiffContext {
    /// All frame IDs created by this context.
    pub created_frames: Vec<u64>,
    /// Anchors that couldn't be resolved yet (relative frame not registered).
    pub pending_anchors: Vec<(u64, String)>,
    /// Validated texture/file paths (avoid re-checking).
    pub validated_paths: HashSet<String>,
    /// Missing paths already warned about.
    pub missing_paths: HashSet<String>,
    /// Log attribute changes (enabled during hot-reload).
    pub log_changes: bool,
}

impl DiffContext {
    pub fn new() -> (r: Self)
        ensures
            r.created_frames@.len() == 0,
            r.pending_anchors@.len() == 0,
            r.validated_paths@ == Set::<String>::empty(),
            r.missing_paths@ == Set::<String>::empty(),
            !r.log_changes,
    {
        DiffContext {
            created_frames: Vec::new(),
            pending_anchors: Vec::new(),
            validated_paths: HashSet::new(),
            missing_paths: HashSet::new(),
            log_changes: false,
        }
    }
}

/// The widget definitions of a list of children, in order, with fragments
/// opened up and dynamic placeholders left out.
pub open spec fn flat_defs(kids: Seq<WidgetChildModel>) -> Seq<WidgetDefModel>
    decreases kids,
{
    if kids.len() == 0 {
        Seq::empty()
    } else {
        flat_defs(kids.drop_last()) + flat_child(kids.last())
    }
}

/// The widget definitions of one child.
pub open spec fn flat_child(c: WidgetChildModel) -> Seq<WidgetDefModel>
    decreases c,
{
    match c {
        WidgetChildModel::Widget(d) => seq![d],
        WidgetChildModel::Fragment(k) => flat_defs(k),
        WidgetChildModel::Dynamic => Seq::empty(),
    }
}

/// The models of borrowed definitions.
pub open spec fn defs_model(v: Seq<&WidgetDef>) -> Seq<WidgetDefModel> {
    v.map_values(|d: &WidgetDef| def_model(*d))
}

/// The widget definitions under `children`, fragments flattened.
pub fn flatten<'a>(children: &'a [WidgetChild]) -> (out: Vec<&'a WidgetDef>)
    ensures
        defs_model(out@) == flat_defs(children_model(children@)),
    decreases children@,
{
    let ghost all = children_model(children@);
    let mut out: Vec<&'a WidgetDef> = Vec::new();
    let mut i: usize = 0;
    assert(all.subrange(0, 0) =~= Seq::<WidgetChildModel>::empty());
    assert(defs_model(out@) =~= Seq::<WidgetDefModel>::empty());
    while i < children.len()
        invariant
            i <= children.len(),
            all == children_model(children@),
            defs_model(out@) == flat_defs(all.subrange(0, i as int)),
        decreases children.len() - i,
    {
        let ghost before = defs_model(out@);
        assert(all.subrange(0, i + 1).drop_last() =~= all.subrange(0, i as int));
        assert(all.subrange(0, i + 1).last() == child_model(children@[i as int]));
        match &children[i] {
            WidgetChild::Widget(def) => {
                out.push(def);
                assert(defs_model(out@) =~= before + seq![def_model(*def)]);
                assert(flat_child(child_model(children@[i as int])) == seq![def_model(*def)]);
            },
            WidgetChild::Fragment(kids) => {
                assert(decreases_to!(children@ => kids@));
                let sub = flatten(kids.as_slice());
                let mut k: usize = 0;
                assert(before + defs_model(sub@).subrange(0, 0) =~= before);
                while k < sub.len()
                    invariant
                        k <= sub.len(),
                        defs_model(out@) == before + defs_model(sub@).subrange(0, k as int),
                    decreases sub.len() - k,
                {
                    let ghost prev = defs_model(out@);
                    let d = sub[k];
                    out.push(d);
                    assert(defs_model(out@) =~= prev.push(def_model(*d)));
                    assert(defs_model(sub@)[k as int] == def_model(*d));
                    k = k + 1;
                    assert(defs_model(sub@).subrange(0, k as int) =~= defs_model(sub@).subrange(
                        0,
                        k - 1,
                    ).push(def_model(*d)));
                    assert(defs_model(out@) =~= before + defs_model(sub@).subrange(0, k as int));
                }
                assert(defs_model(sub@).subrange(0, sub@.len() as int) =~= defs_model(sub@));
                assert(flat_child(child_model(children@[i as int])) == flat_defs(
                    children_model(kids@),
                ));
            },
            WidgetChild::Dynamic => {
                assert(before + Seq::<WidgetDefModel>::empty() =~= before);
            },
        }
        assert(flat_defs(all.subrange(0, i + 1)) == flat_defs(all.subrange(0, i as int))
            + flat_child(child_model(children@[i as int])));
        i = i + 1;
    }
    assert(all.subrange(0, children@.len() as int) =~= all);
    out
}

/// The first slot at or after `from` that still holds frame `fid`, or the
/// number of slots when none does.
pub open spec fn first_holding(rem: Seq<Option<u64>>, fid: u64, from: int) -> int
    decreases rem.len() - from,
{
    if from >= rem.len() {
        rem.len() as int
    } else if rem[from] == Some(fid) {
        from
    } else {
        first_holding(rem, fid, from + 1)
    }
}

/// The first slot at or after `from` that still holds a frame of widget
/// type `wanted`, or the number of slots when none does.
pub open spec fn first_of_type(
    rem: Seq<Option<u64>>,
    types: Seq<Option<WidgetType>>,
    wanted: WidgetType,
    from: int,
) -> int
    decreases rem.len() - from,
{
    if from >= rem.len() {
        rem.len() as int
    } else if rem[from] is Some && types[from] == Some(wanted) {
        from
    } else {
        first_of_type(rem, types, wanted, from + 1)
    }
}

/// The slot a definition takes: the one of the frame its name finds, else
/// the first of its widget type; the number of slots when it takes none.
pub open spec fn match_slot(
    rem: Seq<Option<u64>>,
    types: Seq<Option<WidgetType>>,
    named: Option<u64>,
    wanted: WidgetType,
) -> int {
    let by_name = match named {
        Some(fid) => first_holding(rem, fid, 0),
        None => rem.len() as int,
    };
    if by_name < rem.len() {
        by_name
    } else {
        first_of_type(rem, types, wanted, 0)
    }
}

proof fn lemma_first_holding(rem: Seq<Option<u64>>, fid: u64, from: int)
    requires
        0 <= from,
    ensures
        from <= first_holding(rem, fid, from) <= rem.len() || (from > rem.len()
            && first_holding(rem, fid, from) == rem.len()),
        first_holding(rem, fid, from) < rem.len() ==> rem[first_holding(rem, fid, from)] == Some(
            fid,
        ),
        forall|j: int| from <= j < first_holding(rem, fid, from) ==> rem[j] != Some(fid),
    decreases rem.len() - from,
{
    if from < rem.len() && rem[from] != Some(fid) {
        lemma_first_holding(rem, fid, from + 1);
    }
}

proof fn lemma_first_of_type(
    rem: Seq<Option<u64>>,
    types: Seq<Option<WidgetType>>,
    wanted: WidgetType,
    from: int,
)
    requires
        0 <= from,
    ensures
        from <= first_of_type(rem, types, wanted, from) <= rem.len() || (from > rem.len()
            && first_of_type(rem, types, wanted, from) == rem.len()),
        first_of_type(rem, types, wanted, from) < rem.len() ==> rem[first_of_type(
            rem,
            types,
            wanted,
            from,
        )] is Some && types[first_of_type(rem, types, wanted, from)] == Some(wanted),
        forall|j: int|
            from <= j < first_of_type(rem, types, wanted, from) ==> !(rem[j] is Some && types[j]
                == Some(wanted)),
    decreases rem.len() - from,
{
    if from < rem.len() && !(rem[from] is Some && types[from] == Some(wanted)) {
        lemma_first_of_type(rem, types, wanted, from + 1);
    }
}

proof fn lemma_match_slot(
    rem: Seq<Option<u64>>,
    types: Seq<Option<WidgetType>>,
    named: Option<u64>,
    wanted: WidgetType,
)
    ensures
        0 <= match_slot(rem, types, named, wanted) <= rem.len(),
        match_slot(rem, types, named, wanted) < rem.len() ==> rem[match_slot(
            rem,
            types,
            named,
            wanted,
        )] is Some,
{
    if let Some(n) = named {
        lemma_first_holding(rem, n, 0);
    }
    lemma_first_of_type(rem, types, wanted, 0);
}

/// Takes for a definition one of the existing frames still in `remaining`
/// (`None` marks a slot already taken): the frame that `named_frame` names
/// (what the definition's name finds in the registry) if it is still there,
/// else the first whose widget type (`types`, slot by slot; `None` for a
/// frame not in the registry) is `wanted_type`. The slot taken becomes
/// `None`.
pub fn consume_match(
    named_frame: Option<u64>,
    wanted_type: WidgetType,
    remaining: &mut Vec<Option<u64>>,
    types: &Vec<Option<WidgetType>>,
) -> (r: Option<u64>)
    requires
        old(remaining)@.len() == types@.len(),
    ensures
        ({
            let k = match_slot(old(remaining)@, types@, named_frame, wanted_type);
            &&& 0 <= k <= old(remaining)@.len()
            &&& k < old(remaining)@.len() ==> old(remaining)@[k] is Some && r == old(remaining)@[k]
                && final(remaining)@ == old(remaining)@.update(k, None)
            &&& k == old(remaining)@.len() ==> r is None && final(remaining)@ == old(remaining)@
        }),
{
    let ghost rem = remaining@;
    proof {
        if let Some(fid) = named_frame {
            lemma_first_holding(rem, fid, 0);
        }
        lemma_first_of_type(rem, types@, wanted_type, 0);
    }
    if let Some(fid) = named_frame {
        let mut i: usize = 0;
        while i < remaining.len()
            invariant
                remaining@ == rem,
                old(remaining)@ == rem,
                named_frame == Some(fid),
                i <= rem.len(),
                forall|j: int| 0 <= j < i ==> rem[j] != Some(fid),
            decreases remaining.len() - i,
        {
            if let Some(f) = remaining[i] {
                if f == fid {
                    proof {
                        lemma_first_holding(rem, fid, 0);
                        assert(rem[i as int] == Some(fid));
                        assert(first_holding(rem, fid, 0) == i);
                        assert(match_slot(rem, types@, named_frame, wanted_type) == i);
                    }
                    remaining.set(i, None);
                    return Some(fid);
                }
            }
            i = i + 1;
        }
    }
    let mut i: usize = 0;
    while i < remaining.len()
        invariant
            remaining@ == rem,
            old(remaining)@ == rem,
            rem.len() == types@.len(),
            i <= rem.len(),
            forall|n: u64, j: int|
                named_frame == Some(n) && 0 <= j < rem.len() ==> rem[j] != Some(n),
            forall|j: int| 0 <= j < i ==> !(rem[j] is Some && types@[j] == Some(wanted_type)),
        decreases remaining.len() - i,
    {
        if let Some(f) = remaining[i] {
            let same = match types[i] {
                Some(t) => t == wanted_type,
                None => false,
            };
            if same {
                proof {
                    if let Some(n) = named_frame {
                        lemma_first_holding(rem, n, 0);
                    }
                    lemma_first_of_type(rem, types@, wanted_type, 0);
                    assert(first_of_type(rem, types@, wanted_type, 0) == i);
                    assert(match_slot(rem, types@, named_frame, wanted_type) == i);
                }
                remaining.set(i, None);
                return Some(f);
            }
        }
        i = i + 1;
    }
    proof {
        if let Some(n) = named_frame {
            lemma_first_holding(rem, n, 0);
        }
        lemma_first_of_type(rem, types@, wanted_type, 0);
    }
    None
}

/// The frames held in the slots, in order.
pub open spec fn held(rem: Seq<Option<u64>>) -> Seq<u64>
    decreases rem.len(),
{
    if rem.len() == 0 {
        Seq::empty()
    } else {
        match rem.last() {
            Some(fid) => held(rem.drop_last()).push(fid),
            None => held(rem.drop_last()),
        }
    }
}

/// Matching definitions `wants` (each: the frame its name finds, its widget
/// type) in order against the slots: the slots left, the pairs (frame,
/// definition index) matched, and the indices of the definitions left
/// unmatched.
pub open spec fn match_run(
    rem: Seq<Option<u64>>,
    types: Seq<Option<WidgetType>>,
    wants: Seq<(Option<u64>, WidgetType)>,
) -> (Seq<Option<u64>>, Seq<(u64, int)>, Seq<int>)
    decreases wants.len(),
{
    if wants.len() == 0 {
        (rem, Seq::empty(), Seq::empty())
    } else {
        let prev = match_run(rem, types, wants.drop_last());
        let i = wants.len() - 1;
        let k = match_slot(prev.0, types, wants.last().0, wants.last().1);
        if 0 <= k < prev.0.len() {
            (prev.0.update(k, None), prev.1.push((prev.0[k]->0, i)), prev.2)
        } else {
            (prev.0, prev.1, prev.2.push(i))
        }
    }
}

/// The slots of the frames `existing`, none taken yet.
pub open spec fn slots(existing: Seq<u64>) -> Seq<Option<u64>> {
    existing.map_values(|fid: u64| Some(fid))
}

proof fn lemma_run_len(
    rem: Seq<Option<u64>>,
    types: Seq<Option<WidgetType>>,
    wants: Seq<(Option<u64>, WidgetType)>,
)
    ensures
        match_run(rem, types, wants).0.len() == rem.len(),
    decreases wants.len(),
{
    if wants.len() > 0 {
        lemma_run_len(rem, types, wants.drop_last());
    }
}

/// Matches the definitions of a diff against the existing frames, in the
/// order of the definitions (`wants`: for each, the frame its name finds in
/// the registry and its widget type; `types`: the widget type of each
/// existing frame). Gives the frames matched with the index of their
/// definition, the indices of the definitions that get a new frame, and the
/// existing frames left unmatched, in order.
pub fn match_existing(
    wants: &Vec<(Option<u64>, WidgetType)>,
    existing: &Vec<u64>,
    types: &Vec<Option<WidgetType>>,
) -> (r: (Vec<(u64, usize)>, Vec<usize>, Vec<u64>))
    requires
        existing@.len() == types@.len(),
    ensures
        ({
            let run = match_run(slots(existing@), types@, wants@);
            &&& r.0@.map_values(|m: (u64, usize)| (m.0, m.1 as int)) == run.1
            &&& r.1@.map_values(|i: usize| i as int) == run.2
            &&& r.2@ == held(run.0)
        }),
{
    let ghost ty = types@;
    let ghost w = wants@;
    let mut remaining: Vec<Option<u64>> = Vec::new();
    let mut e: usize = 0;
    while e < existing.len()
        invariant
            e <= existing.len(),
            remaining@ == slots(existing@.subrange(0, e as int)),
        decreases existing.len() - e,
    {
        remaining.push(Some(existing[e]));
        assert(remaining@ =~= slots(existing@.subrange(0, e + 1)));
        e = e + 1;
    }
    assert(existing@.subrange(0, existing@.len() as int) =~= existing@);
    let mut matched: Vec<(u64, usize)> = Vec::new();
    let mut unmatched: Vec<usize> = Vec::new();
    let mut i: usize = 0;
    assert(w.subrange(0, 0) =~= Seq::<(Option<u64>, WidgetType)>::empty());
    assert(matched@.map_values(|m: (u64, usize)| (m.0, m.1 as int)) =~= Seq::<(u64, int)>::empty());
    assert(unmatched@.map_values(|i: usize| i as int) =~= Seq::<int>::empty());
    while i < wants.len()
        invariant
            ty == types@,
            w == wants@,
            i <= w.len(),
            existing@.len() == ty.len(),
            ({
                let run = match_run(slots(existing@), ty, w.subrange(0, i as int));
                &&& remaining@ == run.0
                &&& matched@.map_values(|m: (u64, usize)| (m.0, m.1 as int)) == run.1
                &&& unmatched@.map_values(|i: usize| i as int) == run.2
            }),
        decreases wants.len() - i,
    {
        proof {
            lemma_run_len(slots(existing@), ty, w.subrange(0, i as int));
        }
        let ghost prev_m = matched@.map_values(|m: (u64, usize)| (m.0, m.1 as int));
        let ghost prev_u = unmatched@.map_values(|i: usize| i as int);
        let ghost prev_r = remaining@;
        let (named, wanted) = wants[i];
        let taken = consume_match(named, wanted, &mut remaining, types);
        proof {
            assert(w.subrange(0, i + 1).drop_last() =~= w.subrange(0, i as int));
            assert(w.subrange(0, i + 1).last() == w[i as int]);
        }
        match taken {
            Some(fid) => {
                matched.push((fid, i));
                assert(matched@.map_values(|m: (u64, usize)| (m.0, m.1 as int)) =~= prev_m.push(
                    (fid, i as int),
                ));
            },
            None => {
                unmatched.push(i);
                assert(unmatched@.map_values(|i: usize| i as int) =~= prev_u.push(i as int));
            },
        }
        i = i + 1;
    }
    assert(w.subrange(0, w.len() as int) =~= w);
    let mut leftover: Vec<u64> = Vec::new();
    let ghost fin = remaining@;
    let mut k: usize = 0;
    assert(fin.subrange(0, 0) =~= Seq::<Option<u64>>::empty());
    while k < remaining.len()
        invariant
            fin == remaining@,
            k <= fin.len(),
            leftover@ == held(fin.subrange(0, k as int)),
        decreases remaining.len() - k,
    {
        assert(fin.subrange(0, k + 1).drop_last() =~= fin.subrange(0, k as int));
        if let Some(fid) = remaining[k] {
            leftover.push(fid);
        }
        k = k + 1;
    }
    assert(fin.subrange(0, fin.len() as int) =~= fin);
    (matched, unmatched, leftover)
}

proof fn lemma_held(rem: Seq<Option<u64>>)
    ensures
        forall|x: u64|
            held(rem).contains(x) <==> exists|k: int| 0 <= k < rem.len() && #[trigger] rem[k] == Some(x),
    decreases rem.len(),
{
    if rem.len() > 0 {
        let init = rem.drop_last();
        lemma_held(init);
        assert forall|x: u64|
            held(rem).contains(x) <==> exists|k: int| 0 <= k < rem.len() && #[trigger] rem[k] == Some(
                x,
            ) by {
            if held(rem).contains(x) {
                if held(init).contains(x) {
                    let k = choose|k: int| 0 <= k < init.len() && #[trigger] init[k] == Some(x);
                    assert(rem[k] == Some(x));
                } else {
                    assert(rem.last() == Some(x));
                    assert(rem[rem.len() - 1] == Some(x));
                }
            }
            if exists|k: int| 0 <= k < rem.len() && #[trigger] rem[k] == Some(x) {
                let k = choose|k: int| 0 <= k < rem.len() && #[trigger] rem[k] == Some(x);
                if k < rem.len() - 1 {
                    assert(init[k] == Some(x));
                    assert(held(init).contains(x));
                } else {
                    assert(held(rem) == held(init).push(x));
                    assert(held(rem)[held(init).len() as int] == x);
                }
                if let Some(y) = rem.last() {
                    assert(held(rem) == held(init).push(y));
                    let j = choose|j: int| 0 <= j < held(init).len() && held(init)[j] == x;
                    if held(init).contains(x) {
                        assert(held(rem)[j] == x);
                    }
                }
            }
        }
    }
}

/// What matching keeps of the slots: a slot is only emptied, and an empty
/// slot's frame is matched to exactly one definition.
spec fn slot_facts(existing: Seq<u64>, rem: Seq<Option<u64>>, matched: Seq<(u64, int)>) -> bool {
    &&& rem.len() == existing.len()
    &&& forall|k: int|
        0 <= k < existing.len() && (#[trigger] rem[k]) is Some ==> rem[k] == Some(existing[k])
    &&& forall|k: int|
        0 <= k < existing.len() && (#[trigger] rem[k]) is None ==> exists|m: int|
            0 <= m < matched.len() && #[trigger] matched[m].0 == existing[k]
    &&& forall|m: int|
        #![trigger matched[m]]
        0 <= m < matched.len() ==> exists|k: int|
            0 <= k < existing.len() && rem[k] is None && #[trigger] existing[k] == matched[m].0
    &&& forall|m1: int, m2: int|
        0 <= m1 < m2 < matched.len() ==> #[trigger] matched[m1].0 != #[trigger] matched[m2].0
}

proof fn lemma_run_slots(
    existing: Seq<u64>,
    types: Seq<Option<WidgetType>>,
    wants: Seq<(Option<u64>, WidgetType)>,
)
    requires
        existing.no_duplicates(),
    ensures
        slot_facts(
            existing,
            match_run(slots(existing), types, wants).0,
            match_run(slots(existing), types, wants).1,
        ),
    decreases wants.len(),
{
    if wants.len() == 0 {
        assert forall|k: int| 0 <= k < existing.len() implies #[trigger] slots(existing)[k] == Some(
            existing[k],
        ) by {}
    } else {
        let prev = match_run(slots(existing), types, wants.drop_last());
        lemma_run_slots(existing, types, wants.drop_last());
        let run = match_run(slots(existing), types, wants);
        let k = match_slot(prev.0, types, wants.last().0, wants.last().1);
        if 0 <= k < prev.0.len() {
            // The slot taken held a frame of `existing`, matched now.
            lemma_match_slot(prev.0, types, wants.last().0, wants.last().1);
            let fid = prev.0[k]->0;
            assert(run.0 == prev.0.update(k, None));
            assert(run.1 == prev.1.push((fid, wants.len() - 1)));
            assert(prev.0[k] == Some(existing[k]));
            assert forall|k2: int|
                0 <= k2 < existing.len() && (#[trigger] run.0[k2]) is None implies exists|m: int|
                0 <= m < run.1.len() && #[trigger] run.1[m].0 == existing[k2] by {
                if k2 == k {
                    assert(run.1[prev.1.len() as int].0 == existing[k2]);
                } else {
                    assert(prev.0[k2] is None);
                    let m = choose|m: int| 0 <= m < prev.1.len() && #[trigger] prev.1[m].0 == existing[k2];
                    assert(run.1[m] == prev.1[m]);
                }
            }
            assert forall|m: int| #![trigger run.1[m]] 0 <= m < run.1.len() implies exists|k2: int|
                0 <= k2 < existing.len() && run.0[k2] is None && #[trigger] existing[k2]
                    == run.1[m].0 by {
                if m == prev.1.len() {
                    assert(run.0[k] is None && existing[k] == run.1[m].0);
                } else {
                    assert(run.1[m] == prev.1[m]);
                    let k2 = choose|k2: int|
                        0 <= k2 < existing.len() && prev.0[k2] is None && #[trigger] existing[k2]
                            == prev.1[m].0;
                    assert(run.0[k2] is None);
                }
            }
            assert forall|m1: int, m2: int|
                0 <= m1 < m2 < run.1.len() implies #[trigger] run.1[m1].0 != #[trigger] run.1[m2].0 by {
                assert(run.1[m1] == prev.1[m1]);
                if m2 == prev.1.len() {
                    let k1 = choose|k1: int|
                        0 <= k1 < existing.len() && prev.0[k1] is None && #[trigger] existing[k1]
                            == prev.1[m1].0;
                    assert(k1 != k);
                    assert(existing[k1] != existing[k]);
                } else {
                    assert(run.1[m2] == prev.1[m2]);
                }
            }
            assert(slot_facts(existing, run.0, run.1));
        } else {
            assert(run.0 == prev.0 && run.1 == prev.1);
        }
    }
}

/// Where matching places the definitions: each index of `wants` is matched
/// or left unmatched, not both, and no other index occurs.
proof fn lemma_run_indices(
    rem: Seq<Option<u64>>,
    types: Seq<Option<WidgetType>>,
    wants: Seq<(Option<u64>, WidgetType)>,
)
    ensures
        ({
            let run = match_run(rem, types, wants);
            &&& forall|m: int| 0 <= m < run.1.len() ==> 0 <= #[trigger] run.1[m].1 < wants.len()
            &&& forall|u: int| 0 <= u < run.2.len() ==> 0 <= #[trigger] run.2[u] < wants.len()
            &&& forall|i: int|
                0 <= i < wants.len() ==> ((exists|m: int|
                    0 <= m < run.1.len() && #[trigger] run.1[m].1 == i) <==> !run.2.contains(i))
        }),
    decreases wants.len(),
{
    if wants.len() > 0 {
        let prev = match_run(rem, types, wants.drop_last());
        lemma_run_indices(rem, types, wants.drop_last());
        let run = match_run(rem, types, wants);
        let n = wants.len() - 1;
        let k = match_slot(prev.0, types, wants.last().0, wants.last().1);
        assert forall|i: int|
            0 <= i < wants.len() implies ((exists|m: int|
                0 <= m < run.1.len() && #[trigger] run.1[m].1 == i) <==> !run.2.contains(i)) by {
            if 0 <= k < prev.0.len() {
                assert(run.1 == prev.1.push((prev.0[k]->0, n)));
                assert(run.2 == prev.2);
                if i == n {
                    assert(run.1[prev.1.len() as int].1 == i);
                    if run.2.contains(i) {
                        let u = choose|u: int| 0 <= u < run.2.len() && run.2[u] == i;
                        assert(prev.2[u] < n);
                    }
                } else {
                    if exists|m: int| 0 <= m < run.1.len() && #[trigger] run.1[m].1 == i {
                        let m = choose|m: int| 0 <= m < run.1.len() && #[trigger] run.1[m].1 == i;
                        assert(m < prev.1.len());
                        assert(prev.1[m].1 == i);
                    }
                    if exists|m: int| 0 <= m < prev.1.len() && #[trigger] prev.1[m].1 == i {
                        let m = choose|m: int| 0 <= m < prev.1.len() && #[trigger] prev.1[m].1 == i;
                        assert(run.1[m].1 == i);
                    }
                }
            } else {
                assert(run.1 == prev.1);
                assert(run.2 == prev.2.push(n));
                if i == n {
                    assert(run.2[prev.2.len() as int] == i);
                    if exists|m: int| 0 <= m < run.1.len() && #[trigger] run.1[m].1 == i {
                        let m = choose|m: int| 0 <= m < run.1.len() && #[trigger] run.1[m].1 == i;
                        assert(prev.1[m].1 < n);
                    }
                } else {
                    if run.2.contains(i) {
                        let u = choose|u: int| 0 <= u < run.2.len() && run.2[u] == i;
                        assert(u < prev.2.len());
                        assert(prev.2.contains(i));
                    }
                    if prev.2.contains(i) {
                        let u = choose|u: int| 0 <= u < prev.2.len() && prev.2[u] == i;
                        assert(run.2[u] == i);
                    }
                }
            }
        }
        assert forall|m: int| 0 <= m < run.1.len() implies 0 <= #[trigger] run.1[m].1 < wants.len() by {
            if m < prev.1.len() {
                assert(run.1[m] == prev.1[m]);
            }
        }
        assert forall|u: int| 0 <= u < run.2.len() implies 0 <= #[trigger] run.2[u] < wants.len() by {
            if u < prev.2.len() {
                assert(run.2[u] == prev.2[u]);
            }
        }
    }
}

/// Matching the definitions of a diff against existing frames (each frame
/// once) takes no frame twice, removes no frame it matched, loses none
/// (every frame is matched or left over for removal, and only those are
/// left over), and places every definition exactly once: matched to a
/// frame, or left to get a new frame.
pub proof fn match_partitions_frames_and_defs(
    existing: Seq<u64>,
    types: Seq<Option<WidgetType>>,
    wants: Seq<(Option<u64>, WidgetType)>,
)
    requires
        existing.no_duplicates(),
    ensures
        ({
            let run = match_run(slots(existing), types, wants);
            &&& forall|m1: int, m2: int|
                0 <= m1 < m2 < run.1.len() ==> #[trigger] run.1[m1].0 != #[trigger] run.1[m2].0
            &&& forall|m: int|
                0 <= m < run.1.len() ==> existing.contains(#[trigger] run.1[m].0) && !held(
                    run.0,
                ).contains(run.1[m].0)
            &&& forall|x: u64| #[trigger] held(run.0).contains(x) ==> existing.contains(x)
            &&& forall|x: u64|
                #[trigger] existing.contains(x) ==> held(run.0).contains(x) || exists|m: int|
                    0 <= m < run.1.len() && #[trigger] run.1[m].0 == x
            &&& forall|m: int| 0 <= m < run.1.len() ==> 0 <= #[trigger] run.1[m].1 < wants.len()
            &&& forall|u: int| 0 <= u < run.2.len() ==> 0 <= #[trigger] run.2[u] < wants.len()
            &&& forall|i: int|
                0 <= i < wants.len() ==> ((exists|m: int|
                    0 <= m < run.1.len() && #[trigger] run.1[m].1 == i) <==> !run.2.contains(i))
        }),
{
    let run = match_run(slots(existing), types, wants);
    lemma_run_slots(existing, types, wants);
    lemma_run_indices(slots(existing), types, wants);
    lemma_held(run.0);
    assert forall|m: int| 0 <= m < run.1.len() implies existing.contains(#[trigger] run.1[m].0)
        && !held(run.0).contains(run.1[m].0) by {
        let k = choose|k: int|
            0 <= k < existing.len() && run.0[k] is None && #[trigger] existing[k] == run.1[m].0;
        if held(run.0).contains(run.1[m].0) {
            let k2 = choose|k2: int| 0 <= k2 < run.0.len() && #[trigger] run.0[k2] == Some(run.1[m].0);
            assert(run.0[k2] == Some(existing[k2]));
            assert(k2 != k);
        }
    }
    assert forall|x: u64| #[trigger] held(run.0).contains(x) implies existing.contains(x) by {
        let k = choose|k: int| 0 <= k < run.0.len() && #[trigger] run.0[k] == Some(x);
        assert(run.0[k] == Some(existing[k]));
    }
    assert forall|x: u64| #[trigger] existing.contains(x) implies held(run.0).contains(x) || exists|m: int|
        0 <= m < run.1.len() && #[trigger] run.1[m].0 == x by {
        let k = choose|k: int| 0 <= k < existing.len() && existing[k] == x;
        if run.0[k] is Some {
            assert(run.0[k] == Some(existing[k]));
        } else {
            assert(run.0[k] is None);
        }
    }
}

} // verus!
