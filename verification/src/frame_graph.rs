//! Graphs between frames, each given as a list of (frame, frames it leads
//! to): the anchors (whether one frame depends on another through a chain
//! of anchors, and whether a new anchor may be set), the dependents marked
//! for layout when a frame changes, and the children whose visibility a
//! change of a frame decides.
use vstd::prelude::*;

verus! {

/// The frames that entry `i` of a graph leads to. In an anchor graph, each
/// frame has an entry (also one without anchors) with the frames its anchors
/// are relative to.
pub open spec fn targets_of(g: Seq<(u64, Vec<u64>)>, i: int) -> Seq<u64> {
    g[i].1@
}

/// Whether the graph holds a frame with this id.
pub open spec fn has_node(g: Seq<(u64, Vec<u64>)>, id: u64) -> bool {
    exists|i: int| 0 <= i < g.len() && #[trigger] g[i].0 == id
}

/// Whether frame `a` leads to frame `b` (in an anchor graph: has an anchor
/// relative to it).
pub open spec fn edge(g: Seq<(u64, Vec<u64>)>, a: u64, b: u64) -> bool {
    exists|i: int, j: int|
        0 <= i < g.len() && g[i].0 == a && 0 <= j < targets_of(g, i).len() && #[trigger] targets_of(
            g,
            i,
        )[j] == b
}

/// Whether `p` is a chain: each frame leads to the next.
pub open spec fn is_path(g: Seq<(u64, Vec<u64>)>, p: Seq<u64>) -> bool {
    &&& p.len() >= 1
    &&& forall|k: int| 0 <= k < p.len() - 1 ==> #[trigger] edge(g, p[k], p[k + 1])
}

/// Whether `a` reaches `b` (in an anchor graph: depends on it): `a` is `b`,
/// or a chain leads from `a` to `b`.
pub open spec fn reaches(g: Seq<(u64, Vec<u64>)>, a: u64, b: u64) -> bool {
    exists|p: Seq<u64>| #[trigger] is_path(g, p) && p[0] == a && p.last() == b
}

/// Whether no chain leads from a frame back to itself.
pub open spec fn acyclic(g: Seq<(u64, Vec<u64>)>) -> bool {
    forall|a: u64, b: u64| #[trigger] edge(g, a, b) ==> !reaches(g, b, a)
}

/// All the frames that some frame leads to.
pub open spec fn all_targets(g: Seq<(u64, Vec<u64>)>) -> Seq<u64>
    decreases g.len(),
{
    if g.len() == 0 {
        Seq::empty()
    } else {
        all_targets(g.drop_last()) + g.last().1@
    }
}

/// A frame reaches itself.
pub proof fn lemma_reaches_self(g: Seq<(u64, Vec<u64>)>, a: u64)
    ensures
        reaches(g, a, a),
{
    let p = seq![a];
    assert(is_path(g, p));
}

/// A chain extended by one step.
pub proof fn lemma_reaches_step(g: Seq<(u64, Vec<u64>)>, a: u64, b: u64, c: u64)
    requires
        reaches(g, a, b),
        edge(g, b, c),
    ensures
        reaches(g, a, c),
{
    let p = choose|p: Seq<u64>| #[trigger] is_path(g, p) && p[0] == a && p.last() == b;
    let q = p.push(c);
    assert forall|k: int| 0 <= k < q.len() - 1 implies #[trigger] edge(g, q[k], q[k + 1]) by {
        if k < p.len() - 1 {
            assert(q[k] == p[k] && q[k + 1] == p[k + 1]);
        } else {
            assert(q[k] == b && q[k + 1] == c);
        }
    }
    assert(is_path(g, q));
}

/// Two chains joined end to start.
pub proof fn lemma_reaches_trans(g: Seq<(u64, Vec<u64>)>, a: u64, b: u64, c: u64)
    requires
        reaches(g, a, b),
        reaches(g, b, c),
    ensures
        reaches(g, a, c),
{
    let p = choose|p: Seq<u64>| #[trigger] is_path(g, p) && p[0] == a && p.last() == b;
    let q = choose|q: Seq<u64>| #[trigger] is_path(g, q) && q[0] == b && q.last() == c;
    lemma_reaches_along(g, p, q);
}

proof fn lemma_reaches_along(g: Seq<(u64, Vec<u64>)>, p: Seq<u64>, q: Seq<u64>)
    requires
        is_path(g, p),
        is_path(g, q),
        p.last() == q[0],
    ensures
        reaches(g, p[0], q.last()),
    decreases q.len(),
{
    if q.len() == 1 {
        assert(is_path(g, p));
    } else {
        let q1 = q.drop_last();
        assert forall|k: int| 0 <= k < q1.len() - 1 implies #[trigger] edge(g, q1[k], q1[k + 1]) by {
            assert(q1[k] == q[k] && q1[k + 1] == q[k + 1]);
        }
        lemma_reaches_along(g, p, q1);
        let k = q.len() - 2;
        assert(edge(g, q[k], q[k + 1]));
        lemma_reaches_step(g, p[0], q1.last(), q.last());
    }
}

/// The end of a step is among the targets.
proof fn lemma_edge_target(g: Seq<(u64, Vec<u64>)>, a: u64, b: u64)
    requires
        edge(g, a, b),
    ensures
        all_targets(g).contains(b),
    decreases g.len(),
{
    let (i, j) = choose|i: int, j: int|
        0 <= i < g.len() && g[i].0 == a && 0 <= j < targets_of(g, i).len() && #[trigger] targets_of(
            g,
            i,
        )[j] == b;
    let init = g.drop_last();
    if i == g.len() - 1 {
        assert(all_targets(g)[all_targets(init).len() + j] == b);
    } else {
        assert(init[i] == g[i]);
        assert(targets_of(init, i)[j] == b);
        lemma_edge_target(init, a, b);
        let k = choose|k: int| 0 <= k < all_targets(init).len() && all_targets(init)[k] == b;
        assert(all_targets(g)[k] == b);
    }
}

/// Whatever `a` reaches is `a` itself or a target.
proof fn lemma_reaches_within(g: Seq<(u64, Vec<u64>)>, a: u64, b: u64)
    requires
        reaches(g, a, b),
    ensures
        b == a || all_targets(g).contains(b),
{
    let p = choose|p: Seq<u64>| #[trigger] is_path(g, p) && p[0] == a && p.last() == b;
    if p.len() > 1 {
        let k = p.len() - 2;
        assert(edge(g, p[k], p[k + 1]));
        lemma_edge_target(g, p[p.len() - 2], b);
    }
}

/// A set of frames that holds `p[0]` and, with each frame, every frame it
/// leads to, holds the end of the chain `p`.
proof fn lemma_closed_holds_path(g: Seq<(u64, Vec<u64>)>, s: Seq<u64>, p: Seq<u64>)
    requires
        is_path(g, p),
        s.contains(p[0]),
        forall|x: u64, y: u64| s.contains(x) && #[trigger] edge(g, x, y) ==> s.contains(y),
    ensures
        s.contains(p.last()),
    decreases p.len(),
{
    if p.len() > 1 {
        let p1 = p.drop_last();
        assert forall|k: int| 0 <= k < p1.len() - 1 implies #[trigger] edge(g, p1[k], p1[k + 1]) by {
            assert(p1[k] == p[k] && p1[k + 1] == p[k + 1]);
        }
        lemma_closed_holds_path(g, s, p1);
        let k = p.len() - 2;
        assert(edge(g, p[k], p[k + 1]));
    }
}

fn contains_id(ids: &Vec<u64>, id: u64) -> (r: bool)
    ensures
        r == ids@.contains(id),
{
    let mut i: usize = 0;
    while i < ids.len()
        invariant
            i <= ids.len(),
            forall|k: int| 0 <= k < i ==> ids@[k] != id,
        decreases ids.len() - i,
    {
        if ids[i] == id {
            return true;
        }
        i = i + 1;
    }
    false
}

/// Pushes onto `stack` the frames that frame `current` leads to.
fn push_targets(graph: &Vec<(u64, Vec<u64>)>, current: u64, stack: &mut Vec<u64>)
    ensures
        final(stack)@.subrange(0, old(stack)@.len() as int) == old(stack)@,
        final(stack)@.len() >= old(stack)@.len(),
        forall|k: int|
            old(stack)@.len() <= k < final(stack)@.len() ==> edge(graph@, current, #[trigger] final(stack)@[k]),
        forall|b: u64| #[trigger] edge(graph@, current, b) ==> final(stack)@.contains(b),
{
    let ghost g = graph@;
    let ghost s0 = stack@;
    let mut i: usize = 0;
    while i < graph.len()
        invariant
            g == graph@,
            i <= graph.len(),
            stack@.len() >= s0.len(),
            stack@.subrange(0, s0.len() as int) == s0,
            forall|k: int| s0.len() <= k < stack@.len() ==> edge(g, current, #[trigger] stack@[k]),
            forall|i2: int, j2: int|
                0 <= i2 < i && g[i2].0 == current && 0 <= j2 < targets_of(g, i2).len()
                    ==> stack@.contains(#[trigger] targets_of(g, i2)[j2]),
        decreases graph.len() - i,
    {
        if graph[i].0 == current {
            let targets = &graph[i].1;
            let mut j: usize = 0;
            while j < targets.len()
                invariant
                    g == graph@,
                    i < graph.len(),
                    g[i as int].0 == current,
                    targets@ == targets_of(g, i as int),
                    j <= targets.len(),
                    stack@.len() >= s0.len(),
                    stack@.subrange(0, s0.len() as int) == s0,
                    forall|k: int|
                        s0.len() <= k < stack@.len() ==> edge(g, current, #[trigger] stack@[k]),
                    forall|i2: int, j2: int|
                        0 <= i2 < i && g[i2].0 == current && 0 <= j2 < targets_of(g, i2).len()
                            ==> stack@.contains(#[trigger] targets_of(g, i2)[j2]),
                    forall|j2: int| 0 <= j2 < j ==> stack@.contains(#[trigger] targets@[j2]),
                decreases targets.len() - j,
            {
                let ghost before = stack@;
                stack.push(targets[j]);
                proof {
                    assert(edge(g, current, targets_of(g, i as int)[j as int]));
                    assert(stack@[stack@.len() - 1] == targets@[j as int]);
                    assert forall|k: int| s0.len() <= k < stack@.len() implies edge(
                        g,
                        current,
                        #[trigger] stack@[k],
                    ) by {
                        if k < before.len() {
                            assert(stack@[k] == before[k]);
                        }
                    }
                    assert forall|x: u64| before.contains(x) implies stack@.contains(x) by {
                        let k = choose|k: int| 0 <= k < before.len() && before[k] == x;
                        assert(stack@[k] == x);
                    }
                    assert(stack@.subrange(0, s0.len() as int) =~= s0) by {
                        assert forall|k: int| 0 <= k < s0.len() implies stack@[k] == s0[k] by {
                            assert(stack@[k] == before[k]);
                            assert(before.subrange(0, s0.len() as int)[k] == before[k]);
                        }
                    }
                }
                j = j + 1;
            }
        }
        i = i + 1;
    }
    proof {
        assert forall|b: u64| #[trigger] edge(g, current, b) implies stack@.contains(b) by {
            let (i2, j2) = choose|i2: int, j2: int|
                0 <= i2 < g.len() && g[i2].0 == current && 0 <= j2 < targets_of(g, i2).len()
                    && #[trigger] targets_of(g, i2)[j2] == b;
        }
    }
}

/// Whether frame `start` depends on frame `target`: it is `target`, or a
/// chain of anchors leads from it to `target`.
pub fn depends_on(graph: &Vec<(u64, Vec<u64>)>, start: u64, target: u64) -> (r: bool)
    ensures
        r == reaches(graph@, start, target),
{
    let ghost g = graph@;
    if start == target {
        proof {
            lemma_reaches_self(g, start);
        }
        return true;
    }
    let ghost u = seq![start] + all_targets(g);
    let mut stack: Vec<u64> = Vec::new();
    stack.push(start);
    let mut visited: Vec<u64> = Vec::new();
    proof {
        lemma_reaches_self(g, start);
        assert(stack@[0] == start);
    }
    while stack.len() > 0
        invariant
            g == graph@,
            u == seq![start] + all_targets(g),
            start != target,
            visited@.no_duplicates(),
            forall|k: int| 0 <= k < visited@.len() ==> reaches(g, start, #[trigger] visited@[k]),
            forall|k: int| 0 <= k < stack@.len() ==> reaches(g, start, #[trigger] stack@[k]),
            !visited@.contains(target),
            visited@.contains(start) || stack@.contains(start),
            forall|x: u64, y: u64|
                visited@.contains(x) && #[trigger] edge(g, x, y) ==> visited@.contains(y)
                    || stack@.contains(y),
        decreases u.len() - visited@.len(), stack@.len(),
    {
        let ghost old_stack = stack@;
        let ghost old_visited = visited@;
        let current = stack.pop().unwrap();
        proof {
            assert(current == old_stack[old_stack.len() - 1]);
            assert forall|x: u64| old_stack.contains(x) && x != current implies stack@.contains(
                x,
            ) by {
                let k = choose|k: int| 0 <= k < old_stack.len() && old_stack[k] == x;
                assert(k < old_stack.len() - 1);
                assert(stack@[k] == x);
            }
            assert forall|k: int| 0 <= k < stack@.len() implies reaches(
                g,
                start,
                #[trigger] stack@[k],
            ) by {
                assert(stack@[k] == old_stack[k]);
            }
        }
        if contains_id(&visited, current) {
            proof {
                assert forall|x: u64, y: u64|
                    visited@.contains(x) && #[trigger] edge(g, x, y) implies visited@.contains(y)
                    || stack@.contains(y) by {
                    if !visited@.contains(y) {
                        assert(old_stack.contains(y));
                    }
                }
            }
        } else {
        visited.push(current);
        proof {
            assert(visited@ == old_visited.push(current));
            assert forall|i: int, j: int|
                0 <= i < visited@.len() && 0 <= j < visited@.len() && i != j implies visited@[i]
                != visited@[j] by {
                if i < old_visited.len() && j < old_visited.len() {
                } else if i == old_visited.len() {
                    assert(visited@[j] == old_visited[j]);
                } else {
                    assert(visited@[i] == old_visited[i]);
                }
            }
            assert forall|k: int| 0 <= k < visited@.len() implies reaches(
                g,
                start,
                #[trigger] visited@[k],
            ) by {
                if k < old_visited.len() {
                    assert(visited@[k] == old_visited[k]);
                }
            }
            // Each visited frame is `start` or a target, and occurs once.
            assert forall|x: u64| visited@.to_set().contains(x) implies u.to_set().contains(x) by {
                let k = choose|k: int| 0 <= k < visited@.len() && visited@[k] == x;
                lemma_reaches_within(g, start, x);
                if x == start {
                    assert(u[0] == start);
                } else {
                    let m = choose|m: int| 0 <= m < all_targets(g).len() && all_targets(g)[m] == x;
                    assert(u[1 + m] == x);
                }
            }
            visited@.unique_seq_to_set();
            u.lemma_cardinality_of_set();
            vstd::set_lib::lemma_len_subset(visited@.to_set(), u.to_set());
        }
        if current == target {
            return true;
        }
        let ghost before_push = stack@;
        push_targets(graph, current, &mut stack);
        proof {
            assert forall|x: u64| before_push.contains(x) implies stack@.contains(x) by {
                let k = choose|k: int| 0 <= k < before_push.len() && before_push[k] == x;
                assert(stack@.subrange(0, before_push.len() as int)[k] == x);
            }
            assert forall|k: int| 0 <= k < stack@.len() implies reaches(
                g,
                start,
                #[trigger] stack@[k],
            ) by {
                if k < before_push.len() {
                    assert(stack@.subrange(0, before_push.len() as int)[k] == stack@[k]);
                } else {
                    lemma_reaches_step(g, start, current, stack@[k]);
                }
            }
            assert(visited@.contains(start) || stack@.contains(start)) by {
                if old_stack.contains(start) && start != current {
                    assert(before_push.contains(start));
                }
                if start == current {
                    assert(visited@[visited@.len() - 1] == start);
                }
                if old_visited.contains(start) {
                    let k = choose|k: int| 0 <= k < old_visited.len() && old_visited[k] == start;
                    assert(visited@[k] == start);
                }
            }
            assert forall|x: u64, y: u64|
                visited@.contains(x) && #[trigger] edge(g, x, y) implies visited@.contains(y)
                || stack@.contains(y) by {
                let kx = choose|k: int| 0 <= k < visited@.len() && visited@[k] == x;
                if kx < old_visited.len() {
                    assert(old_visited[kx] == x);
                    if old_visited.contains(y) {
                        let ky = choose|k: int| 0 <= k < old_visited.len() && old_visited[k] == y;
                        assert(visited@[ky] == y);
                    } else if y == current {
                        assert(visited@[visited@.len() - 1] == y);
                    } else {
                        assert(before_push.contains(y));
                    }
                }
            }
            assert(!visited@.contains(target)) by {
                if visited@.contains(target) {
                    let k = choose|k: int| 0 <= k < visited@.len() && visited@[k] == target;
                    if k < old_visited.len() {
                        assert(old_visited[k] == target);
                    }
                }
            }
        }
        }
    }
    proof {
        if reaches(g, start, target) {
            let p = choose|p: Seq<u64>| #[trigger] is_path(g, p) && p[0] == start && p.last() == target;
            lemma_closed_holds_path(g, visited@, p);
        }
    }
    false
}

/// Why an anchor cannot be set.
#[derive(Debug, Clone, Copy, PartialEq, Eq, Structural)]
pub enum AnchorRejection {
    /// The frame to anchor is not in the registry.
    FrameNotFound,
    /// The anchor is relative to the frame itself.
    SelfAnchor,
    /// The frame the anchor is relative to already depends on the frame.
    Cycle,
}

impl AnchorRejection {
    /// The message of the rejection.
    pub fn message(&self) -> (r: &'static str)
        ensures
            *self == AnchorRejection::FrameNotFound ==> r@ == "frame not found"@,
            *self == AnchorRejection::SelfAnchor ==> r@ == "frame cannot anchor to itself"@,
            *self == AnchorRejection::Cycle ==> r@ == "anchor cycle detected"@,
    {
        match self {
            AnchorRejection::FrameNotFound => "frame not found",
            AnchorRejection::SelfAnchor => "frame cannot anchor to itself",
            AnchorRejection::Cycle => "anchor cycle detected",
        }
    }
}

/// What setting an anchor of frame `id`, relative to `relative_to` (the
/// parent when `None`), gives on the graph `g`.
pub open spec fn anchor_verdict(g: Seq<(u64, Vec<u64>)>, id: u64, relative_to: Option<u64>) -> Result<
    (),
    AnchorRejection,
> {
    if !has_node(g, id) {
        Err(AnchorRejection::FrameNotFound)
    } else {
        match relative_to {
            Some(t) => if t == id {
                Err(AnchorRejection::SelfAnchor)
            } else if reaches(g, t, id) {
                Err(AnchorRejection::Cycle)
            } else {
                Ok(())
            },
            None => Ok(()),
        }
    }
}

/// Decides whether frame `frame_id` may get an anchor relative to
/// `relative_to`: the frame must exist, must not be its own target, and the
/// target must not already depend on it.
pub fn check_set_point(graph: &Vec<(u64, Vec<u64>)>, frame_id: u64, relative_to: Option<u64>) -> (r:
    Result<(), AnchorRejection>)
    ensures
        r == anchor_verdict(graph@, frame_id, relative_to),
{
    let ghost g = graph@;
    let mut i: usize = 0;
    let mut found = false;
    while i < graph.len()
        invariant
            g == graph@,
            i <= graph.len(),
            found <==> exists|k: int| 0 <= k < i && #[trigger] g[k].0 == frame_id,
        decreases graph.len() - i,
    {
        if graph[i].0 == frame_id {
            found = true;
        }
        i = i + 1;
    }
    if !found {
        return Err(AnchorRejection::FrameNotFound);
    }
    match relative_to {
        Some(t) => {
            if t == frame_id {
                Err(AnchorRejection::SelfAnchor)
            } else if depends_on(graph, t, frame_id) {
                Err(AnchorRejection::Cycle)
            } else {
                Ok(())
            }
        },
        None => Ok(()),
    }
}

/// A chain in a graph whose anchors are those of `g` and perhaps one more,
/// from `id` to `t`, is a chain of `g`, or one of `g` to `id` followed by
/// one of `g` from `t`.
proof fn lemma_reaches_with_edge(
    g: Seq<(u64, Vec<u64>)>,
    h: Seq<(u64, Vec<u64>)>,
    id: u64,
    t: u64,
    p: Seq<u64>,
)
    requires
        is_path(h, p),
        forall|a: u64, b: u64| #[trigger] edge(h, a, b) ==> edge(g, a, b) || (a == id && b == t),
    ensures
        reaches(g, p[0], p.last()) || (reaches(g, p[0], id) && reaches(g, t, p.last())),
    decreases p.len(),
{
    if p.len() == 1 {
        lemma_reaches_self(g, p[0]);
    } else {
        let p1 = p.drop_last();
        assert forall|k: int| 0 <= k < p1.len() - 1 implies #[trigger] edge(h, p1[k], p1[k + 1]) by {
            assert(p1[k] == p[k] && p1[k + 1] == p[k + 1]);
        }
        lemma_reaches_with_edge(g, h, id, t, p1);
        let k = p.len() - 2;
        assert(edge(h, p[k], p[k + 1]));
        let y1 = p1.last();
        let y = p.last();
        assert(y1 == p[k] && y == p[k + 1]);
        if edge(g, y1, y) {
            if reaches(g, p[0], y1) {
                lemma_reaches_step(g, p[0], y1, y);
            } else {
                lemma_reaches_step(g, t, y1, y);
            }
        } else {
            lemma_reaches_self(g, t);
        }
    }
}

/// Chains of a graph whose anchors are among those of `g` are chains of `g`.
proof fn lemma_reaches_fewer_edges(g: Seq<(u64, Vec<u64>)>, h: Seq<(u64, Vec<u64>)>, p: Seq<u64>)
    requires
        is_path(h, p),
        forall|a: u64, b: u64| #[trigger] edge(h, a, b) ==> edge(g, a, b),
    ensures
        is_path(g, p),
{
    assert forall|k: int| 0 <= k < p.len() - 1 implies #[trigger] edge(g, p[k], p[k + 1]) by {
        assert(edge(h, p[k], p[k + 1]));
    }
}

/// An accepted anchor keeps the anchor graph free of cycles: when `h` has
/// the anchors of an acyclic `g`, less any, plus the one that
/// `anchor_verdict` accepted, `h` is acyclic too.
pub proof fn accepted_anchor_keeps_acyclic(
    g: Seq<(u64, Vec<u64>)>,
    h: Seq<(u64, Vec<u64>)>,
    id: u64,
    relative_to: Option<u64>,
)
    requires
        acyclic(g),
        anchor_verdict(g, id, relative_to) is Ok,
        forall|a: u64, b: u64| #[trigger]
            edge(h, a, b) ==> edge(g, a, b) || (a == id && relative_to == Some(b)),
    ensures
        acyclic(h),
{
    assert forall|a: u64, b: u64| #[trigger] edge(h, a, b) implies !reaches(h, b, a) by {
        if reaches(h, b, a) {
            let p = choose|p: Seq<u64>| #[trigger] is_path(h, p) && p[0] == b && p.last() == a;
            match relative_to {
                Some(t) => {
                    lemma_reaches_with_edge(g, h, id, t, p);
                    if edge(g, a, b) {
                        if !reaches(g, b, a) {
                            lemma_reaches_step(g, t, a, b);
                            lemma_reaches_trans(g, t, b, id);
                        }
                    }
                },
                None => {
                    lemma_reaches_fewer_edges(g, h, p);
                    assert(edge(g, a, b));
                },
            }
        }
    }
}

/// Whether no frame of `p` is in `d`.
pub open spec fn avoids(d: Seq<u64>, p: Seq<u64>) -> bool {
    forall|k: int| 0 <= k < p.len() ==> !d.contains(#[trigger] p[k])
}

/// Whether a chain from `a` to `b` passes through no frame of `d`, its ends
/// included.
pub open spec fn reaches_avoiding(g: Seq<(u64, Vec<u64>)>, d: Seq<u64>, a: u64, b: u64) -> bool {
    exists|p: Seq<u64>| #[trigger] is_path(g, p) && p[0] == a && p.last() == b && avoids(d, p)
}

/// A chain from `a` to `b` whose frames before `b` are outside `d`.
spec fn reaches_up_to(g: Seq<(u64, Vec<u64>)>, d: Seq<u64>, a: u64, b: u64) -> bool {
    exists|p: Seq<u64>|
        #[trigger] is_path(g, p) && p[0] == a && p.last() == b && avoids(d, p.drop_last())
}

proof fn lemma_up_to_step(g: Seq<(u64, Vec<u64>)>, d: Seq<u64>, a: u64, b: u64, c: u64)
    requires
        reaches_avoiding(g, d, a, b),
        edge(g, b, c),
    ensures
        reaches_up_to(g, d, a, c),
{
    let p = choose|p: Seq<u64>| #[trigger] is_path(g, p) && p[0] == a && p.last() == b && avoids(d, p);
    let q = p.push(c);
    assert forall|k: int| 0 <= k < q.len() - 1 implies #[trigger] edge(g, q[k], q[k + 1]) by {
        if k < p.len() - 1 {
            assert(q[k] == p[k] && q[k + 1] == p[k + 1]);
        } else {
            assert(q[k] == b && q[k + 1] == c);
        }
    }
    assert(q.drop_last() =~= p);
    assert(is_path(g, q));
}

proof fn lemma_up_to_free(g: Seq<(u64, Vec<u64>)>, d: Seq<u64>, a: u64, b: u64)
    requires
        reaches_up_to(g, d, a, b),
        !d.contains(b),
    ensures
        reaches_avoiding(g, d, a, b),
        reaches(g, a, b),
{
    let p = choose|p: Seq<u64>|
        #[trigger] is_path(g, p) && p[0] == a && p.last() == b && avoids(d, p.drop_last());
    assert forall|k: int| 0 <= k < p.len() implies !d.contains(#[trigger] p[k]) by {
        if k < p.len() - 1 {
            assert(p.drop_last()[k] == p[k]);
        }
    }
}

/// A set of frames that holds `p[0]` and, with each frame, every frame it
/// leads to that is outside `d`, holds the end of a chain `p` that avoids
/// `d`.
proof fn lemma_closed_holds_free_path(
    g: Seq<(u64, Vec<u64>)>,
    d: Seq<u64>,
    s: Seq<u64>,
    p: Seq<u64>,
)
    requires
        is_path(g, p),
        avoids(d, p),
        s.contains(p[0]),
        forall|x: u64, y: u64|
            s.contains(x) && #[trigger] edge(g, x, y) ==> s.contains(y) || d.contains(y),
    ensures
        s.contains(p.last()),
    decreases p.len(),
{
    if p.len() > 1 {
        let p1 = p.drop_last();
        assert forall|k: int| 0 <= k < p1.len() - 1 implies #[trigger] edge(g, p1[k], p1[k + 1]) by {
            assert(p1[k] == p[k] && p1[k + 1] == p[k + 1]);
        }
        assert forall|k: int| 0 <= k < p1.len() implies !d.contains(#[trigger] p1[k]) by {
            assert(p1[k] == p[k]);
        }
        lemma_closed_holds_free_path(g, d, s, p1);
        let k = p.len() - 2;
        assert(edge(g, p[k], p[k + 1]));
        assert(!d.contains(p[k + 1]));
    }
}

/// The frames that chains from `start` reach without passing through a
/// frame of `blocked`, each once.
fn reach_avoiding(graph: &Vec<(u64, Vec<u64>)>, blocked: &Vec<u64>, start: u64) -> (r: Vec<u64>)
    ensures
        r@.no_duplicates(),
        forall|x: u64| r@.contains(x) <==> reaches_avoiding(graph@, blocked@, start, x),
{
    let id = start;
    let dirty = blocked;
    let ghost g = graph@;
    let ghost d = dirty@;
    let ghost u = seq![id] + all_targets(g);
    let mut stack: Vec<u64> = Vec::new();
    stack.push(id);
    let mut marked: Vec<u64> = Vec::new();
    proof {
        assert(stack@[0] == id);
        let p = seq![id];
        assert(is_path(g, p));
        assert(p.drop_last() =~= Seq::<u64>::empty());
        assert(reaches_up_to(g, d, id, id));
    }
    while stack.len() > 0
        invariant
            g == graph@,
            d == dirty@,
            u == seq![id] + all_targets(g),
            marked@.no_duplicates(),
            forall|k: int|
                0 <= k < marked@.len() ==> reaches_avoiding(g, d, id, #[trigger] marked@[k]),
            forall|k: int| 0 <= k < stack@.len() ==> reaches_up_to(g, d, id, #[trigger] stack@[k]),
            marked@.contains(id) || stack@.contains(id) || d.contains(id),
            forall|x: u64, y: u64|
                marked@.contains(x) && #[trigger] edge(g, x, y) ==> marked@.contains(y)
                    || stack@.contains(y) || d.contains(y),
        decreases u.len() - marked@.len(), stack@.len(),
    {
        let ghost old_stack = stack@;
        let ghost old_marked = marked@;
        let current = stack.pop().unwrap();
        proof {
            assert(current == old_stack[old_stack.len() - 1]);
            assert forall|x: u64| old_stack.contains(x) && x != current implies stack@.contains(
                x,
            ) by {
                let k = choose|k: int| 0 <= k < old_stack.len() && old_stack[k] == x;
                assert(k < old_stack.len() - 1);
                assert(stack@[k] == x);
            }
            assert forall|k: int| 0 <= k < stack@.len() implies reaches_up_to(
                g,
                d,
                id,
                #[trigger] stack@[k],
            ) by {
                assert(stack@[k] == old_stack[k]);
            }
        }
        if contains_id(dirty, current) || contains_id(&marked, current) {
            proof {
                assert forall|x: u64, y: u64|
                    marked@.contains(x) && #[trigger] edge(g, x, y) implies marked@.contains(y)
                    || stack@.contains(y) || d.contains(y) by {
                    if !marked@.contains(y) && !d.contains(y) {
                        assert(old_stack.contains(y));
                    }
                }
            }
        } else {
            marked.push(current);
            proof {
                lemma_up_to_free(g, d, id, current);
                assert(marked@ == old_marked.push(current));
                assert forall|i: int, j: int|
                    0 <= i < marked@.len() && 0 <= j < marked@.len() && i != j implies marked@[i]
                    != marked@[j] by {
                    if i < old_marked.len() && j < old_marked.len() {
                    } else if i == old_marked.len() {
                        assert(marked@[j] == old_marked[j]);
                    } else {
                        assert(marked@[i] == old_marked[i]);
                    }
                }
                assert forall|k: int| 0 <= k < marked@.len() implies reaches_avoiding(
                    g,
                    d,
                    id,
                    #[trigger] marked@[k],
                ) by {
                    if k < old_marked.len() {
                        assert(marked@[k] == old_marked[k]);
                    }
                }
                assert forall|x: u64| marked@.to_set().contains(x) implies u.to_set().contains(
                    x,
                ) by {
                    let k = choose|k: int| 0 <= k < marked@.len() && marked@[k] == x;
                    let p = choose|p: Seq<u64>|
                        #[trigger] is_path(g, p) && p[0] == id && p.last() == x && avoids(d, p);
                    lemma_reaches_within(g, id, x);
                    if x == id {
                        assert(u[0] == id);
                    } else {
                        let m = choose|m: int|
                            0 <= m < all_targets(g).len() && all_targets(g)[m] == x;
                        assert(u[1 + m] == x);
                    }
                }
                marked@.unique_seq_to_set();
                u.lemma_cardinality_of_set();
                vstd::set_lib::lemma_len_subset(marked@.to_set(), u.to_set());
            }
            let ghost before_push = stack@;
            push_targets(graph, current, &mut stack);
            proof {
                assert forall|x: u64| before_push.contains(x) implies stack@.contains(x) by {
                    let k = choose|k: int| 0 <= k < before_push.len() && before_push[k] == x;
                    assert(stack@.subrange(0, before_push.len() as int)[k] == x);
                }
                assert forall|k: int| 0 <= k < stack@.len() implies reaches_up_to(
                    g,
                    d,
                    id,
                    #[trigger] stack@[k],
                ) by {
                    if k < before_push.len() {
                        assert(stack@.subrange(0, before_push.len() as int)[k] == stack@[k]);
                    } else {
                        lemma_up_to_step(g, d, id, current, stack@[k]);
                    }
                }
                assert(marked@.contains(id) || stack@.contains(id) || d.contains(id)) by {
                    if old_stack.contains(id) && id != current {
                        assert(before_push.contains(id));
                    }
                    if id == current {
                        assert(marked@[marked@.len() - 1] == id);
                    }
                    if old_marked.contains(id) {
                        let k = choose|k: int| 0 <= k < old_marked.len() && old_marked[k] == id;
                        assert(marked@[k] == id);
                    }
                }
                assert forall|x: u64, y: u64|
                    marked@.contains(x) && #[trigger] edge(g, x, y) implies marked@.contains(y)
                    || stack@.contains(y) || d.contains(y) by {
                    let kx = choose|k: int| 0 <= k < marked@.len() && marked@[k] == x;
                    if kx < old_marked.len() {
                        assert(old_marked[kx] == x);
                        if old_marked.contains(y) {
                            let ky = choose|k: int| 0 <= k < old_marked.len() && old_marked[k] == y;
                            assert(marked@[ky] == y);
                        } else if y == current {
                            assert(marked@[marked@.len() - 1] == y);
                        } else if !d.contains(y) {
                            assert(before_push.contains(y));
                        }
                    }
                }
            }
        }
    }
    proof {
        assert forall|x: u64| reaches_avoiding(g, d, id, x) implies marked@.contains(x) by {
            let p = choose|p: Seq<u64>|
                #[trigger] is_path(g, p) && p[0] == id && p.last() == x && avoids(d, p);
            assert(!d.contains(p[0]));
            lemma_closed_holds_free_path(g, d, marked@, p);
        }
        assert forall|x: u64| marked@.contains(x) implies reaches_avoiding(g, d, id, x) by {
            let k = choose|k: int| 0 <= k < marked@.len() && marked@[k] == x;
        }
    }
    marked
}

/// The frames to mark for layout when frame `id` changes, given the frames
/// already marked in `dirty` and, in `graph`, the frames that depend on each
/// frame (its anchored dependents and its children): `id` and every frame
/// that a chain of dependents reaches from it, each chain stopping at a
/// frame already marked. Each comes once.
pub fn mark_rect_dirty(graph: &Vec<(u64, Vec<u64>)>, dirty: &Vec<u64>, id: u64) -> (r: Vec<u64>)
    ensures
        r@.no_duplicates(),
        forall|x: u64| r@.contains(x) <==> reaches_avoiding(graph@, dirty@, id, x),
{
    reach_avoiding(graph, dirty, id)
}

proof fn lemma_avoid_nothing(g: Seq<(u64, Vec<u64>)>, a: u64, b: u64)
    ensures
        reaches_avoiding(g, Seq::empty(), a, b) <==> reaches(g, a, b),
{
    if reaches(g, a, b) {
        let p = choose|p: Seq<u64>| #[trigger] is_path(g, p) && p[0] == a && p.last() == b;
        assert(avoids(Seq::empty(), p));
    }
}

/// The frames of a list of (frame, flag) entries.
pub open spec fn ids_of(r: Seq<(u64, bool)>) -> Seq<u64> {
    r.map_values(|e: (u64, bool)| e.0)
}

/// The new visibility of the frames under frame `id` when it changes, given
/// in `graph` each frame's children, the frames not shown (`hidden`) and
/// whether the parent of `id` is visible: each frame that `id` reaches
/// through children comes once, visible exactly when the parent of `id` is
/// visible and a chain of children from `id` to it passes through shown
/// frames only (in a tree, when it and all its ancestors up to `id` are
/// shown).
pub fn propagate_visibility(
    graph: &Vec<(u64, Vec<u64>)>,
    hidden: &Vec<u64>,
    id: u64,
    parent_visible: bool,
) -> (r: Vec<(u64, bool)>)
    ensures
        ids_of(r@).no_duplicates(),
        forall|x: u64|
            ids_of(r@).contains(x) <==> reaches(graph@, id, x),
        forall|k: int|
            0 <= k < r@.len() ==> (#[trigger] r@[k]).1 == (parent_visible && reaches_avoiding(
                graph@,
                hidden@,
                id,
                r@[k].0,
            )),
{
    let nothing: Vec<u64> = Vec::new();
    let subtree = reach_avoiding(graph, &nothing, id);
    let shown = if parent_visible {
        reach_avoiding(graph, hidden, id)
    } else {
        Vec::new()
    };
    let mut r: Vec<(u64, bool)> = Vec::new();
    let mut i: usize = 0;
    while i < subtree.len()
        invariant
            i <= subtree.len(),
            ids_of(r@) == subtree@.subrange(0, i as int),
            forall|x: u64| shown@.contains(x) <==> parent_visible && reaches_avoiding(
                graph@,
                hidden@,
                id,
                x,
            ),
            forall|k: int|
                0 <= k < r@.len() ==> (#[trigger] r@[k]).1 == (parent_visible && reaches_avoiding(
                    graph@,
                    hidden@,
                    id,
                    r@[k].0,
                )),
        decreases subtree.len() - i,
    {
        let x = subtree[i];
        let v = contains_id(&shown, x);
        let ghost before = r@;
        r.push((x, v));
        proof {
            assert(r@ == before.push((x, v)));
            assert(ids_of(before).len() == before.len());
            assert(before.len() == i);
            assert forall|k: int| 0 <= k < r@.len() implies #[trigger] ids_of(r@)[k]
                == subtree@.subrange(0, i + 1)[k] by {
                if k < before.len() {
                    assert(r@[k] == before[k]);
                    assert(ids_of(before)[k] == subtree@.subrange(
                        0,
                        i as int,
                    )[k]);
                } else {
                    assert(r@[k] == (x, v));
                }
            }
            assert(ids_of(r@) =~= subtree@.subrange(0, i + 1));
            assert forall|k: int| 0 <= k < r@.len() implies (#[trigger] r@[k]).1 == (parent_visible
                && reaches_avoiding(graph@, hidden@, id, r@[k].0)) by {
                if k < before.len() {
                    assert(r@[k] == before[k]);
                }
            }
        }
        i = i + 1;
    }
    proof {
        assert(subtree@.subrange(0, subtree@.len() as int) =~= subtree@);
        assert(nothing@ =~= Seq::<u64>::empty());
        assert forall|x: u64|
            ids_of(r@).contains(x) <==> reaches(graph@, id, x) by {
            lemma_avoid_nothing(graph@, id, x);
        }
    }
    r
}

} // verus!
