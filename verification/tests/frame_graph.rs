use ui_toolkit::frame_graph::{
    check_set_point, depends_on, mark_rect_dirty, propagate_visibility, AnchorRejection,
};

fn chain() -> Vec<(u64, Vec<u64>)> {
    // 1 is anchored to 2, 2 to 3; 4 has no anchors.
    vec![(1, vec![2]), (2, vec![3]), (3, vec![]), (4, vec![])]
}

fn sorted(mut v: Vec<u64>) -> Vec<u64> {
    v.sort();
    v
}

#[test]
fn depends_on_follows_chains() {
    let g = chain();
    assert!(depends_on(&g, 1, 3));
    assert!(depends_on(&g, 1, 2));
    assert!(!depends_on(&g, 3, 1));
    assert!(!depends_on(&g, 4, 1));
    assert!(depends_on(&g, 4, 4));
}

#[test]
fn depends_on_ends_on_cycles() {
    let g = vec![(1, vec![2]), (2, vec![1, 5]), (3, vec![])];
    assert!(!depends_on(&g, 1, 3));
    assert!(depends_on(&g, 1, 5));
    assert!(depends_on(&g, 2, 2));
}

#[test]
fn set_point_rejections() {
    let g = chain();
    assert_eq!(check_set_point(&g, 9, Some(1)), Err(AnchorRejection::FrameNotFound));
    assert_eq!(check_set_point(&g, 2, Some(2)), Err(AnchorRejection::SelfAnchor));
    assert_eq!(check_set_point(&g, 3, Some(1)), Err(AnchorRejection::Cycle));
    assert_eq!(check_set_point(&g, 3, Some(4)), Ok(()));
    assert_eq!(check_set_point(&g, 1, Some(3)), Ok(()));
    assert_eq!(check_set_point(&g, 3, None), Ok(()));
    assert_eq!(check_set_point(&g, 9, None), Err(AnchorRejection::FrameNotFound));
}

#[test]
fn rejection_messages() {
    assert_eq!(AnchorRejection::FrameNotFound.message(), "frame not found");
    assert_eq!(AnchorRejection::SelfAnchor.message(), "frame cannot anchor to itself");
    assert_eq!(AnchorRejection::Cycle.message(), "anchor cycle detected");
}

#[test]
fn accepted_anchors_never_close_a_cycle() {
    // Setting anchors one by one, only the accepted ones enter the graph;
    // afterwards no frame depends on itself through another frame.
    let mut g: Vec<(u64, Vec<u64>)> = (1..=4).map(|id| (id, vec![])).collect();
    let requests = [(1, 2), (2, 3), (3, 1), (3, 4), (4, 1), (4, 2), (2, 4)];
    for (id, target) in requests {
        if check_set_point(&g, id, Some(target)).is_ok() {
            g[(id - 1) as usize].1.push(target);
        }
    }
    assert_eq!(g[2].1, vec![4]);
    assert!(g[3].1.is_empty());
    for (a, targets) in g.clone() {
        for b in targets {
            assert!(!depends_on(&g, b, a));
        }
    }
}

fn dependents() -> Vec<(u64, Vec<u64>)> {
    // The frames that depend on each frame: 1 -> 2, 3; 2 -> 4; 4 -> 1.
    vec![(1, vec![2, 3]), (2, vec![4]), (3, vec![]), (4, vec![1])]
}

#[test]
fn mark_rect_dirty_reaches_all_dependents() {
    let g = dependents();
    assert_eq!(sorted(mark_rect_dirty(&g, &vec![], 1)), vec![1, 2, 3, 4]);
    assert_eq!(sorted(mark_rect_dirty(&g, &vec![], 3)), vec![3]);
}

#[test]
fn mark_rect_dirty_stops_at_marked_frames() {
    let g = dependents();
    assert_eq!(sorted(mark_rect_dirty(&g, &vec![2], 1)), vec![1, 3]);
    assert_eq!(mark_rect_dirty(&g, &vec![1], 1), Vec::<u64>::new());
    assert_eq!(sorted(mark_rect_dirty(&g, &vec![3], 4)), vec![1, 2, 4]);
}

#[test]
fn mark_rect_dirty_of_unknown_frame() {
    let g = dependents();
    assert_eq!(mark_rect_dirty(&g, &vec![], 7), vec![7]);
}

fn hierarchy() -> Vec<(u64, Vec<u64>)> {
    // 1 has children 2 and 3; 2 has child 4; 5 is another root.
    vec![(1, vec![2, 3]), (2, vec![4]), (3, vec![]), (4, vec![]), (5, vec![])]
}

fn visibility_of(v: &[(u64, bool)], id: u64) -> Option<bool> {
    v.iter().find(|(frame, _)| *frame == id).map(|(_, visible)| *visible)
}

#[test]
fn hiding_a_frame_hides_its_subtree() {
    let g = hierarchy();
    // Frame 2 is hidden: 2 and 4 are not visible, 3 still is.
    let v = propagate_visibility(&g, &vec![2], 1, true);
    assert_eq!(v.len(), 4);
    assert_eq!(visibility_of(&v, 1), Some(true));
    assert_eq!(visibility_of(&v, 2), Some(false));
    assert_eq!(visibility_of(&v, 3), Some(true));
    assert_eq!(visibility_of(&v, 4), Some(false));
    assert_eq!(visibility_of(&v, 5), None);
}

#[test]
fn hidden_parent_hides_shown_children() {
    let g = hierarchy();
    // The children of a hidden frame stay shown but are not visible, and
    // become visible again when it is shown.
    let v = propagate_visibility(&g, &vec![], 2, false);
    assert_eq!(visibility_of(&v, 2), Some(false));
    assert_eq!(visibility_of(&v, 4), Some(false));
    let v = propagate_visibility(&g, &vec![], 2, true);
    assert_eq!(visibility_of(&v, 2), Some(true));
    assert_eq!(visibility_of(&v, 4), Some(true));
}
