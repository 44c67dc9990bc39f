use ui_toolkit::registry::{AnchorDependents, NameIndex};

#[test]
fn dependents_recorded_per_target() {
    let mut d = AnchorDependents::new();
    d.register(5, 1);
    d.register(3, 1);
    d.register(3, 1);
    d.register(7, 2);
    assert_eq!(d.dependents_of(1), vec![3, 5]);
    assert_eq!(d.dependents_of(2), vec![7]);
    assert!(d.dependents_of(9).is_empty());
}

#[test]
fn unregister_drops_empty_targets() {
    let mut d = AnchorDependents::default();
    d.register(4, 1);
    d.register(6, 1);
    d.unregister(4, 1);
    assert_eq!(d.dependents_of(1), vec![6]);
    d.unregister(6, 1);
    assert!(d.dependents_of(1).is_empty());
    d.unregister(6, 1);
    d.unregister(8, 3);
    assert!(d.dependents_of(3).is_empty());
}

#[test]
fn removed_target_forgets_dependents() {
    let mut d = AnchorDependents::new();
    d.register(2, 1);
    d.register(3, 2);
    d.remove_target(1);
    assert!(d.dependents_of(1).is_empty());
    assert_eq!(d.dependents_of(2), vec![3]);
    d.remove_target(42);
    assert_eq!(d.dependents_of(2), vec![3]);
}

#[test]
fn register_then_unregister_restores() {
    let mut d = AnchorDependents::new();
    d.register(2, 1);
    d.register(9, 1);
    d.unregister(9, 1);
    assert_eq!(d.dependents_of(1), vec![2]);
}

#[test]
fn names_map_to_latest_frame() {
    let mut n = NameIndex::new();
    assert_eq!(n.get("Main"), None);
    n.insert("Main".to_string(), 3);
    n.insert("Other".to_string(), 4);
    assert_eq!(n.get("Main"), Some(3));
    n.insert("Main".to_string(), 9);
    assert_eq!(n.get("Main"), Some(9));
    assert_eq!(n.get("Other"), Some(4));
    n.remove("Main");
    assert_eq!(n.get("Main"), None);
    assert_eq!(n.get("Other"), Some(4));
    n.remove("Missing");
    assert_eq!(NameIndex::default().get("Other"), None);
}
