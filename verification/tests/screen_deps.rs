use ui_toolkit::screen::Generations;

const TEXT: u64 = 1;
const NUMBER: u64 = 2;

#[test]
fn generations_count_inserts() {
    let mut g = Generations::new();
    assert_eq!(g.generation(TEXT), 0);
    g.bump(TEXT);
    g.bump(TEXT);
    g.bump(NUMBER);
    assert_eq!(g.generation(TEXT), 2);
    assert_eq!(g.generation(NUMBER), 1);
    assert_eq!(g.generation(7), 0);
}

#[test]
fn no_dependencies_never_change() {
    let mut g = Generations::new();
    let deps = g.snapshot(&vec![]);
    assert!(!g.deps_changed(&deps));
    g.bump(TEXT);
    assert!(!g.deps_changed(&deps));
}

#[test]
fn rebuild_only_when_a_read_value_advances() {
    let mut g = Generations::new();
    g.bump(TEXT);
    let mut deps = g.snapshot(&vec![TEXT]);
    assert_eq!(deps, vec![(TEXT, 1)]);
    assert!(!g.deps_changed(&deps));
    g.bump(TEXT);
    assert!(g.deps_changed(&deps));
    deps = g.snapshot(&vec![TEXT]);
    assert!(!g.deps_changed(&deps));
    g.bump(NUMBER);
    assert!(!g.deps_changed(&deps));
}

#[test]
fn only_the_affected_reader_rebuilds() {
    let mut g = Generations::new();
    g.bump(TEXT);
    g.bump(NUMBER);
    let mut deps_a = g.snapshot(&vec![TEXT]);
    let mut deps_b = g.snapshot(&vec![NUMBER]);
    g.bump(TEXT);
    assert!(g.deps_changed(&deps_a));
    assert!(!g.deps_changed(&deps_b));
    deps_a = g.snapshot(&vec![TEXT]);
    g.bump(NUMBER);
    assert!(!g.deps_changed(&deps_a));
    assert!(g.deps_changed(&deps_b));
    deps_b = g.snapshot(&vec![NUMBER]);
    assert!(!g.deps_changed(&deps_a));
    assert!(!g.deps_changed(&deps_b));
}

#[test]
fn a_value_read_before_it_is_set() {
    let mut g = Generations::new();
    let deps = g.snapshot(&vec![TEXT]);
    assert_eq!(deps, vec![(TEXT, 0)]);
    g.bump(TEXT);
    assert!(g.deps_changed(&deps));
}
