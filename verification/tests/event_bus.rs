use ui_toolkit::event::EventBus;

/// A single argument passed with a UI event.
#[derive(Debug, Clone)]
#[allow(dead_code)]
enum EventArg {
    String(String),
    Number(f64),
    Boolean(bool),
    Nil,
}

/// A UI event with a name and optional arguments.
#[derive(Debug, Clone)]
struct UiEvent {
    name: String,
    args: Vec<EventArg>,
}

#[test]
fn two_frames_same_event() {
    let mut bus: EventBus<UiEvent> = EventBus::new();
    bus.register(10, "PLAYER_LOGIN");
    bus.register(5, "PLAYER_LOGIN");
    assert_eq!(bus.listeners("PLAYER_LOGIN"), vec![5, 10]);
}

#[test]
fn one_frame_two_events() {
    let mut bus: EventBus<UiEvent> = EventBus::new();
    bus.register(1, "PLAYER_LOGIN");
    bus.register(1, "UNIT_HEALTH");
    assert_eq!(bus.listeners("PLAYER_LOGIN"), vec![1]);
    assert_eq!(bus.listeners("UNIT_HEALTH"), vec![1]);
}

#[test]
fn unregister_one_frame() {
    let mut bus: EventBus<UiEvent> = EventBus::new();
    bus.register(1, "PLAYER_LOGIN");
    bus.register(2, "PLAYER_LOGIN");
    bus.unregister(1, "PLAYER_LOGIN");
    assert_eq!(bus.listeners("PLAYER_LOGIN"), vec![2]);
}

#[test]
fn unregister_all_removes_from_all_events() {
    let mut bus: EventBus<UiEvent> = EventBus::new();
    bus.register(1, "PLAYER_LOGIN");
    bus.register(1, "UNIT_HEALTH");
    bus.unregister_all(1);
    assert!(bus.listeners("PLAYER_LOGIN").is_empty());
    assert!(bus.listeners("UNIT_HEALTH").is_empty());
}

#[test]
fn push_drain_ordering() {
    let mut bus = EventBus::new();
    bus.push(UiEvent {
        name: "A".to_string(),
        args: vec![],
    });
    bus.push(UiEvent {
        name: "B".to_string(),
        args: vec![EventArg::Number(42.0)],
    });
    let events = bus.drain();
    assert_eq!(events.len(), 2);
    assert_eq!(events[0].name, "A");
    assert_eq!(events[1].name, "B");
    assert_eq!(events[1].args.len(), 1);
    assert!(bus.drain().is_empty());
}

// ---------------------------------------------------------------------------

#[test]
fn listeners_sorted_without_repeats() {
    let mut bus: EventBus<()> = EventBus::default();
    for id in [7, 3, 9, 3, 1, 7] {
        bus.register(id, "EV");
    }
    assert_eq!(bus.listeners("EV"), vec![1, 3, 7, 9]);
    assert!(bus.listeners("OTHER").is_empty());
    assert!(bus.listeners("ev").is_empty());
}

#[test]
fn unregister_undoes_register_example() {
    let mut bus: EventBus<()> = EventBus::new();
    bus.register(2, "EV");
    bus.register(4, "EV");
    bus.unregister(3, "EV");
    bus.unregister(3, "MISSING");
    assert_eq!(bus.listeners("EV"), vec![2, 4]);
    bus.register(3, "EV");
    assert_eq!(bus.listeners("EV"), vec![2, 3, 4]);
    bus.unregister(3, "EV");
    assert_eq!(bus.listeners("EV"), vec![2, 4]);
}

#[test]
fn unregister_all_keeps_other_frames() {
    let mut bus: EventBus<u32> = EventBus::new();
    bus.register(1, "A");
    bus.register(2, "A");
    bus.register(1, "B");
    bus.push(5);
    bus.unregister_all(1);
    assert_eq!(bus.listeners("A"), vec![2]);
    assert!(bus.listeners("B").is_empty());
    assert_eq!(bus.drain(), vec![5]);
}
