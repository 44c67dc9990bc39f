use ui_toolkit::strata::{DrawLayer, FrameStrata};

#[test]
fn strata_ordering() {
    assert!(FrameStrata::World < FrameStrata::Background);
    assert!(FrameStrata::Background < FrameStrata::Medium);
    assert!(FrameStrata::Medium < FrameStrata::Tooltip);
    assert!(FrameStrata::Low < FrameStrata::High);
    assert!(FrameStrata::Dialog < FrameStrata::Fullscreen);
    assert!(FrameStrata::Fullscreen < FrameStrata::FullscreenDialog);
}

#[test]
fn draw_layer_ordering() {
    assert!(DrawLayer::Background < DrawLayer::Artwork);
    assert!(DrawLayer::Artwork < DrawLayer::Highlight);
    assert!(DrawLayer::Border < DrawLayer::Overlay);
}

#[test]
fn strata_from_str_valid() {
    assert_eq!(FrameStrata::from_str("WORLD"), Some(FrameStrata::World));
    assert_eq!(
        FrameStrata::from_str("BACKGROUND"),
        Some(FrameStrata::Background)
    );
    assert_eq!(FrameStrata::from_str("LOW"), Some(FrameStrata::Low));
    assert_eq!(FrameStrata::from_str("MEDIUM"), Some(FrameStrata::Medium));
    assert_eq!(FrameStrata::from_str("HIGH"), Some(FrameStrata::High));
    assert_eq!(FrameStrata::from_str("DIALOG"), Some(FrameStrata::Dialog));
    assert_eq!(
        FrameStrata::from_str("FULLSCREEN"),
        Some(FrameStrata::Fullscreen)
    );
    assert_eq!(
        FrameStrata::from_str("FULLSCREEN_DIALOG"),
        Some(FrameStrata::FullscreenDialog)
    );
    assert_eq!(FrameStrata::from_str("TOOLTIP"), Some(FrameStrata::Tooltip));
}

#[test]
fn strata_from_str_invalid() {
    assert_eq!(FrameStrata::from_str("medium"), None);
    assert_eq!(FrameStrata::from_str(""), None);
    assert_eq!(FrameStrata::from_str("INVALID"), None);
}

#[test]
fn draw_layer_from_str_valid() {
    assert_eq!(
        DrawLayer::from_str("BACKGROUND"),
        Some(DrawLayer::Background)
    );
    assert_eq!(DrawLayer::from_str("BORDER"), Some(DrawLayer::Border));
    assert_eq!(DrawLayer::from_str("ARTWORK"), Some(DrawLayer::Artwork));
    assert_eq!(DrawLayer::from_str("OVERLAY"), Some(DrawLayer::Overlay));
    assert_eq!(DrawLayer::from_str("HIGHLIGHT"), Some(DrawLayer::Highlight));
}

#[test]
fn draw_layer_from_str_invalid() {
    assert_eq!(DrawLayer::from_str("artwork"), None);
    assert_eq!(DrawLayer::from_str(""), None);
    assert_eq!(DrawLayer::from_str("INVALID"), None);
}

#[test]
fn strata_default_is_medium() {
    assert_eq!(FrameStrata::default(), FrameStrata::Medium);
}

#[test]
fn draw_layer_default_is_artwork() {
    assert_eq!(DrawLayer::default(), DrawLayer::Artwork);
}

#[test]
fn parse_strata_all_variants() {
    assert_eq!(FrameStrata::from_str("WORLD"), Some(FrameStrata::World));
    assert_eq!(FrameStrata::from_str("DIALOG"), Some(FrameStrata::Dialog));
    assert_eq!(FrameStrata::from_str("UNKNOWN"), None);
}

#[test]
fn strata_names_read_back() {
    let all = [
        FrameStrata::World,
        FrameStrata::Background,
        FrameStrata::Low,
        FrameStrata::Medium,
        FrameStrata::High,
        FrameStrata::Dialog,
        FrameStrata::Fullscreen,
        FrameStrata::FullscreenDialog,
        FrameStrata::Tooltip,
    ];
    for s in all {
        assert_eq!(FrameStrata::from_str(s.as_str()), Some(s));
    }
    assert_eq!(FrameStrata::FullscreenDialog.as_str(), "FULLSCREEN_DIALOG");
}

#[test]
fn draw_layer_names_read_back() {
    let all = [
        DrawLayer::Background,
        DrawLayer::Border,
        DrawLayer::Artwork,
        DrawLayer::Overlay,
        DrawLayer::Highlight,
    ];
    for l in all {
        assert_eq!(DrawLayer::from_str(l.as_str()), Some(l));
    }
    assert_eq!(DrawLayer::Highlight.as_str(), "HIGHLIGHT");
}
