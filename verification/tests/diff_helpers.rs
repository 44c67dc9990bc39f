use ui_toolkit::dioxus_hotreload_diff::{strip_raw, tags_match};
use ui_toolkit::dioxus_renderer::find_template_frame;
use ui_toolkit::widget_def::{WidgetChild, WidgetDef};
use ui_toolkit::frame::WidgetType;
use ui_toolkit::widget_def_diff::{consume_match, flatten, match_existing, DiffContext};

#[test]
fn raw_prefix_is_stripped() {
    assert_eq!(strip_raw("r#frame"), "frame");
    assert_eq!(strip_raw("frame"), "frame");
    assert_eq!(strip_raw("r#"), "");
    assert_eq!(strip_raw("rr#x"), "rr#x");
}

#[test]
fn tags_match_ignoring_raw_and_ascii_case() {
    assert!(tags_match(Some("r#frame"), Some("Frame")));
    assert!(tags_match(Some("FontString"), Some("fontstring")));
    assert!(tags_match(None, None));
    assert!(!tags_match(Some("frame"), None));
    assert!(!tags_match(None, Some("frame")));
    assert!(!tags_match(Some("frame"), Some("frames")));
    assert!(!tags_match(Some("É"), Some("é")));
}

#[test]
fn template_frames_found_by_path() {
    let frames = vec![(vec![0u8], 7u64), (vec![0u8, 1], 9), (vec![0u8, 1], 11)];
    assert_eq!(find_template_frame(&frames, &[0, 1]), Some(9));
    assert_eq!(find_template_frame(&frames, &[0]), Some(7));
    assert_eq!(find_template_frame(&frames, &[1]), None);
    assert_eq!(find_template_frame(&[], &[]), None);
}

#[test]
fn diff_context_starts_empty() {
    let ctx = DiffContext::new();
    assert!(ctx.created_frames.is_empty());
    assert!(ctx.pending_anchors.is_empty());
    assert!(ctx.validated_paths.is_empty());
    assert!(ctx.missing_paths.is_empty());
    assert!(!ctx.log_changes);
}

#[test]
fn flatten_opens_fragments_in_order() {
    let tree = vec![
        WidgetChild::Widget(WidgetDef::new("A")),
        WidgetChild::Dynamic,
        WidgetChild::Fragment(vec![
            WidgetChild::Widget(WidgetDef::new("B")),
            WidgetChild::Fragment(vec![WidgetChild::Widget(WidgetDef::new("C"))]),
            WidgetChild::Dynamic,
        ]),
        WidgetChild::Widget(WidgetDef::new("D")),
    ];
    let flat = flatten(&tree);
    let tags: Vec<&str> = flat.iter().map(|d| d.tag).collect();
    assert_eq!(tags, vec!["A", "B", "C", "D"]);
    assert!(flatten(&[]).is_empty());
    assert!(flatten(&[WidgetChild::Dynamic, WidgetChild::Fragment(vec![])]).is_empty());
}

#[test]
fn consume_match_prefers_the_named_frame() {
    let types = vec![Some(WidgetType::Button), Some(WidgetType::Frame), Some(WidgetType::Button)];
    let mut remaining = vec![Some(10), Some(11), Some(12)];
    // The name finds frame 12, though frame 10 is the first button.
    assert_eq!(consume_match(Some(12), WidgetType::Button, &mut remaining, &types), Some(12));
    assert_eq!(remaining, vec![Some(10), Some(11), None]);
    // A name that finds a frame already taken falls back to the type.
    assert_eq!(consume_match(Some(12), WidgetType::Button, &mut remaining, &types), Some(10));
    assert_eq!(remaining, vec![None, Some(11), None]);
    // No frame of the type is left.
    assert_eq!(consume_match(None, WidgetType::Button, &mut remaining, &types), None);
    assert_eq!(remaining, vec![None, Some(11), None]);
    // A frame missing from the registry has no type and is never taken by type.
    let mut gone = vec![Some(20)];
    assert_eq!(consume_match(None, WidgetType::Frame, &mut gone, &vec![None]), None);
    assert_eq!(consume_match(Some(20), WidgetType::Frame, &mut gone, &vec![None]), Some(20));
}

#[test]
fn match_existing_partitions_frames_and_definitions() {
    let existing = vec![1, 2, 3, 4];
    let types = vec![
        Some(WidgetType::Frame),
        Some(WidgetType::Button),
        Some(WidgetType::Texture),
        Some(WidgetType::Button),
    ];
    let wants = vec![
        (None, WidgetType::Button),          // takes 2, the first button
        (Some(4), WidgetType::Frame),        // its name finds 4
        (None, WidgetType::Button),          // no button left: new frame
        (None, WidgetType::Frame),           // takes 1
        (Some(9), WidgetType::FontString),   // name finds nothing, no type: new frame
    ];
    let (matched, unmatched, leftover) = match_existing(&wants, &existing, &types);
    assert_eq!(matched, vec![(2, 0), (4, 1), (1, 3)]);
    assert_eq!(unmatched, vec![2, 4]);
    assert_eq!(leftover, vec![3]);
}

#[test]
fn match_existing_with_nothing_to_match() {
    let (matched, unmatched, leftover) = match_existing(&vec![], &vec![5, 6], &vec![None, None]);
    assert!(matched.is_empty());
    assert!(unmatched.is_empty());
    assert_eq!(leftover, vec![5, 6]);
    let wants = vec![(None, WidgetType::Frame)];
    let (matched, unmatched, leftover) = match_existing(&wants, &vec![], &vec![]);
    assert!(matched.is_empty());
    assert_eq!(unmatched, vec![0]);
    assert!(leftover.is_empty());
}
