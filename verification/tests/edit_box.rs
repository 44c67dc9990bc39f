use ui_toolkit::widgets::edit_box::EditBoxData;

#[test]
fn insert_at_empty() {
    let mut eb = EditBoxData::default();
    eb.insert_at_cursor("hello");
    assert_eq!(eb.text, "hello");
    assert_eq!(eb.cursor_position, 5);
}

#[test]
fn insert_at_middle() {
    let mut eb = EditBoxData::default();
    eb.text = "helo".into();
    eb.cursor_position = 3;
    eb.insert_at_cursor("l");
    assert_eq!(eb.text, "hello");
    assert_eq!(eb.cursor_position, 4);
}

#[test]
fn insert_filters_control_chars() {
    let mut eb = EditBoxData::default();
    eb.insert_at_cursor("a\nb\tc");
    assert_eq!(eb.text, "abc");
}

#[test]
fn insert_respects_max_letters() {
    let mut eb = EditBoxData {
        max_letters: Some(5),
        ..Default::default()
    };
    eb.insert_at_cursor("abcdefgh");
    assert_eq!(eb.text, "abcde");
}

#[test]
fn insert_respects_max_bytes() {
    let mut eb = EditBoxData {
        max_bytes: Some(3),
        ..Default::default()
    };
    eb.insert_at_cursor("abcde");
    assert_eq!(eb.text, "abc");
}

#[test]
fn replace_range_middle() {
    let mut eb = EditBoxData::default();
    eb.text = "hello world".into();
    eb.replace_range(6, 11, "rust");
    assert_eq!(eb.text, "hello rust");
    assert_eq!(eb.cursor_position, 10);
}

#[test]
fn replace_range_deletion() {
    let mut eb = EditBoxData::default();
    eb.text = "abcdef".into();
    eb.replace_range(2, 4, "");
    assert_eq!(eb.text, "abef");
    assert_eq!(eb.cursor_position, 2);
}

#[test]
fn replace_range_entire_text() {
    let mut eb = EditBoxData::default();
    eb.text = "old".into();
    eb.replace_range(0, 3, "new");
    assert_eq!(eb.text, "new");
    assert_eq!(eb.cursor_position, 3);
}

#[test]
fn backspace_removes_before_cursor() {
    let mut eb = EditBoxData::default();
    eb.text = "hello".into();
    eb.cursor_position = 5;
    eb.backspace();
    assert_eq!(eb.text, "hell");
    assert_eq!(eb.cursor_position, 4);
}

#[test]
fn backspace_at_start_no_op() {
    let mut eb = EditBoxData::default();
    eb.text = "hello".into();
    eb.cursor_position = 0;
    eb.backspace();
    assert_eq!(eb.text, "hello");
}

#[test]
fn delete_forward_at_cursor() {
    let mut eb = EditBoxData::default();
    eb.text = "hello".into();
    eb.cursor_position = 0;
    eb.delete_forward();
    assert_eq!(eb.text, "ello");
}

#[test]
fn delete_forward_at_end_no_op() {
    let mut eb = EditBoxData::default();
    eb.text = "hello".into();
    eb.cursor_position = 5;
    eb.delete_forward();
    assert_eq!(eb.text, "hello");
}

#[test]
fn cursor_movement() {
    let mut eb = EditBoxData::default();
    eb.text = "hello".into();
    eb.cursor_position = 3;
    eb.cursor_left();
    assert_eq!(eb.cursor_position, 2);
    eb.cursor_right();
    assert_eq!(eb.cursor_position, 3);
    eb.cursor_home();
    assert_eq!(eb.cursor_position, 0);
    eb.cursor_end();
    assert_eq!(eb.cursor_position, 5);
}

#[test]
fn cursor_clamped_at_bounds() {
    let mut eb = EditBoxData::default();
    eb.cursor_left();
    assert_eq!(eb.cursor_position, 0);
    eb.text = "ab".into();
    eb.cursor_position = 2;
    eb.cursor_right();
    assert_eq!(eb.cursor_position, 2);
}

// ---------------------------------------------------------------------------

#[test]
fn edit_box_default_settings() {
    let eb = EditBoxData::default();
    assert!(eb.text.is_empty());
    assert_eq!(eb.cursor_position, 0);
    assert!(!eb.multi_line && !eb.numeric && !eb.password);
    assert_eq!(eb.max_letters, None);
    assert_eq!(eb.max_bytes, None);
    assert_eq!(eb.history_lines, 0);
}

#[test]
fn insert_counts_cursor_in_bytes() {
    let mut eb = EditBoxData::default();
    eb.insert_at_cursor("né");
    assert_eq!(eb.text, "né");
    assert_eq!(eb.cursor_position, 3);
    eb.insert_at_cursor("\u{7f}\u{85}€");
    assert_eq!(eb.text, "né€");
    assert_eq!(eb.cursor_position, 6);
    eb.cursor_position = 1;
    eb.insert_at_cursor("x");
    assert_eq!(eb.text, "nxé€");
    assert_eq!(eb.cursor_position, 2);
}

#[test]
fn byte_limit_keeps_whole_characters() {
    let mut eb = EditBoxData {
        max_bytes: Some(4),
        ..Default::default()
    };
    eb.insert_at_cursor("aé€b");
    assert_eq!(eb.text, "aé");
    assert_eq!(eb.cursor_position, 3);
    eb.insert_at_cursor("zz");
    assert_eq!(eb.text, "aéz");
    eb.insert_at_cursor("q");
    assert_eq!(eb.text, "aéz");
    assert_eq!(eb.cursor_position, 4);
}

#[test]
fn letter_limit_counts_characters() {
    let mut eb = EditBoxData {
        max_letters: Some(3),
        ..Default::default()
    };
    eb.text = "éé".into();
    eb.cursor_position = 4;
    eb.insert_at_cursor("€€");
    assert_eq!(eb.text, "éé€");
    assert_eq!(eb.cursor_position, 7);
    eb.insert_at_cursor("x");
    assert_eq!(eb.text, "éé€");
}

#[test]
fn only_control_characters_change_nothing() {
    let mut eb = EditBoxData::default();
    eb.text = "ab".into();
    eb.cursor_position = 1;
    eb.insert_at_cursor("\n\r\t");
    assert_eq!(eb.text, "ab");
    assert_eq!(eb.cursor_position, 1);
}

#[test]
fn typing_then_backspace_restores_text() {
    let mut eb = EditBoxData::default();
    eb.text = "héllo".into();
    eb.cursor_position = 3;
    eb.insert_at_cursor("x");
    assert_eq!(eb.text, "héxllo");
    eb.backspace();
    assert_eq!(eb.text, "héllo");
    assert_eq!(eb.cursor_position, 3);
}

#[test]
fn replace_range_clamps_to_text() {
    let mut eb = EditBoxData::default();
    eb.text = "abc".into();
    eb.replace_range(10, 20, "d");
    assert_eq!(eb.text, "abcd");
    assert_eq!(eb.cursor_position, 4);
    eb.replace_range(3, 1, "X");
    assert_eq!(eb.text, "abcXd");
    assert_eq!(eb.cursor_position, 4);
    eb.text = "aé".into();
    eb.replace_range(1, 3, "e");
    assert_eq!(eb.text, "ae");
    assert_eq!(eb.cursor_position, 2);
}

#[test]
fn delete_forward_removes_whole_character() {
    let mut eb = EditBoxData::default();
    eb.text = "€x".into();
    eb.cursor_position = 0;
    eb.delete_forward();
    assert_eq!(eb.text, "x");
    assert_eq!(eb.cursor_position, 0);
}

#[test]
fn both_limits_hold_after_middle_insert() {
    let mut eb = EditBoxData {
        max_letters: Some(4),
        max_bytes: Some(6),
        ..Default::default()
    };
    eb.text = "ab".into();
    eb.cursor_position = 1;
    eb.insert_at_cursor("€€€");
    assert_eq!(eb.text, "a€b");
    assert!(eb.text.chars().count() <= 4);
    assert!(eb.text.len() <= 6);
    assert_eq!(eb.cursor_position, 4);
}
