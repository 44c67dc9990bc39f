use ui_toolkit::anchor::{AnchorPoint, FrameName};

#[test]
fn from_str_all_points() {
    assert_eq!(AnchorPoint::from_str("TOPLEFT"), Some(AnchorPoint::TopLeft));
    assert_eq!(AnchorPoint::from_str("TOP"), Some(AnchorPoint::Top));
    assert_eq!(
        AnchorPoint::from_str("TOPRIGHT"),
        Some(AnchorPoint::TopRight)
    );
    assert_eq!(AnchorPoint::from_str("LEFT"), Some(AnchorPoint::Left));
    assert_eq!(AnchorPoint::from_str("CENTER"), Some(AnchorPoint::Center));
    assert_eq!(AnchorPoint::from_str("RIGHT"), Some(AnchorPoint::Right));
    assert_eq!(
        AnchorPoint::from_str("BOTTOMLEFT"),
        Some(AnchorPoint::BottomLeft)
    );
    assert_eq!(AnchorPoint::from_str("BOTTOM"), Some(AnchorPoint::Bottom));
    assert_eq!(
        AnchorPoint::from_str("BOTTOMRIGHT"),
        Some(AnchorPoint::BottomRight)
    );
}

#[test]
fn from_str_invalid() {
    assert_eq!(AnchorPoint::from_str("INVALID"), None);
    assert_eq!(AnchorPoint::from_str("topleft"), None);
    assert_eq!(AnchorPoint::from_str(""), None);
}

#[test]
fn anchor_point_names_read_back() {
    let all = [
        AnchorPoint::TopLeft,
        AnchorPoint::Top,
        AnchorPoint::TopRight,
        AnchorPoint::Left,
        AnchorPoint::Center,
        AnchorPoint::Right,
        AnchorPoint::BottomLeft,
        AnchorPoint::Bottom,
        AnchorPoint::BottomRight,
    ];
    for p in all {
        assert_eq!(AnchorPoint::from_str(p.as_str()), Some(p));
    }
    assert_eq!(AnchorPoint::BottomRight.as_str(), "BOTTOMRIGHT");
}

#[test]
fn frame_name_gives_its_text() {
    let n = FrameName("LoginScreen");
    assert_eq!(n.as_str(), "LoginScreen");
}
