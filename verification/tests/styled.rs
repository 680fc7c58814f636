use gpml::styled::{Placement, Side};

#[test]
fn placement_axes() {
    assert!(Placement::Left.is_horizontal());
    assert!(Placement::Right.is_horizontal());
    assert!(!Placement::Top.is_horizontal());
    assert!(Placement::Top.is_vertical());
    assert!(Placement::Bottom.is_vertical());
    assert!(!Placement::Left.is_vertical());
    assert_eq!(Placement::Bottom.name(), "Bottom");
}

#[test]
fn sides() {
    assert!(Side::Left.is_left());
    assert!(!Side::Left.is_right());
    assert!(Side::Right.is_right());
}
