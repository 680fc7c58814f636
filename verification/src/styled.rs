//! Placement, sides and the small behaviour traits shared by UI elements.
use vstd::prelude::*;

verus! {

/// Where a floating element is placed relative to its anchor.
#[derive(Clone, Copy, PartialEq, Eq, Debug, Structural)]
pub enum Placement {
    Top,
    Bottom,
    Left,
    Right,
}

impl Placement {
    /// Left and right placements lie on the horizontal axis.
    pub fn is_horizontal(&self) -> (r: bool)
        ensures
            r <==> (*self == Placement::Left || *self == Placement::Right),
    {
        match self {
            Placement::Left | Placement::Right => true,
            _ => false,
        }
    }

    /// Top and bottom placements lie on the vertical axis.
    pub fn is_vertical(&self) -> (r: bool)
        ensures
            r <==> (*self == Placement::Top || *self == Placement::Bottom),
    {
        match self {
            Placement::Top | Placement::Bottom => true,
            _ => false,
        }
    }

    /// The name of the placement, as it is displayed.
    pub fn name(&self) -> (s: &'static str)
        ensures
            *self == Placement::Top ==> s@ == "Top"@,
            *self == Placement::Bottom ==> s@ == "Bottom"@,
            *self == Placement::Left ==> s@ == "Left"@,
            *self == Placement::Right ==> s@ == "Right"@,
    {
        match self {
            Placement::Top => "Top",
            Placement::Bottom => "Bottom",
            Placement::Left => "Left",
            Placement::Right => "Right",
        }
    }
}

/// The side of an element.
#[derive(Clone, Copy, PartialEq, Eq, Debug, Structural)]
pub enum Side {
    Left,
    Right,
}

impl Side {
    /// Returns true if the side is left.
    pub fn is_left(&self) -> (r: bool)
        ensures
            r <==> *self == Side::Left,
    {
        matches!(self, Self::Left)
    }

    /// Returns true if the side is right.
    pub fn is_right(&self) -> (r: bool)
        ensures
            r <==> *self == Side::Right,
    {
        matches!(self, Self::Right)
    }
}

/// Every placement lies on exactly one of the two axes.
pub proof fn lemma_placement_one_axis(p: Placement)
    ensures
        (p == Placement::Left || p == Placement::Right) != (p == Placement::Top || p
            == Placement::Bottom),
{
}

/// Every side is exactly one of left and right.
pub proof fn lemma_side_left_xor_right(s: Side)
    ensures
        (s == Side::Left) != (s == Side::Right),
{
}

/// An element that can be selected.
pub trait Selectable: Sized {
    /// Set the selected state of the element.
    fn selected(self, selected: bool) -> Self;

    /// Returns true if the element is selected.
    fn is_selected(&self) -> bool;

    /// Set whether the element is right-clicked; by default nothing changes.
    fn secondary_selected(self, _secondary: bool) -> (r: Self)
        default_ensures
            r == self,
    {
        self
    }
}

/// An element that can be disabled.
pub trait Disableable {
    /// Set the disabled state of the element.
    fn disabled(self, disabled: bool) -> Self;
}

/// Axis queries for an axis type.
pub trait AxisExt {
    fn is_horizontal(self) -> bool;

    fn is_vertical(self) -> bool;
}

/// An element that can be collapsed.
pub trait Collapsible {
    fn collapsed(self, collapsed: bool) -> Self;

    fn is_collapsed(&self) -> bool;
}

} // verus!
