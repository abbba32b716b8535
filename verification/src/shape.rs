//! Text placement options shared by the renderers.
use vstd::prelude::*;

verus! {

/// Rotation of a text element.
#[derive(Clone, Copy, Debug, PartialEq, Eq, Structural, Hash)]
pub enum TextRotation {
    /// Not rotated.
    Upright,
    /// Counter-clockwise by a quarter turn (Y-axis labels).
    Ccw90,
    /// Clockwise by a quarter turn (facet row labels).
    Cw90,
}

impl Default for TextRotation {
    fn default() -> (r: Self)
        ensures
            r == TextRotation::Upright,
    {
        TextRotation::Upright
    }
}

/// Horizontal anchoring of a text element.
#[derive(Clone, Copy, Debug, PartialEq, Eq, Structural)]
pub enum HAlign {
    Left,
    Center,
    Right,
}

impl Default for HAlign {
    fn default() -> (r: Self)
        ensures
            r == HAlign::Left,
    {
        HAlign::Left
    }
}

/// Vertical anchoring of a text element.
#[derive(Clone, Copy, Debug, PartialEq, Eq, Structural)]
pub enum VAlign {
    Top,
    Center,
}

impl Default for VAlign {
    fn default() -> (r: Self)
        ensures
            r == VAlign::Top,
    {
        VAlign::Top
    }
}

} // verus!
