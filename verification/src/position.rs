//! How a popup is anchored on a screen.
use vstd::prelude::*;

verus! {

/// Which screen corner a screen-space position is measured from.
#[derive(Clone, Copy, Debug, PartialEq, Eq)]
pub struct Anchor {
    pub vertical: VerticalAnchor,
    pub horizontal: HorizontalAnchor,
}

/// The vertical edge a position is measured from.
#[derive(Clone, Copy, Debug, PartialEq, Eq)]
pub enum VerticalAnchor {
    Top,
    Bottom,
}

/// The horizontal edge a position is measured from.
#[derive(Clone, Copy, Debug, PartialEq, Eq)]
pub enum HorizontalAnchor {
    Left,
    Right,
}

/// Whether a full screen popup covers one screen or all of them.
#[derive(Clone, Copy, Debug, PartialEq, Eq)]
pub enum FullScreenMode {
    One,
    All,
}

} // verus!
