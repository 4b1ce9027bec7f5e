//! Components whose logic is integral: render layers and sprite-sheet
//! animation state.

use vstd::prelude::*;

verus! {

/// The layer a sprite is drawn on; earlier layers are drawn first, so later
/// ones appear on top.
#[derive(Clone, Copy, Debug, PartialEq, Eq, PartialOrd, Ord, Hash, Structural)]
pub enum RenderLayer {
    Background,
    ParallaxFix,
    Parallax1,
    Parallax2,
    Default,
    Foreground,
}

impl RenderLayer {
    /// The position of the layer in drawing order, from the back.
    pub open spec fn depth(self) -> nat {
        match self {
            RenderLayer::Background => 0,
            RenderLayer::ParallaxFix => 1,
            RenderLayer::Parallax1 => 2,
            RenderLayer::Parallax2 => 3,
            RenderLayer::Default => 4,
            RenderLayer::Foreground => 5,
        }
    }

    /// The position of the layer in drawing order, from the back.
    pub fn draw_rank(&self) -> (rank: u8)
        ensures
            rank == self.depth(),
    {
        match self {
            RenderLayer::Background => 0,
            RenderLayer::ParallaxFix => 1,
            RenderLayer::Parallax1 => 2,
            RenderLayer::Parallax2 => 3,
            RenderLayer::Default => 4,
            RenderLayer::Foreground => 5,
        }
    }
}

/// The number of render layers.
pub const LAYER_COUNT: u8 = 6;

/// The tilt animation of a ship, played by picking frames of a sprite sheet.
#[derive(Clone, Copy, Debug, PartialEq, Eq, Structural)]
pub struct ShipAnimation {
    pub total_frames: u32,
    pub current_frame: u32,
    /// The sheet is drawn mirrored.
    pub flipped: bool,
}

} // verus!
