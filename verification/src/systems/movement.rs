//! Picking the sprite-sheet cell of a ship's tilt animation.

use crate::components::ShipAnimation;
use vstd::prelude::*;

verus! {

/// A cell of a sprite sheet, counted from the top left.
#[derive(Clone, Copy, Debug, PartialEq, Eq, Structural)]
pub struct FrameCell {
    pub column: u32,
    pub row: u32,
}

/// The frame shown for the wanted frame `wanted`: clamped to the last frame.
pub open spec fn clamped_frame(wanted: u32, total_frames: u32) -> u32 {
    if wanted < total_frames { wanted } else { (total_frames - 1) as u32 }
}

/// Shows frame `wanted` (clamped to the animation's last frame) and returns
/// its cell on a sheet with `sprite_cols` columns, filled row by row.
pub fn select_frame(anim: &mut ShipAnimation, wanted: u32, sprite_cols: u32) -> (cell: FrameCell)
    requires
        old(anim).total_frames >= 1,
        sprite_cols >= 1,
    ensures
        final(anim).total_frames == old(anim).total_frames,
        final(anim).flipped == old(anim).flipped,
        final(anim).current_frame == clamped_frame(wanted, old(anim).total_frames),
        cell.column == final(anim).current_frame % sprite_cols,
        cell.row == final(anim).current_frame / sprite_cols,
{
    let last = anim.total_frames - 1;
    anim.current_frame = if wanted > last { last } else { wanted };
    FrameCell { column: anim.current_frame % sprite_cols, row: anim.current_frame / sprite_cols }
}

/// The frame shown is one of the animation's frames, and its cell lies on
/// the sheet and maps back to it.
pub proof fn law_frame_cell_on_sheet(wanted: u32, total_frames: u32, sprite_cols: u32)
    requires
        total_frames >= 1,
        sprite_cols >= 1,
    ensures
        clamped_frame(wanted, total_frames) < total_frames,
        clamped_frame(wanted, total_frames) % sprite_cols < sprite_cols,
        (clamped_frame(wanted, total_frames) / sprite_cols) * sprite_cols + clamped_frame(
            wanted,
            total_frames,
        ) % sprite_cols == clamped_frame(wanted, total_frames),
{
    let f = clamped_frame(wanted, total_frames);
    vstd::arithmetic::div_mod::lemma_fundamental_div_mod(f as int, sprite_cols as int);
    vstd::arithmetic::div_mod::lemma_mod_bound(f as int, sprite_cols as int);
}

} // verus!
