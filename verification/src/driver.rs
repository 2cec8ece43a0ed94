//! The decisions of one frame of the visualiser: whether to stop, how the
//! zoom changes, and what the simulation and the framebuffer hold when the
//! frame is handed to the window.

use vstd::prelude::*;
use crate::ant::LangtonsAnt;
use crate::render::{draw_grid, painted, GRID_SIZE, HEIGHT, WIDTH};
use crate::simulation::{perform_steps, share_size, states, stepped};

verus! {

/// Zoom factor at start-up.
pub const INITIAL_ZOOM: usize = 1;

/// What the window reports at the start of a frame.
#[derive(Clone, Copy, Debug)]
pub struct FrameInput {
    /// The window is still open.
    pub window_open: bool,
    /// The Escape key is held.
    pub escape_held: bool,
    /// The key that raises the zoom is held.
    pub zoom_in_held: bool,
    /// The key that lowers the zoom is held.
    pub zoom_out_held: bool,
}

/// What the caller does once the frame has been computed.
#[derive(Clone, Copy, Debug, PartialEq, Eq, Structural)]
pub enum FrameAction {
    /// Leave the loop; nothing was changed.
    Exit,
    /// Submit the framebuffer to the window and wait for the next frame.
    Present,
}

impl FrameInput {
    /// Whether the loop ends with this frame: the window was closed or
    /// Escape is held.
    pub open spec fn exit_requested(self) -> bool {
        !self.window_open || self.escape_held
    }
}

/// The zoom after one frame. A held zoom-in key adds one; then a held
/// zoom-out key takes one away unless that would leave the zoom below 1.
pub open spec fn zoom_after(zoom: int, zoom_in_held: bool, zoom_out_held: bool) -> int {
    let raised = if zoom_in_held {
        zoom + 1
    } else {
        zoom
    };
    if zoom_out_held && raised > 1 {
        raised - 1
    } else {
        raised
    }
}

/// The zoom after `frames` frames during which the keys are held as given.
pub open spec fn zoom_after_frames(zoom: int, zoom_in_held: bool, zoom_out_held: bool, frames: nat) -> int
    decreases frames,
{
    if frames == 0 {
        zoom
    } else {
        zoom_after(
            zoom_after_frames(zoom, zoom_in_held, zoom_out_held, (frames - 1) as nat),
            zoom_in_held,
            zoom_out_held,
        )
    }
}

/// Keys are sampled by level: holding zoom-in for `frames` frames raises the
/// zoom by `frames`, and holding zoom-out for `frames` frames lowers it by
/// `frames` but never below 1.
pub proof fn lemma_held_keys_count_frames(zoom: int, frames: nat)
    requires
        zoom >= 1,
    ensures
        zoom_after_frames(zoom, true, false, frames) == zoom + frames,
        zoom_after_frames(zoom, false, true, frames) == if zoom - frames >= 1 {
            zoom - frames
        } else {
            1
        },
        zoom_after_frames(zoom, false, false, frames) == zoom,
        zoom_after_frames(zoom, true, true, frames) == zoom,
    decreases frames,
{
    if frames > 0 {
        lemma_held_keys_count_frames(zoom, (frames - 1) as nat);
    }
}

/// A zoom of at least 1 stays at least 1, whatever keys are held.
pub proof fn lemma_zoom_stays_positive(zoom: int, zoom_in_held: bool, zoom_out_held: bool)
    requires
        zoom >= 1,
    ensures
        zoom_after(zoom, zoom_in_held, zoom_out_held) >= 1,
{
}

/// Applies the zoom keys of one frame to the zoom.
pub fn adjust_zoom(zoom_level: usize, zoom_in_held: bool, zoom_out_held: bool) -> (next: usize)
    requires
        zoom_in_held ==> zoom_level < usize::MAX,
    ensures
        next == zoom_after(zoom_level as int, zoom_in_held, zoom_out_held),
{
    let mut zoom_level = zoom_level;
    if zoom_in_held {
        zoom_level += 1;
    }
    if zoom_out_held {
        if zoom_level > 1 {
            zoom_level -= 1;
        }
    }
    zoom_level
}

/// Computes one frame. If the window was closed or Escape is held, nothing
/// changes and the loop is to end. Otherwise the zoom keys are applied, every
/// ant advances by one tick, and the grids are drawn into the framebuffer at
/// the new zoom, in this order; the framebuffer is then ready to be
/// presented.
pub fn advance_frame(
    ants: &mut [LangtonsAnt],
    buffer: &mut [u32],
    zoom_level: &mut usize,
    input: FrameInput,
) -> (action: FrameAction)
    requires
        old(buffer)@.len() == WIDTH * HEIGHT,
        share_size(states(old(ants)@), GRID_SIZE as int),
        input.zoom_in_held ==> *old(zoom_level) < usize::MAX,
    ensures
        final(buffer)@.len() == old(buffer)@.len(),
        share_size(states(final(ants)@), GRID_SIZE as int),
        input.exit_requested() ==> {
            &&& action == FrameAction::Exit
            &&& *final(zoom_level) == *old(zoom_level)
            &&& final(ants)@ == old(ants)@
            &&& final(buffer)@ == old(buffer)@
        },
        !input.exit_requested() ==> {
            &&& action == FrameAction::Present
            &&& *final(zoom_level) == zoom_after(
                *old(zoom_level) as int,
                input.zoom_in_held,
                input.zoom_out_held,
            )
            &&& states(final(ants)@) == stepped(states(old(ants)@))
            &&& final(buffer)@ == painted(
                old(buffer)@,
                stepped(states(old(ants)@)),
                GRID_SIZE as int,
                WIDTH as int,
                *final(zoom_level) as int,
                old(ants)@.len() == 1,
            )
        },
{
    if !input.window_open || input.escape_held {
        return FrameAction::Exit;
    }
    *zoom_level = adjust_zoom(*zoom_level, input.zoom_in_held, input.zoom_out_held);
    perform_steps(ants);
    assert(states(ants@).len() == states(old(ants)@).len());
    assert forall|i: int| 0 <= i < states(ants@).len() implies (#[trigger] states(ants@)[i]).size()
        == GRID_SIZE by {
        assert(states(old(ants)@)[i].size() == GRID_SIZE);
    }
    draw_grid(buffer, ants, *zoom_level);
    FrameAction::Present
}

} // verus!
