//! The far-terrain height grid that is broadcast once per session.

use crate::grid::{dims_for, grid_dims, sample_grid, sample_points, SamplePoint};
use vstd::prelude::*;

verus! {

/// The most samples along one axis of the height grid.
pub const LOD_ALT_MAX_DIM: u32 = 128;

/// Whether the height grid was sent.
pub struct LodAltState {
    pub sent: bool,
}

impl LodAltState {
    /// Nothing was sent yet.
    pub fn new() -> (state: LodAltState)
        ensures
            !state.sent,
    {
        LodAltState { sent: false }
    }
}

/// The stride and the numbers of samples along both axes, for a world of this many chunks.
pub fn lod_alt_grid_dims(chunk_w: u16, chunk_h: u16) -> (dims: (u32, u32, u32))
    ensures
        (dims.0 as int, dims.1 as int, dims.2 as int) == dims_for(
            chunk_w as int,
            chunk_h as int,
            LOD_ALT_MAX_DIM as int,
        ),
{
    grid_dims(chunk_w as u32, chunk_h as u32, LOD_ALT_MAX_DIM)
}

/// The height grid to send: its layout, and the chunks whose heights it holds, row by row.
pub struct LodAltPlan {
    pub stride: u32,
    pub grid_w: u32,
    pub grid_h: u32,
    pub samples: Vec<SamplePoint>,
}

/// The extent of a world in chunks.
#[derive(Clone, Copy, Debug, PartialEq, Eq, Structural)]
pub struct ChunkExtent {
    pub w: u16,
    pub h: u16,
}

/// Whether there is anything to send: not before a player is there, nor for a world without
/// extent, nor a second time.
pub open spec fn ready(sent: bool, size: Option<ChunkExtent>) -> bool {
    !sent && size is Some && size->0.w != 0 && size->0.h != 0
}

/// Plans the height grid the first time that it can be sent. `size` is the extent of the
/// world in chunks, `None` without a local player.
pub fn send_lod_alt_once(state: &mut LodAltState, size: Option<ChunkExtent>) -> (plan: Option<
    LodAltPlan,
>)
    ensures
        plan is Some <==> ready(old(state).sent, size),
        final(state).sent == (old(state).sent || plan is Some),
        plan is Some ==> {
            let extent = size->0;
            let (stride, grid_w, grid_h) = dims_for(
                extent.w as int,
                extent.h as int,
                LOD_ALT_MAX_DIM as int,
            );
            &&& plan->0.stride == stride
            &&& plan->0.grid_w == grid_w
            &&& plan->0.grid_h == grid_h
            &&& plan->0.samples@ == sample_grid(stride, grid_w as nat, grid_h as nat)
            &&& forall|k: int|
                0 <= k < plan->0.samples@.len() ==> (#[trigger] plan->0.samples@[k]).x < extent.w
                    && plan->0.samples@[k].y < extent.h
        },
{
    if state.sent {
        return None;
    }
    let extent = match size {
        Some(extent) => extent,
        None => {
            return None;
        },
    };
    if extent.w == 0 || extent.h == 0 {
        return None;
    }
    let (stride, grid_w, grid_h): (u32, u32, u32) = lod_alt_grid_dims(extent.w, extent.h);
    let samples = sample_points(extent.w as u32, extent.h as u32, LOD_ALT_MAX_DIM);
    state.sent = true;
    Some(LodAltPlan { stride, grid_w, grid_h, samples })
}

/// The heights are sent once the world has an extent, and not again.
pub proof fn law_heights_wait_for_the_extent(size: Option<ChunkExtent>)
    ensures
        !ready(true, size),
        ready(false, size) <==> size is Some && size->0.w > 0 && size->0.h > 0,
{
}

} // verus!
