//! Integer coordinates and the mapping from world positions to chunks.
//!
//! Positions are kept in whole world units. A voxel spans `dimension` world
//! units along each axis, a chunk spans `chunk_size` voxels along the two
//! horizontal axes.

use vstd::arithmetic::div_mod::{lemma_fundamental_div_mod, lemma_mod_bound};
use vstd::prelude::*;

verus! {

/// A coordinate on the horizontal plane, used to name a chunk.
#[derive(Clone, Copy, Debug, PartialEq, Eq, Structural)]
pub struct Coords2(pub i32, pub i32);

/// A point in space: a world position or a voxel coordinate.
#[derive(Clone, Copy, Debug, PartialEq, Eq, Structural)]
pub struct Coords3(pub i32, pub i32, pub i32);

/// An orientation, stored as four fixed-point components.
#[derive(Clone, Copy, Debug, PartialEq, Eq, Structural)]
pub struct Quaternion(pub i32, pub i32, pub i32, pub i32);

/// The measures of a world: voxels per chunk edge, world units per voxel
/// edge, and the height of the world in voxels.
#[derive(Clone, Copy, Debug, PartialEq, Eq, Structural)]
pub struct WorldMetrics {
    pub chunk_size: u32,
    pub dimension: u32,
    pub max_height: u32,
}

impl WorldMetrics {
    /// Metrics are usable when neither divisor is zero.
    pub open spec fn wf(&self) -> bool {
        self.chunk_size > 0 && self.dimension > 0
    }

    /// Checks that neither divisor is zero.
    pub fn is_valid(&self) -> (ok: bool)
        ensures
            ok == self.wf(),
    {
        self.chunk_size > 0 && self.dimension > 0
    }
}

/// The voxel that contains `position`, component by component.
pub open spec fn voxel_of(position: Coords3, dimension: u32) -> Coords3 {
    Coords3(
        (position.0 as int / dimension as int) as i32,
        (position.1 as int / dimension as int) as i32,
        (position.2 as int / dimension as int) as i32,
    )
}

/// The chunk that contains `voxel`: the height is dropped.
pub open spec fn chunk_of_voxel(voxel: Coords3, chunk_size: u32) -> Coords2 {
    Coords2(
        (voxel.0 as int / chunk_size as int) as i32,
        (voxel.2 as int / chunk_size as int) as i32,
    )
}

/// The chunk that contains a world position: first the voxel, then the chunk.
pub open spec fn chunk_of(position: Coords3, metrics: WorldMetrics) -> Coords2 {
    chunk_of_voxel(voxel_of(position, metrics.dimension), metrics.chunk_size)
}

/// Floor of `value / divisor` for a positive divisor.
pub fn floor_div(value: i32, divisor: u32) -> (quotient: i32)
    requires
        divisor > 0,
    ensures
        quotient == value as int / divisor as int,
        divisor as int * quotient <= value < divisor as int * quotient + divisor,
{
    proof {
        lemma_fundamental_div_mod(value as int, divisor as int);
        lemma_mod_bound(value as int, divisor as int);
    }
    let wide: i64 = value as i64;
    let by: i64 = divisor as i64;
    if wide >= 0 {
        let q: i64 = wide / by;
        q as i32
    } else {
        // For a negative value, -((-value - 1) / divisor) - 1 rounds down.
        let q: i64 = (-wide - 1) / by;
        assert(value as int / divisor as int == -q - 1) by (nonlinear_arith)
            requires
                divisor > 0,
                value < 0,
                q == (-(value as int) - 1) / (divisor as int),
        ;
        (-q - 1) as i32
    }
}

/// Maps a world position to the voxel that contains it.
pub fn map_world_to_voxel(position: &Coords3, dimension: u32) -> (voxel: Coords3)
    requires
        dimension > 0,
    ensures
        voxel == voxel_of(*position, dimension),
{
    Coords3(
        floor_div(position.0, dimension),
        floor_div(position.1, dimension),
        floor_div(position.2, dimension),
    )
}

/// Maps a voxel to the chunk that contains it.
pub fn map_voxel_to_chunk(voxel: &Coords3, chunk_size: u32) -> (chunk: Coords2)
    requires
        chunk_size > 0,
    ensures
        chunk == chunk_of_voxel(*voxel, chunk_size),
{
    Coords2(floor_div(voxel.0, chunk_size), floor_div(voxel.2, chunk_size))
}

} // verus!
