use vstd::prelude::*;
use crate::catalog::{AIR, BEDROCK, GRASS, STONE};
use crate::coords::{ChunkCoord, VOXELS_IN_CHUNK, chunk_of, index_spec};

verus! {

/// The id of the voxel at world height `z` in a column whose surface lies at
/// `terrain_height`: bedrock at height 0, grass on the surface, stone beneath it
/// and air above it. No dirt layer is placed under the grass.
pub open spec fn voxel_for(z: int, terrain_height: int) -> u8 {
    if z == 0 {
        BEDROCK
    } else if z == terrain_height {
        GRASS
    } else if z > terrain_height {
        AIR
    } else {
        STONE
    }
}

/// The id that generation puts at grid index `i` of chunk `coord`, when the
/// chunk's surface lies at `terrain_height`.
pub open spec fn generated_voxel(coord: ChunkCoord, i: int, terrain_height: int) -> u8 {
    voxel_for(coord.z * 32 + i % 32, terrain_height)
}

/// The id of the voxel at world height `z` in a column whose surface lies at
/// `terrain_height`.
pub fn get_voxel(z: i64, terrain_height: i64) -> (r: u8)
    ensures
        r == voxel_for(z as int, terrain_height as int),
{
    if z == 0 {
        return BEDROCK;
    }
    if z == terrain_height {
        GRASS
    } else if z > terrain_height {
        AIR
    } else {
        STONE
    }
}

/// The voxel grid of chunk `coord` when the terrain surface over the chunk lies
/// at world height `terrain_height`.
pub fn generate_chunk_voxel_map(coord: &ChunkCoord, terrain_height: i32) -> (r: Vec<u8>)
    ensures
        r@.len() == VOXELS_IN_CHUNK,
        forall|i: int|
            0 <= i < VOXELS_IN_CHUNK ==> #[trigger] r@[i] == generated_voxel(
                *coord,
                i,
                terrain_height as int,
            ),
{
    let mut voxel_map: Vec<u8> = Vec::new();
    let base: i64 = coord.z as i64 * 32;
    let mut i: usize = 0;
    while i < VOXELS_IN_CHUNK
        invariant
            0 <= i <= VOXELS_IN_CHUNK,
            base == coord.z * 32,
            voxel_map@.len() == i,
            forall|j: int|
                0 <= j < i ==> #[trigger] voxel_map@[j] == generated_voxel(
                    *coord,
                    j,
                    terrain_height as int,
                ),
        decreases VOXELS_IN_CHUNK - i,
    {
        let z = (i % 32) as i64;
        voxel_map.push(get_voxel(base + z, terrain_height as i64));
        i += 1;
    }
    voxel_map
}

/// Generation is deterministic: a world voxel lies in exactly one chunk, at
/// exactly one index of its grid, and the id generated there depends only on
/// its world height and the terrain height of its column.
pub proof fn lemma_generation_deterministic(
    c1: ChunkCoord,
    x1: int,
    y1: int,
    z1: int,
    c2: ChunkCoord,
    x2: int,
    y2: int,
    z2: int,
    terrain_height: int,
)
    requires
        0 <= x1 < 32 && 0 <= y1 < 32 && 0 <= z1 < 32,
        0 <= x2 < 32 && 0 <= y2 < 32 && 0 <= z2 < 32,
        c1.x * 32 + x1 == c2.x * 32 + x2,
        c1.y * 32 + y1 == c2.y * 32 + y2,
        c1.z * 32 + z1 == c2.z * 32 + z2,
    ensures
        c1 == c2,
        index_spec(x1, y1, z1) == index_spec(x2, y2, z2),
        c1.x == chunk_of(c1.x * 32 + x1),
        generated_voxel(c1, index_spec(x1, y1, z1), terrain_height) == generated_voxel(
            c2,
            index_spec(x2, y2, z2),
            terrain_height,
        ),
        generated_voxel(c1, index_spec(x1, y1, z1), terrain_height) == voxel_for(
            c1.z * 32 + z1,
            terrain_height,
        ),
{
    assert(index_spec(x1, y1, z1) % 32 == z1) by (nonlinear_arith)
        requires
            0 <= x1 < 32 && 0 <= y1 < 32 && 0 <= z1 < 32,
    ;
}

} // verus!
