use voxel_world::catalog::{AIR, BEDROCK, DIRT, GRASS, STONE};
use voxel_world::coords::{to_voxel_index, ChunkCoord, VOXELS_IN_CHUNK};
use voxel_world::terrain::{generate_chunk_voxel_map, get_voxel};

fn at(grid: &[u8], x: u8, y: u8, z: u8) -> u8 {
    grid[to_voxel_index(x, y, z) as usize]
}

#[test]
fn voxel_layers_by_height() {
    assert_eq!(get_voxel(0, 12), BEDROCK);
    assert_eq!(get_voxel(12, 12), GRASS);
    assert_eq!(get_voxel(13, 12), AIR);
    assert_eq!(get_voxel(5, 12), STONE);
    assert_eq!(get_voxel(-5, 12), STONE);
    assert_eq!(get_voxel(0, -3), BEDROCK);
}

// The layer right under the grass is stone: the generator places no dirt band.
#[test]
fn no_dirt_band_under_the_surface() {
    for z in 1..12 {
        assert_ne!(get_voxel(z, 12), DIRT);
        assert_eq!(get_voxel(z, 12), STONE);
    }
}

#[test]
fn generated_chunk_columns() {
    let grid = generate_chunk_voxel_map(&ChunkCoord { x: 0, y: 0, z: 0 }, 12);
    assert_eq!(grid.len(), VOXELS_IN_CHUNK);
    assert_eq!(at(&grid, 3, 4, 0), BEDROCK);
    assert_eq!(at(&grid, 3, 4, 11), STONE);
    assert_eq!(at(&grid, 3, 4, 12), GRASS);
    assert_eq!(at(&grid, 3, 4, 13), AIR);
    assert_eq!(at(&grid, 31, 31, 31), AIR);
}

#[test]
fn generated_chunk_above_ground_layer() {
    let grid = generate_chunk_voxel_map(&ChunkCoord { x: -3, y: 7, z: 1 }, 40);
    assert_eq!(at(&grid, 0, 0, 7), STONE);
    assert_eq!(at(&grid, 0, 0, 8), GRASS);
    assert_eq!(at(&grid, 0, 0, 9), AIR);
    let below = generate_chunk_voxel_map(&ChunkCoord { x: -3, y: 7, z: -1 }, 40);
    assert!(below.iter().all(|&id| id == STONE));
}

#[test]
fn generation_is_deterministic() {
    let coord = ChunkCoord { x: 2, y: -5, z: 0 };
    let a = generate_chunk_voxel_map(&coord, 14);
    let b = generate_chunk_voxel_map(&coord, 14);
    assert_eq!(a, b);
    let other = generate_chunk_voxel_map(&ChunkCoord { x: 9, y: 9, z: 0 }, 14);
    assert_eq!(a, other);
}
