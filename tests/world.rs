use std::cell::Cell;
use voxel_world::catalog::{VoxelCatalog, GRASS};
use voxel_world::coords::{to_voxel_index, ChunkCoord};
use voxel_world::world::{DrawCall, World};

fn flat(_x: i64, _y: i64) -> i32 {
    12
}

fn new_world(view_distance: i32) -> World {
    World::new(view_distance, false, VoxelCatalog::standard(), 4, 1 << 30, 1 << 30)
}

fn visible_coords(world: &World) -> Vec<ChunkCoord> {
    let mut v: Vec<ChunkCoord> = Vec::new();
    for i in 0..world.chunks_len() {
        let ch = world.get_chunk_by_index(i).unwrap();
        if ch.visible {
            v.push(ch.coord);
        }
    }
    v
}

#[test]
fn first_view_loads_the_square_around_the_player() {
    let mut world = new_world(2);
    world.update_view(5, 5, 5, &flat);
    assert_eq!(world.chunks_len(), 25);
    for x in -2..=2 {
        for y in -2..=2 {
            let ch = world.get_chunk(&ChunkCoord { x, y, z: 0 }).unwrap();
            assert!(ch.visible);
        }
    }
    assert_eq!(visible_coords(&world).len(), 25);
    assert_eq!(world.previously_visible.len(), 25);
    assert_eq!(world.last_player_chunk, Some(ChunkCoord { x: 0, y: 0, z: 0 }));
}

#[test]
fn moving_one_chunk_shifts_the_visible_square() {
    let mut world = new_world(2);
    world.update_view(5, 5, 5, &flat);
    world.update_view(40, 5, 5, &flat);
    assert_eq!(world.chunks_len(), 30);
    for y in -2..=2 {
        assert!(!world.get_chunk(&ChunkCoord { x: -2, y, z: 0 }).unwrap().visible);
        assert!(world.get_chunk(&ChunkCoord { x: 3, y, z: 0 }).unwrap().visible);
        for x in -1..=2 {
            assert!(world.get_chunk(&ChunkCoord { x, y, z: 0 }).unwrap().visible);
        }
    }
    assert_eq!(visible_coords(&world).len(), 25);
    assert_eq!(world.last_player_chunk, Some(ChunkCoord { x: 1, y: 0, z: 0 }));
}

#[test]
fn staying_in_a_chunk_does_no_work() {
    let calls = Cell::new(0usize);
    let spy = |_x: i64, _y: i64| -> i32 {
        calls.set(calls.get() + 1);
        12
    };
    let mut world = new_world(1);
    world.update_view(3, 3, 3, &spy);
    assert_eq!(calls.get(), 9);
    let used = world.vertex_buffer.used_regions.len();
    world.update_view(30, 1, 20, &spy);
    world.update_view(0, 31, 31, &spy);
    assert_eq!(calls.get(), 9);
    assert_eq!(world.chunks_len(), 9);
    assert_eq!(world.vertex_buffer.used_regions.len(), used);
    world.update_view(-1, 3, 3, &spy);
    assert_eq!(calls.get(), 12);
}

#[test]
fn returning_reuses_loaded_chunks() {
    let calls = Cell::new(0usize);
    let spy = |_x: i64, _y: i64| -> i32 {
        calls.set(calls.get() + 1);
        12
    };
    let mut world = new_world(1);
    world.update_view(3, 3, 3, &spy);
    world.update_view(35, 3, 3, &spy);
    world.update_view(3, 3, 3, &spy);
    assert_eq!(calls.get(), 12);
    assert_eq!(world.chunks_len(), 12);
    assert_eq!(visible_coords(&world).len(), 9);
    assert!(!world.get_chunk(&ChunkCoord { x: 2, y: 0, z: 0 }).unwrap().visible);
}

#[test]
fn terrain_height_is_asked_for_each_chunk_origin() {
    let mut world = new_world(0);
    world.update_view(-40, 70, 0, &|x: i64, y: i64| -> i32 { (x + y) as i32 });
    let ch = world.get_chunk(&ChunkCoord { x: -2, y: 2, z: 0 }).unwrap();
    assert_eq!(ch.terrain_height, 0);
    world.update_view(70, 70, 0, &|x: i64, y: i64| -> i32 { ((x + y) / 32) as i32 });
    let ch = world.get_chunk(&ChunkCoord { x: 2, y: 2, z: 0 }).unwrap();
    assert_eq!(ch.terrain_height, 4);
    assert_eq!(ch.voxel_map[to_voxel_index(0, 0, 4) as usize], GRASS);
}

#[test]
fn unknown_chunk_is_not_found() {
    let mut world = new_world(1);
    assert!(world.get_chunk(&ChunkCoord::zero()).is_none());
    world.update_view(0, 0, 0, &flat);
    assert!(world.get_chunk(&ChunkCoord { x: 5, y: 0, z: 0 }).is_none());
    assert!(world.grid_at(&ChunkCoord { x: 5, y: 0, z: 0 }).is_none());
    assert!(world.grid_at(&ChunkCoord { x: 1, y: 1, z: 0 }).is_some());
    assert!(world.get_chunk_by_index(9).is_none());
}

#[test]
fn chunk_meshes_get_buffer_ranges_of_their_size() {
    let mut world = new_world(1);
    world.update_view(0, 0, 0, &flat);
    let ch = world.get_chunk(&ChunkCoord::zero()).unwrap();
    let v = ch.vertex_region.unwrap();
    let i = ch.index_region.unwrap();
    assert_eq!(v.size, ch.mesh.vertices.len() * 20);
    assert_eq!(i.size, ch.mesh.indices.len() * 4);
    assert!(!ch.mesh.vertices.is_empty());
}

#[test]
fn mesh_that_finds_no_room_stays_without_range() {
    let mut world = World::new(0, false, VoxelCatalog::standard(), 4, 16, 16);
    world.update_view(0, 0, 0, &flat);
    let ch = world.get_chunk(&ChunkCoord::zero()).unwrap();
    assert!(ch.vertex_region.is_none());
    assert!(ch.index_region.is_none());
    assert!(ch.visible);
}

#[test]
fn draw_calls_list_visible_placed_chunks() {
    let mut world = new_world(1);
    world.update_view(0, 0, 0, &flat);
    world.update_view(40, 0, 0, &flat);
    let calls = world.draw_calls();
    assert_eq!(calls.len(), 9);
    assert!(calls.iter().all(|c| c.coord.x >= 0 && c.coord.x <= 2));
    // Chunks load row by row from x = -1, which is now hidden.
    let first = ChunkCoord { x: 0, y: -1, z: 0 };
    let ch = world.get_chunk(&first).unwrap();
    let expected = DrawCall {
        coord: first,
        vertex_offset: ch.vertex_region.unwrap().offset,
        index_offset: ch.index_region.unwrap().offset,
        index_count: ch.mesh.indices.len(),
    };
    assert_eq!(calls[0], expected);
}

#[test]
fn no_draw_calls_without_room() {
    let mut world = World::new(0, false, VoxelCatalog::standard(), 4, 16, 16);
    world.update_view(0, 0, 0, &flat);
    assert!(world.draw_calls().is_empty());
}

#[test]
fn vertical_streaming_loads_a_cube() {
    let mut world = World::new(1, true, VoxelCatalog::standard(), 4, 1 << 30, 1 << 30);
    world.update_view(5, 5, 40, &flat);
    assert_eq!(world.chunks_len(), 27);
    for z in 0..=2 {
        assert!(world.get_chunk(&ChunkCoord { x: -1, y: 1, z }).unwrap().visible);
    }
    world.update_view(5, 5, 70, &flat);
    assert_eq!(world.chunks_len(), 36);
    assert!(!world.get_chunk(&ChunkCoord { x: 0, y: 0, z: 0 }).unwrap().visible);
    assert!(world.get_chunk(&ChunkCoord { x: 0, y: 0, z: 3 }).unwrap().visible);
    assert_eq!(visible_coords(&world).len(), 27);
}

#[test]
fn remesh_hides_faces_toward_new_neighbours_and_reuses_the_range() {
    let mut world = new_world(1);
    world.update_view(0, 0, 0, &flat);
    let corner = ChunkCoord { x: -1, y: -1, z: 0 };
    let (before, old_offset) = {
        let ch = world.get_chunk(&corner).unwrap();
        (ch.mesh.vertices.len(), ch.vertex_region.unwrap().offset)
    };
    assert!(world.remesh_chunk(&corner));
    let ch = world.get_chunk(&corner).unwrap();
    // The faces toward x = 0 and y = 0 (13 solid layers of 32 columns each) are now hidden.
    assert_eq!(ch.mesh.vertices.len(), before - 2 * 13 * 32 * 4);
    assert_eq!(ch.vertex_region.unwrap().offset, old_offset);
    assert_eq!(ch.vertex_region.unwrap().size, ch.mesh.vertices.len() * 20);
    assert!(ch.visible);
    assert!(!world.remesh_chunk(&ChunkCoord { x: 7, y: 7, z: 7 }));
}
