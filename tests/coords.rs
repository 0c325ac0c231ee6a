use voxel_world::coords::{
    to_voxel_index, Bounds, ChunkCoord, VoxelChunkPosition, VoxelPositionAddError, VoxelWorldPosition,
};
use voxel_world::direction::{DirectionMap, VoxelFaceDirection};

#[test]
fn from_world_coords_floors_negative_inputs() {
    let c = ChunkCoord::from_world_coords(-1, -1, -1);
    assert_eq!(c, ChunkCoord { x: -1, y: -1, z: -1 });
}

#[test]
fn from_world_coords_at_chunk_edges() {
    assert_eq!(ChunkCoord::from_world_coords(0, 31, 32), ChunkCoord { x: 0, y: 0, z: 1 });
    assert_eq!(ChunkCoord::from_world_coords(-32, -33, -64), ChunkCoord { x: -1, y: -2, z: -2 });
    assert_eq!(ChunkCoord::from_world_coords(i32::MIN, i32::MAX, 63), ChunkCoord { x: -67108864, y: 67108863, z: 1 });
}

#[test]
fn chunk_coord_arithmetic() {
    let mut c = ChunkCoord::zero();
    c.add(1, -2, 3);
    assert_eq!(c, ChunkCoord { x: 1, y: -2, z: 3 });
    c.add_x(4);
    c.add_y(5);
    c.add_z(-6);
    assert_eq!(c, ChunkCoord { x: 5, y: 3, z: -3 });
    assert_eq!(c.add_to_new(1, 1, 1), ChunkCoord { x: 6, y: 4, z: -2 });
    assert_eq!(c.add_x_to_new(-5), ChunkCoord { x: 0, y: 3, z: -3 });
    assert_eq!(c.add_y_to_new(-3), ChunkCoord { x: 5, y: 0, z: -3 });
    assert_eq!(c.add_z_to_new(3), ChunkCoord { x: 5, y: 3, z: 0 });
}

#[test]
fn voxel_index_round_trip() {
    assert_eq!(to_voxel_index(1, 2, 3), 1 * 1024 + 2 * 32 + 3);
    let p = VoxelChunkPosition::new(31, 0, 17);
    assert_eq!(p.to_index(), 31 * 1024 + 17);
    let q = VoxelChunkPosition::from_index(p.to_index());
    assert_eq!((q.x(), q.y(), q.z()), (31, 0, 17));
}

#[test]
fn steps_inside_and_across_chunk_faces() {
    let p = VoxelChunkPosition::new(0, 31, 5);
    assert_eq!(p.add_x(1), Ok(VoxelChunkPosition::new(1, 31, 5)));
    assert_eq!(
        p.add_x(-1),
        Err(VoxelPositionAddError::OutOfLowerBound(Bounds::X, VoxelChunkPosition::new(31, 31, 5)))
    );
    assert_eq!(
        p.add_y(1),
        Err(VoxelPositionAddError::OutOfUpperBound(Bounds::Y, VoxelChunkPosition::new(0, 0, 5)))
    );
    assert_eq!(p.add_z(-5), Ok(VoxelChunkPosition::new(0, 31, 0)));
    assert_eq!(p.add_from_direction(&VoxelFaceDirection::Front), Ok(VoxelChunkPosition::new(1, 31, 5)));
    assert_eq!(p.add_from_direction(&VoxelFaceDirection::Top), Ok(VoxelChunkPosition::new(0, 31, 6)));
    assert_eq!(p.add_from_direction(&VoxelFaceDirection::Other), Ok(p));
    assert_eq!(
        p.add_from_direction(&VoxelFaceDirection::Right),
        Err(VoxelPositionAddError::OutOfUpperBound(Bounds::Y, VoxelChunkPosition::new(0, 0, 5)))
    );
}

#[test]
fn world_positions_split_into_chunk_and_local() {
    let w = VoxelWorldPosition::new(-1, 33, -64);
    assert_eq!(w.get_chunk_coord(), ChunkCoord { x: -1, y: 1, z: -2 });
    assert_eq!(w.to_chunk_position(), VoxelChunkPosition::new(31, 1, 0));
    assert_eq!((w.x(), w.y(), w.z()), (-1, 33, -64));
    let back = w.to_chunk_position().to_world_position(&w.get_chunk_coord());
    assert_eq!(back, w);
}

#[test]
fn directions_reverse_and_list() {
    assert_eq!(VoxelFaceDirection::Front.reverse(), VoxelFaceDirection::Back);
    assert_eq!(VoxelFaceDirection::Left.reverse(), VoxelFaceDirection::Right);
    assert_eq!(VoxelFaceDirection::Top.reverse(), VoxelFaceDirection::Bottom);
    assert_eq!(VoxelFaceDirection::Other.reverse(), VoxelFaceDirection::Other);
    assert_eq!(VoxelFaceDirection::to_vec().len(), 6);
    assert_eq!(VoxelFaceDirection::to_vec()[3], VoxelFaceDirection::Right);
}

#[test]
fn direction_map_lookups() {
    let m = DirectionMap::from_slice(&[1u8, 2, 3, 4, 5, 6]);
    assert_eq!(
        (m.get_front(), m.get_back(), m.get_left(), m.get_right(), m.get_top(), m.get_bottom()),
        (1, 2, 3, 4, 5, 6)
    );
    assert_eq!(*m.get_top_ref(), 5);
    assert_eq!(*m.get_front_ref() + *m.get_back_ref() + *m.get_left_ref(), 6);
    assert_eq!(*m.get_right_ref() + *m.get_bottom_ref(), 10);
    assert_eq!(m.get_by_voxel_face_direction(VoxelFaceDirection::Left), Some(3));
    assert_eq!(m.get_by_voxel_face_direction(VoxelFaceDirection::Other), None);
    assert_eq!(m.get_ref_by_voxel_face_direction(&VoxelFaceDirection::Bottom), Some(&6));
    assert_eq!(m.get_ref_by_voxel_face_direction(&VoxelFaceDirection::Other), None);
}
