use voxel_world::catalog::{VoxelCatalog, VoxelFace, VoxelType, AIR, GRASS, STONE};
use voxel_world::coords::{to_voxel_index, VOXELS_IN_CHUNK};
use voxel_world::direction::{DirectionMap, VoxelFaceDirection};
use voxel_world::mesher::{calculate_uv, mesh_chunk, should_draw_face, ChunkMesh, Vertex};

fn no_neighbours<'a>() -> DirectionMap<Option<&'a Vec<u8>>> {
    DirectionMap { front: None, back: None, left: None, right: None, top: None, bottom: None }
}

fn idx(x: u8, y: u8, z: u8) -> usize {
    to_voxel_index(x, y, z) as usize
}

fn assert_indices_valid(mesh: &ChunkMesh) {
    assert_eq!(mesh.vertices.len() % 4, 0);
    assert_eq!(mesh.indices.len() % 3, 0);
    assert!(mesh.indices.iter().all(|&i| (i as usize) < mesh.vertices.len()));
    assert_eq!(mesh.get_vertex_index() as usize, mesh.vertices.len());
}

#[test]
fn isolated_voxel_emits_all_six_faces() {
    let catalog = VoxelCatalog::standard();
    let mut grid = vec![AIR; VOXELS_IN_CHUNK];
    grid[idx(5, 5, 5)] = STONE;
    let mesh = mesh_chunk(&grid, &no_neighbours(), &catalog, 4);
    assert_eq!(mesh.vertices.len(), 24);
    assert_eq!(mesh.indices.len(), 36);
    assert_eq!(mesh.vertices[0], Vertex { x: 6, y: 5, z: 5, u: 0, v: 1 });
    assert_eq!(mesh.indices[0..6], [2, 1, 0, 2, 0, 3]);
    assert_eq!(mesh.indices[6..12], [4, 5, 6, 7, 4, 6]);
    assert_indices_valid(&mesh);
}

#[test]
fn grass_top_face_uses_its_atlas_cell() {
    let catalog = VoxelCatalog::standard();
    let mut grid = vec![AIR; VOXELS_IN_CHUNK];
    grid[idx(0, 0, 0)] = GRASS;
    let mesh = mesh_chunk(&grid, &no_neighbours(), &catalog, 4);
    // Faces come in the order Front, Back, Left, Right, Top, Bottom; top is the fifth.
    assert_eq!(mesh.vertices[16], Vertex { x: 0, y: 0, z: 1, u: 3, v: 2 });
    assert_eq!(mesh.vertices[18], Vertex { x: 1, y: 1, z: 1, u: 4, v: 1 });
    assert_eq!(mesh.indices[24..30], [16, 17, 19, 19, 17, 18]);
}

#[test]
fn enclosed_voxel_emits_nothing() {
    let catalog = VoxelCatalog::standard();
    let mut grid = vec![AIR; VOXELS_IN_CHUNK];
    for x in 10..13 {
        for y in 10..13 {
            for z in 10..13 {
                grid[idx(x, y, z)] = STONE;
            }
        }
    }
    let mesh = mesh_chunk(&grid, &no_neighbours(), &catalog, 4);
    // Only the outer surface of the 3x3x3 block is drawn: 54 faces.
    assert_eq!(mesh.vertices.len(), 54 * 4);
    assert_eq!(mesh.indices.len(), 54 * 6);
    let nbs = no_neighbours();
    for d in VoxelFaceDirection::to_vec() {
        assert!(!should_draw_face(idx(11, 11, 11), &d, &grid, &nbs, &catalog));
    }
    assert_indices_valid(&mesh);
}

#[test]
fn full_chunk_without_neighbours_draws_its_boundary() {
    let catalog = VoxelCatalog::standard();
    let grid = vec![STONE; VOXELS_IN_CHUNK];
    let mesh = mesh_chunk(&grid, &no_neighbours(), &catalog, 4);
    assert_eq!(mesh.vertices.len(), 6 * 1024 * 4);
    assert_indices_valid(&mesh);
}

#[test]
fn neighbouring_grid_hides_boundary_face() {
    let catalog = VoxelCatalog::standard();
    let mut grid = vec![AIR; VOXELS_IN_CHUNK];
    grid[idx(31, 4, 4)] = STONE;
    let mut front = vec![AIR; VOXELS_IN_CHUNK];
    front[idx(0, 4, 4)] = STONE;
    let nbs = DirectionMap { front: Some(&front), back: None, left: None, right: None, top: None, bottom: None };
    assert!(!should_draw_face(idx(31, 4, 4), &VoxelFaceDirection::Front, &grid, &nbs, &catalog));
    assert!(should_draw_face(idx(31, 4, 4), &VoxelFaceDirection::Front, &grid, &no_neighbours(), &catalog));
    let mesh = mesh_chunk(&grid, &nbs, &catalog, 4);
    assert_eq!(mesh.vertices.len(), 5 * 4);
    let lower = mesh_chunk(&grid, &DirectionMap { front: None, back: Some(&front), left: None, right: None, top: None, bottom: None }, &catalog, 4);
    assert_eq!(lower.vertices.len(), 6 * 4);
}

#[test]
fn non_cull_faces_are_always_drawn() {
    let mut face = VoxelFace::front(5);
    face.direction = VoxelFaceDirection::Other;
    let none = DirectionMap { front: false, back: false, left: false, right: false, top: false, bottom: false };
    let all = DirectionMap { front: true, back: true, left: true, right: true, top: true, bottom: true };
    let catalog = VoxelCatalog {
        types: vec![VoxelType::new(vec![], false, all), VoxelType::new(vec![face], true, none)],
    };
    assert!(catalog.types[1].should_draw(&VoxelFaceDirection::Other));
    assert!(!catalog.types[1].should_draw(&VoxelFaceDirection::Top));
    let grid = vec![1u8; VOXELS_IN_CHUNK];
    let mesh = mesh_chunk(&grid, &no_neighbours(), &catalog, 4);
    assert_eq!(mesh.vertices.len(), VOXELS_IN_CHUNK * 4);
    assert_eq!(mesh.vertices[4], Vertex { x: 1, y: 0, z: 1, u: 1, v: 2 });
    assert_indices_valid(&mesh);
}

#[test]
fn uv_lands_in_texture_cell() {
    assert_eq!(calculate_uv(7, 0, 1, 4), (3, 2));
    assert_eq!(calculate_uv(9, 1, 0, 4), (2, 2));
    assert_eq!(calculate_uv(0, 1, 1, 4), (1, 1));
}

#[test]
fn standard_catalog_shape() {
    let catalog = VoxelCatalog::standard();
    assert_eq!(catalog.len(), 5);
    assert!(catalog.types[AIR as usize].faces.is_empty());
    assert_eq!(catalog.types[STONE as usize].faces.len(), 6);
    assert_eq!(catalog.types[GRASS as usize].faces[4].texture, 7);
    assert_eq!(catalog.types[GRASS as usize].faces[5].texture, 1);
    let faces = VoxelFace::block_faces([1, 2, 3, 4, 5, 6]);
    assert_eq!(faces[5].direction, VoxelFaceDirection::Bottom);
    assert_eq!(faces[5].texture, 6);
    assert_eq!(VoxelFace::back(0).indices, vec![0, 1, 2, 3, 0, 2]);
    assert_eq!(VoxelFace::left(0).vertices[2].x, 1);
    assert_eq!(VoxelFace::right(0).vertices[0].y, 1);
    assert_eq!(VoxelFace::bottom(0).indices, vec![3, 1, 0, 2, 1, 3]);
    assert_eq!(VoxelFace::top(0).vertices[3].z, 1);
}
