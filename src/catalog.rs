use vstd::prelude::*;
use crate::direction::{DirectionMap, VoxelFaceDirection};

verus! {

/// Most faces a voxel type may have: one per cardinal direction and one that
/// is always drawn.
pub const MAX_FACES_PER_VOXEL: usize = 7;

/// A corner of a face: its position on the unit cube and its texture
/// coordinate inside one atlas cell, each component 0 or 1.
#[derive(Clone, Copy, Debug, PartialEq, Eq, Structural)]
pub struct FaceVertex {
    pub x: u8,
    pub y: u8,
    pub z: u8,
    pub u: u8,
    pub v: u8,
}

pub open spec fn fv(x: u8, y: u8, z: u8, u: u8, v: u8) -> FaceVertex {
    FaceVertex { x, y, z, u, v }
}

/// One quad of a voxel: four corners, two triangles over them, and the atlas
/// cell of its texture.
#[derive(Debug)]
pub struct VoxelFace {
    pub direction: VoxelFaceDirection,
    pub vertices: Vec<FaceVertex>,
    pub indices: Vec<u32>,
    pub texture: u16,
}

impl VoxelFace {
    /// Four unit-cube corners, six triangle indices into them.
    pub open spec fn wf(&self) -> bool {
        &&& self.vertices@.len() == 4
        &&& self.indices@.len() == 6
        &&& forall|k: int|
            0 <= k < 4 ==> {
                let c = #[trigger] self.vertices@[k];
                c.x <= 1 && c.y <= 1 && c.z <= 1 && c.u <= 1 && c.v <= 1
            }
        &&& forall|k: int| 0 <= k < 6 ==> #[trigger] self.indices@[k] < 4
    }

    fn quad(
        direction: VoxelFaceDirection,
        corners: [FaceVertex; 4],
        indices: [u32; 6],
        texture: u16,
    ) -> (r: Self)
        ensures
            r.direction == direction,
            r.texture == texture,
            r.vertices@ == corners@,
            r.indices@ == indices@,
    {
        let mut vertices: Vec<FaceVertex> = Vec::new();
        let mut i: usize = 0;
        while i < 4
            invariant
                0 <= i <= 4,
                vertices@ == corners@.subrange(0, i as int),
            decreases 4 - i,
        {
            vertices.push(corners[i]);
            i += 1;
        }
        let mut idx: Vec<u32> = Vec::new();
        let mut j: usize = 0;
        while j < 6
            invariant
                0 <= j <= 6,
                idx@ == indices@.subrange(0, j as int),
            decreases 6 - j,
        {
            idx.push(indices[j]);
            j += 1;
        }
        assert(vertices@ =~= corners@);
        assert(idx@ =~= indices@);
        Self { direction, vertices, indices: idx, texture }
    }

    pub fn back(texture: u16) -> (r: Self)
        ensures
            r.wf(),
            r.direction == VoxelFaceDirection::Back,
            r.texture == texture,
            r.vertices@ == seq![fv(0, 0, 0, 1, 1), fv(0, 0, 1, 1, 0), fv(0, 1, 1, 0, 0), fv(0, 1, 0, 0, 1)],
            r.indices@ == seq![0u32, 1, 2, 3, 0, 2],
    {
        let corners = [
            FaceVertex { x: 0, y: 0, z: 0, u: 1, v: 1 },
            FaceVertex { x: 0, y: 0, z: 1, u: 1, v: 0 },
            FaceVertex { x: 0, y: 1, z: 1, u: 0, v: 0 },
            FaceVertex { x: 0, y: 1, z: 0, u: 0, v: 1 },
        ];
        let r = Self::quad(VoxelFaceDirection::Back, corners, [0, 1, 2, 3, 0, 2], texture);
        assert(r.vertices@ =~= seq![fv(0, 0, 0, 1, 1), fv(0, 0, 1, 1, 0), fv(0, 1, 1, 0, 0), fv(0, 1, 0, 0, 1)]);
        assert(r.indices@ =~= seq![0u32, 1, 2, 3, 0, 2]);
        r
    }

    pub fn front(texture: u16) -> (r: Self)
        ensures
            r.wf(),
            r.direction == VoxelFaceDirection::Front,
            r.texture == texture,
            r.vertices@ == seq![fv(1, 0, 0, 0, 1), fv(1, 0, 1, 0, 0), fv(1, 1, 1, 1, 0), fv(1, 1, 0, 1, 1)],
            r.indices@ == seq![2u32, 1, 0, 2, 0, 3],
    {
        let corners = [
            FaceVertex { x: 1, y: 0, z: 0, u: 0, v: 1 },
            FaceVertex { x: 1, y: 0, z: 1, u: 0, v: 0 },
            FaceVertex { x: 1, y: 1, z: 1, u: 1, v: 0 },
            FaceVertex { x: 1, y: 1, z: 0, u: 1, v: 1 },
        ];
        let r = Self::quad(VoxelFaceDirection::Front, corners, [2, 1, 0, 2, 0, 3], texture);
        assert(r.vertices@ =~= seq![fv(1, 0, 0, 0, 1), fv(1, 0, 1, 0, 0), fv(1, 1, 1, 1, 0), fv(1, 1, 0, 1, 1)]);
        assert(r.indices@ =~= seq![2u32, 1, 0, 2, 0, 3]);
        r
    }

    pub fn top(texture: u16) -> (r: Self)
        ensures
            r.wf(),
            r.direction == VoxelFaceDirection::Top,
            r.texture == texture,
            r.vertices@ == seq![fv(0, 0, 1, 0, 1), fv(1, 0, 1, 0, 0), fv(1, 1, 1, 1, 0), fv(0, 1, 1, 1, 1)],
            r.indices@ == seq![0u32, 1, 3, 3, 1, 2],
    {
        let corners = [
            FaceVertex { x: 0, y: 0, z: 1, u: 0, v: 1 },
            FaceVertex { x: 1, y: 0, z: 1, u: 0, v: 0 },
            FaceVertex { x: 1, y: 1, z: 1, u: 1, v: 0 },
            FaceVertex { x: 0, y: 1, z: 1, u: 1, v: 1 },
        ];
        let r = Self::quad(VoxelFaceDirection::Top, corners, [0, 1, 3, 3, 1, 2], texture);
        assert(r.vertices@ =~= seq![fv(0, 0, 1, 0, 1), fv(1, 0, 1, 0, 0), fv(1, 1, 1, 1, 0), fv(0, 1, 1, 1, 1)]);
        assert(r.indices@ =~= seq![0u32, 1, 3, 3, 1, 2]);
        r
    }

    pub fn bottom(texture: u16) -> (r: Self)
        ensures
            r.wf(),
            r.direction == VoxelFaceDirection::Bottom,
            r.texture == texture,
            r.vertices@ == seq![fv(0, 0, 0, 0, 1), fv(1, 0, 0, 0, 0), fv(1, 1, 0, 1, 0), fv(0, 1, 0, 1, 1)],
            r.indices@ == seq![3u32, 1, 0, 2, 1, 3],
    {
        let corners = [
            FaceVertex { x: 0, y: 0, z: 0, u: 0, v: 1 },
            FaceVertex { x: 1, y: 0, z: 0, u: 0, v: 0 },
            FaceVertex { x: 1, y: 1, z: 0, u: 1, v: 0 },
            FaceVertex { x: 0, y: 1, z: 0, u: 1, v: 1 },
        ];
        let r = Self::quad(VoxelFaceDirection::Bottom, corners, [3, 1, 0, 2, 1, 3], texture);
        assert(r.vertices@ =~= seq![fv(0, 0, 0, 0, 1), fv(1, 0, 0, 0, 0), fv(1, 1, 0, 1, 0), fv(0, 1, 0, 1, 1)]);
        assert(r.indices@ =~= seq![3u32, 1, 0, 2, 1, 3]);
        r
    }

    pub fn left(texture: u16) -> (r: Self)
        ensures
            r.wf(),
            r.direction == VoxelFaceDirection::Left,
            r.texture == texture,
            r.vertices@ == seq![fv(0, 0, 0, 0, 1), fv(0, 0, 1, 0, 0), fv(1, 0, 1, 1, 0), fv(1, 0, 0, 1, 1)],
            r.indices@ == seq![2u32, 1, 0, 2, 0, 3],
    {
        let corners = [
            FaceVertex { x: 0, y: 0, z: 0, u: 0, v: 1 },
            FaceVertex { x: 0, y: 0, z: 1, u: 0, v: 0 },
            FaceVertex { x: 1, y: 0, z: 1, u: 1, v: 0 },
            FaceVertex { x: 1, y: 0, z: 0, u: 1, v: 1 },
        ];
        let r = Self::quad(VoxelFaceDirection::Left, corners, [2, 1, 0, 2, 0, 3], texture);
        assert(r.vertices@ =~= seq![fv(0, 0, 0, 0, 1), fv(0, 0, 1, 0, 0), fv(1, 0, 1, 1, 0), fv(1, 0, 0, 1, 1)]);
        assert(r.indices@ =~= seq![2u32, 1, 0, 2, 0, 3]);
        r
    }

    pub fn right(texture: u16) -> (r: Self)
        ensures
            r.wf(),
            r.direction == VoxelFaceDirection::Right,
            r.texture == texture,
            r.vertices@ == seq![fv(0, 1, 0, 1, 1), fv(0, 1, 1, 1, 0), fv(1, 1, 1, 0, 0), fv(1, 1, 0, 0, 1)],
            r.indices@ == seq![0u32, 1, 2, 3, 0, 2],
    {
        let corners = [
            FaceVertex { x: 0, y: 1, z: 0, u: 1, v: 1 },
            FaceVertex { x: 0, y: 1, z: 1, u: 1, v: 0 },
            FaceVertex { x: 1, y: 1, z: 1, u: 0, v: 0 },
            FaceVertex { x: 1, y: 1, z: 0, u: 0, v: 1 },
        ];
        let r = Self::quad(VoxelFaceDirection::Right, corners, [0, 1, 2, 3, 0, 2], texture);
        assert(r.vertices@ =~= seq![fv(0, 1, 0, 1, 1), fv(0, 1, 1, 1, 0), fv(1, 1, 1, 0, 0), fv(1, 1, 0, 0, 1)]);
        assert(r.indices@ =~= seq![0u32, 1, 2, 3, 0, 2]);
        r
    }

    /// The six faces of a full block, in the order Front, Back, Left, Right, Top,
    /// Bottom, with the textures given in that order.
    pub fn block_faces(textures: [u16; 6]) -> (r: Vec<Self>)
        ensures
            r@.len() == 6,
            forall|k: int| 0 <= k < 6 ==> (#[trigger] r@[k]).wf() && r@[k].texture == textures@[k],
            r@[0].direction == VoxelFaceDirection::Front,
            r@[1].direction == VoxelFaceDirection::Back,
            r@[2].direction == VoxelFaceDirection::Left,
            r@[3].direction == VoxelFaceDirection::Right,
            r@[4].direction == VoxelFaceDirection::Top,
            r@[5].direction == VoxelFaceDirection::Bottom,
            r@[0].vertices@ == seq![fv(1, 0, 0, 0, 1), fv(1, 0, 1, 0, 0), fv(1, 1, 1, 1, 0), fv(1, 1, 0, 1, 1)],
            r@[0].indices@ == seq![2u32, 1, 0, 2, 0, 3],
            r@[1].vertices@ == seq![fv(0, 0, 0, 1, 1), fv(0, 0, 1, 1, 0), fv(0, 1, 1, 0, 0), fv(0, 1, 0, 0, 1)],
            r@[1].indices@ == seq![0u32, 1, 2, 3, 0, 2],
            r@[2].vertices@ == seq![fv(0, 0, 0, 0, 1), fv(0, 0, 1, 0, 0), fv(1, 0, 1, 1, 0), fv(1, 0, 0, 1, 1)],
            r@[2].indices@ == seq![2u32, 1, 0, 2, 0, 3],
            r@[3].vertices@ == seq![fv(0, 1, 0, 1, 1), fv(0, 1, 1, 1, 0), fv(1, 1, 1, 0, 0), fv(1, 1, 0, 0, 1)],
            r@[3].indices@ == seq![0u32, 1, 2, 3, 0, 2],
            r@[4].vertices@ == seq![fv(0, 0, 1, 0, 1), fv(1, 0, 1, 0, 0), fv(1, 1, 1, 1, 0), fv(0, 1, 1, 1, 1)],
            r@[4].indices@ == seq![0u32, 1, 3, 3, 1, 2],
            r@[5].vertices@ == seq![fv(0, 0, 0, 0, 1), fv(1, 0, 0, 0, 0), fv(1, 1, 0, 1, 0), fv(0, 1, 0, 1, 1)],
            r@[5].indices@ == seq![3u32, 1, 0, 2, 1, 3],
    {
        let mut faces: Vec<Self> = Vec::new();
        faces.push(Self::front(textures[0]));
        faces.push(Self::back(textures[1]));
        faces.push(Self::left(textures[2]));
        faces.push(Self::right(textures[3]));
        faces.push(Self::top(textures[4]));
        faces.push(Self::bottom(textures[5]));
        faces
    }
}

/// One entry of the catalog: the faces of a voxel type, whether it collides,
/// and for each direction whether a voxel that has this one on that side must
/// still draw the face it turns toward it.
#[derive(Debug)]
pub struct VoxelType {
    pub faces: Vec<VoxelFace>,
    pub collidable: bool,
    pub draw_neighbours: DirectionMap<bool>,
}

/// Whether a type draws against `d`; the non-cull direction always does.
pub open spec fn draws(t: VoxelType, d: VoxelFaceDirection) -> bool {
    match t.draw_neighbours.get_spec(d) {
        Some(b) => b,
        None => true,
    }
}

impl VoxelType {
    pub open spec fn wf(&self) -> bool {
        &&& self.faces@.len() <= MAX_FACES_PER_VOXEL
        &&& forall|k: int| 0 <= k < self.faces@.len() ==> (#[trigger] self.faces@[k]).wf()
    }

    pub fn new(faces: Vec<VoxelFace>, collidable: bool, draw_neighbours: DirectionMap<bool>) -> (r:
        Self)
        ensures
            r.faces@ == faces@,
            r.collidable == collidable,
            r.draw_neighbours == draw_neighbours,
    {
        Self { faces, collidable, draw_neighbours }
    }

    pub fn should_draw(&self, direction: &VoxelFaceDirection) -> (r: bool)
        ensures
            r == draws(*self, *direction),
    {
        match self.draw_neighbours.get_ref_by_voxel_face_direction(direction) {
            Some(b) => *b,
            None => true,
        }
    }
}

/// Id of empty space; it is never meshed.
pub const AIR: u8 = 0;

pub const GRASS: u8 = 1;

pub const STONE: u8 = 2;

pub const DIRT: u8 = 3;

pub const BEDROCK: u8 = 4;

/// The voxel types, indexed by voxel id.
#[derive(Debug)]
pub struct VoxelCatalog {
    pub types: Vec<VoxelType>,
}

impl VoxelCatalog {
    /// Air exists, every id fits a byte, and every type is well formed.
    pub open spec fn wf(&self) -> bool {
        &&& 1 <= self.types@.len() <= 256
        &&& forall|k: int| 0 <= k < self.types@.len() ==> (#[trigger] self.types@[k]).wf()
    }

    /// Every id of `grid` has an entry.
    pub open spec fn covers(&self, grid: Seq<u8>) -> bool {
        forall|i: int| 0 <= i < grid.len() ==> (#[trigger] grid[i]) < self.types@.len()
    }

    /// Air, grass, stone, dirt and bedrock, under the ids `AIR` to `BEDROCK`.
    /// Air has no faces and lets every neighbour draw; the others are full
    /// blocks that hide the faces of their neighbours.
    pub fn standard() -> (r: Self)
        ensures
            r.wf(),
            r.types@.len() == 5,
            r.types@[AIR as int].faces@.len() == 0,
            forall|d: VoxelFaceDirection| draws(#[trigger] r.types@[AIR as int], d),
            forall|k: int, d: VoxelFaceDirection|
                1 <= k < 5 && d != VoxelFaceDirection::Other ==> !#[trigger] draws(r.types@[k], d),
            forall|k: int| 1 <= k < 5 ==> (#[trigger] r.types@[k]).faces@.len() == 6,
    {
        let all = DirectionMap { front: true, back: true, left: true, right: true, top: true, bottom: true };
        let none = DirectionMap {
            front: false,
            back: false,
            left: false,
            right: false,
            top: false,
            bottom: false,
        };
        let mut types: Vec<VoxelType> = Vec::new();
        types.push(VoxelType::new(Vec::new(), false, all));
        types.push(VoxelType::new(VoxelFace::block_faces([2, 2, 2, 2, 7, 1]), true, none));
        types.push(VoxelType::new(VoxelFace::block_faces([0, 0, 0, 0, 0, 0]), true, none));
        types.push(VoxelType::new(VoxelFace::block_faces([1, 1, 1, 1, 1, 1]), true, none));
        types.push(VoxelType::new(VoxelFace::block_faces([9, 9, 9, 9, 9, 9]), true, none));
        Self { types }
    }

    pub fn len(&self) -> (r: usize)
        ensures
            r == self.types@.len(),
    {
        self.types.len()
    }
}

} // verus!
