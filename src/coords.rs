use vstd::prelude::*;
use crate::direction::{VoxelFaceDirection, step_spec};

verus! {

/// Edge length of a chunk, in voxels.
pub const CHUNK_SIZE: usize = 32;

/// Number of voxels in one chunk.
pub const VOXELS_IN_CHUNK: usize = 32768;

/// Floor division of a world coordinate by the chunk edge length (`int`
/// division is Euclidean, which for a positive divisor rounds toward negative
/// infinity).
pub open spec fn chunk_of(w: int) -> int {
    w / 32
}

/// Flat index of the voxel at `(x, y, z)` in a chunk grid.
pub open spec fn index_spec(x: int, y: int, z: int) -> int {
    x * 1024 + y * 32 + z
}

/// Position of a chunk in chunk space.
#[derive(Clone, Copy, Debug, PartialEq, Eq, Hash, Structural)]
pub struct ChunkCoord {
    pub x: i32,
    pub y: i32,
    pub z: i32,
}

impl ChunkCoord {
    pub fn zero() -> (r: Self)
        ensures
            r.x == 0 && r.y == 0 && r.z == 0,
    {
        Self { x: 0, y: 0, z: 0 }
    }

    /// The chunk that holds the world voxel `(x, y, z)`.
    pub fn from_world_coords(x: i32, y: i32, z: i32) -> (r: Self)
        ensures
            r.x == chunk_of(x as int),
            r.y == chunk_of(y as int),
            r.z == chunk_of(z as int),
    {
        Self { x: floor_div_chunk(x), y: floor_div_chunk(y), z: floor_div_chunk(z) }
    }

    pub fn add(&mut self, x: i32, y: i32, z: i32)
        requires
            i32::MIN <= old(self).x + x <= i32::MAX,
            i32::MIN <= old(self).y + y <= i32::MAX,
            i32::MIN <= old(self).z + z <= i32::MAX,
        ensures
            final(self).x == old(self).x + x,
            final(self).y == old(self).y + y,
            final(self).z == old(self).z + z,
    {
        self.x = self.x + x;
        self.y = self.y + y;
        self.z = self.z + z;
    }

    pub fn add_x(&mut self, x: i32)
        requires
            i32::MIN <= old(self).x + x <= i32::MAX,
        ensures
            *final(self) == (ChunkCoord { x: (old(self).x + x) as i32, ..*old(self) }),
    {
        self.x = self.x + x;
    }

    pub fn add_y(&mut self, y: i32)
        requires
            i32::MIN <= old(self).y + y <= i32::MAX,
        ensures
            *final(self) == (ChunkCoord { y: (old(self).y + y) as i32, ..*old(self) }),
    {
        self.y = self.y + y;
    }

    pub fn add_z(&mut self, z: i32)
        requires
            i32::MIN <= old(self).z + z <= i32::MAX,
        ensures
            *final(self) == (ChunkCoord { z: (old(self).z + z) as i32, ..*old(self) }),
    {
        self.z = self.z + z;
    }

    pub fn add_to_new(&self, x: i32, y: i32, z: i32) -> (r: Self)
        requires
            i32::MIN <= self.x + x <= i32::MAX,
            i32::MIN <= self.y + y <= i32::MAX,
            i32::MIN <= self.z + z <= i32::MAX,
        ensures
            r.x == self.x + x,
            r.y == self.y + y,
            r.z == self.z + z,
    {
        Self { x: self.x + x, y: self.y + y, z: self.z + z }
    }

    pub fn add_x_to_new(&self, x: i32) -> (r: Self)
        requires
            i32::MIN <= self.x + x <= i32::MAX,
        ensures
            r == (ChunkCoord { x: (self.x + x) as i32, ..*self }),
    {
        Self { x: self.x + x, y: self.y, z: self.z }
    }

    pub fn add_y_to_new(&self, y: i32) -> (r: Self)
        requires
            i32::MIN <= self.y + y <= i32::MAX,
        ensures
            r == (ChunkCoord { y: (self.y + y) as i32, ..*self }),
    {
        Self { x: self.x, y: self.y + y, z: self.z }
    }

    pub fn add_z_to_new(&self, z: i32) -> (r: Self)
        requires
            i32::MIN <= self.z + z <= i32::MAX,
        ensures
            r == (ChunkCoord { z: (self.z + z) as i32, ..*self }),
    {
        Self { x: self.x, y: self.y, z: self.z + z }
    }
}

/// `w` divided by the chunk edge length, rounded toward negative infinity.
fn floor_div_chunk(w: i32) -> (r: i32)
    ensures
        r == chunk_of(w as int),
{
    if w >= 0 {
        (w as u32 / 32) as i32
    } else {
        let n = (-(w as i64) - 1) as u32;
        let q = n / 32;
        -(q as i32) - 1
    }
}

/// Flat index of the voxel at `(x, y, z)` in a chunk grid.
pub fn to_voxel_index(x: u8, y: u8, z: u8) -> (r: u32)
    requires
        x < 32 && y < 32 && z < 32,
    ensures
        r == index_spec(x as int, y as int, z as int),
{
    x as u32 * 1024 + y as u32 * 32 + z as u32
}

/// The grid position next to `(x, y, z)` across `direction`, or
/// `(u8::MAX, u8::MAX, u8::MAX)` when that position lies in another chunk.
pub fn get_neighbour_voxel_position(x: u8, y: u8, z: u8, direction: VoxelFaceDirection) -> (r: (
    u8,
    u8,
    u8,
))
    requires
        x < 32 && y < 32 && z < 32,
    ensures
        ({
            let (dx, dy, dz) = step_spec(direction);
            let (nx, ny, nz) = (x + dx, y + dy, z + dz);
            if 0 <= nx < 32 && 0 <= ny < 32 && 0 <= nz < 32 {
                r == (nx as u8, ny as u8, nz as u8)
            } else {
                r == (u8::MAX, u8::MAX, u8::MAX)
            }
        }),
{
    let outside = (u8::MAX, u8::MAX, u8::MAX);
    match direction {
        VoxelFaceDirection::Back => {
            if x == 0 {
                return outside;
            }
            (x - 1, y, z)
        },
        VoxelFaceDirection::Front => {
            if x == 31 {
                return outside;
            }
            (x + 1, y, z)
        },
        VoxelFaceDirection::Left => {
            if y == 0 {
                return outside;
            }
            (x, y - 1, z)
        },
        VoxelFaceDirection::Right => {
            if y == 31 {
                return outside;
            }
            (x, y + 1, z)
        },
        VoxelFaceDirection::Bottom => {
            if z == 0 {
                return outside;
            }
            (x, y, z - 1)
        },
        VoxelFaceDirection::Top => {
            if z == 31 {
                return outside;
            }
            (x, y, z + 1)
        },
        VoxelFaceDirection::Other => (x, y, z),
    }
}

/// Position of a voxel inside its chunk.
#[derive(Clone, Copy, Debug, PartialEq, Eq, Structural)]
pub struct VoxelChunkPosition {
    pub x: u8,
    pub y: u8,
    pub z: u8,
}

/// The axis along which a step left the chunk.
#[derive(Clone, Copy, Debug, PartialEq, Eq, Structural)]
pub enum Bounds {
    X,
    Y,
    Z,
}

/// A step that left the chunk, with the position it reaches in the neighbouring
/// chunk on that side.
#[derive(Clone, Copy, Debug, PartialEq, Eq, Structural)]
pub enum VoxelPositionAddError {
    OutOfLowerBound(Bounds, VoxelChunkPosition),
    OutOfUpperBound(Bounds, VoxelChunkPosition),
}

/// The outcome of moving one coordinate of a chunk position to `n`: inside the
/// chunk, or past its lower or upper face, with the coordinate wrapped into the
/// neighbouring chunk.
pub open spec fn moved(
    p: VoxelChunkPosition,
    axis: Bounds,
    n: int,
) -> Result<VoxelChunkPosition, VoxelPositionAddError> {
    let w = (n % 32) as u8;
    let q = match axis {
        Bounds::X => VoxelChunkPosition { x: w, ..p },
        Bounds::Y => VoxelChunkPosition { y: w, ..p },
        Bounds::Z => VoxelChunkPosition { z: w, ..p },
    };
    if n < 0 {
        Err(VoxelPositionAddError::OutOfLowerBound(axis, q))
    } else if n >= 32 {
        Err(VoxelPositionAddError::OutOfUpperBound(axis, q))
    } else {
        Ok(q)
    }
}

/// The position one step from `p` across the face `d`, as `add_from_direction`
/// gives it.
pub open spec fn step_from(p: VoxelChunkPosition, d: VoxelFaceDirection) -> Result<
    VoxelChunkPosition,
    VoxelPositionAddError,
> {
    let (dx, dy, dz) = step_spec(d);
    if dx != 0 {
        moved(p, Bounds::X, p.x + dx)
    } else if dy != 0 {
        moved(p, Bounds::Y, p.y + dy)
    } else if dz != 0 {
        moved(p, Bounds::Z, p.z + dz)
    } else {
        Ok(p)
    }
}

/// `c` moved by `n`, wrapped into `[0, 32)`.
fn wrap_coordinate(c: u8, n: i8) -> (r: (i16, u8))
    requires
        c < 32,
    ensures
        r.0 == c + n,
        r.1 == (c + n) % 32,
{
    let s: i16 = c as i16 + n as i16;
    let w: u8 = ((s + 160) as u16 % 32) as u8;
    (s, w)
}

impl VoxelChunkPosition {
    /// All coordinates lie inside the chunk.
    pub open spec fn wf(self) -> bool {
        self.x < 32 && self.y < 32 && self.z < 32
    }

    pub open spec fn index(self) -> int {
        index_spec(self.x as int, self.y as int, self.z as int)
    }

    pub fn new(x: u8, y: u8, z: u8) -> (r: Self)
        requires
            x < 32 && y < 32 && z < 32,
        ensures
            r == (VoxelChunkPosition { x, y, z }),
            r.wf(),
    {
        Self { x, y, z }
    }

    /// The world position of this voxel when it lies in chunk `chunk_coord`.
    pub fn to_world_position(&self, chunk_coord: &ChunkCoord) -> (r: VoxelWorldPosition)
        requires
            i32::MIN <= chunk_coord.x * 32 + self.x <= i32::MAX,
            i32::MIN <= chunk_coord.y * 32 + self.y <= i32::MAX,
            i32::MIN <= chunk_coord.z * 32 + self.z <= i32::MAX,
        ensures
            r.x == chunk_coord.x * 32 + self.x,
            r.y == chunk_coord.y * 32 + self.y,
            r.z == chunk_coord.z * 32 + self.z,
    {
        let world_x = (chunk_coord.x as i64 * 32 + self.x as i64) as i32;
        let world_y = (chunk_coord.y as i64 * 32 + self.y as i64) as i32;
        let world_z = (chunk_coord.z as i64 * 32 + self.z as i64) as i32;
        VoxelWorldPosition { x: world_x, y: world_y, z: world_z }
    }

    pub fn to_index(&self) -> (r: usize)
        requires
            self.wf(),
        ensures
            r == self.index(),
            r < 32768,
    {
        self.x as usize * 1024 + self.y as usize * 32 + self.z as usize
    }

    pub fn from_index(index: usize) -> (r: Self)
        requires
            index < 32768,
        ensures
            r.wf(),
            r.index() == index,
            r.x == index / 1024,
            r.y == (index / 32) % 32,
            r.z == index % 32,
    {
        Self { z: (index % 32) as u8, y: ((index / 32) % 32) as u8, x: (index / 1024) as u8 }
    }

    pub fn add_x(&self, x: i8) -> (r: Result<Self, VoxelPositionAddError>)
        requires
            self.wf(),
        ensures
            r == moved(*self, Bounds::X, self.x + x),
    {
        let (n, w) = wrap_coordinate(self.x, x);
        let q = Self { x: w, y: self.y, z: self.z };
        if n < 0 {
            Err(VoxelPositionAddError::OutOfLowerBound(Bounds::X, q))
        } else if n >= 32 {
            Err(VoxelPositionAddError::OutOfUpperBound(Bounds::X, q))
        } else {
            Ok(q)
        }
    }

    pub fn add_y(&self, y: i8) -> (r: Result<Self, VoxelPositionAddError>)
        requires
            self.wf(),
        ensures
            r == moved(*self, Bounds::Y, self.y + y),
    {
        let (n, w) = wrap_coordinate(self.y, y);
        let q = Self { x: self.x, y: w, z: self.z };
        if n < 0 {
            Err(VoxelPositionAddError::OutOfLowerBound(Bounds::Y, q))
        } else if n >= 32 {
            Err(VoxelPositionAddError::OutOfUpperBound(Bounds::Y, q))
        } else {
            Ok(q)
        }
    }

    pub fn add_z(&self, z: i8) -> (r: Result<Self, VoxelPositionAddError>)
        requires
            self.wf(),
        ensures
            r == moved(*self, Bounds::Z, self.z + z),
    {
        let (n, w) = wrap_coordinate(self.z, z);
        let q = Self { x: self.x, y: self.y, z: w };
        if n < 0 {
            Err(VoxelPositionAddError::OutOfLowerBound(Bounds::Z, q))
        } else if n >= 32 {
            Err(VoxelPositionAddError::OutOfUpperBound(Bounds::Z, q))
        } else {
            Ok(q)
        }
    }

    /// The position one step across the face `direction`; `Other` stays put.
    pub fn add_from_direction(&self, direction: &VoxelFaceDirection) -> (r: Result<
        Self,
        VoxelPositionAddError,
    >)
        requires
            self.wf(),
        ensures
            r == step_from(*self, *direction),
    {
        match direction {
            VoxelFaceDirection::Front => self.add_x(1),
            VoxelFaceDirection::Back => self.add_x(-1),
            VoxelFaceDirection::Left => self.add_y(-1),
            VoxelFaceDirection::Right => self.add_y(1),
            VoxelFaceDirection::Top => self.add_z(1),
            VoxelFaceDirection::Bottom => self.add_z(-1),
            VoxelFaceDirection::Other => Ok(*self),
        }
    }

    pub fn x(&self) -> (r: u8)
        ensures
            r == self.x,
    {
        self.x
    }

    pub fn y(&self) -> (r: u8)
        ensures
            r == self.y,
    {
        self.y
    }

    pub fn z(&self) -> (r: u8)
        ensures
            r == self.z,
    {
        self.z
    }
}

/// Position of a voxel in the world.
#[derive(Clone, Copy, Debug, PartialEq, Eq, Structural)]
pub struct VoxelWorldPosition {
    pub x: i32,
    pub y: i32,
    pub z: i32,
}

impl VoxelWorldPosition {
    pub fn new(x: i32, y: i32, z: i32) -> (r: Self)
        ensures
            r == (VoxelWorldPosition { x, y, z }),
    {
        Self { x, y, z }
    }

    /// The position of this voxel inside the chunk that holds it.
    pub fn to_chunk_position(&self) -> (r: VoxelChunkPosition)
        ensures
            r.wf(),
            r.x == self.x % 32,
            r.y == self.y % 32,
            r.z == self.z % 32,
    {
        VoxelChunkPosition {
            x: local_coordinate(self.x),
            y: local_coordinate(self.y),
            z: local_coordinate(self.z),
        }
    }

    pub fn x(&self) -> (r: i32)
        ensures
            r == self.x,
    {
        self.x
    }

    pub fn y(&self) -> (r: i32)
        ensures
            r == self.y,
    {
        self.y
    }

    pub fn z(&self) -> (r: i32)
        ensures
            r == self.z,
    {
        self.z
    }

    /// The chunk that holds this voxel.
    pub fn get_chunk_coord(&self) -> (r: ChunkCoord)
        ensures
            r.x == chunk_of(self.x as int),
            r.y == chunk_of(self.y as int),
            r.z == chunk_of(self.z as int),
    {
        ChunkCoord::from_world_coords(self.x, self.y, self.z)
    }
}

/// `w` modulo the chunk edge length, in `[0, 32)`.
fn local_coordinate(w: i32) -> (r: u8)
    ensures
        r == w % 32,
        r < 32,
{
    let c = floor_div_chunk(w);
    (w as i64 - c as i64 * 32) as u8
}

} // verus!
