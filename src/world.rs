use vstd::prelude::*;
use crate::allocator::{BufferManager, BufferRegion, cut, cut_all, disjoint};
use crate::catalog::VoxelCatalog;
use crate::coords::{ChunkCoord, VOXELS_IN_CHUNK, chunk_of};
use crate::direction::{DirectionMap, VoxelFaceDirection, step_spec};
use crate::mesher::{
    ChunkMesh,
    chunk_quads,
    grids_ok,
    grids_view,
    mesh_chunk,
    mesh_of,
    neighbour_grid,
};
use crate::terrain::{generate_chunk_voxel_map, generated_voxel};

verus! {

/// Bytes per vertex in the vertex buffer: three position and two texture floats.
pub const VERTEX_SIZE: usize = 20;

/// Bytes per index in the index buffer.
pub const INDEX_SIZE: usize = 4;

/// Largest view distance, in chunks.
pub const MAX_VIEW_DISTANCE: i32 = 32;

/// Chunk coordinates stay this close to the origin; a world coordinate held in
/// an `i32` lies in a chunk well inside it.
pub const COORD_LIMIT: i32 = 134217728;

/// One loaded chunk: its grid, the terrain height it was generated with, its
/// mesh, where the mesh sits in the shared buffers, and whether it is drawn.
pub struct Chunk {
    pub coord: ChunkCoord,
    pub voxel_map: Vec<u8>,
    pub terrain_height: i32,
    pub mesh: ChunkMesh,
    /// The neighbouring grids the mesh was built against; `None` stood for air.
    pub meshed_with: Ghost<DirectionMap<Option<Seq<u8>>>>,
    pub vertex_region: Option<BufferRegion>,
    pub index_region: Option<BufferRegion>,
    pub visible: bool,
}

/// The chunk next to `c` across side `d`.
pub open spec fn neighbour_coord(c: ChunkCoord, d: VoxelFaceDirection) -> ChunkCoord {
    let (dx, dy, dz) = step_spec(d);
    ChunkCoord { x: (c.x + dx) as i32, y: (c.y + dy) as i32, z: (c.z + dz) as i32 }
}

/// `c` lies at most `r` chunks away from `center` along x and y, and along z
/// too when `vertical` holds; without it, `c` lies in the layer of `center`.
pub open spec fn in_view(c: ChunkCoord, center: ChunkCoord, r: int, vertical: bool) -> bool {
    &&& center.x - r <= c.x <= center.x + r
    &&& center.y - r <= c.y <= center.y + r
    &&& if vertical {
        center.z - r <= c.z <= center.z + r
    } else {
        c.z == center.z
    }
}

/// `c` comes before the position `(dz, dx, dy)` of the walk through the view:
/// layer by layer, row by row.
pub open spec fn walked_before(c: ChunkCoord, center: ChunkCoord, dz: int, dx: int, dy: int) -> bool {
    ||| c.z < center.z + dz
    ||| (c.z == center.z + dz && c.x < center.x + dx)
    ||| (c.z == center.z + dz && c.x == center.x + dx && c.y < center.y + dy)
}

/// The coordinates within `r` chunks of `center` (see `in_view`), layer by
/// layer, row by row.
pub fn view_coords(center: ChunkCoord, r: i32, vertical: bool) -> (v: Vec<ChunkCoord>)
    requires
        0 <= r <= MAX_VIEW_DISTANCE,
        -67108864 <= center.x <= 67108864,
        -67108864 <= center.y <= 67108864,
        -67108864 <= center.z <= 67108864,
    ensures
        forall|c: ChunkCoord| #[trigger] v@.contains(c) <==> in_view(c, center, r as int, vertical),
{
    let ghost rr = r as int;
    let rz: i32 = if vertical { r } else { 0 };
    let mut out: Vec<ChunkCoord> = Vec::new();
    let mut dz: i32 = -rz;
    while dz <= rz
        invariant
            0 <= r <= MAX_VIEW_DISTANCE,
            rr == r,
            rz == if vertical { r } else { 0 },
            -67108864 <= center.x <= 67108864,
            -67108864 <= center.y <= 67108864,
            -67108864 <= center.z <= 67108864,
            -rz <= dz <= rz + 1,
            forall|c: ChunkCoord| #[trigger]
                out@.contains(c) <==> (in_view(c, center, rr, vertical) && walked_before(
                    c,
                    center,
                    dz as int,
                    -rr,
                    -rr,
                )),
        decreases rz + 1 - dz,
    {
        let mut dx: i32 = -r;
        while dx <= r
            invariant
                0 <= r <= MAX_VIEW_DISTANCE,
                rr == r,
                rz == if vertical { r } else { 0 },
                -67108864 <= center.x <= 67108864,
                -67108864 <= center.y <= 67108864,
                -67108864 <= center.z <= 67108864,
                -rz <= dz <= rz,
                -r <= dx <= r + 1,
                forall|c: ChunkCoord| #[trigger]
                    out@.contains(c) <==> (in_view(c, center, rr, vertical) && walked_before(
                        c,
                        center,
                        dz as int,
                        dx as int,
                        -rr,
                    )),
            decreases r + 1 - dx,
        {
            let mut dy: i32 = -r;
            while dy <= r
                invariant
                    0 <= r <= MAX_VIEW_DISTANCE,
                    rr == r,
                    rz == if vertical { r } else { 0 },
                    -67108864 <= center.x <= 67108864,
                    -67108864 <= center.y <= 67108864,
                    -67108864 <= center.z <= 67108864,
                    -rz <= dz <= rz,
                    -r <= dx <= r,
                    -r <= dy <= r + 1,
                    forall|c: ChunkCoord| #[trigger]
                        out@.contains(c) <==> (in_view(c, center, rr, vertical) && walked_before(
                            c,
                            center,
                            dz as int,
                            dx as int,
                            dy as int,
                        )),
                decreases r + 1 - dy,
            {
                let c = ChunkCoord { x: center.x + dx, y: center.y + dy, z: center.z + dz };
                let ghost seen = out@;
                out.push(c);
                proof {
                    assert forall|x: ChunkCoord| #[trigger]
                        out@.contains(x) <==> (in_view(x, center, rr, vertical) && walked_before(
                            x,
                            center,
                            dz as int,
                            dx as int,
                            dy + 1,
                        )) by {
                        if out@.contains(x) {
                            let j = choose|j: int| 0 <= j < out@.len() && out@[j] == x;
                            if j < seen.len() {
                                assert(seen[j] == x);
                                assert(seen.contains(x));
                            }
                        }
                        if in_view(x, center, rr, vertical) && walked_before(
                            x,
                            center,
                            dz as int,
                            dx as int,
                            dy + 1,
                        ) {
                            if x == c {
                                assert(out@[seen.len() as int] == x);
                            } else {
                                assert(walked_before(x, center, dz as int, dx as int, dy as int));
                                assert(seen.contains(x));
                                let j = choose|j: int| 0 <= j < seen.len() && seen[j] == x;
                                assert(out@[j] == x);
                            }
                        }
                    }
                }
                dy += 1;
            }
            dx += 1;
        }
        dz += 1;
    }
    out
}

pub open spec fn coord_bounded(c: ChunkCoord) -> bool {
    &&& -COORD_LIMIT <= c.x <= COORD_LIMIT
    &&& -COORD_LIMIT <= c.y <= COORD_LIMIT
    &&& -COORD_LIMIT <= c.z <= COORD_LIMIT
}

/// Some chunk of `chunks` sits at `c` and holds the grid `g`.
pub open spec fn grid_in(chunks: Seq<Chunk>, c: ChunkCoord, g: Seq<u8>) -> bool {
    exists|j: int| 0 <= j < chunks.len() && (#[trigger] chunks[j]).coord == c && chunks[j].voxel_map@ == g
}

/// The grid a mesh was built against on side `d` is absent or is the grid of
/// the chunk on that side.
pub open spec fn side_consistent(chunks: Seq<Chunk>, ch: Chunk, d: VoxelFaceDirection) -> bool {
    match neighbour_grid(ch.meshed_with@, d) {
        Some(g) => grid_in(chunks, neighbour_coord(ch.coord, d), g),
        None => true,
    }
}

pub open spec fn sides_consistent(chunks: Seq<Chunk>, ch: Chunk) -> bool {
    &&& side_consistent(chunks, ch, VoxelFaceDirection::Front)
    &&& side_consistent(chunks, ch, VoxelFaceDirection::Back)
    &&& side_consistent(chunks, ch, VoxelFaceDirection::Left)
    &&& side_consistent(chunks, ch, VoxelFaceDirection::Right)
    &&& side_consistent(chunks, ch, VoxelFaceDirection::Top)
    &&& side_consistent(chunks, ch, VoxelFaceDirection::Bottom)
}

/// The mesh of `ch` saw the chunk on side `d` whenever that chunk is loaded.
pub open spec fn side_complete(chunks: Seq<Chunk>, ch: Chunk, d: VoxelFaceDirection) -> bool {
    neighbour_grid(ch.meshed_with@, d) is None ==> forall|j: int|
        0 <= j < chunks.len() ==> (#[trigger] chunks[j]).coord != neighbour_coord(ch.coord, d)
}

pub open spec fn sides_complete(chunks: Seq<Chunk>, ch: Chunk) -> bool {
    &&& side_complete(chunks, ch, VoxelFaceDirection::Front)
    &&& side_complete(chunks, ch, VoxelFaceDirection::Back)
    &&& side_complete(chunks, ch, VoxelFaceDirection::Left)
    &&& side_complete(chunks, ch, VoxelFaceDirection::Right)
    &&& side_complete(chunks, ch, VoxelFaceDirection::Top)
    &&& side_complete(chunks, ch, VoxelFaceDirection::Bottom)
}

/// A chunk's own data: its grid is the generated one, its mesh is the mesh of
/// that grid against the neighbouring grids it recorded, and its buffer ranges
/// have the sizes of the mesh.
pub open spec fn chunk_wf(ch: Chunk, catalog: VoxelCatalog, atlas_width: int) -> bool {
    &&& coord_bounded(ch.coord)
    &&& ch.voxel_map@.len() == VOXELS_IN_CHUNK
    &&& forall|i: int|
        0 <= i < VOXELS_IN_CHUNK ==> #[trigger] ch.voxel_map@[i] == generated_voxel(
            ch.coord,
            i,
            ch.terrain_height as int,
        )
    &&& catalog.covers(ch.voxel_map@)
    &&& grids_ok(ch.meshed_with@, catalog)
    &&& mesh_of(
        ch.mesh,
        chunk_quads(catalog.types@, ch.voxel_map@, ch.meshed_with@, VOXELS_IN_CHUNK as int),
        atlas_width,
    )
    &&& (ch.vertex_region matches Some(r) ==> r.size == VERTEX_SIZE * ch.mesh.vertices@.len())
    &&& (ch.index_region matches Some(r) ==> r.size == INDEX_SIZE * ch.mesh.indices@.len())
}

/// `b` is `a` with at most its visibility changed.
pub open spec fn same_but_visible(a: Chunk, b: Chunk) -> bool {
    &&& a.coord == b.coord
    &&& a.voxel_map == b.voxel_map
    &&& a.terrain_height == b.terrain_height
    &&& a.mesh == b.mesh
    &&& a.meshed_with == b.meshed_with
    &&& a.vertex_region == b.vertex_region
    &&& a.index_region == b.index_region
}

/// `b` sits where `a` does and holds the same grid.
pub open spec fn same_grid(a: Chunk, b: Chunk) -> bool {
    a.coord == b.coord && a.voxel_map@ == b.voxel_map@
}

/// Two optional buffer ranges share no byte.
pub open spec fn regions_apart(x: Option<BufferRegion>, y: Option<BufferRegion>) -> bool {
    match (x, y) {
        (Some(p), Some(q)) => disjoint(p, q),
        _ => true,
    }
}

/// The chunk that holds the world voxel `(x, y, z)`.
pub open spec fn player_chunk(x: i32, y: i32, z: i32) -> ChunkCoord {
    ChunkCoord {
        x: chunk_of(x as int) as i32,
        y: chunk_of(y as int) as i32,
        z: chunk_of(z as int) as i32,
    }
}

proof fn lemma_grid_in_push(chunks: Seq<Chunk>, x: Chunk, c: ChunkCoord, g: Seq<u8>)
    requires
        grid_in(chunks, c, g),
    ensures
        grid_in(chunks.push(x), c, g),
{
    let j = choose|j: int| 0 <= j < chunks.len() && (#[trigger] chunks[j]).coord == c && chunks[j].voxel_map@ == g;
    assert(chunks.push(x)[j] == chunks[j]);
}

proof fn lemma_sides_push(chunks: Seq<Chunk>, x: Chunk, ch: Chunk)
    requires
        sides_consistent(chunks, ch),
    ensures
        sides_consistent(chunks.push(x), ch),
{
    let dirs = seq![
        VoxelFaceDirection::Front,
        VoxelFaceDirection::Back,
        VoxelFaceDirection::Left,
        VoxelFaceDirection::Right,
        VoxelFaceDirection::Top,
        VoxelFaceDirection::Bottom,
    ];
    assert forall|k: int| 0 <= k < 6 implies side_consistent(chunks.push(x), ch, #[trigger] dirs[k]) by {
        let d = dirs[k];
        assert(side_consistent(chunks, ch, d));
        if let Some(g) = neighbour_grid(ch.meshed_with@, d) {
            lemma_grid_in_push(chunks, x, neighbour_coord(ch.coord, d), g);
        }
    }
    assert(side_consistent(chunks.push(x), ch, dirs[0]));
    assert(side_consistent(chunks.push(x), ch, dirs[1]));
    assert(side_consistent(chunks.push(x), ch, dirs[2]));
    assert(side_consistent(chunks.push(x), ch, dirs[3]));
    assert(side_consistent(chunks.push(x), ch, dirs[4]));
    assert(side_consistent(chunks.push(x), ch, dirs[5]));
}

proof fn lemma_sides_same_grids(s1: Seq<Chunk>, s2: Seq<Chunk>, ch: Chunk)
    requires
        sides_consistent(s1, ch),
        s1.len() == s2.len(),
        forall|j: int| 0 <= j < s1.len() ==> same_grid(#[trigger] s1[j], s2[j]),
    ensures
        sides_consistent(s2, ch),
{
    let dirs = seq![
        VoxelFaceDirection::Front,
        VoxelFaceDirection::Back,
        VoxelFaceDirection::Left,
        VoxelFaceDirection::Right,
        VoxelFaceDirection::Top,
        VoxelFaceDirection::Bottom,
    ];
    assert forall|k: int| 0 <= k < 6 implies side_consistent(s2, ch, #[trigger] dirs[k]) by {
        let d = dirs[k];
        assert(side_consistent(s1, ch, d));
        if let Some(g) = neighbour_grid(ch.meshed_with@, d) {
            let c = neighbour_coord(ch.coord, d);
            let j = choose|j: int| 0 <= j < s1.len() && (#[trigger] s1[j]).coord == c && s1[j].voxel_map@ == g;
            assert(same_grid(s1[j], s2[j]));
            assert(s2[j].coord == c && s2[j].voxel_map@ == g);
        }
    }
    assert(side_consistent(s2, ch, dirs[0]));
    assert(side_consistent(s2, ch, dirs[1]));
    assert(side_consistent(s2, ch, dirs[2]));
    assert(side_consistent(s2, ch, dirs[3]));
    assert(side_consistent(s2, ch, dirs[4]));
    assert(side_consistent(s2, ch, dirs[5]));
}

/// Releasing `r` keeps every used range that shares no byte with it.
proof fn lemma_cut_all_keeps(us: Seq<BufferRegion>, r: BufferRegion, n: int, i: int)
    requires
        0 <= i < n <= us.len(),
        disjoint(us[i], r),
    ensures
        cut_all(us, r, n).contains(us[i]),
    decreases n,
{
    let prev = cut_all(us, r, n - 1);
    let last = cut(us[n - 1], r);
    assert(cut_all(us, r, n) == prev + last);
    if i == n - 1 {
        assert(last == seq![us[i]]);
        assert((prev + last)[prev.len() as int] == us[i]);
    } else {
        lemma_cut_all_keeps(us, r, n - 1, i);
        let j = choose|j: int| 0 <= j < prev.len() && prev[j] == us[i];
        assert((prev + last)[j] == us[i]);
    }
}

/// A range that the used list holds shares no byte with any free range.
proof fn lemma_used_clear_of_free(m: BufferManager, u: BufferRegion)
    requires
        m.wf(),
        m.used_regions@.contains(u),
    ensures
        crate::allocator::clear_of(m.free_regions@, u),
        u.fits(),
{
    let j = choose|j: int| 0 <= j < m.used_regions@.len() && m.used_regions@[j] == u;
    assert forall|i: int| 0 <= i < m.free_regions@.len() implies disjoint(
        #[trigger] m.free_regions@[i],
        u,
    ) by {
        assert(disjoint(m.free_regions@[i], m.used_regions@[j]));
    }
}

/// What the renderer needs to draw one chunk: where its mesh sits in the
/// vertex and index buffers, how many indices it has, and which chunk it is
/// (its origin is 32 times its coordinate).
#[derive(Clone, Copy, Debug, PartialEq, Eq, Structural)]
pub struct DrawCall {
    pub coord: ChunkCoord,
    pub vertex_offset: usize,
    pub index_offset: usize,
    pub index_count: usize,
}

/// The draw call of a chunk that is visible and whose mesh has both buffer
/// ranges.
pub open spec fn draw_call_of(ch: Chunk) -> Option<DrawCall> {
    match (ch.vertex_region, ch.index_region) {
        (Some(v), Some(i)) => if ch.visible {
            Some(
                DrawCall {
                    coord: ch.coord,
                    vertex_offset: v.offset,
                    index_offset: i.offset,
                    index_count: ch.mesh.indices@.len() as usize,
                },
            )
        } else {
            None
        },
        _ => None,
    }
}

/// The draw calls of the first `n` chunks, in load order.
pub open spec fn draw_calls_upto(chunks: Seq<Chunk>, n: int) -> Seq<DrawCall>
    decreases n,
{
    if n <= 0 {
        Seq::empty()
    } else {
        match draw_call_of(chunks[n - 1]) {
            Some(d) => draw_calls_upto(chunks, n - 1).push(d),
            None => draw_calls_upto(chunks, n - 1),
        }
    }
}

/// Streams chunks around the player: generates, meshes and places in the
/// shared buffers every chunk within the view distance, and marks which
/// chunks are drawn.
pub struct World {
    pub chunks: Vec<Chunk>,
    pub previously_visible: Vec<ChunkCoord>,
    pub last_player_chunk: Option<ChunkCoord>,
    pub view_distance: i32,
    /// Whether the view reaches `view_distance` chunks up and down as well.
    pub vertical_streaming: bool,
    pub catalog: VoxelCatalog,
    pub atlas_width: u16,
    pub vertex_buffer: BufferManager,
    pub index_buffer: BufferManager,
}

impl World {
    pub open spec fn has(&self, c: ChunkCoord) -> bool {
        exists|k: int| 0 <= k < self.chunks@.len() && (#[trigger] self.chunks@[k]).coord == c
    }

    /// Everything but the visibility bookkeeping.
    pub open spec fn data_wf(&self) -> bool {
        &&& self.catalog.wf()
        &&& self.catalog.types@.len() >= 5
        &&& self.atlas_width > 0
        &&& 0 <= self.view_distance <= MAX_VIEW_DISTANCE
        &&& self.vertex_buffer.wf()
        &&& self.index_buffer.wf()
        &&& forall|k: int|
            0 <= k < self.chunks@.len() ==> chunk_wf(
                #[trigger] self.chunks@[k],
                self.catalog,
                self.atlas_width as int,
            )
        &&& forall|k: int|
            0 <= k < self.chunks@.len() ==> sides_consistent(self.chunks@, #[trigger] self.chunks@[k])
        &&& forall|a: int, b: int|
            0 <= a < self.chunks@.len() && 0 <= b < self.chunks@.len() && a != b ==> (
            #[trigger] self.chunks@[a]).coord != (#[trigger] self.chunks@[b]).coord
        &&& forall|k: int|
            0 <= k < self.chunks@.len() ==> ((#[trigger] self.chunks@[k]).vertex_region matches Some(
                r,
            ) ==> self.vertex_buffer.used_regions@.contains(r))
        &&& forall|k: int|
            0 <= k < self.chunks@.len() ==> ((#[trigger] self.chunks@[k]).index_region matches Some(
                r,
            ) ==> self.index_buffer.used_regions@.contains(r))
        &&& forall|a: int, b: int|
            0 <= a < self.chunks@.len() && 0 <= b < self.chunks@.len() && a != b ==> regions_apart(
                (#[trigger] self.chunks@[a]).vertex_region,
                (#[trigger] self.chunks@[b]).vertex_region,
            ) && regions_apart(self.chunks@[a].index_region, self.chunks@[b].index_region)
    }

    /// The chunks in view of the last player chunk are loaded, exactly they are
    /// visible, and `previously_visible` lists exactly them.
    pub open spec fn view_wf(&self) -> bool {
        match self.last_player_chunk {
            None => self.chunks@.len() == 0 && self.previously_visible@.len() == 0,
            Some(p) => {
                &&& coord_bounded(p)
                &&& forall|k: int|
                    0 <= k < self.chunks@.len() ==> (#[trigger] self.chunks@[k]).visible == in_view(
                        self.chunks@[k].coord,
                        p,
                        self.view_distance as int,
                        self.vertical_streaming,
                    )
                &&& forall|c: ChunkCoord|
                    #[trigger] self.previously_visible@.contains(c) <==> in_view(
                        c,
                        p,
                        self.view_distance as int,
                        self.vertical_streaming,
                    )
                &&& forall|c: ChunkCoord| #[trigger]
                    in_view(c, p, self.view_distance as int, self.vertical_streaming) ==> self.has(c)
            },
        }
    }

    pub open spec fn wf(&self) -> bool {
        self.data_wf() && self.view_wf()
    }

    /// A world with nothing loaded, whose vertex and index buffers offer
    /// `vertex_capacity` and `index_capacity` bytes.
    pub fn new(
        view_distance: i32,
        vertical_streaming: bool,
        catalog: VoxelCatalog,
        atlas_width: u16,
        vertex_capacity: usize,
        index_capacity: usize,
    ) -> (r: Self)
        requires
            catalog.wf(),
            catalog.types@.len() >= 5,
            atlas_width > 0,
            0 <= view_distance <= MAX_VIEW_DISTANCE,
        ensures
            r.wf(),
            r.chunks@.len() == 0,
            r.last_player_chunk is None,
            r.view_distance == view_distance,
            r.vertical_streaming == vertical_streaming,
            r.vertex_buffer.free_regions@ == seq![BufferRegion { offset: 0, size: vertex_capacity }],
            r.vertex_buffer.used_regions@.len() == 0,
            r.index_buffer.used_regions@.len() == 0,
            r.index_buffer.free_regions@ == seq![BufferRegion { offset: 0, size: index_capacity }],
    {
        let mut vertex_buffer = BufferManager::new();
        vertex_buffer.add_free_region(0, vertex_capacity);
        let mut index_buffer = BufferManager::new();
        index_buffer.add_free_region(0, index_capacity);
        assert(vertex_buffer.free_regions@ =~= seq![BufferRegion { offset: 0, size: vertex_capacity }]);
        assert(index_buffer.free_regions@ =~= seq![BufferRegion { offset: 0, size: index_capacity }]);
        World {
            chunks: Vec::new(),
            previously_visible: Vec::new(),
            last_player_chunk: None,
            view_distance,
            vertical_streaming,
            catalog,
            atlas_width,
            vertex_buffer,
            index_buffer,
        }
    }

    /// The position of the chunk at `coord` in `chunks`.
    pub fn find_chunk(&self, coord: &ChunkCoord) -> (r: Option<usize>)
        ensures
            match r {
                Some(k) => k < self.chunks@.len() && self.chunks@[k as int].coord == *coord,
                None => !self.has(*coord),
            },
    {
        let n = self.chunks.len();
        let mut k: usize = 0;
        while k < n
            invariant
                n == self.chunks@.len(),
                0 <= k <= n,
                forall|j: int| 0 <= j < k ==> (#[trigger] self.chunks@[j]).coord != *coord,
            decreases n - k,
        {
            if self.chunks[k].coord == *coord {
                return Some(k);
            }
            k += 1;
        }
        None
    }

    /// The loaded chunk at `coord`; `None` when no such chunk is loaded.
    pub fn get_chunk(&self, coord: &ChunkCoord) -> (r: Option<&Chunk>)
        ensures
            match r {
                Some(ch) => exists|k: int|
                    0 <= k < self.chunks@.len() && self.chunks@[k] == *ch && ch.coord == *coord,
                None => !self.has(*coord),
            },
    {
        match self.find_chunk(coord) {
            Some(k) => Some(&self.chunks[k]),
            None => None,
        }
    }

    /// The grid of the loaded chunk at `coord`; `None` when no such chunk is loaded.
    pub fn grid_at(&self, coord: &ChunkCoord) -> (r: Option<&Vec<u8>>)
        ensures
            match r {
                Some(g) => grid_in(self.chunks@, *coord, g@),
                None => !self.has(*coord),
            },
    {
        match self.find_chunk(coord) {
            Some(k) => Some(&self.chunks[k].voxel_map),
            None => None,
        }
    }

    /// The chunk at position `index` of the load order.
    pub fn get_chunk_by_index(&self, index: usize) -> (r: Option<&Chunk>)
        ensures
            index < self.chunks@.len() ==> r == Some(&self.chunks@[index as int]),
            index >= self.chunks@.len() ==> r is None,
    {
        if index < self.chunks.len() {
            Some(&self.chunks[index])
        } else {
            None
        }
    }

    /// The grid of the chunk next to `c` across side `d`, when it is loaded.
    fn neighbour_grid_at(&self, c: &ChunkCoord, d: VoxelFaceDirection) -> (r: Option<&Vec<u8>>)
        requires
            self.data_wf(),
            coord_bounded(*c),
            d != VoxelFaceDirection::Other,
        ensures
            match r {
                Some(g) => {
                    &&& grid_in(self.chunks@, neighbour_coord(*c, d), g@)
                    &&& g@.len() == VOXELS_IN_CHUNK
                    &&& self.catalog.covers(g@)
                },
                None => !self.has(neighbour_coord(*c, d)),
            },
    {
        let n = match d {
            VoxelFaceDirection::Front => ChunkCoord { x: c.x + 1, y: c.y, z: c.z },
            VoxelFaceDirection::Back => ChunkCoord { x: c.x - 1, y: c.y, z: c.z },
            VoxelFaceDirection::Left => ChunkCoord { x: c.x, y: c.y - 1, z: c.z },
            VoxelFaceDirection::Right => ChunkCoord { x: c.x, y: c.y + 1, z: c.z },
            VoxelFaceDirection::Top => ChunkCoord { x: c.x, y: c.y, z: c.z + 1 },
            _ => ChunkCoord { x: c.x, y: c.y, z: c.z - 1 },
        };
        assert(n == neighbour_coord(*c, d));
        match self.find_chunk(&n) {
            Some(k) => {
                assert(chunk_wf(self.chunks@[k as int], self.catalog, self.atlas_width as int));
                Some(&self.chunks[k].voxel_map)
            },
            None => None,
        }
    }

    /// Loads the chunk at `c` unless it is loaded: generates its grid with the
    /// terrain height that `terrain_height` gives for the chunk's origin
    /// column, meshes it against the loaded neighbouring grids, and places the
    /// mesh in the buffers. A mesh that finds no room is left without a range.
    fn load_chunk<F: Fn(i64, i64) -> i32>(&mut self, c: ChunkCoord, terrain_height: &F)
        requires
            old(self).data_wf(),
            coord_bounded(c),
            forall|x: i64, y: i64| terrain_height.requires((x, y)),
        ensures
            final(self).data_wf(),
            final(self).has(c),
            final(self).view_distance == old(self).view_distance,
            final(self).vertical_streaming == old(self).vertical_streaming,
            final(self).last_player_chunk == old(self).last_player_chunk,
            final(self).previously_visible@ == old(self).previously_visible@,
            final(self).chunks@.len() >= old(self).chunks@.len(),
            forall|k: int|
                0 <= k < old(self).chunks@.len() ==> #[trigger] final(self).chunks@[k] == old(
                    self,
                ).chunks@[k],
            old(self).has(c) ==> final(self).chunks@.len() == old(self).chunks@.len(),
            !old(self).has(c) ==> {
                &&& final(self).chunks@.len() == old(self).chunks@.len() + 1
                &&& final(self).chunks@.last().coord == c
                &&& terrain_height.ensures(
                    ((c.x * 32) as i64, (c.y * 32) as i64),
                    final(self).chunks@.last().terrain_height,
                )
            },
    {
        if self.find_chunk(&c).is_some() {
            return;
        }
        let h = terrain_height(c.x as i64 * 32, c.y as i64 * 32);
        let grid = generate_chunk_voxel_map(&c, h);
        proof {
            assert forall|i: int| 0 <= i < grid@.len() implies (#[trigger] grid@[i]) < self.catalog.types@.len() by {
                assert(grid@[i] == generated_voxel(c, i, h as int));
            }
        }
        let front = self.neighbour_grid_at(&c, VoxelFaceDirection::Front);
        let back = self.neighbour_grid_at(&c, VoxelFaceDirection::Back);
        let left = self.neighbour_grid_at(&c, VoxelFaceDirection::Left);
        let right = self.neighbour_grid_at(&c, VoxelFaceDirection::Right);
        let top = self.neighbour_grid_at(&c, VoxelFaceDirection::Top);
        let bottom = self.neighbour_grid_at(&c, VoxelFaceDirection::Bottom);
        let nbs = DirectionMap { front, back, left, right, top, bottom };
        let mesh = mesh_chunk(&grid, &nbs, &self.catalog, self.atlas_width);
        let ghost meshed_with = grids_view(nbs);
        proof {
            assert(side_consistent(self.chunks@, (Chunk {
                coord: c,
                voxel_map: grid,
                terrain_height: h,
                mesh,
                meshed_with: Ghost(meshed_with),
                vertex_region: None,
                index_region: None,
                visible: true,
            }), VoxelFaceDirection::Front));
        }
        let vertex_bytes = mesh.vertices.len() * VERTEX_SIZE;
        let index_bytes = mesh.indices.len() * INDEX_SIZE;
        let ghost used_v = self.vertex_buffer.used_regions@;
        let ghost used_i = self.index_buffer.used_regions@;
        let vertex_region = match self.vertex_buffer.use_free_region(vertex_bytes) {
            Ok(offset) => Some(BufferRegion { offset, size: vertex_bytes }),
            Err(_) => None,
        };
        let index_region = match self.index_buffer.use_free_region(index_bytes) {
            Ok(offset) => Some(BufferRegion { offset, size: index_bytes }),
            Err(_) => None,
        };
        let ghost old_chunks = self.chunks@;
        let chunk = Chunk {
            coord: c,
            voxel_map: grid,
            terrain_height: h,
            mesh,
            meshed_with: Ghost(meshed_with),
            vertex_region,
            index_region,
            visible: true,
        };
        proof {
            lemma_sides_push(old_chunks, chunk, chunk);
        }
        self.chunks.push(chunk);
        proof {
            let cs = self.chunks@;
            assert(cs == old_chunks.push(chunk));
            assert(cs[old_chunks.len() as int] == chunk);
            assert forall|k: int| 0 <= k < cs.len() implies sides_consistent(cs, #[trigger] cs[k]) by {
                if k < old_chunks.len() {
                    assert(cs[k] == old_chunks[k]);
                    lemma_sides_push(old_chunks, chunk, old_chunks[k]);
                }
            }
            assert forall|k: int| 0 <= k < cs.len() implies chunk_wf(
                #[trigger] cs[k],
                self.catalog,
                self.atlas_width as int,
            ) by {
                if k < old_chunks.len() {
                    assert(cs[k] == old_chunks[k]);
                }
            }
            assert forall|a: int, b: int|
                0 <= a < cs.len() && 0 <= b < cs.len() && a != b implies (#[trigger] cs[a]).coord
                != (#[trigger] cs[b]).coord by {
                if a < old_chunks.len() && b < old_chunks.len() {
                    assert(cs[a] == old_chunks[a] && cs[b] == old_chunks[b]);
                } else if a < old_chunks.len() {
                    assert(cs[a] == old_chunks[a]);
                } else {
                    assert(cs[b] == old_chunks[b]);
                }
            }
            assert forall|k: int| 0 <= k < cs.len() implies ((#[trigger] cs[k]).vertex_region matches Some(
                r,
            ) ==> self.vertex_buffer.used_regions@.contains(r)) by {
                if k < old_chunks.len() {
                    assert(cs[k] == old_chunks[k]);
                    if let Some(r) = cs[k].vertex_region {
                        let j = choose|j: int| 0 <= j < used_v.len() && used_v[j] == r;
                        assert(self.vertex_buffer.used_regions@[j] == r);
                    }
                } else if let Some(r) = cs[k].vertex_region {
                    assert(self.vertex_buffer.used_regions@.last() == r);
                }
            }
            assert forall|k: int| 0 <= k < cs.len() implies ((#[trigger] cs[k]).index_region matches Some(
                r,
            ) ==> self.index_buffer.used_regions@.contains(r)) by {
                if k < old_chunks.len() {
                    assert(cs[k] == old_chunks[k]);
                    if let Some(r) = cs[k].index_region {
                        let j = choose|j: int| 0 <= j < used_i.len() && used_i[j] == r;
                        assert(self.index_buffer.used_regions@[j] == r);
                    }
                } else if let Some(r) = cs[k].index_region {
                    assert(self.index_buffer.used_regions@.last() == r);
                }
            }
            assert(cs[old_chunks.len() as int].coord == c);
            let nv = self.vertex_buffer.used_regions@;
            let ni = self.index_buffer.used_regions@;
            assert forall|a: int, b: int|
                0 <= a < cs.len() && 0 <= b < cs.len() && a != b implies regions_apart(
                (#[trigger] cs[a]).vertex_region,
                (#[trigger] cs[b]).vertex_region,
            ) && regions_apart(cs[a].index_region, cs[b].index_region) by {
                if a < old_chunks.len() && b < old_chunks.len() {
                    assert(cs[a] == old_chunks[a] && cs[b] == old_chunks[b]);
                } else {
                    let o = if a < old_chunks.len() { a } else { b };
                    assert(cs[o] == old_chunks[o]);
                    if let (Some(u), Some(p)) = (cs[o].vertex_region, vertex_region) {
                        let i = choose|i: int| 0 <= i < used_v.len() && used_v[i] == u;
                        assert(nv[i] == u);
                        assert(nv[nv.len() - 1] == p);
                        assert(disjoint(nv[i], nv[nv.len() - 1]));
                    }
                    if let (Some(u), Some(p)) = (cs[o].index_region, index_region) {
                        let i = choose|i: int| 0 <= i < used_i.len() && used_i[i] == u;
                        assert(ni[i] == u);
                        assert(ni[ni.len() - 1] == p);
                        assert(disjoint(ni[i], ni[ni.len() - 1]));
                    }
                }
            }
        }
    }

    /// Moves the view to the player at world voxel `(player_x, player_y,
    /// player_z)`. Nothing happens while the player stays in the same chunk.
    /// Otherwise every chunk within `view_distance` of the player's chunk (see
    /// `in_view`) is loaded, new ones through `load_chunk` with `terrain_height`
    /// giving the surface height for a chunk's origin column; exactly those
    /// chunks are visible, and the rest stay loaded but hidden. A chunk already
    /// loaded is not meshed again when a neighbour appears beside it: its
    /// `meshed_with` keeps the neighbouring grids its mesh was built against,
    /// absent ones counting as air.
    pub fn update_view<F: Fn(i64, i64) -> i32>(
        &mut self,
        player_x: i32,
        player_y: i32,
        player_z: i32,
        terrain_height: &F,
    )
        requires
            old(self).wf(),
            forall|x: i64, y: i64| terrain_height.requires((x, y)),
        ensures
            final(self).wf(),
            final(self).view_distance == old(self).view_distance,
            final(self).vertical_streaming == old(self).vertical_streaming,
            old(self).last_player_chunk == Some(player_chunk(player_x, player_y, player_z))
                ==> *final(self) == *old(self),
            old(self).last_player_chunk != Some(player_chunk(player_x, player_y, player_z)) ==> {
                &&& final(self).last_player_chunk == Some(player_chunk(player_x, player_y, player_z))
                &&& final(self).chunks@.len() >= old(self).chunks@.len()
                &&& forall|k: int|
                    0 <= k < old(self).chunks@.len() ==> same_but_visible(
                        #[trigger] old(self).chunks@[k],
                        final(self).chunks@[k],
                    )
                &&& forall|k: int|
                    old(self).chunks@.len() <= k < final(self).chunks@.len() ==> {
                        let ch = #[trigger] final(self).chunks@[k];
                        &&& in_view(
                            ch.coord,
                            player_chunk(player_x, player_y, player_z),
                            old(self).view_distance as int,
                            old(self).vertical_streaming,
                        )
                        &&& !old(self).has(ch.coord)
                        &&& terrain_height.ensures(
                            ((ch.coord.x * 32) as i64, (ch.coord.y * 32) as i64),
                            ch.terrain_height,
                        )
                    }
            },
    {
        let pc = ChunkCoord::from_world_coords(player_x, player_y, player_z);
        if let Some(last) = self.last_player_chunk {
            if last == pc {
                return;
            }
        }
        let r = self.view_distance;
        let vertical = self.vertical_streaming;
        assert(-67108864 <= pc.x <= 67108864 && -67108864 <= pc.y <= 67108864 && -67108864 <= pc.z
            <= 67108864);
        let ghost old_chunks = self.chunks@;
        let ghost rr = r as int;
        let view = view_coords(pc, r, vertical);
        let n = view.len();
        let mut t: usize = 0;
        while t < n
            invariant
                self.data_wf(),
                r == self.view_distance,
                vertical == self.vertical_streaming,
                rr == r,
                0 <= r <= MAX_VIEW_DISTANCE,
                pc == player_chunk(player_x, player_y, player_z),
                n == view@.len(),
                0 <= t <= n,
                forall|c: ChunkCoord| #[trigger] view@.contains(c) <==> in_view(c, pc, rr, vertical),
                forall|x: i64, y: i64| terrain_height.requires((x, y)),
                self.chunks@.len() >= old_chunks.len(),
                forall|k: int| 0 <= k < old_chunks.len() ==> #[trigger] self.chunks@[k] == old_chunks[k],
                forall|k: int|
                    old_chunks.len() <= k < self.chunks@.len() ==> {
                        let ch = #[trigger] self.chunks@[k];
                        &&& in_view(ch.coord, pc, rr, vertical)
                        &&& !old(self).has(ch.coord)
                        &&& terrain_height.ensures(
                            ((ch.coord.x * 32) as i64, (ch.coord.y * 32) as i64),
                            ch.terrain_height,
                        )
                    },
                old_chunks == old(self).chunks@,
                self.last_player_chunk == old(self).last_player_chunk,
                forall|j: int| 0 <= j < t ==> self.has(#[trigger] view@[j]),
            decreases n - t,
        {
            let c = view[t];
            let ghost before = self.chunks@;
            proof {
                assert(view@.contains(c));
                assert(in_view(c, pc, rr, vertical));
            }
            self.load_chunk(c, terrain_height);
            proof {
                assert forall|k: int|
                    old_chunks.len() <= k < self.chunks@.len() implies {
                    let ch = #[trigger] self.chunks@[k];
                    &&& in_view(ch.coord, pc, rr, vertical)
                    &&& !old(self).has(ch.coord)
                    &&& terrain_height.ensures(
                        ((ch.coord.x * 32) as i64, (ch.coord.y * 32) as i64),
                        ch.terrain_height,
                    )
                } by {
                    if k < before.len() {
                        assert(self.chunks@[k] == before[k]);
                    } else {
                        assert(self.chunks@[k].coord == c);
                        if old(self).has(c) {
                            let j = choose|j: int|
                                0 <= j < old_chunks.len() && (#[trigger] old_chunks[j]).coord == c;
                            assert(before[j] == old_chunks[j]);
                        }
                    }
                }
                assert forall|j: int| 0 <= j < t + 1 implies self.has(#[trigger] view@[j]) by {
                    if j < t {
                        let x = view@[j];
                        assert(self.has(x) || before.len() >= 0);
                        let i = choose|i: int| 0 <= i < before.len() && (#[trigger] before[i]).coord == x;
                        assert(self.chunks@[i] == before[i]);
                    }
                }
            }
            t += 1;
        }
        proof {
            assert forall|x: ChunkCoord| #[trigger] in_view(x, pc, rr, vertical) implies self.has(x) by {
                assert(view@.contains(x));
                let j = choose|j: int| 0 <= j < view@.len() && view@[j] == x;
                assert(self.has(view@[j]));
            }
        }
        self.previously_visible = view;
        self.last_player_chunk = Some(pc);
        let ghost loaded = self.chunks@;
        let ghost snap: World = *self;
        let n = self.chunks.len();
        let mut k: usize = 0;
        while k < n
            invariant
                snap.data_wf(),
                snap.chunks@ == loaded,
                forall|x: ChunkCoord| #[trigger] in_view(x, pc, rr, vertical) ==> snap.has(x),
                self.catalog == snap.catalog,
                self.atlas_width == snap.atlas_width,
                self.view_distance == snap.view_distance,
                self.vertical_streaming == snap.vertical_streaming,
                self.vertex_buffer == snap.vertex_buffer,
                self.index_buffer == snap.index_buffer,
                self.last_player_chunk == snap.last_player_chunk,
                self.previously_visible == snap.previously_visible,
                r == snap.view_distance,
                vertical == snap.vertical_streaming,
                rr == r,
                0 <= r <= MAX_VIEW_DISTANCE,
                -67108864 <= pc.x <= 67108864 && -67108864 <= pc.y <= 67108864 && -67108864 <= pc.z
                    <= 67108864,
                n == self.chunks@.len(),
                n == loaded.len(),
                0 <= k <= n,
                forall|j: int| 0 <= j < n ==> same_but_visible(#[trigger] loaded[j], self.chunks@[j]),
                forall|j: int|
                    0 <= j < k ==> (#[trigger] self.chunks@[j]).visible == in_view(
                        self.chunks@[j].coord,
                        pc,
                        rr,
                        vertical,
                    ),
            decreases n - k,
        {
            let coord = self.chunks[k].coord;
            let v = pc.x - r <= coord.x && coord.x <= pc.x + r && pc.y - r <= coord.y && coord.y
                <= pc.y + r && if vertical {
                pc.z - r <= coord.z && coord.z <= pc.z + r
            } else {
                coord.z == pc.z
            };
            self.chunks[k].visible = v;
            k += 1;
        }
        proof {
            let cs = self.chunks@;
            assert forall|j: int| 0 <= j < cs.len() implies same_grid(#[trigger] loaded[j], cs[j]) by {
                assert(same_but_visible(loaded[j], cs[j]));
            }
            assert forall|j: int| 0 <= j < cs.len() implies sides_consistent(cs, #[trigger] cs[j]) by {
                assert(same_but_visible(loaded[j], cs[j]));
                lemma_sides_same_grids(loaded, cs, loaded[j]);
            }
            assert forall|a: int, b: int|
                0 <= a < cs.len() && 0 <= b < cs.len() && a != b implies regions_apart(
                (#[trigger] cs[a]).vertex_region,
                (#[trigger] cs[b]).vertex_region,
            ) && regions_apart(cs[a].index_region, cs[b].index_region) by {
                assert(same_but_visible(loaded[a], cs[a]));
                assert(same_but_visible(loaded[b], cs[b]));
            }
            assert forall|j: int| 0 <= j < cs.len() implies chunk_wf(
                #[trigger] cs[j],
                self.catalog,
                self.atlas_width as int,
            ) by {
                assert(same_but_visible(loaded[j], cs[j]));
                assert(chunk_wf(loaded[j], self.catalog, self.atlas_width as int));
            }
            assert forall|a: int, b: int|
                0 <= a < cs.len() && 0 <= b < cs.len() && a != b implies (#[trigger] cs[a]).coord
                != (#[trigger] cs[b]).coord by {
                assert(same_but_visible(loaded[a], cs[a]));
                assert(same_but_visible(loaded[b], cs[b]));
            }
            assert forall|j: int| 0 <= j < cs.len() implies ((#[trigger] cs[j]).vertex_region matches Some(
                r,
            ) ==> self.vertex_buffer.used_regions@.contains(r)) by {
                assert(same_but_visible(loaded[j], cs[j]));
            }
            assert forall|j: int| 0 <= j < cs.len() implies ((#[trigger] cs[j]).index_region matches Some(
                r,
            ) ==> self.index_buffer.used_regions@.contains(r)) by {
                assert(same_but_visible(loaded[j], cs[j]));
            }
            assert forall|x: ChunkCoord| #[trigger] in_view(x, pc, rr, vertical) implies self.has(x) by {
                assert(snap.has(x));
                let j = choose|j: int| 0 <= j < loaded.len() && (#[trigger] loaded[j]).coord == x;
                assert(same_but_visible(loaded[j], cs[j]));
            }
            assert forall|j: int| 0 <= j < old_chunks.len() implies same_but_visible(
                #[trigger] old_chunks[j],
                cs[j],
            ) by {
                assert(loaded[j] == old_chunks[j]);
                assert(same_but_visible(loaded[j], cs[j]));
            }
            assert forall|j: int| old_chunks.len() <= j < cs.len() implies {
                let ch = #[trigger] cs[j];
                &&& in_view(ch.coord, pc, rr, vertical)
                &&& !old(self).has(ch.coord)
                &&& terrain_height.ensures(
                    ((ch.coord.x * 32) as i64, (ch.coord.y * 32) as i64),
                    ch.terrain_height,
                )
            } by {
                assert(same_but_visible(loaded[j], cs[j]));
                assert(loaded[j] == loaded[j]);
            }
        }
    }

    /// The draw calls of all visible chunks whose meshes found room in the
    /// buffers, in load order; hidden chunks and chunks left without a range
    /// are skipped.
    pub fn draw_calls(&self) -> (r: Vec<DrawCall>)
        ensures
            r@ == draw_calls_upto(self.chunks@, self.chunks@.len() as int),
    {
        let mut calls: Vec<DrawCall> = Vec::new();
        let n = self.chunks.len();
        let mut k: usize = 0;
        while k < n
            invariant
                n == self.chunks@.len(),
                0 <= k <= n,
                calls@ == draw_calls_upto(self.chunks@, k as int),
            decreases n - k,
        {
            let ch = &self.chunks[k];
            if ch.visible {
                match (ch.vertex_region, ch.index_region) {
                    (Some(v), Some(i)) => {
                        calls.push(
                            DrawCall {
                                coord: ch.coord,
                                vertex_offset: v.offset,
                                index_offset: i.offset,
                                index_count: ch.mesh.indices.len(),
                            },
                        );
                    },
                    _ => {},
                }
            }
            k += 1;
        }
        calls
    }

    /// Meshes the loaded chunk at `coord` again, against the neighbouring
    /// chunks loaded now, and moves its mesh to new buffer ranges: the old
    /// ranges are released first, and a mesh that finds no room is left
    /// without a range. Returns whether such a chunk is loaded; when it is
    /// not, nothing changes.
    #[verifier::rlimit(60)]
    pub fn remesh_chunk(&mut self, coord: &ChunkCoord) -> (found: bool)
        requires
            old(self).wf(),
        ensures
            final(self).wf(),
            found == old(self).has(*coord),
            !found ==> *final(self) == *old(self),
            found ==> {
                &&& final(self).chunks@.len() == old(self).chunks@.len()
                &&& forall|k: int|
                    0 <= k < old(self).chunks@.len() ==> {
                        &&& same_grid(#[trigger] old(self).chunks@[k], final(self).chunks@[k])
                        &&& final(self).chunks@[k].visible == old(self).chunks@[k].visible
                        &&& final(self).chunks@[k].terrain_height == old(
                            self,
                        ).chunks@[k].terrain_height
                        &&& (old(self).chunks@[k].coord != *coord ==> final(self).chunks@[k]
                            == old(self).chunks@[k])
                        &&& (old(self).chunks@[k].coord == *coord ==> sides_complete(
                            final(self).chunks@,
                            final(self).chunks@[k],
                        ))
                    }
            },
    {
        let k = match self.find_chunk(coord) {
            None => {
                return false;
            },
            Some(k) => k,
        };
        let ghost old_chunks = self.chunks@;
        let c = self.chunks[k].coord;
        assert(chunk_wf(old_chunks[k as int], self.catalog, self.atlas_width as int));
        let front = self.neighbour_grid_at(&c, VoxelFaceDirection::Front);
        let back = self.neighbour_grid_at(&c, VoxelFaceDirection::Back);
        let left = self.neighbour_grid_at(&c, VoxelFaceDirection::Left);
        let right = self.neighbour_grid_at(&c, VoxelFaceDirection::Right);
        let top = self.neighbour_grid_at(&c, VoxelFaceDirection::Top);
        let bottom = self.neighbour_grid_at(&c, VoxelFaceDirection::Bottom);
        let nbs = DirectionMap { front, back, left, right, top, bottom };
        let mesh = mesh_chunk(&self.chunks[k].voxel_map, &nbs, &self.catalog, self.atlas_width);
        let ghost meshed_with = grids_view(nbs);
        let ghost used_v0 = self.vertex_buffer.used_regions@;
        let ghost used_i0 = self.index_buffer.used_regions@;
        let old_vertex_region = self.chunks[k].vertex_region;
        let old_index_region = self.chunks[k].index_region;
        if let Some(r) = old_vertex_region {
            proof {
                lemma_used_clear_of_free(self.vertex_buffer, r);
            }
            self.vertex_buffer.free_segment(r);
        }
        if let Some(r) = old_index_region {
            proof {
                lemma_used_clear_of_free(self.index_buffer, r);
            }
            self.index_buffer.free_segment(r);
        }
        let ghost used_v1 = self.vertex_buffer.used_regions@;
        let ghost used_i1 = self.index_buffer.used_regions@;
        let vertex_bytes = mesh.vertices.len() * VERTEX_SIZE;
        let index_bytes = mesh.indices.len() * INDEX_SIZE;
        let vertex_region = match self.vertex_buffer.use_free_region(vertex_bytes) {
            Ok(offset) => Some(BufferRegion { offset, size: vertex_bytes }),
            Err(_) => None,
        };
        let index_region = match self.index_buffer.use_free_region(index_bytes) {
            Ok(offset) => Some(BufferRegion { offset, size: index_bytes }),
            Err(_) => None,
        };
        let ghost used_v2 = self.vertex_buffer.used_regions@;
        let ghost used_i2 = self.index_buffer.used_regions@;
        self.chunks[k].mesh = mesh;
        self.chunks[k].meshed_with = Ghost(meshed_with);
        self.chunks[k].vertex_region = vertex_region;
        self.chunks[k].index_region = index_region;
        proof {
            let cs = self.chunks@;
            let ki = k as int;
            assert forall|j: int| 0 <= j < cs.len() && j != ki implies #[trigger] cs[j]
                == old_chunks[j] by {}
            assert forall|j: int| 0 <= j < cs.len() implies same_grid(#[trigger] old_chunks[j], cs[j]) by {
                if j != ki {
                    assert(cs[j] == old_chunks[j]);
                }
            }
            // The used lists keep every range of the other chunks.
            assert forall|j: int| 0 <= j < cs.len() && j != ki implies ((#[trigger] cs[j]).vertex_region matches Some(
                u,
            ) ==> used_v2.contains(u) && exists|i: int| 0 <= i < used_v2.len() - (if vertex_region is Some { 1int } else { 0int }) && used_v2[i] == u) by {
                assert(cs[j] == old_chunks[j]);
                if let Some(u) = cs[j].vertex_region {
                    assert(used_v0.contains(u));
                    let i0 = choose|i: int| 0 <= i < used_v0.len() && used_v0[i] == u;
                    if let Some(r) = old_vertex_region {
                        assert(regions_apart(old_chunks[j].vertex_region, old_chunks[ki].vertex_region));
                        lemma_cut_all_keeps(used_v0, r, used_v0.len() as int, i0);
                    }
                    assert(used_v1.contains(u));
                    let i1 = choose|i: int| 0 <= i < used_v1.len() && used_v1[i] == u;
                    assert(used_v2[i1] == u);
                }
            }
            assert forall|j: int| 0 <= j < cs.len() && j != ki implies ((#[trigger] cs[j]).index_region matches Some(
                u,
            ) ==> used_i2.contains(u) && exists|i: int| 0 <= i < used_i2.len() - (if index_region is Some { 1int } else { 0int }) && used_i2[i] == u) by {
                assert(cs[j] == old_chunks[j]);
                if let Some(u) = cs[j].index_region {
                    assert(used_i0.contains(u));
                    let i0 = choose|i: int| 0 <= i < used_i0.len() && used_i0[i] == u;
                    if let Some(r) = old_index_region {
                        assert(regions_apart(old_chunks[j].index_region, old_chunks[ki].index_region));
                        lemma_cut_all_keeps(used_i0, r, used_i0.len() as int, i0);
                    }
                    assert(used_i1.contains(u));
                    let i1 = choose|i: int| 0 <= i < used_i1.len() && used_i1[i] == u;
                    assert(used_i2[i1] == u);
                }
            }
            assert forall|j: int| 0 <= j < cs.len() implies ((#[trigger] cs[j]).vertex_region matches Some(
                r,
            ) ==> self.vertex_buffer.used_regions@.contains(r)) by {
                if j == ki {
                    if let Some(p) = vertex_region {
                        assert(used_v2[used_v2.len() - 1] == p);
                    }
                }
            }
            assert forall|j: int| 0 <= j < cs.len() implies ((#[trigger] cs[j]).index_region matches Some(
                r,
            ) ==> self.index_buffer.used_regions@.contains(r)) by {
                if j == ki {
                    if let Some(p) = index_region {
                        assert(used_i2[used_i2.len() - 1] == p);
                    }
                }
            }
            assert forall|a: int, b: int|
                0 <= a < cs.len() && 0 <= b < cs.len() && a != b implies regions_apart(
                (#[trigger] cs[a]).vertex_region,
                (#[trigger] cs[b]).vertex_region,
            ) && regions_apart(cs[a].index_region, cs[b].index_region) by {
                if a != ki && b != ki {
                    assert(cs[a] == old_chunks[a] && cs[b] == old_chunks[b]);
                } else {
                    let o = if a == ki { b } else { a };
                    assert(cs[o] == old_chunks[o]);
                    if let (Some(u), Some(p)) = (cs[o].vertex_region, vertex_region) {
                        let i = choose|i: int| 0 <= i < used_v2.len() - 1 && used_v2[i] == u;
                        assert(used_v2[used_v2.len() - 1] == p);
                        assert(disjoint(used_v2[i], used_v2[used_v2.len() - 1]));
                    }
                    if let (Some(u), Some(p)) = (cs[o].index_region, index_region) {
                        let i = choose|i: int| 0 <= i < used_i2.len() - 1 && used_i2[i] == u;
                        assert(used_i2[used_i2.len() - 1] == p);
                        assert(disjoint(used_i2[i], used_i2[used_i2.len() - 1]));
                    }
                }
            }
            assert(side_consistent(old_chunks, cs[ki], VoxelFaceDirection::Front));
            assert forall|j: int| 0 <= j < cs.len() implies sides_consistent(cs, #[trigger] cs[j]) by {
                if j != ki {
                    assert(cs[j] == old_chunks[j]);
                    assert(sides_consistent(old_chunks, old_chunks[j]));
                }
                lemma_sides_same_grids(old_chunks, cs, cs[j]);
            }
            assert forall|j: int| 0 <= j < cs.len() implies chunk_wf(
                #[trigger] cs[j],
                self.catalog,
                self.atlas_width as int,
            ) by {
                if j != ki {
                    assert(cs[j] == old_chunks[j]);
                }
            }
            assert forall|a: int, b: int|
                0 <= a < cs.len() && 0 <= b < cs.len() && a != b implies (#[trigger] cs[a]).coord
                != (#[trigger] cs[b]).coord by {
                assert(same_grid(old_chunks[a], cs[a]));
                assert(same_grid(old_chunks[b], cs[b]));
            }
            assert forall|x: ChunkCoord| #[trigger] old(self).has(x) implies self.has(x) by {
                let j = choose|j: int| 0 <= j < old_chunks.len() && (#[trigger] old_chunks[j]).coord == x;
                assert(same_grid(old_chunks[j], cs[j]));
            }
            assert(sides_complete(cs, cs[ki])) by {
                assert forall|j: int| 0 <= j < cs.len() implies (#[trigger] cs[j]).coord == old_chunks[j].coord by {
                    assert(same_grid(old_chunks[j], cs[j]));
                }
            }
            if let Some(p) = self.last_player_chunk {
                assert forall|j: int| 0 <= j < cs.len() implies (#[trigger] cs[j]).visible == in_view(
                    cs[j].coord,
                    p,
                    self.view_distance as int,
                    self.vertical_streaming,
                ) by {
                    assert(same_grid(old_chunks[j], cs[j]));
                    assert(old_chunks[j].visible == cs[j].visible);
                }
            }
        }
        true
    }

    pub fn chunks_len(&self) -> (r: usize)
        ensures
            r == self.chunks@.len(),
    {
        self.chunks.len()
    }
}

} // verus!
