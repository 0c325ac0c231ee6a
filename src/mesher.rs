use vstd::prelude::*;
use crate::catalog::{AIR, VoxelCatalog, VoxelFace, VoxelType, draws, MAX_FACES_PER_VOXEL};
use crate::coords::{
    VOXELS_IN_CHUNK,
    VoxelChunkPosition,
    VoxelPositionAddError,
    step_from,
};
use crate::direction::{DirectionMap, VoxelFaceDirection, reverse_spec};

verus! {

/// A vertex of a chunk mesh. The position is chunk-local, in voxel units. The
/// texture coordinate is in units of one atlas cell: divided by the atlas width
/// it gives the coordinate in the whole atlas.
#[derive(Clone, Copy, Debug, PartialEq, Eq, Structural)]
pub struct Vertex {
    pub x: u32,
    pub y: u32,
    pub z: u32,
    pub u: u32,
    pub v: u32,
}

/// Vertices and triangle indices of a chunk, with the number of vertices
/// emitted so far.
#[derive(Debug)]
pub struct ChunkMesh {
    pub vertices: Vec<Vertex>,
    pub indices: Vec<u32>,
    pub vertex_index: u32,
}

/// One emitted quad: the grid index of its voxel and the face drawn there.
pub type Quad = (int, VoxelFace);

/// The position of grid index `i`.
pub open spec fn pos_of(i: int) -> VoxelChunkPosition {
    VoxelChunkPosition { x: (i / 1024) as u8, y: ((i / 32) % 32) as u8, z: (i % 32) as u8 }
}

/// The neighbouring grid on side `d`, if it is loaded.
pub open spec fn neighbour_grid(nbs: DirectionMap<Option<Seq<u8>>>, d: VoxelFaceDirection) -> Option<
    Seq<u8>,
> {
    match nbs.get_spec(d) {
        Some(g) => g,
        None => None,
    }
}

/// The id at index `i` of a grid; an absent grid is all air.
pub open spec fn id_or_air(g: Option<Seq<u8>>, i: int) -> u8 {
    match g {
        Some(s) => s[i],
        None => AIR,
    }
}

/// The id of the voxel one step from grid index `i` across side `d`: from the
/// own grid while the step stays inside the chunk, else from the neighbouring
/// grid on that side.
pub open spec fn neighbour_id(
    own: Seq<u8>,
    nbs: DirectionMap<Option<Seq<u8>>>,
    i: int,
    d: VoxelFaceDirection,
) -> u8 {
    match step_from(pos_of(i), d) {
        Ok(q) => own[q.index()],
        Err(VoxelPositionAddError::OutOfLowerBound(_, q)) => id_or_air(neighbour_grid(nbs, d), q.index()),
        Err(VoxelPositionAddError::OutOfUpperBound(_, q)) => id_or_air(neighbour_grid(nbs, d), q.index()),
    }
}

/// A face of the voxel at `i` is drawn when the type of the voxel it looks at
/// lets neighbours draw on the side that faces back; faces of the non-cull
/// direction are always drawn.
pub open spec fn face_visible(
    cat: Seq<VoxelType>,
    own: Seq<u8>,
    nbs: DirectionMap<Option<Seq<u8>>>,
    i: int,
    f: VoxelFace,
) -> bool {
    draws(cat[neighbour_id(own, nbs, i, f.direction) as int], reverse_spec(f.direction))
}

/// The visible faces among the first `n` faces of the voxel at `i`, in face order.
pub open spec fn voxel_quads_upto(
    cat: Seq<VoxelType>,
    own: Seq<u8>,
    nbs: DirectionMap<Option<Seq<u8>>>,
    i: int,
    n: int,
) -> Seq<Quad>
    decreases n,
{
    if n <= 0 {
        Seq::empty()
    } else {
        let prev = voxel_quads_upto(cat, own, nbs, i, n - 1);
        let f = cat[own[i] as int].faces@[n - 1];
        if face_visible(cat, own, nbs, i, f) {
            prev.push((i, f))
        } else {
            prev
        }
    }
}

/// The quads of the voxel at `i`; air has none.
pub open spec fn voxel_quads(
    cat: Seq<VoxelType>,
    own: Seq<u8>,
    nbs: DirectionMap<Option<Seq<u8>>>,
    i: int,
) -> Seq<Quad> {
    if own[i] == AIR {
        Seq::empty()
    } else {
        voxel_quads_upto(cat, own, nbs, i, cat[own[i] as int].faces@.len() as int)
    }
}

/// The quads of the first `n` voxels, in index order.
pub open spec fn chunk_quads(
    cat: Seq<VoxelType>,
    own: Seq<u8>,
    nbs: DirectionMap<Option<Seq<u8>>>,
    n: int,
) -> Seq<Quad>
    decreases n,
{
    if n <= 0 {
        Seq::empty()
    } else {
        chunk_quads(cat, own, nbs, n - 1) + voxel_quads(cat, own, nbs, n - 1)
    }
}

/// Corner `k` of quad `q`, moved to its voxel and with its texture coordinate
/// moved into the atlas cell of the face's texture.
pub open spec fn quad_vertex(q: Quad, k: int, atlas_width: int) -> Vertex {
    let p = pos_of(q.0);
    let c = q.1.vertices@[k];
    Vertex {
        x: (p.x + c.x) as u32,
        y: (p.y + c.y) as u32,
        z: (p.z + c.z) as u32,
        u: (q.1.texture as int % atlas_width + c.u) as u32,
        v: (q.1.texture as int / atlas_width + c.v) as u32,
    }
}

/// The vertices of the quads, four per quad, in order.
pub open spec fn quads_vertices(qs: Seq<Quad>, atlas_width: int) -> Seq<Vertex>
    decreases qs.len(),
{
    if qs.len() == 0 {
        Seq::empty()
    } else {
        let q = qs.last();
        quads_vertices(qs.drop_last(), atlas_width) + seq![
            quad_vertex(q, 0, atlas_width),
            quad_vertex(q, 1, atlas_width),
            quad_vertex(q, 2, atlas_width),
            quad_vertex(q, 3, atlas_width),
        ]
    }
}

/// The triangle indices of the quads, six per quad, each offset by the number
/// of vertices of the quads before it.
pub open spec fn quads_indices(qs: Seq<Quad>) -> Seq<u32>
    decreases qs.len(),
{
    if qs.len() == 0 {
        Seq::empty()
    } else {
        let q = qs.last();
        let base = 4 * (qs.len() - 1);
        quads_indices(qs.drop_last()) + seq![
            (base + q.1.indices@[0]) as u32,
            (base + q.1.indices@[1]) as u32,
            (base + q.1.indices@[2]) as u32,
            (base + q.1.indices@[3]) as u32,
            (base + q.1.indices@[4]) as u32,
            (base + q.1.indices@[5]) as u32,
        ]
    }
}

/// `m` holds exactly the geometry of the quads `qs`.
pub open spec fn mesh_of(m: ChunkMesh, qs: Seq<Quad>, atlas_width: int) -> bool {
    &&& m.vertices@ == quads_vertices(qs, atlas_width)
    &&& m.indices@ == quads_indices(qs)
    &&& m.vertex_index == 4 * qs.len()
}

/// The view of borrowed neighbouring grids.
pub open spec fn grids_view(nbs: DirectionMap<Option<&Vec<u8>>>) -> DirectionMap<Option<Seq<u8>>> {
    DirectionMap {
        front: grid_view(nbs.front),
        back: grid_view(nbs.back),
        left: grid_view(nbs.left),
        right: grid_view(nbs.right),
        top: grid_view(nbs.top),
        bottom: grid_view(nbs.bottom),
    }
}

pub open spec fn grid_view(g: Option<&Vec<u8>>) -> Option<Seq<u8>> {
    match g {
        Some(v) => Some(v@),
        None => None,
    }
}

/// A grid that is absent or holds one chunk of ids known to the catalog.
pub open spec fn grid_ok(g: Option<Seq<u8>>, cat: VoxelCatalog) -> bool {
    match g {
        Some(s) => s.len() == VOXELS_IN_CHUNK && cat.covers(s),
        None => true,
    }
}

pub open spec fn grids_ok(nbs: DirectionMap<Option<Seq<u8>>>, cat: VoxelCatalog) -> bool {
    &&& grid_ok(nbs.front, cat)
    &&& grid_ok(nbs.back, cat)
    &&& grid_ok(nbs.left, cat)
    &&& grid_ok(nbs.right, cat)
    &&& grid_ok(nbs.top, cat)
    &&& grid_ok(nbs.bottom, cat)
}

/// The texture coordinate `(u, v)` of a face corner moved into the atlas cell
/// of `texture_index`, in units of one cell: the cell is column
/// `texture_index % atlas_width`, row `texture_index / atlas_width`.
pub fn calculate_uv(texture_index: u16, u: u8, v: u8, atlas_width: u16) -> (r: (u32, u32))
    requires
        atlas_width > 0,
        u <= 1 && v <= 1,
    ensures
        r.0 == texture_index % atlas_width + u,
        r.1 == texture_index / atlas_width + v,
{
    ((texture_index % atlas_width) as u32 + u as u32, (texture_index / atlas_width) as u32 + v as u32)
}

impl ChunkMesh {
    pub fn new() -> (r: Self)
        ensures
            mesh_of(r, Seq::empty(), 1),
            r.vertices@.len() == 0,
            r.indices@.len() == 0,
            r.vertex_index == 0,
    {
        Self { vertices: Vec::new(), indices: Vec::new(), vertex_index: 0 }
    }

    pub fn get_vertex_index(&self) -> (r: u32)
        ensures
            r == self.vertex_index,
    {
        self.vertex_index
    }

    /// Appends face `face` of the voxel at grid index `voxel_index`.
    pub fn add_face(&mut self, voxel_index: usize, face: &VoxelFace, atlas_width: u16)
        requires
            voxel_index < VOXELS_IN_CHUNK,
            face.wf(),
            atlas_width > 0,
            old(self).vertex_index + 4 <= u32::MAX,
            exists|qs: Seq<Quad>| mesh_of(*old(self), qs, atlas_width as int),
        ensures
            forall|qs: Seq<Quad>|
                mesh_of(*old(self), qs, atlas_width as int) ==> mesh_of(
                    *final(self),
                    #[trigger] qs.push((voxel_index as int, *face)),
                    atlas_width as int,
                ),
    {
        let ghost old_vertices = self.vertices@;
        let ghost old_indices = self.indices@;
        let pos = VoxelChunkPosition::from_index(voxel_index);
        let mut k: usize = 0;
        while k < 4
            invariant
                0 <= k <= 4,
                face.wf(),
                atlas_width > 0,
                pos == pos_of(voxel_index as int),
                pos.wf(),
                self.vertex_index == old(self).vertex_index,
                self.indices@ == old_indices,
                self.vertices@.len() == old_vertices.len() + k,
                forall|a: int| 0 <= a < old_vertices.len() ==> self.vertices@[a] == old_vertices[a],
                forall|a: int|
                    0 <= a < k ==> #[trigger] self.vertices@[old_vertices.len() as int + a] == quad_vertex(
                        (voxel_index as int, *face),
                        a,
                        atlas_width as int,
                    ),
            decreases 4 - k,
        {
            let c = face.vertices[k];
            let (u, v) = calculate_uv(face.texture, c.u, c.v, atlas_width);
            self.vertices.push(
                Vertex {
                    x: pos.x as u32 + c.x as u32,
                    y: pos.y as u32 + c.y as u32,
                    z: pos.z as u32 + c.z as u32,
                    u,
                    v,
                },
            );
            k += 1;
        }
        let base = self.vertex_index;
        let ghost new_vertices = self.vertices@;
        let mut j: usize = 0;
        while j < 6
            invariant
                0 <= j <= 6,
                self.vertices@ == new_vertices,
                base == old(self).vertex_index,
                face.wf(),
                base + 4 <= u32::MAX,
                self.indices@.len() == old_indices.len() + j,
                forall|a: int| 0 <= a < old_indices.len() ==> self.indices@[a] == old_indices[a],
                forall|a: int|
                    0 <= a < j ==> #[trigger] self.indices@[old_indices.len() as int + a] == base
                        + face.indices@[a],
            decreases 6 - j,
        {
            self.indices.push(base + face.indices[j]);
            j += 1;
        }
        self.vertex_index = base + 4;
        proof {
            let q = (voxel_index as int, *face);
            let w = atlas_width as int;
            assert forall|qs: Seq<Quad>| mesh_of(*old(self), qs, w) implies mesh_of(
                *self,
                #[trigger] qs.push(q),
                w,
            ) by {
                let ps = qs.push(q);
                assert(ps.drop_last() =~= qs);
                assert(ps.last() == q);
                assert(self.vertices@ =~= quads_vertices(ps, w)) by {
                    assert(self.vertices@ =~= old_vertices + seq![
                        quad_vertex(q, 0, w),
                        quad_vertex(q, 1, w),
                        quad_vertex(q, 2, w),
                        quad_vertex(q, 3, w),
                    ]) by {
                        assert(self.vertices@[old_vertices.len() as int + 0] == quad_vertex(q, 0, w));
                        assert(self.vertices@[old_vertices.len() as int + 1] == quad_vertex(q, 1, w));
                        assert(self.vertices@[old_vertices.len() as int + 2] == quad_vertex(q, 2, w));
                        assert(self.vertices@[old_vertices.len() as int + 3] == quad_vertex(q, 3, w));
                    }
                }
                assert(self.indices@ =~= quads_indices(ps)) by {
                    assert(self.indices@[old_indices.len() as int + 0] == base + face.indices@[0]);
                    assert(self.indices@[old_indices.len() as int + 1] == base + face.indices@[1]);
                    assert(self.indices@[old_indices.len() as int + 2] == base + face.indices@[2]);
                    assert(self.indices@[old_indices.len() as int + 3] == base + face.indices@[3]);
                    assert(self.indices@[old_indices.len() as int + 4] == base + face.indices@[4]);
                    assert(self.indices@[old_indices.len() as int + 5] == base + face.indices@[5]);
                }
            }
        }
    }
}

/// Each quad of `qs` carries a well-formed face.
pub open spec fn quads_wf(qs: Seq<Quad>) -> bool {
    forall|m: int| 0 <= m < qs.len() ==> (#[trigger] qs[m]).1.wf()
}

/// The geometry of well-formed quads has four vertices and six indices per
/// quad, and every index names one of its vertices.
pub proof fn lemma_quads_shape(qs: Seq<Quad>, atlas_width: int)
    requires
        quads_wf(qs),
        4 * qs.len() <= u32::MAX,
    ensures
        quads_vertices(qs, atlas_width).len() == 4 * qs.len(),
        quads_indices(qs).len() == 6 * qs.len(),
        forall|j: int|
            0 <= j < quads_indices(qs).len() ==> #[trigger] quads_indices(qs)[j] < 4 * qs.len(),
    decreases qs.len(),
{
    if qs.len() > 0 {
        let p = qs.drop_last();
        assert(quads_wf(p)) by {
            assert forall|m: int| 0 <= m < p.len() implies (#[trigger] p[m]).1.wf() by {
                assert(p[m] == qs[m]);
            }
        }
        lemma_quads_shape(p, atlas_width);
        let q = qs.last();
        assert(q == qs[qs.len() - 1]);
        assert(q.1.wf());
        let is = quads_indices(qs);
        assert forall|j: int| 0 <= j < is.len() implies #[trigger] is[j] < 4 * qs.len() by {
            if j < 6 * p.len() {
                assert(is[j] == quads_indices(p)[j]);
            } else {
                let k = j - 6 * p.len();
                assert(0 <= k < 6);
                assert(q.1.indices@[k] < 4);
            }
        }
    }
}

/// Whether the face of the voxel at `voxel_index` that looks toward `direction`
/// is drawn: the voxel one step that way, read from the own grid or from the
/// neighbouring grid on that side (air when that grid is absent), must let
/// neighbours draw on the side facing back.
pub fn should_draw_face(
    voxel_index: usize,
    direction: &VoxelFaceDirection,
    own: &Vec<u8>,
    nbs: &DirectionMap<Option<&Vec<u8>>>,
    catalog: &VoxelCatalog,
) -> (r: bool)
    requires
        voxel_index < VOXELS_IN_CHUNK,
        own@.len() == VOXELS_IN_CHUNK,
        catalog.wf(),
        catalog.covers(own@),
        grids_ok(grids_view(*nbs), *catalog),
    ensures
        r == draws(
            catalog.types@[neighbour_id(own@, grids_view(*nbs), voxel_index as int, *direction) as int],
            reverse_spec(*direction),
        ),
{
    let pos = VoxelChunkPosition::from_index(voxel_index);
    let id: u8 = match pos.add_from_direction(direction) {
        Ok(q) => own[q.to_index()],
        Err(VoxelPositionAddError::OutOfLowerBound(_, q)) => neighbour_voxel(nbs, direction, &q, catalog),
        Err(VoxelPositionAddError::OutOfUpperBound(_, q)) => neighbour_voxel(nbs, direction, &q, catalog),
    };
    catalog.types[id as usize].should_draw(&direction.reverse())
}

/// The id at `q` in the neighbouring grid on side `direction`; air when that grid
/// is absent.
fn neighbour_voxel(
    nbs: &DirectionMap<Option<&Vec<u8>>>,
    direction: &VoxelFaceDirection,
    q: &VoxelChunkPosition,
    catalog: &VoxelCatalog,
) -> (r: u8)
    requires
        q.wf(),
        grids_ok(grids_view(*nbs), *catalog),
    ensures
        r == id_or_air(neighbour_grid(grids_view(*nbs), *direction), q.index()),
        r < catalog.types@.len() || r == AIR,
{
    match nbs.get_by_voxel_face_direction(*direction) {
        Some(Some(g)) => g[q.to_index()],
        _ => AIR,
    }
}

/// Appends the visible faces of the voxel at `voxel_index`, in face order.
fn mesh_voxel(
    mesh: &mut ChunkMesh,
    voxel_index: usize,
    own: &Vec<u8>,
    nbs: &DirectionMap<Option<&Vec<u8>>>,
    catalog: &VoxelCatalog,
    atlas_width: u16,
    Ghost(qs): Ghost<Seq<Quad>>,
)
    requires
        voxel_index < VOXELS_IN_CHUNK,
        own@.len() == VOXELS_IN_CHUNK,
        catalog.wf(),
        catalog.covers(own@),
        grids_ok(grids_view(*nbs), *catalog),
        atlas_width > 0,
        mesh_of(*old(mesh), qs, atlas_width as int),
        old(mesh).vertex_index + 4 * MAX_FACES_PER_VOXEL <= u32::MAX,
    ensures
        mesh_of(
            *final(mesh),
            qs + voxel_quads(catalog.types@, own@, grids_view(*nbs), voxel_index as int),
            atlas_width as int,
        ),
        voxel_quads(catalog.types@, own@, grids_view(*nbs), voxel_index as int).len()
            <= MAX_FACES_PER_VOXEL,
        quads_wf(voxel_quads(catalog.types@, own@, grids_view(*nbs), voxel_index as int)),
{
    let ghost cat = catalog.types@;
    let ghost g = grids_view(*nbs);
    let ghost i = voxel_index as int;
    let voxel_id = own[voxel_index];
    if voxel_id == AIR {
        assert(qs + voxel_quads(cat, own@, g, i) =~= qs);
        return;
    }
    let voxel_type = &catalog.types[voxel_id as usize];
    assert(voxel_type.wf());
    let n = voxel_type.faces.len();
    let mut j: usize = 0;
    assert(qs + voxel_quads_upto(cat, own@, g, i, 0) =~= qs);
    while j < n
        invariant
            0 <= j <= n,
            n == voxel_type.faces@.len(),
            n <= MAX_FACES_PER_VOXEL,
            *voxel_type == cat[own@[i] as int],
            voxel_type.wf(),
            voxel_index < VOXELS_IN_CHUNK,
            own@.len() == VOXELS_IN_CHUNK,
            catalog.wf(),
            catalog.covers(own@),
            grids_ok(grids_view(*nbs), *catalog),
            atlas_width > 0,
            cat == catalog.types@,
            g == grids_view(*nbs),
            i == voxel_index,
            mesh_of(*mesh, qs + voxel_quads_upto(cat, own@, g, i, j as int), atlas_width as int),
            voxel_quads_upto(cat, own@, g, i, j as int).len() <= j,
            quads_wf(voxel_quads_upto(cat, own@, g, i, j as int)),
            mesh.vertex_index == 4 * (qs.len() + voxel_quads_upto(cat, own@, g, i, j as int).len()),
            4 * qs.len() + 4 * MAX_FACES_PER_VOXEL <= u32::MAX,
        decreases n - j,
    {
        let face = &voxel_type.faces[j];
        let ghost prev = voxel_quads_upto(cat, own@, g, i, j as int);
        assert(face.wf());
        if should_draw_face(voxel_index, &face.direction, own, nbs, catalog) {
            mesh.add_face(voxel_index, face, atlas_width);
            proof {
                let q = (i, *face);
                assert((qs + prev).push(q) =~= qs + prev.push(q));
                assert(voxel_quads_upto(cat, own@, g, i, j + 1) == prev.push(q));
                assert forall|m: int| 0 <= m < prev.push(q).len() implies (#[trigger] prev.push(
                    q,
                )[m]).1.wf() by {
                    if m < prev.len() {
                        assert(prev.push(q)[m] == prev[m]);
                    }
                }
            }
        }
        j += 1;
    }
}

/// The mesh of a chunk: for every non-air voxel in index order, each face of
/// its type in face order that `should_draw_face` lets through, as four
/// vertices and six indices offset by the vertices emitted before it.
/// Neighbouring grids that are absent count as air.
pub fn mesh_chunk(
    own: &Vec<u8>,
    nbs: &DirectionMap<Option<&Vec<u8>>>,
    catalog: &VoxelCatalog,
    atlas_width: u16,
) -> (r: ChunkMesh)
    requires
        own@.len() == VOXELS_IN_CHUNK,
        catalog.wf(),
        catalog.covers(own@),
        grids_ok(grids_view(*nbs), *catalog),
        atlas_width > 0,
    ensures
        mesh_of(
            r,
            chunk_quads(catalog.types@, own@, grids_view(*nbs), VOXELS_IN_CHUNK as int),
            atlas_width as int,
        ),
        r.vertices@.len() % 4 == 0,
        r.indices@.len() % 3 == 0,
        r.vertices@.len() <= 4 * MAX_FACES_PER_VOXEL * VOXELS_IN_CHUNK,
        r.indices@.len() <= 6 * MAX_FACES_PER_VOXEL * VOXELS_IN_CHUNK,
        forall|j: int| 0 <= j < r.indices@.len() ==> #[trigger] r.indices@[j] < r.vertices@.len(),
{
    let ghost cat = catalog.types@;
    let ghost g = grids_view(*nbs);
    let mut mesh = ChunkMesh::new();
    let mut i: usize = 0;
    assert(chunk_quads(cat, own@, g, 0) =~= Seq::<Quad>::empty());
    while i < VOXELS_IN_CHUNK
        invariant
            0 <= i <= VOXELS_IN_CHUNK,
            own@.len() == VOXELS_IN_CHUNK,
            catalog.wf(),
            catalog.covers(own@),
            grids_ok(grids_view(*nbs), *catalog),
            atlas_width > 0,
            cat == catalog.types@,
            g == grids_view(*nbs),
            mesh_of(mesh, chunk_quads(cat, own@, g, i as int), atlas_width as int),
            chunk_quads(cat, own@, g, i as int).len() <= MAX_FACES_PER_VOXEL * i,
            quads_wf(chunk_quads(cat, own@, g, i as int)),
        decreases VOXELS_IN_CHUNK - i,
    {
        let ghost prev = chunk_quads(cat, own@, g, i as int);
        mesh_voxel(&mut mesh, i, own, nbs, catalog, atlas_width, Ghost(prev));
        proof {
            let vq = voxel_quads(cat, own@, g, i as int);
            assert(chunk_quads(cat, own@, g, i + 1) == prev + vq);
            assert forall|m: int| 0 <= m < (prev + vq).len() implies (#[trigger] (prev + vq)[m]).1.wf() by {
                if m < prev.len() {
                    assert((prev + vq)[m] == prev[m]);
                } else {
                    assert((prev + vq)[m] == vq[m - prev.len()]);
                }
            }
        }
        i += 1;
    }
    proof {
        let qs = chunk_quads(cat, own@, g, VOXELS_IN_CHUNK as int);
        lemma_quads_shape(qs, atlas_width as int);
    }
    mesh
}

proof fn lemma_upto_none_visible(
    cat: Seq<VoxelType>,
    own: Seq<u8>,
    nbs: DirectionMap<Option<Seq<u8>>>,
    i: int,
    n: int,
)
    requires
        0 <= n <= cat[own[i] as int].faces@.len(),
        forall|j: int|
            0 <= j < n ==> !face_visible(cat, own, nbs, i, #[trigger] cat[own[i] as int].faces@[j]),
    ensures
        voxel_quads_upto(cat, own, nbs, i, n).len() == 0,
    decreases n,
{
    if n > 0 {
        lemma_upto_none_visible(cat, own, nbs, i, n - 1);
        assert(!face_visible(cat, own, nbs, i, cat[own[i] as int].faces@[n - 1]));
    }
}

proof fn lemma_upto_all_visible(
    cat: Seq<VoxelType>,
    own: Seq<u8>,
    nbs: DirectionMap<Option<Seq<u8>>>,
    i: int,
    n: int,
)
    requires
        0 <= n <= cat[own[i] as int].faces@.len(),
        forall|j: int|
            0 <= j < n ==> face_visible(cat, own, nbs, i, #[trigger] cat[own[i] as int].faces@[j]),
    ensures
        voxel_quads_upto(cat, own, nbs, i, n).len() == n,
        forall|j: int|
            0 <= j < n ==> #[trigger] voxel_quads_upto(cat, own, nbs, i, n)[j] == (
                i,
                cat[own[i] as int].faces@[j],
            ),
    decreases n,
{
    if n > 0 {
        lemma_upto_all_visible(cat, own, nbs, i, n - 1);
        assert(face_visible(cat, own, nbs, i, cat[own[i] as int].faces@[n - 1]));
        let prev = voxel_quads_upto(cat, own, nbs, i, n - 1);
        let cur = voxel_quads_upto(cat, own, nbs, i, n);
        assert forall|j: int| 0 <= j < n implies #[trigger] cur[j] == (i, cat[own[i] as int].faces@[j]) by {
            if j < n - 1 {
                assert(cur[j] == prev[j]);
            }
        }
    }
}

/// Culling: a voxel whose faces all look in cardinal directions, and whose
/// neighbours on every side all hide the face turned toward them, emits no
/// face.
pub proof fn lemma_enclosed_voxel_emits_nothing(
    cat: Seq<VoxelType>,
    own: Seq<u8>,
    nbs: DirectionMap<Option<Seq<u8>>>,
    i: int,
)
    requires
        own[i] != AIR,
        forall|j: int|
            0 <= j < cat[own[i] as int].faces@.len() ==> (#[trigger] cat[own[i] as int].faces@[j]).direction
                != VoxelFaceDirection::Other,
        forall|d: VoxelFaceDirection|
            d != VoxelFaceDirection::Other ==> !draws(
                cat[neighbour_id(own, nbs, i, d) as int],
                #[trigger] reverse_spec(d),
            ),
    ensures
        voxel_quads(cat, own, nbs, i).len() == 0,
{
    let faces = cat[own[i] as int].faces@;
    assert forall|j: int| 0 <= j < faces.len() implies !face_visible(
        cat,
        own,
        nbs,
        i,
        #[trigger] cat[own[i] as int].faces@[j],
    ) by {
        let d = faces[j].direction;
        assert(d != VoxelFaceDirection::Other);
        assert(!draws(cat[neighbour_id(own, nbs, i, d) as int], reverse_spec(d)));
    }
    lemma_upto_none_visible(cat, own, nbs, i, faces.len() as int);
}

/// Culling: a non-air voxel with air on every side, where air lets every
/// neighbour draw, emits every face of its type, in face order.
pub proof fn lemma_isolated_voxel_emits_all_faces(
    cat: Seq<VoxelType>,
    own: Seq<u8>,
    nbs: DirectionMap<Option<Seq<u8>>>,
    i: int,
)
    requires
        own[i] != AIR,
        forall|d: VoxelFaceDirection| draws(#[trigger] cat[AIR as int], d),
        forall|d: VoxelFaceDirection|
            d != VoxelFaceDirection::Other ==> #[trigger] neighbour_id(own, nbs, i, d) == AIR,
    ensures
        voxel_quads(cat, own, nbs, i).len() == cat[own[i] as int].faces@.len(),
        forall|j: int|
            0 <= j < cat[own[i] as int].faces@.len() ==> #[trigger] voxel_quads(cat, own, nbs, i)[j]
                == (i, cat[own[i] as int].faces@[j]),
{
    let faces = cat[own[i] as int].faces@;
    assert forall|j: int| 0 <= j < faces.len() implies face_visible(
        cat,
        own,
        nbs,
        i,
        #[trigger] cat[own[i] as int].faces@[j],
    ) by {
        let d = faces[j].direction;
        if d != VoxelFaceDirection::Other {
            assert(neighbour_id(own, nbs, i, d) == AIR);
            assert(draws(cat[AIR as int], reverse_spec(d)));
        } else {
            assert(draws(cat[neighbour_id(own, nbs, i, d) as int], reverse_spec(d)));
        }
    }
    lemma_upto_all_visible(cat, own, nbs, i, faces.len() as int);
}

} // verus!
