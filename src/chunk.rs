use crate::block::{atlas_anchor, block_of, is_air, BlockWrapper, Blocks, AIR_ID, DIRT_ID};
use crate::cube::{face_quad, faces_of, faces_upto, lemma_faces_upto_len, Cube, MeshInfo, Vertex};
use crate::mesh::{gen_indices, joined, quad_indices, ChunkMesh};
use vstd::prelude::*;

verus! {

/// Extent of a chunk along X.
pub const X_SIZE: usize = 16;

/// Extent of a chunk along Y.
pub const Y_SIZE: usize = 256;

/// Extent of a chunk along Z.
pub const Z_SIZE: usize = 16;

/// Blocks in one Y layer.
pub const HORIZONTAL_SLICE_SIZE: usize = 256;

/// Blocks in one chunk.
pub const BLOCK_COUNT: usize = 65536;

/// Offset of local block `(x, y, z)` in a grid: Y-major, then X, then Z.
pub open spec fn block_index(x: int, y: int, z: int) -> int {
    y * HORIZONTAL_SLICE_SIZE + x * Z_SIZE + z
}

/// Whether `(x, y, z)` lies inside a chunk.
pub open spec fn in_chunk(x: int, y: int, z: int) -> bool {
    0 <= x < X_SIZE && 0 <= y < Y_SIZE && 0 <= z < Z_SIZE
}

/// The default terrain: dirt everywhere but the top layer, which is air.
pub open spec fn default_terrain() -> Seq<u16> {
    Seq::new(BLOCK_COUNT as nat, |i: int| if i >= (Y_SIZE - 1) * HORIZONTAL_SLICE_SIZE { AIR_ID } else { DIRT_ID })
}

/// Decomposition of a block offset into its layer and the rest.
pub proof fn lemma_block_index(x: int, y: int, z: int)
    requires
        in_chunk(x, y, z),
    ensures
        0 <= block_index(x, y, z) < BLOCK_COUNT,
        block_index(x, y, z) >= (Y_SIZE - 1) * HORIZONTAL_SLICE_SIZE <==> y == Y_SIZE - 1,
{
}

/// The block ids of one chunk, indexed by `block_index`.
pub struct BlockGrid {
    blocks: Vec<u16>,
}

impl View for BlockGrid {
    type V = Seq<u16>;

    closed spec fn view(&self) -> Seq<u16> {
        self.blocks@
    }
}

impl BlockGrid {
    /// The grid holds one id per block of a chunk.
    pub open spec fn wf(&self) -> bool {
        self@.len() == BLOCK_COUNT
    }

    /// The id at local `(x, y, z)`.
    pub open spec fn id_at(&self, x: int, y: int, z: int) -> u16 {
        self@[block_index(x, y, z)]
    }

    /// A grid with every block set to `id`.
    pub fn filled(id: u16) -> (r: BlockGrid)
        ensures
            r.wf(),
            forall|i: int| 0 <= i < BLOCK_COUNT ==> #[trigger] r@[i] == id,
    {
        let mut blocks: Vec<u16> = Vec::with_capacity(BLOCK_COUNT);
        let mut i: usize = 0;
        while i < BLOCK_COUNT
            invariant
                i <= BLOCK_COUNT,
                blocks@.len() == i,
                forall|j: int| 0 <= j < i ==> #[trigger] blocks@[j] == id,
            decreases BLOCK_COUNT - i,
        {
            blocks.push(id);
            i = i + 1;
        }
        BlockGrid { blocks }
    }

    /// A grid holding `blocks`, or `None` when there is not exactly one id per
    /// block of a chunk.
    pub fn from_blocks(blocks: Vec<u16>) -> (r: Option<BlockGrid>)
        ensures
            blocks@.len() == BLOCK_COUNT <==> r.is_some(),
            r.is_some() ==> r.unwrap()@ == blocks@,
    {
        if blocks.len() == BLOCK_COUNT {
            Some(BlockGrid { blocks })
        } else {
            None
        }
    }

    /// The id at local `(x, y, z)`.
    pub fn id(&self, x: usize, y: usize, z: usize) -> (r: u16)
        requires
            self.wf(),
            in_chunk(x as int, y as int, z as int),
        ensures
            r == self.id_at(x as int, y as int, z as int),
    {
        self.blocks[y * HORIZONTAL_SLICE_SIZE + x * Z_SIZE + z]
    }

    /// The kind of block at local `(x, y, z)`.
    pub fn query_block(&self, x: usize, y: usize, z: usize) -> (r: Blocks)
        requires
            self.wf(),
            in_chunk(x as int, y as int, z as int),
        ensures
            r == block_of(self.id_at(x as int, y as int, z as int)),
    {
        BlockWrapper.index(self.id(x, y, z))
    }
}

/// The grids of the chunks beside one chunk along -Z, +Z, -X and +X, where
/// they are loaded; `None` where no chunk is loaded on that side.
pub struct Neighbors<'a> {
    pub neg_z: Option<&'a BlockGrid>,
    pub pos_z: Option<&'a BlockGrid>,
    pub neg_x: Option<&'a BlockGrid>,
    pub pos_x: Option<&'a BlockGrid>,
}

impl<'a> Neighbors<'a> {
    /// Every grid present holds one id per block.
    pub open spec fn wf(&self) -> bool {
        &&& (self.neg_z.is_some() ==> self.neg_z.unwrap().wf())
        &&& (self.pos_z.is_some() ==> self.pos_z.unwrap().wf())
        &&& (self.neg_x.is_some() ==> self.neg_x.unwrap().wf())
        &&& (self.pos_x.is_some() ==> self.pos_x.unwrap().wf())
    }

    /// No chunk is loaded on any side.
    pub fn none() -> (r: Neighbors<'a>)
        ensures
            r.wf(),
            r.neg_z.is_none() && r.pos_z.is_none() && r.neg_x.is_none() && r.pos_x.is_none(),
    {
        Neighbors { neg_z: None, pos_z: None, neg_x: None, pos_x: None }
    }
}

/// Face direction -Z; each direction is also its bit in a face mask.
pub const NEG_Z: u8 = 0;

/// Face direction +Z.
pub const POS_Z: u8 = 1;

/// Face direction -X.
pub const NEG_X: u8 = 2;

/// Face direction +X.
pub const POS_X: u8 = 3;

/// Face direction -Y, toward the world floor.
pub const NEG_Y: u8 = 4;

/// Face direction +Y, toward the sky.
pub const POS_Y: u8 = 5;

/// Whether a face on a chunk boundary shows, given the grid loaded beyond it
/// and the cell of that grid that touches the face: it shows when the cell is
/// air or when no chunk is loaded there.
pub open spec fn side_open(nb: Option<&BlockGrid>, x: int, y: int, z: int) -> bool {
    match nb {
        Some(g) => is_air(g.id_at(x, y, z)),
        None => true,
    }
}

/// Whether face `d` of the block at local `(x, y, z)` shows: the cell beyond
/// it is air, or lies in a chunk that is not loaded, or lies outside the world
/// vertically (nothing above the top layer, nothing below the bottom one).
pub open spec fn face_open(g: &BlockGrid, nb: &Neighbors, x: int, y: int, z: int, d: int) -> bool {
    if d == NEG_Z {
        if z > 0 { is_air(g.id_at(x, y, z - 1)) } else { side_open(nb.neg_z, x, y, Z_SIZE - 1) }
    } else if d == POS_Z {
        if z < Z_SIZE - 1 { is_air(g.id_at(x, y, z + 1)) } else { side_open(nb.pos_z, x, y, 0) }
    } else if d == NEG_X {
        if x > 0 { is_air(g.id_at(x - 1, y, z)) } else { side_open(nb.neg_x, X_SIZE - 1, y, z) }
    } else if d == POS_X {
        if x < X_SIZE - 1 { is_air(g.id_at(x + 1, y, z)) } else { side_open(nb.pos_x, 0, y, z) }
    } else if d == NEG_Y {
        if y > 0 { is_air(g.id_at(x, y - 1, z)) } else { true }
    } else {
        if y < Y_SIZE - 1 { is_air(g.id_at(x, y + 1, z)) } else { true }
    }
}

/// 1 for true, 0 for false.
pub open spec fn bit_of(b: bool) -> u8 {
    if b { 1 } else { 0 }
}

/// Whether bit `d` of mask `m` is set.
pub open spec fn mask_bit(m: u8, d: u8) -> bool {
    (m >> d) & 1 == 1
}

/// The face mask of the block at local `(x, y, z)`: bit `d` is set when face
/// `d` shows.
pub open spec fn face_mask(g: &BlockGrid, nb: &Neighbors, x: int, y: int, z: int) -> u8 {
    bit_of(face_open(g, nb, x, y, z, 0)) | (bit_of(face_open(g, nb, x, y, z, 1)) << 1u8) | (bit_of(
        face_open(g, nb, x, y, z, 2),
    ) << 2u8) | (bit_of(face_open(g, nb, x, y, z, 3)) << 3u8) | (bit_of(
        face_open(g, nb, x, y, z, 4),
    ) << 4u8) | (bit_of(face_open(g, nb, x, y, z, 5)) << 5u8)
}

/// Bit `d` of a face mask says whether face `d` shows, and no other bit is set.
pub proof fn lemma_face_mask_bits(g: &BlockGrid, nb: &Neighbors, x: int, y: int, z: int)
    ensures
        face_mask(g, nb, x, y, z) < 64,
        forall|d: u8| d < 6 ==> #[trigger] mask_bit(face_mask(g, nb, x, y, z), d) == face_open(g, nb, x, y, z, d as int),
{
    let a0 = bit_of(face_open(g, nb, x, y, z, 0));
    let a1 = bit_of(face_open(g, nb, x, y, z, 1));
    let a2 = bit_of(face_open(g, nb, x, y, z, 2));
    let a3 = bit_of(face_open(g, nb, x, y, z, 3));
    let a4 = bit_of(face_open(g, nb, x, y, z, 4));
    let a5 = bit_of(face_open(g, nb, x, y, z, 5));
    let m = face_mask(g, nb, x, y, z);
    assert(m == a0 | (a1 << 1u8) | (a2 << 2u8) | (a3 << 3u8) | (a4 << 4u8) | (a5 << 5u8));
    assert({
        &&& (a0 | (a1 << 1u8) | (a2 << 2u8) | (a3 << 3u8) | (a4 << 4u8) | (a5 << 5u8)) < 64
        &&& ((a0 | (a1 << 1u8) | (a2 << 2u8) | (a3 << 3u8) | (a4 << 4u8) | (a5 << 5u8)) >> 0u8) & 1 == a0
        &&& ((a0 | (a1 << 1u8) | (a2 << 2u8) | (a3 << 3u8) | (a4 << 4u8) | (a5 << 5u8)) >> 1u8) & 1 == a1
        &&& ((a0 | (a1 << 1u8) | (a2 << 2u8) | (a3 << 3u8) | (a4 << 4u8) | (a5 << 5u8)) >> 2u8) & 1 == a2
        &&& ((a0 | (a1 << 1u8) | (a2 << 2u8) | (a3 << 3u8) | (a4 << 4u8) | (a5 << 5u8)) >> 3u8) & 1 == a3
        &&& ((a0 | (a1 << 1u8) | (a2 << 2u8) | (a3 << 3u8) | (a4 << 4u8) | (a5 << 5u8)) >> 4u8) & 1 == a4
        &&& ((a0 | (a1 << 1u8) | (a2 << 2u8) | (a3 << 3u8) | (a4 << 4u8) | (a5 << 5u8)) >> 5u8) & 1 == a5
    }) by (bit_vector)
        requires
            a0 <= 1,
            a1 <= 1,
            a2 <= 1,
            a3 <= 1,
            a4 <= 1,
            a5 <= 1,
    ;
    assert forall|d: u8| d < 6 implies #[trigger] mask_bit(m, d) == face_open(g, nb, x, y, z, d as int) by {
        if d == 0 {
        } else if d == 1 {
        } else if d == 2 {
        } else if d == 3 {
        } else if d == 4 {
        } else {
        }
    }
}

/// Whether the cell of a neighbouring grid that touches a boundary face is air,
/// or no chunk is loaded there.
fn side_is_open(nb: Option<&BlockGrid>, x: usize, y: usize, z: usize) -> (r: bool)
    requires
        nb.is_some() ==> nb.unwrap().wf(),
        in_chunk(x as int, y as int, z as int),
    ensures
        r == side_open(nb, x as int, y as int, z as int),
{
    match nb {
        Some(g) => g.query_block(x, y, z) == Blocks::Null,
        None => true,
    }
}

/// The face mask of the block at local `(x, y, z)`, one bit per direction in
/// the order -Z, +Z, -X, +X, -Y, +Y (bit 0 first): a bit is set when the face
/// in that direction shows.
pub fn query_neighbors(grid: &BlockGrid, nb: &Neighbors, x: usize, y: usize, z: usize) -> (r: u8)
    requires
        grid.wf(),
        nb.wf(),
        in_chunk(x as int, y as int, z as int),
    ensures
        r == face_mask(grid, nb, x as int, y as int, z as int),
{
    let neg_z = if z > 0 {
        grid.query_block(x, y, z - 1) == Blocks::Null
    } else {
        side_is_open(nb.neg_z, x, y, Z_SIZE - 1)
    };
    let pos_z = if z < Z_SIZE - 1 {
        grid.query_block(x, y, z + 1) == Blocks::Null
    } else {
        side_is_open(nb.pos_z, x, y, 0)
    };
    let neg_x = if x > 0 {
        grid.query_block(x - 1, y, z) == Blocks::Null
    } else {
        side_is_open(nb.neg_x, X_SIZE - 1, y, z)
    };
    let pos_x = if x < X_SIZE - 1 {
        grid.query_block(x + 1, y, z) == Blocks::Null
    } else {
        side_is_open(nb.pos_x, 0, y, z)
    };
    let neg_y = if y > 0 {
        grid.query_block(x, y - 1, z) == Blocks::Null
    } else {
        true
    };
    let pos_y = if y < Y_SIZE - 1 {
        grid.query_block(x, y + 1, z) == Blocks::Null
    } else {
        true
    };
    let mut neighbors: u8 = if neg_z { 1 } else { 0 };
    neighbors = neighbors | ((if pos_z { 1u8 } else { 0u8 }) << 1u8);
    neighbors = neighbors | ((if neg_x { 1u8 } else { 0u8 }) << 2u8);
    neighbors = neighbors | ((if pos_x { 1u8 } else { 0u8 }) << 3u8);
    neighbors = neighbors | ((if neg_y { 1u8 } else { 0u8 }) << 4u8);
    neighbors = neighbors | ((if pos_y { 1u8 } else { 0u8 }) << 5u8);
    neighbors
}

/// Where a chunk lies in the grid of chunks: world X and Z divided by the
/// chunk side.
#[derive(Clone, Copy, Debug, PartialEq, Eq, Structural)]
pub struct ChunkPosition {
    pub x: i32,
    pub z: i32,
}

impl ChunkPosition {
    /// Whether the two positions are equal or one chunk apart along one axis.
    pub open spec fn equal_or_adjacent(self, o: ChunkPosition) -> bool {
        ||| self == o
        ||| (self.z == o.z && (self.x == o.x + 1 || self.x == o.x - 1))
        ||| (self.x == o.x && (self.z == o.z + 1 || self.z == o.z - 1))
    }
}

/// The corners of the visible faces of the block at local `(x, y, z)`: none
/// for air, else the faces its mask selects, in direction order.
pub open spec fn block_vertices(g: &BlockGrid, nb: &Neighbors, x: int, y: int, z: int) -> Seq<Vertex> {
    let id = g.id_at(x, y, z);
    if is_air(id) {
        Seq::empty()
    } else {
        faces_of(face_mask(g, nb, x, y, z), (x as i32, y as i32, z as i32), atlas_anchor(block_of(id)))
    }
}

/// `block_vertices` of the block at offset `i` of the grid.
pub open spec fn block_vertices_at(g: &BlockGrid, nb: &Neighbors, i: int) -> Seq<Vertex> {
    block_vertices(g, nb, (i % 256) / 16, i / 256, i % 16)
}

/// The corners of the visible faces of the blocks at offsets `lo` up to `hi`,
/// block after block.
pub open spec fn span_vertices(g: &BlockGrid, nb: &Neighbors, lo: int, hi: int) -> Seq<Vertex>
    decreases hi - lo,
{
    if hi <= lo {
        Seq::empty()
    } else {
        span_vertices(g, nb, lo, hi - 1) + block_vertices_at(g, nb, hi - 1)
    }
}

/// The corners of the visible faces of a whole chunk.
pub open spec fn chunk_vertices(g: &BlockGrid, nb: &Neighbors) -> Seq<Vertex> {
    span_vertices(g, nb, 0, BLOCK_COUNT as int)
}

/// A block gives at most six faces of four corners.
pub proof fn lemma_block_vertices_len(g: &BlockGrid, nb: &Neighbors, i: int)
    ensures
        block_vertices_at(g, nb, i).len() % 4 == 0,
        block_vertices_at(g, nb, i).len() <= 24,
{
    let x = (i % 256) / 16;
    let y = i / 256;
    let z = i % 16;
    let id = g.id_at(x, y, z);
    lemma_faces_upto_len(
        face_mask(g, nb, x, y, z),
        (x as i32, y as i32, z as i32),
        atlas_anchor(block_of(id)),
        6,
    );
}

/// A run of blocks gives whole quads, at most six per block.
pub proof fn lemma_span_len(g: &BlockGrid, nb: &Neighbors, lo: int, hi: int)
    requires
        lo <= hi,
    ensures
        span_vertices(g, nb, lo, hi).len() % 4 == 0,
        span_vertices(g, nb, lo, hi).len() <= 24 * (hi - lo),
    decreases hi - lo,
{
    if hi > lo {
        lemma_span_len(g, nb, lo, hi - 1);
        lemma_block_vertices_len(g, nb, hi - 1);
    }
}

/// Meshing two adjacent runs of blocks and joining the results is meshing
/// the whole run.
pub proof fn lemma_span_split(g: &BlockGrid, nb: &Neighbors, lo: int, mid: int, hi: int)
    requires
        lo <= mid <= hi,
    ensures
        span_vertices(g, nb, lo, mid) + span_vertices(g, nb, mid, hi) == span_vertices(g, nb, lo, hi),
    decreases hi - mid,
{
    if hi > mid {
        lemma_span_split(g, nb, lo, mid, hi - 1);
        assert(span_vertices(g, nb, lo, mid) + span_vertices(g, nb, mid, hi) =~= span_vertices(
            g,
            nb,
            lo,
            mid,
        ) + span_vertices(g, nb, mid, hi - 1) + block_vertices_at(g, nb, hi - 1));
    } else {
        assert(span_vertices(g, nb, lo, mid) + span_vertices(g, nb, mid, hi) =~= span_vertices(
            g,
            nb,
            lo,
            mid,
        ));
    }
}

/// Splitting a chunk into `k` equal runs of `w` blocks, meshing each run on
/// its own (in any order or in parallel) and joining the parts in run order
/// gives the mesh of the first `k * w` blocks.
pub proof fn lemma_parts_join(g: &BlockGrid, nb: &Neighbors, parts: Seq<Vec<Vertex>>, w: int)
    requires
        w >= 0,
        forall|i: int| 0 <= i < parts.len() ==> (#[trigger] parts[i])@ == span_vertices(g, nb, i * w, (i + 1) * w),
    ensures
        joined(parts) == span_vertices(g, nb, 0, parts.len() * w),
    decreases parts.len(),
{
    let k = parts.len() as int;
    if k == 0 {
        assert(joined(parts) =~= Seq::<Vertex>::empty());
    } else {
        let init = parts.drop_last();
        assert((k - 1) * w + w == k * w) by (nonlinear_arith);
        assert(0 <= (k - 1) * w) by (nonlinear_arith)
            requires
                k >= 1,
                w >= 0,
        ;
        lemma_parts_join(g, nb, init, w);
        let init_views = init.map_values(|p: Vec<Vertex>| p@);
        let views = parts.map_values(|p: Vec<Vertex>| p@);
        assert(views =~= init_views.push(parts[k - 1]@));
        init_views.lemma_flatten_push(parts[k - 1]@);
        assert(joined(parts) == views.flatten());
        assert(joined(init) == init_views.flatten());
        assert(joined(parts) =~= joined(init) + parts[k - 1]@);
        assert(joined(init) == span_vertices(g, nb, 0, (k - 1) * w));
        assert(parts[k - 1]@ == span_vertices(g, nb, (k - 1) * w, k * w));
        lemma_span_split(g, nb, 0, (k - 1) * w, k * w);
    }
}

/// Group `f` of four corners of `vs`: the corners of its `f`-th quad.
pub open spec fn quad_at(vs: Seq<Vertex>, f: int) -> Seq<Vertex> {
    vs.subrange(4 * f, 4 * f + 4)
}

/// Whether `vs` holds `q` as one of its quads.
pub open spec fn has_quad(vs: Seq<Vertex>, q: Seq<Vertex>) -> bool {
    exists|f: int| 0 <= f && 4 * f + 4 <= vs.len() && #[trigger] quad_at(vs, f) == q
}

/// Local position of the block at offset `i`, as corner coordinates.
pub open spec fn block_place(i: int) -> (i32, i32, i32) {
    (((i % 256) / 16) as i32, (i / 256) as i32, (i % 16) as i32)
}

/// Every quad of a block's face list is the face of one direction whose
/// mask bit is set.
proof fn lemma_faces_quads(m: u8, p: (i32, i32, i32), a: (u32, u32), n: nat, f: int)
    requires
        0 <= f,
        4 * f + 4 <= faces_upto(m, p, a, n).len(),
    ensures
        exists|d: int| 0 <= d < n && mask_bit(m, d as u8) && quad_at(faces_upto(m, p, a, n), f) == face_quad(d, p, a),
    decreases n,
{
    let prev = faces_upto(m, p, a, (n - 1) as nat);
    lemma_faces_upto_len(m, p, a, (n - 1) as nat);
    if 4 * f + 4 <= prev.len() {
        lemma_faces_quads(m, p, a, (n - 1) as nat, f);
        let d = choose|d: int| 0 <= d < n - 1 && mask_bit(m, d as u8) && quad_at(prev, f) == face_quad(d, p, a);
        if mask_bit(m, (n - 1) as u8) {
            assert(quad_at(faces_upto(m, p, a, n), f) =~= quad_at(prev, f));
        }
        assert(0 <= d < n && mask_bit(m, d as u8) && quad_at(faces_upto(m, p, a, n), f) == face_quad(d, p, a));
    } else {
        assert(mask_bit(m, (n - 1) as u8));
        assert(4 * f == prev.len());
        assert(quad_at(faces_upto(m, p, a, n), f) =~= face_quad(n - 1, p, a));
        assert(mask_bit(m, ((n - 1) as int) as u8));
    }
}

/// Every quad of the mesh of a run of blocks is a quad of the face list of
/// one block of the run.
proof fn lemma_span_quads(g: &BlockGrid, nb: &Neighbors, lo: int, hi: int, f: int)
    requires
        lo <= hi,
        0 <= f,
        4 * f + 4 <= span_vertices(g, nb, lo, hi).len(),
    ensures
        exists|i: int, e: int|
            lo <= i < hi && 0 <= e && 4 * e + 4 <= block_vertices_at(g, nb, i).len() && quad_at(
                span_vertices(g, nb, lo, hi),
                f,
            ) == #[trigger] quad_at(block_vertices_at(g, nb, i), e),
    decreases hi - lo,
{
    let prev = span_vertices(g, nb, lo, hi - 1);
    let last = block_vertices_at(g, nb, hi - 1);
    lemma_span_len(g, nb, lo, hi - 1);
    if 4 * f + 4 <= prev.len() {
        lemma_span_quads(g, nb, lo, hi - 1, f);
        let (i, e) = choose|i: int, e: int|
            lo <= i < hi - 1 && 0 <= e && 4 * e + 4 <= block_vertices_at(g, nb, i).len() && quad_at(prev, f)
                == #[trigger] quad_at(block_vertices_at(g, nb, i), e);
        assert(quad_at(span_vertices(g, nb, lo, hi), f) =~= quad_at(prev, f));
        assert(lo <= i < hi && 0 <= e && 4 * e + 4 <= block_vertices_at(g, nb, i).len() && quad_at(
            span_vertices(g, nb, lo, hi),
            f,
        ) == quad_at(block_vertices_at(g, nb, i), e));
    } else {
        assert(4 * f >= prev.len()) by {
            assert(prev.len() % 4 == 0);
        }
        let e = f - prev.len() / 4;
        assert(quad_at(span_vertices(g, nb, lo, hi), f) =~= quad_at(last, e));
        assert(lo <= hi - 1 < hi && 0 <= e && 4 * e + 4 <= last.len());
    }
}

/// Every quad of a chunk's mesh is face `d` of some solid block `i`, at that
/// block's place and with its kind's atlas anchor, and bit `d` of that
/// block's face mask is set.
pub proof fn lemma_mesh_quad_source(g: &BlockGrid, nb: &Neighbors, f: int)
    requires
        0 <= f,
        4 * f + 4 <= chunk_vertices(g, nb).len(),
    ensures
        exists|i: int, d: int|
            0 <= i < BLOCK_COUNT && 0 <= d < 6 && !is_air(g@[i]) && mask_bit(
                face_mask(g, nb, (i % 256) / 16, i / 256, i % 16),
                d as u8,
            ) && quad_at(chunk_vertices(g, nb), f) == #[trigger] face_quad(d, block_place(i), atlas_anchor(block_of(g@[i]))),
{
    lemma_span_quads(g, nb, 0, BLOCK_COUNT as int, f);
    let (i, e) = choose|i: int, e: int|
        0 <= i < BLOCK_COUNT && 0 <= e && 4 * e + 4 <= block_vertices_at(g, nb, i).len() && quad_at(
            chunk_vertices(g, nb),
            f,
        ) == #[trigger] quad_at(block_vertices_at(g, nb, i), e);
    lemma_decode(i);
    let (x, y, z) = ((i % 256) / 16, i / 256, i % 16);
    let m = face_mask(g, nb, x, y, z);
    let a = atlas_anchor(block_of(g@[i]));
    lemma_faces_quads(m, block_place(i), a, 6, e);
    let d = choose|d: int| 0 <= d < 6 && mask_bit(m, d as u8) && quad_at(faces_upto(m, block_place(i), a, 6), e) == face_quad(d, block_place(i), a);
    assert(0 <= i < BLOCK_COUNT && 0 <= d < 6 && !is_air(g@[i]) && mask_bit(m, d as u8) && quad_at(chunk_vertices(g, nb), f) == face_quad(d, block_place(i), a));
}

/// A face quad names its direction and its block's place.
proof fn lemma_face_quad_injective(d: int, p: (i32, i32, i32), a: (u32, u32), d2: int, p2: (i32, i32, i32), a2: (u32, u32))
    requires
        0 <= d < 6,
        0 <= d2 < 6,
        0 <= p.0 < 256 && 0 <= p.1 < 256 && 0 <= p.2 < 256,
        0 <= p2.0 < 256 && 0 <= p2.1 < 256 && 0 <= p2.2 < 256,
        face_quad(d, p, a) == face_quad(d2, p2, a2),
    ensures
        d == d2,
        p == p2,
{
    assert(face_quad(d, p, a)[0] == face_quad(d2, p2, a2)[0]);
}

/// Whether face `d` of the block at `(x, y, z)` lies on the boundary of
/// its chunk.
pub open spec fn on_chunk_boundary(d: int, x: int, y: int, z: int) -> bool {
    if d == NEG_Z {
        z == 0
    } else if d == POS_Z {
        z == Z_SIZE - 1
    } else if d == NEG_X {
        x == 0
    } else if d == POS_X {
        x == X_SIZE - 1
    } else if d == NEG_Y {
        y == 0
    } else {
        y == Y_SIZE - 1
    }
}

/// A face whose mask bit is clear is not among the quads of the mesh.
proof fn lemma_face_not_meshed(g: &BlockGrid, nb: &Neighbors, x: int, y: int, z: int, d: int, a: (u32, u32))
    requires
        in_chunk(x, y, z),
        0 <= d < 6,
        !mask_bit(face_mask(g, nb, x, y, z), d as u8),
    ensures
        !has_quad(chunk_vertices(g, nb), face_quad(d, (x as i32, y as i32, z as i32), a)),
{
    if has_quad(chunk_vertices(g, nb), face_quad(d, (x as i32, y as i32, z as i32), a)) {
        let f = choose|f: int|
            0 <= f && 4 * f + 4 <= chunk_vertices(g, nb).len() && #[trigger] quad_at(chunk_vertices(g, nb), f)
                == face_quad(d, (x as i32, y as i32, z as i32), a);
        lemma_mesh_quad_source(g, nb, f);
        let (i, e) = choose|i: int, e: int|
            0 <= i < BLOCK_COUNT && 0 <= e < 6 && !is_air(g@[i]) && mask_bit(
                face_mask(g, nb, (i % 256) / 16, i / 256, i % 16),
                e as u8,
            ) && quad_at(chunk_vertices(g, nb), f) == #[trigger] face_quad(e, block_place(i), atlas_anchor(block_of(g@[i])));
        lemma_decode(i);
        lemma_face_quad_injective(e, block_place(i), atlas_anchor(block_of(g@[i])), d, (x as i32, y as i32, z as i32), a);
        assert((i % 256) / 16 == x && i / 256 == y && i % 16 == z);
    }
}

/// Two solid blocks side by side in one chunk: neither the face of the first
/// toward the second nor the face of the second toward the first is among the
/// quads of the chunk's mesh, whatever atlas anchor is asked about.
pub proof fn lemma_shared_face_not_meshed(g: &BlockGrid, nb: &Neighbors, x: int, y: int, z: int, a: (u32, u32))
    requires
        g.wf(),
        in_chunk(x, y, z),
        !is_air(g.id_at(x, y, z)),
    ensures
        in_chunk(x, y + 1, z) && !is_air(g.id_at(x, y + 1, z)) ==> !has_quad(
            chunk_vertices(g, nb),
            face_quad(POS_Y as int, (x as i32, y as i32, z as i32), a),
        ) && !has_quad(chunk_vertices(g, nb), face_quad(NEG_Y as int, (x as i32, (y + 1) as i32, z as i32), a)),
        in_chunk(x + 1, y, z) && !is_air(g.id_at(x + 1, y, z)) ==> !has_quad(
            chunk_vertices(g, nb),
            face_quad(POS_X as int, (x as i32, y as i32, z as i32), a),
        ) && !has_quad(chunk_vertices(g, nb), face_quad(NEG_X as int, ((x + 1) as i32, y as i32, z as i32), a)),
        in_chunk(x, y, z + 1) && !is_air(g.id_at(x, y, z + 1)) ==> !has_quad(
            chunk_vertices(g, nb),
            face_quad(POS_Z as int, (x as i32, y as i32, z as i32), a),
        ) && !has_quad(chunk_vertices(g, nb), face_quad(NEG_Z as int, (x as i32, y as i32, (z + 1) as i32), a)),
{
    lemma_shared_face_hidden(g, nb, x, y, z);
    if in_chunk(x, y + 1, z) && !is_air(g.id_at(x, y + 1, z)) {
        lemma_face_not_meshed(g, nb, x, y, z, POS_Y as int, a);
        lemma_face_not_meshed(g, nb, x, y + 1, z, NEG_Y as int, a);
    }
    if in_chunk(x + 1, y, z) && !is_air(g.id_at(x + 1, y, z)) {
        lemma_face_not_meshed(g, nb, x, y, z, POS_X as int, a);
        lemma_face_not_meshed(g, nb, x + 1, y, z, NEG_X as int, a);
    }
    if in_chunk(x, y, z + 1) && !is_air(g.id_at(x, y, z + 1)) {
        lemma_face_not_meshed(g, nb, x, y, z, POS_Z as int, a);
        lemma_face_not_meshed(g, nb, x, y, z + 1, NEG_Z as int, a);
    }
}

/// In the mesh of a chunk with no air and no neighbouring chunk loaded, every
/// quad is a face, in some direction, of a block on the chunk's boundary in
/// that direction: no quad lies between two blocks of the chunk.
pub proof fn lemma_solid_chunk_mesh_faces_out(g: &BlockGrid, f: int)
    requires
        g.wf(),
        forall|i: int| 0 <= i < BLOCK_COUNT ==> !is_air(#[trigger] g@[i]),
        0 <= f,
        4 * f + 4 <= chunk_vertices(g, &Neighbors { neg_z: None, pos_z: None, neg_x: None, pos_x: None }).len(),
    ensures
        exists|i: int, d: int|
            0 <= i < BLOCK_COUNT && 0 <= d < 6 && on_chunk_boundary(d, (i % 256) / 16, i / 256, i % 16) && quad_at(
                chunk_vertices(g, &Neighbors { neg_z: None, pos_z: None, neg_x: None, pos_x: None }),
                f,
            ) == #[trigger] face_quad(d, block_place(i), atlas_anchor(block_of(g@[i]))),
{
    let nb = Neighbors { neg_z: None, pos_z: None, neg_x: None, pos_x: None };
    lemma_mesh_quad_source(g, &nb, f);
    let (i, d) = choose|i: int, d: int|
        0 <= i < BLOCK_COUNT && 0 <= d < 6 && !is_air(g@[i]) && mask_bit(
            face_mask(g, &nb, (i % 256) / 16, i / 256, i % 16),
            d as u8,
        ) && quad_at(chunk_vertices(g, &nb), f) == #[trigger] face_quad(d, block_place(i), atlas_anchor(block_of(g@[i])));
    lemma_decode(i);
    lemma_solid_chunk_faces(g, (i % 256) / 16, i / 256, i % 16, d as u8);
    assert(on_chunk_boundary(d, (i % 256) / 16, i / 256, i % 16));
}

/// A quad of a prefix, or of a suffix that starts on a quad boundary, is a
/// quad of the whole.
proof fn lemma_has_quad_concat(u: Seq<Vertex>, v: Seq<Vertex>, q: Seq<Vertex>)
    requires
        u.len() % 4 == 0,
        has_quad(u, q) || has_quad(v, q),
    ensures
        has_quad(u + v, q),
{
    if has_quad(u, q) {
        let f = choose|f: int| 0 <= f && 4 * f + 4 <= u.len() && #[trigger] quad_at(u, f) == q;
        assert(quad_at(u + v, f) =~= quad_at(u, f));
    } else {
        let f = choose|f: int| 0 <= f && 4 * f + 4 <= v.len() && #[trigger] quad_at(v, f) == q;
        let g = f + u.len() / 4;
        assert(quad_at(u + v, g) =~= quad_at(v, f));
    }
}

/// The face of every direction whose mask bit is set is among a block's quads.
proof fn lemma_faces_contain(m: u8, p: (i32, i32, i32), a: (u32, u32), n: nat, d: int)
    requires
        0 <= d < n,
        mask_bit(m, d as u8),
    ensures
        has_quad(faces_upto(m, p, a, n), face_quad(d, p, a)),
    decreases n,
{
    let prev = faces_upto(m, p, a, (n - 1) as nat);
    lemma_faces_upto_len(m, p, a, (n - 1) as nat);
    if d < n - 1 {
        lemma_faces_contain(m, p, a, (n - 1) as nat, d);
        if mask_bit(m, (n - 1) as u8) {
            lemma_has_quad_concat(prev, face_quad(n - 1, p, a), face_quad(d, p, a));
        }
    } else {
        assert(quad_at(face_quad(d, p, a), 0) =~= face_quad(d, p, a));
        lemma_has_quad_concat(prev, face_quad(d, p, a), face_quad(d, p, a));
    }
}

/// A quad of one block's face list is a quad of the mesh of any run of
/// blocks that holds that block.
proof fn lemma_span_contains(g: &BlockGrid, nb: &Neighbors, lo: int, hi: int, i: int, q: Seq<Vertex>)
    requires
        lo <= i < hi,
        has_quad(block_vertices_at(g, nb, i), q),
    ensures
        has_quad(span_vertices(g, nb, lo, hi), q),
    decreases hi - lo,
{
    lemma_span_len(g, nb, lo, hi - 1);
    if i < hi - 1 {
        lemma_span_contains(g, nb, lo, hi - 1, i, q);
    }
    lemma_has_quad_concat(span_vertices(g, nb, lo, hi - 1), block_vertices_at(g, nb, hi - 1), q);
}

/// In the mesh of a chunk with no air and no neighbouring chunk loaded, every
/// face of a block that lies on the chunk's boundary is present: the top
/// faces of the top layer, the bottom faces of the bottom layer and the
/// outward faces of the outer columns.
pub proof fn lemma_solid_chunk_boundary_faces_meshed(g: &BlockGrid, x: int, y: int, z: int, d: int)
    requires
        g.wf(),
        forall|i: int| 0 <= i < BLOCK_COUNT ==> !is_air(#[trigger] g@[i]),
        in_chunk(x, y, z),
        0 <= d < 6,
        on_chunk_boundary(d, x, y, z),
    ensures
        has_quad(
            chunk_vertices(g, &Neighbors { neg_z: None, pos_z: None, neg_x: None, pos_x: None }),
            face_quad(d, (x as i32, y as i32, z as i32), atlas_anchor(block_of(g.id_at(x, y, z)))),
        ),
{
    let nb = Neighbors { neg_z: None, pos_z: None, neg_x: None, pos_x: None };
    let i = block_index(x, y, z);
    lemma_block_index(x, y, z);
    lemma_decode(i);
    assert((i % 256) / 16 == x && i / 256 == y && i % 16 == z) by (nonlinear_arith)
        requires
            i == y * 256 + x * 16 + z,
            0 <= x < 16,
            0 <= y < 256,
            0 <= z < 16,
    ;
    lemma_solid_chunk_faces(g, x, y, z, d as u8);
    let a = atlas_anchor(block_of(g.id_at(x, y, z)));
    lemma_faces_contain(face_mask(g, &nb, x, y, z), (x as i32, y as i32, z as i32), a, 6, d);
    lemma_span_contains(g, &nb, 0, BLOCK_COUNT as int, i, face_quad(d, (x as i32, y as i32, z as i32), a));
}

/// Local coordinates `(x, y, z)` of the block at offset `i`.
proof fn lemma_decode(i: int)
    requires
        0 <= i < BLOCK_COUNT,
    ensures
        in_chunk((i % 256) / 16, i / 256, i % 16),
        block_index((i % 256) / 16, i / 256, i % 16) == i,
{
    assert(0 <= i / 256 < 256) by (nonlinear_arith)
        requires
            0 <= i < 65536,
    ;
    assert(i == (i / 256) * 256 + (i % 256)) by (nonlinear_arith);
    assert(i % 256 == ((i % 256) / 16) * 16 + (i % 256) % 16) by (nonlinear_arith);
    assert(0 <= i % 256 < 256) by (nonlinear_arith);
    assert(0 <= (i % 256) / 16 < 16) by (nonlinear_arith)
        requires
            0 <= i % 256 < 256,
    ;
    assert((i % 256) % 16 == i % 16) by (nonlinear_arith);
    assert(0 <= i % 16 < 16) by (nonlinear_arith);
}

/// Blocks at offsets `lo` up to `hi` that are all air give no corners.
proof fn lemma_span_air(g: &BlockGrid, nb: &Neighbors, lo: int, hi: int)
    requires
        g.wf(),
        0 <= lo,
        hi <= BLOCK_COUNT,
        forall|i: int| 0 <= i < BLOCK_COUNT ==> is_air(#[trigger] g@[i]),
    ensures
        span_vertices(g, nb, lo, hi).len() == 0,
    decreases hi - lo,
{
    if hi > lo {
        lemma_span_air(g, nb, lo, hi - 1);
        lemma_decode(hi - 1);
    }
}

/// A chunk made of air meshes to no corners and no indices.
pub proof fn lemma_air_chunk_mesh_empty(g: &BlockGrid, nb: &Neighbors)
    requires
        g.wf(),
        forall|i: int| 0 <= i < BLOCK_COUNT ==> is_air(#[trigger] g@[i]),
    ensures
        chunk_vertices(g, nb).len() == 0,
        quad_indices(chunk_vertices(g, nb).len() / 4).len() == 0,
{
    lemma_span_air(g, nb, 0, BLOCK_COUNT as int);
}

/// In a chunk with no air and no neighbouring chunk loaded, a face of a block
/// shows exactly when it lies on the chunk's boundary: the top and bottom
/// layers show their top and bottom faces, the outer columns their sides.
pub proof fn lemma_solid_chunk_faces(g: &BlockGrid, x: int, y: int, z: int, d: u8)
    requires
        g.wf(),
        forall|i: int| 0 <= i < BLOCK_COUNT ==> !is_air(#[trigger] g@[i]),
        in_chunk(x, y, z),
        d < 6,
    ensures
        mask_bit(face_mask(g, &Neighbors { neg_z: None, pos_z: None, neg_x: None, pos_x: None }, x, y, z), d)
            <==> (if d == NEG_Z {
            z == 0
        } else if d == POS_Z {
            z == Z_SIZE - 1
        } else if d == NEG_X {
            x == 0
        } else if d == POS_X {
            x == X_SIZE - 1
        } else if d == NEG_Y {
            y == 0
        } else {
            y == Y_SIZE - 1
        }),
{
    let nb = Neighbors { neg_z: None, pos_z: None, neg_x: None, pos_x: None };
    lemma_face_mask_bits(g, &nb, x, y, z);
    if z > 0 {
        lemma_block_index(x, y, z - 1);
    }
    if z < Z_SIZE - 1 {
        lemma_block_index(x, y, z + 1);
    }
    if x > 0 {
        lemma_block_index(x - 1, y, z);
    }
    if x < X_SIZE - 1 {
        lemma_block_index(x + 1, y, z);
    }
    if y > 0 {
        lemma_block_index(x, y - 1, z);
    }
    if y < Y_SIZE - 1 {
        lemma_block_index(x, y + 1, z);
    }
}

/// Two solid blocks side by side in one chunk hide the face between them:
/// neither block's mask has the bit of the shared face.
pub proof fn lemma_shared_face_hidden(g: &BlockGrid, nb: &Neighbors, x: int, y: int, z: int)
    requires
        g.wf(),
        in_chunk(x, y, z),
        !is_air(g.id_at(x, y, z)),
    ensures
        in_chunk(x, y, z + 1) && !is_air(g.id_at(x, y, z + 1)) ==> !mask_bit(
            face_mask(g, nb, x, y, z),
            POS_Z,
        ) && !mask_bit(face_mask(g, nb, x, y, z + 1), NEG_Z),
        in_chunk(x + 1, y, z) && !is_air(g.id_at(x + 1, y, z)) ==> !mask_bit(
            face_mask(g, nb, x, y, z),
            POS_X,
        ) && !mask_bit(face_mask(g, nb, x + 1, y, z), NEG_X),
        in_chunk(x, y + 1, z) && !is_air(g.id_at(x, y + 1, z)) ==> !mask_bit(
            face_mask(g, nb, x, y, z),
            POS_Y,
        ) && !mask_bit(face_mask(g, nb, x, y + 1, z), NEG_Y),
{
    lemma_face_mask_bits(g, nb, x, y, z);
    lemma_face_mask_bits(g, nb, x, y, z + 1);
    lemma_face_mask_bits(g, nb, x + 1, y, z);
    lemma_face_mask_bits(g, nb, x, y + 1, z);
}

/// Two solid blocks on either side of the boundary between two loaded
/// chunks, `g` and the chunk `h` beyond its +Z side (or its +X side), hide
/// the face between them in both chunks' masks.
pub proof fn lemma_boundary_face_hidden(
    g: &BlockGrid,
    h: &BlockGrid,
    nb_g: &Neighbors,
    nb_h: &Neighbors,
    a: int,
    y: int,
)
    requires
        g.wf(),
        h.wf(),
        0 <= a < 16,
        0 <= y < Y_SIZE,
    ensures
        nb_g.pos_z == Some(h) && nb_h.neg_z == Some(g) && !is_air(g.id_at(a, y, Z_SIZE - 1))
            && !is_air(h.id_at(a, y, 0)) ==> !mask_bit(face_mask(g, nb_g, a, y, Z_SIZE - 1), POS_Z)
            && !mask_bit(face_mask(h, nb_h, a, y, 0), NEG_Z),
        nb_g.pos_x == Some(h) && nb_h.neg_x == Some(g) && !is_air(g.id_at(X_SIZE - 1, y, a))
            && !is_air(h.id_at(0, y, a)) ==> !mask_bit(face_mask(g, nb_g, X_SIZE - 1, y, a), POS_X)
            && !mask_bit(face_mask(h, nb_h, 0, y, a), NEG_X),
{
    lemma_face_mask_bits(g, nb_g, a, y, Z_SIZE - 1);
    lemma_face_mask_bits(h, nb_h, a, y, 0);
    lemma_face_mask_bits(g, nb_g, X_SIZE - 1, y, a);
    lemma_face_mask_bits(h, nb_h, 0, y, a);
}

/// Meshing depends on the block ids and the neighbours alone: two grids that
/// hold the same ids give the same corners for every run of blocks.
proof fn lemma_span_same_ids(g1: &BlockGrid, g2: &BlockGrid, nb: &Neighbors, lo: int, hi: int)
    requires
        g1@ == g2@,
    ensures
        span_vertices(g1, nb, lo, hi) == span_vertices(g2, nb, lo, hi),
    decreases hi - lo,
{
    if hi > lo {
        lemma_span_same_ids(g1, g2, nb, lo, hi - 1);
        let i = hi - 1;
        let (x, y, z) = ((i % 256) / 16, i / 256, i % 16);
        assert(face_mask(g1, nb, x, y, z) == face_mask(g2, nb, x, y, z));
    }
}

/// Generating the default terrain twice and meshing each result, with the
/// same neighbours, gives the same corners and the same indices.
pub proof fn lemma_regenerated_chunk_same_mesh(g1: &BlockGrid, g2: &BlockGrid, nb: &Neighbors)
    requires
        g1@ == default_terrain(),
        g2@ == default_terrain(),
    ensures
        chunk_vertices(g1, nb) == chunk_vertices(g2, nb),
        quad_indices(chunk_vertices(g1, nb).len() / 4) == quad_indices(chunk_vertices(g2, nb).len() / 4),
{
    lemma_span_same_ids(g1, g2, nb, 0, BLOCK_COUNT as int);
}

/// A chunk of the loaded window: where it lies, its atlas material and its
/// blocks.
pub struct Chunk {
    pub position: ChunkPosition,
    pub atlas_material_index: u32,
    pub blocks: BlockGrid,
}

impl Chunk {
    /// A chunk at `position` holding the default terrain.
    pub fn new(position: ChunkPosition, atlas_material_index: u32) -> (r: Chunk)
        ensures
            r.position == position,
            r.atlas_material_index == atlas_material_index,
            r.blocks.wf(),
            r.blocks@ == default_terrain(),
    {
        Chunk { position, atlas_material_index, blocks: Chunk::default_blocks() }
    }

    /// The terrain generator: dirt everywhere but the top layer, which is air.
    /// It depends on nothing, so every call gives the same grid.
    pub fn default_blocks() -> (r: BlockGrid)
        ensures
            r.wf(),
            r@ == default_terrain(),
    {
        let mut blocks: Vec<u16> = Vec::with_capacity(BLOCK_COUNT);
        let mut i: usize = 0;
        while i < BLOCK_COUNT
            invariant
                i <= BLOCK_COUNT,
                blocks@ == default_terrain().subrange(0, i as int),
            decreases BLOCK_COUNT - i,
        {
            if i >= (Y_SIZE - 1) * HORIZONTAL_SLICE_SIZE {
                blocks.push(AIR_ID);
            } else {
                blocks.push(DIRT_ID);
            }
            i = i + 1;
            assert(blocks@ =~= default_terrain().subrange(0, i as int));
        }
        assert(blocks@ =~= default_terrain());
        BlockGrid { blocks }
    }

    /// World position, in blocks, of the chunk's corner: its position times
    /// the chunk side.
    pub fn world_origin(&self) -> (r: (i64, i64))
        ensures
            r.0 == self.position.x * X_SIZE,
            r.1 == self.position.z * Z_SIZE,
    {
        (self.position.x as i64 * X_SIZE as i64, self.position.z as i64 * Z_SIZE as i64)
    }

    /// The faces of the block at local `(x, y, z)` that show, placed at the
    /// block's local position.
    pub fn gen_block_vertices(grid: &BlockGrid, nb: &Neighbors, x: usize, y: usize, z: usize) -> (r: MeshInfo)
        requires
            grid.wf(),
            nb.wf(),
            in_chunk(x as int, y as int, z as int),
        ensures
            r.wf(),
            r.vertices@ == block_vertices(grid, nb, x as int, y as int, z as int),
    {
        let block_type = grid.query_block(x, y, z);
        if block_type != Blocks::Null {
            let face_mask = query_neighbors(grid, nb, x, y, z);
            let block = Cube::new((x as i32, y as i32, z as i32), 0, block_type, face_mask, true);
            block.mesh_info
        } else {
            MeshInfo::init()
        }
    }

    /// The corners of the visible faces of the blocks at offsets `start` up
    /// to `end`, block after block.
    pub fn mesh_blocks(grid: &BlockGrid, nb: &Neighbors, start: usize, end: usize) -> (r: Vec<Vertex>)
        requires
            grid.wf(),
            nb.wf(),
            start <= end <= BLOCK_COUNT,
        ensures
            r@ == span_vertices(grid, nb, start as int, end as int),
    {
        let mut vertices: Vec<Vertex> = Vec::new();
        let mut i: usize = start;
        while i < end
            invariant
                grid.wf(),
                nb.wf(),
                start <= i <= end <= BLOCK_COUNT,
                vertices@ == span_vertices(grid, nb, start as int, i as int),
            decreases end - i,
        {
            proof {
                lemma_decode(i as int);
            }
            let y = i / HORIZONTAL_SLICE_SIZE;
            let x = i % HORIZONTAL_SLICE_SIZE / Z_SIZE;
            let z = i % Z_SIZE;
            let mut info = Chunk::gen_block_vertices(grid, nb, x, y, z);
            vertices.append(&mut info.vertices);
            i = i + 1;
        }
        vertices
    }

    /// The corners of the visible faces of layers `y_start` up to `y_end`:
    /// one worker's share when layers are meshed in parallel.
    pub fn mesh_layers(grid: &BlockGrid, nb: &Neighbors, y_start: usize, y_end: usize) -> (r: Vec<Vertex>)
        requires
            grid.wf(),
            nb.wf(),
            y_start <= y_end <= Y_SIZE,
        ensures
            r@ == span_vertices(
                grid,
                nb,
                y_start * HORIZONTAL_SLICE_SIZE,
                y_end * HORIZONTAL_SLICE_SIZE,
            ),
    {
        Chunk::mesh_blocks(grid, nb, y_start * HORIZONTAL_SLICE_SIZE, y_end * HORIZONTAL_SLICE_SIZE)
    }

    /// The mesh of this chunk: the visible faces of every block in offset
    /// order, two triangles per face, placed at the chunk's world origin and
    /// drawn with its atlas material.
    pub fn create_mesh(&self, nb: &Neighbors) -> (r: ChunkMesh)
        requires
            self.blocks.wf(),
            nb.wf(),
        ensures
            r.vertices@ == chunk_vertices(&self.blocks, nb),
            r.indices@ == quad_indices(r.vertices@.len() / 4),
            r.origin_x == self.position.x * X_SIZE,
            r.origin_z == self.position.z * Z_SIZE,
            r.material_index == self.atlas_material_index,
    {
        let vertices = Chunk::mesh_blocks(&self.blocks, nb, 0, BLOCK_COUNT);
        proof {
            lemma_span_len(&self.blocks, nb, 0, BLOCK_COUNT as int);
        }
        let indices = gen_indices(vertices.len() / 4);
        let (origin_x, origin_z) = self.world_origin();
        ChunkMesh { vertices, indices, origin_x, origin_z, material_index: self.atlas_material_index }
    }
}

} // verus!
