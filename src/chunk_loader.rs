use crate::chunk::{chunk_vertices, BlockGrid, Chunk, ChunkPosition, Neighbors};
use crate::mesh::{quad_indices, ChunkMesh};
use crate::ring_buffer::{rotated, rotated_columns, wrap, RingBuffer2D};
use vstd::prelude::*;

verus! {

/// Chunks kept loaded on each side of the centre chunk.
pub const RENDER_DISTANCE: usize = 1;

/// Chunks along each side of the loaded window.
pub const RENDERED_CHUNKS_LENGTH: usize = 3;

/// A chunk whose mesh must be built and put in the mesh list: its logical
/// place in the window and the mesh-list slot that its mesh belongs in.
#[derive(Clone, Copy, Debug, PartialEq, Eq, Structural)]
pub struct ChunkReload {
    pub column: usize,
    pub row: usize,
    pub mesh_slot: usize,
}

/// One chunk-width move of the window.
#[derive(Clone, Copy, Debug, PartialEq, Eq, Structural)]
pub enum Step {
    PosX,
    NegX,
    PosZ,
    NegZ,
}

/// What to do with a built mesh: overwrite a slot of the mesh list, or add it
/// at the end while the list is still being filled.
#[derive(Clone, Copy, Debug, PartialEq, Eq, Structural)]
pub enum MeshListAction {
    Replace(usize),
    Append,
}

/// The chunk that belongs at logical `(i, j)` of a window centred on `c`.
pub open spec fn window_position(c: ChunkPosition, i: int, j: int) -> (int, int) {
    (c.x - RENDER_DISTANCE + i, c.z - RENDER_DISTANCE + j)
}

/// The coordinates of the position of a chunk.
pub open spec fn place_of(c: Chunk) -> (int, int) {
    (c.position.x as int, c.position.z as int)
}

/// A centre around which the window, and the window one step further, have
/// representable positions.
pub open spec fn centre_in_range(x: int, z: int) -> bool {
    &&& i32::MIN + RENDER_DISTANCE + 1 <= x <= i32::MAX - RENDER_DISTANCE - 1
    &&& i32::MIN + RENDER_DISTANCE + 1 <= z <= i32::MAX - RENDER_DISTANCE - 1
}

/// The chunk coordinate of a world block coordinate: floor of it divided by
/// the chunk side.
pub open spec fn chunk_coordinate(block: int) -> int {
    block / 16
}

/// The chunk coordinate of a world block coordinate: floor of it divided by
/// the chunk side.
pub fn chunked(block: i64) -> (r: i64)
    ensures
        r == chunk_coordinate(block as int),
{
    if block >= 0 {
        block / 16
    } else {
        let m = -(block + 1);
        let q = m / 16;
        proof {
            vstd::arithmetic::div_mod::lemma_fundamental_div_mod(m as int, 16);
            vstd::arithmetic::div_mod::lemma_mod_bound(m as int, 16);
            vstd::arithmetic::div_mod::lemma_fundamental_div_mod_converse(
                block as int,
                16,
                -q - 1,
                15 - (m % 16),
            );
        }
        -q - 1
    }
}

/// Where a built mesh goes: its slot when the mesh list already reaches it,
/// else the end of the list.
pub fn mesh_list_action(mesh_count: usize, slot: usize) -> (r: MeshListAction)
    ensures
        slot < mesh_count ==> r == MeshListAction::Replace(slot),
        slot >= mesh_count ==> r == MeshListAction::Append,
{
    if slot < mesh_count {
        MeshListAction::Replace(slot)
    } else {
        MeshListAction::Append
    }
}

/// How a step moves the centre.
pub open spec fn step_delta(s: Step) -> (int, int) {
    match s {
        Step::PosX => (1, 0),
        Step::NegX => (-1, 0),
        Step::PosZ => (0, 1),
        Step::NegZ => (0, -1),
    }
}

/// Place `k` of the edge line that a step exposes, in logical window indices.
pub open spec fn edge_place(s: Step, k: int) -> (int, int) {
    match s {
        Step::PosX => (RENDERED_CHUNKS_LENGTH - 1, k),
        Step::NegX => (0, k),
        Step::PosZ => (k, RENDERED_CHUNKS_LENGTH - 1),
        Step::NegZ => (k, 0),
    }
}

/// Whether logical `(i, j)` lies on the edge line that a step exposes.
pub open spec fn on_edge(s: Step, i: int, j: int) -> bool {
    match s {
        Step::PosX => i == RENDERED_CHUNKS_LENGTH - 1,
        Step::NegX => i == 0,
        Step::PosZ => j == RENDERED_CHUNKS_LENGTH - 1,
        Step::NegZ => j == 0,
    }
}

/// Position of logical `(i, j)` along the edge line of a step.
pub open spec fn edge_index(s: Step, i: int, j: int) -> int {
    match s {
        Step::PosX | Step::NegX => j,
        Step::PosZ | Step::NegZ => i,
    }
}

/// Whether a window index lies inside the window.
pub open spec fn in_window(i: int, j: int) -> bool {
    0 <= i < RENDERED_CHUNKS_LENGTH && 0 <= j < RENDERED_CHUNKS_LENGTH
}

/// The square window of loaded chunks around the viewer's chunk, held in a
/// two-dimensional ring so that scrolling moves no chunk in memory. The mesh
/// of the chunk at logical `(i, j)` sits at `position_in_mesh_array` plus the
/// storage cell of `(i, j)` in the render surface's mesh list.
pub struct ChunkLoader {
    pub chunks: RingBuffer2D<Chunk>,
    pub atlas_material_index: u32,
    pub center_chunk_position: ChunkPosition,
    pub position_in_mesh_array: usize,
}

impl ChunkLoader {
    /// The mesh-list slot of the chunk at logical `(i, j)`.
    pub open spec fn mesh_slot(&self, i: int, j: int) -> int {
        self.position_in_mesh_array + self.chunks.cell(i, j)
    }

    /// The window is a `RENDERED_CHUNKS_LENGTH`-square centred on
    /// `center_chunk_position`: the chunk at logical `(i, j)` is the one at
    /// `window_position(center, i, j)`, holding the default terrain and the
    /// loader's atlas material; and every mesh slot fits in `usize`.
    pub open spec fn wf(&self) -> bool {
        &&& self.chunks.wf()
        &&& self.chunks.rows() == RENDERED_CHUNKS_LENGTH
        &&& self.chunks.cols() == RENDERED_CHUNKS_LENGTH
        &&& centre_in_range(self.center_chunk_position.x as int, self.center_chunk_position.z as int)
        &&& self.position_in_mesh_array + RENDERED_CHUNKS_LENGTH * RENDERED_CHUNKS_LENGTH <= usize::MAX
        &&& forall|i: int, j: int|
            0 <= i < RENDERED_CHUNKS_LENGTH && 0 <= j < RENDERED_CHUNKS_LENGTH ==> {
                &&& (#[trigger] self.chunks@[i][j]).blocks.wf()
                &&& self.chunks@[i][j].blocks@ == crate::chunk::default_terrain()
                &&& self.chunks@[i][j].atlas_material_index == self.atlas_material_index
                &&& place_of(self.chunks@[i][j])
                    == window_position(self.center_chunk_position, i, j)
            }
    }

    /// What one step of the window does, from `self` to `after`, handing
    /// back `r`: the ring rotates once along the step's axis; the centre moves
    /// one chunk; every chunk off the new edge is the chunk that stood one
    /// place further along the step, in the same mesh slot; and `r` lists the
    /// new edge line, whose chunks are fresh terrain, each with its slot.
    pub open spec fn stepped(&self, after: &Self, s: Step, r: Seq<ChunkReload>) -> bool {
        let (dx, dz) = step_delta(s);
        &&& after.wf()
        &&& after.atlas_material_index == self.atlas_material_index
        &&& after.position_in_mesh_array == self.position_in_mesh_array
        &&& after.center_chunk_position.x == self.center_chunk_position.x + dx
        &&& after.center_chunk_position.z == self.center_chunk_position.z + dz
        &&& after.chunks.column_origin() == wrap(self.chunks.column_origin() + dx, RENDERED_CHUNKS_LENGTH as int)
        &&& after.chunks.row_origin() == wrap(self.chunks.row_origin() + dz, RENDERED_CHUNKS_LENGTH as int)
        &&& forall|i: int, j: int|
            in_window(i, j) && !on_edge(s, i, j) ==> {
                &&& #[trigger] after.chunks@[i][j] == self.chunks@[i + dx][j + dz]
                &&& after.chunks.cell(i, j) == self.chunks.cell(i + dx, j + dz)
            }
        &&& forall|i: int, j: int|
            in_window(i, j) && on_edge(s, i, j) ==> (#[trigger] after.chunks@[i][j]).blocks@
                == crate::chunk::default_terrain()
        &&& r.len() == RENDERED_CHUNKS_LENGTH
        &&& forall|k: int|
            0 <= k < RENDERED_CHUNKS_LENGTH ==> {
                &&& (#[trigger] r[k]).column == edge_place(s, k).0
                &&& r[k].row == edge_place(s, k).1
                &&& r[k].mesh_slot == after.mesh_slot(edge_place(s, k).0, edge_place(s, k).1)
            }
    }

    /// The grids beside the chunk at logical `(i, j)` that the window holds.
    pub open spec fn window_neighbors(&self, i: int, j: int) -> Neighbors<'_> {
        Neighbors {
            neg_z: if j > 0 { Some(&self.chunks@[i][j - 1].blocks) } else { None },
            pos_z: if j < RENDERED_CHUNKS_LENGTH - 1 { Some(&self.chunks@[i][j + 1].blocks) } else { None },
            neg_x: if i > 0 { Some(&self.chunks@[i - 1][j].blocks) } else { None },
            pos_x: if i < RENDERED_CHUNKS_LENGTH - 1 { Some(&self.chunks@[i + 1][j].blocks) } else { None },
        }
    }

    /// A window centred on chunk (0, 0) holding the default terrain, whose
    /// meshes will follow the `current_mesh_count` meshes already in the list.
    pub fn new(atlas_material_index: u32, current_mesh_count: usize) -> (r: Self)
        requires
            current_mesh_count + RENDERED_CHUNKS_LENGTH * RENDERED_CHUNKS_LENGTH <= usize::MAX,
        ensures
            r.wf(),
            r.atlas_material_index == atlas_material_index,
            r.center_chunk_position == (ChunkPosition { x: 0, z: 0 }),
            r.position_in_mesh_array == current_mesh_count,
            r.chunks.column_origin() == 0,
            r.chunks.row_origin() == 0,
            forall|i: int, j: int|
                in_window(i, j) ==> (#[trigger] r.chunks@[i][j]).atlas_material_index == atlas_material_index
                    && r.chunks@[i][j].blocks@ == crate::chunk::default_terrain()
                    && place_of(r.chunks@[i][j]) == (i - RENDER_DISTANCE, j - RENDER_DISTANCE),
    {
        let mut data: Vec<Vec<Chunk>> = Vec::new();
        let mut i: usize = 0;
        while i < RENDERED_CHUNKS_LENGTH
            invariant
                i <= RENDERED_CHUNKS_LENGTH,
                data@.len() == i,
                forall|c: int| 0 <= c < i ==> (#[trigger] data@[c])@.len() == RENDERED_CHUNKS_LENGTH,
                forall|c: int, j: int|
                    0 <= c < i && 0 <= j < RENDERED_CHUNKS_LENGTH ==> {
                        &&& (#[trigger] data@[c]@[j]).blocks.wf()
                        &&& data@[c]@[j].blocks@ == crate::chunk::default_terrain()
                        &&& data@[c]@[j].atlas_material_index == atlas_material_index
                        &&& place_of(data@[c]@[j]) == window_position(
                            ChunkPosition { x: 0, z: 0 },
                            c,
                            j,
                        )
                    },
            decreases RENDERED_CHUNKS_LENGTH - i,
        {
            let mut column: Vec<Chunk> = Vec::new();
            let mut j: usize = 0;
            while j < RENDERED_CHUNKS_LENGTH
                invariant
                    i < RENDERED_CHUNKS_LENGTH,
                    j <= RENDERED_CHUNKS_LENGTH,
                    column@.len() == j,
                    forall|l: int|
                        0 <= l < j ==> {
                            &&& (#[trigger] column@[l]).blocks.wf()
                            &&& column@[l].blocks@ == crate::chunk::default_terrain()
                            &&& column@[l].atlas_material_index == atlas_material_index
                            &&& place_of(column@[l]) == window_position(
                                ChunkPosition { x: 0, z: 0 },
                                i as int,
                                l,
                            )
                        },
                decreases RENDERED_CHUNKS_LENGTH - j,
            {
                let position = ChunkPosition {
                    x: i as i32 - RENDER_DISTANCE as i32,
                    z: j as i32 - RENDER_DISTANCE as i32,
                };
                column.push(Chunk::new(position, atlas_material_index));
                j = j + 1;
            }
            data.push(column);
            i = i + 1;
        }
        let chunks = RingBuffer2D::new(data);
        ChunkLoader {
            chunks,
            atlas_material_index,
            center_chunk_position: ChunkPosition { x: 0, z: 0 },
            position_in_mesh_array: current_mesh_count,
        }
    }

    /// The places of the edge line that a step exposes, in window indices
    /// after the step: these are the chunks to regenerate and mesh.
    pub fn mark_chunks_to_reload(&self, step: Step) -> (r: Vec<(usize, usize)>)
        ensures
            r@.len() == RENDERED_CHUNKS_LENGTH,
            forall|k: int|
                0 <= k < RENDERED_CHUNKS_LENGTH ==> (#[trigger] r@[k]).0 == edge_place(step, k).0
                    && r@[k].1 == edge_place(step, k).1,
    {
        let mut places: Vec<(usize, usize)> = Vec::new();
        let mut k: usize = 0;
        while k < RENDERED_CHUNKS_LENGTH
            invariant
                k <= RENDERED_CHUNKS_LENGTH,
                places@.len() == k,
                forall|l: int|
                    0 <= l < k ==> (#[trigger] places@[l]).0 == edge_place(step, l).0
                        && places@[l].1 == edge_place(step, l).1,
            decreases RENDERED_CHUNKS_LENGTH - k,
        {
            let place = match step {
                Step::PosX => (RENDERED_CHUNKS_LENGTH - 1, k),
                Step::NegX => (0, k),
                Step::PosZ => (k, RENDERED_CHUNKS_LENGTH - 1),
                Step::NegZ => (k, 0),
            };
            places.push(place);
            k = k + 1;
        }
        places
    }

    /// Scrolls the window one chunk: rotates the ring once, moves the centre,
    /// regenerates the chunks of the exposed edge line in place (so each keeps
    /// its mesh slot) and returns them, to be meshed.
    #[verifier::loop_isolation(false)]
    pub fn shift(&mut self, step: Step) -> (r: Vec<ChunkReload>)
        requires
            old(self).wf(),
            centre_in_range(
                old(self).center_chunk_position.x + step_delta(step).0,
                old(self).center_chunk_position.z + step_delta(step).1,
            ),
        ensures
            old(self).stepped(final(self), step, r@),
    {
        let ghost before = *self;
        let ghost n: int = RENDERED_CHUNKS_LENGTH as int;
        match step {
            Step::PosX => self.chunks.rotate_left(1),
            Step::NegX => self.chunks.rotate_right(1),
            Step::PosZ => self.chunks.rotate_down(1),
            Step::NegZ => self.chunks.rotate_up(1),
        }
        let c = self.center_chunk_position;
        self.center_chunk_position = match step {
            Step::PosX => ChunkPosition { x: c.x + 1, z: c.z },
            Step::NegX => ChunkPosition { x: c.x - 1, z: c.z },
            Step::PosZ => ChunkPosition { x: c.x, z: c.z + 1 },
            Step::NegZ => ChunkPosition { x: c.x, z: c.z - 1 },
        };
        let ghost rot = self.chunks;
        proof {
            let (dx, dz) = step_delta(step);
            before.chunks.lemma_shape();
            rot.lemma_shape();
            assert forall|i: int, j: int| in_window(i, j) && !on_edge(step, i, j) implies {
                &&& #[trigger] rot@[i][j] == before.chunks@[i + dx][j + dz]
                &&& rot.cell(i, j) == before.chunks.cell(i + dx, j + dz)
            } by {
                lemma_step_moves(before.chunks, rot, step, i, j);
            }
        }
        let places = self.mark_chunks_to_reload(step);
        let mut reloads: Vec<ChunkReload> = Vec::new();
        let mut k: usize = 0;
        while k < RENDERED_CHUNKS_LENGTH
            invariant
                k <= RENDERED_CHUNKS_LENGTH,
                n == RENDERED_CHUNKS_LENGTH,
                self.chunks.wf(),
                self.chunks.rows() == n,
                self.chunks.cols() == n,
                self.chunks.column_origin() == rot.column_origin(),
                self.chunks.row_origin() == rot.row_origin(),
                self.center_chunk_position.x == before.center_chunk_position.x + step_delta(step).0,
                self.center_chunk_position.z == before.center_chunk_position.z + step_delta(step).1,
                centre_in_range(self.center_chunk_position.x as int, self.center_chunk_position.z as int),
                self.atlas_material_index == before.atlas_material_index,
                self.position_in_mesh_array == before.position_in_mesh_array,
                self.position_in_mesh_array + n * n <= usize::MAX,
                places@.len() == n,
                forall|l: int|
                    0 <= l < n ==> (#[trigger] places@[l]).0 == edge_place(step, l).0
                        && places@[l].1 == edge_place(step, l).1,
                forall|i: int, j: int|
                    in_window(i, j) ==> if on_edge(step, i, j) && edge_index(step, i, j) < k {
                        &&& (#[trigger] self.chunks@[i][j]).blocks.wf()
                        &&& self.chunks@[i][j].blocks@ == crate::chunk::default_terrain()
                        &&& self.chunks@[i][j].atlas_material_index == self.atlas_material_index
                        &&& place_of(self.chunks@[i][j]) == window_position(self.center_chunk_position, i, j)
                    } else {
                        self.chunks@[i][j] == rot@[i][j]
                    },
                reloads@.len() == k,
                forall|l: int|
                    0 <= l < k ==> {
                        &&& (#[trigger] reloads@[l]).column == edge_place(step, l).0
                        &&& reloads@[l].row == edge_place(step, l).1
                        &&& reloads@[l].mesh_slot == self.position_in_mesh_array + self.chunks.cell(
                            edge_place(step, l).0,
                            edge_place(step, l).1,
                        )
                    },
            decreases RENDERED_CHUNKS_LENGTH - k,
        {
            let (i, j) = places[k];
            let position = ChunkPosition {
                x: self.center_chunk_position.x - RENDER_DISTANCE as i32 + i as i32,
                z: self.center_chunk_position.z - RENDER_DISTANCE as i32 + j as i32,
            };
            let ghost prev = self.chunks;
            self.chunks.set((i as i32, j as i32), Chunk::new(position, self.atlas_material_index));
            let slot = self.chunks.linearize_index((i as i32, j as i32));
            proof {
                vstd::arithmetic::div_mod::lemma_small_mod(i as nat, n as nat);
                vstd::arithmetic::div_mod::lemma_small_mod(j as nat, n as nat);
                self.chunks.lemma_shape();
                prev.lemma_shape();
                assert forall|a: int, b: int| in_window(a, b) && (a != i || b != j) implies #[trigger] self.chunks@[a][b]
                    == prev@[a][b] by {
                }
            }
            reloads.push(ChunkReload { column: i, row: j, mesh_slot: self.position_in_mesh_array + slot });
            k = k + 1;
        }
        proof {
            let (dx, dz) = step_delta(step);
            assert forall|i: int, j: int| in_window(i, j) implies {
                &&& (#[trigger] self.chunks@[i][j]).blocks.wf()
                &&& self.chunks@[i][j].blocks@ == crate::chunk::default_terrain()
                &&& self.chunks@[i][j].atlas_material_index == self.atlas_material_index
                &&& place_of(self.chunks@[i][j]) == window_position(self.center_chunk_position, i, j)
            } by {
                if !on_edge(step, i, j) {
                    assert(rot@[i][j] == before.chunks@[i + dx][j + dz]);
                }
            }
        }
        reloads
    }

    /// The grids beside the chunk at logical `(i, j)` that the window holds;
    /// a side at the window's edge has none.
    pub fn neighbors(&self, i: usize, j: usize) -> (r: Neighbors<'_>)
        requires
            self.wf(),
            in_window(i as int, j as int),
        ensures
            r == self.window_neighbors(i as int, j as int),
            r.wf(),
    {
        let n = RENDERED_CHUNKS_LENGTH;
        proof {
            self.chunks.lemma_shape();
            vstd::arithmetic::div_mod::lemma_small_mod(i as nat, n as nat);
            vstd::arithmetic::div_mod::lemma_small_mod(j as nat, n as nat);
            if i > 0 {
                vstd::arithmetic::div_mod::lemma_small_mod((i - 1) as nat, n as nat);
            }
            if j > 0 {
                vstd::arithmetic::div_mod::lemma_small_mod((j - 1) as nat, n as nat);
            }
            if i + 1 < n {
                vstd::arithmetic::div_mod::lemma_small_mod((i + 1) as nat, n as nat);
            }
            if j + 1 < n {
                vstd::arithmetic::div_mod::lemma_small_mod((j + 1) as nat, n as nat);
            }
        }
        let (x, z) = (i as i32, j as i32);
        Neighbors {
            neg_z: if j > 0 { Some(&self.chunks.index((x, z - 1)).blocks) } else { None },
            pos_z: if j < n - 1 { Some(&self.chunks.index((x, z + 1)).blocks) } else { None },
            neg_x: if i > 0 { Some(&self.chunks.index((x - 1, z)).blocks) } else { None },
            pos_x: if i < n - 1 { Some(&self.chunks.index((x + 1, z)).blocks) } else { None },
        }
    }

    /// The mesh of the chunk at logical `(i, j)`, with the faces toward the
    /// loaded chunks beside it culled against them.
    pub fn chunk_mesh(&self, i: usize, j: usize) -> (r: ChunkMesh)
        requires
            self.wf(),
            in_window(i as int, j as int),
        ensures
            r.vertices@ == chunk_vertices(&self.chunks@[i as int][j as int].blocks, &self.window_neighbors(i as int, j as int)),
            r.indices@ == quad_indices(r.vertices@.len() / 4),
            r.origin_x == self.chunks@[i as int][j as int].position.x * 16,
            r.origin_z == self.chunks@[i as int][j as int].position.z * 16,
            r.material_index == self.atlas_material_index,
    {
        let nb = self.neighbors(i, j);
        proof {
            vstd::arithmetic::div_mod::lemma_small_mod(i as nat, RENDERED_CHUNKS_LENGTH as nat);
            vstd::arithmetic::div_mod::lemma_small_mod(j as nat, RENDERED_CHUNKS_LENGTH as nat);
        }
        self.chunks.index((i as i32, j as i32)).create_mesh(&nb)
    }

    /// Every chunk of the window with its mesh slot, column by column: the
    /// meshes to build, in this order, when the window is first filled.
    pub fn initialize_chunks(&self) -> (r: Vec<ChunkReload>)
        requires
            self.wf(),
        ensures
            r@.len() == RENDERED_CHUNKS_LENGTH * RENDERED_CHUNKS_LENGTH,
            forall|i: int, j: int|
                #![trigger r@[i * RENDERED_CHUNKS_LENGTH + j]]
                in_window(i, j) ==> r@[i * RENDERED_CHUNKS_LENGTH + j] == (ChunkReload {
                    column: i as usize,
                    row: j as usize,
                    mesh_slot: self.mesh_slot(i, j) as usize,
                }),
    {
        let n = RENDERED_CHUNKS_LENGTH;
        let mut reloads: Vec<ChunkReload> = Vec::new();
        let mut i: usize = 0;
        while i < n
            invariant
                self.wf(),
                n == RENDERED_CHUNKS_LENGTH,
                i <= n,
                reloads@.len() == i * n,
                forall|a: int, b: int|
                    #![trigger reloads@[a * RENDERED_CHUNKS_LENGTH + b]]
                    0 <= a < i && 0 <= b < n ==> reloads@[a * RENDERED_CHUNKS_LENGTH + b] == (ChunkReload {
                        column: a as usize,
                        row: b as usize,
                        mesh_slot: self.mesh_slot(a, b) as usize,
                    }),
            decreases n - i,
        {
            let mut j: usize = 0;
            while j < n
                invariant
                    self.wf(),
                    n == RENDERED_CHUNKS_LENGTH,
                    i < n,
                    j <= n,
                    reloads@.len() == i * n + j,
                    forall|a: int, b: int|
                        #![trigger reloads@[a * RENDERED_CHUNKS_LENGTH + b]]
                        (0 <= a < i && 0 <= b < n) || (a == i && 0 <= b < j) ==> reloads@[a * RENDERED_CHUNKS_LENGTH + b] == (ChunkReload {
                            column: a as usize,
                            row: b as usize,
                            mesh_slot: self.mesh_slot(a, b) as usize,
                        }),
                decreases n - j,
            {
                let slot = self.chunks.linearize_index((i as i32, j as i32));
                reloads.push(ChunkReload { column: i, row: j, mesh_slot: self.position_in_mesh_array + slot });
                j = j + 1;
            }
            i = i + 1;
        }
        reloads
    }

    /// One tick for any viewer position: `None`, leaving the window as it is,
    /// when the viewer's chunk lies too close to the ends of the `i32` chunk
    /// range for a window around it; else what `frame_update` returns.
    pub fn try_frame_update(&mut self, viewer_block_x: i64, viewer_block_z: i64) -> (r: Option<Vec<ChunkReload>>)
        requires
            old(self).wf(),
        ensures
            final(self).wf(),
            r.is_none() <==> !centre_in_range(
                chunk_coordinate(viewer_block_x as int),
                chunk_coordinate(viewer_block_z as int),
            ),
            r.is_none() ==> *final(self) == *old(self),
            r.is_some() && final(self).center_chunk_position == old(self).center_chunk_position ==> *final(self) == *old(self),
            r.is_some() ==> final(self).center_chunk_position.x == chunk_coordinate(viewer_block_x as int)
                && final(self).center_chunk_position.z == chunk_coordinate(viewer_block_z as int),
            r.is_some() && final(self).center_chunk_position == old(self).center_chunk_position ==> r.unwrap()@.len() == 0,
            forall|s: Step|
                r.is_some() && step_delta(s) == (
                    chunk_coordinate(viewer_block_x as int) - old(self).center_chunk_position.x,
                    chunk_coordinate(viewer_block_z as int) - old(self).center_chunk_position.z,
                ) ==> #[trigger] old(self).stepped(final(self), s, r.unwrap()@),
            forall|k: int|
                r.is_some() && 0 <= k < r.unwrap()@.len() ==> in_window((#[trigger] r.unwrap()@[k]).column as int, r.unwrap()@[k].row as int)
                    && r.unwrap()@[k].mesh_slot == final(self).mesh_slot(r.unwrap()@[k].column as int, r.unwrap()@[k].row as int),
            r.is_some() && !final(self).center_chunk_position.equal_or_adjacent(old(self).center_chunk_position) ==> {
                &&& r.unwrap()@.len() == RENDERED_CHUNKS_LENGTH * RENDERED_CHUNKS_LENGTH
                &&& forall|i: int, j: int|
                    #![trigger r.unwrap()@[i * RENDERED_CHUNKS_LENGTH + j]]
                    in_window(i, j) ==> r.unwrap()@[i * RENDERED_CHUNKS_LENGTH + j] == (ChunkReload {
                        column: i as usize,
                        row: j as usize,
                        mesh_slot: final(self).mesh_slot(i, j) as usize,
                    })
            },
    {
        let x = chunked(viewer_block_x);
        let z = chunked(viewer_block_z);
        let low = i32::MIN as i64 + RENDER_DISTANCE as i64 + 1;
        let high = i32::MAX as i64 - RENDER_DISTANCE as i64 - 1;
        if low <= x && x <= high && low <= z && z <= high {
            Some(self.frame_update(viewer_block_x, viewer_block_z))
        } else {
            None
        }
    }

    /// One tick: moves the window so that it centres on the chunk holding the
    /// viewer, whose world block coordinates are given, one chunk-width step
    /// at a time (first along X, then along Z), and returns the chunks whose
    /// meshes must be rebuilt, each with its place in the window as it stands
    /// after the move and its mesh slot there. No move changes nothing; a move
    /// of one chunk is exactly one step and rebuilds the exposed edge line; a
    /// longer move rebuilds the whole window.
    pub fn frame_update(&mut self, viewer_block_x: i64, viewer_block_z: i64) -> (r: Vec<ChunkReload>)
        requires
            old(self).wf(),
            centre_in_range(chunk_coordinate(viewer_block_x as int), chunk_coordinate(viewer_block_z as int)),
        ensures
            final(self).wf(),
            final(self).atlas_material_index == old(self).atlas_material_index,
            final(self).position_in_mesh_array == old(self).position_in_mesh_array,
            final(self).center_chunk_position.x == chunk_coordinate(viewer_block_x as int),
            final(self).center_chunk_position.z == chunk_coordinate(viewer_block_z as int),
            final(self).center_chunk_position == old(self).center_chunk_position ==> r@.len() == 0 && *final(self) == *old(self),
            forall|s: Step|
                step_delta(s) == (
                    chunk_coordinate(viewer_block_x as int) - old(self).center_chunk_position.x,
                    chunk_coordinate(viewer_block_z as int) - old(self).center_chunk_position.z,
                ) ==> #[trigger] old(self).stepped(final(self), s, r@),
            forall|k: int|
                0 <= k < r@.len() ==> in_window((#[trigger] r@[k]).column as int, r@[k].row as int)
                    && r@[k].mesh_slot == final(self).mesh_slot(r@[k].column as int, r@[k].row as int),
            !final(self).center_chunk_position.equal_or_adjacent(old(self).center_chunk_position) ==> {
                &&& r@.len() == RENDERED_CHUNKS_LENGTH * RENDERED_CHUNKS_LENGTH
                &&& forall|i: int, j: int|
                    #![trigger r@[i * RENDERED_CHUNKS_LENGTH + j]]
                    in_window(i, j) ==> r@[i * RENDERED_CHUNKS_LENGTH + j] == (ChunkReload {
                        column: i as usize,
                        row: j as usize,
                        mesh_slot: final(self).mesh_slot(i, j) as usize,
                    })
            },
    {
        let tx = chunked(viewer_block_x) as i32;
        let tz = chunked(viewer_block_z) as i32;
        let c = self.center_chunk_position;
        if tx == c.x && tz == c.z {
            return Vec::new();
        }
        if tz == c.z && (tx == c.x + 1 || tx == c.x - 1) {
            return self.shift(if tx > c.x { Step::PosX } else { Step::NegX });
        }
        if tx == c.x && (tz == c.z + 1 || tz == c.z - 1) {
            return self.shift(if tz > c.z { Step::PosZ } else { Step::NegZ });
        }
        while self.center_chunk_position.x != tx
            invariant
                self.wf(),
                self.atlas_material_index == old(self).atlas_material_index,
                self.position_in_mesh_array == old(self).position_in_mesh_array,
                self.center_chunk_position.z == c.z,
                c.x <= tx ==> c.x <= self.center_chunk_position.x <= tx,
                tx <= c.x ==> tx <= self.center_chunk_position.x <= c.x,
                centre_in_range(tx as int, tz as int),
            decreases if tx >= self.center_chunk_position.x { tx - self.center_chunk_position.x } else { self.center_chunk_position.x - tx },
        {
            let step = if self.center_chunk_position.x < tx { Step::PosX } else { Step::NegX };
            self.shift(step);
        }
        while self.center_chunk_position.z != tz
            invariant
                self.wf(),
                self.atlas_material_index == old(self).atlas_material_index,
                self.position_in_mesh_array == old(self).position_in_mesh_array,
                self.center_chunk_position.x == tx,
                c.z <= tz ==> c.z <= self.center_chunk_position.z <= tz,
                tz <= c.z ==> tz <= self.center_chunk_position.z <= c.z,
                centre_in_range(tx as int, tz as int),
            decreases if tz >= self.center_chunk_position.z { tz - self.center_chunk_position.z } else { self.center_chunk_position.z - tz },
        {
            let step = if self.center_chunk_position.z < tz { Step::PosZ } else { Step::NegZ };
            self.shift(step);
        }
        let reloads = self.initialize_chunks();
        proof {
            assert forall|k: int| 0 <= k < reloads@.len() implies in_window(
                (#[trigger] reloads@[k]).column as int,
                reloads@[k].row as int,
            ) && reloads@[k].mesh_slot == self.mesh_slot(reloads@[k].column as int, reloads@[k].row as int) by {
                let (i, j) = (k / 3, k % 3);
                assert(k == i * 3 + j && 0 <= i < 3 && 0 <= j < 3);
            }
        }
        reloads
    }
}

/// A well-formed window holds one chunk per position: two places of the
/// window never hold chunks at the same position.
pub proof fn lemma_window_positions_distinct(loader: ChunkLoader, i: int, j: int, a: int, b: int)
    requires
        loader.wf(),
        in_window(i, j),
        in_window(a, b),
        i != a || j != b,
    ensures
        place_of(loader.chunks@[i][j]) != place_of(loader.chunks@[a][b]),
{
}

/// Place `k` of the line that a step leaves behind, in window indices
/// before the step.
pub open spec fn trailing_place(s: Step, k: int) -> (int, int) {
    match s {
        Step::PosX => (0, k),
        Step::NegX => (RENDERED_CHUNKS_LENGTH - 1, k),
        Step::PosZ => (k, 0),
        Step::NegZ => (k, RENDERED_CHUNKS_LENGTH - 1),
    }
}

/// A one-chunk move of the window rotates the ring once, hands back one
/// edge line of chunks to mesh, each for a slot of the mesh list, and leaves
/// no chunk of the window at a position that the line left behind held.
pub proof fn lemma_scrolled_out_absent(before: ChunkLoader, after: ChunkLoader, s: Step, r: Seq<ChunkReload>)
    requires
        before.wf(),
        before.stepped(&after, s, r),
    ensures
        r.len() == RENDERED_CHUNKS_LENGTH,
        forall|k: int|
            0 <= k < RENDERED_CHUNKS_LENGTH ==> r[k].mesh_slot
                < after.position_in_mesh_array + RENDERED_CHUNKS_LENGTH * RENDERED_CHUNKS_LENGTH,
        forall|k: int, i: int, j: int|
            #![trigger after.chunks@[i][j], trailing_place(s, k)]
            0 <= k < RENDERED_CHUNKS_LENGTH && in_window(i, j) ==> place_of(after.chunks@[i][j])
                != place_of(before.chunks@[trailing_place(s, k).0][trailing_place(s, k).1]),
{
    after.chunks.lemma_shape();
    assert forall|k: int| 0 <= k < RENDERED_CHUNKS_LENGTH implies r[k].mesh_slot
        < after.position_in_mesh_array + RENDERED_CHUNKS_LENGTH * RENDERED_CHUNKS_LENGTH by {
        let (i, j) = edge_place(s, k);
        vstd::arithmetic::div_mod::lemma_mod_bound(i + after.chunks.column_origin(), 3);
        vstd::arithmetic::div_mod::lemma_mod_bound(j + after.chunks.row_origin(), 3);
    }
}

/// Where the chunks off the new edge come from after the ring rotates once
/// for a step, and that each keeps its storage cell.
proof fn lemma_step_moves(before: RingBuffer2D<Chunk>, rot: RingBuffer2D<Chunk>, s: Step, i: int, j: int)
    requires
        before.wf(),
        before.rows() == RENDERED_CHUNKS_LENGTH,
        before.cols() == RENDERED_CHUNKS_LENGTH,
        rot.rows() == RENDERED_CHUNKS_LENGTH,
        rot.cols() == RENDERED_CHUNKS_LENGTH,
        s == Step::PosX ==> rot@ == rotated(before@, 1) && rot.column_origin() == wrap(before.column_origin() + 1, RENDERED_CHUNKS_LENGTH as int) && rot.row_origin() == before.row_origin(),
        s == Step::NegX ==> rot@ == rotated(before@, -1) && rot.column_origin() == wrap(before.column_origin() - 1, RENDERED_CHUNKS_LENGTH as int) && rot.row_origin() == before.row_origin(),
        s == Step::PosZ ==> rot@ == rotated_columns(before@, 1) && rot.row_origin() == wrap(before.row_origin() + 1, RENDERED_CHUNKS_LENGTH as int) && rot.column_origin() == before.column_origin(),
        s == Step::NegZ ==> rot@ == rotated_columns(before@, -1) && rot.row_origin() == wrap(before.row_origin() - 1, RENDERED_CHUNKS_LENGTH as int) && rot.column_origin() == before.column_origin(),
        in_window(i, j),
        !on_edge(s, i, j),
    ensures
        rot@[i][j] == before@[i + step_delta(s).0][j + step_delta(s).1],
        rot.cell(i, j) == before.cell(i + step_delta(s).0, j + step_delta(s).1),
{
    let n = RENDERED_CHUNKS_LENGTH as int;
    let (dx, dz) = step_delta(s);
    before.lemma_shape();
    vstd::arithmetic::div_mod::lemma_small_mod((i + dx) as nat, n as nat);
    vstd::arithmetic::div_mod::lemma_small_mod((j + dz) as nat, n as nat);
    crate::ring_buffer::lemma_wrap_add(before.column_origin() + dx, i, n);
    crate::ring_buffer::lemma_wrap_add(before.row_origin() + dz, j, n);
    assert(i + (before.column_origin() + dx) == i + dx + before.column_origin());
    assert(j + (before.row_origin() + dz) == j + dz + before.row_origin());
    assert(i + before.column_origin() + dx == before.column_origin() + dx + i);
    assert(j + before.row_origin() + dz == before.row_origin() + dz + j);
    crate::ring_buffer::lemma_wrap_add(before.column_origin() + dx, i, n);
}

} // verus!
