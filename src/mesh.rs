use crate::cube::{face_index, Vertex, FACE_INDICES};
use vstd::prelude::*;

verus! {

/// The geometry of one chunk: corners in chunk-local block units, the
/// triangles over them as indices into the corners, the world translation
/// (in blocks, along X and Z; none along Y, no rotation) that places the
/// chunk, and the atlas material it is drawn with.
pub struct ChunkMesh {
    pub vertices: Vec<Vertex>,
    pub indices: Vec<u32>,
    pub origin_x: i64,
    pub origin_z: i64,
    pub material_index: u32,
}

/// Indices for `q` quads laid out four corners each: two triangles per quad,
/// `FACE_INDICES` offset by four times the quad's position.
pub open spec fn quad_indices(q: nat) -> Seq<u32> {
    Seq::new(6 * q, |j: int| (4 * (j / 6) + face_index(j % 6)) as u32)
}

/// The concatenation of what each part holds.
pub open spec fn joined(parts: Seq<Vec<Vertex>>) -> Seq<Vertex> {
    parts.map_values(|p: Vec<Vertex>| p@).flatten()
}

/// Indices for `quads` quads of four corners each.
pub fn gen_indices(quads: usize) -> (r: Vec<u32>)
    requires
        4 * quads <= u32::MAX,
    ensures
        r@ == quad_indices(quads as nat),
{
    let mut indices: Vec<u32> = Vec::new();
    let mut f: usize = 0;
    while f < quads
        invariant
            4 * quads <= u32::MAX,
            f <= quads,
            indices@ == quad_indices(f as nat),
        decreases quads - f,
    {
        let base = 4 * (f as u32);
        let mut k: usize = 0;
        while k < 6
            invariant
                4 * quads <= u32::MAX,
                f < quads,
                base == 4 * f,
                k <= 6,
                indices@ == quad_indices(f as nat) + Seq::new(
                    k as nat,
                    |j: int| (4 * f + face_index(j)) as u32,
                ),
            decreases 6 - k,
        {
            indices.push(base + FACE_INDICES[k]);
            k = k + 1;
            assert(indices@ =~= quad_indices(f as nat) + Seq::new(
                k as nat,
                |j: int| (4 * f + face_index(j)) as u32,
            ));
        }
        proof {
            assert forall|j: int| 0 <= j < 6 * (f + 1) implies #[trigger] indices@[j] == quad_indices(
                (f + 1) as nat,
            )[j] by {
                if j >= 6 * f {
                    vstd::arithmetic::div_mod::lemma_fundamental_div_mod_converse(j, 6, f as int, j - 6 * f);
                }
            }
            assert(indices@ =~= quad_indices((f + 1) as nat));
        }
        f = f + 1;
    }
    indices
}

/// Joins per-part corner lists, in order, into one mesh and indexes its quads.
/// This is how meshes built piecewise by several workers are put together;
/// the mesh is placed at `origin` and drawn with `material_index`.
pub fn assemble(parts: Vec<Vec<Vertex>>, origin: (i64, i64), material_index: u32) -> (r: ChunkMesh)
    requires
        joined(parts@).len() % 4 == 0,
        joined(parts@).len() <= u32::MAX,
    ensures
        r.vertices@ == joined(parts@),
        r.indices@ == quad_indices(joined(parts@).len() / 4),
        r.origin_x == origin.0,
        r.origin_z == origin.1,
        r.material_index == material_index,
{
    let ghost all = parts@.map_values(|p: Vec<Vertex>| p@);
    let mut parts = parts;
    let mut vertices: Vec<Vertex> = Vec::new();
    let mut i: usize = 0;
    while i < parts.len()
        invariant
            parts@.len() == all.len(),
            i <= parts@.len(),
            forall|j: int| i <= j < all.len() ==> #[trigger] parts@[j]@ == all[j],
            vertices@ == all.subrange(0, i as int).flatten(),
        decreases parts@.len() - i,
    {
        let mut part: Vec<Vertex> = Vec::new();
        parts.set_and_swap(i, &mut part);
        vertices.append(&mut part);
        proof {
            assert(all.subrange(0, i + 1) =~= all.subrange(0, i as int).push(all[i as int]));
            all.subrange(0, i as int).lemma_flatten_push(all[i as int]);
        }
        i = i + 1;
    }
    assert(all.subrange(0, all.len() as int) =~= all);
    let indices = gen_indices(vertices.len() / 4);
    ChunkMesh { vertices, indices, origin_x: origin.0, origin_z: origin.1, material_index }
}

} // verus!
