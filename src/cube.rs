use crate::block::{atlas_anchor, Blocks};
use crate::chunk::mask_bit;
use vstd::prelude::*;

verus! {

/// One corner of a face: a position in block units, an atlas position in
/// cells, and the face normal.
#[derive(Clone, Copy, Debug, PartialEq, Eq, Structural)]
pub struct Vertex {
    pub x: i32,
    pub y: i32,
    pub z: i32,
    pub u: u32,
    pub v: u32,
    pub nx: i32,
    pub ny: i32,
    pub nz: i32,
}

/// The two triangles of a quad, as offsets into its four corners.
pub const FACE_INDICES: [u32; 6] = [0, 1, 2, 0, 2, 3];

/// Entry `k` of `FACE_INDICES`.
pub open spec fn face_index(k: int) -> int {
    if k == 0 || k == 3 {
        0
    } else if k == 1 {
        1
    } else if k == 5 {
        3
    } else {
        2
    }
}

/// Corner `k` of the unit quad facing direction `d`: its offset inside the
/// block, and its atlas offset in cells from the block kind's anchor.
pub open spec fn corner(d: int, k: int) -> (i32, i32, i32, u32, u32) {
    if d == 0 {
        if k == 0 { (0, 1, 0, 1, 0) } else if k == 1 { (0, 0, 0, 1, 1) } else if k == 2 { (1, 0, 0, 2, 1) } else { (1, 1, 0, 2, 0) }
    } else if d == 1 {
        if k == 0 { (0, 1, 1, 1, 0) } else if k == 1 { (0, 0, 1, 1, 1) } else if k == 2 { (1, 0, 1, 2, 1) } else { (1, 1, 1, 2, 0) }
    } else if d == 2 {
        if k == 0 { (0, 1, 0, 1, 0) } else if k == 1 { (0, 0, 0, 1, 1) } else if k == 2 { (0, 0, 1, 2, 1) } else { (0, 1, 1, 2, 0) }
    } else if d == 3 {
        if k == 0 { (1, 1, 0, 1, 0) } else if k == 1 { (1, 0, 0, 1, 1) } else if k == 2 { (1, 0, 1, 2, 1) } else { (1, 1, 1, 2, 0) }
    } else if d == 4 {
        if k == 0 { (0, 0, 0, 2, 0) } else if k == 1 { (0, 0, 1, 2, 1) } else if k == 2 { (1, 0, 1, 3, 1) } else { (1, 0, 0, 3, 0) }
    } else {
        if k == 0 { (0, 1, 0, 0, 0) } else if k == 1 { (0, 1, 1, 0, 1) } else if k == 2 { (1, 1, 1, 1, 1) } else { (1, 1, 0, 1, 0) }
    }
}

/// The outward normal of direction `d`.
pub open spec fn normal(d: int) -> (i32, i32, i32) {
    if d == 0 {
        (0, 0, -1i32)
    } else if d == 1 {
        (0, 0, 1)
    } else if d == 2 {
        (-1i32, 0, 0)
    } else if d == 3 {
        (1, 0, 0)
    } else if d == 4 {
        (0, -1i32, 0)
    } else {
        (0, 1, 0)
    }
}

/// Corner `k` of the face in direction `d` of a block placed at `p`, with
/// atlas anchor `a`.
pub open spec fn quad_vertex(d: int, k: int, p: (i32, i32, i32), a: (u32, u32)) -> Vertex {
    let c = corner(d, k);
    let n = normal(d);
    Vertex {
        x: (p.0 + c.0) as i32,
        y: (p.1 + c.1) as i32,
        z: (p.2 + c.2) as i32,
        u: (a.0 + c.3) as u32,
        v: (a.1 + c.4) as u32,
        nx: n.0,
        ny: n.1,
        nz: n.2,
    }
}

/// The four corners of the face in direction `d` of a block at `p`.
pub open spec fn face_quad(d: int, p: (i32, i32, i32), a: (u32, u32)) -> Seq<Vertex> {
    seq![quad_vertex(d, 0, p, a), quad_vertex(d, 1, p, a), quad_vertex(d, 2, p, a), quad_vertex(d, 3, p, a)]
}

/// The corners of the faces of a block at `p` among the first `n` directions
/// whose bit is set in mask `m`, in direction order.
pub open spec fn faces_upto(m: u8, p: (i32, i32, i32), a: (u32, u32), n: nat) -> Seq<Vertex>
    decreases n,
{
    if n == 0 {
        Seq::empty()
    } else {
        let prev = faces_upto(m, p, a, (n - 1) as nat);
        if mask_bit(m, (n - 1) as u8) {
            prev + face_quad(n - 1, p, a)
        } else {
            prev
        }
    }
}

/// The corners of all faces of a block at `p` that mask `m` selects.
pub open spec fn faces_of(m: u8, p: (i32, i32, i32), a: (u32, u32)) -> Seq<Vertex> {
    faces_upto(m, p, a, 6)
}

/// A block placed at `p` has room for its largest corner in `i32`, and its
/// kind's anchor for its largest atlas offset in `u32`.
pub open spec fn placeable(p: (i32, i32, i32), a: (u32, u32)) -> bool {
    &&& p.0 < i32::MAX
    &&& p.1 < i32::MAX
    &&& p.2 < i32::MAX
    &&& a.0 <= u32::MAX - 3
    &&& a.1 <= u32::MAX - 1
}

/// A few faces gives four corners each.
pub proof fn lemma_faces_upto_len(m: u8, p: (i32, i32, i32), a: (u32, u32), n: nat)
    ensures
        faces_upto(m, p, a, n).len() % 4 == 0,
        faces_upto(m, p, a, n).len() <= 4 * n,
    decreases n,
{
    if n > 0 {
        lemma_faces_upto_len(m, p, a, (n - 1) as nat);
    }
}

/// Corner `k` of the unit quad facing direction `d`.
fn corner_of(d: u8, k: u8) -> (r: (i32, i32, i32, u32, u32))
    ensures
        r == corner(d as int, k as int),
{
    if d == 0 {
        if k == 0 { (0, 1, 0, 1, 0) } else if k == 1 { (0, 0, 0, 1, 1) } else if k == 2 { (1, 0, 0, 2, 1) } else { (1, 1, 0, 2, 0) }
    } else if d == 1 {
        if k == 0 { (0, 1, 1, 1, 0) } else if k == 1 { (0, 0, 1, 1, 1) } else if k == 2 { (1, 0, 1, 2, 1) } else { (1, 1, 1, 2, 0) }
    } else if d == 2 {
        if k == 0 { (0, 1, 0, 1, 0) } else if k == 1 { (0, 0, 0, 1, 1) } else if k == 2 { (0, 0, 1, 2, 1) } else { (0, 1, 1, 2, 0) }
    } else if d == 3 {
        if k == 0 { (1, 1, 0, 1, 0) } else if k == 1 { (1, 0, 0, 1, 1) } else if k == 2 { (1, 0, 1, 2, 1) } else { (1, 1, 1, 2, 0) }
    } else if d == 4 {
        if k == 0 { (0, 0, 0, 2, 0) } else if k == 1 { (0, 0, 1, 2, 1) } else if k == 2 { (1, 0, 1, 3, 1) } else { (1, 0, 0, 3, 0) }
    } else {
        if k == 0 { (0, 1, 0, 0, 0) } else if k == 1 { (0, 1, 1, 0, 1) } else if k == 2 { (1, 1, 1, 1, 1) } else { (1, 1, 0, 1, 0) }
    }
}

/// The outward normal of direction `d`.
fn normal_of(d: u8) -> (r: (i32, i32, i32))
    ensures
        r == normal(d as int),
{
    if d == 0 {
        (0, 0, -1)
    } else if d == 1 {
        (0, 0, 1)
    } else if d == 2 {
        (-1, 0, 0)
    } else if d == 3 {
        (1, 0, 0)
    } else if d == 4 {
        (0, -1, 0)
    } else {
        (0, 1, 0)
    }
}

/// The faces of one block, four corners each.
pub struct MeshInfo {
    pub vertices: Vec<Vertex>,
    pub face_count: usize,
}

impl MeshInfo {
    /// Four corners per face, and no more than six faces.
    pub open spec fn wf(&self) -> bool {
        &&& self.vertices@.len() == 4 * self.face_count
        &&& self.face_count <= 6
    }

    /// No faces.
    pub fn init() -> (r: MeshInfo)
        ensures
            r.wf(),
            r.face_count == 0,
            r.vertices@ == Seq::<Vertex>::empty(),
    {
        MeshInfo { vertices: Vec::new(), face_count: 0 }
    }

    /// All six faces of a block at `pos`, anchored at the atlas origin.
    pub fn full(pos: (i32, i32, i32)) -> (r: MeshInfo)
        requires
            placeable(pos, (0, 0)),
        ensures
            r.wf(),
            r.face_count == 6,
            r.vertices@ == faces_of(63, pos, (0, 0)),
    {
        let mut mesh = MeshInfo::init();
        let mut d: u8 = 0;
        while d < 6
            invariant
                placeable(pos, (0, 0)),
                d <= 6,
                mesh.wf(),
                mesh.face_count == d,
                mesh.vertices@ == faces_upto(63, pos, (0, 0), d as nat),
            decreases 6 - d,
        {
            assert(mask_bit(63, d)) by (bit_vector)
                requires
                    d < 6,
            ;
            mesh.append_data(d, (0, 0), pos);
            d = d + 1;
        }
        mesh
    }

    /// Appends the face in direction `direction` of a block at
    /// `vertex_offset` whose kind is anchored at atlas cell `coords`.
    pub fn append_data(&mut self, direction: u8, coords: (u32, u32), vertex_offset: (i32, i32, i32))
        requires
            old(self).wf(),
            old(self).face_count < 6,
            direction < 6,
            placeable(vertex_offset, coords),
        ensures
            final(self).wf(),
            final(self).face_count == old(self).face_count + 1,
            final(self).vertices@ == old(self).vertices@ + face_quad(
                direction as int,
                vertex_offset,
                coords,
            ),
    {
        let n = normal_of(direction);
        let mut k: u8 = 0;
        while k < 4
            invariant
                placeable(vertex_offset, coords),
                direction < 6,
                n == normal(direction as int),
                k <= 4,
                self.face_count == old(self).face_count,
                self.vertices@ == old(self).vertices@ + face_quad(
                    direction as int,
                    vertex_offset,
                    coords,
                ).subrange(0, k as int),
            decreases 4 - k,
        {
            let c = corner_of(direction, k);
            let vert = Vertex {
                x: vertex_offset.0 + c.0,
                y: vertex_offset.1 + c.1,
                z: vertex_offset.2 + c.2,
                u: coords.0 + c.3,
                v: coords.1 + c.4,
                nx: n.0,
                ny: n.1,
                nz: n.2,
            };
            self.vertices.push(vert);
            k = k + 1;
            assert(self.vertices@ =~= old(self).vertices@ + face_quad(
                direction as int,
                vertex_offset,
                coords,
            ).subrange(0, k as int));
        }
        assert(face_quad(direction as int, vertex_offset, coords).subrange(0, 4) =~= face_quad(
            direction as int,
            vertex_offset,
            coords,
        ));
        self.face_count = self.face_count + 1;
    }
}

/// A block placed for drawing: its faces under a given mask.
pub struct Cube {
    pub position: (i32, i32, i32),
    pub material_index: u32,
    pub mesh_info: MeshInfo,
}

impl Cube {
    /// The faces of a block of kind `block` that `face_mask` selects, in
    /// direction order; placed at `position` when `set_verts_to_position`
    /// holds, at the origin otherwise.
    pub fn new(
        position: (i32, i32, i32),
        material_index: u32,
        block: Blocks,
        face_mask: u8,
        set_verts_to_position: bool,
    ) -> (r: Cube)
        requires
            placeable(position, atlas_anchor(block)),
        ensures
            r.position == position,
            r.material_index == material_index,
            r.mesh_info.wf(),
            r.mesh_info.vertices@ == faces_of(
                face_mask,
                if set_verts_to_position { position } else { (0, 0, 0) },
                atlas_anchor(block),
            ),
    {
        let texture_coords = block.coords();
        let vertex_offset = if set_verts_to_position { position } else { (0, 0, 0) };
        let mut mesh_info = MeshInfo::init();
        let mut d: u8 = 0;
        while d < 6
            invariant
                placeable(vertex_offset, texture_coords),
                d <= 6,
                mesh_info.wf(),
                mesh_info.face_count <= d,
                mesh_info.vertices@ == faces_upto(face_mask, vertex_offset, texture_coords, d as nat),
            decreases 6 - d,
        {
            if (face_mask >> d) & 1 == 1 {
                mesh_info.append_data(d, texture_coords, vertex_offset);
            }
            d = d + 1;
        }
        Cube { position, material_index, mesh_info }
    }
}

} // verus!
