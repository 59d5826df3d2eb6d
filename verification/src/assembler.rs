//! The mesh assembler: flattens a quad list into position, normal, UV and
//! index buffers with consistent outward winding.
//!
//! Each quad contributes four fresh vertices (no cross-quad sharing), four
//! copies of its direction's unit normal, four placeholder UVs, and six
//! indices forming two outward-facing triangles. Voxels are one world unit,
//! so every vertex coordinate is an integer; consumers scale as they wish.

use vstd::prelude::*;
use vstd::arithmetic::div_mod::lemma_fundamental_div_mod;
use vstd::arithmetic::div_mod::lemma_mod_division_less_than_divisor;
use crate::mesher::FaceDir;
use crate::mesher::Quad;
use crate::mesher::normal_dx;
use crate::mesher::normal_dy;
use crate::mesher::normal_dz;

verus! {

/// One vertex position or normal, in integer lattice units.
#[derive(Clone, Copy, PartialEq, Eq, Structural, Debug)]
pub struct Vertex {
    pub x: i32,
    pub y: i32,
    pub z: i32,
}

/// One texture coordinate pair; this core emits placeholder zeros.
#[derive(Clone, Copy, PartialEq, Eq, Structural, Debug)]
pub struct Uv {
    pub u: i32,
    pub v: i32,
}

/// The flat mesh buffers handed to a renderer: parallel per-vertex
/// sequences and a triangle index list.
pub struct MeshBuffers {
    pub positions: Vec<Vertex>,
    pub normals: Vec<Vertex>,
    pub uvs: Vec<Uv>,
    pub indices: Vec<u32>,
}

/// The unit normal of a face direction.
pub open spec fn normal_vertex(d: FaceDir) -> Vertex {
    Vertex { x: normal_dx(d) as i32, y: normal_dy(d) as i32, z: normal_dz(d) as i32 }
}

/// Whether a quad's corner coordinates stay far below `i32` and `u32`
/// limits, so corner arithmetic cannot overflow. Every quad of a supported
/// lattice satisfies this.
pub open spec fn quad_fits(q: Quad) -> bool {
    &&& q.x < 0x1000
    &&& q.y < 0x1000
    &&& q.z < 0x1000
    &&& q.w <= 0x1000
    &&& q.h <= 0x1000
}

/// Corner `j` (0 to 3) of a quad, in counter-clockwise order as seen from
/// outside along the quad's outward normal, under the right-handed, Y-up
/// convention. Positive directions place the face one unit past the quad's
/// minimum corner along the normal axis; negative directions place it at
/// the minimum corner, with the tangent order swapped to keep the winding
/// outward.
pub open spec fn quad_corner(q: Quad, j: int) -> Vertex {
    match q.dir {
        FaceDir::XPos => {
            let x = (q.x + 1) as i32;
            if j == 0 { Vertex { x, y: q.y as i32, z: q.z as i32 } }
            else if j == 1 { Vertex { x, y: (q.y + q.w) as i32, z: q.z as i32 } }
            else if j == 2 { Vertex { x, y: (q.y + q.w) as i32, z: (q.z + q.h) as i32 } }
            else { Vertex { x, y: q.y as i32, z: (q.z + q.h) as i32 } }
        },
        FaceDir::XNeg => {
            let x = q.x as i32;
            if j == 0 { Vertex { x, y: q.y as i32, z: q.z as i32 } }
            else if j == 1 { Vertex { x, y: q.y as i32, z: (q.z + q.h) as i32 } }
            else if j == 2 { Vertex { x, y: (q.y + q.w) as i32, z: (q.z + q.h) as i32 } }
            else { Vertex { x, y: (q.y + q.w) as i32, z: q.z as i32 } }
        },
        FaceDir::YPos => {
            let y = (q.y + 1) as i32;
            if j == 0 { Vertex { x: q.x as i32, y, z: q.z as i32 } }
            else if j == 1 { Vertex { x: q.x as i32, y, z: (q.z + q.h) as i32 } }
            else if j == 2 { Vertex { x: (q.x + q.w) as i32, y, z: (q.z + q.h) as i32 } }
            else { Vertex { x: (q.x + q.w) as i32, y, z: q.z as i32 } }
        },
        FaceDir::YNeg => {
            let y = q.y as i32;
            if j == 0 { Vertex { x: q.x as i32, y, z: q.z as i32 } }
            else if j == 1 { Vertex { x: (q.x + q.w) as i32, y, z: q.z as i32 } }
            else if j == 2 { Vertex { x: (q.x + q.w) as i32, y, z: (q.z + q.h) as i32 } }
            else { Vertex { x: q.x as i32, y, z: (q.z + q.h) as i32 } }
        },
        FaceDir::ZPos => {
            let z = (q.z + 1) as i32;
            if j == 0 { Vertex { x: q.x as i32, y: q.y as i32, z } }
            else if j == 1 { Vertex { x: (q.x + q.w) as i32, y: q.y as i32, z } }
            else if j == 2 { Vertex { x: (q.x + q.w) as i32, y: (q.y + q.h) as i32, z } }
            else { Vertex { x: q.x as i32, y: (q.y + q.h) as i32, z } }
        },
        FaceDir::ZNeg => {
            let z = q.z as i32;
            if j == 0 { Vertex { x: q.x as i32, y: q.y as i32, z } }
            else if j == 1 { Vertex { x: q.x as i32, y: (q.y + q.h) as i32, z } }
            else if j == 2 { Vertex { x: (q.x + q.w) as i32, y: (q.y + q.h) as i32, z } }
            else { Vertex { x: (q.x + q.w) as i32, y: q.y as i32, z } }
        },
    }
}

/// The index value at slot `j` (0 to 5) of quad number `k`: two triangles
/// `(0,1,2)` and `(0,2,3)` over the quad's four fresh vertices, relative to
/// the running vertex count `4*k`.
pub open spec fn quad_index_val(k: int, j: int) -> int {
    if j == 0 { 4 * k }
    else if j == 1 { 4 * k + 1 }
    else if j == 2 { 4 * k + 2 }
    else if j == 3 { 4 * k }
    else if j == 4 { 4 * k + 2 }
    else { 4 * k + 3 }
}

/// The per-vertex element of quad `k`, slot `j` (0 to 3).
pub open spec fn vert_at<T>(s: Seq<T>, k: int, j: int) -> T {
    s[4 * k + j]
}

/// The index element of quad `k`, slot `j` (0 to 5).
pub open spec fn idx_at(s: Seq<u32>, k: int, j: int) -> u32 {
    s[6 * k + j]
}

/// Whether the buffers are exactly the assembly of the given quads: the
/// lengths, every vertex, every normal, every UV and every index value are
/// pinned, so the buffers are a function of the quad list.
pub open spec fn buffers_match(b: MeshBuffers, qs: Seq<Quad>) -> bool {
    &&& b.positions.len() == 4 * qs.len()
    &&& b.normals.len() == 4 * qs.len()
    &&& b.uvs.len() == 4 * qs.len()
    &&& b.indices.len() == 6 * qs.len()
    &&& forall|k: int, j: int|
        0 <= k < qs.len() && 0 <= j < 4 ==> #[trigger] vert_at(b.positions@, k, j)
            == quad_corner(qs[k], j)
    &&& forall|k: int, j: int|
        0 <= k < qs.len() && 0 <= j < 4 ==> #[trigger] vert_at(b.normals@, k, j)
            == normal_vertex(qs[k].dir)
    &&& forall|i: int| 0 <= i < b.uvs.len() ==> #[trigger] b.uvs@[i] == (Uv { u: 0, v: 0 })
    &&& forall|k: int, j: int|
        0 <= k < qs.len() && 0 <= j < 6 ==> #[trigger] idx_at(b.indices@, k, j)
            == quad_index_val(k, j) as u32
}

/// The buffer consistency invariant: equal per-vertex lengths, six indices
/// for every four vertices, and every index value within the vertex range.
pub open spec fn buffers_consistent(b: MeshBuffers) -> bool {
    &&& b.normals.len() == b.positions.len()
    &&& b.uvs.len() == b.positions.len()
    &&& 2 * b.indices.len() == 3 * b.positions.len()
    &&& b.positions.len() % 4 == 0
    &&& forall|i: int|
        0 <= i < b.indices.len() ==> (#[trigger] b.indices@[i]) < b.positions.len()
}

/// Flattens the quad list into mesh buffers: for each quad in order, four
/// fresh corner positions with outward winding, four copies of the
/// direction's unit normal, four placeholder UVs and six indices relative
/// to the running vertex count.
#[verifier::loop_isolation(false)]
#[verifier::rlimit(60)]
pub fn assemble(quads: &Vec<Quad>) -> (b: MeshBuffers)
    requires
        quads.len() < 0x0800_0000,
        forall|k: int| 0 <= k < quads.len() ==> quad_fits(#[trigger] quads@[k]),
    ensures
        buffers_match(b, quads@),
        buffers_consistent(b),
{
    let mut positions: Vec<Vertex> = Vec::new();
    let mut normals: Vec<Vertex> = Vec::new();
    let mut uvs: Vec<Uv> = Vec::new();
    let mut indices: Vec<u32> = Vec::new();
    let mut k: usize = 0;
    while k < quads.len()
        invariant
            k <= quads.len(),
            positions.len() == 4 * k,
            normals.len() == 4 * k,
            uvs.len() == 4 * k,
            indices.len() == 6 * k,
            forall|k2: int, j: int|
                0 <= k2 < k && 0 <= j < 4 ==> #[trigger] vert_at(positions@, k2, j)
                    == quad_corner(quads@[k2], j),
            forall|k2: int, j: int|
                0 <= k2 < k && 0 <= j < 4 ==> #[trigger] vert_at(normals@, k2, j)
                    == normal_vertex(quads@[k2].dir),
            forall|i: int| 0 <= i < uvs.len() ==> #[trigger] uvs@[i] == (Uv { u: 0, v: 0 }),
            forall|k2: int, j: int|
                0 <= k2 < k && 0 <= j < 6 ==> #[trigger] idx_at(indices@, k2, j)
                    == quad_index_val(k2, j) as u32,
            forall|i: int| 0 <= i < indices.len() ==> (#[trigger] indices@[i]) < positions.len(),
        decreases quads.len() - k,
    {
        let q = quads[k];
        let (c0, c1, c2, c3) = quad_corners_exec(q);
        let ghost pos0 = positions@;
        positions.push(c0);
        positions.push(c1);
        positions.push(c2);
        positions.push(c3);
        let nv = Vertex {
            x: match q.dir { FaceDir::XNeg => -1, FaceDir::XPos => 1, _ => 0 },
            y: match q.dir { FaceDir::YNeg => -1, FaceDir::YPos => 1, _ => 0 },
            z: match q.dir { FaceDir::ZNeg => -1, FaceDir::ZPos => 1, _ => 0 },
        };
        let ghost nrm0 = normals@;
        normals.push(nv);
        normals.push(nv);
        normals.push(nv);
        normals.push(nv);
        uvs.push(Uv { u: 0, v: 0 });
        uvs.push(Uv { u: 0, v: 0 });
        uvs.push(Uv { u: 0, v: 0 });
        uvs.push(Uv { u: 0, v: 0 });
        let base = (4 * k) as u32;
        let ghost idx0 = indices@;
        indices.push(base);
        indices.push(base + 1);
        indices.push(base + 2);
        indices.push(base);
        indices.push(base + 2);
        indices.push(base + 3);
        proof {
            assert(nv == normal_vertex(q.dir));
            assert(c0 == quad_corner(q, 0) && c1 == quad_corner(q, 1) && c2 == quad_corner(q, 2)
                && c3 == quad_corner(q, 3));
            assert forall|k2: int, j: int| 0 <= k2 < k + 1 && 0 <= j < 4
                implies #[trigger] vert_at(positions@, k2, j) == quad_corner(quads@[k2], j) by {
                if k2 < k {
                    assert(4 * k2 + j < pos0.len());
                    assert(positions@[4 * k2 + j] == pos0[4 * k2 + j]);
                    assert(vert_at(pos0, k2, j) == quad_corner(quads@[k2], j));
                } else {
                    assert(positions@[4 * k2 + j] == if j == 0 { c0 } else if j == 1 { c1 }
                        else if j == 2 { c2 } else { c3 });
                }
            }
            assert forall|k2: int, j: int| 0 <= k2 < k + 1 && 0 <= j < 4
                implies #[trigger] vert_at(normals@, k2, j) == normal_vertex(quads@[k2].dir) by {
                if k2 < k {
                    assert(4 * k2 + j < nrm0.len());
                    assert(normals@[4 * k2 + j] == nrm0[4 * k2 + j]);
                    assert(vert_at(nrm0, k2, j) == normal_vertex(quads@[k2].dir));
                } else {
                    assert(normals@[4 * k2 + j] == nv);
                }
            }
            assert forall|k2: int, j: int| 0 <= k2 < k + 1 && 0 <= j < 6
                implies #[trigger] idx_at(indices@, k2, j) == quad_index_val(k2, j) as u32 by {
                if k2 < k {
                    assert(6 * k2 + j < idx0.len());
                    assert(indices@[6 * k2 + j] == idx0[6 * k2 + j]);
                    assert(idx_at(idx0, k2, j) == quad_index_val(k2, j) as u32);
                } else {
                    assert(indices@[6 * k2 + j] as int == if j == 0 { base as int } else if j == 1 {
                        base as int + 1
                    } else if j == 2 { base as int + 2 } else if j == 3 { base as int } else if j
                        == 4 { base as int + 2 } else { base as int + 3 });
                }
            }
            assert forall|i: int| 0 <= i < indices.len()
                implies (#[trigger] indices@[i]) < positions.len() by {
                if i < idx0.len() {
                    assert(indices@[i] == idx0[i]);
                }
            }
        }
        k = k + 1;
    }
    proof {
        vstd::arithmetic::div_mod::lemma_mod_multiples_basic(k as int, 4);
        assert(4 * (k as int) == (k as int) * 4);
    }
    MeshBuffers { positions, normals, uvs, indices }
}

/// Computes the four corners of one quad, in the order of [`quad_corner`].
fn quad_corners_exec(q: Quad) -> (cs: (Vertex, Vertex, Vertex, Vertex))
    requires
        quad_fits(q),
    ensures
        cs.0 == quad_corner(q, 0),
        cs.1 == quad_corner(q, 1),
        cs.2 == quad_corner(q, 2),
        cs.3 == quad_corner(q, 3),
{
    let x0 = q.x as i32;
    let y0 = q.y as i32;
    let z0 = q.z as i32;
    match q.dir {
        FaceDir::XPos => {
            let x = x0 + 1;
            let yw = y0 + q.w as i32;
            let zh = z0 + q.h as i32;
            (
                Vertex { x, y: y0, z: z0 },
                Vertex { x, y: yw, z: z0 },
                Vertex { x, y: yw, z: zh },
                Vertex { x, y: y0, z: zh },
            )
        },
        FaceDir::XNeg => {
            let yw = y0 + q.w as i32;
            let zh = z0 + q.h as i32;
            (
                Vertex { x: x0, y: y0, z: z0 },
                Vertex { x: x0, y: y0, z: zh },
                Vertex { x: x0, y: yw, z: zh },
                Vertex { x: x0, y: yw, z: z0 },
            )
        },
        FaceDir::YPos => {
            let y = y0 + 1;
            let xw = x0 + q.w as i32;
            let zh = z0 + q.h as i32;
            (
                Vertex { x: x0, y, z: z0 },
                Vertex { x: x0, y, z: zh },
                Vertex { x: xw, y, z: zh },
                Vertex { x: xw, y, z: z0 },
            )
        },
        FaceDir::YNeg => {
            let xw = x0 + q.w as i32;
            let zh = z0 + q.h as i32;
            (
                Vertex { x: x0, y: y0, z: z0 },
                Vertex { x: xw, y: y0, z: z0 },
                Vertex { x: xw, y: y0, z: zh },
                Vertex { x: x0, y: y0, z: zh },
            )
        },
        FaceDir::ZPos => {
            let z = z0 + 1;
            let xw = x0 + q.w as i32;
            let yh = y0 + q.h as i32;
            (
                Vertex { x: x0, y: y0, z },
                Vertex { x: xw, y: y0, z },
                Vertex { x: xw, y: yh, z },
                Vertex { x: x0, y: yh, z },
            )
        },
        FaceDir::ZNeg => {
            let xw = x0 + q.w as i32;
            let yh = y0 + q.h as i32;
            (
                Vertex { x: x0, y: y0, z: z0 },
                Vertex { x: x0, y: yh, z: z0 },
                Vertex { x: xw, y: yh, z: z0 },
                Vertex { x: xw, y: y0, z: z0 },
            )
        },
    }
}

/// The `x` component of the cross product `(b - a) x (c - a)` of a corner
/// triple, the unnormalized normal of triangle `(a, b, c)`.
pub open spec fn triangle_normal_x(a: Vertex, b: Vertex, c: Vertex) -> int {
    (b.y - a.y) * (c.z - a.z) - (b.z - a.z) * (c.y - a.y)
}

/// See [`triangle_normal_x`].
pub open spec fn triangle_normal_y(a: Vertex, b: Vertex, c: Vertex) -> int {
    (b.z - a.z) * (c.x - a.x) - (b.x - a.x) * (c.z - a.z)
}

/// See [`triangle_normal_x`].
pub open spec fn triangle_normal_z(a: Vertex, b: Vertex, c: Vertex) -> int {
    (b.x - a.x) * (c.y - a.y) - (b.y - a.y) * (c.x - a.x)
}

/// The winding law: both triangles of a quad, `(0,1,2)` and `(0,2,3)` over
/// its corners, face outward. Their cross products equal the quad's area
/// times the face direction's unit normal, so under a right-handed, Y-up
/// convention backface culling keeps every emitted face visible from
/// outside the volume.
pub proof fn lemma_outward_winding(q: Quad)
    requires
        quad_fits(q),
        1 <= q.w,
        1 <= q.h,
    ensures
        triangle_normal_x(quad_corner(q, 0), quad_corner(q, 1), quad_corner(q, 2))
            == q.w * q.h * normal_dx(q.dir),
        triangle_normal_y(quad_corner(q, 0), quad_corner(q, 1), quad_corner(q, 2))
            == q.w * q.h * normal_dy(q.dir),
        triangle_normal_z(quad_corner(q, 0), quad_corner(q, 1), quad_corner(q, 2))
            == q.w * q.h * normal_dz(q.dir),
        triangle_normal_x(quad_corner(q, 0), quad_corner(q, 2), quad_corner(q, 3))
            == q.w * q.h * normal_dx(q.dir),
        triangle_normal_y(quad_corner(q, 0), quad_corner(q, 2), quad_corner(q, 3))
            == q.w * q.h * normal_dy(q.dir),
        triangle_normal_z(quad_corner(q, 0), quad_corner(q, 2), quad_corner(q, 3))
            == q.w * q.h * normal_dz(q.dir),
{
    let a = quad_corner(q, 0);
    let b = quad_corner(q, 1);
    let c = quad_corner(q, 2);
    let d = quad_corner(q, 3);
    let w = q.w as int;
    let h = q.h as int;
    match q.dir {
        FaceDir::XPos => {
            assert(b.x - a.x == 0 && b.y - a.y == w && b.z - a.z == 0);
            assert(c.x - a.x == 0 && c.y - a.y == w && c.z - a.z == h);
            assert(d.x - a.x == 0 && d.y - a.y == 0 && d.z - a.z == h);
            assert(w * h - 0 * w == w * h) by (nonlinear_arith);
            assert(0 * h - 0 * w == 0 && 0 * w - w * 0 == 0 && 0 * h - h * 0 == 0 && w * 0 - 0 * 0
                == 0 && 0 * 0 - 0 * h == 0 && 0 * 0 - 0 * 0 == 0 && w * h - 0 * 0 == w * h && 0 * 0
                - w * h == -(w * h) && h * 0 - 0 * 0 == 0) by (nonlinear_arith);
        },
        FaceDir::XNeg => {
            assert(b.x - a.x == 0 && b.y - a.y == 0 && b.z - a.z == h);
            assert(c.x - a.x == 0 && c.y - a.y == w && c.z - a.z == h);
            assert(d.x - a.x == 0 && d.y - a.y == w && d.z - a.z == 0);
            assert(0 * h - h * w == -(w * h) && h * w == w * h && 0 * 0 - 0 * h == 0 && h * 0 - 0
                * w == 0 && 0 * w - 0 * 0 == 0 && w * 0 - h * w == -(w * h) && 0 * h - 0 * 0 == 0
                && 0 * 0 - w * 0 == 0) by (nonlinear_arith);
        },
        FaceDir::YPos => {
            assert(b.x - a.x == 0 && b.y - a.y == 0 && b.z - a.z == h);
            assert(c.x - a.x == w && c.y - a.y == 0 && c.z - a.z == h);
            assert(d.x - a.x == w && d.y - a.y == 0 && d.z - a.z == 0);
            assert(0 * h - h * 0 == 0 && h * w - 0 * h == w * h && 0 * 0 - 0 * w == 0 && 0 * 0 - h
                * 0 == 0 && h * w - 0 * 0 == w * h && 0 * 0 - 0 * w == 0) by (nonlinear_arith);
        },
        FaceDir::YNeg => {
            assert(b.x - a.x == w && b.y - a.y == 0 && b.z - a.z == 0);
            assert(c.x - a.x == w && c.y - a.y == 0 && c.z - a.z == h);
            assert(d.x - a.x == 0 && d.y - a.y == 0 && d.z - a.z == h);
            assert(0 * h - 0 * 0 == 0 && 0 * w - w * h == -(w * h) && w * 0 - 0 * w == 0 && 0 * h
                - 0 * 0 == 0 && 0 * 0 - w * h == -(w * h) && w * 0 - 0 * 0 == 0)
                by (nonlinear_arith);
        },
        FaceDir::ZPos => {
            assert(b.x - a.x == w && b.y - a.y == 0 && b.z - a.z == 0);
            assert(c.x - a.x == w && c.y - a.y == h && c.z - a.z == 0);
            assert(d.x - a.x == 0 && d.y - a.y == h && d.z - a.z == 0);
            assert(0 * 0 - 0 * h == 0 && 0 * w - w * 0 == 0 && w * h - 0 * w == w * h && 0 * 0 - 0
                * h == 0 && 0 * 0 - w * 0 == 0 && w * h - 0 * 0 == w * h) by (nonlinear_arith);
        },
        FaceDir::ZNeg => {
            assert(b.x - a.x == 0 && b.y - a.y == h && b.z - a.z == 0);
            assert(c.x - a.x == w && c.y - a.y == h && c.z - a.z == 0);
            assert(d.x - a.x == w && d.y - a.y == 0 && d.z - a.z == 0);
            assert(h * 0 - 0 * h == 0 && 0 * w - 0 * 0 == 0 && 0 * h - h * w == -(w * h) && h * 0
                - 0 * 0 == 0 && 0 * w - 0 * 0 == 0 && 0 * 0 - h * w == -(w * h))
                by (nonlinear_arith);
        },
    }
}

/// The assembly stage is deterministic: two buffer sets assembled from the
/// same quad list are identical, element for element.
pub proof fn lemma_assembly_deterministic(b1: MeshBuffers, b2: MeshBuffers, qs: Seq<Quad>)
    requires
        buffers_match(b1, qs),
        buffers_match(b2, qs),
    ensures
        b1.positions@ == b2.positions@,
        b1.normals@ == b2.normals@,
        b1.uvs@ == b2.uvs@,
        b1.indices@ == b2.indices@,
{
    assert forall|i: int| 0 <= i < b1.positions@.len()
        implies b1.positions@[i] == b2.positions@[i] && b1.normals@[i] == b2.normals@[i] by {
        lemma_fundamental_div_mod(i, 4);
        lemma_mod_division_less_than_divisor(i, 4);
        let k = i / 4;
        let j = i % 4;
        assert(i == 4 * k + j);
        assert(0 <= k < qs.len());
        assert(vert_at(b1.positions@, k, j) == quad_corner(qs[k], j));
        assert(vert_at(b2.positions@, k, j) == quad_corner(qs[k], j));
        assert(vert_at(b1.normals@, k, j) == normal_vertex(qs[k].dir));
        assert(vert_at(b2.normals@, k, j) == normal_vertex(qs[k].dir));
    }
    assert(b1.positions@ =~= b2.positions@);
    assert(b1.normals@ =~= b2.normals@);
    assert forall|i: int| 0 <= i < b1.uvs@.len() implies b1.uvs@[i] == b2.uvs@[i] by {
    }
    assert(b1.uvs@ =~= b2.uvs@);
    assert forall|i: int| 0 <= i < b1.indices@.len()
        implies b1.indices@[i] == b2.indices@[i] by {
        lemma_fundamental_div_mod(i, 6);
        lemma_mod_division_less_than_divisor(i, 6);
        let k = i / 6;
        let j = i % 6;
        assert(i == 6 * k + j);
        assert(0 <= k < qs.len());
        assert(idx_at(b1.indices@, k, j) == quad_index_val(k, j) as u32);
        assert(idx_at(b2.indices@, k, j) == quad_index_val(k, j) as u32);
    }
    assert(b1.indices@ =~= b2.indices@);
}

} // verus!
