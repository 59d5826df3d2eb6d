//! The greedy mesher: scans the padded lattice for visible faces and merges
//! them, per face direction, into rectangles that cover every visible face
//! exactly once.

use vstd::prelude::*;
use crate::domain::Lattice;
use crate::domain::MAX_EDGE;
use crate::voxel::MeshVoxel;
use crate::voxel::VoxelVisibility;

verus! {

/// Linear index of cell `(u, v)` in an `n` by `n` grid, row-major with `u`
/// varying fastest.
pub open spec fn grid_index(n: int, u: int, v: int) -> int {
    v * n + u
}

/// The flag a flat store holds at cell `(u, v)` of an `n` by `n` grid.
pub open spec fn grid_at(g: Seq<bool>, n: int, u: int, v: int) -> bool {
    g[grid_index(n, u, v)]
}

/// Strict lexicographic order on `(v, u)` pairs, the scan order of the
/// greedy merge.
pub open spec fn lex_lt2(u1: int, v1: int, u2: int, v2: int) -> bool {
    v1 < v2 || (v1 == v2 && u1 < u2)
}

/// Grid indices respect the `(v, u)` lexicographic order.
pub proof fn lemma_grid_lex(n: int, u1: int, v1: int, u2: int, v2: int)
    requires
        0 <= u1 < n,
        0 <= v1 < n,
        0 <= u2 <= n,
        0 <= v2 <= n,
        lex_lt2(u1, v1, u2, v2),
    ensures
        grid_index(n, u1, v1) < grid_index(n, u2, v2),
{
    assert(v1 * n + u1 < v2 * n + u2) by (nonlinear_arith)
        requires
            0 <= u1 < n,
            0 <= v1 < n,
            0 <= u2 <= n,
            0 <= v2 <= n,
            lex_lt2(u1, v1, u2, v2),
    {
    }
}

/// A cell's grid index lies within the grid.
pub proof fn lemma_grid_index_bound(n: int, u: int, v: int)
    requires
        0 <= u < n,
        0 <= v < n,
    ensures
        0 <= grid_index(n, u, v) < n * n,
{
    assert(0 <= v * n + u < n * n) by (nonlinear_arith)
        requires
            0 <= u < n,
            0 <= v < n,
    {
    }
}

/// Two cells with the same grid index are the same cell.
pub proof fn lemma_grid_index_injective(n: int, u1: int, v1: int, u2: int, v2: int)
    requires
        0 <= u1 < n,
        0 <= v1 < n,
        0 <= u2 < n,
        0 <= v2 < n,
        grid_index(n, u1, v1) == grid_index(n, u2, v2),
    ensures
        u1 == u2 && v1 == v2,
{
    if lex_lt2(u1, v1, u2, v2) {
        lemma_grid_lex(n, u1, v1, u2, v2);
    } else if lex_lt2(u2, v2, u1, v1) {
        lemma_grid_lex(n, u2, v2, u1, v1);
    }
}

/// Reads the flag of cell `(u, v)` of an `n` by `n` grid.
fn grid_get(g: &Vec<bool>, n: u32, u: u32, v: u32) -> (b: bool)
    requires
        g.len() == (n as int) * (n as int),
        n <= MAX_EDGE,
        u < n,
        v < n,
    ensures
        b == grid_at(g@, n as int, u as int, v as int),
{
    proof {
        lemma_grid_index_bound(n as int, u as int, v as int);
        assert((v as int) * (n as int) <= 254 * 254) by (nonlinear_arith)
            requires
                v < n <= 254,
        {
        }
    }
    g[(v * n + u) as usize]
}

/// Sets the flag of cell `(u, v)` of an `n` by `n` grid, leaving every other
/// cell as it was.
fn grid_set(g: &mut Vec<bool>, n: u32, u: u32, v: u32)
    requires
        old(g).len() == (n as int) * (n as int),
        n <= MAX_EDGE,
        u < n,
        v < n,
    ensures
        final(g).len() == old(g).len(),
        forall|a: int, b: int|
            0 <= a < n && 0 <= b < n
                ==> #[trigger] grid_at(final(g)@, n as int, a, b) == if a == u && b == v {
                true
            } else {
                grid_at(old(g)@, n as int, a, b)
            },
{
    proof {
        lemma_grid_index_bound(n as int, u as int, v as int);
        assert((v as int) * (n as int) <= 254 * 254) by (nonlinear_arith)
            requires
                v < n <= 254,
        {
        }
    }
    let i = (v * n + u) as usize;
    g.set(i, true);
    proof {
        assert forall|a: int, b: int| 0 <= a < n && 0 <= b < n
            implies #[trigger] grid_at(g@, n as int, a, b) == if a == u && b == v {
            true
        } else {
            grid_at(old(g)@, n as int, a, b)
        } by {
            lemma_grid_index_bound(n as int, a, b);
            if grid_index(n as int, a, b) == grid_index(n as int, u as int, v as int) {
                lemma_grid_index_injective(n as int, a, b, u as int, v as int);
            }
        }
    }
}

/// Allocates an `n` by `n` grid with every flag clear.
fn grid_new(n: u32) -> (g: Vec<bool>)
    requires
        n <= MAX_EDGE,
    ensures
        g.len() == (n as int) * (n as int),
        forall|a: int, b: int|
            0 <= a < n && 0 <= b < n ==> !(#[trigger] grid_at(g@, n as int, a, b)),
{
    proof {
        assert((n as int) * (n as int) <= 254 * 254) by (nonlinear_arith)
            requires
                n <= 254,
        {
        }
    }
    let total = n * n;
    let mut g: Vec<bool> = Vec::new();
    let mut i: u32 = 0;
    while i < total
        invariant
            total == (n as int) * (n as int),
            i <= total,
            g.len() == i as int,
            forall|j: int| 0 <= j < g.len() ==> !(#[trigger] g@[j]),
        decreases total - i,
    {
        g.push(false);
        i = i + 1;
    }
    proof {
        assert forall|a: int, b: int| 0 <= a < n && 0 <= b < n
            implies !(#[trigger] grid_at(g@, n as int, a, b)) by {
            lemma_grid_index_bound(n as int, a, b);
        }
    }
    g
}

/// A merged rectangle within one slice of the lattice: minimum corner
/// `(u, v)` in slice grid coordinates and extents `w` by `h`, all in cells.
#[derive(Clone, Copy, PartialEq, Eq, Structural, Debug)]
pub struct Rect {
    pub u: u32,
    pub v: u32,
    pub w: u32,
    pub h: u32,
}

/// Whether a rectangle has positive extents and lies within an `n` by `n`
/// grid.
pub open spec fn rect_wf(r: Rect, n: int) -> bool {
    &&& 1 <= r.w
    &&& 1 <= r.h
    &&& r.u + r.w <= n
    &&& r.v + r.h <= n
}

/// Whether cell `(u, v)` lies inside rectangle `r`.
pub open spec fn rect_covers(r: Rect, u: int, v: int) -> bool {
    r.u <= u < r.u + r.w && r.v <= v < r.v + r.h
}

/// Whether any rectangle of the sequence covers cell `(u, v)`.
pub open spec fn rects_cover(rs: Seq<Rect>, u: int, v: int) -> bool {
    exists|k: int| 0 <= k < rs.len() && rect_covers(#[trigger] rs[k], u, v)
}

/// Appending a rectangle to a sequence covers exactly the cells the
/// sequence covered plus the cells of the new rectangle.
pub proof fn lemma_rects_cover_push(rs: Seq<Rect>, r: Rect, u: int, v: int)
    ensures
        rects_cover(rs.push(r), u, v) == (rects_cover(rs, u, v) || rect_covers(r, u, v)),
{
    if rects_cover(rs.push(r), u, v) {
        let k = choose|k: int| 0 <= k < rs.push(r).len() && rect_covers(#[trigger] rs.push(r)[k], u, v);
        if k < rs.len() {
            assert(rect_covers(rs[k], u, v));
        } else {
            assert(rect_covers(r, u, v));
        }
    }
    if rects_cover(rs, u, v) {
        let k = choose|k: int| 0 <= k < rs.len() && rect_covers(#[trigger] rs[k], u, v);
        assert(rect_covers(rs.push(r)[k], u, v));
    }
    if rect_covers(r, u, v) {
        assert(rect_covers(rs.push(r)[rs.len() as int], u, v));
    }
}

/// Greedily merges the present cells of one `n` by `n` slice into maximal
/// rectangles: scan row by row, extend a run rightwards while the next cell
/// is present and unconsumed, then extend the run's full width upwards row
/// by row as long as every cell of the candidate row matches; each present
/// cell is consumed by exactly one rectangle.
///
/// A run may only coalesce faces of equal merge classification. For the
/// single-bit voxel every present face is a solid voxel's face, so all
/// present cells share one merge value and the match reduces to presence;
/// the uniformity is stated and proved as part of [`quads_partition`].
///
/// The postconditions state the partition property: the emitted rectangles
/// cover only present cells, cover every present cell, and are pairwise
/// disjoint.
#[verifier::loop_isolation(false)]
pub fn greedy_slice(present: &Vec<bool>, n: u32) -> (rects: Vec<Rect>)
    requires
        1 <= n <= MAX_EDGE,
        present.len() == (n as int) * (n as int),
    ensures
        rects.len() <= (n as int) * (n as int),
        forall|k: int| 0 <= k < rects.len() ==> rect_wf(#[trigger] rects@[k], n as int),
        forall|k: int, u: int, v: int|
            0 <= k < rects.len() && #[trigger] rect_covers(rects@[k], u, v)
                ==> grid_at(present@, n as int, u, v),
        forall|u: int, v: int|
            0 <= u < n && 0 <= v < n && #[trigger] grid_at(present@, n as int, u, v)
                ==> rects_cover(rects@, u, v),
        forall|k1: int, k2: int, u: int, v: int|
            0 <= k1 < rects.len() && 0 <= k2 < rects.len() && k1 != k2
                ==> !(#[trigger] rect_covers(rects@[k1], u, v)
                    && #[trigger] rect_covers(rects@[k2], u, v)),
{
    let ghost gn = n as int;
    let mut rects: Vec<Rect> = Vec::new();
    let mut visited = grid_new(n);
    let mut v0: u32 = 0;
    while v0 < n
        invariant
            v0 <= n,
            visited.len() == gn * gn,
            rects.len() <= (v0 as int) * gn,
            forall|k: int| 0 <= k < rects.len() ==> rect_wf(#[trigger] rects@[k], gn),
            forall|k: int, u: int, v: int|
                0 <= k < rects.len() && #[trigger] rect_covers(rects@[k], u, v)
                    ==> grid_at(present@, gn, u, v),
            forall|u: int, v: int|
                0 <= u < gn && 0 <= v < gn
                    ==> (#[trigger] grid_at(visited@, gn, u, v) == rects_cover(rects@, u, v)),
            forall|u: int, v: int|
                0 <= u < gn && 0 <= v < gn && lex_lt2(u, v, 0, v0 as int)
                    && #[trigger] grid_at(present@, gn, u, v)
                    ==> grid_at(visited@, gn, u, v),
            forall|k1: int, k2: int, u: int, v: int|
                0 <= k1 < rects.len() && 0 <= k2 < rects.len() && k1 != k2
                    ==> !(#[trigger] rect_covers(rects@[k1], u, v)
                        && #[trigger] rect_covers(rects@[k2], u, v)),
        decreases n - v0,
    {
        let mut u0: u32 = 0;
        while u0 < n
            invariant
                u0 <= n,
                v0 < n,
                visited.len() == gn * gn,
                rects.len() <= (v0 as int) * gn + u0 as int,
                forall|k: int| 0 <= k < rects.len() ==> rect_wf(#[trigger] rects@[k], gn),
                forall|k: int, u: int, v: int|
                    0 <= k < rects.len() && #[trigger] rect_covers(rects@[k], u, v)
                        ==> grid_at(present@, gn, u, v),
                forall|u: int, v: int|
                    0 <= u < gn && 0 <= v < gn
                        ==> (#[trigger] grid_at(visited@, gn, u, v) == rects_cover(rects@, u, v)),
                forall|u: int, v: int|
                    0 <= u < gn && 0 <= v < gn && lex_lt2(u, v, u0 as int, v0 as int)
                        && #[trigger] grid_at(present@, gn, u, v)
                        ==> grid_at(visited@, gn, u, v),
                forall|k1: int, k2: int, u: int, v: int|
                    0 <= k1 < rects.len() && 0 <= k2 < rects.len() && k1 != k2
                        ==> !(#[trigger] rect_covers(rects@[k1], u, v)
                            && #[trigger] rect_covers(rects@[k2], u, v)),
            decreases n - u0,
        {
            if grid_get(present, n, u0, v0) && !grid_get(&visited, n, u0, v0) {
                // Extend the run rightwards while the next cell is present
                // and not yet consumed.
                let mut w: u32 = 1;
                while u0 + w < n && grid_get(present, n, u0 + w, v0)
                    && !grid_get(&visited, n, u0 + w, v0)
                    invariant
                        1 <= w,
                        u0 + w <= n,
                        forall|uu: int, vv: int|
                            u0 <= uu < u0 + w && vv == v0
                                ==> #[trigger] grid_at(present@, gn, uu, vv)
                                    && !grid_at(visited@, gn, uu, vv),
                    decreases n - (u0 + w),
                {
                    w = w + 1;
                }
                // Extend the run's full width upwards row by row while every
                // cell of the candidate row is present and not yet consumed.
                let mut h: u32 = 1;
                let mut growing = true;
                while growing && v0 + h < n
                    invariant
                        1 <= h,
                        v0 + h <= n,
                        forall|uu: int, vv: int|
                            u0 <= uu < u0 + w && v0 <= vv < v0 + h
                                ==> #[trigger] grid_at(present@, gn, uu, vv)
                                    && !grid_at(visited@, gn, uu, vv),
                    decreases n - (v0 + h) + (if growing { 1int } else { 0int }),
                {
                    let mut du: u32 = 0;
                    let mut rowok = true;
                    while du < w
                        invariant
                            du <= w,
                            v0 + h < n,
                            rowok ==> forall|uu: int, vv: int|
                                u0 <= uu < u0 + du && vv == v0 + h
                                    ==> #[trigger] grid_at(present@, gn, uu, vv)
                                        && !grid_at(visited@, gn, uu, vv),
                        decreases w - du,
                    {
                        if !grid_get(present, n, u0 + du, v0 + h)
                            || grid_get(&visited, n, u0 + du, v0 + h) {
                            rowok = false;
                        }
                        du = du + 1;
                    }
                    if rowok {
                        h = h + 1;
                    } else {
                        growing = false;
                    }
                }
                // Consume the merged rectangle's cells.
                let ghost vis0 = visited@;
                let r = Rect { u: u0, v: v0, w, h };
                let mut vv: u32 = v0;
                while vv < v0 + h
                    invariant
                        v0 <= vv <= v0 + h,
                        visited.len() == gn * gn,
                        forall|a: int, b: int|
                            0 <= a < gn && 0 <= b < gn
                                ==> #[trigger] grid_at(visited@, gn, a, b) == (grid_at(
                                vis0,
                                gn,
                                a,
                                b,
                            ) || (u0 <= a < u0 + w && v0 <= b < vv)),
                    decreases v0 + h - vv,
                {
                    let mut uu: u32 = u0;
                    while uu < u0 + w
                        invariant
                            u0 <= uu <= u0 + w,
                            vv < v0 + h,
                            visited.len() == gn * gn,
                            forall|a: int, b: int|
                                0 <= a < gn && 0 <= b < gn
                                    ==> #[trigger] grid_at(visited@, gn, a, b) == (grid_at(
                                    vis0,
                                    gn,
                                    a,
                                    b,
                                ) || (u0 <= a < u0 + w && v0 <= b < vv) || (b == vv && u0 <= a
                                    < uu)),
                        decreases u0 + w - uu,
                    {
                        grid_set(&mut visited, n, uu, vv);
                        uu = uu + 1;
                    }
                    vv = vv + 1;
                }
                let ghost old_rects = rects@;
                rects.push(r);
                proof {
                    assert(rects@ == old_rects.push(r));
                    // The new rectangle's cells were all unconsumed, hence
                    // not covered by any earlier rectangle.
                    assert forall|u: int, v: int| rect_covers(r, u, v)
                        implies !rects_cover(old_rects, u, v) && grid_at(present@, gn, u, v) by {
                        assert(grid_at(present@, gn, u, v) && !grid_at(vis0, gn, u, v));
                    }
                    // Consumed flags now mirror coverage by the new sequence.
                    assert forall|u: int, v: int| 0 <= u < gn && 0 <= v < gn
                        implies #[trigger] grid_at(visited@, gn, u, v) == rects_cover(
                        rects@,
                        u,
                        v,
                    ) by {
                        lemma_rects_cover_push(old_rects, r, u, v);
                    }
                    // Soundness of the new sequence.
                    assert forall|k: int, u: int, v: int|
                        0 <= k < rects@.len() && #[trigger] rect_covers(rects@[k], u, v)
                        implies grid_at(present@, gn, u, v) by {
                        if k < old_rects.len() {
                            assert(rect_covers(old_rects[k], u, v));
                        } else {
                            assert(rect_covers(r, u, v));
                        }
                    }
                    // Well-formedness of the new sequence.
                    assert forall|k: int| 0 <= k < rects@.len()
                        implies rect_wf(#[trigger] rects@[k], gn) by {
                        if k < old_rects.len() {
                            assert(rect_wf(old_rects[k], gn));
                        }
                    }
                    // Pairwise disjointness of the new sequence.
                    assert forall|k1: int, k2: int, u: int, v: int|
                        0 <= k1 < rects@.len() && 0 <= k2 < rects@.len() && k1 != k2
                        implies !(#[trigger] rect_covers(rects@[k1], u, v)
                            && #[trigger] rect_covers(rects@[k2], u, v)) by {
                        if rect_covers(rects@[k1], u, v) && rect_covers(rects@[k2], u, v) {
                            if k1 < old_rects.len() && k2 < old_rects.len() {
                                assert(rect_covers(old_rects[k1], u, v));
                                assert(rect_covers(old_rects[k2], u, v));
                            } else if k1 < old_rects.len() {
                                assert(rects@[k2] == r);
                                assert(rect_covers(old_rects[k1], u, v));
                                assert(rects_cover(old_rects, u, v));
                            } else {
                                assert(rects@[k1] == r);
                                assert(k2 < old_rects.len());
                                assert(rect_covers(old_rects[k2], u, v));
                                assert(rects_cover(old_rects, u, v));
                            }
                        }
                    }
                    // The scan has consumed every present cell before the
                    // next scan position.
                    assert forall|u: int, v: int|
                        0 <= u < gn && 0 <= v < gn && lex_lt2(u, v, u0 as int + 1, v0 as int)
                            && #[trigger] grid_at(present@, gn, u, v)
                        implies grid_at(visited@, gn, u, v) by {
                        if !lex_lt2(u, v, u0 as int, v0 as int) {
                            assert(u == u0 as int && v == v0 as int);
                            assert(rect_covers(r, u, v));
                        }
                    }
                    // At most one rectangle per scan position.
                    assert(rects@.len() <= (v0 as int) * gn + u0 as int + 1);
                }
            }
            u0 = u0 + 1;
        }
        proof {
            assert((v0 as int) * gn + gn == (v0 as int + 1) * gn) by (nonlinear_arith);
        }
        v0 = v0 + 1;
    }
    proof {
        assert(rects@.len() <= gn * gn);
        assert forall|u: int, v: int|
            0 <= u < gn && 0 <= v < gn && #[trigger] grid_at(present@, gn, u, v)
            implies rects_cover(rects@, u, v) by {
            assert(lex_lt2(u, v, 0, gn));
            assert(grid_at(visited@, gn, u, v));
        }
    }
    rects
}

/// One of the six axis-aligned face directions.
#[derive(Clone, Copy, PartialEq, Eq, Structural, Debug)]
pub enum FaceDir {
    XNeg,
    XPos,
    YNeg,
    YPos,
    ZNeg,
    ZPos,
}

/// The `x` component of a face direction's outward unit normal.
pub open spec fn normal_dx(d: FaceDir) -> int {
    match d {
        FaceDir::XNeg => -1,
        FaceDir::XPos => 1,
        _ => 0,
    }
}

/// The `y` component of a face direction's outward unit normal.
pub open spec fn normal_dy(d: FaceDir) -> int {
    match d {
        FaceDir::YNeg => -1,
        FaceDir::YPos => 1,
        _ => 0,
    }
}

/// The `z` component of a face direction's outward unit normal.
pub open spec fn normal_dz(d: FaceDir) -> int {
    match d {
        FaceDir::ZNeg => -1,
        FaceDir::ZPos => 1,
        _ => 0,
    }
}

/// A fixed rank for each face direction: the order in which the mesher
/// emits direction groups.
pub open spec fn dir_rank(d: FaceDir) -> int {
    match d {
        FaceDir::XNeg => 0,
        FaceDir::XPos => 1,
        FaceDir::YNeg => 2,
        FaceDir::YPos => 3,
        FaceDir::ZNeg => 4,
        FaceDir::ZPos => 5,
    }
}

/// The visibility test: an interior cell of the lattice shows a face in
/// direction `d` exactly when its voxel is opaque and its neighbour in that
/// direction is empty. Thanks to the padding layer the neighbour always
/// exists, so faces at the chunk boundary are culled against sampled
/// boundary voxels, never special-cased.
pub open spec fn face_present(lat: Lattice, d: FaceDir, x: int, y: int, z: int) -> bool {
    &&& 1 <= x <= lat.n
    &&& 1 <= y <= lat.n
    &&& 1 <= z <= lat.n
    &&& lat.at(x, y, z).spec_visibility() == VoxelVisibility::Opaque
    &&& lat.at(x + normal_dx(d), y + normal_dy(d), z + normal_dz(d)).spec_visibility()
        == VoxelVisibility::Empty
}

/// The coordinate of a cell along a direction's normal axis.
pub open spec fn normal_coord(d: FaceDir, x: int, y: int, z: int) -> int {
    match d {
        FaceDir::XNeg | FaceDir::XPos => x,
        FaceDir::YNeg | FaceDir::YPos => y,
        FaceDir::ZNeg | FaceDir::ZPos => z,
    }
}

/// The coordinate of a cell along a direction's first tangent axis.
pub open spec fn tangent_u(d: FaceDir, x: int, y: int, z: int) -> int {
    match d {
        FaceDir::XNeg | FaceDir::XPos => y,
        FaceDir::YNeg | FaceDir::YPos => x,
        FaceDir::ZNeg | FaceDir::ZPos => x,
    }
}

/// The coordinate of a cell along a direction's second tangent axis.
pub open spec fn tangent_v(d: FaceDir, x: int, y: int, z: int) -> int {
    match d {
        FaceDir::XNeg | FaceDir::XPos => z,
        FaceDir::YNeg | FaceDir::YPos => z,
        FaceDir::ZNeg | FaceDir::ZPos => y,
    }
}

/// An axis-aligned rectangle of merged faces: a face direction, a minimum
/// corner cell, and extents `w` and `h` along the direction's two tangent
/// axes (in cells).
#[derive(Clone, Copy, PartialEq, Eq, Structural, Debug)]
pub struct Quad {
    pub dir: FaceDir,
    pub x: u32,
    pub y: u32,
    pub z: u32,
    pub w: u32,
    pub h: u32,
}

/// Whether a quad has positive extents and lies within the interior of a
/// lattice of logical edge length `n`.
pub open spec fn quad_wf(q: Quad, n: int) -> bool {
    &&& 1 <= q.w
    &&& 1 <= q.h
    &&& 1 <= q.x
    &&& 1 <= q.y
    &&& 1 <= q.z
    &&& normal_coord(q.dir, q.x as int, q.y as int, q.z as int) <= n
    &&& tangent_u(q.dir, q.x as int, q.y as int, q.z as int) + q.w <= n + 1
    &&& tangent_v(q.dir, q.x as int, q.y as int, q.z as int) + q.h <= n + 1
}

/// Whether the face of cell `(x, y, z)` in the quad's direction belongs to
/// the quad.
pub open spec fn quad_covers(q: Quad, x: int, y: int, z: int) -> bool {
    &&& normal_coord(q.dir, x, y, z) == normal_coord(q.dir, q.x as int, q.y as int, q.z as int)
    &&& tangent_u(q.dir, q.x as int, q.y as int, q.z as int) <= tangent_u(q.dir, x, y, z)
        < tangent_u(q.dir, q.x as int, q.y as int, q.z as int) + q.w
    &&& tangent_v(q.dir, q.x as int, q.y as int, q.z as int) <= tangent_v(q.dir, x, y, z)
        < tangent_v(q.dir, q.x as int, q.y as int, q.z as int) + q.h
}

/// Whether some quad of the sequence with direction `d` covers the face of
/// cell `(x, y, z)`.
pub open spec fn quads_cover_face(qs: Seq<Quad>, d: FaceDir, x: int, y: int, z: int) -> bool {
    exists|k: int|
        0 <= k < qs.len() && #[trigger] qs[k].dir == d && quad_covers(qs[k], x, y, z)
}

/// The partition property of a quad set for a lattice: every quad lies in
/// the interior and covers only visible faces of its direction, every
/// visible face is covered, no face is covered twice, and no quad spans
/// voxels of different merge classifications.
pub open spec fn quads_partition(lat: Lattice, qs: Seq<Quad>) -> bool {
    &&& forall|k: int| 0 <= k < qs.len() ==> quad_wf(#[trigger] qs[k], lat.n as int)
    &&& forall|k: int, x: int, y: int, z: int|
        0 <= k < qs.len() && #[trigger] quad_covers(qs[k], x, y, z)
            ==> face_present(lat, qs[k].dir, x, y, z)
    &&& forall|d: FaceDir, x: int, y: int, z: int|
        #[trigger] face_present(lat, d, x, y, z) ==> quads_cover_face(qs, d, x, y, z)
    &&& forall|k1: int, k2: int, x: int, y: int, z: int|
        0 <= k1 < qs.len() && 0 <= k2 < qs.len() && k1 != k2 && qs[k1].dir == qs[k2].dir
            ==> !(#[trigger] quad_covers(qs[k1], x, y, z)
                && #[trigger] quad_covers(qs[k2], x, y, z))
    &&& forall|k: int, x: int, y: int, z: int|
        0 <= k < qs.len() && #[trigger] quad_covers(qs[k], x, y, z)
            ==> lat.at(x, y, z).spec_merge_value() == lat.at(
            qs[k].x as int,
            qs[k].y as int,
            qs[k].z as int,
        ).spec_merge_value()
}

/// Tests the face visibility of an interior cell.
fn face_present_exec(lat: &Lattice, d: FaceDir, x: u32, y: u32, z: u32) -> (b: bool)
    requires
        lat.wf(),
        1 <= x <= lat.n,
        1 <= y <= lat.n,
        1 <= z <= lat.n,
    ensures
        b == face_present(*lat, d, x as int, y as int, z as int),
{
    let own = lat.get(x, y, z);
    if own.get_visibility() != VoxelVisibility::Opaque {
        return false;
    }
    let neighbour = match d {
        FaceDir::XNeg => lat.get(x - 1, y, z),
        FaceDir::XPos => lat.get(x + 1, y, z),
        FaceDir::YNeg => lat.get(x, y - 1, z),
        FaceDir::YPos => lat.get(x, y + 1, z),
        FaceDir::ZNeg => lat.get(x, y, z - 1),
        FaceDir::ZPos => lat.get(x, y, z + 1),
    };
    neighbour.get_visibility() == VoxelVisibility::Empty
}

/// The cell of the lattice that grid cell `(u, v)` of the slice at layer
/// `a` stands for, per coordinate: the layer along the normal axis and the
/// grid coordinates, shifted past the padding, along the tangent axes.
pub open spec fn slice_cell_x(d: FaceDir, a: int, u: int, v: int) -> int {
    match d {
        FaceDir::XNeg | FaceDir::XPos => a,
        FaceDir::YNeg | FaceDir::YPos => u + 1,
        FaceDir::ZNeg | FaceDir::ZPos => u + 1,
    }
}

/// See [`slice_cell_x`].
pub open spec fn slice_cell_y(d: FaceDir, a: int, u: int, v: int) -> int {
    match d {
        FaceDir::XNeg | FaceDir::XPos => u + 1,
        FaceDir::YNeg | FaceDir::YPos => a,
        FaceDir::ZNeg | FaceDir::ZPos => v + 1,
    }
}

/// See [`slice_cell_x`].
pub open spec fn slice_cell_z(d: FaceDir, a: int, u: int, v: int) -> int {
    match d {
        FaceDir::XNeg | FaceDir::XPos => v + 1,
        FaceDir::YNeg | FaceDir::YPos => v + 1,
        FaceDir::ZNeg | FaceDir::ZPos => a,
    }
}

/// Extracts the face-visibility grid of one slice: layer `a` along the
/// normal axis of `d`, an `n` by `n` grid over the two tangent axes.
#[verifier::loop_isolation(false)]
fn build_slice(lat: &Lattice, d: FaceDir, a: u32) -> (g: Vec<bool>)
    requires
        lat.wf(),
        1 <= a <= lat.n,
    ensures
        g.len() == (lat.n as int) * (lat.n as int),
        forall|u: int, v: int|
            0 <= u < lat.n && 0 <= v < lat.n
                ==> #[trigger] grid_at(g@, lat.n as int, u, v) == face_present(
                *lat,
                d,
                slice_cell_x(d, a as int, u, v),
                slice_cell_y(d, a as int, u, v),
                slice_cell_z(d, a as int, u, v),
            ),
{
    let n = lat.n;
    let ghost gn = n as int;
    let mut g: Vec<bool> = Vec::new();
    let mut v: u32 = 0;
    while v < n
        invariant
            v <= n,
            g.len() == (v as int) * gn,
            forall|uu: int, vv: int|
                0 <= uu < gn && 0 <= vv < v
                    ==> #[trigger] grid_at(g@, gn, uu, vv) == face_present(
                    *lat,
                    d,
                    slice_cell_x(d, a as int, uu, vv),
                    slice_cell_y(d, a as int, uu, vv),
                    slice_cell_z(d, a as int, uu, vv),
                ),
        decreases n - v,
    {
        let mut u: u32 = 0;
        while u < n
            invariant
                v < n,
                u <= n,
                g.len() == (v as int) * gn + u as int,
                forall|uu: int, vv: int|
                    0 <= uu < gn && 0 <= vv < gn && lex_lt2(uu, vv, u as int, v as int)
                        ==> #[trigger] grid_at(g@, gn, uu, vv) == face_present(
                        *lat,
                        d,
                        slice_cell_x(d, a as int, uu, vv),
                        slice_cell_y(d, a as int, uu, vv),
                        slice_cell_z(d, a as int, uu, vv),
                    ),
            decreases n - u,
        {
            let (cx, cy, cz) = match d {
                FaceDir::XNeg | FaceDir::XPos => (a, u + 1, v + 1),
                FaceDir::YNeg | FaceDir::YPos => (u + 1, a, v + 1),
                FaceDir::ZNeg | FaceDir::ZPos => (u + 1, v + 1, a),
            };
            let b = face_present_exec(lat, d, cx, cy, cz);
            let ghost pre = g@;
            g.push(b);
            proof {
                assert forall|uu: int, vv: int|
                    0 <= uu < gn && 0 <= vv < gn && lex_lt2(uu, vv, u as int + 1, v as int)
                    implies #[trigger] grid_at(g@, gn, uu, vv) == face_present(
                    *lat,
                    d,
                    slice_cell_x(d, a as int, uu, vv),
                    slice_cell_y(d, a as int, uu, vv),
                    slice_cell_z(d, a as int, uu, vv),
                ) by {
                    if lex_lt2(uu, vv, u as int, v as int) {
                        lemma_grid_lex(gn, uu, vv, u as int, v as int);
                        lemma_grid_index_bound(gn, uu, vv);
                        assert(grid_at(pre, gn, uu, vv) == grid_at(g@, gn, uu, vv));
                    } else {
                        assert(uu == u as int && vv == v as int);
                        assert(grid_index(gn, uu, vv) == pre.len());
                    }
                }
            }
            u = u + 1;
        }
        proof {
            assert((v as int) * gn + gn == (v as int + 1) * gn) by (nonlinear_arith);
        }
        v = v + 1;
    }
    g
}

/// The quad that a merged rectangle of the slice at layer `a` stands for.
pub open spec fn quad_of_rect(d: FaceDir, a: u32, r: Rect) -> Quad {
    match d {
        FaceDir::XNeg | FaceDir::XPos => Quad {
            dir: d,
            x: a,
            y: (r.u + 1) as u32,
            z: (r.v + 1) as u32,
            w: r.w,
            h: r.h,
        },
        FaceDir::YNeg | FaceDir::YPos => Quad {
            dir: d,
            x: (r.u + 1) as u32,
            y: a,
            z: (r.v + 1) as u32,
            w: r.w,
            h: r.h,
        },
        FaceDir::ZNeg | FaceDir::ZPos => Quad {
            dir: d,
            x: (r.u + 1) as u32,
            y: (r.v + 1) as u32,
            z: a,
            w: r.w,
            h: r.h,
        },
    }
}

/// Produces the merged quads of one face direction: every visible face of
/// that direction is covered by exactly one emitted quad, and every emitted
/// quad covers only visible faces.
#[verifier::loop_isolation(false)]
#[verifier::rlimit(100)]
fn mesh_direction(lat: &Lattice, d: FaceDir) -> (quads: Vec<Quad>)
    requires
        lat.wf(),
    ensures
        quads.len() <= (lat.n as int) * (lat.n as int) * (lat.n as int),
        forall|k: int|
            0 <= k < quads.len() ==> quad_wf(#[trigger] quads@[k], lat.n as int)
                && quads@[k].dir == d,
        forall|k: int, x: int, y: int, z: int|
            0 <= k < quads.len() && #[trigger] quad_covers(quads@[k], x, y, z)
                ==> face_present(*lat, d, x, y, z),
        forall|x: int, y: int, z: int|
            #[trigger] face_present(*lat, d, x, y, z) ==> quads_cover_face(quads@, d, x, y, z),
        forall|k1: int, k2: int, x: int, y: int, z: int|
            0 <= k1 < quads.len() && 0 <= k2 < quads.len() && k1 != k2
                ==> !(#[trigger] quad_covers(quads@[k1], x, y, z)
                    && #[trigger] quad_covers(quads@[k2], x, y, z)),
{
    let n = lat.n;
    let ghost gn = n as int;
    let mut quads: Vec<Quad> = Vec::new();
    let mut a: u32 = 1;
    while a <= n
        invariant
            1 <= a <= n + 1,
            quads.len() <= (a as int - 1) * gn * gn,
            forall|k: int| 0 <= k < quads.len() ==> quad_wf(#[trigger] quads@[k], gn),
            forall|k: int| 0 <= k < quads.len() ==> (#[trigger] quads@[k]).dir == d,
            forall|k: int|
                0 <= k < quads.len() ==> normal_coord(
                    d,
                    (#[trigger] quads@[k]).x as int,
                    quads@[k].y as int,
                    quads@[k].z as int,
                ) < a,
            forall|k: int, x: int, y: int, z: int|
                0 <= k < quads.len() && #[trigger] quad_covers(quads@[k], x, y, z)
                    ==> face_present(*lat, d, x, y, z),
            forall|x: int, y: int, z: int|
                #[trigger] face_present(*lat, d, x, y, z) && normal_coord(d, x, y, z) < a
                    ==> quads_cover_face(quads@, d, x, y, z),
            forall|k1: int, k2: int, x: int, y: int, z: int|
                0 <= k1 < quads.len() && 0 <= k2 < quads.len() && k1 != k2
                    ==> !(#[trigger] quad_covers(quads@[k1], x, y, z)
                        && #[trigger] quad_covers(quads@[k2], x, y, z)),
        decreases n + 1 - a,
    {
        let slice = build_slice(lat, d, a);
        let rects = greedy_slice(&slice, n);
        let ghost base = quads@;
        let mut j: usize = 0;
        while j < rects.len()
            invariant
                0 <= j <= rects.len(),
                quads.len() == base.len() + j,
                forall|k: int| 0 <= k < base.len() ==> quads@[k] == base[k],
                forall|k: int|
                    base.len() <= k < quads.len()
                        ==> quads@[k] == quad_of_rect(d, a, rects@[k - base.len()]),
            decreases rects.len() - j,
        {
            let r = rects[j];
            quads.push(quad_of_rect_exec(d, a, r, n));
            j = j + 1;
        }
        proof {
            let ghost na = quads@;
            // The quads of earlier layers are unchanged.
            assert forall|k: int| 0 <= k < base.len() implies quad_wf(#[trigger] na[k], gn)
                && na[k].dir == d && normal_coord(d, na[k].x as int, na[k].y as int, na[k].z as int)
                < a as int by {
                assert(na[k] == base[k]);
                assert(quad_wf(base[k], gn));
            }
            // Geometry of the appended quads: each stands for its rectangle.
            assert forall|k: int| base.len() <= k < na.len() implies quad_wf(
                #[trigger] na[k],
                gn,
            ) && na[k].dir == d && normal_coord(d, na[k].x as int, na[k].y as int, na[k].z as int)
                == a as int by {
                let r = rects@[k - base.len()];
                assert(rect_wf(r, gn));
            }
            // Coverage of an appended quad translates to coverage of its
            // rectangle in the slice grid.
            assert forall|k: int, x: int, y: int, z: int|
                base.len() <= k < na.len() && #[trigger] quad_covers(na[k], x, y, z)
                implies face_present(*lat, d, x, y, z) by {
                let r = rects@[k - base.len()];
                assert(rect_wf(r, gn));
                let u = tangent_u(d, x, y, z) - 1;
                let v = tangent_v(d, x, y, z) - 1;
                assert(rect_covers(r, u, v));
                assert(grid_at(slice@, gn, u, v));
                assert(slice_cell_x(d, a as int, u, v) == x
                    && slice_cell_y(d, a as int, u, v) == y
                    && slice_cell_z(d, a as int, u, v) == z);
            }
            // Soundness of the whole accumulated sequence.
            assert forall|k: int, x: int, y: int, z: int|
                0 <= k < na.len() && #[trigger] quad_covers(na[k], x, y, z)
                implies face_present(*lat, d, x, y, z) by {
                if k < base.len() {
                    assert(quad_covers(base[k], x, y, z));
                }
            }
            // Completeness for layers up to and including `a`.
            assert forall|x: int, y: int, z: int|
                #[trigger] face_present(*lat, d, x, y, z) && normal_coord(d, x, y, z) < a + 1
                implies quads_cover_face(na, d, x, y, z) by {
                if normal_coord(d, x, y, z) < a {
                    assert(quads_cover_face(base, d, x, y, z));
                    let k = choose|k: int|
                        0 <= k < base.len() && #[trigger] base[k].dir == d && quad_covers(
                            base[k],
                            x,
                            y,
                            z,
                        );
                    assert(na[k].dir == d && quad_covers(na[k], x, y, z));
                } else {
                    let u = tangent_u(d, x, y, z) - 1;
                    let v = tangent_v(d, x, y, z) - 1;
                    assert(slice_cell_x(d, a as int, u, v) == x
                        && slice_cell_y(d, a as int, u, v) == y
                        && slice_cell_z(d, a as int, u, v) == z);
                    assert(grid_at(slice@, gn, u, v));
                    assert(rects_cover(rects@, u, v));
                    let k = choose|k: int|
                        0 <= k < rects@.len() && rect_covers(#[trigger] rects@[k], u, v);
                    assert(rect_wf(rects@[k], gn));
                    let q = na[base.len() + k];
                    assert(q == quad_of_rect(d, a, rects@[k]));
                    assert(q.dir == d && quad_covers(q, x, y, z));
                    assert(quads_cover_face(na, d, x, y, z));
                }
            }
            // Disjointness of the whole accumulated sequence.
            assert forall|k1: int, k2: int, x: int, y: int, z: int|
                0 <= k1 < na.len() && 0 <= k2 < na.len() && k1 != k2
                implies !(#[trigger] quad_covers(na[k1], x, y, z)
                    && #[trigger] quad_covers(na[k2], x, y, z)) by {
                if quad_covers(na[k1], x, y, z) && quad_covers(na[k2], x, y, z) {
                    if k1 < base.len() && k2 < base.len() {
                        assert(quad_covers(base[k1], x, y, z));
                        assert(quad_covers(base[k2], x, y, z));
                    } else if k1 < base.len() {
                        // An old quad lies in an earlier layer.
                        let r2 = rects@[k2 - base.len()];
                        assert(rect_wf(r2, gn));
                        assert(normal_coord(d, x, y, z) == a as int);
                        assert(quad_covers(base[k1], x, y, z));
                    } else if k2 < base.len() {
                        let r1 = rects@[k1 - base.len()];
                        assert(rect_wf(r1, gn));
                        assert(normal_coord(d, x, y, z) == a as int);
                        assert(quad_covers(base[k2], x, y, z));
                    } else {
                        // Two quads of this layer: their rectangles overlap.
                        let r1 = rects@[k1 - base.len()];
                        let r2 = rects@[k2 - base.len()];
                        assert(rect_wf(r1, gn) && rect_wf(r2, gn));
                        let u = tangent_u(d, x, y, z) - 1;
                        let v = tangent_v(d, x, y, z) - 1;
                        assert(rect_covers(r1, u, v) && rect_covers(r2, u, v));
                    }
                }
            }
            // At most one quad per slice cell.
            assert(na.len() <= (a as int - 1) * gn * gn + gn * gn);
            assert((a as int - 1) * gn * gn + gn * gn == (a as int) * gn * gn)
                by (nonlinear_arith);
        }
        a = a + 1;
    }
    quads
}

/// Appends the quads of one face direction to the accumulated list, keeping
/// the invariants of the direction groups emitted so far: earlier groups are
/// untouched, the new group's faces are all covered, and no face is covered
/// twice.
#[verifier::loop_isolation(false)]
#[verifier::rlimit(60)]
fn push_direction(lat: &Lattice, quads: &mut Vec<Quad>, d: FaceDir)
    requires
        lat.wf(),
        forall|k: int|
            0 <= k < old(quads).len() ==> quad_wf(#[trigger] old(quads)@[k], lat.n as int),
        forall|k: int|
            0 <= k < old(quads).len() ==> dir_rank((#[trigger] old(quads)@[k]).dir) < dir_rank(d),
        forall|k: int, x: int, y: int, z: int|
            0 <= k < old(quads).len() && #[trigger] quad_covers(old(quads)@[k], x, y, z)
                ==> face_present(*lat, old(quads)@[k].dir, x, y, z),
        forall|k1: int, k2: int, x: int, y: int, z: int|
            0 <= k1 < old(quads).len() && 0 <= k2 < old(quads).len() && k1 != k2
                && old(quads)@[k1].dir == old(quads)@[k2].dir
                ==> !(#[trigger] quad_covers(old(quads)@[k1], x, y, z)
                    && #[trigger] quad_covers(old(quads)@[k2], x, y, z)),
    ensures
        final(quads).len() <= old(quads).len() + (lat.n as int) * (lat.n as int) * (
        lat.n as int),
        forall|k: int|
            0 <= k < final(quads).len() ==> quad_wf(#[trigger] final(quads)@[k], lat.n as int),
        forall|k: int|
            0 <= k < final(quads).len() ==> dir_rank((#[trigger] final(quads)@[k]).dir)
                <= dir_rank(d),
        forall|k: int, x: int, y: int, z: int|
            0 <= k < final(quads).len() && #[trigger] quad_covers(final(quads)@[k], x, y, z)
                ==> face_present(*lat, final(quads)@[k].dir, x, y, z),
        forall|k1: int, k2: int, x: int, y: int, z: int|
            0 <= k1 < final(quads).len() && 0 <= k2 < final(quads).len() && k1 != k2
                && final(quads)@[k1].dir == final(quads)@[k2].dir
                ==> !(#[trigger] quad_covers(final(quads)@[k1], x, y, z)
                    && #[trigger] quad_covers(final(quads)@[k2], x, y, z)),
        forall|d2: FaceDir, x: int, y: int, z: int|
            #[trigger] quads_cover_face(old(quads)@, d2, x, y, z) ==> quads_cover_face(
                final(quads)@,
                d2,
                x,
                y,
                z,
            ),
        forall|x: int, y: int, z: int|
            #[trigger] face_present(*lat, d, x, y, z) ==> quads_cover_face(
                final(quads)@,
                d,
                x,
                y,
                z,
            ),
{
    let mut more = mesh_direction(lat, d);
    let ghost mseq = more@;
    let ghost pre = quads@;
    quads.append(&mut more);
    proof {
        assert(quads@ == pre + mseq);
        assert forall|k: int| 0 <= k < quads@.len() implies quad_wf(
            #[trigger] quads@[k],
            lat.n as int,
        ) && dir_rank(quads@[k].dir) <= dir_rank(d) by {
            if k < pre.len() {
                assert(quads@[k] == pre[k]);
                assert(quad_wf(pre[k], lat.n as int));
            } else {
                assert(quads@[k] == mseq[k - pre.len()]);
                assert(quad_wf(mseq[k - pre.len()], lat.n as int));
            }
        }
        assert forall|k: int, x: int, y: int, z: int|
            0 <= k < quads@.len() && #[trigger] quad_covers(quads@[k], x, y, z)
            implies face_present(*lat, quads@[k].dir, x, y, z) by {
            if k < pre.len() {
                assert(quads@[k] == pre[k]);
                assert(quad_covers(pre[k], x, y, z));
            } else {
                assert(quads@[k] == mseq[k - pre.len()]);
                assert(quad_covers(mseq[k - pre.len()], x, y, z));
            }
        }
        assert forall|k1: int, k2: int, x: int, y: int, z: int|
            0 <= k1 < quads@.len() && 0 <= k2 < quads@.len() && k1 != k2 && quads@[k1].dir
                == quads@[k2].dir
            implies !(#[trigger] quad_covers(quads@[k1], x, y, z)
                && #[trigger] quad_covers(quads@[k2], x, y, z)) by {
            if quad_covers(quads@[k1], x, y, z) && quad_covers(quads@[k2], x, y, z) {
                if k1 < pre.len() && k2 < pre.len() {
                    assert(quads@[k1] == pre[k1] && quads@[k2] == pre[k2]);
                    assert(quad_covers(pre[k1], x, y, z) && quad_covers(pre[k2], x, y, z));
                } else if k1 >= pre.len() && k2 >= pre.len() {
                    assert(quads@[k1] == mseq[k1 - pre.len()]);
                    assert(quads@[k2] == mseq[k2 - pre.len()]);
                    assert(quad_covers(mseq[k1 - pre.len()], x, y, z));
                    assert(quad_covers(mseq[k2 - pre.len()], x, y, z));
                } else if k1 < pre.len() {
                    // Directions differ: the old group ranks strictly lower.
                    assert(quads@[k1] == pre[k1]);
                    assert(quads@[k2] == mseq[k2 - pre.len()]);
                    assert(dir_rank(pre[k1].dir) < dir_rank(d));
                    assert(mseq[k2 - pre.len()].dir == d);
                } else {
                    assert(quads@[k2] == pre[k2]);
                    assert(quads@[k1] == mseq[k1 - pre.len()]);
                    assert(dir_rank(pre[k2].dir) < dir_rank(d));
                    assert(mseq[k1 - pre.len()].dir == d);
                }
            }
        }
        assert forall|d2: FaceDir, x: int, y: int, z: int|
            #[trigger] quads_cover_face(pre, d2, x, y, z) implies quads_cover_face(
            quads@,
            d2,
            x,
            y,
            z,
        ) by {
            let k = choose|k: int|
                0 <= k < pre.len() && #[trigger] pre[k].dir == d2 && quad_covers(pre[k], x, y, z);
            assert(quads@[k] == pre[k]);
            assert(quads@[k].dir == d2 && quad_covers(quads@[k], x, y, z));
        }
        assert forall|x: int, y: int, z: int| #[trigger] face_present(*lat, d, x, y, z)
            implies quads_cover_face(quads@, d, x, y, z) by {
            assert(quads_cover_face(mseq, d, x, y, z));
            let k = choose|k: int|
                0 <= k < mseq.len() && #[trigger] mseq[k].dir == d && quad_covers(mseq[k], x, y, z);
            assert(quads@[pre.len() + k] == mseq[k]);
            assert(quads@[pre.len() + k].dir == d && quad_covers(quads@[pre.len() + k], x, y, z));
        }
    }
}

/// Runs the greedy merge for all six face directions over the padded
/// lattice. The result satisfies the partition property: the quads cover,
/// per direction, exactly the visible faces of the lattice, each exactly
/// once.
#[verifier::rlimit(60)]
pub fn greedy_mesh(lat: &Lattice) -> (quads: Vec<Quad>)
    requires
        lat.wf(),
    ensures
        quads_partition(*lat, quads@),
        quads.len() <= 6 * (lat.n as int) * (lat.n as int) * (lat.n as int),
{
    let mut quads: Vec<Quad> = Vec::new();
    push_direction(lat, &mut quads, FaceDir::XNeg);
    let ghost s1 = quads@;
    push_direction(lat, &mut quads, FaceDir::XPos);
    let ghost s2 = quads@;
    push_direction(lat, &mut quads, FaceDir::YNeg);
    let ghost s3 = quads@;
    push_direction(lat, &mut quads, FaceDir::YPos);
    let ghost s4 = quads@;
    push_direction(lat, &mut quads, FaceDir::ZNeg);
    let ghost s5 = quads@;
    push_direction(lat, &mut quads, FaceDir::ZPos);
    proof {
        let gn = lat.n as int;
        assert(6 * gn * gn * gn == gn * gn * gn + gn * gn * gn + gn * gn * gn + gn * gn * gn
            + gn * gn * gn + gn * gn * gn) by (nonlinear_arith);
        // Every visible face of every direction is covered: the face was
        // covered when its direction group was emitted, and later groups
        // preserve coverage.
        assert forall|d: FaceDir, x: int, y: int, z: int|
            #[trigger] face_present(*lat, d, x, y, z) implies quads_cover_face(
            quads@,
            d,
            x,
            y,
            z,
        ) by {
            if d == FaceDir::XNeg {
                assert(quads_cover_face(s1, d, x, y, z));
                assert(quads_cover_face(s2, d, x, y, z));
                assert(quads_cover_face(s3, d, x, y, z));
                assert(quads_cover_face(s4, d, x, y, z));
                assert(quads_cover_face(s5, d, x, y, z));
            } else if d == FaceDir::XPos {
                assert(quads_cover_face(s2, d, x, y, z));
                assert(quads_cover_face(s3, d, x, y, z));
                assert(quads_cover_face(s4, d, x, y, z));
                assert(quads_cover_face(s5, d, x, y, z));
            } else if d == FaceDir::YNeg {
                assert(quads_cover_face(s3, d, x, y, z));
                assert(quads_cover_face(s4, d, x, y, z));
                assert(quads_cover_face(s5, d, x, y, z));
            } else if d == FaceDir::YPos {
                assert(quads_cover_face(s4, d, x, y, z));
                assert(quads_cover_face(s5, d, x, y, z));
            } else if d == FaceDir::ZNeg {
                assert(quads_cover_face(s5, d, x, y, z));
            }
        }
        // No quad spans voxels of different merge classifications: every
        // covered cell is opaque, and opaque single-bit voxels share one
        // merge value.
        assert forall|k: int, x: int, y: int, z: int|
            0 <= k < quads@.len() && #[trigger] quad_covers(quads@[k], x, y, z)
            implies lat.at(x, y, z).spec_merge_value() == lat.at(
            quads@[k].x as int,
            quads@[k].y as int,
            quads@[k].z as int,
        ).spec_merge_value() by {
            let q = quads@[k];
            assert(quad_covers(q, q.x as int, q.y as int, q.z as int));
            assert(face_present(*lat, q.dir, x, y, z));
            assert(face_present(*lat, q.dir, q.x as int, q.y as int, q.z as int));
        }
    }
    quads
}

/// The enclosure law: a lattice that is entirely solid, padding included,
/// shows no face, so any quad set that partitions its visible faces is
/// empty.
pub proof fn lemma_enclosure(lat: Lattice, qs: Seq<Quad>)
    requires
        lat.wf(),
        forall|x: int, y: int, z: int|
            0 <= x < lat.side() && 0 <= y < lat.side() && 0 <= z < lat.side()
                ==> (#[trigger] lat.at(x, y, z)).is_full(),
        quads_partition(lat, qs),
    ensures
        qs.len() == 0,
{
    if qs.len() > 0 {
        let q = qs[0];
        assert(quad_wf(q, lat.n as int));
        assert(quad_covers(q, q.x as int, q.y as int, q.z as int));
        assert(face_present(lat, q.dir, q.x as int, q.y as int, q.z as int));
        let nx = q.x + normal_dx(q.dir);
        let ny = q.y + normal_dy(q.dir);
        let nz = q.z + normal_dz(q.dir);
        assert(0 <= nx < lat.side() && 0 <= ny < lat.side() && 0 <= nz < lat.side());
        assert(lat.at(nx, ny, nz).is_full());
        assert(false);
    }
}

/// The single-voxel law: a lattice that is empty everywhere except one
/// interior solid voxel yields exactly six quads, one per face direction,
/// each of unit extent at that voxel.
pub proof fn lemma_single_voxel(lat: Lattice, qs: Seq<Quad>, cx: int, cy: int, cz: int)
    requires
        lat.wf(),
        1 <= cx <= lat.n,
        1 <= cy <= lat.n,
        1 <= cz <= lat.n,
        lat.at(cx, cy, cz).is_full(),
        forall|x: int, y: int, z: int|
            0 <= x < lat.side() && 0 <= y < lat.side() && 0 <= z < lat.side()
                && !(x == cx && y == cy && z == cz)
                ==> !(#[trigger] lat.at(x, y, z)).is_full(),
        quads_partition(lat, qs),
    ensures
        qs.len() == 6,
        forall|k: int|
            0 <= k < qs.len() ==> (#[trigger] qs[k]).x == cx && qs[k].y == cy && qs[k].z == cz
                && qs[k].w == 1 && qs[k].h == 1,
{
    // Only the solid voxel can show a face, and it shows one in every
    // direction because all its neighbours are empty.
    assert forall|d: FaceDir, x: int, y: int, z: int| #[trigger] face_present(lat, d, x, y, z)
        implies x == cx && y == cy && z == cz by {
        assert(lat.at(x, y, z).is_full());
    }
    assert forall|d: FaceDir| #[trigger] face_present(lat, d, cx, cy, cz) by {
        let nx = cx + normal_dx(d);
        let ny = cy + normal_dy(d);
        let nz = cz + normal_dz(d);
        assert(0 <= nx < lat.side() && 0 <= ny < lat.side() && 0 <= nz < lat.side());
        assert(!(nx == cx && ny == cy && nz == cz));
        assert(!lat.at(nx, ny, nz).is_full());
    }
    // Every quad covers its own minimum corner, which must be the voxel,
    // and a wider or taller quad would cover a second, empty cell.
    assert forall|k: int| 0 <= k < qs.len() implies (#[trigger] qs[k]).x == cx && qs[k].y == cy
        && qs[k].z == cz && qs[k].w == 1 && qs[k].h == 1 by {
        let q = qs[k];
        assert(quad_wf(q, lat.n as int));
        assert(quad_covers(q, q.x as int, q.y as int, q.z as int));
        assert(face_present(lat, q.dir, q.x as int, q.y as int, q.z as int));
        assert(q.x == cx && q.y == cy && q.z == cz);
        if q.w >= 2 {
            // The cell one step along the first tangent axis is covered too.
            let (x2, y2, z2) = match q.dir {
                FaceDir::XNeg | FaceDir::XPos => (cx, cy + 1, cz),
                FaceDir::YNeg | FaceDir::YPos => (cx + 1, cy, cz),
                FaceDir::ZNeg | FaceDir::ZPos => (cx + 1, cy, cz),
            };
            assert(quad_covers(q, x2, y2, z2));
            assert(face_present(lat, q.dir, x2, y2, z2));
            assert(false);
        }
        if q.h >= 2 {
            let (x2, y2, z2) = match q.dir {
                FaceDir::XNeg | FaceDir::XPos => (cx, cy, cz + 1),
                FaceDir::YNeg | FaceDir::YPos => (cx, cy, cz + 1),
                FaceDir::ZNeg | FaceDir::ZPos => (cx, cy + 1, cz),
            };
            assert(quad_covers(q, x2, y2, z2));
            assert(face_present(lat, q.dir, x2, y2, z2));
            assert(false);
        }
    }
    // No two quads share a direction: both would cover the voxel's face.
    assert forall|k1: int, k2: int|
        0 <= k1 < qs.len() && 0 <= k2 < qs.len() && k1 != k2 implies (#[trigger] qs[k1]).dir
        != (#[trigger] qs[k2]).dir by {
        if qs[k1].dir == qs[k2].dir {
            assert(quad_covers(qs[k1], cx, cy, cz));
            assert(quad_covers(qs[k2], cx, cy, cz));
        }
    }
    // One quad per direction exists, so there are at least six; distinct
    // directions cap the count at six.
    assert(face_present(lat, FaceDir::XNeg, cx, cy, cz));
    assert(face_present(lat, FaceDir::XPos, cx, cy, cz));
    assert(face_present(lat, FaceDir::YNeg, cx, cy, cz));
    assert(face_present(lat, FaceDir::YPos, cx, cy, cz));
    assert(face_present(lat, FaceDir::ZNeg, cx, cy, cz));
    assert(face_present(lat, FaceDir::ZPos, cx, cy, cz));
    assert(quads_cover_face(qs, FaceDir::XNeg, cx, cy, cz));
    assert(quads_cover_face(qs, FaceDir::XPos, cx, cy, cz));
    assert(quads_cover_face(qs, FaceDir::YNeg, cx, cy, cz));
    assert(quads_cover_face(qs, FaceDir::YPos, cx, cy, cz));
    assert(quads_cover_face(qs, FaceDir::ZNeg, cx, cy, cz));
    assert(quads_cover_face(qs, FaceDir::ZPos, cx, cy, cz));
    let k1 = choose|k: int|
        0 <= k < qs.len() && #[trigger] qs[k].dir == FaceDir::XNeg && quad_covers(qs[k], cx, cy, cz);
    let k2 = choose|k: int|
        0 <= k < qs.len() && #[trigger] qs[k].dir == FaceDir::XPos && quad_covers(qs[k], cx, cy, cz);
    let k3 = choose|k: int|
        0 <= k < qs.len() && #[trigger] qs[k].dir == FaceDir::YNeg && quad_covers(qs[k], cx, cy, cz);
    let k4 = choose|k: int|
        0 <= k < qs.len() && #[trigger] qs[k].dir == FaceDir::YPos && quad_covers(qs[k], cx, cy, cz);
    let k5 = choose|k: int|
        0 <= k < qs.len() && #[trigger] qs[k].dir == FaceDir::ZNeg && quad_covers(qs[k], cx, cy, cz);
    let k6 = choose|k: int|
        0 <= k < qs.len() && #[trigger] qs[k].dir == FaceDir::ZPos && quad_covers(qs[k], cx, cy, cz);
    assert(0 <= k1 < qs.len() && qs[k1].dir == FaceDir::XNeg);
    assert(0 <= k2 < qs.len() && qs[k2].dir == FaceDir::XPos);
    assert(0 <= k3 < qs.len() && qs[k3].dir == FaceDir::YNeg);
    assert(0 <= k4 < qs.len() && qs[k4].dir == FaceDir::YPos);
    assert(0 <= k5 < qs.len() && qs[k5].dir == FaceDir::ZNeg);
    assert(0 <= k6 < qs.len() && qs[k6].dir == FaceDir::ZPos);
    assert(qs.len() >= 6);
    if qs.len() >= 7 {
        // Seven quads with pairwise distinct directions cannot fit into six
        // direction ranks.
        let r0 = dir_rank(qs[0].dir);
        let r1 = dir_rank(qs[1].dir);
        let r2 = dir_rank(qs[2].dir);
        let r3 = dir_rank(qs[3].dir);
        let r4 = dir_rank(qs[4].dir);
        let r5 = dir_rank(qs[5].dir);
        let r6 = dir_rank(qs[6].dir);
        assert(0 <= r0 < 6 && 0 <= r1 < 6 && 0 <= r2 < 6 && 0 <= r3 < 6 && 0 <= r4 < 6 && 0 <= r5
            < 6 && 0 <= r6 < 6);
        assert(false);
    }
}

/// Builds the quad of one merged rectangle at layer `a`.
fn quad_of_rect_exec(d: FaceDir, a: u32, r: Rect, n: u32) -> (q: Quad)
    requires
        n <= MAX_EDGE,
        rect_wf(r, n as int),
    ensures
        q == quad_of_rect(d, a, r),
{
    match d {
        FaceDir::XNeg | FaceDir::XPos => Quad { dir: d, x: a, y: r.u + 1, z: r.v + 1, w: r.w, h: r.h },
        FaceDir::YNeg | FaceDir::YPos => Quad { dir: d, x: r.u + 1, y: a, z: r.v + 1, w: r.w, h: r.h },
        FaceDir::ZNeg | FaceDir::ZPos => Quad { dir: d, x: r.u + 1, y: r.v + 1, z: a, w: r.w, h: r.h },
    }
}

} // verus!

