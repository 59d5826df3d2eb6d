//! The padded voxel lattice, the normalized sampling domain, and the chunk
//! sampler that fills a lattice by evaluating a density sampler at every
//! lattice cell.

use vstd::prelude::*;
use crate::voxel::BoolVoxel;

verus! {

/// Largest supported logical chunk edge length. Keeps the padded lattice
/// size `(n+2)^3` and every vertex/index count of the generated buffers
/// within `u32`.
pub const MAX_EDGE: u32 = 254;

/// A point of the normalized sampling domain, held exactly: the lattice
/// coordinate `c` of a chunk of edge length `n` maps per axis to the
/// rational number `(2*c - n) / n`, stored as the numerator `2*c - n` over
/// the common denominator `n`. Consumers divide `num / den` to obtain the
/// real position.
#[derive(Clone, Copy, PartialEq, Eq, Structural, Debug)]
pub struct DomainPoint {
    pub num_x: i64,
    pub num_y: i64,
    pub num_z: i64,
    pub den: u32,
}

/// The domain point of lattice cell `(x, y, z)` for chunk edge length `n`.
pub open spec fn domain_point_spec(n: int, x: int, y: int, z: int) -> DomainPoint {
    DomainPoint {
        num_x: (2 * x - n) as i64,
        num_y: (2 * y - n) as i64,
        num_z: (2 * z - n) as i64,
        den: n as u32,
    }
}

/// Maps an integer lattice coordinate into the normalized domain, the exact
/// form of `domain(c) = (2/n)*c - 1` per axis: the returned numerators are
/// `2*c - n` over denominator `n`, so cell `(0,0,0)` maps to `(-1,-1,-1)`
/// and cell `(n+1,n+1,n+1)` maps to `(1 + 2/n, ...)`.
pub fn into_domain(n: u32, x: u32, y: u32, z: u32) -> (p: DomainPoint)
    requires
        1 <= n <= MAX_EDGE,
        x < n + 2,
        y < n + 2,
        z < n + 2,
    ensures
        p == domain_point_spec(n as int, x as int, y as int, z as int),
{
    DomainPoint {
        num_x: 2 * (x as i64) - (n as i64),
        num_y: 2 * (y as i64) - (n as i64),
        num_z: 2 * (z as i64) - (n as i64),
        den: n,
    }
}

/// The corner cell `(0,0,0)` maps to the domain position `(-1,-1,-1)`
/// (numerator `-n` over denominator `n` on every axis), and the far padding
/// corner `(n+1,n+1,n+1)` maps to `(1 + 2/n, ...)` (numerator `n + 2` over
/// denominator `n`).
pub proof fn lemma_domain_corners(n: int)
    requires
        1 <= n <= MAX_EDGE,
    ensures
        domain_point_spec(n, 0, 0, 0).num_x == -1 * domain_point_spec(n, 0, 0, 0).den,
        domain_point_spec(n, 0, 0, 0).num_y == -1 * domain_point_spec(n, 0, 0, 0).den,
        domain_point_spec(n, 0, 0, 0).num_z == -1 * domain_point_spec(n, 0, 0, 0).den,
        domain_point_spec(n, n + 1, n + 1, n + 1).num_x
            == domain_point_spec(n, n + 1, n + 1, n + 1).den + 2,
        domain_point_spec(n, n + 1, n + 1, n + 1).num_y
            == domain_point_spec(n, n + 1, n + 1, n + 1).den + 2,
        domain_point_spec(n, n + 1, n + 1, n + 1).num_z
            == domain_point_spec(n, n + 1, n + 1, n + 1).den + 2,
{
}

/// A density sampler: a pure function from a domain position to a voxel,
/// supplied by the caller of mesh generation. `spec_sample` is the
/// mathematical function the sampler computes; `sample` must return exactly
/// that value, which is what makes a sampler pure.
pub trait DensitySampler {
    /// The value this sampler assigns to a domain position.
    spec fn spec_sample(&self, p: DomainPoint) -> BoolVoxel;

    fn sample(&self, p: DomainPoint) -> (v: BoolVoxel)
        ensures
            v == self.spec_sample(p),
    ;
}

/// A sampler that returns the same voxel everywhere.
#[derive(Clone, Copy, PartialEq, Eq, Structural, Debug)]
pub struct ConstSampler {
    pub value: BoolVoxel,
}

impl DensitySampler for ConstSampler {
    open spec fn spec_sample(&self, p: DomainPoint) -> BoolVoxel {
        self.value
    }

    fn sample(&self, p: DomainPoint) -> (v: BoolVoxel) {
        self.value
    }
}

/// A sampler that is solid exactly on an axis-aligned box of lattice cells,
/// given by inclusive cell bounds. A domain position lies in cell `c` on an
/// axis when its numerator equals `2*c - n`, so the box test compares the
/// numerators against the bounds' images under the domain mapping.
#[derive(Clone, Copy, PartialEq, Eq, Structural, Debug)]
pub struct BoxSampler {
    pub n: u32,
    pub lo_x: u32,
    pub lo_y: u32,
    pub lo_z: u32,
    pub hi_x: u32,
    pub hi_y: u32,
    pub hi_z: u32,
}

impl DensitySampler for BoxSampler {
    open spec fn spec_sample(&self, p: DomainPoint) -> BoolVoxel {
        BoolVoxel(2 * self.lo_x - self.n <= p.num_x <= 2 * self.hi_x - self.n
            && 2 * self.lo_y - self.n <= p.num_y <= 2 * self.hi_y - self.n
            && 2 * self.lo_z - self.n <= p.num_z <= 2 * self.hi_z - self.n)
    }

    fn sample(&self, p: DomainPoint) -> (v: BoolVoxel) {
        let n = self.n as i64;
        BoolVoxel(
            2 * (self.lo_x as i64) - n <= p.num_x && p.num_x <= 2 * (self.hi_x as i64) - n
                && 2 * (self.lo_y as i64) - n <= p.num_y && p.num_y <= 2 * (self.hi_y as i64) - n
                && 2 * (self.lo_z as i64) - n <= p.num_z && p.num_z <= 2 * (self.hi_z as i64) - n,
        )
    }
}

/// Row-major linear index of cell `(x, y, z)` in a cube of edge `s`, with
/// `x` varying fastest.
pub open spec fn cube_index(s: int, x: int, y: int, z: int) -> int {
    x + s * (y + s * z)
}

/// The voxel a flat store holds at cell `(x, y, z)` of a cube of edge `s`.
pub open spec fn cube_at(v: Seq<BoolVoxel>, s: int, x: int, y: int, z: int) -> BoolVoxel {
    v[cube_index(s, x, y, z)]
}

/// Strict lexicographic order on `(z, y, x)` triples, the order in which the
/// chunk sampler fills the lattice.
pub open spec fn lex_lt3(x1: int, y1: int, z1: int, x2: int, y2: int, z2: int) -> bool {
    ||| z1 < z2
    ||| (z1 == z2 && y1 < y2)
    ||| (z1 == z2 && y1 == y2 && x1 < x2)
}

/// Row-major indices respect the `(z, y, x)` lexicographic order.
pub proof fn lemma_cube_lex(s: int, x1: int, y1: int, z1: int, x2: int, y2: int, z2: int)
    requires
        0 <= x1 < s,
        0 <= y1 < s,
        0 <= z1 < s,
        0 <= x2 < s,
        0 <= y2 < s,
        0 <= z2 < s,
        lex_lt3(x1, y1, z1, x2, y2, z2),
    ensures
        cube_index(s, x1, y1, z1) < cube_index(s, x2, y2, z2),
{
    assert(x1 + s * (y1 + s * z1) < x2 + s * (y2 + s * z2)) by (nonlinear_arith)
        requires
            0 <= x1 < s,
            0 <= y1 < s,
            0 <= z1 < s,
            0 <= x2 < s,
            0 <= y2 < s,
            0 <= z2 < s,
            lex_lt3(x1, y1, z1, x2, y2, z2),
    {
    }
}

/// A cell's row-major index lies within the cube.
pub proof fn lemma_cube_index_bound(s: int, x: int, y: int, z: int)
    requires
        0 <= x < s,
        0 <= y < s,
        0 <= z < s,
    ensures
        0 <= cube_index(s, x, y, z) < s * s * s,
{
    assert(0 <= x + s * (y + s * z) < s * s * s) by (nonlinear_arith)
        requires
            0 <= x < s,
            0 <= y < s,
            0 <= z < s,
    {
    }
}

/// The padded lattice of one chunk: `(n+2)^3` voxels for logical edge
/// length `n`, one layer of padding on every side, addressed row-major with
/// `x` varying fastest.
pub struct Lattice {
    pub n: u32,
    pub voxels: Vec<BoolVoxel>,
}

impl Lattice {
    /// Padded edge length.
    pub open spec fn side(&self) -> int {
        self.n + 2
    }

    /// Well-formedness: a supported edge length and a fully allocated voxel
    /// store.
    pub open spec fn wf(&self) -> bool {
        &&& 1 <= self.n <= MAX_EDGE
        &&& self.voxels.len() == self.side() * self.side() * self.side()
    }

    /// The voxel stored at cell `(x, y, z)`.
    pub open spec fn at(&self, x: int, y: int, z: int) -> BoolVoxel {
        cube_at(self.voxels@, self.side(), x, y, z)
    }

    /// Reads the voxel at cell `(x, y, z)`.
    pub fn get(&self, x: u32, y: u32, z: u32) -> (v: BoolVoxel)
        requires
            self.wf(),
            x < self.side(),
            y < self.side(),
            z < self.side(),
        ensures
            v == self.at(x as int, y as int, z as int),
    {
        let side = self.n + 2;
        proof {
            lemma_cube_index_bound(side as int, x as int, y as int, z as int);
            assert((side as int) * (z as int) < 256 * 256
                && (y as int) + (side as int) * (z as int) < 256 * 256
                && (side as int) * ((y as int) + (side as int) * (z as int)) < 256 * 256 * 256)
                by (nonlinear_arith)
                requires
                    side <= 256,
                    x < side,
                    y < side,
                    z < side,
            {
            }
        }
        self.voxels[(x + side * (y + side * z)) as usize]
    }
}

/// Whether `lat` holds, at every cell, exactly the sampler's value at that
/// cell's domain position: the defining property of the chunk sampler's
/// output.
pub open spec fn lattice_matches_sampler<S: DensitySampler>(lat: Lattice, s: S) -> bool {
    forall|x: int, y: int, z: int|
        0 <= x < lat.side() && 0 <= y < lat.side() && 0 <= z < lat.side()
            ==> #[trigger] lat.at(x, y, z) == s.spec_sample(
            domain_point_spec(lat.n as int, x, y, z),
        )
}

/// Chunk sampling is deterministic: two lattices of the same edge length
/// that both match one density sampler agree on every cell.
pub proof fn lemma_sampling_deterministic<S: DensitySampler>(lat1: Lattice, lat2: Lattice, s: S)
    requires
        lat1.wf(),
        lat2.wf(),
        lat1.n == lat2.n,
        lattice_matches_sampler(lat1, s),
        lattice_matches_sampler(lat2, s),
    ensures
        forall|x: int, y: int, z: int|
            0 <= x < lat1.side() && 0 <= y < lat1.side() && 0 <= z < lat1.side()
                ==> #[trigger] lat1.at(x, y, z) == lat2.at(x, y, z),
{
}

/// Fills a padded lattice of edge length `n` by evaluating the density
/// sampler at the domain position of every lattice cell, padding included.
pub fn sample_lattice<S: DensitySampler>(n: u32, sampler: &S) -> (lat: Lattice)
    requires
        1 <= n <= MAX_EDGE,
    ensures
        lat.wf(),
        lat.n == n,
        lattice_matches_sampler(lat, *sampler),
{
    let side = n + 2;
    let mut voxels: Vec<BoolVoxel> = Vec::new();
    let ghost gn = n as int;
    let ghost gs = side as int;
    let mut z: u32 = 0;
    while z < side
        invariant
            1 <= n <= MAX_EDGE,
            side == n + 2,
            gs == side as int,
            gn == n as int,
            0 <= z <= side,
            voxels.len() == gs * gs * (z as int),
            forall|xx: int, yy: int, zz: int|
                0 <= xx < gs && 0 <= yy < gs && 0 <= zz < gs
                    && lex_lt3(xx, yy, zz, 0, 0, z as int)
                    ==> #[trigger] cube_at(voxels@, gs, xx, yy, zz) == sampler.spec_sample(
                    domain_point_spec(gn, xx, yy, zz),
                ),
        decreases side - z,
    {
        let mut y: u32 = 0;
        while y < side
            invariant
                1 <= n <= MAX_EDGE,
                side == n + 2,
                gs == side as int,
                gn == n as int,
                z < side,
                0 <= y <= side,
                voxels.len() == gs * gs * (z as int) + gs * (y as int),
                forall|xx: int, yy: int, zz: int|
                    0 <= xx < gs && 0 <= yy < gs && 0 <= zz < gs
                        && lex_lt3(xx, yy, zz, 0, y as int, z as int)
                        ==> #[trigger] cube_at(voxels@, gs, xx, yy, zz) == sampler.spec_sample(
                        domain_point_spec(gn, xx, yy, zz),
                    ),
            decreases side - y,
        {
            let mut x: u32 = 0;
            while x < side
                invariant
                    1 <= n <= MAX_EDGE,
                    side == n + 2,
                    gs == side as int,
                    gn == n as int,
                    z < side,
                    y < side,
                    0 <= x <= side,
                    voxels.len() == gs * gs * (z as int) + gs * (y as int) + x as int,
                    forall|xx: int, yy: int, zz: int|
                        0 <= xx < gs && 0 <= yy < gs && 0 <= zz < gs
                            && lex_lt3(xx, yy, zz, x as int, y as int, z as int)
                            ==> #[trigger] cube_at(voxels@, gs, xx, yy, zz) == sampler.spec_sample(
                            domain_point_spec(gn, xx, yy, zz),
                        ),
                decreases side - x,
            {
                let p = into_domain(n, x, y, z);
                let v = sampler.sample(p);
                let ghost pre = voxels@;
                voxels.push(v);
                proof {
                    assert(gs * gs * (z as int) + gs * (y as int) + x as int
                        == cube_index(gs, x as int, y as int, z as int)) by (nonlinear_arith);
                    assert(voxels@ == pre.push(v));
                    assert forall|xx: int, yy: int, zz: int|
                        0 <= xx < gs && 0 <= yy < gs && 0 <= zz < gs
                            && lex_lt3(xx, yy, zz, x as int + 1, y as int, z as int)
                        implies #[trigger] cube_at(voxels@, gs, xx, yy, zz) == sampler.spec_sample(
                        domain_point_spec(gn, xx, yy, zz),
                    ) by {
                        if lex_lt3(xx, yy, zz, x as int, y as int, z as int) {
                            lemma_cube_lex(gs, xx, yy, zz, x as int, y as int, z as int);
                            lemma_cube_index_bound(gs, xx, yy, zz);
                            assert(cube_at(pre, gs, xx, yy, zz) == sampler.spec_sample(
                                domain_point_spec(gn, xx, yy, zz),
                            ));
                            assert(0 <= cube_index(gs, xx, yy, zz) < pre.len());
                            assert(voxels@[cube_index(gs, xx, yy, zz)]
                                == pre[cube_index(gs, xx, yy, zz)]);
                        } else {
                            assert(xx == x as int && yy == y as int && zz == z as int);
                            assert(cube_index(gs, xx, yy, zz) == pre.len());
                            assert(voxels@[cube_index(gs, xx, yy, zz)] == v);
                        }
                    }
                }
                x = x + 1;
            }
            proof {
                assert(gs * (y as int) + gs == gs * (y as int + 1)) by (nonlinear_arith);
            }
            y = y + 1;
        }
        proof {
            assert(gs * gs * (z as int) + gs * gs == gs * gs * (z as int + 1)) by (nonlinear_arith);
        }
        z = z + 1;
    }
    let lat = Lattice { n, voxels };
    proof {
        assert(gs * gs * gs == lat.side() * lat.side() * lat.side());
        assert forall|x: int, y: int, z: int|
            0 <= x < lat.side() && 0 <= y < lat.side() && 0 <= z < lat.side()
            implies #[trigger] lat.at(x, y, z) == sampler.spec_sample(
            domain_point_spec(lat.n as int, x, y, z),
        ) by {
            assert(lex_lt3(x, y, z, 0, 0, gs));
            assert(cube_at(lat.voxels@, lat.side(), x, y, z) == cube_at(voxels@, gs, x, y, z));
        }
    }
    lat
}

} // verus!
