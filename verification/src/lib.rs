//! Greedy voxel meshing: turns a dense 3-D grid of binary occupancy values
//! into a compact surface mesh of merged axis-aligned quads.
//!
//! The pipeline runs in three verified stages. A caller-supplied density
//! sampler is evaluated over a padded lattice ([`domain`]), the lattice is
//! scanned for visible faces which are merged into maximal rectangles per
//! face direction ([`mesher`]), and the resulting quads are flattened into
//! vertex, normal, UV and index buffers with consistent winding
//! ([`assembler`]).

use vstd::prelude::*;

pub mod assembler;
pub mod domain;
pub mod mesher;
pub mod voxel;

pub use voxel::BoolVoxel;
pub use voxel::MeshVoxel;
pub use voxel::VoxelVisibility;

use crate::assembler::MeshBuffers;
use crate::assembler::assemble;
use crate::assembler::buffers_consistent;
use crate::assembler::buffers_match;
use crate::assembler::quad_fits;
use crate::domain::DensitySampler;
use crate::domain::Lattice;
use crate::domain::MAX_EDGE;
use crate::domain::lattice_matches_sampler;
use crate::domain::sample_lattice;
use crate::mesher::Quad;
use crate::mesher::greedy_mesh;
use crate::mesher::quad_wf;
use crate::mesher::quads_partition;

verus! {

/// Generates the mesh of one chunk: samples the density sampler over a
/// padded lattice of logical edge length `chunk_edge_length`, merges the
/// visible faces greedily into quads, and flattens the quads into buffers.
///
/// The buffers are internally consistent, and they are the assembly of a
/// quad set that partitions the visible faces of the lattice the sampler
/// describes: every visible face is covered by exactly one quad, and quads
/// cover nothing else.
pub fn generate_mesh<S: DensitySampler>(chunk_edge_length: u32, sampler: &S) -> (b: MeshBuffers)
    requires
        1 <= chunk_edge_length <= MAX_EDGE,
    ensures
        buffers_consistent(b),
        exists|lat: Lattice, qs: Seq<Quad>|
            lat.wf() && lat.n == chunk_edge_length && #[trigger] lattice_matches_sampler(
                lat,
                *sampler,
            ) && #[trigger] quads_partition(lat, qs) && buffers_match(b, qs),
{
    let lat = sample_lattice(chunk_edge_length, sampler);
    let quads = greedy_mesh(&lat);
    proof {
        let gn = lat.n as int;
        assert(6 * gn * gn * gn < 0x0800_0000) by (nonlinear_arith)
            requires
                1 <= gn <= 254,
        {
        }
        assert forall|k: int| 0 <= k < quads@.len() implies quad_fits(#[trigger] quads@[k]) by {
            assert(quad_wf(quads@[k], gn));
        }
    }
    let b = assemble(&quads);
    proof {
        assert(lat.wf() && lat.n == chunk_edge_length && lattice_matches_sampler(lat, *sampler)
            && quads_partition(lat, quads@) && buffers_match(b, quads@));
    }
    b
}

} // verus!
