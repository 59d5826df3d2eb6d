//! End-to-end tests of the meshing pipeline over small lattices.

use greedy_mesh::BoolVoxel;
use greedy_mesh::VoxelVisibility;
use greedy_mesh::MeshVoxel;
use greedy_mesh::assembler::assemble;
use greedy_mesh::assembler::Uv;
use greedy_mesh::assembler::Vertex;
use greedy_mesh::domain::into_domain;
use greedy_mesh::domain::sample_lattice;
use greedy_mesh::domain::BoxSampler;
use greedy_mesh::domain::ConstSampler;
use greedy_mesh::generate_mesh;
use greedy_mesh::mesher::greedy_mesh as merge_quads;
use greedy_mesh::mesher::FaceDir;
use greedy_mesh::mesher::Quad;

#[test]
fn voxel_visibility() {
    assert_eq!(BoolVoxel::empty(), BoolVoxel(false));
    assert_eq!(BoolVoxel::full(), BoolVoxel(true));
    assert_eq!(BoolVoxel(false).get_visibility(), VoxelVisibility::Empty);
    assert_eq!(BoolVoxel(true).get_visibility(), VoxelVisibility::Opaque);
    assert_eq!(BoolVoxel(true).merge_value(), BoolVoxel(true));
    assert_eq!(BoolVoxel(false).merge_value(), BoolVoxel(false));
}

#[test]
fn domain_corner_mapping() {
    // For edge length 4, cell 0 maps to -1 (numerator -4 over 4) and cell
    // 5 = n+1 maps to 1 + 2/4 (numerator 6 over 4).
    let p = into_domain(4, 0, 0, 0);
    assert_eq!((p.num_x, p.num_y, p.num_z, p.den), (-4, -4, -4, 4));
    let q = into_domain(4, 5, 5, 5);
    assert_eq!((q.num_x, q.num_y, q.num_z, q.den), (6, 6, 6, 4));
    let m = into_domain(4, 2, 0, 5);
    assert_eq!((m.num_x, m.num_y, m.num_z, m.den), (0, -4, 6, 4));
}

#[test]
fn enclosure_all_full() {
    // A lattice solid everywhere, padding included, has no visible face.
    let sampler = ConstSampler { value: BoolVoxel(true) };
    let lat = sample_lattice(2, &sampler);
    let quads = merge_quads(&lat);
    assert_eq!(quads.len(), 0);
    let buffers = generate_mesh(2, &sampler);
    assert_eq!(buffers.positions.len(), 0);
    assert_eq!(buffers.normals.len(), 0);
    assert_eq!(buffers.uvs.len(), 0);
    assert_eq!(buffers.indices.len(), 0);
}

#[test]
fn all_empty_lattice() {
    let sampler = ConstSampler { value: BoolVoxel(false) };
    let buffers = generate_mesh(3, &sampler);
    assert_eq!(buffers.positions.len(), 0);
    assert_eq!(buffers.indices.len(), 0);
}

#[test]
fn single_voxel_six_unit_quads() {
    // One interior solid voxel shows six unit faces, one per direction.
    let sampler = BoxSampler { n: 3, lo_x: 2, lo_y: 2, lo_z: 2, hi_x: 2, hi_y: 2, hi_z: 2 };
    let lat = sample_lattice(3, &sampler);
    let quads = merge_quads(&lat);
    assert_eq!(quads.len(), 6);
    let mut seen = [false; 6];
    for q in quads.iter() {
        assert_eq!((q.x, q.y, q.z), (2, 2, 2));
        assert_eq!((q.w, q.h), (1, 1));
        let rank = match q.dir {
            FaceDir::XNeg => 0,
            FaceDir::XPos => 1,
            FaceDir::YNeg => 2,
            FaceDir::YPos => 3,
            FaceDir::ZNeg => 4,
            FaceDir::ZPos => 5,
        };
        assert!(!seen[rank]);
        seen[rank] = true;
    }
    assert!(seen.iter().all(|s| *s));
}

#[test]
fn merge_maximality_slab() {
    // A flat 2 by 2 slab of solid voxels merges into a single quad per
    // horizontal side, not four unit quads.
    let sampler = BoxSampler { n: 4, lo_x: 1, lo_y: 1, lo_z: 1, hi_x: 2, hi_y: 1, hi_z: 2 };
    let lat = sample_lattice(4, &sampler);
    let quads = merge_quads(&lat);
    let tops: Vec<&Quad> = quads.iter().filter(|q| q.dir == FaceDir::YPos).collect();
    assert_eq!(tops.len(), 1);
    assert_eq!((tops[0].x, tops[0].y, tops[0].z), (1, 1, 1));
    assert_eq!((tops[0].w, tops[0].h), (2, 2));
    let bottoms: Vec<&Quad> = quads.iter().filter(|q| q.dir == FaceDir::YNeg).collect();
    assert_eq!(bottoms.len(), 1);
    assert_eq!((bottoms[0].w, bottoms[0].h), (2, 2));
    // The four thin sides merge too: one 1 by 2 quad each.
    assert_eq!(quads.len(), 6);
    for q in quads.iter() {
        match q.dir {
            FaceDir::YNeg | FaceDir::YPos => assert_eq!(q.w * q.h, 4),
            _ => assert_eq!(q.w * q.h, 2),
        }
    }
}

#[test]
fn partition_covers_visible_faces() {
    // The summed quad area per direction equals the number of visible
    // faces of that direction, here for a 2 by 1 by 1 bar: every side face
    // is covered exactly once.
    let sampler = BoxSampler { n: 4, lo_x: 2, lo_y: 2, lo_z: 2, hi_x: 3, hi_y: 2, hi_z: 2 };
    let lat = sample_lattice(4, &sampler);
    let quads = merge_quads(&lat);
    let area = |d: FaceDir| -> u32 {
        quads.iter().filter(|q| q.dir == d).map(|q| q.w * q.h).sum()
    };
    assert_eq!(area(FaceDir::XNeg), 1);
    assert_eq!(area(FaceDir::XPos), 1);
    assert_eq!(area(FaceDir::YNeg), 2);
    assert_eq!(area(FaceDir::YPos), 2);
    assert_eq!(area(FaceDir::ZNeg), 2);
    assert_eq!(area(FaceDir::ZPos), 2);
}

#[test]
fn buffer_consistency() {
    let sampler = BoxSampler { n: 4, lo_x: 1, lo_y: 1, lo_z: 1, hi_x: 3, hi_y: 2, hi_z: 3 };
    let buffers = generate_mesh(4, &sampler);
    let verts = buffers.positions.len();
    assert!(verts > 0);
    assert_eq!(buffers.normals.len(), verts);
    assert_eq!(buffers.uvs.len(), verts);
    assert_eq!(verts % 4, 0);
    assert_eq!(buffers.indices.len(), 6 * (verts / 4));
    for i in buffers.indices.iter() {
        assert!((*i as usize) < verts);
    }
    for uv in buffers.uvs.iter() {
        assert_eq!(*uv, Uv { u: 0, v: 0 });
    }
    // Indices of the first quad follow the two-triangle pattern.
    assert_eq!(&buffers.indices[0..6], &[0, 1, 2, 0, 2, 3]);
}

#[test]
fn determinism_same_sampler_same_buffers() {
    let sampler = BoxSampler { n: 5, lo_x: 1, lo_y: 2, lo_z: 1, hi_x: 4, hi_y: 3, hi_z: 4 };
    let a = generate_mesh(5, &sampler);
    let b = generate_mesh(5, &sampler);
    assert_eq!(a.positions, b.positions);
    assert_eq!(a.normals, b.normals);
    assert_eq!(a.uvs, b.uvs);
    assert_eq!(a.indices, b.indices);
}

#[test]
fn assemble_single_quad_exact_buffers() {
    let quads = vec![Quad { dir: FaceDir::ZPos, x: 1, y: 1, z: 1, w: 2, h: 1 }];
    let b = assemble(&quads);
    let expect = [
        Vertex { x: 1, y: 1, z: 2 },
        Vertex { x: 3, y: 1, z: 2 },
        Vertex { x: 3, y: 2, z: 2 },
        Vertex { x: 1, y: 2, z: 2 },
    ];
    assert_eq!(b.positions, expect.to_vec());
    for n in b.normals.iter() {
        assert_eq!(*n, Vertex { x: 0, y: 0, z: 1 });
    }
    assert_eq!(b.normals.len(), 4);
    assert_eq!(b.uvs, vec![Uv { u: 0, v: 0 }; 4]);
    assert_eq!(b.indices, vec![0, 1, 2, 0, 2, 3]);
}

#[test]
fn boundary_faces_culled_by_padding() {
    // A box that reaches into the padding layer on one side: the face
    // against the padding is culled, because the padding is sampled solid
    // there, not assumed empty.
    let sampler = BoxSampler { n: 2, lo_x: 0, lo_y: 1, lo_z: 1, hi_x: 2, hi_y: 2, hi_z: 2 };
    let lat = sample_lattice(2, &sampler);
    let quads = merge_quads(&lat);
    // No quad faces in the negative x direction: the padding continues the
    // solid there.
    assert!(quads.iter().all(|q| q.dir != FaceDir::XNeg));
    assert!(quads.iter().any(|q| q.dir == FaceDir::XPos));
}
