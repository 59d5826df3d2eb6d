//! The voxel type and its meshing capabilities.

use vstd::prelude::*;

verus! {

/// Visibility classification of a voxel: invisible air or a fully opaque
/// cell. This core has no translucency tier.
#[derive(Clone, Copy, PartialEq, Eq, Structural, Debug)]
pub enum VoxelVisibility {
    Empty,
    Opaque,
}

/// The two capabilities a voxel type needs for meshing: a visibility
/// classification (does the cell hide or show faces) and a merge
/// classification (faces of voxels with equal merge values may be coalesced
/// into one rectangle). For the single-bit voxel of this crate the merge
/// value is the voxel itself.
pub trait MeshVoxel: Sized {
    /// What the visibility classification of this voxel is.
    spec fn spec_visibility(&self) -> VoxelVisibility;

    /// What the merge classification of this voxel is.
    spec fn spec_merge_value(&self) -> Self;

    fn get_visibility(&self) -> (v: VoxelVisibility)
        ensures
            v == self.spec_visibility(),
    ;

    fn merge_value(&self) -> (m: Self)
        ensures
            m == self.spec_merge_value(),
    ;
}

/// A single-bit occupancy voxel: `false` is empty space, `true` is solid.
#[derive(Clone, Copy, PartialEq, Eq, Structural, Debug)]
pub struct BoolVoxel(pub bool);

impl BoolVoxel {
    /// Whether this voxel is solid.
    pub open spec fn is_full(self) -> bool {
        self.0
    }

    /// The empty voxel.
    pub fn empty() -> (v: BoolVoxel)
        ensures
            !v.is_full(),
    {
        BoolVoxel(false)
    }

    /// The solid voxel.
    pub fn full() -> (v: BoolVoxel)
        ensures
            v.is_full(),
    {
        BoolVoxel(true)
    }
}

impl MeshVoxel for BoolVoxel {
    open spec fn spec_visibility(&self) -> VoxelVisibility {
        if self.0 {
            VoxelVisibility::Opaque
        } else {
            VoxelVisibility::Empty
        }
    }

    open spec fn spec_merge_value(&self) -> Self {
        *self
    }

    fn get_visibility(&self) -> (v: VoxelVisibility) {
        if self.0 {
            VoxelVisibility::Opaque
        } else {
            VoxelVisibility::Empty
        }
    }

    fn merge_value(&self) -> (m: Self) {
        *self
    }
}

} // verus!
