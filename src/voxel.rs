use vstd::prelude::*;

verus! {

/// The material index that marks a cell as empty (air).
pub const EMPTY_MATERIAL: u8 = 255;

#[verifier::external_type_specification]
#[verifier::external_body]
pub struct ExVoxelVisibility(block_mesh::VoxelVisibility);

/// Whether a voxel hides what lies behind it.
#[derive(Clone, Copy, Debug, PartialEq, Eq, Structural)]
pub enum Visibility {
    Empty,
    Opaque,
}

/// One cell of a voxel grid: a palette material index, or `EMPTY_MATERIAL`.
#[derive(Clone, Copy, Debug, PartialEq, Eq, Structural)]
pub struct PaletteVoxel(pub u8);

impl PaletteVoxel {
    pub open spec fn is_empty_spec(&self) -> bool {
        self.0 == EMPTY_MATERIAL
    }

    pub fn visibility(&self) -> (r: Visibility)
        ensures
            r == (if self.is_empty_spec() { Visibility::Empty } else { Visibility::Opaque }),
    {
        if self.0 == EMPTY_MATERIAL {
            Visibility::Empty
        } else {
            Visibility::Opaque
        }
    }

    /// The value that decides whether two neighbouring faces may be merged.
    pub fn merge_value(&self) -> (r: u8)
        ensures
            r == self.0,
    {
        self.0
    }
}

/// Relies on block_mesh::VoxelVisibility: maps each of our two variants onto
/// the variant of the same name.
#[verifier::external_body]
fn to_block_visibility(v: Visibility) -> block_mesh::VoxelVisibility {
    match v {
        Visibility::Empty => block_mesh::VoxelVisibility::Empty,
        Visibility::Opaque => block_mesh::VoxelVisibility::Opaque,
    }
}

impl block_mesh::Voxel for PaletteVoxel {
    fn get_visibility(&self) -> block_mesh::VoxelVisibility {
        to_block_visibility(self.visibility())
    }
}

impl block_mesh::MergeVoxel for PaletteVoxel {
    type MergeValue = u8;

    fn merge_value(&self) -> u8 {
        self.0
    }
}

} // verus!
