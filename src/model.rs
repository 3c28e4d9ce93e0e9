use vstd::prelude::*;
use crate::emit::{emit_quads, emitted, faced_prefix, faced_quads, lemma_emitted_lengths, MeshBuffers, Rgba};
use crate::face::Quad;
use crate::grid::{build_padded, padded_material, voxels_in_bounds, RawVoxel, VoxelGrid};
use crate::mesher::{
    greedy_mesh, is_face_cover, is_greedy_cover, lemma_area_count, total_area, visible_faces,
};

verus! {

/// Why a model could not be meshed.
#[derive(Clone, Copy, Debug, PartialEq, Eq, Structural)]
pub enum MeshError {
    /// The palette does not hold exactly 256 colours.
    PaletteSize,
    /// The padded grid would have more cells than a `u32` can count.
    ModelTooLarge,
    /// A voxel lies outside the model's extent.
    VoxelOutOfBounds,
    /// The model has no visible face, so there is nothing to draw.
    EmptyMesh,
    /// The mesh would have more vertices than 32-bit indices can address.
    TooManyVertices,
}

/// An emitted mesh, ready to be handed to a renderer.
#[derive(Debug)]
pub struct MeshData {
    pub buffers: MeshBuffers,
}

impl MeshData {
    pub open spec fn wf(&self) -> bool {
        &&& self.buffers.positions@.len() <= u32::MAX
        &&& self.buffers.indices@.len() / 3 <= u32::MAX
    }

    /// The number of vertices.
    pub fn num_vertices(&self) -> (r: u32)
        requires
            self.wf(),
        ensures
            r == self.buffers.positions@.len(),
    {
        self.buffers.positions.len() as u32
    }

    /// The number of triangles.
    pub fn primitive_count(&self) -> (r: u32)
        requires
            self.wf(),
        ensures
            r == self.buffers.indices@.len() / 3,
    {
        (self.buffers.indices.len() / 3) as u32
    }
}

pub open spec fn padded_volume(size: [u32; 3]) -> int {
    (size[0] + 2) * (size[1] + 2) * (size[2] + 2)
}

/// `g` is the padded grid of a model of extent `size` holding `vs`.
pub open spec fn is_padding_of(g: VoxelGrid, size: [u32; 3], vs: Seq<RawVoxel>) -> bool {
    &&& g.wf()
    &&& g.sx() == size[0] + 2 && g.sy() == size[1] + 2 && g.sz() == size[2] + 2
    &&& forall|x: int, y: int, z: int|
        #![trigger g.cell(x, y, z)]
        g.in_grid(x, y, z) ==> g.cell(x, y, z) == padded_material(vs, x, y, z)
}

/// The number of visible faces of the first `d` orientations.
pub open spec fn visible_upto(g: VoxelGrid, d: int) -> int
    decreases d,
{
    if d <= 0 {
        0
    } else {
        visible_upto(g, d - 1) + visible_faces(g, d - 1).len()
    }
}

/// The number of visible faces of all six orientations.
pub open spec fn total_visible(g: VoxelGrid) -> int {
    visible_upto(g, 6)
}

proof fn lemma_visible_upto_mono(g: VoxelGrid, d1: int, d2: int)
    requires
        0 <= d1 <= d2,
    ensures
        visible_upto(g, d1) <= visible_upto(g, d2),
    decreases d2,
{
    if d1 < d2 {
        lemma_visible_upto_mono(g, d1, d2 - 1);
    }
}

/// Counts the quads of the first `d` groups against the visible faces of
/// those orientations.
proof fn lemma_quads_le_visible(g: VoxelGrid, groups: Seq<Vec<Quad>>, d: int)
    requires
        g.wf(),
        is_greedy_cover(g, groups),
        0 <= d <= 6,
    ensures
        faced_prefix(groups, d).len() <= visible_upto(g, d),
        faced_prefix(groups, d).len() == 0 <==> visible_upto(g, d) == 0,
    decreases d,
{
    if d > 0 {
        lemma_quads_le_visible(g, groups, d - 1);
        let qs = groups[d - 1]@;
        assert(is_face_cover(g, d - 1, qs));
        crate::mesher::lemma_area_equals_visible_faces(g, groups);
        assert(visible_faces(g, d - 1).finite());
        lemma_area_count(qs);
        if qs.len() == 0 {
            assert(total_area(qs) == 0);
        }
    }
}

/// Meshes a model: pads its voxels into a grid, merges the visible faces
/// greedily and emits the vertex and index buffers. The checks come in this
/// order: palette, size, voxel positions, then the mesh itself, which must
/// have a face and fit 32-bit indices.
pub fn mesh_model(size: [u32; 3], voxels: &Vec<RawVoxel>, palette: &Vec<Rgba>) -> (r: Result<
    MeshData,
    MeshError,
>)
    ensures
        r == Err::<MeshData, MeshError>(MeshError::PaletteSize) <==> palette@.len() != 256,
        r == Err::<MeshData, MeshError>(MeshError::ModelTooLarge) <==> palette@.len() == 256
            && padded_volume(size) > u32::MAX,
        r == Err::<MeshData, MeshError>(MeshError::VoxelOutOfBounds) <==> palette@.len() == 256
            && padded_volume(size) <= u32::MAX && !voxels_in_bounds(size, voxels@),
        r == Err::<MeshData, MeshError>(MeshError::EmptyMesh) ==> exists|g: VoxelGrid|
            is_padding_of(g, size, voxels@) && total_visible(g) == 0,
        r == Err::<MeshData, MeshError>(MeshError::TooManyVertices) ==> exists|g: VoxelGrid|
            is_padding_of(g, size, voxels@) && 4 * total_visible(g) > u32::MAX,
        r is Ok ==> palette@.len() == 256 && padded_volume(size) <= u32::MAX && voxels_in_bounds(
            size,
            voxels@,
        ) && r->Ok_0.wf() && exists|g: VoxelGrid, groups: Seq<Vec<Quad>>|
            is_padding_of(g, size, voxels@) && is_greedy_cover(g, groups) && 0 < faced_quads(
                groups,
            ).len() && emitted(r->Ok_0.buffers, g, palette@, faced_quads(groups)),
{
    if palette.len() != 256 {
        return Err(MeshError::PaletteSize);
    }
    proof {
        let (a, b, c) = (size[0] + 2, size[1] + 2, size[2] + 2);
        assert(a * b <= 0x2_0000_0000 * 0x2_0000_0000) by (nonlinear_arith)
            requires 0 <= a <= 0x2_0000_0000, 0 <= b <= 0x2_0000_0000;
        assert(a * b * c <= 0x2_0000_0000 * 0x2_0000_0000 * 0x2_0000_0000) by (nonlinear_arith)
            requires 0 <= a * b <= 0x2_0000_0000 * 0x2_0000_0000, 0 <= c <= 0x2_0000_0000;
    }
    let volume: u128 = (size[0] as u128 + 2) * (size[1] as u128 + 2) * (size[2] as u128 + 2);
    if volume > u32::MAX as u128 {
        return Err(MeshError::ModelTooLarge);
    }
    let mut k: usize = 0;
    while k < voxels.len()
        invariant
            k <= voxels@.len(),
            palette@.len() == 256,
            padded_volume(size) <= u32::MAX,
            forall|k2: int|
                0 <= k2 < k ==> (#[trigger] voxels@[k2].x as int) < size[0] && (voxels@[k2].y as int)
                    < size[1] && (voxels@[k2].z as int) < size[2],
        decreases voxels@.len() - k,
    {
        let v = voxels[k];
        if v.x as u32 >= size[0] || v.y as u32 >= size[1] || v.z as u32 >= size[2] {
            return Err(MeshError::VoxelOutOfBounds);
        }
        k = k + 1;
    }
    assert(voxels_in_bounds(size, voxels@));
    let g = build_padded(size, voxels);
    assert(is_padding_of(g, size, voxels@));
    let groups = greedy_mesh(&g);
    let ghost gs = groups@;
    let mut count: u64 = 0;
    let mut d: usize = 0;
    while d < 6
        invariant
            d <= 6,
            gs == groups@,
            g.wf(),
            is_greedy_cover(g, gs),
            count == faced_prefix(gs, d as int).len(),
            count <= visible_upto(g, d as int),
            count <= u32::MAX as u64 * d as u64,
            is_padding_of(g, size, voxels@),
            palette@.len() == 256,
            padded_volume(size) <= u32::MAX,
            voxels_in_bounds(size, voxels@),
        decreases 6 - d,
    {
        proof {
            lemma_quads_le_visible(g, gs, d as int + 1);
            lemma_visible_upto_mono(g, d as int + 1, 6);
        }
        if groups[d].len() as u64 > u32::MAX as u64 {
            assert(is_padding_of(g, size, voxels@));
            return Err(MeshError::TooManyVertices);
        }
        count = count + groups[d].len() as u64;
        d = d + 1;
    }
    proof {
        lemma_quads_le_visible(g, gs, 6);
    }
    assert(is_padding_of(g, size, voxels@));
    if count > (u32::MAX / 4) as u64 {
        return Err(MeshError::TooManyVertices);
    }
    if count == 0 {
        assert(total_visible(g) == 0);
        return Err(MeshError::EmptyMesh);
    }
    proof {
        assert forall|d: int, i: int|
            0 <= d < gs.len() && 0 <= i < gs[d]@.len() implies g.in_grid(
            #[trigger] gs[d]@[i].minimum[0] as int,
            gs[d]@[i].minimum[1] as int,
            gs[d]@[i].minimum[2] as int,
        ) by {
            assert(is_face_cover(g, d, gs[d]@));
            assert(crate::face::covers(gs[d]@[i], d, gs[d]@[i].minimum_point()));
        }
    }
    let buffers = emit_quads(&g, &groups, palette);
    proof {
        lemma_emitted_lengths(buffers, g, palette@, faced_quads(gs));
    }
    assert(is_padding_of(g, size, voxels@) && is_greedy_cover(g, gs) && 0 < faced_quads(gs).len()
        && emitted(buffers, g, palette@, faced_quads(gs)));
    Ok(MeshData { buffers })
}

} // verus!
