//! Greedy meshing of palette voxel models.
//!
//! A model's voxels are copied into a grid with a one-cell empty border
//! (`grid`), the visible faces of each of the six orientations are merged into
//! rectangles (`mesher`), and the rectangles are turned into vertex and index
//! buffers (`emit`). `model` chains the three and holds the resulting mesh.
pub mod emit;
pub mod face;
pub mod grid;
pub mod mesher;
pub mod model;
pub mod voxel;

pub use emit::{emit_quads, face_vertex_color, MeshBuffers, Rgba};
pub use face::{quad_corner, quad_normal, quad_tex_coord, quad_triangle_indices, Quad};
pub use grid::{build_padded, RawVoxel, VoxelGrid};
pub use mesher::greedy_mesh;
pub use model::{mesh_model, MeshData, MeshError};
pub use voxel::{PaletteVoxel, Visibility, EMPTY_MATERIAL};
