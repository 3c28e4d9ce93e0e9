use voxmesh::{
    build_padded, emit_quads, face_vertex_color, greedy_mesh, mesh_model, quad_corner, quad_normal,
    quad_tex_coord, quad_triangle_indices, MeshError, PaletteVoxel, Quad, RawVoxel, Rgba,
    Visibility, VoxelGrid, EMPTY_MATERIAL,
};

fn palette() -> Vec<Rgba> {
    (0..256u32)
        .map(|i| Rgba { r: i as u8, g: (i * 3) as u8, b: (i * 7) as u8, a: 255 - i as u8 })
        .collect()
}

fn vox(x: u8, y: u8, z: u8, i: u8) -> RawVoxel {
    RawVoxel { x, y, z, i }
}

fn cell(g: &VoxelGrid, x: u32, y: u32, z: u32) -> u8 {
    g.cells[(x + g.dims[0] * (y + g.dims[1] * z)) as usize].0
}

fn normal_axis(d: usize) -> usize {
    d % 3
}

fn uv_axes(d: usize) -> (usize, usize) {
    match d % 3 {
        0 => (2, 1),
        1 => (2, 0),
        _ => (0, 1),
    }
}

fn covered_cells(d: usize, q: &Quad) -> Vec<[u32; 3]> {
    let (u, v) = uv_axes(d);
    let mut out = Vec::new();
    for a in 0..q.width {
        for b in 0..q.height {
            let mut p = q.minimum;
            p[u] += a;
            p[v] += b;
            out.push(p);
        }
    }
    out
}

fn visible(g: &VoxelGrid, d: usize, p: [u32; 3]) -> bool {
    let n = normal_axis(d);
    let mut q = p;
    if d >= 3 {
        q[n] += 1;
    } else {
        q[n] -= 1;
    }
    cell(g, p[0], p[1], p[2]) != EMPTY_MATERIAL && cell(g, q[0], q[1], q[2]) == EMPTY_MATERIAL
}

fn brute_force_visible(g: &VoxelGrid, d: usize) -> u32 {
    let mut count = 0;
    for z in 1..g.dims[2] - 1 {
        for y in 1..g.dims[1] - 1 {
            for x in 1..g.dims[0] - 1 {
                if visible(g, d, [x, y, z]) {
                    count += 1;
                }
            }
        }
    }
    count
}

fn scattered_model() -> (Vec<RawVoxel>, [u32; 3]) {
    let mut vs = Vec::new();
    for x in 0..5u8 {
        for y in 0..4u8 {
            for z in 0..3u8 {
                let h = (x as u32 * 7 + y as u32 * 13 + z as u32 * 5) % 5;
                if h != 0 {
                    vs.push(vox(x, y, z, (h % 3) as u8));
                }
            }
        }
    }
    (vs, [5, 4, 3])
}

#[test]
fn padding_places_voxels_one_cell_in() {
    let g = build_padded([2, 3, 1], &vec![vox(0, 0, 0, 4), vox(1, 2, 0, 9)]);
    assert_eq!(g.dims, [4, 5, 3]);
    assert_eq!(g.cells.len(), 60);
    assert_eq!(cell(&g, 1, 1, 1), 4);
    assert_eq!(cell(&g, 2, 3, 1), 9);
    let solid = g.cells.iter().filter(|c| c.0 != EMPTY_MATERIAL).count();
    assert_eq!(solid, 2);
}

#[test]
fn padding_keeps_last_write() {
    let g = build_padded([1, 1, 1], &vec![vox(0, 0, 0, 4), vox(0, 0, 0, 6)]);
    assert_eq!(cell(&g, 1, 1, 1), 6);
}

#[test]
fn padding_border_is_empty() {
    let mut vs = Vec::new();
    for x in 0..3u8 {
        for y in 0..3u8 {
            for z in 0..3u8 {
                vs.push(vox(x, y, z, 1));
            }
        }
    }
    let g = build_padded([3, 3, 3], &vs);
    for z in 0..5 {
        for y in 0..5 {
            for x in 0..5 {
                let border = x == 0 || y == 0 || z == 0 || x == 4 || y == 4 || z == 4;
                assert_eq!(cell(&g, x, y, z) == EMPTY_MATERIAL, border);
            }
        }
    }
}

#[test]
fn voxel_visibility_and_merge_value() {
    assert_eq!(PaletteVoxel(EMPTY_MATERIAL).visibility(), Visibility::Empty);
    assert_eq!(PaletteVoxel(0).visibility(), Visibility::Opaque);
    assert_eq!(PaletteVoxel(254).visibility(), Visibility::Opaque);
    assert_eq!(PaletteVoxel(17).merge_value(), 17);
}

#[test]
fn single_voxel_gives_six_unit_quads() {
    let g = build_padded([3, 3, 3], &vec![vox(1, 1, 1, 42)]);
    let groups = greedy_mesh(&g);
    assert_eq!(groups.len(), 6);
    for group in &groups {
        assert_eq!(group.len(), 1);
        assert_eq!(group[0].minimum, [2, 2, 2]);
        assert_eq!((group[0].width, group[0].height), (1, 1));
    }
    let pal = palette();
    let mesh = mesh_model([3, 3, 3], &vec![vox(1, 1, 1, 42)], &pal).unwrap();
    let c = pal[42];
    assert_eq!(mesh.buffers.colors.len(), 24);
    for color in &mesh.buffers.colors {
        assert_eq!(*color, (c.b, c.g, c.r, c.a));
    }
    assert_eq!(mesh.num_vertices(), 24);
    assert_eq!(mesh.primitive_count(), 12);
}

#[test]
fn same_material_pair_merges_side_faces() {
    let g = build_padded([2, 1, 1], &vec![vox(0, 0, 0, 3), vox(1, 0, 0, 3)]);
    let groups = greedy_mesh(&g);
    // end caps: one unit quad on each x face
    assert_eq!(groups[0], vec![Quad { minimum: [1, 1, 1], width: 1, height: 1 }]);
    assert_eq!(groups[3], vec![Quad { minimum: [2, 1, 1], width: 1, height: 1 }]);
    let mut area = 0;
    for d in 0..6 {
        if d % 3 != 0 {
            assert_eq!(groups[d].len(), 1);
            assert_eq!(groups[d][0].width * groups[d][0].height, 2);
        }
        area += groups[d].iter().map(|q| q.width * q.height).sum::<u32>();
    }
    assert_eq!(area, 10);
    assert_eq!(groups.iter().map(|g| g.len()).sum::<usize>(), 6);
}

#[test]
fn different_material_pair_does_not_merge() {
    let g = build_padded([2, 1, 1], &vec![vox(0, 0, 0, 3), vox(1, 0, 0, 4)]);
    let groups = greedy_mesh(&g);
    assert_eq!(groups[0].len(), 1);
    assert_eq!(groups[3].len(), 1);
    for d in [1, 2, 4, 5] {
        assert_eq!(groups[d].len(), 2);
        for q in &groups[d] {
            assert_eq!((q.width, q.height), (1, 1));
        }
    }
    assert_eq!(groups.iter().map(|g| g.len()).sum::<usize>(), 10);
}

#[test]
fn quad_area_matches_brute_force_count() {
    let (vs, size) = scattered_model();
    let g = build_padded(size, &vs);
    let groups = greedy_mesh(&g);
    for d in 0..6 {
        let area: u32 = groups[d].iter().map(|q| q.width * q.height).sum();
        assert_eq!(area, brute_force_visible(&g, d));
    }
}

#[test]
fn quads_are_uniform_and_disjoint() {
    let (vs, size) = scattered_model();
    let g = build_padded(size, &vs);
    let groups = greedy_mesh(&g);
    for d in 0..6 {
        let mut seen = std::collections::HashSet::new();
        for q in &groups[d] {
            let m = cell(&g, q.minimum[0], q.minimum[1], q.minimum[2]);
            for p in covered_cells(d, q) {
                assert!(visible(&g, d, p));
                assert_eq!(cell(&g, p[0], p[1], p[2]), m);
                assert!(seen.insert(p));
            }
        }
    }
}

#[test]
fn emitted_arrays_have_matching_lengths() {
    let (vs, size) = scattered_model();
    let mesh = mesh_model(size, &vs, &palette()).unwrap();
    let b = &mesh.buffers;
    assert_eq!(b.positions.len(), b.normals.len());
    assert_eq!(b.positions.len(), b.colors.len());
    assert_eq!(b.positions.len(), b.uvs.len());
    assert_eq!(b.positions.len() % 4, 0);
    assert_eq!(b.indices.len() * 2, b.positions.len() * 3);
    assert!(b.indices.iter().all(|&i| (i as usize) < b.positions.len()));
}

#[test]
fn empty_grid_gives_nothing() {
    let g = build_padded([4, 4, 4], &Vec::new());
    let groups = greedy_mesh(&g);
    assert!(groups.iter().all(|q| q.is_empty()));
    let b = emit_quads(&g, &groups, &palette());
    assert!(b.positions.is_empty());
    assert!(b.normals.is_empty());
    assert!(b.colors.is_empty());
    assert!(b.uvs.is_empty());
    assert!(b.indices.is_empty());
    let voxels = vec![vox(0, 0, 0, EMPTY_MATERIAL)];
    assert_eq!(mesh_model([4, 4, 4], &voxels, &palette()).err(), Some(MeshError::EmptyMesh));
}

#[test]
fn single_voxel_geometry() {
    let b = mesh_model([1, 1, 1], &vec![vox(0, 0, 0, 5)], &palette()).unwrap().buffers;
    // -X face first: corners at x = 0, spanning z (u) and y (v)
    assert_eq!(&b.positions[0..4], &[(0, 0, 0), (0, 0, 1), (0, 1, 0), (0, 1, 1)]);
    assert_eq!(&b.normals[0..4], &[(-1, 0, 0); 4]);
    assert_eq!(&b.uvs[0..4], &[(0, 0), (1, 0), (0, 1), (1, 1)]);
    assert_eq!(&b.indices[0..6], &[0, 1, 2, 1, 3, 2]);
    // -Y face: corners at y = 0, spanning z (u) and x (v); wound the other way
    assert_eq!(&b.positions[4..8], &[(0, 0, 0), (0, 0, 1), (1, 0, 0), (1, 0, 1)]);
    assert_eq!(&b.normals[4..8], &[(0, -1, 0); 4]);
    assert_eq!(&b.uvs[4..8], &[(1, 0), (0, 0), (1, 1), (0, 1)]);
    assert_eq!(&b.indices[6..12], &[4, 6, 5, 5, 6, 7]);
    // +X face lies on the far side of the voxel
    assert_eq!(&b.positions[12..16], &[(1, 0, 0), (1, 0, 1), (1, 1, 0), (1, 1, 1)]);
    assert_eq!(&b.normals[12..16], &[(1, 0, 0); 4]);
    assert_eq!(&b.uvs[12..16], &[(1, 0), (0, 0), (1, 1), (0, 1)]);
}

#[test]
fn merged_quad_geometry() {
    let q = Quad { minimum: [3, 1, 2], width: 4, height: 2 };
    assert_eq!(quad_corner(2, &q, 0), (3, 1, 2));
    assert_eq!(quad_corner(2, &q, 3), (7, 3, 2));
    assert_eq!(quad_corner(5, &q, 1), (7, 1, 3));
    assert_eq!(quad_normal(5), (0, 0, 1));
    assert_eq!(quad_normal(1), (0, -1, 0));
    assert_eq!(quad_tex_coord(5, &q, 1, 0), (4, 0));
    assert_eq!(quad_tex_coord(5, &q, 2, 0), (0, 2));
    assert_eq!(quad_tex_coord(2, &q, 0, 0), (4, 0));
}

#[test]
fn triangle_indices_follow_winding() {
    assert_eq!(quad_triangle_indices(0, 8), [8, 9, 10, 9, 11, 10]);
    assert_eq!(quad_triangle_indices(1, 8), [8, 10, 9, 9, 10, 11]);
    assert_eq!(quad_triangle_indices(3, 4), [4, 6, 5, 5, 6, 7]);
    assert_eq!(quad_triangle_indices(5, 4), [4, 5, 6, 5, 7, 6]);
}

#[test]
fn vertex_color_is_bgra() {
    let c = Rgba { r: 1, g: 2, b: 3, a: 4 };
    assert_eq!(face_vertex_color(&c), (3, 2, 1, 4));
}

#[test]
fn palette_must_hold_256_colors() {
    let short: Vec<Rgba> = palette().into_iter().take(255).collect();
    assert_eq!(
        mesh_model([1, 1, 1], &vec![vox(0, 0, 0, 1)], &short).err(),
        Some(MeshError::PaletteSize)
    );
}

#[test]
fn oversized_model_is_refused() {
    assert_eq!(
        mesh_model([2000, 2000, 2000], &Vec::new(), &palette()).err(),
        Some(MeshError::ModelTooLarge)
    );
}

#[test]
fn voxel_outside_extent_is_refused() {
    assert_eq!(
        mesh_model([2, 2, 2], &vec![vox(0, 0, 0, 1), vox(0, 2, 0, 1)], &palette()).err(),
        Some(MeshError::VoxelOutOfBounds)
    );
}

fn scan_key(d: usize, p: [u32; 3]) -> (u32, u32, u32, u32) {
    (p[normal_axis(d)], p[2], p[1], p[0])
}

fn covered_by_earlier(d: usize, quads: &[Quad], i: usize, c: [u32; 3]) -> bool {
    quads[..i].iter().any(|q| covered_cells(d, q).contains(&c))
}

fn joinable(g: &VoxelGrid, d: usize, quads: &[Quad], i: usize, c: [u32; 3]) -> bool {
    let m = quads[i].minimum;
    visible(g, d, c)
        && cell(g, c[0], c[1], c[2]) == cell(g, m[0], m[1], m[2])
        && !covered_by_earlier(d, quads, i, c)
}

#[test]
fn quads_come_in_scan_order_and_stop_for_a_reason() {
    let (vs, size) = scattered_model();
    let g = build_padded(size, &vs);
    let groups = greedy_mesh(&g);
    for d in 0..6 {
        let quads = &groups[d];
        let (u, v) = uv_axes(d);
        for i in 0..quads.len() {
            if i + 1 < quads.len() {
                assert!(scan_key(d, quads[i].minimum) < scan_key(d, quads[i + 1].minimum));
            }
            let q = quads[i];
            if q.minimum[u] + q.width < g.dims[u] - 1 {
                let mut c = q.minimum;
                c[u] += q.width;
                assert!(!joinable(&g, d, quads, i, c));
            }
            if q.minimum[v] + q.height < g.dims[v] - 1 {
                let blocked = (0..q.width).any(|t| {
                    let mut c = q.minimum;
                    c[u] += t;
                    c[v] += q.height;
                    !joinable(&g, d, quads, i, c)
                });
                assert!(blocked);
            }
        }
    }
}

#[test]
fn pairs_along_each_axis() {
    for ax in 0..3 {
        let mut size = [3u32, 3, 3];
        size[ax] = 4;
        let mut second = [1u8, 1, 1];
        second[ax] = 2;
        let same = vec![vox(1, 1, 1, 8), vox(second[0], second[1], second[2], 8)];
        let g = build_padded(size, &same);
        let groups = greedy_mesh(&g);
        for d in 0..6 {
            if normal_axis(d) == ax {
                assert_eq!(groups[d].len(), 1);
                assert_eq!((groups[d][0].width, groups[d][0].height), (1, 1));
            } else {
                assert_eq!(groups[d].len(), 1);
                assert_eq!(groups[d][0].width * groups[d][0].height, 2);
            }
        }
        let different = vec![vox(1, 1, 1, 8), vox(second[0], second[1], second[2], 9)];
        let g = build_padded(size, &different);
        let groups = greedy_mesh(&g);
        let total: usize = groups.iter().map(|q| q.len()).sum();
        assert_eq!(total, 10);
        assert!(groups.iter().flatten().all(|q| q.width == 1 && q.height == 1));
    }
}
