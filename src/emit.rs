use vstd::prelude::*;
use crate::face::{
    corner, normal, quad_corner, quad_normal, quad_tex_coord, quad_triangle_indices, tex_coord,
    triangle_indices, valid_face, Quad,
};
use crate::grid::VoxelGrid;
use crate::mesher::{
    all_empty, in_interior, is_greedy_cover, lemma_empty_grid_has_no_quads, lemma_single_voxel_quads,
    solid_exactly,
};

verus! {

/// A palette colour as the model file stores it.
#[derive(Clone, Copy, Debug, PartialEq, Eq)]
pub struct Rgba {
    pub r: u8,
    pub g: u8,
    pub b: u8,
    pub a: u8,
}

/// The rasterizer reads vertex colours as bytes B, G, R, A.
pub open spec fn bgra(c: Rgba) -> (u8, u8, u8, u8) {
    (c.b, c.g, c.r, c.a)
}

/// The vertex colour bytes of a palette colour.
pub fn face_vertex_color(c: &Rgba) -> (r: (u8, u8, u8, u8))
    ensures
        r == bgra(*c),
{
    (c.b, c.g, c.r, c.a)
}

/// Faces along this axis (x) have their texture mirrored in u, so that
/// textures read the same way round on every side of a right-handed, y-up
/// model.
pub const U_FLIP_AXIS: usize = 0;

/// Parallel vertex attribute arrays and a triangle list over them. Vertex
/// positions are in model units: one voxel is one unit, and the model's first
/// voxel has its lowest corner at the origin.
#[derive(Debug)]
pub struct MeshBuffers {
    pub positions: Vec<(i64, i64, i64)>,
    pub normals: Vec<(i8, i8, i8)>,
    pub colors: Vec<(u8, u8, u8, u8)>,
    pub uvs: Vec<(u32, u32)>,
    pub indices: Vec<u32>,
}

/// The quads of the first `d` groups, each tagged with its group's face.
pub open spec fn faced_prefix(groups: Seq<Vec<Quad>>, d: int) -> Seq<(int, Quad)>
    decreases d,
{
    if d <= 0 {
        Seq::empty()
    } else {
        faced_prefix(groups, d - 1) + groups[d - 1]@.map_values(|q: Quad| (d - 1, q))
    }
}

/// Every quad of `groups`, in emission order, tagged with its face.
pub open spec fn faced_quads(groups: Seq<Vec<Quad>>) -> Seq<(int, Quad)> {
    faced_prefix(groups, groups.len() as int)
}

/// The concatenation of `f(k, fs[k])` over all k.
pub open spec fn flat_map<T>(fs: Seq<(int, Quad)>, f: spec_fn(int, (int, Quad)) -> Seq<T>) -> Seq<
    T,
>
    decreases fs.len(),
{
    if fs.len() == 0 {
        Seq::empty()
    } else {
        flat_map(fs.drop_last(), f) + f(fs.len() - 1, fs.last())
    }
}

/// A corner moved back by the one cell of padding on every axis.
pub open spec fn model_position(c: (int, int, int)) -> (i64, i64, i64) {
    ((c.0 - 1) as i64, (c.1 - 1) as i64, (c.2 - 1) as i64)
}

pub open spec fn quad_positions(k: int, f: (int, Quad)) -> Seq<(i64, i64, i64)> {
    Seq::new(4, |j: int| model_position(corner(f.0, f.1, j)))
}

pub open spec fn quad_normals(k: int, f: (int, Quad)) -> Seq<(i8, i8, i8)> {
    let n = normal(f.0);
    Seq::new(4, |j: int| (n.0 as i8, n.1 as i8, n.2 as i8))
}

pub open spec fn quad_colors(g: VoxelGrid, palette: Seq<Rgba>, f: (int, Quad)) -> Seq<
    (u8, u8, u8, u8),
> {
    let m = g.cell(f.1.minimum[0] as int, f.1.minimum[1] as int, f.1.minimum[2] as int);
    Seq::new(4, |j: int| bgra(palette[m as int]))
}

pub open spec fn quad_uvs(k: int, f: (int, Quad)) -> Seq<(u32, u32)> {
    Seq::new(
        4,
        |j: int|
            {
                let t = tex_coord(f.0, f.1, j, U_FLIP_AXIS as int);
                (t.0 as u32, t.1 as u32)
            },
    )
}

/// The triangles of the `k`-th quad, whose corners are vertices 4k to 4k + 3.
pub open spec fn quad_indices(k: int, f: (int, Quad)) -> Seq<u32> {
    Seq::new(6, |t: int| triangle_indices(f.0, 4 * k)[t] as u32)
}

/// Every quad of the groups lies on a cell of the grid.
pub open spec fn quads_in_grid(g: VoxelGrid, groups: Seq<Vec<Quad>>) -> bool {
    forall|d: int, i: int|
        0 <= d < groups.len() && 0 <= i < groups[d]@.len() ==> g.in_grid(
            #[trigger] groups[d]@[i].minimum[0] as int,
            groups[d]@[i].minimum[1] as int,
            groups[d]@[i].minimum[2] as int,
        )
}

/// The buffers that `emit_quads` makes of the tagged quads `fs`.
pub open spec fn emitted(m: MeshBuffers, g: VoxelGrid, palette: Seq<Rgba>, fs: Seq<(int, Quad)>) -> bool {
    &&& m.positions@ == flat_map(fs, |k: int, f: (int, Quad)| quad_positions(k, f))
    &&& m.normals@ == flat_map(fs, |k: int, f: (int, Quad)| quad_normals(k, f))
    &&& m.colors@ == flat_map(fs, |k: int, f: (int, Quad)| quad_colors(g, palette, f))
    &&& m.uvs@ == flat_map(fs, |k: int, f: (int, Quad)| quad_uvs(k, f))
    &&& m.indices@ == flat_map(fs, |k: int, f: (int, Quad)| quad_indices(k, f))
}

proof fn lemma_flat_map_len<T>(fs: Seq<(int, Quad)>, f: spec_fn(int, (int, Quad)) -> Seq<T>, c: int)
    requires
        forall|k: int, x: (int, Quad)| #[trigger] f(k, x).len() == c,
    ensures
        flat_map(fs, f).len() == c * fs.len(),
    decreases fs.len(),
{
    if fs.len() > 0 {
        lemma_flat_map_len(fs.drop_last(), f, c);
        let n = fs.len() as int;
        assert(c * (n - 1) + c == c * n) by (nonlinear_arith);
    }
}

proof fn lemma_prefix_len(groups: Seq<Vec<Quad>>, d1: int, d2: int)
    requires
        0 <= d1 <= d2 <= groups.len(),
    ensures
        faced_prefix(groups, d1).len() <= faced_prefix(groups, d2).len(),
    decreases d2,
{
    if d1 < d2 {
        lemma_prefix_len(groups, d1, d2 - 1);
    }
}

/// All four attribute arrays of an emitted mesh have one entry per vertex,
/// four per quad, and the triangle list has six indices per quad.
pub proof fn lemma_emitted_lengths(
    m: MeshBuffers,
    g: VoxelGrid,
    palette: Seq<Rgba>,
    fs: Seq<(int, Quad)>,
)
    requires
        emitted(m, g, palette, fs),
    ensures
        m.positions@.len() == 4 * fs.len(),
        m.normals@.len() == m.positions@.len(),
        m.colors@.len() == m.positions@.len(),
        m.uvs@.len() == m.positions@.len(),
        m.indices@.len() == 6 * fs.len(),
        2 * m.indices@.len() == 3 * m.positions@.len(),
{
    lemma_flat_map_len(fs, |k: int, f: (int, Quad)| quad_positions(k, f), 4);
    lemma_flat_map_len(fs, |k: int, f: (int, Quad)| quad_normals(k, f), 4);
    lemma_flat_map_len(fs, |k: int, f: (int, Quad)| quad_colors(g, palette, f), 4);
    lemma_flat_map_len(fs, |k: int, f: (int, Quad)| quad_uvs(k, f), 4);
    lemma_flat_map_len(fs, |k: int, f: (int, Quad)| quad_indices(k, f), 6);
}

/// Turns quads grouped by face (-X, -Y, -Z, +X, +Y, +Z) into vertex and index
/// buffers: four vertices per quad at its corners, shifted back by the
/// padding, with the face's normal, the BGRA colour of the material at the
/// quad's minimum cell, and one texel per cell; and two triangles per quad.
pub fn emit_quads(g: &VoxelGrid, groups: &Vec<Vec<Quad>>, palette: &Vec<Rgba>) -> (m: MeshBuffers)
    requires
        g.wf(),
        groups@.len() == 6,
        palette@.len() == 256,
        quads_in_grid(*g, groups@),
        4 * faced_quads(groups@).len() <= u32::MAX,
    ensures
        emitted(m, *g, palette@, faced_quads(groups@)),
        m.positions@.len() == 4 * faced_quads(groups@).len(),
        m.normals@.len() == m.positions@.len(),
        m.colors@.len() == m.positions@.len(),
        m.uvs@.len() == m.positions@.len(),
        m.indices@.len() == 6 * faced_quads(groups@).len(),
{
    let mut m = MeshBuffers {
        positions: Vec::new(),
        normals: Vec::new(),
        colors: Vec::new(),
        uvs: Vec::new(),
        indices: Vec::new(),
    };
    let ghost gs = groups@;
    let ghost pal = palette@;
    let mut count: u32 = 0;
    let mut d: usize = 0;
    assert(faced_prefix(gs, 0) =~= Seq::<(int, Quad)>::empty());
    while d < 6
        invariant
            d <= 6,
            gs == groups@,
            gs.len() == 6,
            pal == palette@,
            pal.len() == 256,
            g.wf(),
            quads_in_grid(*g, gs),
            4 * faced_quads(gs).len() <= u32::MAX,
            count == faced_prefix(gs, d as int).len(),
            emitted(m, *g, pal, faced_prefix(gs, d as int)),
        decreases 6 - d,
    {
        let group = &groups[d];
        let mut i: usize = 0;
        proof {
            lemma_prefix_len(gs, d as int + 1, 6);
            assert(gs[d as int]@.take(0).map_values(|q: Quad| (d as int, q)) =~= Seq::empty());
            assert(faced_prefix(gs, d as int) + gs[d as int]@.take(0).map_values(
                |q: Quad| (d as int, q),
            ) =~= faced_prefix(gs, d as int));
        }
        while i < group.len()
            invariant
                d < 6,
                i <= group@.len(),
                group@ == gs[d as int]@,
                gs == groups@,
                gs.len() == 6,
                pal == palette@,
                pal.len() == 256,
                g.wf(),
                quads_in_grid(*g, gs),
                4 * faced_quads(gs).len() <= u32::MAX,
                faced_prefix(gs, d as int + 1).len() <= faced_quads(gs).len(),
                count == faced_prefix(gs, d as int).len() + i,
                emitted(
                    m,
                    *g,
                    pal,
                    faced_prefix(gs, d as int) + gs[d as int]@.take(i as int).map_values(
                        |q: Quad| (d as int, q),
                    ),
                ),
            decreases group@.len() - i,
        {
            let q = group[i];
            let ghost done = faced_prefix(gs, d as int) + gs[d as int]@.take(i as int).map_values(
                |q: Quad| (d as int, q),
            );
            let ghost next = faced_prefix(gs, d as int) + gs[d as int]@.take(i as int + 1).map_values(
                |q: Quad| (d as int, q),
            );
            proof {
                assert(next.drop_last() =~= done);
                assert(next.last() == (d as int, q));
                assert(done.len() == count);
                assert(g.in_grid(q.minimum[0] as int, q.minimum[1] as int, q.minimum[2] as int)) by {
                    assert(gs[d as int]@[i as int] == q);
                }
            }
            let start: u32 = count * 4;
            let mut j: usize = 0;
            while j < 4
                invariant
                    j <= 4,
                    d < 6,
                    // the vertices of this quad written so far
                    m.positions@ == flat_map(done, |k: int, f: (int, Quad)| quad_positions(k, f))
                        + quad_positions(done.len() as int, (d as int, q)).take(j as int),
                    m.normals@ == flat_map(done, |k: int, f: (int, Quad)| quad_normals(k, f))
                        + quad_normals(done.len() as int, (d as int, q)).take(j as int),
                    m.uvs@ == flat_map(done, |k: int, f: (int, Quad)| quad_uvs(k, f))
                        + quad_uvs(done.len() as int, (d as int, q)).take(j as int),
                    m.colors@ == flat_map(done, |k: int, f: (int, Quad)| quad_colors(*g, pal, f)),
                    m.indices@ == flat_map(done, |k: int, f: (int, Quad)| quad_indices(k, f)),
                decreases 4 - j,
            {
                let c = quad_corner(d, &q, j);
                m.positions.push((c.0 - 1, c.1 - 1, c.2 - 1));
                m.normals.push(quad_normal(d));
                m.uvs.push(quad_tex_coord(d, &q, j, U_FLIP_AXIS));
                j = j + 1;
            }
            let material = g.get(q.minimum[0], q.minimum[1], q.minimum[2]);
            let color = face_vertex_color(&palette[material.0 as usize]);
            m.colors.push(color);
            m.colors.push(color);
            m.colors.push(color);
            m.colors.push(color);
            proof {
                assert(quad_positions(done.len() as int, (d as int, q)).take(4)
                    =~= quad_positions(done.len() as int, (d as int, q)));
                assert(quad_normals(done.len() as int, (d as int, q)).take(4)
                    =~= quad_normals(done.len() as int, (d as int, q)));
                assert(quad_uvs(done.len() as int, (d as int, q)).take(4)
                    =~= quad_uvs(done.len() as int, (d as int, q)));
                assert(quad_indices(done.len() as int, (d as int, q)).take(0) =~= Seq::empty());
            }
            let tri = quad_triangle_indices(d, start);
            let mut t: usize = 0;
            while t < 6
                invariant
                    t <= 6,
                    m.indices@ == flat_map(done, |k: int, f: (int, Quad)| quad_indices(k, f))
                        + quad_indices(done.len() as int, (d as int, q)).take(t as int),
                    m.positions@ == flat_map(done, |k: int, f: (int, Quad)| quad_positions(k, f))
                        + quad_positions(done.len() as int, (d as int, q)),
                    m.normals@ == flat_map(done, |k: int, f: (int, Quad)| quad_normals(k, f))
                        + quad_normals(done.len() as int, (d as int, q)),
                    m.uvs@ == flat_map(done, |k: int, f: (int, Quad)| quad_uvs(k, f))
                        + quad_uvs(done.len() as int, (d as int, q)),
                    m.colors@ =~= flat_map(done, |k: int, f: (int, Quad)| quad_colors(*g, pal, f))
                        + quad_colors(*g, pal, (d as int, q)),
                    forall|s: int| 0 <= s < 6 ==> tri[s] as int == triangle_indices(d as int, start as int)[s],
                    start == 4 * done.len(),
                decreases 6 - t,
            {
                m.indices.push(tri[t]);
                t = t + 1;
            }
            proof {
                assert(quad_indices(done.len() as int, (d as int, q)).take(6)
                    =~= quad_indices(done.len() as int, (d as int, q)));
            }
            count = count + 1;
            i = i + 1;
        }
        proof {
            assert(gs[d as int]@.take(i as int) =~= gs[d as int]@);
        }
        d = d + 1;
    }
    proof {
        lemma_emitted_lengths(m, *g, pal, faced_quads(gs));
    }
    m
}

/// An all-empty grid yields no vertices and no indices: whatever cover of
/// it is emitted holds no quad.
pub proof fn lemma_empty_grid_emits_nothing(
    g: VoxelGrid,
    groups: Seq<Vec<Quad>>,
    palette: Seq<Rgba>,
    m: MeshBuffers,
)
    requires
        g.wf(),
        all_empty(g),
        is_greedy_cover(g, groups),
        emitted(m, g, palette, faced_quads(groups)),
    ensures
        faced_quads(groups).len() == 0,
        m.positions@.len() == 0,
        m.normals@.len() == 0,
        m.colors@.len() == 0,
        m.uvs@.len() == 0,
        m.indices@.len() == 0,
{
    lemma_empty_grid_has_no_quads(g, groups);
    lemma_prefix_empty(groups, 6);
    lemma_emitted_lengths(m, g, palette, faced_quads(groups));
}

proof fn lemma_prefix_empty(groups: Seq<Vec<Quad>>, d: int)
    requires
        0 <= d <= groups.len(),
        forall|e: int| 0 <= e < d ==> (#[trigger] groups[e]@).len() == 0,
    ensures
        faced_prefix(groups, d).len() == 0,
    decreases d,
{
    if d > 0 {
        lemma_prefix_empty(groups, d - 1);
    }
}

proof fn lemma_flat_map_const<T>(fs: Seq<(int, Quad)>, f: spec_fn(int, (int, Quad)) -> Seq<T>, c: T)
    requires
        forall|k: int, t: int|
            0 <= k < fs.len() && 0 <= t < f(k, fs[k]).len() ==> #[trigger] f(k, fs[k])[t] == c,
    ensures
        forall|t: int| 0 <= t < flat_map(fs, f).len() ==> #[trigger] flat_map(fs, f)[t] == c,
    decreases fs.len(),
{
    if fs.len() > 0 {
        let init = fs.drop_last();
        assert forall|k: int, t: int|
            0 <= k < init.len() && 0 <= t < f(k, init[k]).len() implies #[trigger] f(k, init[k])[t]
                == c by {
            assert(init[k] == fs[k]);
        }
        lemma_flat_map_const(init, f, c);
        let last = f(fs.len() - 1, fs.last());
        assert forall|t: int| 0 <= t < flat_map(fs, f).len() implies #[trigger] flat_map(fs, f)[t]
            == c by {
            if t >= flat_map(init, f).len() {
                assert(last[t - flat_map(init, f).len()] == c);
            }
        }
    }
}

proof fn lemma_prefix_quads(groups: Seq<Vec<Quad>>, d: int, p: (int, int, int))
    requires
        0 <= d <= groups.len(),
        forall|e: int, i: int|
            0 <= e < groups.len() && 0 <= i < groups[e]@.len() ==> (#[trigger] groups[e]@[i]).minimum_point()
                == p,
    ensures
        forall|k: int|
            0 <= k < faced_prefix(groups, d).len() ==> (#[trigger] faced_prefix(groups, d)[k]).1.minimum_point()
                == p,
    decreases d,
{
    if d > 0 {
        lemma_prefix_quads(groups, d - 1, p);
        let pre = faced_prefix(groups, d - 1);
        let tail = groups[d - 1]@.map_values(|q: Quad| (d - 1, q));
        assert forall|k: int| 0 <= k < faced_prefix(groups, d).len() implies (
        #[trigger] faced_prefix(groups, d)[k]).1.minimum_point() == p by {
            if k >= pre.len() {
                assert(tail[k - pre.len()].1 == groups[d - 1]@[k - pre.len()]);
            } else {
                assert(faced_prefix(groups, d)[k] == pre[k]);
            }
        }
    }
}

/// A lone voxel is drawn as six unit quads, 24 vertices, all in the BGRA
/// form of its material's palette colour.
pub proof fn lemma_single_voxel_mesh(
    g: VoxelGrid,
    groups: Seq<Vec<Quad>>,
    palette: Seq<Rgba>,
    m: MeshBuffers,
    p: (int, int, int),
)
    requires
        g.wf(),
        in_interior(g, p),
        solid_exactly(g, set![p]),
        is_greedy_cover(g, groups),
        palette.len() == 256,
        emitted(m, g, palette, faced_quads(groups)),
    ensures
        faced_quads(groups).len() == 6,
        m.positions@.len() == 24,
        m.indices@.len() == 36,
        forall|t: int|
            0 <= t < m.colors@.len() ==> #[trigger] m.colors@[t] == bgra(
                palette[g.cell(p.0, p.1, p.2) as int],
            ),
{
    lemma_single_voxel_quads(g, groups, p);
    let fs = faced_quads(groups);
    assert(faced_prefix(groups, 0).len() == 0);
    assert(faced_prefix(groups, 1).len() == 1);
    assert(faced_prefix(groups, 2).len() == 2);
    assert(faced_prefix(groups, 3).len() == 3);
    assert(faced_prefix(groups, 4).len() == 4);
    assert(faced_prefix(groups, 5).len() == 5);
    assert(faced_prefix(groups, 6).len() == 6);
    lemma_emitted_lengths(m, g, palette, fs);
    assert forall|e: int, i: int|
        0 <= e < groups.len() && 0 <= i < groups[e]@.len() implies (
        #[trigger] groups[e]@[i]).minimum_point() == p by {
        assert(groups[e]@.len() == 1);
    }
    lemma_prefix_quads(groups, 6, p);
    let c = bgra(palette[g.cell(p.0, p.1, p.2) as int]);
    let f = |k: int, x: (int, Quad)| quad_colors(g, palette, x);
    assert forall|k: int, t: int| 0 <= k < fs.len() && 0 <= t < f(k, fs[k]).len() implies #[trigger] f(
        k,
        fs[k],
    )[t] == c by {
        assert(fs[k].1.minimum_point() == p);
    }
    lemma_flat_map_const(fs, f, c);
}

} // verus!
