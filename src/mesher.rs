use vstd::prelude::*;
use vstd::relations::injective_on;
use vstd::set_lib::{lemma_int_range, lemma_map_size, lemma_set_disjoint_lens, set_int_range};
use block_mesh::ndshape::RuntimeShape;
use block_mesh::{greedy_quads, GreedyQuadsBuffer, RIGHT_HANDED_Y_UP_CONFIG};
use crate::face::{
    coord, covers, lemma_place_coords, lemma_place_of_coords, min_coord, normal_axis, normal_sign, place,
    u_axis, v_axis, valid_face, Quad,
};
use crate::grid::VoxelGrid;
use crate::voxel::EMPTY_MATERIAL;

verus! {

/// The cell that face `d` of cell `p` looks at.
pub open spec fn neighbor(d: int, p: (int, int, int)) -> (int, int, int) {
    place(
        d,
        coord(p, normal_axis(d)) + normal_sign(d),
        coord(p, u_axis(d)),
        coord(p, v_axis(d)),
    )
}

/// The cells of a grid that hold model voxels: every cell off the border.
pub open spec fn in_interior(g: VoxelGrid, p: (int, int, int)) -> bool {
    &&& 1 <= p.0 <= g.sx() - 2
    &&& 1 <= p.1 <= g.sy() - 2
    &&& 1 <= p.2 <= g.sz() - 2
}

pub open spec fn material(g: VoxelGrid, p: (int, int, int)) -> u8 {
    g.cell(p.0, p.1, p.2)
}

/// Face `d` of cell `p` is visible: the cell is solid and its neighbour on
/// that side is empty.
pub open spec fn face_visible(g: VoxelGrid, d: int, p: (int, int, int)) -> bool {
    material(g, p) != EMPTY_MATERIAL && material(g, neighbor(d, p)) == EMPTY_MATERIAL
}

/// The visible faces of orientation `d`, one per cell.
pub open spec fn visible_faces(g: VoxelGrid, d: int) -> Set<(int, int, int)> {
    Set::new(|p: (int, int, int)| in_interior(g, p) && face_visible(g, d, p))
}

/// `qs` covers the visible faces of orientation `d` exactly once each, and
/// each quad holds faces of a single material.
pub open spec fn is_face_cover(g: VoxelGrid, d: int, qs: Seq<Quad>) -> bool {
    &&& forall|i: int| 0 <= i < qs.len() ==> 1 <= #[trigger] qs[i].width && 1 <= qs[i].height
    &&& forall|i: int, p: (int, int, int)|
        0 <= i < qs.len() && #[trigger] covers(qs[i], d, p) ==> in_interior(g, p) && face_visible(
            g,
            d,
            p,
        ) && material(g, p) == material(g, qs[i].minimum_point())
    &&& forall|i: int, j: int, p: (int, int, int)|
        0 <= i < qs.len() && 0 <= j < qs.len() && i != j && #[trigger] covers(qs[i], d, p)
            ==> !#[trigger] covers(qs[j], d, p)
    &&& forall|p: (int, int, int)|
        #![trigger visible_faces(g, d).contains(p)]
        visible_faces(g, d).contains(p) ==> exists|i: int|
            0 <= i < qs.len() && #[trigger] covers(qs[i], d, p)
}

/// Six groups of quads, one per face orientation, each an exact cover.
pub open spec fn is_greedy_cover(g: VoxelGrid, groups: Seq<Vec<Quad>>) -> bool {
    &&& groups.len() == 6
    &&& forall|d: int| 0 <= d < 6 ==> is_face_cover(g, d, #[trigger] groups[d]@)
}

/// Cell `p` comes before cell `q` in the scan of face orientation `d`: slice
/// by slice along the normal, and within a slice by z, then y, then x.
pub open spec fn scans_before(d: int, p: (int, int, int), q: (int, int, int)) -> bool {
    let pn = coord(p, normal_axis(d));
    let qn = coord(q, normal_axis(d));
    pn < qn || (pn == qn && (p.2 < q.2 || (p.2 == q.2 && (p.1 < q.1 || (p.1 == q.1 && p.0
        < q.0)))))
}

/// The extent of the grid along axis `a`.
pub open spec fn extent(g: VoxelGrid, a: int) -> int {
    if a == 0 {
        g.sx()
    } else if a == 1 {
        g.sy()
    } else {
        g.sz()
    }
}

/// Cell `c` could have joined quad `i` of `qs`: its face is visible, of the
/// quad's material, and in no earlier quad.
pub open spec fn joinable(g: VoxelGrid, d: int, qs: Seq<Quad>, i: int, c: (int, int, int)) -> bool {
    &&& face_visible(g, d, c)
    &&& material(g, c) == material(g, qs[i].minimum_point())
    &&& !exists|j: int| 0 <= j < i && #[trigger] covers(qs[j], d, c)
}

/// The quads of `qs` come in scan order of their minimum cells, and each one
/// stopped growing for a reason: along u at the interior's edge or at a cell
/// that could not join, and along v at the interior's edge or at a row with a
/// cell that could not join.
pub open spec fn is_greedy_order(g: VoxelGrid, d: int, qs: Seq<Quad>) -> bool {
    &&& forall|i: int, j: int|
        0 <= i < j < qs.len() ==> scans_before(
            d,
            #[trigger] qs[i].minimum_point(),
            #[trigger] qs[j].minimum_point(),
        )
    &&& forall|i: int|
        #![trigger qs[i]]
        0 <= i < qs.len() && min_coord(qs[i], u_axis(d)) + qs[i].width < extent(g, u_axis(d)) - 1
            ==> !joinable(
            g,
            d,
            qs,
            i,
            place(
                d,
                min_coord(qs[i], normal_axis(d)),
                min_coord(qs[i], u_axis(d)) + qs[i].width,
                min_coord(qs[i], v_axis(d)),
            ),
        )
    &&& forall|i: int|
        #![trigger qs[i]]
        0 <= i < qs.len() && min_coord(qs[i], v_axis(d)) + qs[i].height < extent(g, v_axis(d))
            - 1 ==> exists|t: int|
            0 <= t < qs[i].width && !#[trigger] joinable(
                g,
                d,
                qs,
                i,
                place(
                    d,
                    min_coord(qs[i], normal_axis(d)),
                    min_coord(qs[i], u_axis(d)) + t,
                    min_coord(qs[i], v_axis(d)) + qs[i].height,
                ),
            )
}

/// Relies on block_mesh::greedy_quads, run with RIGHT_HANDED_Y_UP_CONFIG over
/// the extent from the origin to `max`, whose interior is every cell off the
/// border. It walks the interior slice by slice; each visible face that no
/// earlier quad holds starts a quad, grown first along u and then along v
/// over visible, not yet held faces whose `merge_value` equals the first
/// one's (`VoxelMerger::find_quad`), and quads are pushed in that order.
/// Visibility comes from `get_visibility` of `PaletteVoxel`: a face shows
/// where the cell is solid and its neighbour is empty.
#[verifier::external_body]
fn block_greedy_quads(g: &VoxelGrid, max: [u32; 3]) -> (r: Vec<Vec<Quad>>)
    requires
        g.wf(),
        max[0] + 1 == g.sx() && max[1] + 1 == g.sy() && max[2] + 1 == g.sz(),
    ensures
        is_greedy_cover(*g, r@),
        forall|d: int| 0 <= d < 6 ==> is_greedy_order(*g, d, #[trigger] r@[d]@),
{
    let shape = RuntimeShape::<u32, 3>::new(g.dims);
    let mut buffer = GreedyQuadsBuffer::new(g.cells.len());
    greedy_quads(&g.cells, &shape, [0; 3], max, &RIGHT_HANDED_Y_UP_CONFIG.faces, &mut buffer);
    let to_quad = |q: &block_mesh::UnorientedQuad| Quad {
        minimum: q.minimum,
        width: q.width,
        height: q.height,
    };
    buffer.quads.groups.iter().map(|group| group.iter().map(to_quad).collect()).collect()
}

/// Merges the visible faces of a grid into quads, one group per face
/// orientation. Each group covers the visible faces of its orientation
/// exactly once, and its quads' areas add up to the number of those faces.
pub fn greedy_mesh(g: &VoxelGrid) -> (r: Vec<Vec<Quad>>)
    requires
        g.wf(),
    ensures
        is_greedy_cover(*g, r@),
        forall|d: int| 0 <= d < 6 ==> is_greedy_order(*g, d, #[trigger] r@[d]@),
        forall|d: int|
            #![trigger visible_faces(*g, d)]
            0 <= d < 6 ==> visible_faces(*g, d).finite() && (total_area(r@[d]@)
                == visible_faces(*g, d).len()),
{
    let max: [u32; 3] = [g.dims[0] - 1, g.dims[1] - 1, g.dims[2] - 1];
    let r = block_greedy_quads(g, max);
    proof {
        lemma_area_equals_visible_faces(*g, r@);
    }
    r
}

/// The sum of the areas of `qs`.
pub open spec fn total_area(qs: Seq<Quad>) -> int
    decreases qs.len(),
{
    if qs.len() == 0 {
        0
    } else {
        total_area(qs.drop_last()) + qs.last().width * qs.last().height
    }
}

/// The cells of a rectangle of face orientation `d`.
pub open spec fn rect(d: int, n0: int, u0: int, v0: int, w: int, h: int) -> Set<(int, int, int)> {
    Set::new(
        |p: (int, int, int)|
            coord(p, normal_axis(d)) == n0 && u0 <= coord(p, u_axis(d)) < u0 + w && v0 <= coord(
                p,
                v_axis(d),
            ) < v0 + h,
    )
}

pub open spec fn quad_cells(q: Quad, d: int) -> Set<(int, int, int)> {
    Set::new(|p: (int, int, int)| covers(q, d, p))
}

/// The cells that some quad of `qs` covers.
pub open spec fn cells_union(qs: Seq<Quad>, d: int) -> Set<(int, int, int)>
    decreases qs.len(),
{
    if qs.len() == 0 {
        Set::empty()
    } else {
        cells_union(qs.drop_last(), d) + quad_cells(qs.last(), d)
    }
}

proof fn lemma_rect_len(d: int, n0: int, u0: int, v0: int, w: int, h: int)
    requires
        valid_face(d),
        0 <= w,
        0 <= h,
    ensures
        rect(d, n0, u0, v0, w, h).finite(),
        rect(d, n0, u0, v0, w, h).len() == w * h,
    decreases h,
{
    if h == 0 {
        assert(rect(d, n0, u0, v0, w, h) =~= Set::empty());
    } else {
        lemma_rect_len(d, n0, u0, v0, w, h - 1);
        let f = |a: int| place(d, n0, a, v0 + h - 1);
        let row = set_int_range(u0, u0 + w).map(f);
        lemma_int_range(u0, u0 + w);
        assert(injective_on(f, set_int_range(u0, u0 + w))) by {
            assert forall|a: int, b: int|
                set_int_range(u0, u0 + w).contains(a) && set_int_range(u0, u0 + w).contains(b)
                    && #[trigger] f(a) == #[trigger] f(b) implies a == b by {
                lemma_place_coords(d, n0, a, v0 + h - 1);
                lemma_place_coords(d, n0, b, v0 + h - 1);
            }
        }
        lemma_map_size(set_int_range(u0, u0 + w), row, f);
        let below = rect(d, n0, u0, v0, w, h - 1);
        assert forall|p: (int, int, int)| #[trigger] rect(d, n0, u0, v0, w, h).contains(p) <==> (
        below + row).contains(p) by {
            lemma_place_of_coords(d, p);
            if coord(p, v_axis(d)) == v0 + h - 1 && rect(d, n0, u0, v0, w, h).contains(p) {
                assert(set_int_range(u0, u0 + w).contains(coord(p, u_axis(d))));
                assert(f(coord(p, u_axis(d))) == p);
            }
            if row.contains(p) {
                let a = choose|a: int| #[trigger] set_int_range(u0, u0 + w).contains(a) && f(a) == p;
                lemma_place_coords(d, n0, a, v0 + h - 1);
            }
        }
        assert(rect(d, n0, u0, v0, w, h) =~= below + row);
        assert(below.disjoint(row)) by {
            assert forall|p: (int, int, int)| below.contains(p) implies !row.contains(p) by {
                if row.contains(p) {
                    let a = choose|a: int| #[trigger] set_int_range(u0, u0 + w).contains(a) && f(a) == p;
                    lemma_place_coords(d, n0, a, v0 + h - 1);
                }
            }
        }
        lemma_set_disjoint_lens(below, row);
        assert(w * (h - 1) + w == w * h) by (nonlinear_arith);
    }
}

proof fn lemma_quad_cells_len(q: Quad, d: int)
    requires
        valid_face(d),
    ensures
        quad_cells(q, d).finite(),
        quad_cells(q, d).len() == q.width * q.height,
{
    let r = rect(
        d,
        min_coord(q, normal_axis(d)),
        min_coord(q, u_axis(d)),
        min_coord(q, v_axis(d)),
        q.width as int,
        q.height as int,
    );
    lemma_rect_len(
        d,
        min_coord(q, normal_axis(d)),
        min_coord(q, u_axis(d)),
        min_coord(q, v_axis(d)),
        q.width as int,
        q.height as int,
    );
    assert(quad_cells(q, d) =~= r);
}

proof fn lemma_cells_union_contains(qs: Seq<Quad>, d: int, p: (int, int, int))
    ensures
        cells_union(qs, d).contains(p) <==> exists|i: int| 0 <= i < qs.len() && #[trigger] covers(qs[i], d, p),
    decreases qs.len(),
{
    if qs.len() > 0 {
        let init = qs.drop_last();
        lemma_cells_union_contains(init, d, p);
        if cells_union(qs, d).contains(p) {
            if cells_union(init, d).contains(p) {
                let i = choose|i: int| 0 <= i < init.len() && #[trigger] covers(init[i], d, p);
                assert(covers(qs[i], d, p));
            } else {
                assert(covers(qs[qs.len() - 1], d, p));
            }
        }
        if exists|i: int| 0 <= i < qs.len() && #[trigger] covers(qs[i], d, p) {
            let i = choose|i: int| 0 <= i < qs.len() && #[trigger] covers(qs[i], d, p);
            if i < qs.len() - 1 {
                assert(covers(init[i], d, p));
            }
        }
    }
}

proof fn lemma_cells_union_len(qs: Seq<Quad>, d: int)
    requires
        valid_face(d),
        forall|i: int, j: int, p: (int, int, int)|
            0 <= i < qs.len() && 0 <= j < qs.len() && i != j && #[trigger] covers(qs[i], d, p)
                ==> !#[trigger] covers(qs[j], d, p),
    ensures
        cells_union(qs, d).finite(),
        cells_union(qs, d).len() == total_area(qs),
    decreases qs.len(),
{
    if qs.len() > 0 {
        let init = qs.drop_last();
        assert forall|i: int, j: int, p: (int, int, int)|
            0 <= i < init.len() && 0 <= j < init.len() && i != j && #[trigger] covers(init[i], d, p)
                implies !#[trigger] covers(init[j], d, p) by {
            assert(covers(qs[i], d, p));
        }
        lemma_cells_union_len(init, d);
        lemma_quad_cells_len(qs.last(), d);
        assert(cells_union(init, d).disjoint(quad_cells(qs.last(), d))) by {
            assert forall|p: (int, int, int)|
                cells_union(init, d).contains(p) implies !quad_cells(qs.last(), d).contains(p) by {
                lemma_cells_union_contains(init, d, p);
                let i = choose|i: int| 0 <= i < init.len() && #[trigger] covers(init[i], d, p);
                assert(covers(qs[i], d, p));
            }
        }
        lemma_set_disjoint_lens(cells_union(init, d), quad_cells(qs.last(), d));
    }
}

proof fn lemma_face_area(g: VoxelGrid, d: int, qs: Seq<Quad>)
    requires
        valid_face(d),
        is_face_cover(g, d, qs),
    ensures
        visible_faces(g, d).finite(),
        total_area(qs) == visible_faces(g, d).len(),
{
    lemma_cells_union_len(qs, d);
    assert forall|p: (int, int, int)|
        visible_faces(g, d).contains(p) <==> #[trigger] cells_union(qs, d).contains(p) by {
        lemma_cells_union_contains(qs, d, p);
    }
    assert(visible_faces(g, d) =~= cells_union(qs, d));
}

/// Merging changes how many quads there are, never how much they cover: in
/// every exact cover, the areas of the quads of one orientation add up to the
/// number of visible faces of that orientation.
pub proof fn lemma_area_equals_visible_faces(g: VoxelGrid, groups: Seq<Vec<Quad>>)
    requires
        g.wf(),
        is_greedy_cover(g, groups),
    ensures
        forall|d: int|
            #![trigger visible_faces(g, d)]
            0 <= d < 6 ==> visible_faces(g, d).finite() && (total_area(groups[d]@)
                == visible_faces(g, d).len()),
{
    assert forall|d: int|
        #![trigger visible_faces(g, d)]
        0 <= d < 6 implies visible_faces(g, d).finite() && (total_area(groups[d]@)
            == visible_faces(g, d).len()) by {
        lemma_face_area(g, d, groups[d]@);
    }
}

/// Within one orientation, every cell that a quad covers shows a visible face
/// of the quad's own material, and no cell lies in two quads.
pub proof fn lemma_quads_uniform_and_disjoint(g: VoxelGrid, groups: Seq<Vec<Quad>>)
    requires
        g.wf(),
        is_greedy_cover(g, groups),
    ensures
        forall|d: int, i: int, p: (int, int, int)|
            0 <= d < 6 && 0 <= i < groups[d]@.len() && #[trigger] covers(groups[d]@[i], d, p)
                ==> face_visible(g, d, p) && material(g, p) == material(
                g,
                groups[d]@[i].minimum_point(),
            ) && face_visible(g, d, groups[d]@[i].minimum_point()),
        forall|d: int, i: int, j: int, p: (int, int, int)|
            0 <= d < 6 && 0 <= i < groups[d]@.len() && 0 <= j < groups[d]@.len() && i != j
                && #[trigger] covers(groups[d]@[i], d, p) ==> !#[trigger] covers(groups[d]@[j], d, p),
{
    assert forall|d: int, i: int, p: (int, int, int)|
        0 <= d < 6 && 0 <= i < groups[d]@.len() && #[trigger] covers(groups[d]@[i], d, p)
            implies face_visible(g, d, p) && material(g, p) == material(
            g,
            groups[d]@[i].minimum_point(),
        ) && face_visible(g, d, groups[d]@[i].minimum_point()) by {
        assert(is_face_cover(g, d, groups[d]@));
        assert(covers(groups[d]@[i], d, groups[d]@[i].minimum_point()));
    }
    assert forall|d: int, i: int, j: int, p: (int, int, int)|
        0 <= d < 6 && 0 <= i < groups[d]@.len() && 0 <= j < groups[d]@.len() && i != j
            && #[trigger] covers(groups[d]@[i], d, p) implies !#[trigger] covers(groups[d]@[j], d, p) by {
        assert(is_face_cover(g, d, groups[d]@));
    }
}

/// Every cell of the grid is empty.
pub open spec fn all_empty(g: VoxelGrid) -> bool {
    forall|x: int, y: int, z: int|
        #![trigger g.cell(x, y, z)]
        g.in_grid(x, y, z) ==> g.cell(x, y, z) == EMPTY_MATERIAL
}

/// A grid with no solid cell has no visible face, so its cover holds no quad.
pub proof fn lemma_empty_grid_has_no_quads(g: VoxelGrid, groups: Seq<Vec<Quad>>)
    requires
        g.wf(),
        all_empty(g),
        is_greedy_cover(g, groups),
    ensures
        forall|d: int| 0 <= d < 6 ==> (#[trigger] groups[d]@).len() == 0,
        forall|d: int| 0 <= d < 6 ==> (#[trigger] visible_faces(g, d)).len() == 0,
{
    assert forall|d: int| 0 <= d < 6 implies (#[trigger] groups[d]@).len() == 0 by {
        assert(is_face_cover(g, d, groups[d]@));
        if groups[d]@.len() > 0 {
            let q = groups[d]@[0];
            assert(covers(q, d, q.minimum_point()));
            assert(g.cell(q.minimum[0] as int, q.minimum[1] as int, q.minimum[2] as int)
                == EMPTY_MATERIAL);
        }
    }
    assert forall|d: int| 0 <= d < 6 implies (#[trigger] visible_faces(g, d)).len() == 0 by {
        assert(visible_faces(g, d) =~= Set::empty()) by {
            assert forall|p: (int, int, int)| !visible_faces(g, d).contains(p) by {
                if in_interior(g, p) {
                    assert(g.cell(p.0, p.1, p.2) == EMPTY_MATERIAL);
                }
            }
        }
    }
}

/// The solid cells of `g` are exactly those of `cells`.
pub open spec fn solid_exactly(g: VoxelGrid, cells: Set<(int, int, int)>) -> bool {
    forall|x: int, y: int, z: int|
        #![trigger g.cell(x, y, z)]
        g.in_grid(x, y, z) ==> (g.cell(x, y, z) != EMPTY_MATERIAL <==> cells.contains((x, y, z)))
}

proof fn lemma_neighbor_in_grid(g: VoxelGrid, d: int, p: (int, int, int))
    requires
        valid_face(d),
        in_interior(g, p),
    ensures
        g.in_grid(neighbor(d, p).0, neighbor(d, p).1, neighbor(d, p).2),
        neighbor(d, p) != p,
{
}

pub(crate) proof fn lemma_area_count(qs: Seq<Quad>)
    requires
        forall|i: int| 0 <= i < qs.len() ==> 1 <= #[trigger] qs[i].width && 1 <= qs[i].height,
    ensures
        qs.len() <= total_area(qs),
        total_area(qs) == qs.len() ==> forall|i: int|
            0 <= i < qs.len() ==> #[trigger] qs[i].width == 1 && qs[i].height == 1,
    decreases qs.len(),
{
    if qs.len() > 0 {
        let init = qs.drop_last();
        assert forall|i: int| 0 <= i < init.len() implies 1 <= #[trigger] init[i].width
            && 1 <= init[i].height by {
            assert(init[i] == qs[i]);
        }
        lemma_area_count(init);
        let w = qs.last().width as int;
        let h = qs.last().height as int;
        assert(1 <= w * h) by (nonlinear_arith)
            requires 1 <= w, 1 <= h;
        if total_area(qs) == qs.len() {
            assert(w * h == 1 && total_area(init) == init.len());
            assert(w == 1 && h == 1) by (nonlinear_arith)
                requires 1 <= w, 1 <= h, w * h == 1;
            assert forall|i: int| 0 <= i < qs.len() implies #[trigger] qs[i].width == 1
                && qs[i].height == 1 by {
                if i < init.len() {
                    assert(init[i] == qs[i]);
                }
            }
        }
    }
}

/// A unit quad covers its minimum cell and nothing else.
proof fn lemma_unit_quad_covers(q: Quad, d: int, p: (int, int, int))
    requires
        valid_face(d),
        q.width == 1,
        q.height == 1,
        covers(q, d, p),
    ensures
        p == q.minimum_point(),
{
    lemma_place_of_coords(d, p);
    lemma_place_of_coords(d, q.minimum_point());
}

/// A lone voxel shows exactly one face in each orientation, and each becomes a
/// quad of its own: one unit quad per orientation, at the voxel's cell.
pub proof fn lemma_single_voxel_quads(g: VoxelGrid, groups: Seq<Vec<Quad>>, p: (int, int, int))
    requires
        g.wf(),
        in_interior(g, p),
        solid_exactly(g, set![p]),
        is_greedy_cover(g, groups),
    ensures
        forall|d: int|
            0 <= d < 6 ==> (#[trigger] groups[d]@).len() == 1 && groups[d]@[0].width == 1
                && groups[d]@[0].height == 1 && groups[d]@[0].minimum_point() == p,
{
    lemma_area_equals_visible_faces(g, groups);
    assert forall|d: int| 0 <= d < 6 implies (#[trigger] groups[d]@).len() == 1
        && groups[d]@[0].width == 1 && groups[d]@[0].height == 1 && groups[d]@[0].minimum_point()
        == p by {
        let qs = groups[d]@;
        assert(is_face_cover(g, d, qs));
        lemma_neighbor_in_grid(g, d, p);
        let nb = neighbor(d, p);
        assert(g.cell(p.0, p.1, p.2) != EMPTY_MATERIAL);
        assert(g.cell(nb.0, nb.1, nb.2) == EMPTY_MATERIAL);
        assert forall|c: (int, int, int)| visible_faces(g, d).contains(c) <==> c == p by {
            if in_interior(g, c) {
                assert(g.cell(c.0, c.1, c.2) != EMPTY_MATERIAL ==> set![p].contains(c));
            }
        }
        assert(visible_faces(g, d) =~= set![p]);
        assert(visible_faces(g, d).contains(p));
        assert(total_area(qs) == 1);
        lemma_area_count(qs);
        let i = choose|i: int| 0 <= i < qs.len() && #[trigger] covers(qs[i], d, p);
        assert(qs.len() == 1);
        assert(i == 0);
        assert(qs[0].width == 1 && qs[0].height == 1);
        lemma_unit_quad_covers(qs[0], d, p);
    }
}

/// The cell one step from `p` towards larger coordinates along axis `a`.
pub open spec fn step(p: (int, int, int), a: int) -> (int, int, int) {
    if a == 0 {
        (p.0 + 1, p.1, p.2)
    } else if a == 1 {
        (p.0, p.1 + 1, p.2)
    } else {
        (p.0, p.1, p.2 + 1)
    }
}

/// The visible faces of two adjacent voxels `a` and `step(a, ax)`: the faces
/// between them are hidden, every other face shows.
proof fn lemma_pair_visible(g: VoxelGrid, d: int, a: (int, int, int), ax: int)
    requires
        g.wf(),
        valid_face(d),
        0 <= ax < 3,
        in_interior(g, a),
        in_interior(g, step(a, ax)),
        solid_exactly(g, set![a, step(a, ax)]),
    ensures
        visible_faces(g, d) == (if normal_axis(d) != ax {
            set![a, step(a, ax)]
        } else if d < 3 {
            set![a]
        } else {
            set![step(a, ax)]
        }),
{
    let b = step(a, ax);
    let expected = if normal_axis(d) != ax {
        set![a, b]
    } else if d < 3 {
        set![a]
    } else {
        set![b]
    };
    lemma_neighbor_in_grid(g, d, a);
    lemma_neighbor_in_grid(g, d, b);
    let na = neighbor(d, a);
    let nb = neighbor(d, b);
    assert(g.cell(a.0, a.1, a.2) != EMPTY_MATERIAL);
    assert(g.cell(b.0, b.1, b.2) != EMPTY_MATERIAL);
    assert(g.cell(na.0, na.1, na.2) != EMPTY_MATERIAL <==> set![a, b].contains(na));
    assert(g.cell(nb.0, nb.1, nb.2) != EMPTY_MATERIAL <==> set![a, b].contains(nb));
    assert forall|c: (int, int, int)| visible_faces(g, d).contains(c) <==> expected.contains(c) by {
        if in_interior(g, c) {
            assert(g.cell(c.0, c.1, c.2) != EMPTY_MATERIAL <==> set![a, b].contains(c));
        }
    }
    assert(visible_faces(g, d) =~= expected);
}

proof fn lemma_distinct_materials_unit_quad(g: VoxelGrid, d: int, qs: Seq<Quad>, i: int)
    requires
        valid_face(d),
        is_face_cover(g, d, qs),
        0 <= i < qs.len(),
        forall|c1: (int, int, int), c2: (int, int, int)|
            visible_faces(g, d).contains(c1) && visible_faces(g, d).contains(c2) && c1 != c2
                ==> #[trigger] material(g, c1) != #[trigger] material(g, c2),
    ensures
        qs[i].width == 1 && qs[i].height == 1,
{
    let q = qs[i];
    let m = q.minimum_point();
    assert(1 <= q.width && 1 <= q.height);
    lemma_place_of_coords(d, m);
    assert(covers(q, d, m));
    assert(visible_faces(g, d).contains(m));
    if q.width > 1 {
        let c = place(d, coord(m, normal_axis(d)), coord(m, u_axis(d)) + 1, coord(m, v_axis(d)));
        lemma_place_coords(d, coord(m, normal_axis(d)), coord(m, u_axis(d)) + 1, coord(m, v_axis(d)));
        assert(covers(q, d, c));
        assert(visible_faces(g, d).contains(c));
        assert(c != m);
        assert(material(g, c) != material(g, m));
    }
    if q.height > 1 {
        let c = place(d, coord(m, normal_axis(d)), coord(m, u_axis(d)), coord(m, v_axis(d)) + 1);
        lemma_place_coords(d, coord(m, normal_axis(d)), coord(m, u_axis(d)), coord(m, v_axis(d)) + 1);
        assert(covers(q, d, c));
        assert(visible_faces(g, d).contains(c));
        assert(c != m);
        assert(material(g, c) != material(g, m));
    }
}

/// Quads over faces that pairwise differ in material are all unit quads.
proof fn lemma_distinct_materials_unit(g: VoxelGrid, d: int, qs: Seq<Quad>)
    requires
        valid_face(d),
        is_face_cover(g, d, qs),
        forall|c1: (int, int, int), c2: (int, int, int)|
            visible_faces(g, d).contains(c1) && visible_faces(g, d).contains(c2) && c1 != c2
                ==> #[trigger] material(g, c1) != #[trigger] material(g, c2),
    ensures
        forall|i: int| #![trigger qs[i]] 0 <= i < qs.len() ==> qs[i].width == 1 && qs[i].height == 1,
{
    assert forall|i: int| #![trigger qs[i]] 0 <= i < qs.len() implies qs[i].width == 1
        && qs[i].height == 1 by {
        lemma_distinct_materials_unit_quad(g, d, qs, i);
    }
}

/// Two adjacent voxels of different materials: the faces between them are
/// hidden and no two faces merge, so each orientation holds one unit quad per
/// visible face, ten in all.
pub proof fn lemma_different_material_pair(
    g: VoxelGrid,
    groups: Seq<Vec<Quad>>,
    a: (int, int, int),
    ax: int,
)
    requires
        g.wf(),
        0 <= ax < 3,
        in_interior(g, a),
        in_interior(g, step(a, ax)),
        solid_exactly(g, set![a, step(a, ax)]),
        material(g, a) != material(g, step(a, ax)),
        is_greedy_cover(g, groups),
    ensures
        forall|d: int, i: int|
            0 <= d < 6 && 0 <= i < groups[d]@.len() ==> #[trigger] groups[d]@[i].width == 1
                && groups[d]@[i].height == 1,
        forall|d: int|
            0 <= d < 6 ==> (#[trigger] groups[d]@).len() == (if normal_axis(d) == ax {
                1int
            } else {
                2int
            }),
        groups[0]@.len() + groups[1]@.len() + groups[2]@.len() + groups[3]@.len()
            + groups[4]@.len() + groups[5]@.len() == 10,
{
    lemma_area_equals_visible_faces(g, groups);
    assert forall|d: int| 0 <= d < 6 implies (forall|i: int|
        0 <= i < groups[d]@.len() ==> #[trigger] groups[d]@[i].width == 1
            && groups[d]@[i].height == 1) && (#[trigger] groups[d]@).len() == (if normal_axis(d)
        == ax {
        1int
    } else {
        2int
    }) by {
        let qs = groups[d]@;
        assert(is_face_cover(g, d, qs));
        lemma_pair_visible(g, d, a, ax);
        let b = step(a, ax);
        assert(a != b);
        lemma_distinct_materials_unit(g, d, qs);
        lemma_area_count(qs);
        assert(total_area(qs) == qs.len()) by {
            lemma_unit_area(qs);
        }
        if normal_axis(d) != ax {
            assert(set![a, b].len() == 2) by {
                assert(set![a].len() == 1);
            }
        }
    }
    assert(normal_axis(ax) == ax && normal_axis(ax + 3) == ax);
}

proof fn lemma_unit_area(qs: Seq<Quad>)
    requires
        forall|i: int| #![trigger qs[i]] 0 <= i < qs.len() ==> qs[i].width == 1 && qs[i].height == 1,
    ensures
        total_area(qs) == qs.len(),
    decreases qs.len(),
{
    if qs.len() > 0 {
        let init = qs.drop_last();
        assert forall|i: int| #![trigger init[i]] 0 <= i < init.len() implies init[i].width == 1
            && init[i].height == 1 by {
            assert(init[i] == qs[i]);
        }
        lemma_unit_area(init);
    }
}

/// Two adjacent voxels of one material: the two faces between them are
/// hidden, each end cap is a single unit quad, and the faces along the pair
/// cover two cells per orientation, ten faces in all.
pub proof fn lemma_same_material_pair_faces(
    g: VoxelGrid,
    groups: Seq<Vec<Quad>>,
    a: (int, int, int),
    ax: int,
)
    requires
        g.wf(),
        0 <= ax < 3,
        in_interior(g, a),
        in_interior(g, step(a, ax)),
        solid_exactly(g, set![a, step(a, ax)]),
        is_greedy_cover(g, groups),
    ensures
        groups[ax]@.len() == 1 && groups[ax]@[0].width == 1 && groups[ax]@[0].height == 1
            && groups[ax]@[0].minimum_point() == a,
        groups[ax + 3]@.len() == 1 && groups[ax + 3]@[0].width == 1 && groups[ax + 3]@[0].height
            == 1 && groups[ax + 3]@[0].minimum_point() == step(a, ax),
        forall|d: int|
            0 <= d < 6 && normal_axis(d) != ax ==> total_area(#[trigger] groups[d]@) == 2,
        total_area(groups[0]@) + total_area(groups[1]@) + total_area(groups[2]@) + total_area(
            groups[3]@,
        ) + total_area(groups[4]@) + total_area(groups[5]@) == 10,
{
    lemma_area_equals_visible_faces(g, groups);
    let b = step(a, ax);
    assert(a != b);
    assert(set![a, b].len() == 2) by {
        assert(set![a].len() == 1);
    }
    assert forall|d: int| 0 <= d < 6 && normal_axis(d) != ax implies total_area(
        #[trigger] groups[d]@,
    ) == 2 by {
        lemma_pair_visible(g, d, a, ax);
    }
    assert forall|d: int| 0 <= d < 6 && normal_axis(d) == ax implies (#[trigger] groups[d]@).len()
        == 1 && groups[d]@[0].width == 1 && groups[d]@[0].height == 1 && groups[d]@[0].minimum_point()
        == (if d < 3 { a } else { b }) by {
        let qs = groups[d]@;
        let c = if d < 3 { a } else { b };
        assert(is_face_cover(g, d, qs));
        lemma_pair_visible(g, d, a, ax);
        assert(visible_faces(g, d).contains(c));
        assert(total_area(qs) == 1);
        lemma_area_count(qs);
        let i = choose|i: int| 0 <= i < qs.len() && #[trigger] covers(qs[i], d, c);
        assert(qs.len() == 1);
        assert(i == 0);
        lemma_unit_quad_covers(qs[0], d, c);
    }
    assert(normal_axis(ax) == ax && normal_axis(ax + 3) == ax);
    lemma_unit_area(groups[ax]@);
    lemma_unit_area(groups[ax + 3]@);
}

/// In the pair `a`, `step(a, ax)`, the quad that covers `a` starts there,
/// and any earlier quad that covered the other cell would overlap it or come
/// later in the scan.
proof fn lemma_pair_cover_start(
    g: VoxelGrid,
    d: int,
    qs: Seq<Quad>,
    a: (int, int, int),
    ax: int,
    i: int,
)
    requires
        valid_face(d),
        0 <= ax < 3,
        normal_axis(d) != ax,
        is_face_cover(g, d, qs),
        is_greedy_order(g, d, qs),
        visible_faces(g, d) == set![a, step(a, ax)],
        material(g, a) == material(g, step(a, ax)),
        0 <= i < qs.len(),
        covers(qs[i], d, a),
    ensures
        qs[i].minimum_point() == a,
        joinable(g, d, qs, i, step(a, ax)),
{
    let b = step(a, ax);
    let q = qs[i];
    let m = q.minimum_point();
    lemma_place_of_coords(d, m);
    assert(covers(q, d, m));
    assert(visible_faces(g, d).contains(m));
    if m == b {
        assert(coord(b, ax) == coord(a, ax) + 1);
    }
    assert(m == a);
    if !joinable(g, d, qs, i, b) {
        assert(visible_faces(g, d).contains(b));
        let j = choose|j: int| 0 <= j < i && #[trigger] covers(qs[j], d, b);
        let mj = qs[j].minimum_point();
        lemma_place_of_coords(d, mj);
        assert(covers(qs[j], d, mj));
        assert(visible_faces(g, d).contains(mj));
        if mj == a {
            assert(covers(qs[i], d, a) && covers(qs[j], d, a));
        } else {
            assert(scans_before(d, qs[j].minimum_point(), qs[i].minimum_point()));
        }
    }
}

/// Two adjacent voxels of one material: along each of the four orientations
/// parallel to the pair, their two faces merge into a single quad of two
/// cells.
pub proof fn lemma_same_material_pair_merges(
    g: VoxelGrid,
    groups: Seq<Vec<Quad>>,
    a: (int, int, int),
    ax: int,
)
    requires
        g.wf(),
        0 <= ax < 3,
        in_interior(g, a),
        in_interior(g, step(a, ax)),
        solid_exactly(g, set![a, step(a, ax)]),
        material(g, a) == material(g, step(a, ax)),
        is_greedy_cover(g, groups),
        forall|d: int| 0 <= d < 6 ==> is_greedy_order(g, d, #[trigger] groups[d]@),
    ensures
        forall|d: int|
            0 <= d < 6 && normal_axis(d) != ax ==> (#[trigger] groups[d]@).len() == 1 && covers(
                groups[d]@[0],
                d,
                a,
            ) && covers(groups[d]@[0], d, step(a, ax)) && groups[d]@[0].width * groups[d]@[0].height
                == 2,
{
    lemma_same_material_pair_faces(g, groups, a, ax);
    assert forall|d: int| 0 <= d < 6 && normal_axis(d) != ax implies (#[trigger] groups[d]@).len()
        == 1 && covers(groups[d]@[0], d, a) && covers(groups[d]@[0], d, step(a, ax))
        && groups[d]@[0].width * groups[d]@[0].height == 2 by {
        lemma_pair_merges_in(g, groups[d]@, d, a, ax);
    }
}

proof fn lemma_pair_merges_in(g: VoxelGrid, qs: Seq<Quad>, d: int, a: (int, int, int), ax: int)
    requires
        g.wf(),
        valid_face(d),
        0 <= ax < 3,
        normal_axis(d) != ax,
        in_interior(g, a),
        in_interior(g, step(a, ax)),
        solid_exactly(g, set![a, step(a, ax)]),
        material(g, a) == material(g, step(a, ax)),
        is_face_cover(g, d, qs),
        is_greedy_order(g, d, qs),
        total_area(qs) == 2,
    ensures
        qs.len() == 1,
        covers(qs[0], d, a),
        covers(qs[0], d, step(a, ax)),
        qs[0].width * qs[0].height == 2,
{
    let b = step(a, ax);
    lemma_pair_visible(g, d, a, ax);
    assert(visible_faces(g, d).contains(a));
    let i = choose|i: int| 0 <= i < qs.len() && #[trigger] covers(qs[i], d, a);
    lemma_pair_cover_start(g, d, qs, a, ax, i);
    let q = qs[i];
    lemma_place_of_coords(d, a);
    lemma_place_of_coords(d, b);
    if ax == u_axis(d) {
        if q.width == 1 {
            assert(min_coord(q, u_axis(d)) + q.width < extent(g, u_axis(d)) - 1);
            assert(place(
                d,
                min_coord(q, normal_axis(d)),
                min_coord(q, u_axis(d)) + q.width,
                min_coord(q, v_axis(d)),
            ) == b);
        }
        assert(covers(q, d, b));
    } else {
        assert(ax == v_axis(d));
        if q.width > 1 {
            let c = place(d, coord(a, normal_axis(d)), coord(a, u_axis(d)) + 1, coord(a, v_axis(d)));
            lemma_place_coords(d, coord(a, normal_axis(d)), coord(a, u_axis(d)) + 1, coord(a, v_axis(d)));
            assert(covers(q, d, c));
            assert(visible_faces(g, d).contains(c));
        }
        if q.height == 1 {
            assert(min_coord(q, v_axis(d)) + q.height < extent(g, v_axis(d)) - 1);
            let t = choose|t: int|
                0 <= t < q.width && !#[trigger] joinable(
                    g,
                    d,
                    qs,
                    i,
                    place(
                        d,
                        min_coord(q, normal_axis(d)),
                        min_coord(q, u_axis(d)) + t,
                        min_coord(q, v_axis(d)) + q.height,
                    ),
                );
            assert(t == 0);
            assert(place(
                d,
                min_coord(q, normal_axis(d)),
                min_coord(q, u_axis(d)),
                min_coord(q, v_axis(d)) + q.height,
            ) == b);
        }
        assert(covers(q, d, b));
    }
    if qs.len() > 1 {
        let k = if i == 0 { 1int } else { 0int };
        let mk = qs[k].minimum_point();
        lemma_place_of_coords(d, mk);
        assert(covers(qs[k], d, mk));
        assert(visible_faces(g, d).contains(mk));
        assert(covers(qs[i], d, mk));
    }
    assert(i == 0 && qs.len() == 1);
    assert(total_area(qs) == total_area(qs.drop_last()) + q.width * q.height);
}

} // verus!
