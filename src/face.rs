use vstd::prelude::*;

verus! {

/// A rectangle of merged faces, in the orientation of the face group that
/// holds it: `minimum` is the grid cell at its lowest corner, `width` its
/// extent along the face's u axis and `height` along its v axis.
#[derive(Clone, Copy, Debug, PartialEq, Eq)]
pub struct Quad {
    pub minimum: [u32; 3],
    pub width: u32,
    pub height: u32,
}

impl Quad {
    pub open spec fn minimum_point(&self) -> (int, int, int) {
        (self.minimum[0] as int, self.minimum[1] as int, self.minimum[2] as int)
    }
}

/// The six face orientations, in the order used throughout: -X, -Y, -Z, +X,
/// +Y, +Z. The in-plane axes follow a right-handed, y-up layout.
pub open spec fn valid_face(d: int) -> bool {
    0 <= d < 6
}

/// The axis (0 = x, 1 = y, 2 = z) that face `d` points along.
pub open spec fn normal_axis(d: int) -> int {
    if d == 0 || d == 3 {
        0
    } else if d == 1 || d == 4 {
        1
    } else {
        2
    }
}

/// The axis along which a quad of face `d` extends by its width.
pub open spec fn u_axis(d: int) -> int {
    if d == 2 || d == 5 {
        0
    } else {
        2
    }
}

/// The axis along which a quad of face `d` extends by its height.
pub open spec fn v_axis(d: int) -> int {
    if d == 1 || d == 4 {
        0
    } else {
        1
    }
}

/// +1 for the faces that point towards larger coordinates, -1 otherwise.
pub open spec fn normal_sign(d: int) -> int {
    if d >= 3 {
        1
    } else {
        -1
    }
}

pub open spec fn coord(p: (int, int, int), a: int) -> int {
    if a == 0 {
        p.0
    } else if a == 1 {
        p.1
    } else {
        p.2
    }
}

pub open spec fn min_coord(q: Quad, a: int) -> int {
    if a == 0 {
        q.minimum[0] as int
    } else if a == 1 {
        q.minimum[1] as int
    } else {
        q.minimum[2] as int
    }
}

/// The point whose coordinates along the normal, u and v axes of face `d`
/// are `an`, `au` and `av`.
pub open spec fn place(d: int, an: int, au: int, av: int) -> (int, int, int) {
    (pick(d, 0, an, au, av), pick(d, 1, an, au, av), pick(d, 2, an, au, av))
}

pub open spec fn pick(d: int, k: int, an: int, au: int, av: int) -> int {
    if k == normal_axis(d) {
        an
    } else if k == u_axis(d) {
        au
    } else {
        av
    }
}

pub proof fn lemma_place_coords(d: int, an: int, au: int, av: int)
    requires
        valid_face(d),
    ensures
        coord(place(d, an, au, av), normal_axis(d)) == an,
        coord(place(d, an, au, av), u_axis(d)) == au,
        coord(place(d, an, au, av), v_axis(d)) == av,
{
}

pub proof fn lemma_place_of_coords(d: int, p: (int, int, int))
    requires
        valid_face(d),
    ensures
        place(d, coord(p, normal_axis(d)), coord(p, u_axis(d)), coord(p, v_axis(d))) == p,
{
}

/// Whether grid cell `p` lies in the rectangle of quad `q` of face `d`.
pub open spec fn covers(q: Quad, d: int, p: (int, int, int)) -> bool {
    &&& coord(p, normal_axis(d)) == min_coord(q, normal_axis(d))
    &&& min_coord(q, u_axis(d)) <= coord(p, u_axis(d)) < min_coord(q, u_axis(d)) + q.width
    &&& min_coord(q, v_axis(d)) <= coord(p, v_axis(d)) < min_coord(q, v_axis(d)) + q.height
}

/// Corner `j` of quad `q` of face `d`, in grid units: 0 at the lowest u and
/// v, 1 one width along u, 2 one height along v, 3 both. Faces that point
/// towards larger coordinates lie on the far side of their cells.
pub open spec fn corner(d: int, q: Quad, j: int) -> (int, int, int) {
    place(
        d,
        min_coord(q, normal_axis(d)) + (if d >= 3 { 1int } else { 0int }),
        min_coord(q, u_axis(d)) + (if j == 1 || j == 3 { q.width as int } else { 0int }),
        min_coord(q, v_axis(d)) + (if j == 2 || j == 3 { q.height as int } else { 0int }),
    )
}

/// The outward unit normal of face `d`.
pub open spec fn normal(d: int) -> (int, int, int) {
    place(d, normal_sign(d), 0, 0)
}

/// Whether the texture's u coordinate runs against the quad's u axis on
/// face `d`, given the axis whose faces are flipped.
pub open spec fn flips_u(d: int, flip_axis: int) -> bool {
    if d < 3 {
        flip_axis != normal_axis(d)
    } else {
        flip_axis == normal_axis(d)
    }
}

/// Texture coordinate of corner `j`: one texel per cell, never flipped
/// along v.
pub open spec fn tex_coord(d: int, q: Quad, j: int, flip_axis: int) -> (int, int) {
    let at_far_u = j == 1 || j == 3;
    let tu = if at_far_u != flips_u(d, flip_axis) { q.width as int } else { 0int };
    let tv = if j == 2 || j == 3 { q.height as int } else { 0int };
    (tu, tv)
}

/// Whether the corners 0, 1, 2 of a quad of face `d` wind counter-clockwise
/// seen from outside.
pub open spec fn counter_clockwise(d: int) -> bool {
    d == 0 || d == 4 || d == 5
}

/// The six vertex indices of the two triangles of a quad whose corners are
/// vertices `start` to `start + 3`.
pub open spec fn triangle_indices(d: int, start: int) -> Seq<int> {
    if counter_clockwise(d) {
        seq![start, start + 1, start + 2, start + 1, start + 3, start + 2]
    } else {
        seq![start, start + 2, start + 1, start + 1, start + 2, start + 3]
    }
}

fn axes(face: usize) -> (r: (usize, usize, usize))
    requires
        valid_face(face as int),
    ensures
        r.0 as int == normal_axis(face as int),
        r.1 as int == u_axis(face as int),
        r.2 as int == v_axis(face as int),
{
    if face == 0 || face == 3 {
        (0, 2, 1)
    } else if face == 1 || face == 4 {
        (1, 2, 0)
    } else {
        (2, 0, 1)
    }
}

/// Corner `j` of a quad, in grid units.
pub fn quad_corner(face: usize, q: &Quad, j: usize) -> (r: (i64, i64, i64))
    requires
        valid_face(face as int),
        j < 4,
    ensures
        (r.0 as int, r.1 as int, r.2 as int) == corner(face as int, *q, j as int),
{
    let (n, u, v) = axes(face);
    let mut p: [i64; 3] = [0, 0, 0];
    let lift: i64 = if face >= 3 { 1 } else { 0 };
    let du: i64 = if j == 1 || j == 3 { q.width as i64 } else { 0 };
    let dv: i64 = if j == 2 || j == 3 { q.height as i64 } else { 0 };
    p[n] = q.minimum[n] as i64 + lift;
    p[u] = q.minimum[u] as i64 + du;
    p[v] = q.minimum[v] as i64 + dv;
    (p[0], p[1], p[2])
}

/// The outward unit normal of a face.
pub fn quad_normal(face: usize) -> (r: (i8, i8, i8))
    requires
        valid_face(face as int),
    ensures
        (r.0 as int, r.1 as int, r.2 as int) == normal(face as int),
{
    let (n, _u, _v) = axes(face);
    let mut p: [i8; 3] = [0, 0, 0];
    p[n] = if face >= 3 { 1 } else { -1 };
    (p[0], p[1], p[2])
}

/// Texture coordinate of corner `j` of a quad; faces along `flip_axis` are
/// mirrored in u.
pub fn quad_tex_coord(face: usize, q: &Quad, j: usize, flip_axis: usize) -> (r: (u32, u32))
    requires
        valid_face(face as int),
        j < 4,
    ensures
        (r.0 as int, r.1 as int) == tex_coord(face as int, *q, j as int, flip_axis as int),
{
    let (n, _u, _v) = axes(face);
    let flip = if face < 3 { flip_axis != n } else { flip_axis == n };
    let at_far_u = j == 1 || j == 3;
    let tu = if at_far_u != flip { q.width } else { 0 };
    let tv = if j == 2 || j == 3 { q.height } else { 0 };
    (tu, tv)
}

/// Relies on block_mesh::OrientedBlockFace::quad_mesh_indices for the faces
/// of RIGHT_HANDED_Y_UP_CONFIG: the two triangles of the quad whose corners
/// are vertices `start` to `start + 3`, wound by the face's orientation.
#[verifier::external_body]
fn block_quad_indices(face: usize, start: u32) -> (r: [u32; 6])
    requires
        valid_face(face as int),
        start + 3 <= u32::MAX,
    ensures
        forall|t: int| 0 <= t < 6 ==> r[t] as int == triangle_indices(face as int, start as int)[t],
{
    block_mesh::RIGHT_HANDED_Y_UP_CONFIG.faces[face].quad_mesh_indices(start)
}

/// The six indices of a quad's two triangles.
pub fn quad_triangle_indices(face: usize, start: u32) -> (r: [u32; 6])
    requires
        valid_face(face as int),
        start + 3 <= u32::MAX,
    ensures
        forall|t: int| 0 <= t < 6 ==> r[t] as int == triangle_indices(face as int, start as int)[t],
{
    block_quad_indices(face, start)
}

} // verus!
