use vstd::prelude::*;
use crate::voxel::{PaletteVoxel, EMPTY_MATERIAL};

verus! {

/// A voxel as a model file lists it: its position in the model and its material.
#[derive(Clone, Copy, Debug, PartialEq, Eq, Structural)]
pub struct RawVoxel {
    pub x: u8,
    pub y: u8,
    pub z: u8,
    pub i: u8,
}

/// Offset of cell (x, y, z) in a flat array holding a grid whose first two
/// extents are `sx` and `sy`: x varies fastest, z slowest.
pub open spec fn linear_index(sx: int, sy: int, x: int, y: int, z: int) -> int {
    x + sx * (y + sy * z)
}

proof fn lemma_index_bounds(sx: int, sy: int, sz: int, x: int, y: int, z: int)
    requires
        0 <= x < sx,
        0 <= y < sy,
        0 <= z < sz,
    ensures
        0 <= sy * z,
        0 <= y + sy * z < sy * sz,
        0 <= sx * (y + sy * z),
        0 <= linear_index(sx, sy, x, y, z) < sx * sy * sz,
        sx * sy * sz == sx * (sy * sz),
{
    assert(0 <= sy * z) by (nonlinear_arith)
        requires 0 <= z, 0 <= sy;
    assert(y + sy * z < sy * sz) by (nonlinear_arith)
        requires 0 <= y < sy, 0 <= z < sz;
    assert(sx * (y + sy * z) <= sx * (sy * sz - 1)) by (nonlinear_arith)
        requires 0 <= y + sy * z <= sy * sz - 1, 0 <= sx;
    assert(sx * sy * sz == sx * (sy * sz)) by (nonlinear_arith);
    assert(sx * (sy * sz - 1) == sx * (sy * sz) - sx) by (nonlinear_arith);
    assert(0 <= sx * (y + sy * z)) by (nonlinear_arith)
        requires 0 <= y + sy * z, 0 <= sx;
}

proof fn lemma_split_unique(s: int, a1: int, k1: int, a2: int, k2: int)
    requires
        0 <= a1 < s,
        0 <= a2 < s,
        a1 + s * k1 == a2 + s * k2,
    ensures
        a1 == a2,
        k1 == k2,
{
    assert(s * (k1 - k2) == a2 - a1) by (nonlinear_arith)
        requires a1 + s * k1 == a2 + s * k2;
    if k1 > k2 {
        assert(s * (k1 - k2) >= s) by (nonlinear_arith)
            requires k1 - k2 >= 1, s > 0;
    } else if k1 < k2 {
        assert(s * (k2 - k1) >= s) by (nonlinear_arith)
            requires k2 - k1 >= 1, s > 0;
        assert(s * (k1 - k2) == -(s * (k2 - k1))) by (nonlinear_arith);
    }
}

/// Distinct cells of a grid have distinct offsets.
proof fn lemma_index_injective(
    sx: int,
    sy: int,
    sz: int,
    x1: int,
    y1: int,
    z1: int,
    x2: int,
    y2: int,
    z2: int,
)
    requires
        0 <= x1 < sx,
        0 <= y1 < sy,
        0 <= z1 < sz,
        0 <= x2 < sx,
        0 <= y2 < sy,
        0 <= z2 < sz,
        linear_index(sx, sy, x1, y1, z1) == linear_index(sx, sy, x2, y2, z2),
    ensures
        x1 == x2 && y1 == y2 && z1 == z2,
{
    lemma_split_unique(sx, x1, y1 + sy * z1, x2, y2 + sy * z2);
    lemma_split_unique(sy, y1, z1, y2, z2);
}

/// A dense grid of voxels, stored flat with `linear_index`.
///
/// A well-formed grid has an empty cell at every position on its border, so
/// each of its inner cells has six neighbours inside the grid.
#[derive(Debug)]
pub struct VoxelGrid {
    pub dims: [u32; 3],
    pub cells: Vec<PaletteVoxel>,
}

impl VoxelGrid {
    pub open spec fn sx(&self) -> int {
        self.dims[0] as int
    }

    pub open spec fn sy(&self) -> int {
        self.dims[1] as int
    }

    pub open spec fn sz(&self) -> int {
        self.dims[2] as int
    }

    pub open spec fn volume(&self) -> int {
        self.sx() * self.sy() * self.sz()
    }

    pub open spec fn in_grid(&self, x: int, y: int, z: int) -> bool {
        0 <= x < self.sx() && 0 <= y < self.sy() && 0 <= z < self.sz()
    }

    pub open spec fn on_border(&self, x: int, y: int, z: int) -> bool {
        x == 0 || y == 0 || z == 0 || x == self.sx() - 1 || y == self.sy() - 1 || z == self.sz()
            - 1
    }

    /// The material stored at (x, y, z).
    pub open spec fn cell(&self, x: int, y: int, z: int) -> u8 {
        self.cells@[linear_index(self.sx(), self.sy(), x, y, z)].0
    }

    pub open spec fn wf(&self) -> bool {
        &&& 2 <= self.sx() && 2 <= self.sy() && 2 <= self.sz()
        &&& self.volume() <= u32::MAX
        &&& self.cells@.len() == self.volume()
        &&& forall|x: int, y: int, z: int|
            #![trigger self.cell(x, y, z)]
            self.in_grid(x, y, z) && self.on_border(x, y, z) ==> self.cell(x, y, z)
                == EMPTY_MATERIAL
    }

    /// The offset of an in-grid cell.
    pub fn index_of(&self, x: u32, y: u32, z: u32) -> (r: usize)
        requires
            self.volume() <= u32::MAX,
            self.in_grid(x as int, y as int, z as int),
        ensures
            r == linear_index(self.sx(), self.sy(), x as int, y as int, z as int),
            r < self.volume(),
    {
        proof {
            lemma_index_bounds(self.sx(), self.sy(), self.sz(), x as int, y as int, z as int);
            let (a, b) = (self.sx(), self.sy() * self.sz());
            assert(b <= a * b) by (nonlinear_arith)
                requires a >= 1, b >= 0;
        }
        let sx = self.dims[0];
        let sy = self.dims[1];
        (x + sx * (y + sy * z)) as usize
    }

    /// The voxel at an in-grid cell.
    pub fn get(&self, x: u32, y: u32, z: u32) -> (r: PaletteVoxel)
        requires
            self.wf(),
            self.in_grid(x as int, y as int, z as int),
        ensures
            r.0 == self.cell(x as int, y as int, z as int),
    {
        let i = self.index_of(x, y, z);
        self.cells[i]
    }
}

/// The material that the padded grid holds at (x, y, z) after writing each
/// voxel of `vs`, in order, one cell further along every axis: the last
/// write to a cell wins, and an unwritten cell is empty.
pub open spec fn padded_material(vs: Seq<RawVoxel>, x: int, y: int, z: int) -> u8
    decreases vs.len(),
{
    if vs.len() == 0 {
        EMPTY_MATERIAL
    } else {
        let v = vs.last();
        if v.x + 1 == x && v.y + 1 == y && v.z + 1 == z {
            v.i
        } else {
            padded_material(vs.drop_last(), x, y, z)
        }
    }
}

proof fn lemma_padded_material_unwritten(vs: Seq<RawVoxel>, size: [u32; 3], x: int, y: int, z: int)
    requires
        voxels_in_bounds(size, vs),
        x == 0 || y == 0 || z == 0 || x >= size[0] + 1 || y >= size[1] + 1 || z >= size[2] + 1,
    ensures
        padded_material(vs, x, y, z) == EMPTY_MATERIAL,
    decreases vs.len(),
{
    if vs.len() > 0 {
        assert(vs.drop_last().len() < vs.len());
        lemma_padded_material_unwritten(vs.drop_last(), size, x, y, z);
    }
}

/// Every voxel of `vs` lies inside a model of extent `size`.
pub open spec fn voxels_in_bounds(size: [u32; 3], vs: Seq<RawVoxel>) -> bool {
    forall|k: int|
        0 <= k < vs.len() ==> (#[trigger] vs[k].x as int) < size[0] && (vs[k].y as int) < size[1]
            && (vs[k].z as int) < size[2]
}

/// Copies a model of extent `size` into a grid that is one cell larger on
/// each side: voxel (x, y, z) lands at (x + 1, y + 1, z + 1) and every other
/// cell is empty.
pub fn build_padded(size: [u32; 3], voxels: &Vec<RawVoxel>) -> (g: VoxelGrid)
    requires
        (size[0] + 2) * (size[1] + 2) * (size[2] + 2) <= u32::MAX,
        voxels_in_bounds(size, voxels@),
    ensures
        g.wf(),
        g.sx() == size[0] + 2 && g.sy() == size[1] + 2 && g.sz() == size[2] + 2,
        forall|x: int, y: int, z: int|
            #![trigger g.cell(x, y, z)]
            g.in_grid(x, y, z) ==> g.cell(x, y, z) == padded_material(voxels@, x, y, z),
{
    proof {
        let (a, b, c) = (size[0] + 2, size[1] + 2, size[2] + 2);
        assert(a <= a * b * c && b <= a * b * c && c <= a * b * c) by (nonlinear_arith)
            requires a >= 2, b >= 2, c >= 2;
    }
    let sx: u32 = size[0] + 2;
    let sy: u32 = size[1] + 2;
    let sz: u32 = size[2] + 2;
    proof {
        assert(sx * sy <= sx * sy * sz) by (nonlinear_arith)
            requires sz >= 1, sx * sy >= 0;
        assert(sx * sy >= 0) by (nonlinear_arith)
            requires sx >= 0, sy >= 0;
    }
    let n: u32 = sx * sy * sz;
    let mut cells: Vec<PaletteVoxel> = Vec::new();
    let mut i: u32 = 0;
    while i < n
        invariant
            i <= n,
            cells@.len() == i,
            forall|j: int| 0 <= j < i ==> cells@[j].0 == EMPTY_MATERIAL,
        decreases n - i,
    {
        cells.push(PaletteVoxel(EMPTY_MATERIAL));
        i = i + 1;
    }
    let mut g = VoxelGrid { dims: [sx, sy, sz], cells };
    let ghost vs = voxels@;
    assert(vs.take(0) =~= Seq::<RawVoxel>::empty());
    assert forall|x: int, y: int, z: int|
        #![trigger g.cell(x, y, z)]
        g.in_grid(x, y, z) implies g.cell(x, y, z) == padded_material(vs.take(0), x, y, z) by {
        lemma_index_bounds(g.sx(), g.sy(), g.sz(), x, y, z);
    }
    let mut k: usize = 0;
    while k < voxels.len()
        invariant
            k <= vs.len(),
            vs == voxels@,
            g.dims == [sx, sy, sz],
            sx == size[0] + 2 && sy == size[1] + 2 && sz == size[2] + 2,
            g.volume() == n,
            g.cells@.len() == n,
            n <= u32::MAX,
            voxels_in_bounds(size, vs),
            forall|x: int, y: int, z: int|
                #![trigger g.cell(x, y, z)]
                g.in_grid(x, y, z) ==> g.cell(x, y, z) == padded_material(vs.take(k as int), x, y, z),
        decreases vs.len() - k,
    {
        let v = voxels[k];
        let x = v.x as u32 + 1;
        let y = v.y as u32 + 1;
        let z = v.z as u32 + 1;
        let idx = g.index_of(x, y, z);
        let ghost old_g = g;
        g.cells.set(idx, PaletteVoxel(v.i));
        proof {
            let next = vs.take(k + 1);
            assert(next.drop_last() =~= vs.take(k as int));
            assert(next.last() == v);
            assert forall|a: int, b: int, c: int|
                #![trigger g.cell(a, b, c)]
                g.in_grid(a, b, c) implies g.cell(a, b, c) == padded_material(next, a, b, c) by {
                lemma_index_bounds(g.sx(), g.sy(), g.sz(), a, b, c);
                if a == x && b == y && c == z {
                } else {
                    if linear_index(g.sx(), g.sy(), a, b, c) == idx {
                        lemma_index_injective(
                            g.sx(), g.sy(), g.sz(), a, b, c, x as int, y as int, z as int);
                    }
                    assert(old_g.cell(a, b, c) == padded_material(vs.take(k as int), a, b, c));
                }
            }
        }
        k = k + 1;
    }
    proof {
        assert(vs.take(vs.len() as int) =~= vs);
        assert forall|x: int, y: int, z: int|
            #![trigger g.cell(x, y, z)]
            g.in_grid(x, y, z) && g.on_border(x, y, z) implies g.cell(x, y, z)
                == EMPTY_MATERIAL by {
            lemma_padded_material_unwritten(vs, size, x, y, z);
        }
    }
    g
}

} // verus!
