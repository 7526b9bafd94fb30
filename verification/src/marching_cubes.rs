//! Marching cubes on a classified lattice.
//!
//! The lattice says of every sample point whether the field there is below
//! the iso-value. From that alone the mesher decides where the surface gets a
//! vertex (on which edge of which cell) and which vertices form triangles.
//! Where on its edge a vertex lies, and its normal, is arithmetic on field
//! values and left to the caller.
use vstd::prelude::*;
use crate::mesh::Mesh;

use crate::cube_tables::{
    corner_below, crossed, edge_end, edge_start, flagged, lemma_edge_table, lemma_flagged_is_edge,
    lemma_triangle_table, triangles_ok, EDGE_TABLE, ROW_END, TRIANGLE_TABLE,
};

verus! {

/// The direction of a cell edge.
#[derive(Clone, Copy, Debug, PartialEq, Eq, Structural)]
pub enum Axis {
    X,
    Y,
    Z,
}

/// How far corner `corner` of a cell lies from the cell's minimum corner along
/// x, in lattice steps.
pub open spec fn corner_dx(corner: int) -> int {
    if corner == 1 || corner == 2 || corner == 5 || corner == 6 {
        1
    } else {
        0
    }
}

/// The same along y.
pub open spec fn corner_dy(corner: int) -> int {
    if corner == 2 || corner == 3 || corner == 6 || corner == 7 {
        1
    } else {
        0
    }
}

/// The same along z.
pub open spec fn corner_dz(corner: int) -> int {
    if corner >= 4 {
        1
    } else {
        0
    }
}

/// The offset of a corner from the minimum corner of its cell.
pub fn corner_offset(corner: u8) -> (offset: (usize, usize, usize))
    requires
        corner < 8,
    ensures
        offset.0 == corner_dx(corner as int),
        offset.1 == corner_dy(corner as int),
        offset.2 == corner_dz(corner as int),
{
    let dx: usize = if corner == 1 || corner == 2 || corner == 5 || corner == 6 {
        1
    } else {
        0
    };
    let dy: usize = if corner == 2 || corner == 3 || corner == 6 || corner == 7 {
        1
    } else {
        0
    };
    let dz: usize = if corner >= 4 {
        1
    } else {
        0
    };
    (dx, dy, dz)
}

/// The two corners that an edge joins, start first.
pub fn edge_corners(edge: u8) -> (corners: (u8, u8))
    requires
        edge < 12,
    ensures
        corners.0 == edge_start(edge as int),
        corners.1 == edge_end(edge as int),
        corners.0 < 8,
        corners.1 < 8,
{
    if edge == 3 {
        (3, 0)
    } else if edge == 7 {
        (7, 4)
    } else if edge < 8 {
        (edge, edge + 1)
    } else {
        (edge - 8, edge - 4)
    }
}

/// The axis along which an edge runs.
pub open spec fn edge_axis_spec(edge: int) -> Axis {
    if edge >= 8 {
        Axis::Z
    } else if edge % 2 == 0 {
        Axis::X
    } else {
        Axis::Y
    }
}

pub fn edge_axis(edge: u8) -> (axis: Axis)
    requires
        edge < 12,
    ensures
        axis == edge_axis_spec(edge as int),
{
    if edge >= 8 {
        Axis::Z
    } else if edge % 2 == 0 {
        Axis::X
    } else {
        Axis::Y
    }
}

/// The two corners of an edge differ in exactly the coordinate of its axis.
pub proof fn lemma_edge_runs_along_axis(edge: int)
    requires
        0 <= edge < 12,
    ensures
        (corner_dx(edge_start(edge)) != corner_dx(edge_end(edge))) == (edge_axis_spec(edge)
            == Axis::X),
        (corner_dy(edge_start(edge)) != corner_dy(edge_end(edge))) == (edge_axis_spec(edge)
            == Axis::Y),
        (corner_dz(edge_start(edge)) != corner_dz(edge_end(edge))) == (edge_axis_spec(edge)
            == Axis::Z),
{
}

/// The cube index of eight corner classifications: corner `k` weighs `2^k`.
pub open spec fn cube_index_of(below: Seq<bool>) -> int {
    (if below[0] { 0x01int } else { 0 }) + (if below[1] { 0x02int } else { 0 })
        + (if below[2] { 0x04int } else { 0 }) + (if below[3] { 0x08int } else { 0 })
        + (if below[4] { 0x10int } else { 0 }) + (if below[5] { 0x20int } else { 0 })
        + (if below[6] { 0x40int } else { 0 }) + (if below[7] { 0x80int } else { 0 })
}

/// A cube index holds each corner's classification in that corner's bit.
pub proof fn lemma_cube_index_bits(below: Seq<bool>)
    requires
        below.len() == 8,
    ensures
        0 <= cube_index_of(below) < 256,
        forall|corner: int|
            0 <= corner < 8 ==> corner_below(cube_index_of(below), corner) == below[corner],
{
    reveal(corner_below);
}

/// The cube index of a cell from the classification of its eight corners.
pub fn find_cube_index(below: &[bool; 8]) -> (index: usize)
    ensures
        index == cube_index_of(below@),
        index < 256,
{
    let mut index: usize = 0;
    if below[0] {
        index += 0x01;
    }
    if below[1] {
        index += 0x02;
    }
    if below[2] {
        index += 0x04;
    }
    if below[3] {
        index += 0x08;
    }
    if below[4] {
        index += 0x10;
    }
    if below[5] {
        index += 0x20;
    }
    if below[6] {
        index += 0x40;
    }
    if below[7] {
        index += 0x80;
    }
    index
}

/// Whether an edge mask flags an edge.
pub fn is_flagged(mask: u16, edge: usize) -> (yes: bool)
    requires
        edge < 12,
    ensures
        yes == flagged(mask as int, edge as int),
{
    proof {
        reveal(flagged);
    }
    if edge == 0 {
        mask % 2 == 1
    } else if edge == 1 {
        (mask / 0x002) % 2 == 1
    } else if edge == 2 {
        (mask / 0x004) % 2 == 1
    } else if edge == 3 {
        (mask / 0x008) % 2 == 1
    } else if edge == 4 {
        (mask / 0x010) % 2 == 1
    } else if edge == 5 {
        (mask / 0x020) % 2 == 1
    } else if edge == 6 {
        (mask / 0x040) % 2 == 1
    } else if edge == 7 {
        (mask / 0x080) % 2 == 1
    } else if edge == 8 {
        (mask / 0x100) % 2 == 1
    } else if edge == 9 {
        (mask / 0x200) % 2 == 1
    } else if edge == 10 {
        (mask / 0x400) % 2 == 1
    } else {
        (mask / 0x800) % 2 == 1
    }
}

/// A vertex of the surface: the point where the surface crosses edge `edge`
/// of the cell whose minimum corner is the lattice point `(x, y, z)`.
#[derive(Clone, Copy, Debug, PartialEq, Eq, Structural)]
pub struct EdgeVertex {
    pub x: usize,
    pub y: usize,
    pub z: usize,
    pub edge: u8,
}

/// The vertices and triangle indices of a surface, as mathematical
/// sequences.
pub ghost struct Surface {
    pub vertices: Seq<EdgeVertex>,
    pub indices: Seq<u32>,
}

/// The edges below `n` that an edge mask flags, in ascending order.
pub open spec fn crossings(mask: int, n: int) -> Seq<int>
    decreases n,
{
    if n <= 0 {
        Seq::empty()
    } else if flagged(mask, n - 1) {
        crossings(mask, n - 1).push(n - 1)
    } else {
        crossings(mask, n - 1)
    }
}

/// The edge numbers of the triangles in what is left of a row of the
/// triangle table, at most `left` triangles.
pub open spec fn triangle_edges(rest: int, left: nat) -> Seq<int>
    decreases left,
{
    if left == 0 || rest % 16 == 15 {
        Seq::empty()
    } else {
        seq![rest % 16, (rest / 0x10) % 16, (rest / 0x100) % 16] + triangle_edges(
            rest / 0x1000,
            (left - 1) as nat,
        )
    }
}

/// The vertex on each of the given edges of the cell at `(x, y, z)`.
pub open spec fn edge_vertices(x: int, y: int, z: int, edges: Seq<int>) -> Seq<EdgeVertex> {
    edges.map_values(
        |edge: int| EdgeVertex { x: x as usize, y: y as usize, z: z as usize, edge: edge as u8 },
    )
}

/// The index of the vertex on a flagged edge, when `base` vertices came before
/// the cell: the vertices of a cell stand in ascending order of their edges.
pub open spec fn slot(base: int, mask: int, edge: int) -> u32 {
    (base + crossings(mask, edge).len()) as u32
}

/// The indices of the vertices on the given edges.
pub open spec fn slots(base: int, mask: int, edges: Seq<int>) -> Seq<u32> {
    edges.map_values(|edge: int| slot(base, mask, edge))
}

/// The vertices that a cell with this edge mask adds: one on each flagged
/// edge, in ascending order of the edges.
pub open spec fn cell_vertices(x: int, y: int, z: int, mask: int) -> Seq<EdgeVertex> {
    edge_vertices(x, y, z, crossings(mask, 12))
}

/// The indices that a cell adds when `base` vertices came before it: for each
/// corner of each triangle of its row, the index of the vertex on that edge.
pub open spec fn cell_indices(base: int, mask: int, row: int) -> Seq<u32> {
    slots(base, mask, triangle_edges(row, 5))
}

/// The surface `s` with the cell at `(x, y, z)` added.
pub open spec fn add_cell(s: Surface, x: int, y: int, z: int, cube_index: int) -> Surface {
    let mask = EDGE_TABLE[cube_index] as int;
    let row = TRIANGLE_TABLE[cube_index] as int;
    Surface {
        vertices: s.vertices + cell_vertices(x, y, z, mask),
        indices: s.indices + cell_indices(s.vertices.len() as int, mask, row),
    }
}

/// The classification of the points of a box-shaped lattice: `below[x][y][z]`
/// says whether the field at that point is below the iso-value.
pub struct Lattice {
    pub below: Vec<Vec<Vec<bool>>>,
}

impl Lattice {
    /// The number of lattice points along x.
    pub open spec fn points_x(&self) -> int {
        self.below@.len() as int
    }

    /// The number of lattice points along y.
    pub open spec fn points_y(&self) -> int {
        self.below@[0]@.len() as int
    }

    /// The number of lattice points along z.
    pub open spec fn points_z(&self) -> int {
        self.below@[0]@[0]@.len() as int
    }

    /// The lattice is a box with at least one point, and small enough for a
    /// mesh indexed by `u32`.
    pub open spec fn wf(&self) -> bool {
        &&& self.points_x() >= 1
        &&& self.points_y() >= 1
        &&& self.points_z() >= 1
        &&& forall|x: int|
            0 <= x < self.points_x() ==> (#[trigger] self.below@[x])@.len() == self.points_y()
        &&& forall|x: int, y: int|
            0 <= x < self.points_x() && 0 <= y < self.points_y() ==> (#[trigger] self.below@[x]@[y])@.len()
                == self.points_z()
        &&& 12 * ((self.points_x() - 1) * (self.points_y() - 1) * (self.points_z() - 1))
            <= u32::MAX
    }

    /// Whether the field at a lattice point is below the iso-value.
    pub open spec fn is_below(&self, x: int, y: int, z: int) -> bool {
        self.below@[x]@[y]@[z]
    }

    /// Whether the field at a corner of the cell at `(x, y, z)` is below the
    /// iso-value.
    pub open spec fn corner_is_below(&self, x: int, y: int, z: int, corner: int) -> bool {
        self.is_below(x + corner_dx(corner), y + corner_dy(corner), z + corner_dz(corner))
    }

    /// The classifications of the eight corners of the cell at `(x, y, z)`.
    pub open spec fn corners(&self, x: int, y: int, z: int) -> Seq<bool> {
        Seq::new(8, |corner: int| self.corner_is_below(x, y, z, corner))
    }

    /// The surface of all cells that come before the cell at `(x, y, z)`
    /// when the lattice is walked with x outermost and z innermost.
    pub open spec fn scan(&self, x: int, y: int, z: int) -> Surface
        decreases x, y, z,
    {
        if z > 0 {
            add_cell(
                self.scan(x, y, z - 1),
                x,
                y,
                z - 1,
                cube_index_of(self.corners(x, y, z - 1)),
            )
        } else if y > 0 {
            self.scan(x, y - 1, self.points_z() - 1)
        } else if x > 0 {
            self.scan(x - 1, self.points_y() - 1, 0)
        } else {
            Surface { vertices: Seq::empty(), indices: Seq::empty() }
        }
    }

    /// The surface of the whole lattice.
    pub open spec fn surface(&self) -> Surface {
        self.scan(self.points_x() - 1, 0, 0)
    }

    /// Takes a classification if it is a box of points that a mesh indexed by
    /// `u32` can cover, and refuses it otherwise.
    #[verifier::loop_isolation(false)]
    pub fn new(below: Vec<Vec<Vec<bool>>>) -> (lattice: Option<Lattice>)
        ensures
            lattice matches Some(l) ==> l.below == below && l.wf(),
            lattice is None <==> !(Lattice { below }).wf(),
    {
        let ghost given = Lattice { below };
        let points_x = below.len();
        if points_x == 0 {
            return None;
        }
        let points_y = below[0].len();
        if points_y == 0 {
            return None;
        }
        let points_z = below[0][0].len();
        if points_z == 0 {
            return None;
        }
        let mut x: usize = 0;
        while x < points_x
            invariant
                x <= points_x,
                forall|i: int| 0 <= i < x ==> (#[trigger] below@[i])@.len() == points_y,
                forall|i: int, j: int|
                    0 <= i < x && 0 <= j < points_y ==> (#[trigger] below@[i]@[j])@.len()
                        == points_z,
            decreases points_x - x,
        {
            if below[x].len() != points_y {
                assert(given.below@[x as int]@.len() != given.points_y());
                return None;
            }
            let mut y: usize = 0;
            while y < points_y
                invariant
                    y <= points_y,
                    forall|j: int|
                        0 <= j < y ==> (#[trigger] below@[x as int]@[j])@.len() == points_z,
                decreases points_y - y,
            {
                if below[x][y].len() != points_z {
                    assert(given.below@[x as int]@[y as int]@.len() != given.points_z());
                    return None;
                }
                y += 1;
            }
            x += 1;
        }
        let ghost cells = (points_x - 1) * (points_y - 1) * (points_z - 1);
        proof {
            lemma_product_bound(points_x - 1, points_y - 1, points_z - 1);
        }
        if points_x == 1 || points_y == 1 || points_z == 1 {
            return Some(Lattice { below });
        }
        let cells_xy = match (points_x - 1).checked_mul(points_y - 1) {
            Some(n) => n,
            None => {
                return None;
            },
        };
        let cells_xyz = match cells_xy.checked_mul(points_z - 1) {
            Some(n) => n,
            None => {
                return None;
            },
        };
        if cells_xyz > (u32::MAX / 12) as usize {
            return None;
        }
        Some(Lattice { below })
    }
}

/// A product of three counts is not negative; it is not below the product of
/// the first two unless the third is zero, in which case it is zero.
proof fn lemma_product_bound(a: int, b: int, c: int)
    requires
        0 <= a,
        0 <= b,
        0 <= c,
    ensures
        0 <= a * b,
        0 <= a * b * c,
        c >= 1 ==> a * b <= a * b * c,
        a == 0 || b == 0 || c == 0 ==> a * b * c == 0,
{
    assert(0 <= a * b) by (nonlinear_arith)
        requires
            0 <= a,
            0 <= b,
    ;
    let ab = a * b;
    assert(a == 0 || b == 0 ==> ab == 0) by (nonlinear_arith)
        requires
            ab == a * b,
    ;
    assert(0 <= ab * c && (c >= 1 ==> ab <= ab * c) && (ab == 0 || c == 0 ==> ab * c == 0))
        by (nonlinear_arith)
        requires
            0 <= ab,
            0 <= c,
    ;
}

/// The number of cells that come before the cell at `(x, y, z)` in a lattice
/// of `cells_y` by `cells_z` cells across.
pub open spec fn cells_before(cells_y: int, cells_z: int, x: int, y: int, z: int) -> int {
    (x * cells_y + y) * cells_z + z
}

proof fn lemma_cells_before(cells_x: int, cells_y: int, cells_z: int, x: int, y: int, z: int)
    requires
        0 <= x < cells_x,
        0 <= y < cells_y,
        0 <= z < cells_z,
    ensures
        0 <= cells_before(cells_y, cells_z, x, y, z) < cells_x * cells_y * cells_z,
        cells_before(cells_y, cells_z, x, y, z + 1) == cells_before(cells_y, cells_z, x, y, z) + 1,
        cells_before(cells_y, cells_z, x, y, cells_z) == cells_before(
            cells_y,
            cells_z,
            x,
            y + 1,
            0,
        ),
        cells_before(cells_y, cells_z, x, cells_y, 0) == cells_before(
            cells_y,
            cells_z,
            x + 1,
            0,
            0,
        ),
{
    let row = x * cells_y + y;
    assert(0 <= row && row + 1 <= cells_x * cells_y) by (nonlinear_arith)
        requires
            row == x * cells_y + y,
            0 <= x < cells_x,
            0 <= y < cells_y,
    ;
    assert(0 <= row * cells_z && (row + 1) * cells_z == row * cells_z + cells_z && (row + 1)
        * cells_z <= (cells_x * cells_y) * cells_z) by (nonlinear_arith)
        requires
            0 <= row,
            row + 1 <= cells_x * cells_y,
            0 < cells_z,
    ;
    assert((x * cells_y + cells_y) * cells_z == ((x + 1) * cells_y + 0) * cells_z)
        by (nonlinear_arith);
}

proof fn lemma_crossings_len(mask: int, n: int)
    requires
        0 <= n,
    ensures
        crossings(mask, n).len() <= n,
        forall|i: int| 0 <= i < crossings(mask, n).len() ==> 0 <= #[trigger] crossings(mask, n)[i] < n && flagged(mask, crossings(mask, n)[i]),
    decreases n,
{
    if n > 0 {
        lemma_crossings_len(mask, n - 1);
    }
}

/// The flagged edges below a flagged edge are fewer than all flagged edges.
proof fn lemma_crossings_grow(mask: int, edge: int, n: int)
    requires
        0 <= edge < n,
        flagged(mask, edge),
    ensures
        crossings(mask, edge).len() < crossings(mask, n).len(),
    decreases n,
{
    if n - 1 > edge {
        lemma_crossings_grow(mask, edge, n - 1);
    }
}

proof fn lemma_no_crossings(n: int)
    ensures
        crossings(0, n) == Seq::<int>::empty(),
    decreases n,
{
    reveal(flagged);
    if n > 0 {
        lemma_no_crossings(n - 1);
    }
}

/// Adds to a mesh the vertices and triangles of the cell at `(x, y, z)`.
fn polygonise(
    cube_index: usize,
    x: usize,
    y: usize,
    z: usize,
    vertices: &mut Vec<EdgeVertex>,
    indices: &mut Vec<u32>,
)
    requires
        cube_index < 256,
        old(vertices)@.len() + 12 <= u32::MAX,
    ensures
        (Surface { vertices: final(vertices)@, indices: final(indices)@ }) == add_cell(
            Surface { vertices: old(vertices)@, indices: old(indices)@ },
            x as int,
            y as int,
            z as int,
            cube_index as int,
        ),
{
    let edges = EDGE_TABLE[cube_index];
    let row = TRIANGLE_TABLE[cube_index];
    let ghost mask = edges as int;
    let ghost base = vertices@.len() as int;
    let ghost target = add_cell(
        Surface { vertices: vertices@, indices: indices@ },
        x as int,
        y as int,
        z as int,
        cube_index as int,
    );
    proof {
        lemma_triangle_table(cube_index as int);
    }
    if edges == 0 {
        proof {
            lemma_no_crossings(12);
            assert(target.vertices =~= vertices@);
            assert(target.indices =~= indices@);
        }
        return ;
    }
    let mut index_map: [usize; 12] = [0, 0, 0, 0, 0, 0, 0, 0, 0, 0, 0, 0];
    let mut edge: usize = 0;
    while edge < 12
        invariant
            edge <= 12,
            mask == edges as int,
            base + 12 <= u32::MAX,
            vertices@ == old(vertices)@ + edge_vertices(
                x as int,
                y as int,
                z as int,
                crossings(mask, edge as int),
            ),
            old(vertices)@.len() == base,
            crossings(mask, edge as int).len() <= edge,
            forall|e: int|
                0 <= e < edge && flagged(mask, e) ==> index_map[e] == base + crossings(
                    mask,
                    e,
                ).len(),
        decreases 12 - edge,
    {
        if is_flagged(edges, edge) {
            index_map[edge] = vertices.len();
            vertices.push(EdgeVertex { x, y, z, edge: edge as u8 });
        }
        proof {
            assert(vertices@ =~= old(vertices)@ + edge_vertices(
                x as int,
                y as int,
                z as int,
                crossings(mask, edge as int + 1),
            ));
        }
        edge += 1;
    }
    let mut rest: u64 = row;
    let mut left: usize = 5;
    while left > 0 && rest % 16 != ROW_END
        invariant
            triangles_ok(mask, rest as int, left as nat),
            left <= 5,
            base + 12 <= u32::MAX,
            crossings(mask, 12).len() <= 12,
            vertices@.len() == base + crossings(mask, 12).len(),
            forall|e: int|
                0 <= e < 12 && flagged(mask, e) ==> index_map[e] == base + crossings(
                    mask,
                    e,
                ).len(),
            indices@ + slots(base, mask, triangle_edges(rest as int, left as nat))
                == target.indices,
        decreases left,
    {
        let a = (rest % 16) as usize;
        let b = ((rest / 0x10) % 16) as usize;
        let c = ((rest / 0x100) % 16) as usize;
        proof {
            lemma_flagged_is_edge(mask, a as int);
            lemma_flagged_is_edge(mask, b as int);
            lemma_flagged_is_edge(mask, c as int);
            lemma_crossings_grow(mask, a as int, 12);
            lemma_crossings_grow(mask, b as int, 12);
            lemma_crossings_grow(mask, c as int, 12);
        }
        let i0 = index_map[a];
        let i1 = index_map[b];
        let i2 = index_map[c];
        let ghost before = indices@;
        indices.push(i0 as u32);
        indices.push(i1 as u32);
        indices.push(i2 as u32);
        proof {
            let triple = seq![a as int, b as int, c as int];
            let later = triangle_edges(rest as int / 0x1000, (left - 1) as nat);
            assert(triangle_edges(rest as int, left as nat) == triple + later);
            assert(slots(base, mask, triple + later) =~= slots(base, mask, triple) + slots(
                base,
                mask,
                later,
            ));
            assert(indices@ =~= before + slots(base, mask, triple));
            assert(indices@ + slots(base, mask, later) =~= before + slots(
                base,
                mask,
                triple + later,
            ));
        }
        rest = rest / 0x1000;
        left -= 1;
    }
    proof {
        assert(triangle_edges(rest as int, left as nat) =~= Seq::<int>::empty());
        assert(indices@ =~= target.indices);
    }
}

/// Extracts the surface of a classified lattice.
///
/// The cells are walked with x outermost and z innermost. Each cell adds one
/// vertex per crossed edge, in ascending order of its edges, and the
/// triangles of its row of the triangle table over those vertices.
pub fn marching_cubes(lattice: &Lattice) -> (mesh: Mesh<EdgeVertex>)
    requires
        lattice.wf(),
    ensures
        mesh.vertices@ == lattice.surface().vertices,
        mesh.indices@ == lattice.surface().indices,
        mesh.name@ == "test"@,
{
    let mut vertices: Vec<EdgeVertex> = Vec::new();
    let mut indices: Vec<u32> = Vec::new();
    let cells_x = lattice.below.len() - 1;
    let cells_y = lattice.below[0].len() - 1;
    let cells_z = lattice.below[0][0].len() - 1;
    let ghost cy = cells_y as int;
    let ghost cz = cells_z as int;
    let mut x: usize = 0;
    while x < cells_x
        invariant
            lattice.wf(),
            cells_x == lattice.points_x() - 1,
            cells_y == lattice.points_y() - 1 == cy,
            cells_z == lattice.points_z() - 1 == cz,
            x <= cells_x,
            (Surface { vertices: vertices@, indices: indices@ }) == lattice.scan(x as int, 0, 0),
            vertices@.len() <= 12 * cells_before(cy, cz, x as int, 0, 0),
        decreases cells_x - x,
    {
        let mut y: usize = 0;
        while y < cells_y
            invariant
                lattice.wf(),
                cells_x == lattice.points_x() - 1,
                cells_y == lattice.points_y() - 1 == cy,
                cells_z == lattice.points_z() - 1 == cz,
                x < cells_x,
                y <= cells_y,
                (Surface { vertices: vertices@, indices: indices@ }) == lattice.scan(
                    x as int,
                    y as int,
                    0,
                ),
                vertices@.len() <= 12 * cells_before(cy, cz, x as int, y as int, 0),
            decreases cells_y - y,
        {
            let mut z: usize = 0;
            while z < cells_z
                invariant
                    lattice.wf(),
                    cells_x == lattice.points_x() - 1,
                    cells_y == lattice.points_y() - 1 == cy,
                    cells_z == lattice.points_z() - 1 == cz,
                    x < cells_x,
                    y < cells_y,
                    z <= cells_z,
                    (Surface { vertices: vertices@, indices: indices@ }) == lattice.scan(
                        x as int,
                        y as int,
                        z as int,
                    ),
                    vertices@.len() <= 12 * cells_before(cy, cz, x as int, y as int, z as int),
                decreases cells_z - z,
            {
                let plane = &lattice.below[x];
                let next_plane = &lattice.below[x + 1];
                let corners = [
                    plane[y][z],
                    next_plane[y][z],
                    next_plane[y + 1][z],
                    plane[y + 1][z],
                    plane[y][z + 1],
                    next_plane[y][z + 1],
                    next_plane[y + 1][z + 1],
                    plane[y + 1][z + 1],
                ];
                let cube_index = find_cube_index(&corners);
                proof {
                    assert(corners@ =~= lattice.corners(x as int, y as int, z as int));
                    lemma_cells_before(cells_x as int, cy, cz, x as int, y as int, z as int);
                }
                let ghost before = vertices@.len();
                polygonise(cube_index, x, y, z, &mut vertices, &mut indices);
                proof {
                    lemma_crossings_len(EDGE_TABLE[cube_index as int] as int, 12);
                    assert(vertices@.len() <= before + 12);
                }
                z += 1;
            }
            proof {
                if cells_z > 0 {
                    lemma_cells_before(cells_x as int, cy, cz, x as int, y as int, 0);
                } else {
                    assert(cells_before(cy, cz, x as int, y as int, 0) == cells_before(
                        cy,
                        cz,
                        x as int,
                        y as int + 1,
                        0,
                    )) by (nonlinear_arith)
                        requires
                            cz == 0,
                    ;
                }
            }
            y += 1;
        }
        proof {
            assert(cells_before(cy, cz, x as int, cy, 0) == cells_before(cy, cz, x as int + 1, 0, 0))
                by (nonlinear_arith);
        }
        x += 1;
    }
    Mesh { name: "test".to_owned(), vertices, indices }
}

/// The triangles of a well-formed row come in threes, on flagged edges.
proof fn lemma_triangle_edges(mask: int, rest: int, left: nat)
    requires
        triangles_ok(mask, rest, left),
    ensures
        triangle_edges(rest, left).len() % 3 == 0,
        forall|i: int|
            0 <= i < triangle_edges(rest, left).len() ==> 0 <= #[trigger] triangle_edges(
                rest,
                left,
            )[i] < 12 && flagged(mask, triangle_edges(rest, left)[i]),
    decreases left,
{
    if left > 0 && rest % 16 != 15 {
        lemma_triangle_edges(mask, rest / 0x1000, (left - 1) as nat);
        lemma_flagged_is_edge(mask, rest % 16);
        lemma_flagged_is_edge(mask, (rest / 0x10) % 16);
        lemma_flagged_is_edge(mask, (rest / 0x100) % 16);
    }
}

/// The indices that a cell adds name vertices of that cell.
proof fn lemma_cell_indices(base: int, mask: int, row: int)
    requires
        triangles_ok(mask, row, 5),
        0 <= base,
        base + 12 <= u32::MAX,
    ensures
        cell_indices(base, mask, row).len() % 3 == 0,
        forall|i: int|
            0 <= i < cell_indices(base, mask, row).len() ==> (#[trigger] cell_indices(
                base,
                mask,
                row,
            )[i]) < base + crossings(mask, 12).len(),
{
    lemma_triangle_edges(mask, row, 5);
    lemma_crossings_len(mask, 12);
    let edges = triangle_edges(row, 5);
    assert forall|i: int| 0 <= i < cell_indices(base, mask, row).len() implies (
    #[trigger] cell_indices(base, mask, row)[i]) < base + crossings(mask, 12).len() by {
        let edge = edges[i];
        assert(cell_indices(base, mask, row)[i] == slot(base, mask, edge));
        lemma_crossings_grow(mask, edge, 12);
    }
}

impl Lattice {
    /// The number of cells along x.
    pub open spec fn cells_x(&self) -> int {
        self.points_x() - 1
    }

    /// The number of cells along y.
    pub open spec fn cells_y(&self) -> int {
        self.points_y() - 1
    }

    /// The number of cells along z.
    pub open spec fn cells_z(&self) -> int {
        self.points_z() - 1
    }

    /// The places at which a walk over the cells can stand: at a cell, or at
    /// the end of a row of cells, of a plane of cells, or of the lattice.
    pub open spec fn on_walk(&self, x: int, y: int, z: int) -> bool {
        &&& 0 <= x <= self.cells_x()
        &&& 0 <= y <= self.cells_y()
        &&& 0 <= z <= self.cells_z()
        &&& x == self.cells_x() ==> y == 0
        &&& y == self.cells_y() || x == self.cells_x() ==> z == 0
    }

    /// The surface crosses the edge on which a vertex stands: the field is
    /// below the iso-value at exactly one end of it.
    pub open spec fn on_crossed_edge(&self, v: EdgeVertex) -> bool {
        &&& v.x < self.cells_x()
        &&& v.y < self.cells_y()
        &&& v.z < self.cells_z()
        &&& v.edge < 12
        &&& self.corner_is_below(v.x as int, v.y as int, v.z as int, edge_start(v.edge as int))
            != self.corner_is_below(v.x as int, v.y as int, v.z as int, edge_end(v.edge as int))
    }

    /// A surface whose triangles are whole and name vertices that exist, all
    /// of them on crossed edges.
    pub open spec fn well_formed_surface(&self, s: Surface) -> bool {
        &&& s.indices.len() % 3 == 0
        &&& forall|i: int| 0 <= i < s.indices.len() ==> (#[trigger] s.indices[i]) < s.vertices.len()
        &&& forall|i: int| 0 <= i < s.vertices.len() ==> self.on_crossed_edge(#[trigger] s.vertices[i])
    }

    /// The vertices that a cell adds stand on crossed edges of that cell.
    proof fn lemma_cell_vertices(&self, x: int, y: int, z: int)
        requires
            self.wf(),
            0 <= x < self.cells_x(),
            0 <= y < self.cells_y(),
            0 <= z < self.cells_z(),
        ensures
            forall|i: int|
                0 <= i < crossings(
                    EDGE_TABLE[cube_index_of(self.corners(x, y, z))] as int,
                    12,
                ).len() ==> self.on_crossed_edge(
                    #[trigger] cell_vertices(
                        x,
                        y,
                        z,
                        EDGE_TABLE[cube_index_of(self.corners(x, y, z))] as int,
                    )[i],
                ),
    {
        let corners = self.corners(x, y, z);
        let cube_index = cube_index_of(corners);
        lemma_cube_index_bits(corners);
        lemma_edge_table(cube_index);
        let mask = EDGE_TABLE[cube_index] as int;
        lemma_crossings_len(mask, 12);
        assert forall|i: int| 0 <= i < crossings(mask, 12).len() implies self.on_crossed_edge(
            #[trigger] cell_vertices(x, y, z, mask)[i],
        ) by {
            let edge = crossings(mask, 12)[i];
            let v = cell_vertices(x, y, z, mask)[i];
            assert(self.below.len() == self.points_x());
            assert(self.below[0].len() == self.points_y());
            assert(self.below[0][0].len() == self.points_z());
            assert(v.x == x && v.y == y && v.z == z && v.edge == edge);
            assert(crossed(cube_index, edge));
            assert(corners[edge_start(edge)] == self.corner_is_below(x, y, z, edge_start(edge)));
            assert(corners[edge_end(edge)] == self.corner_is_below(x, y, z, edge_end(edge)));
        }
    }

    proof fn lemma_add_cell(&self, s: Surface, x: int, y: int, z: int)
        requires
            self.wf(),
            0 <= x < self.cells_x(),
            0 <= y < self.cells_y(),
            0 <= z < self.cells_z(),
            self.well_formed_surface(s),
            s.vertices.len() + 12 <= u32::MAX,
        ensures
            self.well_formed_surface(add_cell(s, x, y, z, cube_index_of(self.corners(x, y, z)))),
            add_cell(s, x, y, z, cube_index_of(self.corners(x, y, z))).vertices.len()
                <= s.vertices.len() + 12,
    {
        let cube_index = cube_index_of(self.corners(x, y, z));
        lemma_cube_index_bits(self.corners(x, y, z));
        lemma_triangle_table(cube_index);
        let mask = EDGE_TABLE[cube_index] as int;
        let row = TRIANGLE_TABLE[cube_index] as int;
        let base = s.vertices.len() as int;
        let t = add_cell(s, x, y, z, cube_index);
        lemma_crossings_len(mask, 12);
        self.lemma_cell_vertices(x, y, z);
        lemma_cell_indices(base, mask, row);
        let added = cell_vertices(x, y, z, mask);
        let joined = cell_indices(base, mask, row);
        assert forall|i: int| 0 <= i < t.vertices.len() implies self.on_crossed_edge(
            #[trigger] t.vertices[i],
        ) by {
            if i >= base {
                assert(t.vertices[i] == added[i - base]);
            } else {
                assert(t.vertices[i] == s.vertices[i]);
            }
        }
        assert forall|i: int| 0 <= i < t.indices.len() implies (#[trigger] t.indices[i])
            < t.vertices.len() by {
            if i >= s.indices.len() {
                assert(t.indices[i] == joined[i - s.indices.len()]);
            } else {
                assert(t.indices[i] == s.indices[i]);
            }
        }
    }

    /// What holds of the surface at every place of the walk.
    proof fn lemma_scan(&self, x: int, y: int, z: int)
        requires
            self.wf(),
            self.on_walk(x, y, z),
        ensures
            self.well_formed_surface(self.scan(x, y, z)),
            self.scan(x, y, z).vertices.len() <= 12 * cells_before(
                self.cells_y(),
                self.cells_z(),
                x,
                y,
                z,
            ),
        decreases x, y, z,
    {
        let cy = self.cells_y();
        let cz = self.cells_z();
        if z > 0 {
            self.lemma_scan(x, y, z - 1);
            lemma_cells_before(self.cells_x(), cy, cz, x, y, z - 1);
            self.lemma_add_cell(self.scan(x, y, z - 1), x, y, z - 1);
        } else if y > 0 {
            self.lemma_scan(x, y - 1, cz);
            assert(cells_before(cy, cz, x, y - 1, cz) == cells_before(cy, cz, x, y, 0))
                by (nonlinear_arith);
        } else if x > 0 {
            self.lemma_scan(x - 1, cy, 0);
            assert(cells_before(cy, cz, x - 1, cy, 0) == cells_before(cy, cz, x, 0, 0))
                by (nonlinear_arith);
        } else {
            assert(cells_before(cy, cz, 0, 0, 0) == 0) by (nonlinear_arith);
        }
    }

    /// The triangles of the surface are whole, every index names a vertex of
    /// the surface, and every vertex stands on an edge between a lattice
    /// point below the iso-value and one that is not.
    pub proof fn lemma_surface_well_formed(&self)
        requires
            self.wf(),
        ensures
            self.well_formed_surface(self.surface()),
            self.surface().vertices.len() <= u32::MAX,
    {
        self.lemma_scan(self.cells_x(), 0, 0);
        let cells = self.cells_x() * self.cells_y() * self.cells_z();
        assert(cells_before(self.cells_y(), self.cells_z(), self.cells_x(), 0, 0) == cells)
            by (nonlinear_arith)
            requires
                cells == self.cells_x() * self.cells_y() * self.cells_z(),
        ;
    }

    /// Whether two lattices have the same points, classified alike.
    pub open spec fn same_classification(&self, other: &Lattice) -> bool {
        &&& self.points_x() == other.points_x()
        &&& self.points_y() == other.points_y()
        &&& self.points_z() == other.points_z()
        &&& forall|x: int, y: int, z: int|
            0 <= x < self.points_x() && 0 <= y < self.points_y() && 0 <= z < self.points_z()
                ==> #[trigger] self.is_below(x, y, z) == other.is_below(x, y, z)
    }

    proof fn lemma_same_scan(&self, other: &Lattice, x: int, y: int, z: int)
        requires
            self.wf(),
            other.wf(),
            self.same_classification(other),
            self.on_walk(x, y, z),
        ensures
            self.scan(x, y, z) == other.scan(x, y, z),
        decreases x, y, z,
    {
        if z > 0 {
            self.lemma_same_scan(other, x, y, z - 1);
            assert forall|corner: int| 0 <= corner < 8 implies #[trigger] self.corner_is_below(
                x,
                y,
                z - 1,
                corner,
            ) == other.corner_is_below(x, y, z - 1, corner) by {
                assert(self.is_below(
                    x + corner_dx(corner),
                    y + corner_dy(corner),
                    z - 1 + corner_dz(corner),
                ) == other.is_below(
                    x + corner_dx(corner),
                    y + corner_dy(corner),
                    z - 1 + corner_dz(corner),
                ));
            }
            assert(self.corners(x, y, z - 1) =~= other.corners(x, y, z - 1));
        } else if y > 0 {
            self.lemma_same_scan(other, x, y - 1, self.cells_z());
        } else if x > 0 {
            self.lemma_same_scan(other, x - 1, self.cells_y(), 0);
        }
    }

    /// The surface is a function of the classification: lattices with the
    /// same points, classified alike, have the same vertices and the same
    /// indices.
    pub proof fn lemma_same_classification_same_surface(&self, other: &Lattice)
        requires
            self.wf(),
            other.wf(),
            self.same_classification(other),
        ensures
            self.surface() == other.surface(),
    {
        self.lemma_same_scan(other, self.cells_x(), 0, 0);
    }

    /// Whether every point of the lattice is classified as `below`.
    pub open spec fn uniform(&self, below: bool) -> bool {
        forall|x: int, y: int, z: int|
            0 <= x < self.points_x() && 0 <= y < self.points_y() && 0 <= z < self.points_z()
                ==> #[trigger] self.is_below(x, y, z) == below
    }

    proof fn lemma_uniform_scan(&self, below: bool, x: int, y: int, z: int)
        requires
            self.wf(),
            self.uniform(below),
            self.on_walk(x, y, z),
        ensures
            self.scan(x, y, z).vertices.len() == 0,
            self.scan(x, y, z).indices.len() == 0,
        decreases x, y, z,
    {
        if z > 0 {
            self.lemma_scan(x, y, z - 1);
            self.lemma_uniform_scan(below, x, y, z - 1);
            self.lemma_add_cell(self.scan(x, y, z - 1), x, y, z - 1);
            let t = self.scan(x, y, z);
            if t.vertices.len() > 0 {
                let v = t.vertices[0];
                assert(self.on_crossed_edge(v));
                assert(self.is_below(
                    v.x + corner_dx(edge_start(v.edge as int)),
                    v.y + corner_dy(edge_start(v.edge as int)),
                    v.z + corner_dz(edge_start(v.edge as int)),
                ) == below);
                assert(self.is_below(
                    v.x + corner_dx(edge_end(v.edge as int)),
                    v.y + corner_dy(edge_end(v.edge as int)),
                    v.z + corner_dz(edge_end(v.edge as int)),
                ) == below);
            }
            if t.indices.len() > 0 {
                assert(t.indices[0] < t.vertices.len());
            }
        } else if y > 0 {
            self.lemma_uniform_scan(below, x, y - 1, self.cells_z());
        } else if x > 0 {
            self.lemma_uniform_scan(below, x - 1, self.cells_y(), 0);
        }
    }

    /// A lattice that lies wholly on one side of the surface yields no
    /// vertex and no triangle.
    pub proof fn lemma_uniform_lattice_is_empty(&self, below: bool)
        requires
            self.wf(),
            self.uniform(below),
        ensures
            self.surface().vertices.len() == 0,
            self.surface().indices.len() == 0,
    {
        self.lemma_uniform_scan(below, self.cells_x(), 0, 0);
    }
}

} // verus!
