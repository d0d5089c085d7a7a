//! The neighbourhood of a cell in the periodic grid of scatter points used by
//! cellular noise.
//!
//! Each density level owns an `n × n × n` grid of unit-wrapped cells with one
//! scatter point per cell, stored at the flat position of its cell. The
//! nearest point to a query lies in the query's cell or in one of its 26
//! neighbours. A neighbour that falls outside the grid is taken from the
//! opposite side (the grid tiles space), and is reported as wrapped so that
//! the caller compares against the periodic copies of its point.
use crate::lattice::{cube, flat, flat_index, lemma_wrap_bound, wrap, wrap_index};
use vstd::prelude::*;

verus! {

/// Integer coordinates of a grid cell, or an offset between cells.
#[derive(Debug, Clone, Copy, PartialEq, Eq, Structural)]
pub struct Cell {
    pub x: i64,
    pub y: i64,
    pub z: i64,
}

/// One neighbour of a query cell: the flat position of its scatter point,
/// and whether reaching it crossed the grid's edge.
#[derive(Debug, Clone, Copy, PartialEq, Eq, Structural)]
pub struct NeighborCell {
    pub index: usize,
    pub wrapped: bool,
}

/// Number of cells in a neighbourhood: the cell itself and its 26 neighbours.
pub const NEIGHBORHOOD_SIZE: usize = 27;

/// The offsets of the neighbourhood, in search order: the centre, the face
/// at `z + 1`, the face at `z - 1`, then the ring around the centre.
pub open spec fn offset_table() -> Seq<(int, int, int)> {
    seq![
        (0, 0, 0),
        (0, 0, 1), (-1, 1, 1), (-1, 0, 1), (-1, -1, 1), (0, 1, 1), (0, -1, 1), (1, 1, 1), (1, 0, 1), (1, -1, 1),
        (0, 0, -1), (-1, 1, -1), (-1, 0, -1), (-1, -1, -1), (0, 1, -1), (0, -1, -1), (1, 1, -1), (1, 0, -1), (1, -1, -1),
        (-1, 1, 0), (-1, 0, 0), (-1, -1, 0), (0, 1, 0), (0, -1, 0), (1, 1, 0), (1, 0, 0), (1, -1, 0),
    ]
}

pub open spec fn cell_of(t: (int, int, int)) -> Cell {
    Cell { x: t.0 as i64, y: t.1 as i64, z: t.2 as i64 }
}

pub open spec fn is_unit_offset(c: Cell) -> bool {
    &&& -1 <= c.x <= 1
    &&& -1 <= c.y <= 1
    &&& -1 <= c.z <= 1
}

/// Coordinates small enough that adding a unit offset cannot overflow.
pub open spec fn is_moderate(c: Cell) -> bool {
    &&& -0x4000_0000_0000_0000 <= c.x <= 0x4000_0000_0000_0000
    &&& -0x4000_0000_0000_0000 <= c.y <= 0x4000_0000_0000_0000
    &&& -0x4000_0000_0000_0000 <= c.z <= 0x4000_0000_0000_0000
}

pub open spec fn inside_grid(x: int, y: int, z: int, n: nat) -> bool {
    0 <= x < n && 0 <= y < n && 0 <= z < n
}

/// The neighbour of `cell` at `offset` in a grid of side `n`.
pub open spec fn neighbor_spec(cell: Cell, offset: Cell, n: nat) -> NeighborCell {
    let x = cell.x + offset.x;
    let y = cell.y + offset.y;
    let z = cell.z + offset.z;
    NeighborCell {
        index: flat(wrap(x, n), wrap(y, n), wrap(z, n), n) as usize,
        wrapped: !inside_grid(x, y, z, n),
    }
}

/// The neighbourhood offsets, in search order.
pub fn neighbor_offsets() -> (r: Vec<Cell>)
    ensures
        r@.len() == offset_table().len(),
        forall|k: int| 0 <= k < r@.len() ==> r@[k] == cell_of(#[trigger] offset_table()[k]),
{
    let r = vec![
        Cell { x: 0, y: 0, z: 0 },
        Cell { x: 0, y: 0, z: 1 },
        Cell { x: -1, y: 1, z: 1 },
        Cell { x: -1, y: 0, z: 1 },
        Cell { x: -1, y: -1, z: 1 },
        Cell { x: 0, y: 1, z: 1 },
        Cell { x: 0, y: -1, z: 1 },
        Cell { x: 1, y: 1, z: 1 },
        Cell { x: 1, y: 0, z: 1 },
        Cell { x: 1, y: -1, z: 1 },
        Cell { x: 0, y: 0, z: -1 },
        Cell { x: -1, y: 1, z: -1 },
        Cell { x: -1, y: 0, z: -1 },
        Cell { x: -1, y: -1, z: -1 },
        Cell { x: 0, y: 1, z: -1 },
        Cell { x: 0, y: -1, z: -1 },
        Cell { x: 1, y: 1, z: -1 },
        Cell { x: 1, y: 0, z: -1 },
        Cell { x: 1, y: -1, z: -1 },
        Cell { x: -1, y: 1, z: 0 },
        Cell { x: -1, y: 0, z: 0 },
        Cell { x: -1, y: -1, z: 0 },
        Cell { x: 0, y: 1, z: 0 },
        Cell { x: 0, y: -1, z: 0 },
        Cell { x: 1, y: 1, z: 0 },
        Cell { x: 1, y: 0, z: 0 },
        Cell { x: 1, y: -1, z: 0 },
    ];
    assert(r@ =~= offset_table().map_values(|t: (int, int, int)| cell_of(t)));
    r
}

/// The neighbour of `cell` at `offset` in a grid of side `n`, wrapped to the
/// opposite side of the grid where it falls outside.
pub fn neighbor(cell: Cell, offset: Cell, n: usize) -> (r: NeighborCell)
    requires
        n >= 1,
        cube(n as nat) <= usize::MAX,
        is_moderate(cell),
        is_unit_offset(offset),
    ensures
        r == neighbor_spec(cell, offset, n as nat),
{
    let x = cell.x + offset.x;
    let y = cell.y + offset.y;
    let z = cell.z + offset.z;
    let m = n as i128;
    let inside = 0 <= x && (x as i128) < m && 0 <= y && (y as i128) < m && 0 <= z && (z as i128)
        < m;
    let wx = wrap_index(x, n);
    let wy = wrap_index(y, n);
    let wz = wrap_index(z, n);
    let index = flat_index(wx, wy, wz, n);
    NeighborCell { index, wrapped: !inside }
}

/// The 27 cells around `cell` (itself included) in search order.
pub fn neighborhood(cell: Cell, n: usize) -> (r: Vec<NeighborCell>)
    requires
        n >= 1,
        cube(n as nat) <= usize::MAX,
        is_moderate(cell),
    ensures
        r@.len() == offset_table().len(),
        forall|k: int|
            0 <= k < r@.len() ==> r@[k] == neighbor_spec(
                cell,
                cell_of(#[trigger] offset_table()[k]),
                n as nat,
            ),
        forall|k: int| 0 <= k < r@.len() ==> r@[k].index < cube(n as nat),
{
    let offsets = neighbor_offsets();
    let mut r: Vec<NeighborCell> = Vec::with_capacity(NEIGHBORHOOD_SIZE);
    let mut k: usize = 0;
    while k < offsets.len()
        invariant
            offsets@.len() == offset_table().len(),
            forall|j: int|
                0 <= j < offsets@.len() ==> offsets@[j] == cell_of(#[trigger] offset_table()[j]),
            n >= 1,
            cube(n as nat) <= usize::MAX,
            is_moderate(cell),
            k <= offsets@.len(),
            r@.len() == k,
            forall|j: int|
                0 <= j < k ==> r@[j] == neighbor_spec(
                    cell,
                    cell_of(#[trigger] offset_table()[j]),
                    n as nat,
                ),
            forall|j: int| 0 <= j < k ==> r@[j].index < cube(n as nat),
        decreases offsets@.len() - k,
    {
        let off = offsets[k];
        assert(offsets@[k as int] == cell_of(offset_table()[k as int]));
        let nb = neighbor(cell, off, n);
        proof {
            let ax = cell.x + off.x;
            let ay = cell.y + off.y;
            let az = cell.z + off.z;
            lemma_wrap_bound(ax, n as nat);
            lemma_wrap_bound(ay, n as nat);
            lemma_wrap_bound(az, n as nat);
            crate::lattice::lemma_flat_bound(wrap(ax, n as nat), wrap(ay, n as nat), wrap(az, n as nat), n as nat);
        }
        r.push(nb);
        k = k + 1;
    }
    r
}

/// A neighbour that stays inside the grid is reached without wrapping and
/// sits at the flat position of the neighbouring cell itself.
pub proof fn lemma_interior_neighbor(cell: Cell, offset: Cell, n: nat)
    requires
        n >= 1,
        cube(n) <= usize::MAX,
        inside_grid(cell.x + offset.x, cell.y + offset.y, cell.z + offset.z, n),
    ensures
        !neighbor_spec(cell, offset, n).wrapped,
        neighbor_spec(cell, offset, n).index as int == flat(
            (cell.x + offset.x) as nat,
            (cell.y + offset.y) as nat,
            (cell.z + offset.z) as nat,
            n,
        ),
{
    lemma_wrap_bound(cell.x + offset.x, n);
    lemma_wrap_bound(cell.y + offset.y, n);
    lemma_wrap_bound(cell.z + offset.z, n);
    crate::lattice::lemma_flat_bound(
        (cell.x + offset.x) as nat,
        (cell.y + offset.y) as nat,
        (cell.z + offset.z) as nat,
        n,
    );
}

proof fn lemma_wrap_separates(a: int, b: int, n: nat)
    requires
        n >= 3,
        1 <= a - b <= 2,
    ensures
        wrap(a, n) != wrap(b, n),
{
    let ni = n as int;
    vstd::arithmetic::div_mod::lemma_fundamental_div_mod(a, ni);
    vstd::arithmetic::div_mod::lemma_fundamental_div_mod(b, ni);
    let qa = a / ni;
    let qb = b / ni;
    if wrap(a, n) == wrap(b, n) {
        assert(a - b == ni * (qa - qb)) by (nonlinear_arith)
            requires
                a == ni * qa + a % ni,
                b == ni * qb + b % ni,
                a % ni == b % ni,
        ;
        assert(false) by (nonlinear_arith)
            requires
                a - b == ni * (qa - qb),
                1 <= a - b <= 2,
                ni >= 3,
        ;
    }
}

proof fn lemma_flat_injective(x1: nat, y1: nat, z1: nat, x2: nat, y2: nat, z2: nat, n: nat)
    requires
        x1 < n,
        y1 < n,
        x2 < n,
        y2 < n,
        flat(x1, y1, z1, n) == flat(x2, y2, z2, n),
    ensures
        x1 == x2,
        y1 == y2,
        z1 == z2,
{
    let ni = n as int;
    let f = flat(x1, y1, z1, n) as int;
    assert(f == (y1 + ni * z1) * ni + x1) by (nonlinear_arith)
        requires
            f == x1 + ni * (y1 + ni * z1),
    ;
    assert(f == (y2 + ni * z2) * ni + x2) by (nonlinear_arith)
        requires
            f == x2 + ni * (y2 + ni * z2),
    ;
    vstd::arithmetic::div_mod::lemma_fundamental_div_mod_converse(f, ni, y1 + ni * z1, x1 as int);
    vstd::arithmetic::div_mod::lemma_fundamental_div_mod_converse(f, ni, y2 + ni * z2, x2 as int);
    let g = y1 + ni * z1;
    assert(g == z1 * ni + y1) by (nonlinear_arith)
        requires
            g == y1 + ni * z1,
    ;
    assert(g == z2 * ni + y2) by (nonlinear_arith)
        requires
            g == y2 + ni * z2,
    ;
    vstd::arithmetic::div_mod::lemma_fundamental_div_mod_converse(g, ni, z1 as int, y1 as int);
    vstd::arithmetic::div_mod::lemma_fundamental_div_mod_converse(g, ni, z2 as int, y2 as int);
}

proof fn lemma_axis_differs(a: int, b: int, c: int, n: nat)
    requires
        n >= 3,
        -1 <= a <= 1,
        -1 <= b <= 1,
        a != b,
    ensures
        wrap(c + a, n) != wrap(c + b, n),
{
    if a > b {
        lemma_wrap_separates(c + a, c + b, n);
    } else {
        lemma_wrap_separates(c + b, c + a, n);
    }
}

/// On a grid of side 3 or more the neighbourhood visits 27 different cells:
/// no scatter point is examined twice.
pub proof fn lemma_neighborhood_distinct(cell: Cell, n: nat, k: int, l: int)
    requires
        n >= 3,
        cube(n) <= usize::MAX,
        0 <= k < l < 27,
    ensures
        neighbor_spec(cell, cell_of(offset_table()[k]), n).index != neighbor_spec(
            cell,
            cell_of(offset_table()[l]),
            n,
        ).index,
{
    let a = offset_table()[k];
    let b = offset_table()[l];
    assert(a != b);
    assert(-1 <= a.0 <= 1 && -1 <= a.1 <= 1 && -1 <= a.2 <= 1);
    assert(-1 <= b.0 <= 1 && -1 <= b.1 <= 1 && -1 <= b.2 <= 1);
    let oa = cell_of(a);
    let ob = cell_of(b);
    let (xa, ya, za) = (cell.x + oa.x, cell.y + oa.y, cell.z + oa.z);
    let (xb, yb, zb) = (cell.x + ob.x, cell.y + ob.y, cell.z + ob.z);
    lemma_wrap_bound(xa, n);
    lemma_wrap_bound(ya, n);
    lemma_wrap_bound(za, n);
    lemma_wrap_bound(xb, n);
    lemma_wrap_bound(yb, n);
    lemma_wrap_bound(zb, n);
    crate::lattice::lemma_flat_bound(wrap(xa, n), wrap(ya, n), wrap(za, n), n);
    crate::lattice::lemma_flat_bound(wrap(xb, n), wrap(yb, n), wrap(zb, n), n);
    if flat(wrap(xa, n), wrap(ya, n), wrap(za, n), n) == flat(wrap(xb, n), wrap(yb, n), wrap(zb, n), n) {
        lemma_flat_injective(
            wrap(xa, n),
            wrap(ya, n),
            wrap(za, n),
            wrap(xb, n),
            wrap(yb, n),
            wrap(zb, n),
            n,
        );
        if a.0 != b.0 {
            lemma_axis_differs(a.0, b.0, cell.x as int, n);
        } else if a.1 != b.1 {
            lemma_axis_differs(a.1, b.1, cell.y as int, n);
        } else {
            lemma_axis_differs(a.2, b.2, cell.z as int, n);
        }
    }
}

} // verus!
