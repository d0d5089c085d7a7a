//! Corner and edge numbering of an axis-aligned box.
//!
//! The eight corners are numbered in this order: the minimum corner; the three
//! corners one axis away from it (x, then y, then z); the three corners two
//! axes away (xy, xz, yz); and the maximum corner. A corner is described by
//! which of its coordinates come from the box's maximum.
use vstd::prelude::*;

verus! {

/// Which coordinates of a corner are taken from the box's maximum.
#[derive(Debug, Clone, Copy, PartialEq, Eq, Structural)]
pub struct CornerAxes {
    pub x: bool,
    pub y: bool,
    pub z: bool,
}

pub const CORNER_COUNT: usize = 8;

pub const EDGE_COUNT: usize = 12;

pub open spec fn axes(x: bool, y: bool, z: bool) -> CornerAxes {
    CornerAxes { x, y, z }
}

/// The corners in numbering order.
pub open spec fn corner_table() -> Seq<CornerAxes> {
    seq![
        axes(false, false, false),
        axes(true, false, false),
        axes(false, true, false),
        axes(false, false, true),
        axes(true, true, false),
        axes(true, false, true),
        axes(false, true, true),
        axes(true, true, true),
    ]
}

/// The edges, as pairs of corner numbers.
pub open spec fn edge_table() -> Seq<(usize, usize)> {
    seq![
        (0usize, 1usize),
        (0usize, 2usize),
        (0usize, 3usize),
        (1usize, 4usize),
        (2usize, 4usize),
        (1usize, 5usize),
        (3usize, 5usize),
        (2usize, 6usize),
        (3usize, 6usize),
        (4usize, 7usize),
        (6usize, 7usize),
        (5usize, 7usize),
    ]
}

/// Number of axes on which two corners differ.
pub open spec fn axis_distance(a: CornerAxes, b: CornerAxes) -> nat {
    (if a.x != b.x { 1nat } else { 0nat }) + (if a.y != b.y { 1nat } else { 0nat }) + (if a.z
        != b.z {
        1nat
    } else {
        0nat
    })
}

/// The axes of corner number `k`.
pub fn corner_axes(k: usize) -> (r: CornerAxes)
    requires
        k < CORNER_COUNT,
    ensures
        r == corner_table()[k as int],
{
    match k {
        0 => CornerAxes { x: false, y: false, z: false },
        1 => CornerAxes { x: true, y: false, z: false },
        2 => CornerAxes { x: false, y: true, z: false },
        3 => CornerAxes { x: false, y: false, z: true },
        4 => CornerAxes { x: true, y: true, z: false },
        5 => CornerAxes { x: true, y: false, z: true },
        6 => CornerAxes { x: false, y: true, z: true },
        _ => CornerAxes { x: true, y: true, z: true },
    }
}

/// The twelve edges of the box, as pairs of corner numbers.
pub fn box_edges() -> (r: Vec<(usize, usize)>)
    ensures
        r@ == edge_table(),
{
    let r = vec![
        (0, 1),
        (0, 2),
        (0, 3),
        (1, 4),
        (2, 4),
        (1, 5),
        (3, 5),
        (2, 6),
        (3, 6),
        (4, 7),
        (6, 7),
        (5, 7),
    ];
    assert(r@ =~= edge_table());
    r
}

/// The corner numbering lists each of the eight corners once, and the edge
/// list holds twelve distinct edges, each joining two corners that differ on
/// exactly one axis: every edge of the box, and nothing else.
pub proof fn lemma_edges_are_box_edges()
    ensures
        forall|i: int, j: int|
            0 <= i < j < 8 ==> corner_table()[i] != corner_table()[j],
        edge_table().len() == EDGE_COUNT,
        forall|e: int|
            0 <= e < 12 ==> {
                let (a, b) = #[trigger] edge_table()[e];
                a < b < 8 && axis_distance(corner_table()[a as int], corner_table()[b as int])
                    == 1
            },
        forall|e: int, f: int| 0 <= e < f < 12 ==> edge_table()[e] != edge_table()[f],
{
}

} // verus!
