//! Topology of the terrain's height-field mesh.
//!
//! A terrain of scale `s` spans an `s × s` grid of cells whose corners are the
//! `(s + 1)²` grid vertices `(x, z)`, numbered `x + (s + 1) * z`. The mesh is
//! laid out as triangle strips, one per row of cells: each cell `(x, z)`
//! gives a lower triangle `(x, z), (x, z + 1), (x + 1, z)` and an upper
//! triangle `(x + 1, z + 1), (x + 1, z), (x, z + 1)`, in that order, row after
//! row. Positions and normals are attached by the caller; here the mesh is
//! only which vertices each triangle joins and which triangles meet at each
//! vertex.
use vstd::prelude::*;

verus! {

/// The three corners of a triangle, as grid-vertex numbers.
#[derive(Debug, Clone, Copy, PartialEq, Eq, Structural)]
pub struct Triangle {
    pub a: usize,
    pub b: usize,
    pub c: usize,
}

/// The number of triangles that meet at an interior vertex of the grid; the
/// shading divides every vertex's summed face normals by it.
pub const INTERIOR_VALENCE: usize = 6;

/// Number of grid vertices of a terrain of scale `s`.
pub open spec fn vertex_count(s: nat) -> nat {
    (s + 1) * (s + 1)
}

/// Number of the grid vertex `(x, z)`.
pub open spec fn vertex_id(x: nat, z: nat, s: nat) -> nat {
    x + (s + 1) * z
}

pub open spec fn tri(a: nat, b: nat, c: nat) -> Triangle {
    Triangle { a: a as usize, b: b as usize, c: c as usize }
}

/// Triangle number `t` of the mesh of scale `s`.
pub open spec fn triangle_at(s: nat, t: nat) -> Triangle {
    let z = t / (2 * s);
    let x = (t % (2 * s)) / 2;
    if t % 2 == 0 {
        tri(vertex_id(x, z, s), vertex_id(x, z + 1, s), vertex_id(x + 1, z, s))
    } else {
        tri(vertex_id(x + 1, z + 1, s), vertex_id(x + 1, z, s), vertex_id(x, z + 1, s))
    }
}

/// Scales whose vertex and triangle numbers fit in a `usize`.
pub open spec fn scale_fits(s: nat) -> bool {
    2 * vertex_count(s) <= usize::MAX
}

/// The grid vertex number of `(x, z)` on a terrain of scale `scale`.
pub fn grid_vertex(x: usize, z: usize, scale: usize) -> (r: usize)
    requires
        scale_fits(scale as nat),
        x <= scale,
        z <= scale,
    ensures
        r == vertex_id(x as nat, z as nat, scale as nat),
        r < vertex_count(scale as nat),
{
    proof {
        lemma_scale_bound(scale as nat);
        lemma_vertex_bound(x as nat, z as nat, scale as nat);
    }
    x + (scale + 1) * z
}

proof fn lemma_scale_bound(s: nat)
    ensures
        s + 1 <= vertex_count(s),
        2 * s * s <= 2 * vertex_count(s),
{
    assert(s + 1 <= (s + 1) * (s + 1)) by (nonlinear_arith);
    assert(2 * s * s <= 2 * ((s + 1) * (s + 1))) by (nonlinear_arith);
}

proof fn lemma_vertex_bound(x: nat, z: nat, s: nat)
    requires
        scale_fits(s),
        x <= s,
        z <= s,
    ensures
        vertex_id(x, z, s) < vertex_count(s),
        (s + 1) * z <= vertex_id(x, z, s),
{
    assert(x + (s + 1) * z < (s + 1) * (s + 1)) by (nonlinear_arith)
        requires
            x <= s,
            z <= s,
    ;
}

/// The grid coordinates `(x, z)` of vertex number `id`.
pub fn vertex_coords(id: usize, scale: usize) -> (r: (usize, usize))
    requires
        scale_fits(scale as nat),
        id < vertex_count(scale as nat),
    ensures
        r.0 <= scale,
        r.1 <= scale,
        vertex_id(r.0 as nat, r.1 as nat, scale as nat) == id,
{
    proof {
        lemma_scale_bound(scale as nat);
    }
    let w = scale + 1;
    let x = id % w;
    let z = id / w;
    proof {
        vstd::arithmetic::div_mod::lemma_fundamental_div_mod(id as int, w as int);
        assert(z < w) by (nonlinear_arith)
            requires
                id == w * z + x,
                id < w * w,
                x >= 0,
                w >= 1,
        ;
    }
    (x, z)
}

/// The triangles of the mesh of scale `scale`: two per grid cell, row by row.
pub fn strip_triangles(scale: usize) -> (r: Vec<Triangle>)
    requires
        scale_fits(scale as nat),
    ensures
        r@.len() == 2 * scale * scale,
        forall|t: int| 0 <= t < r@.len() ==> r@[t] == triangle_at(scale as nat, t as nat),
        forall|t: int|
            0 <= t < r@.len() ==> (#[trigger] r@[t]).a < vertex_count(scale as nat) && r@[t].b
                < vertex_count(scale as nat) && r@[t].c < vertex_count(scale as nat),
{
    let s = scale;
    let mut r: Vec<Triangle> = Vec::new();
    let mut z: usize = 0;
    while z < s
        invariant
            scale_fits(s as nat),
            z <= s,
            r@.len() == 2 * s * z,
            forall|t: int| 0 <= t < r@.len() ==> r@[t] == triangle_at(s as nat, t as nat),
            forall|t: int|
                0 <= t < r@.len() ==> (#[trigger] r@[t]).a < vertex_count(s as nat) && r@[t].b
                    < vertex_count(s as nat) && r@[t].c < vertex_count(s as nat),
        decreases s - z,
    {
        let mut x: usize = 0;
        while x < s
            invariant
                scale_fits(s as nat),
                z < s,
                x <= s,
                r@.len() == 2 * s * z + 2 * x,
                forall|t: int| 0 <= t < r@.len() ==> r@[t] == triangle_at(s as nat, t as nat),
                forall|t: int|
                    0 <= t < r@.len() ==> (#[trigger] r@[t]).a < vertex_count(s as nat)
                        && r@[t].b < vertex_count(s as nat) && r@[t].c < vertex_count(s as nat),
            decreases s - x,
        {
            let lower = Triangle {
                a: grid_vertex(x, z, s),
                b: grid_vertex(x, z + 1, s),
                c: grid_vertex(x + 1, z, s),
            };
            let upper = Triangle {
                a: grid_vertex(x + 1, z + 1, s),
                b: grid_vertex(x + 1, z, s),
                c: grid_vertex(x, z + 1, s),
            };
            proof {
                let t0 = 2 * s * z + 2 * x;
                lemma_triangle_position(s as nat, z as nat, x as nat);
                assert(lower == triangle_at(s as nat, t0 as nat));
                assert(upper == triangle_at(s as nat, (t0 + 1) as nat));
            }
            r.push(lower);
            r.push(upper);
            x = x + 1;
        }
        proof {
            assert(2 * s * z + 2 * s == 2 * s * (z + 1)) by (nonlinear_arith);
        }
        z = z + 1;
    }
    r
}

/// Triangles `2 s z + 2 x` and `2 s z + 2 x + 1` belong to cell `(x, z)`.
proof fn lemma_triangle_position(s: nat, z: nat, x: nat)
    requires
        x < s,
        z < s,
    ensures
        ((2 * s * z + 2 * x) as nat) / (2 * s) == z,
        ((2 * s * z + 2 * x) as nat) % (2 * s) == 2 * x,
        ((2 * s * z + 2 * x + 1) as nat) / (2 * s) == z,
        ((2 * s * z + 2 * x + 1) as nat) % (2 * s) == 2 * x + 1,
        ((2 * s * z + 2 * x) as nat) % 2 == 0,
        ((2 * s * z + 2 * x + 1) as nat) % 2 == 1,
{
    let t = 2 * s * z + 2 * x;
    assert(t == z * (2 * s) + 2 * x) by (nonlinear_arith)
        requires
            t == 2 * s * z + 2 * x,
    ;
    vstd::arithmetic::div_mod::lemma_fundamental_div_mod_converse(
        t as int,
        (2 * s) as int,
        z as int,
        (2 * x) as int,
    );
    vstd::arithmetic::div_mod::lemma_fundamental_div_mod_converse(
        (t + 1) as int,
        (2 * s) as int,
        z as int,
        (2 * x + 1) as int,
    );
    assert(t == (s * z + x) * 2) by (nonlinear_arith)
        requires
            t == 2 * s * z + 2 * x,
    ;
    vstd::arithmetic::div_mod::lemma_fundamental_div_mod_converse(t as int, 2, (s * z + x) as int, 0);
    vstd::arithmetic::div_mod::lemma_fundamental_div_mod_converse(
        (t + 1) as int,
        2,
        (s * z + x) as int,
        1,
    );
}

/// Number of the first triangle of cell `(x, z)`; the second follows it.
pub open spec fn cell_first(s: nat, x: nat, z: nat) -> nat {
    2 * s * z + 2 * x
}

proof fn lemma_vertex_id_injective(a: nat, b: nat, x: nat, z: nat, s: nat)
    requires
        a <= s,
        x <= s,
        vertex_id(a, b, s) == vertex_id(x, z, s),
    ensures
        a == x,
        b == z,
{
    let w = (s + 1) as int;
    let v = vertex_id(x, z, s) as int;
    assert(v == b * w + a) by (nonlinear_arith)
        requires
            v == a + w * b,
    ;
    assert(v == z * w + x) by (nonlinear_arith)
        requires
            v == x + w * z,
    ;
    vstd::arithmetic::div_mod::lemma_fundamental_div_mod_converse(v, w, b as int, a as int);
    vstd::arithmetic::div_mod::lemma_fundamental_div_mod_converse(v, w, z as int, x as int);
}

/// Where triangle number `t` sits: in cell `(x, z)`, as its lower (even `t`)
/// or upper (odd `t`) triangle.
proof fn lemma_triangle_cell(s: nat, t: nat)
    requires
        t < 2 * s * s,
    ensures
        ({
            let z = t / (2 * s);
            let x = (t % (2 * s)) / 2;
            &&& z < s
            &&& x < s
            &&& t == cell_first(s, x, z) + t % 2
        }),
{
    let d = (2 * s) as int;
    let z = t / (2 * s);
    let c = t % (2 * s);
    let x = c / 2;
    vstd::arithmetic::div_mod::lemma_fundamental_div_mod(t as int, d);
    vstd::arithmetic::div_mod::lemma_fundamental_div_mod(c as int, 2);
    assert(z < s) by (nonlinear_arith)
        requires
            t == d * z + c,
            c >= 0,
            t < d * s,
            d > 0,
    ;
    assert(x < s) by (nonlinear_arith)
        requires
            c == 2 * x + c % 2,
            c < d,
            d == 2 * s,
            c % 2 >= 0,
    ;
    assert(t % 2 == c % 2) by {
        assert(t == (s * z + x) * 2 + c % 2) by (nonlinear_arith)
            requires
                t == d * z + c,
                c == 2 * x + c % 2,
                d == 2 * s,
        ;
        vstd::arithmetic::div_mod::lemma_fundamental_div_mod_converse(
            t as int,
            2,
            (s * z + x) as int,
            (c % 2) as int,
        );
    }
    assert(t == cell_first(s, x, z) + t % 2) by (nonlinear_arith)
        requires
            t == d * z + c,
            c == 2 * x + t % 2,
            d == 2 * s,
    ;
}

/// An interior grid vertex `(x, z)` is a corner of exactly six triangles: the
/// upper one of cell `(x - 1, z - 1)`, both of cells `(x, z - 1)` and
/// `(x - 1, z)`, and the lower one of cell `(x, z)`. This is the valence by
/// which vertex normals are averaged; a vertex on the border has fewer.
pub proof fn lemma_interior_valence(s: nat, x: nat, z: nat, t: nat)
    requires
        scale_fits(s),
        1 <= x < s,
        1 <= z < s,
        t < 2 * s * s,
    ensures
        has_corner(triangle_at(s, t), vertex_id(x, z, s)) <==> (t == cell_first(s, (x - 1) as nat, (z - 1) as nat)
            + 1 || t == cell_first(s, x, (z - 1) as nat) || t == cell_first(s, x, (z - 1) as nat) + 1
            || t == cell_first(s, (x - 1) as nat, z) || t == cell_first(s, (x - 1) as nat, z) + 1
            || t == cell_first(s, x, z)),
{
    let cz = t / (2 * s);
    let cx = (t % (2 * s)) / 2;
    lemma_triangle_cell(s, t);
    let v = vertex_id(x, z, s);
    lemma_vertex_bound(x, z, s);
    lemma_vertex_bound(cx, cz, s);
    lemma_vertex_bound(cx, cz + 1, s);
    lemma_vertex_bound(cx + 1, cz, s);
    lemma_vertex_bound(cx + 1, cz + 1, s);
    let tr = triangle_at(s, t);
    if has_corner(tr, v) {
        if t % 2 == 0 {
            if tr.a == v {
                lemma_vertex_id_injective(cx, cz, x, z, s);
            } else if tr.b == v {
                lemma_vertex_id_injective(cx, cz + 1, x, z, s);
            } else {
                lemma_vertex_id_injective(cx + 1, cz, x, z, s);
            }
        } else {
            if tr.a == v {
                lemma_vertex_id_injective(cx + 1, cz + 1, x, z, s);
            } else if tr.b == v {
                lemma_vertex_id_injective(cx + 1, cz, x, z, s);
            } else {
                lemma_vertex_id_injective(cx, cz + 1, x, z, s);
            }
        }
    } else {
        lemma_triangle_position(s, (z - 1) as nat, (x - 1) as nat);
        lemma_triangle_position(s, (z - 1) as nat, x);
        lemma_triangle_position(s, z, (x - 1) as nat);
        lemma_triangle_position(s, z, x);
    }
}

/// `v` is one of the corners of `t`.
pub open spec fn has_corner(t: Triangle, v: nat) -> bool {
    t.a == v || t.b == v || t.c == v
}

/// `list` holds, in increasing order, exactly the numbers of the triangles
/// among the first `upto` of `tris` that have `v` as a corner.
pub open spec fn lists_touching(list: Seq<usize>, tris: Seq<Triangle>, v: nat, upto: int) -> bool {
    &&& forall|k: int, l: int| 0 <= k < l < list.len() ==> list[k] < list[l]
    &&& forall|k: int|
        0 <= k < list.len() ==> list[k] < upto && has_corner(tris[list[k] as int], v)
    &&& forall|t: int|
        0 <= t < upto && has_corner(#[trigger] tris[t], v) ==> exists|k: int|
            0 <= k < list.len() && list[k] == t
}

/// For every grid vertex, the triangles that meet at it, in increasing order.
pub fn incident_triangles(tris: &Vec<Triangle>, vertices: usize) -> (r: Vec<Vec<usize>>)
    requires
        forall|t: int|
            0 <= t < tris@.len() ==> (#[trigger] tris@[t]).a < vertices && tris@[t].b < vertices
                && tris@[t].c < vertices,
    ensures
        r@.len() == vertices,
        forall|v: int|
            0 <= v < vertices ==> lists_touching(
                (#[trigger] r@[v])@,
                tris@,
                v as nat,
                tris@.len() as int,
            ),
{
    let mut r: Vec<Vec<usize>> = Vec::new();
    let mut v: usize = 0;
    while v < vertices
        invariant
            v <= vertices,
            r@.len() == v,
            forall|w: int| 0 <= w < v ==> (#[trigger] r@[w])@.len() == 0,
        decreases vertices - v,
    {
        r.push(Vec::new());
        v = v + 1;
    }
    let mut t: usize = 0;
    while t < tris.len()
        invariant
            forall|u: int|
                0 <= u < tris@.len() ==> (#[trigger] tris@[u]).a < vertices && tris@[u].b
                    < vertices && tris@[u].c < vertices,
            t <= tris@.len(),
            r@.len() == vertices,
            forall|w: int|
                0 <= w < vertices ==> lists_touching(
                    (#[trigger] r@[w])@,
                    tris@,
                    w as nat,
                    t as int,
                ),
        decreases tris@.len() - t,
    {
        let tr = tris[t];
        append_touching(&mut r, tris, tr.a, t);
        if tr.b != tr.a {
            append_touching(&mut r, tris, tr.b, t);
        }
        if tr.c != tr.a && tr.c != tr.b {
            append_touching(&mut r, tris, tr.c, t);
        }
        proof {
            assert forall|w: int| 0 <= w < vertices implies lists_touching(
                (#[trigger] r@[w])@,
                tris@,
                w as nat,
                t + 1,
            ) by {
                let list = r@[w]@;
                if !has_corner(tr, w as nat) {
                    assert forall|u: int|
                        0 <= u < t + 1 && has_corner(#[trigger] tris@[u], w as nat) implies exists|
                        k: int,
                    | 0 <= k < list.len() && list[k] == u by {
                        assert(u != t);
                    }
                }
            }
        }
        t = t + 1;
    }
    r
}

/// Appends triangle `t` to the list of vertex `v`, whose list covers the
/// triangles before `t`.
fn append_touching(r: &mut Vec<Vec<usize>>, tris: &Vec<Triangle>, v: usize, t: usize)
    requires
        v < old(r)@.len(),
        t < tris@.len(),
        has_corner(tris@[t as int], v as nat),
        lists_touching(old(r)@[v as int]@, tris@, v as nat, t as int),
    ensures
        final(r)@.len() == old(r)@.len(),
        forall|w: int| 0 <= w < old(r)@.len() && w != v ==> final(r)@[w] == old(r)@[w],
        lists_touching(final(r)@[v as int]@, tris@, v as nat, t + 1),
{
    let mut list = r[v].clone();
    assert(list@ =~= old(r)@[v as int]@);
    let ghost before = list@;
    list.push(t);
    proof {
        assert forall|u: int| 0 <= u < t + 1 && has_corner(#[trigger] tris@[u], v as nat) implies exists|
            k: int,
        | 0 <= k < list@.len() && list@[k] == u by {
            if u == t {
                assert(list@[before.len() as int] == u);
            } else {
                let k = choose|k: int| 0 <= k < before.len() && before[k] == u;
                assert(list@[k] == u);
            }
        }
    }
    r.set(v, list);
}

} // verus!
