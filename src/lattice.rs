//! A cubic lattice of texels with periodic (wrap-around) addressing.
//!
//! Texel `(x, y, z)` of a lattice of side `n` lives at the flat position
//! `x + n * (y + n * z)`. Sampling takes integer lattice coordinates that may
//! lie anywhere on the integer line and wraps each of them modulo `n`, so the
//! lattice tiles space periodically.
use vstd::arithmetic::div_mod::lemma_fundamental_div_mod_converse;
use vstd::prelude::*;

verus! {

/// Number of texels of a cube of side `n`.
pub open spec fn cube(n: nat) -> nat {
    n * n * n
}

/// Flat position of texel `(x, y, z)` in a cube of side `n`.
pub open spec fn flat(x: nat, y: nat, z: nat, n: nat) -> nat {
    x + n * (y + n * z)
}

/// The coordinate `i` wrapped into `[0, n)`.
pub open spec fn wrap(i: int, n: nat) -> nat
    recommends
        n > 0,
{
    (i % (n as int)) as nat
}

pub proof fn lemma_flat_bound(x: nat, y: nat, z: nat, n: nat)
    requires
        x < n,
        y < n,
        z < n,
    ensures
        flat(x, y, z, n) < cube(n),
{
    assert(y + n * z <= (n - 1) + n * (n - 1)) by (nonlinear_arith)
        requires
            y < n,
            z < n,
    ;
    assert(x + n * (y + n * z) < n + n * ((n - 1) + n * (n - 1))) by (nonlinear_arith)
        requires
            x < n,
            y + n * z <= (n - 1) + n * (n - 1),
    ;
    assert(n + n * ((n - 1) + n * (n - 1)) == n * n * n) by (nonlinear_arith);
}

pub proof fn lemma_wrap_bound(i: int, n: nat)
    requires
        n > 0,
    ensures
        wrap(i, n) < n,
        0 <= i < n ==> wrap(i, n) == i,
{
    if 0 <= i < n {
        lemma_fundamental_div_mod_converse(i, n as int, 0, i);
    }
}

/// Flat position of `(x, y, z)` in a cube of side `n`.
pub fn flat_index(x: usize, y: usize, z: usize, n: usize) -> (r: usize)
    requires
        x < n,
        y < n,
        z < n,
        cube(n as nat) <= usize::MAX,
    ensures
        r == flat(x as nat, y as nat, z as nat, n as nat),
        r < cube(n as nat),
{
    proof {
        lemma_flat_bound(x as nat, y as nat, z as nat, n as nat);
        assert(y + n * z <= n * (y + n * z)) by (nonlinear_arith)
            requires
                n >= 1,
        ;
        assert(n * z <= y + n * z);
        assert(n * (y + n * z) <= x + n * (y + n * z));
    }
    let nz = n * z;
    let inner = y + nz;
    let outer = n * inner;
    x + outer
}

/// Wraps the coordinate `i` into `[0, n)` (Euclidean remainder).
pub fn wrap_index(i: i64, n: usize) -> (r: usize)
    requires
        n > 0,
    ensures
        r == wrap(i as int, n as nat),
        r < n,
{
    let m = n as u64;
    if i >= 0 {
        let k = i as u64;
        let r = k % m;
        proof {
            vstd::arithmetic::div_mod::lemma_fundamental_div_mod(k as int, m as int);
            lemma_fundamental_div_mod_converse(i as int, m as int, (k / m) as int, r as int);
        }
        r as usize
    } else {
        // `i == -k - 1` with `k >= 0`; written this way `-i` never overflows.
        let k = (-(i + 1)) as u64;
        let q = k / m;
        let s = k % m;
        let r = m - 1 - s;
        proof {
            assert(k == q * m + s);
            assert(i == (-q - 1) * (m as int) + r) by (nonlinear_arith)
                requires
                    k == q * m + s,
                    i == -(k as int) - 1,
                    r == m - 1 - s,
            ;
            lemma_fundamental_div_mod_converse(i as int, m as int, -q - 1, r as int);
        }
        r as usize
    }
}

/// A cube of `side³` texels, addressed periodically.
#[derive(Debug, Clone)]
pub struct Lattice<T> {
    side: usize,
    texels: Vec<T>,
}

impl<T: Copy> Lattice<T> {
    /// Side length of the cube.
    pub closed spec fn side(&self) -> nat {
        self.side as nat
    }

    /// All texels, at their flat positions.
    pub closed spec fn texels(&self) -> Seq<T> {
        self.texels@
    }

    pub open spec fn wf(&self) -> bool {
        &&& self.side() >= 1
        &&& self.texels().len() == cube(self.side())
        &&& cube(self.side()) <= usize::MAX
    }

    /// The texel stored at `(x, y, z)`.
    pub open spec fn at(&self, x: nat, y: nat, z: nat) -> T {
        self.texels()[flat(x, y, z, self.side()) as int]
    }

    /// What sampling returns at the integer lattice coordinates `(u, v, w)`.
    pub open spec fn sample_spec(&self, u: int, v: int, w: int) -> T {
        let n = self.side();
        self.at(wrap(u, n), wrap(v, n), wrap(w, n))
    }

    /// A lattice of side `resolution` (at least 1) with every texel `fill`.
    pub fn new(resolution: usize, fill: T) -> (r: Self)
        requires
            cube(if resolution == 0 { 1 } else { resolution as nat }) <= usize::MAX,
        ensures
            r.wf(),
            r.side() == if resolution == 0 { 1 } else { resolution as nat },
            forall|i: int| 0 <= i < r.texels().len() ==> r.texels()[i] == fill,
    {
        let side = if resolution == 0 { 1 } else { resolution };
        proof {
            assert(side * side <= side * side * side) by (nonlinear_arith)
                requires
                    side >= 1,
            ;
        }
        let count = side * side * side;
        let mut texels: Vec<T> = Vec::with_capacity(count);
        let mut i: usize = 0;
        while i < count
            invariant
                i <= count,
                texels@.len() == i,
                forall|j: int| 0 <= j < i ==> texels@[j] == fill,
            decreases count - i,
        {
            texels.push(fill);
            i = i + 1;
        }
        Lattice { side, texels }
    }

    /// A lattice of side `side` that holds `texels` at their flat positions;
    /// `None` when `side` is zero or the count is not `side³`.
    pub fn from_texels(side: usize, texels: Vec<T>) -> (r: Option<Self>)
        ensures
            r.is_some() <==> side >= 1 && texels@.len() == cube(side as nat),
            r matches Some(l) ==> l.wf() && l.side() == side && l.texels() == texels@,
    {
        let len = texels.len();
        if side == 0 {
            return None;
        }
        let sq = side.checked_mul(side);
        match sq {
            None => {
                proof {
                    assert(side * side <= side * side * side) by (nonlinear_arith)
                        requires
                            side >= 1,
                    ;
                    assert(cube(side as nat) > usize::MAX);
                }
                None
            },
            Some(sq) => match sq.checked_mul(side) {
                None => None,
                Some(count) => {
                    if len == count {
                        Some(Lattice { side, texels })
                    } else {
                        None
                    }
                },
            },
        }
    }

    pub fn resolution(&self) -> (r: usize)
        ensures
            r == self.side(),
    {
        self.side
    }

    /// Number of texels.
    pub fn len(&self) -> (r: usize)
        requires
            self.wf(),
        ensures
            r == cube(self.side()),
    {
        self.texels.len()
    }

    /// All texels, at their flat positions.
    pub fn texel_slice(&self) -> (r: &Vec<T>)
        ensures
            r@ == self.texels(),
    {
        &self.texels
    }

    /// Flat position of `(x, y, z)`.
    pub fn index_of(&self, x: usize, y: usize, z: usize) -> (r: usize)
        requires
            self.wf(),
            x < self.side(),
            y < self.side(),
            z < self.side(),
        ensures
            r == flat(x as nat, y as nat, z as nat, self.side()),
            r < cube(self.side()),
    {
        flat_index(x, y, z, self.side)
    }

    /// The lattice coordinates of the flat position `index`.
    pub fn coords_of(&self, index: usize) -> (r: (usize, usize, usize))
        requires
            self.wf(),
            index < cube(self.side()),
        ensures
            r.0 < self.side(),
            r.1 < self.side(),
            r.2 < self.side(),
            flat(r.0 as nat, r.1 as nat, r.2 as nat, self.side()) == index,
    {
        let n = self.side;
        let x = index % n;
        let rest = index / n;
        let y = rest % n;
        let z = rest / n;
        proof {
            vstd::arithmetic::div_mod::lemma_fundamental_div_mod(index as int, n as int);
            vstd::arithmetic::div_mod::lemma_fundamental_div_mod(rest as int, n as int);
            assert(index == x + n * rest);
            assert(rest == y + n * z);
            assert(index < n * (n * n)) by (nonlinear_arith)
                requires
                    index < n * n * n,
            ;
            assert(rest < n * n) by (nonlinear_arith)
                requires
                    index == x + n * rest,
                    index < n * (n * n),
                    x >= 0,
                    n >= 1,
            ;
            assert(z < n) by (nonlinear_arith)
                requires
                    rest == y + n * z,
                    rest < n * n,
                    y >= 0,
                    n >= 1,
            ;
        }
        (x, y, z)
    }

    /// The texel at `(x, y, z)`.
    pub fn get(&self, x: usize, y: usize, z: usize) -> (r: T)
        requires
            self.wf(),
            x < self.side(),
            y < self.side(),
            z < self.side(),
        ensures
            r == self.at(x as nat, y as nat, z as nat),
    {
        let i = self.index_of(x, y, z);
        self.texels[i]
    }

    /// Replaces the texel at `(x, y, z)` and keeps every other one.
    pub fn set(&mut self, x: usize, y: usize, z: usize, value: T)
        requires
            old(self).wf(),
            x < old(self).side(),
            y < old(self).side(),
            z < old(self).side(),
        ensures
            final(self).wf(),
            final(self).side() == old(self).side(),
            final(self).texels() == old(self).texels().update(
                flat(x as nat, y as nat, z as nat, old(self).side()) as int,
                value,
            ),
    {
        let i = self.index_of(x, y, z);
        self.texels.set(i, value);
    }

    /// The texel at integer lattice coordinates `(u, v, w)`, each wrapped
    /// into `[0, side)`: the lattice repeats with period `side` on every axis.
    pub fn sample(&self, u: i64, v: i64, w: i64) -> (r: T)
        requires
            self.wf(),
        ensures
            r == self.sample_spec(u as int, v as int, w as int),
    {
        let n = self.side;
        let x = wrap_index(u, n);
        let y = wrap_index(v, n);
        let z = wrap_index(w, n);
        self.get(x, y, z)
    }
}

/// Sampling is periodic: shifting any coordinate by the side length returns
/// the same texel.
pub proof fn lemma_sample_periodic<T: Copy>(l: Lattice<T>, u: int, v: int, w: int)
    requires
        l.wf(),
    ensures
        l.sample_spec(u + l.side(), v, w) == l.sample_spec(u, v, w),
        l.sample_spec(u, v + l.side(), w) == l.sample_spec(u, v, w),
        l.sample_spec(u, v, w + l.side()) == l.sample_spec(u, v, w),
{
    let n = l.side() as int;
    lemma_wrap_shift(u, n);
    lemma_wrap_shift(v, n);
    lemma_wrap_shift(w, n);
}

proof fn lemma_wrap_shift(i: int, n: int)
    requires
        n > 0,
    ensures
        wrap(i + n, n as nat) == wrap(i, n as nat),
{
    let q = i / n;
    let r = i % n;
    vstd::arithmetic::div_mod::lemma_fundamental_div_mod(i, n);
    assert(i + n == (q + 1) * n + r) by (nonlinear_arith)
        requires
            i == n * q + r,
    ;
    lemma_fundamental_div_mod_converse(i + n, n, q + 1, r);
}

/// Sampling reads nothing but the texels: two lattices that hold the same
/// texels return the same value at every position.
pub proof fn lemma_sample_is_function_of_texels<T: Copy>(
    a: Lattice<T>,
    b: Lattice<T>,
    u: int,
    v: int,
    w: int,
)
    requires
        a.wf(),
        b.wf(),
        a.side() == b.side(),
        a.texels() == b.texels(),
    ensures
        a.sample_spec(u, v, w) == b.sample_spec(u, v, w),
{
}

} // verus!
