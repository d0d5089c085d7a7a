//! Min/max normalisation of a noise channel over a whole lattice.
//!
//! The generating pass stores each channel value as a fixed-point integer.
//! Once every value is known, the least and the greatest of them are found
//! and every value is mapped linearly onto `[0, UNIT]`, `UNIT` standing for
//! 1: the least value goes to 0 and the greatest to `UNIT`.
use vstd::prelude::*;

verus! {

/// The fixed-point value that stands for 1 in a normalised channel.
pub const UNIT: u32 = 16777216;

/// `lo` is the least element of `s`.
pub open spec fn is_least(lo: int, s: Seq<i32>) -> bool {
    &&& forall|i: int| 0 <= i < s.len() ==> lo <= s[i]
    &&& exists|i: int| 0 <= i < s.len() && s[i] == lo
}

/// `hi` is the greatest element of `s`.
pub open spec fn is_greatest(hi: int, s: Seq<i32>) -> bool {
    &&& forall|i: int| 0 <= i < s.len() ==> s[i] <= hi
    &&& exists|i: int| 0 <= i < s.len() && s[i] == hi
}

/// `v` mapped linearly from `[lo, hi]` onto `[0, UNIT]`, rounding down; a
/// constant channel (`lo == hi`) maps to 0.
pub open spec fn normalized(v: int, lo: int, hi: int) -> int {
    if hi == lo {
        0
    } else {
        (v - lo) * (UNIT as int) / (hi - lo)
    }
}

/// The least and the greatest value, or `None` for no values.
pub fn value_range(values: &Vec<i32>) -> (r: Option<(i32, i32)>)
    ensures
        r.is_none() <==> values@.len() == 0,
        r matches Some((lo, hi)) ==> is_least(lo as int, values@) && is_greatest(
            hi as int,
            values@,
        ),
{
    if values.len() == 0 {
        return None;
    }
    let mut lo = values[0];
    let mut hi = values[0];
    let mut lo_at: usize = 0;
    let mut hi_at: usize = 0;
    let mut i: usize = 1;
    while i < values.len()
        invariant
            1 <= i <= values@.len(),
            lo_at < i,
            hi_at < i,
            values@[lo_at as int] == lo,
            values@[hi_at as int] == hi,
            forall|j: int| 0 <= j < i ==> lo <= #[trigger] values@[j] <= hi,
        decreases values@.len() - i,
    {
        let v = values[i];
        if v < lo {
            lo = v;
            lo_at = i;
        }
        if v > hi {
            hi = v;
            hi_at = i;
        }
        i = i + 1;
    }
    assert(values@[lo_at as int] == lo);
    assert(values@[hi_at as int] == hi);
    Some((lo, hi))
}

/// `v` mapped from `[lo, hi]` onto `[0, UNIT]`.
pub fn normalize(v: i32, lo: i32, hi: i32) -> (r: u32)
    requires
        lo <= v <= hi,
    ensures
        r as int == normalized(v as int, lo as int, hi as int),
        r <= UNIT,
{
    if hi == lo {
        return 0;
    }
    let num = (v as i64 - lo as i64) as u64;
    let den = (hi as i64 - lo as i64) as u64;
    proof {
        assert(num * (UNIT as int) <= den * (UNIT as int)) by (nonlinear_arith)
            requires
                num <= den,
        ;
        assert(den * (UNIT as int) <= 0xffff_ffff * 16777216) by (nonlinear_arith)
            requires
                den <= 0xffff_ffff,
        ;
    }
    let scaled = num * (UNIT as u64);
    let r = scaled / den;
    proof {
        lemma_normalized_bounds(v as int, lo as int, hi as int);
    }
    r as u32
}

/// A value of `[lo, hi]` normalises into `[0, UNIT]`; `lo` goes to 0, and
/// `hi` to `UNIT` unless the range is a single value.
pub proof fn lemma_normalized_bounds(v: int, lo: int, hi: int)
    requires
        lo <= v <= hi,
    ensures
        0 <= normalized(v, lo, hi) <= UNIT,
        normalized(lo, lo, hi) == 0,
        lo < hi ==> normalized(hi, lo, hi) == UNIT,
{
    if lo < hi {
        let d = hi - lo;
        let u = UNIT as int;
        assert((v - lo) * u <= d * u) by (nonlinear_arith)
            requires
                v - lo <= d,
                u >= 0,
        ;
        assert(0 <= (v - lo) * u) by (nonlinear_arith)
            requires
                v - lo >= 0,
                u >= 0,
        ;
        vstd::arithmetic::div_mod::lemma_div_is_ordered((v - lo) * u, d * u, d);
        vstd::arithmetic::div_mod::lemma_div_multiples_vanish(u, d);
        assert(d * u == u * d) by (nonlinear_arith);
        vstd::arithmetic::div_mod::lemma_div_pos_is_pos((v - lo) * u, d);
        assert(0 * u == 0);
        vstd::arithmetic::div_mod::lemma_div_multiples_vanish(0, d);
    }
}

/// Every value mapped from the values' own range onto `[0, UNIT]`: the
/// second pass of noise generation, after the first has filled the lattice.
pub fn normalize_all(values: &Vec<i32>) -> (r: Vec<u32>)
    ensures
        r@.len() == values@.len(),
        values@.len() > 0 ==> exists|lo: int, hi: int|
            is_least(lo, values@) && is_greatest(hi, values@) && forall|i: int|
                0 <= i < r@.len() ==> r@[i] as int == normalized(#[trigger] values@[i] as int, lo, hi),
        forall|i: int| 0 <= i < r@.len() ==> r@[i] <= UNIT,
{
    let mut r: Vec<u32> = Vec::with_capacity(values.len());
    match value_range(values) {
        None => r,
        Some((lo, hi)) => {
            let mut i: usize = 0;
            while i < values.len()
                invariant
                    i <= values@.len(),
                    r@.len() == i,
                    is_least(lo as int, values@),
                    is_greatest(hi as int, values@),
                    forall|j: int|
                        0 <= j < i ==> r@[j] as int == normalized(
                            #[trigger] values@[j] as int,
                            lo as int,
                            hi as int,
                        ),
                    forall|j: int| 0 <= j < i ==> r@[j] <= UNIT,
                decreases values@.len() - i,
            {
                let v = values[i];
                let n = normalize(v, lo, hi);
                r.push(n);
                i = i + 1;
            }
            r
        },
    }
}

/// After normalisation every value lies in `[0, UNIT]`, and both ends are
/// reached: some value is 0, and, unless all inputs are equal, some value is
/// `UNIT`.
pub proof fn lemma_normalization_is_tight(values: Seq<i32>, lo: int, hi: int, out: Seq<u32>)
    requires
        values.len() > 0,
        is_least(lo, values),
        is_greatest(hi, values),
        out.len() == values.len(),
        forall|i: int|
            0 <= i < out.len() ==> out[i] as int == normalized(#[trigger] values[i] as int, lo, hi),
    ensures
        forall|i: int| 0 <= i < out.len() ==> 0 <= #[trigger] out[i] <= UNIT,
        exists|i: int| 0 <= i < out.len() && out[i] == 0,
        lo < hi ==> exists|i: int| 0 <= i < out.len() && out[i] == UNIT,
{
    assert forall|i: int| 0 <= i < out.len() implies 0 <= #[trigger] out[i] <= UNIT by {
        lemma_normalized_bounds(values[i] as int, lo, hi);
    }
    let i_lo = choose|i: int| 0 <= i < values.len() && values[i] == lo;
    lemma_normalized_bounds(lo, lo, hi);
    assert(out[i_lo] == 0);
    if lo < hi {
        let i_hi = choose|i: int| 0 <= i < values.len() && values[i] == hi;
        lemma_normalized_bounds(hi, lo, hi);
        assert(out[i_hi] == UNIT);
    }
}

/// The normalisation pass is a function of the values alone: any two results
/// that meet its contract for the same values are equal.
pub proof fn lemma_normalization_is_deterministic(values: Seq<i32>, a: Seq<u32>, b: Seq<u32>)
    requires
        values.len() > 0,
        a.len() == values.len(),
        b.len() == values.len(),
        exists|lo: int, hi: int|
            is_least(lo, values) && is_greatest(hi, values) && forall|i: int|
                0 <= i < a.len() ==> a[i] as int == normalized(#[trigger] values[i] as int, lo, hi),
        exists|lo: int, hi: int|
            is_least(lo, values) && is_greatest(hi, values) && forall|i: int|
                0 <= i < b.len() ==> b[i] as int == normalized(#[trigger] values[i] as int, lo, hi),
    ensures
        a == b,
{
    let (lo_a, hi_a) = choose|lo: int, hi: int|
        is_least(lo, values) && is_greatest(hi, values) && forall|i: int|
            0 <= i < a.len() ==> a[i] as int == normalized(#[trigger] values[i] as int, lo, hi);
    let (lo_b, hi_b) = choose|lo: int, hi: int|
        is_least(lo, values) && is_greatest(hi, values) && forall|i: int|
            0 <= i < b.len() ==> b[i] as int == normalized(#[trigger] values[i] as int, lo, hi);
    let ia = choose|i: int| 0 <= i < values.len() && values[i] == lo_a;
    let ib = choose|i: int| 0 <= i < values.len() && values[i] == lo_b;
    assert(lo_a <= values[ib]);
    assert(lo_b <= values[ia]);
    let ja = choose|i: int| 0 <= i < values.len() && values[i] == hi_a;
    let jb = choose|i: int| 0 <= i < values.len() && values[i] == hi_b;
    assert(values[jb] <= hi_a);
    assert(values[ja] <= hi_b);
    assert forall|i: int| 0 <= i < a.len() implies a[i] == b[i] by {
        assert(a[i] as int == normalized(values[i] as int, lo_a, hi_a));
        assert(b[i] as int == normalized(values[i] as int, lo_b, hi_b));
    }
    assert(a =~= b);
}

} // verus!
