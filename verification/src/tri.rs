//! The packed strictly-lower-triangular index scheme of the GMM precision
//! factors.
//!
//! Each cluster's inverse-covariance factor stores, after its `d` diagonal
//! entries, the `d*(d-1)/2` strictly-lower-triangular entries in row-major
//! order by strictly increasing column: the entry for row `i` and target
//! row `j` (with `i < j < d`) sits at offset `i*(2*d - i - 1)/2 + (j - i - 1)`.
//! This module defines that mapping, proves it is a bijection onto
//! `0 .. d*(d-1)/2`, and produces the full enumeration of `(i, j)` pairs in
//! packed order.
use vstd::prelude::*;
use vstd::arithmetic::div_mod::lemma_hoist_over_denominator;

verus! {

/// Number of strictly-lower-triangular entries of a `d x d` factor.
pub open spec fn spec_ltri_len(d: int) -> int {
    d * (d - 1) / 2
}

/// Packed offset of the first entry of row `i` (the entry for the pair
/// `(i, i+1)`).
pub open spec fn spec_row_start(d: int, i: int) -> int {
    i * (2 * d - i - 1) / 2
}

/// Packed offset of the entry for rows `i < j` of a `d x d` factor.
pub open spec fn spec_tri_index(d: int, i: int, j: int) -> int {
    spec_row_start(d, i) + (j - i - 1)
}

/// Row `i` holds `d - 1 - i` packed entries, so row `i + 1` starts that far
/// after row `i`.
pub proof fn lemma_row_start_step(d: int, i: int)
    requires
        0 <= i < d,
    ensures
        spec_row_start(d, i + 1) == spec_row_start(d, i) + (d - 1 - i),
{
    let x: int = i * (2 * d - i - 1);
    lemma_hoist_over_denominator(x, d - 1 - i, 2nat);
    assert(i * (2 * d - i - 1) + (d - 1 - i) * 2 == (i + 1) * (2 * d - (i + 1) - 1))
        by (nonlinear_arith);
}

/// Row starts never decrease as the row index grows.
pub proof fn lemma_row_start_monotonic(d: int, a: int, b: int)
    requires
        0 <= a <= b <= d,
    ensures
        spec_row_start(d, a) <= spec_row_start(d, b),
    decreases b - a,
{
    if a < b {
        lemma_row_start_monotonic(d, a, b - 1);
        lemma_row_start_step(d, b - 1);
    }
}

/// The packed offset of any valid pair lies in `0 .. d*(d-1)/2`, and within
/// its row it stays below the next row's start.
pub proof fn lemma_tri_index_in_range(d: int, i: int, j: int)
    requires
        0 <= i < j < d,
    ensures
        0 <= spec_tri_index(d, i, j),
        spec_tri_index(d, i, j) < spec_row_start(d, i + 1),
        spec_tri_index(d, i, j) < spec_ltri_len(d),
{
    lemma_row_start_monotonic(d, 0, i);
    lemma_row_start_step(d, i);
    lemma_row_start_monotonic(d, i + 1, d);
    assert(spec_row_start(d, d) == spec_ltri_len(d));
}

/// The packed order is exactly the row-major order on pairs: a pair that
/// precedes another lexicographically gets a strictly smaller offset.
pub proof fn lemma_tri_index_lex(d: int, a: int, b: int, i: int, j: int)
    requires
        0 <= a < b < d,
        0 <= i < j < d,
        a < i || (a == i && b < j),
    ensures
        spec_tri_index(d, a, b) < spec_tri_index(d, i, j),
{
    if a < i {
        lemma_tri_index_in_range(d, a, b);
        lemma_row_start_monotonic(d, a + 1, i);
    }
}

/// Distinct valid pairs never share a packed offset.
pub proof fn lemma_tri_index_injective(d: int, a: int, b: int, i: int, j: int)
    requires
        0 <= a < b < d,
        0 <= i < j < d,
        spec_tri_index(d, a, b) == spec_tri_index(d, i, j),
    ensures
        a == i && b == j,
{
    if a < i || (a == i && b < j) {
        lemma_tri_index_lex(d, a, b, i, j);
    } else if i < a || (i == a && j < b) {
        lemma_tri_index_lex(d, i, j, a, b);
    }
}

/// Packed offset of the strictly-lower-triangular entry for rows `i < j`.
pub fn tri_index(d: usize, i: usize, j: usize) -> (t: usize)
    requires
        i < j < d,
        spec_ltri_len(d as int) <= usize::MAX,
    ensures
        t == spec_tri_index(d as int, i as int, j as int),
        t < spec_ltri_len(d as int),
{
    let mut start: usize = 0;
    let mut r: usize = 0;
    while r < i
        invariant
            r <= i,
            i < j < d,
            spec_ltri_len(d as int) <= usize::MAX,
            start == spec_row_start(d as int, r as int),
        decreases i - r,
    {
        proof {
            lemma_row_start_step(d as int, r as int);
            lemma_row_start_monotonic(d as int, r as int + 1, d as int);
            assert(spec_row_start(d as int, d as int) == spec_ltri_len(d as int));
        }
        start = start + (d - 1 - r);
        r = r + 1;
    }
    proof {
        lemma_tri_index_in_range(d as int, i as int, j as int);
    }
    start + (j - i - 1)
}

/// The pair `(i, j)` whose packed offset is `t`: the inverse of
/// `tri_index`, found by walking the row starts. Together with
/// `lemma_tri_index_injective` this makes the packed scheme a bijection
/// between the valid pairs and `0 .. d*(d-1)/2`.
pub fn tri_rowcol(d: usize, t: usize) -> (r: (usize, usize))
    requires
        t < spec_ltri_len(d as int),
        spec_ltri_len(d as int) <= usize::MAX,
    ensures
        r.0 < r.1 < d,
        spec_tri_index(d as int, r.0 as int, r.1 as int) == t,
{
    let ghost dd: int = d as int;
    proof {
        // A positive packed length needs at least two rows.
        lemma_row_start_monotonic(dd, 0, dd);
        assert(spec_row_start(dd, dd) == spec_ltri_len(dd));
        if d < 2 {
            assert(spec_ltri_len(dd) <= 0);
        }
        lemma_row_start_step(dd, 0);
        lemma_row_start_monotonic(dd, 1, dd);
    }
    let mut i: usize = 0;
    let mut start: usize = 0;
    while start + (d - 1 - i) <= t
        invariant
            2 <= d,
            i < d - 1,
            t < spec_ltri_len(dd),
            spec_ltri_len(dd) <= usize::MAX,
            dd == d as int,
            start == spec_row_start(dd, i as int),
            start <= t,
            start + (d - 1 - i) <= spec_ltri_len(dd),
        decreases d - i,
    {
        proof {
            lemma_row_start_step(dd, i as int);
            lemma_row_start_step(dd, i as int + 1);
            lemma_row_start_monotonic(dd, i as int + 2, dd);
            assert(spec_row_start(dd, dd) == spec_ltri_len(dd));
        }
        start = start + (d - 1 - i);
        i = i + 1;
    }
    (i, i + 1 + (t - start))
}

/// All pairs `(i, j)` with `i < j < d`, in packed order: the pair for a
/// packed offset `t` sits at position `t`, so the result is the inverse of
/// `tri_index` and witnesses that the scheme is a bijection.
pub fn tri_pairs(d: usize) -> (r: Vec<(usize, usize)>)
    requires
        spec_ltri_len(d as int) <= usize::MAX,
    ensures
        r@.len() == spec_ltri_len(d as int),
        forall|a: int, b: int|
            0 <= a < b < d as int ==> r@[#[trigger] spec_tri_index(d as int, a, b)] == (
            a as usize,
            b as usize,
            ),
        forall|t: int|
            0 <= t < r@.len() ==> ((#[trigger] r@[t]).0 < r@[t].1 < d
                && spec_tri_index(d as int, r@[t].0 as int, r@[t].1 as int) == t),
{
    let ghost dd: int = d as int;
    let mut r: Vec<(usize, usize)> = Vec::new();
    let mut i: usize = 0;
    while i < d
        invariant
            i <= d,
            dd == d as int,
            spec_ltri_len(dd) <= usize::MAX,
            r@.len() == spec_row_start(dd, i as int),
            forall|a: int, b: int|
                0 <= a < b < dd && a < i as int ==> r@[#[trigger] spec_tri_index(dd, a, b)] == (
                a as usize,
                b as usize,
                ),
            forall|t: int|
                0 <= t < r@.len() ==> ((#[trigger] r@[t]).0 < r@[t].1 < d
                    && spec_tri_index(dd, r@[t].0 as int, r@[t].1 as int) == t),
        decreases d - i,
    {
        let mut j: usize = i + 1;
        while j < d
            invariant
                i < d,
                i < j <= d,
                dd == d as int,
                spec_ltri_len(dd) <= usize::MAX,
                r@.len() == spec_tri_index(dd, i as int, j as int),
                forall|a: int, b: int|
                    0 <= a < b < dd && (a < i as int || (a == i as int && b < j as int))
                        ==> r@[#[trigger] spec_tri_index(dd, a, b)] == (a as usize, b as usize),
                forall|t: int|
                    0 <= t < r@.len() ==> ((#[trigger] r@[t]).0 < r@[t].1 < d
                        && spec_tri_index(dd, r@[t].0 as int, r@[t].1 as int) == t),
            decreases d - j,
        {
            proof {
                lemma_tri_index_in_range(dd, i as int, j as int);
            }
            r.push((i, j));
            proof {
                assert forall|a: int, b: int|
                    0 <= a < b < dd && (a < i as int || (a == i as int && b < j as int
                        + 1)) implies r@[#[trigger] spec_tri_index(dd, a, b)] == (
                    a as usize,
                    b as usize,
                ) by {
                    lemma_tri_index_in_range(dd, a, b);
                    if a < i as int || (a == i as int && b < j as int) {
                        lemma_tri_index_lex(dd, a, b, i as int, j as int);
                    }
                }
            }
            j = j + 1;
        }
        proof {
            lemma_row_start_step(dd, i as int);
        }
        i = i + 1;
    }
    proof {
        assert(spec_row_start(dd, dd) == spec_ltri_len(dd));
    }
    r
}

} // verus!
