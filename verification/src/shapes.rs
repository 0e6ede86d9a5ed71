//! Buffer-length formulas for the two evaluators.
//!
//! Both objectives take flat buffers whose lengths are fixed functions of a
//! few scalar dimensions: for the GMM, `(d, k, n)` determine the lengths of
//! the mixture log-weights, the means, the packed inverse-covariance
//! factors and the data points; for the LSTM, `(l, c, b)` determine the
//! lengths of the main parameters, the extra parameters, the recurrent
//! state and the sequence. A caller that hands a buffer of any other length
//! to an evaluator has violated its contract, so the boundary checks the
//! lengths with the predicates here before evaluating.
use vstd::prelude::*;
use vstd::arithmetic::div_mod::{
    lemma_hoist_over_denominator, lemma_fundamental_div_mod, lemma_div_multiples_vanish,
};
use crate::tri::spec_ltri_len;

verus! {

/// Per-cluster length of the packed inverse-covariance factor: `d` diagonal
/// entries followed by the `d*(d-1)/2` strictly-lower-triangular ones.
pub open spec fn spec_icf_len(d: int) -> int {
    d * (d + 1) / 2
}

/// The per-cluster factor splits into its diagonal and its packed
/// strictly-lower-triangular part: `d*(d+1)/2 == d + d*(d-1)/2`.
pub proof fn lemma_icf_len_split(d: int)
    requires
        0 <= d,
    ensures
        spec_icf_len(d) == d + spec_ltri_len(d),
{
    let x: int = d * (d - 1);
    lemma_hoist_over_denominator(x, d, 2nat);
    assert(d * (d - 1) + d * 2 == d * (d + 1)) by (nonlinear_arith);
}

/// `d*(d+1)/2` written with the halved factor on whichever side is even.
proof fn lemma_icf_len_halved(d: int)
    requires
        0 <= d,
    ensures
        d % 2 == 0 ==> spec_icf_len(d) == (d / 2) * (d + 1),
        d % 2 == 1 ==> spec_icf_len(d) == d * (d / 2 + 1),
{
    let h: int = d / 2;
    lemma_fundamental_div_mod(d, 2);
    if d % 2 == 0 {
        assert(d * (d + 1) == 2 * (h * (d + 1))) by (nonlinear_arith)
            requires d == 2 * h;
        lemma_div_multiples_vanish(h * (d + 1), 2);
    } else {
        assert(d * (d + 1) == 2 * (d * (h + 1))) by (nonlinear_arith)
            requires d == 2 * h + 1;
        lemma_div_multiples_vanish(d * (h + 1), 2);
    }
}

/// `d*(d+1)/2`, or `None` when it does not fit a `usize`.
pub fn icf_len(d: usize) -> (r: Option<usize>)
    ensures
        match r {
            Some(v) => v == spec_icf_len(d as int),
            None => spec_icf_len(d as int) > usize::MAX,
        },
{
    proof {
        lemma_icf_len_halved(d as int);
    }
    if d < 2 {
        proof {
            if d == 0 {
                assert(d as int * (d as int + 1) / 2 == 0) by (nonlinear_arith)
                    requires d == 0;
            } else {
                assert(d as int * (d as int + 1) / 2 == 1) by (nonlinear_arith)
                    requires d == 1;
            }
        }
        return Some(d);
    }
    if d % 2 == 0 {
        (d / 2).checked_mul(d + 1)
    } else {
        d.checked_mul(d / 2 + 1)
    }
}

/// The buffer lengths the GMM evaluator expects for dimensions `(d, k, n)`:
/// `k` log-weights, `k*d` mean coordinates, `k * d*(d+1)/2` packed factor
/// entries and `n*d` data coordinates. `None` when the per-cluster factor
/// length or one of the totals does not fit a `usize`.
pub fn gmm_buffer_lens(d: usize, k: usize, n: usize) -> (r: Option<(usize, usize, usize, usize)>)
    ensures
        match r {
            Some(t) => t.0 == k && t.1 == k as int * d as int && t.2 == k as int * spec_icf_len(
                d as int,
            ) && t.3 == n as int * d as int,
            None => spec_icf_len(d as int) > usize::MAX || k as int * d as int > usize::MAX || k
                as int * spec_icf_len(d as int) > usize::MAX || n as int * d as int > usize::MAX,
        },
{
    let icf_sz: usize = match icf_len(d) {
        Some(v) => v,
        None => {
            return None;
        },
    };
    let km: Option<usize> = k.checked_mul(d);
    let ki: Option<usize> = k.checked_mul(icf_sz);
    let nd: Option<usize> = n.checked_mul(d);
    match (km, ki, nd) {
        (Some(a), Some(b), Some(c)) => Some((k, a, b, c)),
        _ => None,
    }
}

/// Whether four buffer lengths are exactly the ones the GMM evaluator
/// expects for dimensions `(d, k, n)`.
pub fn gmm_shapes_ok(
    d: usize,
    k: usize,
    n: usize,
    alphas_len: usize,
    means_len: usize,
    icf_total_len: usize,
    x_len: usize,
) -> (r: bool)
    requires
        1 <= k,
    ensures
        r <==> (alphas_len == k && means_len == k as int * d as int && icf_total_len == k as int
            * spec_icf_len(d as int) && x_len == n as int * d as int),
{
    match gmm_buffer_lens(d, k, n) {
        Some((la, lm, li, lx)) => {
            alphas_len == la && means_len == lm && icf_total_len == li && x_len == lx
        },
        None => {
            proof {
                lemma_icf_len_nonneg(d as int);
                if spec_icf_len(d as int) > usize::MAX {
                    assert(k as int * spec_icf_len(d as int) >= spec_icf_len(d as int))
                        by (nonlinear_arith)
                        requires 1 <= k as int && 0 <= spec_icf_len(d as int);
                }
            }
            false
        },
    }
}

/// The packed factor length is never negative.
proof fn lemma_icf_len_nonneg(d: int)
    requires
        0 <= d,
    ensures
        0 <= spec_icf_len(d),
{
    lemma_icf_len_halved(d);
    lemma_fundamental_div_mod(d, 2);
    if d % 2 == 0 {
        assert(0 <= (d / 2) * (d + 1)) by (nonlinear_arith)
            requires 0 <= d / 2 && 0 <= d + 1;
    } else {
        assert(0 <= d * (d / 2 + 1)) by (nonlinear_arith)
            requires 0 <= d && 0 <= d / 2 + 1;
    }
}

/// The degrees-of-freedom count `p + m + 1` of the Wishart prior over a
/// `p`-dimensional precision factor, where `m` is the caller's integer
/// offset. `None` when `m` is negative or the count does not fit a `usize`:
/// treating a negative offset as an unsigned value would silently wrap.
pub fn wishart_dof(p: usize, m: i32) -> (r: Option<usize>)
    ensures
        match r {
            Some(v) => v == p as int + m as int + 1 && 0 <= m as int,
            None => m < 0 || p as int + m as int + 1 > usize::MAX,
        },
{
    if m < 0 {
        return None;
    }
    let mu: usize = m as usize;
    match p.checked_add(mu) {
        Some(s) => s.checked_add(1),
        None => None,
    }
}

/// The buffer lengths the LSTM evaluator expects for dimensions
/// `(l, c, b)`: `l*2*4*b` main parameters (per layer, four gate weight
/// blocks of `b` and four gate bias blocks of `b`), `3*b` extra parameters,
/// `2*l*b` recurrent state values and `c*b` sequence values. `None` when
/// one of the totals does not fit a `usize`.
pub fn lstm_buffer_lens(l: usize, c: usize, b: usize) -> (r: Option<(usize, usize, usize, usize)>)
    ensures
        match r {
            Some(t) => t.0 == l as int * 2 * 4 * b as int && t.1 == 3 * b as int && t.2 == 2 * l
                as int * b as int && t.3 == c as int * b as int,
            None => l as int * 2 * 4 * b as int > usize::MAX || 3 * b as int > usize::MAX || c
                as int * b as int > usize::MAX,
        },
{
    let lb: Option<usize> = l.checked_mul(b);
    let extra: Option<usize> = b.checked_mul(3);
    let cb: Option<usize> = c.checked_mul(b);
    proof {
        assert(l as int * b as int * 8 == l as int * 2 * 4 * b as int) by (nonlinear_arith);
        assert(l as int * b as int <= l as int * b as int * 8) by (nonlinear_arith)
            requires 0 <= l as int * b as int;
        assert(0 <= l as int * b as int) by (nonlinear_arith)
            requires 0 <= l as int && 0 <= b as int;
    }
    match (lb, extra, cb) {
        (Some(v), Some(e), Some(s)) => {
            match v.checked_mul(8) {
                Some(m) => {
                    proof {
                        assert(l as int * b as int * 2 == 2 * l as int * b as int)
                            by (nonlinear_arith);
                    }
                    Some((m, e, v * 2, s))
                },
                None => None,
            }
        },
        _ => None,
    }
}

/// The number of scored values behind an LSTM loss: the sequence makes
/// `c - 1` transitions of width `b`, and the accumulated total is averaged
/// over them. Zero exactly when the sequence has no transition to score.
pub fn lstm_loss_count(c: usize, b: usize) -> (r: usize)
    requires
        1 <= c,
        c as int * b as int <= usize::MAX,
    ensures
        r == (c as int - 1) * b as int,
        r == 0 <==> (c == 1 || b == 0),
{
    proof {
        assert((c as int - 1) * b as int <= c as int * b as int && 0 <= (c as int - 1) * b as int
            && ((c as int - 1) * b as int == 0 <==> (c as int == 1 || b as int == 0)))
            by (nonlinear_arith)
            requires 1 <= c as int && 0 <= b as int;
    }
    (c - 1) * b
}

/// Whether four buffer lengths are exactly the ones the LSTM evaluator
/// expects for dimensions `(l, c, b)`.
pub fn lstm_shapes_ok(
    l: usize,
    c: usize,
    b: usize,
    main_len: usize,
    extra_len: usize,
    state_len: usize,
    sequence_len: usize,
) -> (r: bool)
    ensures
        r <==> (main_len == l as int * 2 * 4 * b as int && extra_len == 3 * b as int && state_len
            == 2 * l as int * b as int && sequence_len == c as int * b as int),
{
    match lstm_buffer_lens(l, c, b) {
        Some((lm, le, ls, lq)) => {
            main_len == lm && extra_len == le && state_len == ls && sequence_len == lq
        },
        None => false,
    }
}

} // verus!
