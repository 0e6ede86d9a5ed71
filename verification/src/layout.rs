//! Block offsets inside the flat buffers.
//!
//! Shape metadata never travels with the buffers, so every slice an
//! evaluator takes is a block whose offsets are fixed by convention: mean
//! and data-point blocks of stride `d`, per-cluster factor blocks of stride
//! `d*(d+1)/2` split into a diagonal and a packed triangular part, per-layer
//! LSTM weight, bias, hidden and cell blocks, the four gate sub-blocks of a
//! weight or bias block, and the three parts of the LSTM extra parameters.
//! The functions here compute those offsets and guarantee they stay inside
//! the enclosing buffer; the lemmas state that distinct blocks never
//! overlap.
use vstd::prelude::*;
use vstd::arithmetic::mul::{lemma_mul_inequality, lemma_mul_is_distributive_add_other_way};
use vstd::arithmetic::div_mod::{
    lemma_div_pos_is_pos, lemma_multiply_divide_lt, lemma_remainder_lower, lemma_remainder_upper,
};
use crate::shapes::{spec_icf_len, lemma_icf_len_split};
use crate::tri::spec_ltri_len;

verus! {

/// `i*stride <= (i+1)*stride <= count*stride` for any block `i < count`.
pub proof fn lemma_block_bounds(stride: int, count: int, i: int)
    requires
        0 <= stride,
        0 <= i < count,
    ensures
        0 <= i * stride,
        i * stride + stride <= count * stride,
    decreases 0int,
{
    assert(0 <= i * stride) by (nonlinear_arith)
        requires 0 <= i && 0 <= stride;
    lemma_mul_is_distributive_add_other_way(stride, i, 1);
    lemma_mul_inequality(i + 1, count, stride);
}

/// Blocks of one stride are pairwise disjoint: block `a` ends before block
/// `b` starts whenever `a < b`.
pub proof fn lemma_blocks_disjoint(stride: int, a: int, b: int)
    requires
        0 <= stride,
        0 <= a < b,
    ensures
        a * stride + stride <= b * stride,
{
    lemma_block_bounds(stride, b, a);
}

/// Every index of a `count*stride` buffer falls inside a block, namely the
/// one numbered `idx / stride`; with `lemma_blocks_disjoint` that block is
/// unique, so the blocks partition the buffer.
pub proof fn lemma_block_of_index(stride: int, count: int, idx: int)
    requires
        0 < stride,
        0 <= idx < count * stride,
    ensures
        0 <= idx / stride < count,
        (idx / stride) * stride <= idx,
        idx < (idx / stride) * stride + stride,
{
    lemma_div_pos_is_pos(idx, stride);
    lemma_remainder_lower(idx, stride);
    lemma_remainder_upper(idx, stride);
    assert(count * stride == stride * count) by (nonlinear_arith);
    lemma_multiply_divide_lt(idx, stride, count);
}

/// Bounds of the `i`-th of `count` contiguous blocks of length `stride`:
/// the mean block of a cluster, a data point, one step of the LSTM
/// sequence. The block lies inside the `count*stride` buffer.
pub fn block_range(stride: usize, count: usize, i: usize) -> (r: (usize, usize))
    requires
        i < count,
        count as int * stride as int <= usize::MAX,
    ensures
        r.0 == i as int * stride as int,
        r.1 == i as int * stride as int + stride as int,
        r.1 <= count as int * stride as int,
{
    proof {
        lemma_block_bounds(stride as int, count as int, i as int);
        assert(i as int * stride as int == stride as int * i as int) by (nonlinear_arith);
        assert(count as int * stride as int == stride as int * count as int) by (nonlinear_arith);
    }
    let start: usize = i * stride;
    (start, start + stride)
}

/// Bounds of cluster `ik`'s packed factor block, split into its diagonal
/// part `[r.0, r.1)` of length `d` and its strictly-lower-triangular part
/// `[r.1, r.2)` of length `d*(d-1)/2`. The block lies inside the
/// `k * d*(d+1)/2` factor buffer.
pub fn icf_cluster_ranges(d: usize, icf_sz: usize, k: usize, ik: usize) -> (r: (
    usize,
    usize,
    usize,
))
    requires
        ik < k,
        icf_sz == spec_icf_len(d as int),
        k as int * icf_sz as int <= usize::MAX,
    ensures
        r.0 == ik as int * icf_sz as int,
        r.1 == r.0 + d,
        r.2 == r.0 + icf_sz,
        r.2 - r.1 == spec_ltri_len(d as int),
        r.2 <= k as int * icf_sz as int,
{
    proof {
        lemma_block_bounds(icf_sz as int, k as int, ik as int);
        lemma_icf_len_split(d as int);
        assert(ik as int * icf_sz as int == icf_sz as int * ik as int) by (nonlinear_arith);
        assert(k as int * icf_sz as int == icf_sz as int * k as int) by (nonlinear_arith);
    }
    let start: usize = ik * icf_sz;
    (start, start + d, start + icf_sz)
}

/// Bounds of layer `i`'s part of the LSTM main parameters: gate weights
/// from `r.0` to `r.1`, then gate biases from `r.1` to `r.2`, both of
/// length `4*b`, together inside the `l*2*4*b` parameter buffer.
pub fn lstm_layer_params(b: usize, l: usize, i: usize) -> (r: (usize, usize, usize))
    requires
        i < l,
        l as int * 2 * 4 * b as int <= usize::MAX,
    ensures
        r.0 == i as int * 8 * b as int,
        r.1 == r.0 + 4 * b as int,
        r.2 == r.0 + 8 * b as int,
        r.2 <= l as int * 2 * 4 * b as int,
{
    proof {
        assert(l as int * 2 * 4 * b as int == l as int * (8 * b as int)) by (nonlinear_arith);
        lemma_block_bounds(8 * b as int, l as int, i as int);
        assert(i as int * (8 * b as int) == i as int * 8 * b as int) by (nonlinear_arith);
        assert(i as int * (8 * b as int) == (8 * b as int) * i as int) by (nonlinear_arith);
        assert(l as int * (8 * b as int) == (8 * b as int) * l as int) by (nonlinear_arith);
    }
    let eight_b: usize = 8 * b;
    let start: usize = i * eight_b;
    (start, start + 4 * b, start + eight_b)
}

/// Bounds of layer `i`'s slice of the LSTM recurrent state: the hidden
/// block `[r.0, r.1)` and the cell block `[r.1, r.2)`, each of length `b`.
/// The slice lies inside the `2*l*b` state buffer.
pub fn lstm_layer_state(b: usize, l: usize, i: usize) -> (r: (usize, usize, usize))
    requires
        i < l,
        2 * l as int * b as int <= usize::MAX,
    ensures
        r.0 == i as int * 2 * b as int,
        r.1 == r.0 + b as int,
        r.2 == r.0 + 2 * b as int,
        r.2 <= 2 * l as int * b as int,
{
    proof {
        assert(2 * l as int * b as int == l as int * (2 * b as int)) by (nonlinear_arith);
        lemma_block_bounds(2 * b as int, l as int, i as int);
        assert(i as int * (2 * b as int) == i as int * 2 * b as int) by (nonlinear_arith);
        assert(i as int * (2 * b as int) == (2 * b as int) * i as int) by (nonlinear_arith);
        assert(l as int * (2 * b as int) == (2 * b as int) * l as int) by (nonlinear_arith);
    }
    let two_b: usize = 2 * b;
    let start: usize = i * two_b;
    (start, start + b, start + two_b)
}

/// Bounds of gate `g`'s sub-block of a `4*h`-long gate weight or bias
/// block: the forget, input, output and change gates sit at `g` = 0, 1, 2
/// and 3.
pub fn gate_range(h: usize, g: usize) -> (r: (usize, usize))
    requires
        g < 4,
        4 * h as int <= usize::MAX,
    ensures
        r.0 == g as int * h as int,
        r.1 == r.0 + h as int,
        r.1 <= 4 * h as int,
{
    proof {
        lemma_block_bounds(h as int, 4, g as int);
        assert(g as int * h as int == h as int * g as int) by (nonlinear_arith);
        assert(4 * h as int == h as int * 4) by (nonlinear_arith);
    }
    let start: usize = g * h;
    (start, start + h)
}

/// The unroll schedule of the LSTM objective over a sequence of `c` steps
/// of width `b`: one entry per scored transition, holding the start of the
/// step's input block and the start of the next step's block, which serves
/// as the gold target. Both blocks of width `b` lie inside the `c*b`
/// sequence buffer.
pub fn lstm_step_plan(c: usize, b: usize) -> (r: Vec<(usize, usize)>)
    requires
        1 <= c,
        c as int * b as int <= usize::MAX,
    ensures
        r@.len() == c - 1,
        forall|j: int|
            0 <= j < r@.len() ==> ((#[trigger] r@[j]).0 == j * b as int && r@[j].1 == (j + 1) * b
                as int && r@[j].1 + b as int <= c as int * b as int),
{
    let mut r: Vec<(usize, usize)> = Vec::new();
    let mut j: usize = 0;
    while j < c - 1
        invariant
            1 <= c,
            j <= c - 1,
            c as int * b as int <= usize::MAX,
            r@.len() == j,
            forall|t: int|
                0 <= t < r@.len() ==> ((#[trigger] r@[t]).0 == t * b as int && r@[t].1 == (t + 1)
                    * b as int && r@[t].1 + b as int <= c as int * b as int),
        decreases c - 1 - j,
    {
        let (in_start, _) = block_range(b, c, j);
        let (gold_start, gold_end) = block_range(b, c, j + 1);
        proof {
            assert(gold_end == (j + 1) as int * b as int + b as int);
        }
        r.push((in_start, gold_start));
        j = j + 1;
    }
    r
}

/// Bounds of the three parts of the LSTM extra parameters: the input
/// scale `[0, b)`, the output scale `[b, 2*b)` and the output bias
/// `[2*b, 3*b)`.
pub fn extra_param_ranges(b: usize) -> (r: (usize, usize, usize))
    requires
        3 * b as int <= usize::MAX,
    ensures
        r.0 == b,
        r.1 == 2 * b as int,
        r.2 == 3 * b as int,
{
    (b, 2 * b, 3 * b)
}

} // verus!
