//! Facts about products of integers that the proofs of this crate rest on.
//!
//! The solver decides sums and comparisons by itself and needs help with
//! products. Each lemma here speaks of few numbers, so that it is checked
//! quickly; the proofs elsewhere combine them.

use vstd::prelude::*;
use crate::model::{in_span, spans_overlap};

verus! {

/// A product does not depend on the order of its factors.
pub proof fn lemma_swap(a: int, b: int)
    by (nonlinear_arith)
    ensures
        a * b == b * a,
{
}

/// Multiplication distributes over sums and differences, on either side.
pub proof fn lemma_distribute(a: int, b: int, c: int)
    by (nonlinear_arith)
    ensures
        (a + b) * c == a * c + b * c,
        (a - b) * c == a * c - b * c,
        c * (a + b) == c * a + c * b,
        c * (a - b) == c * a - c * b,
{
}

/// A product of three factors does not depend on their order or grouping.
pub proof fn lemma_regroup(a: int, b: int, c: int)
    by (nonlinear_arith)
    ensures
        (a * b) * c == a * (b * c),
        (a * c) * b == a * (b * c),
        (b * a) * c == a * (b * c),
        (b * c) * a == a * (b * c),
        (c * a) * b == a * (b * c),
        (c * b) * a == a * (b * c),
        a * (c * b) == a * (b * c),
        b * (a * c) == a * (b * c),
        b * (c * a) == a * (b * c),
        c * (a * b) == a * (b * c),
        c * (b * a) == a * (b * c),
{
}

/// A product with a factor zero is zero.
pub proof fn lemma_times_zero(a: int, z: int)
    by (nonlinear_arith)
    requires
        z == 0,
    ensures
        a * z == 0,
        z * a == 0,
{
}

/// The sign of a product, from the signs of its factors.
pub proof fn lemma_product_sign(a: int, b: int)
    by (nonlinear_arith)
    ensures
        (a * b > 0) == ((a > 0 && b > 0) || (a < 0 && b < 0)),
        (a * b < 0) == ((a > 0 && b < 0) || (a < 0 && b > 0)),
        (a * b == 0) == (a == 0 || b == 0),
{
}

/// A product is zero only where a factor is.
pub proof fn lemma_zero_factor(a: int, c: int)
    by (nonlinear_arith)
    requires
        a * c == 0,
        c != 0,
    ensures
        a == 0,
{
}

/// Two intervals that hold the same multiple of a positive number, each
/// multiplied by that number, overlap.
pub proof fn lemma_scaled_spans_overlap(d: int, v: int, a1: int, a2: int, b1: int, b2: int)
    by (nonlinear_arith)
    requires
        d > 0,
        in_span(v, d * a1, d * a2),
        in_span(v, d * b1, d * b2),
    ensures
        spans_overlap(a1, a2, b1, b2),
{
}

/// An interval between two multiples of `d`, moved to start at zero.
pub proof fn lemma_scaled_offset(d: int, v: int, a: int, b: int)
    by (nonlinear_arith)
    requires
        in_span(v, d * a, d * b),
    ensures
        in_span(v - d * a, 0, d * (b - a)),
{
}

/// A mix of two numbers of the same strict sign, with weights of one sign
/// that do not both vanish, is not zero.
pub proof fn lemma_mix_has_no_side(u: int, d: int, p: int, c1: int, c2: int)
    by (nonlinear_arith)
    requires
        u != 0,
        d > 0,
        in_span(p, 0, d * u),
        (u * d - p) * c1 + p * c2 == 0,
    ensures
        !(c1 > 0 && c2 > 0),
        !(c1 < 0 && c2 < 0),
{
}

/// The `k`-th of `d` equal parts of the way from `a` to `a + w`, multiplied
/// by `d`, lies between the multiples of the two ends.
pub proof fn lemma_parameter_span(d: int, a: int, w: int, k: int, v: int)
    by (nonlinear_arith)
    requires
        0 <= k <= d,
        v == d * a + k * w,
    ensures
        in_span(v, d * a, d * (a + w)),
{
}

/// Where `g * p == w * k` and `k` lies between zero and `g`, `p` lies
/// between zero and `w`: along a line that is not vertical, what lies
/// between two points in `x` lies between them in `y`.
pub proof fn lemma_proportional_span(g: int, p: int, k: int, w: int)
    by (nonlinear_arith)
    requires
        g != 0,
        in_span(k, 0, g),
        g * p == w * k,
    ensures
        in_span(p, 0, w),
{
}

/// Multiplying by a positive number keeps the order.
pub proof fn lemma_scaled_order(d: int, a: int, b: int)
    by (nonlinear_arith)
    requires
        d > 0,
    ensures
        (d * a <= d * b) == (a <= b),
        (d * a < d * b) == (a < b),
{
}

/// A part of a part: where `v` lies between zero and `w`, `k` of `m` parts
/// of `v` lie between zero and all `m` parts of `w`.
pub proof fn lemma_scaled_part(k: int, m: int, v: int, w: int)
    by (nonlinear_arith)
    requires
        0 <= k <= m,
        in_span(v, 0, w),
    ensures
        in_span(k * v, 0, m * w),
{
}

} // verus!
