//! The mathematics of Bézier evaluation over the integers.
//!
//! A parameter `t = b / (a + b)` is carried as the pair of weights `a`
//! (for `1 - t`) and `b` (for `t`). Every value of degree `k` is kept scaled
//! by `(a + b)^k`, which makes both evaluation schemes exact: the Bernstein
//! sum and the De Casteljau pyramid are polynomials in `a` and `b` with
//! integer coefficients.

use super::binomial::{binomial_coefficient, lemma_binomial_vanishes, lemma_binomial_zero};
use vstd::arithmetic::div_mod::{lemma_fundamental_div_mod, lemma_mod_bound};
use vstd::arithmetic::power::*;
use vstd::prelude::*;

verus! {

/// The Bernstein weight of control value `j` at degree `k`, scaled by
/// `(a + b)^k`: `C(k, j) * a^(k - j) * b^j`, and zero past the degree.
pub open spec fn bernstein_weight(k: nat, j: nat, a: int, b: int) -> int {
    if j <= k {
        binomial_coefficient(k, j) * pow(a, (k - j) as nat) * pow(b, j)
    } else {
        0
    }
}

/// The sum of the first `count` Bernstein terms of degree `k` over the
/// control values `values[start..]`.
pub open spec fn bernstein_sum(
    values: Seq<int>,
    start: int,
    k: nat,
    a: int,
    b: int,
    count: nat,
) -> int
    decreases count,
{
    if count == 0 {
        0
    } else {
        bernstein_sum(values, start, k, a, b, (count - 1) as nat) + bernstein_weight(
            k,
            (count - 1) as nat,
            a,
            b,
        ) * values[start + count - 1]
    }
}

/// The Bernstein polynomial of the control values, scaled by
/// `(a + b)^(len - 1)`.
pub open spec fn bernstein_value(values: Seq<int>, a: int, b: int) -> int {
    bernstein_sum(values, 0, (values.len() - 1) as nat, a, b, values.len())
}

/// Entry `i` of level `level` of the De Casteljau pyramid, scaled by
/// `(a + b)^level`. Level zero holds the control values themselves; each
/// further level interpolates between neighbours of the one before.
pub open spec fn casteljau(values: Seq<int>, a: int, b: int, level: nat, i: int) -> int
    decreases level,
{
    if level == 0 {
        values[i]
    } else {
        a * casteljau(values, a, b, (level - 1) as nat, i) + b * casteljau(
            values,
            a,
            b,
            (level - 1) as nat,
            i + 1,
        )
    }
}

/// One unfolding of a power.
pub proof fn lemma_pow_step(base: int, exponent: nat)
    requires
        exponent > 0,
    ensures
        pow(base, exponent) == base * pow(base, (exponent - 1) as nat),
{
    reveal(pow);
}

/// Pascal's rule carried over to the weights.
proof fn lemma_weight_recurrence(k: nat, j: nat, a: int, b: int)
    requires
        1 <= j <= k,
    ensures
        bernstein_weight(k, j, a, b) == a * bernstein_weight((k - 1) as nat, j, a, b) + b
            * bernstein_weight((k - 1) as nat, (j - 1) as nat, a, b),
{
    let c_left = binomial_coefficient((k - 1) as nat, (j - 1) as nat) as int;
    let c_right = binomial_coefficient((k - 1) as nat, j) as int;
    let pa = pow(a, (k - j) as nat);
    let pb = pow(b, j);
    let pb_less = pow(b, (j - 1) as nat);
    assert(binomial_coefficient(k, j) == c_left + c_right);
    lemma_pow_step(b, j);
    let from_left = c_left * pa * pb_less;
    assert(bernstein_weight((k - 1) as nat, (j - 1) as nat, a, b) == from_left);
    assert(c_left * pa * pb == b * from_left) by (nonlinear_arith)
        requires
            pb == b * pb_less,
            from_left == c_left * pa * pb_less,
    ;
    if j < k {
        let pa_less = pow(a, (k - 1 - j) as nat);
        lemma_pow_step(a, (k - j) as nat);
        let from_right = c_right * pa_less * pb;
        assert(bernstein_weight((k - 1) as nat, j, a, b) == from_right);
        assert(c_right * pa * pb == a * from_right) by (nonlinear_arith)
            requires
                pa == a * pa_less,
                from_right == c_right * pa_less * pb,
        ;
        assert((c_left + c_right) * pa * pb == c_left * pa * pb + c_right * pa * pb)
            by (nonlinear_arith);
    } else {
        lemma_binomial_vanishes((k - 1) as nat, j);
        assert(bernstein_weight((k - 1) as nat, j, a, b) == 0);
        assert((c_left + c_right) * pa * pb == c_left * pa * pb) by (nonlinear_arith)
            requires
                c_right == 0,
        ;
    }
}

/// The De Casteljau step applied to partial Bernstein sums.
proof fn lemma_sum_recurrence(values: Seq<int>, start: int, k: nat, a: int, b: int, count: nat)
    requires
        1 <= k,
        1 <= count <= k + 1,
        0 <= start,
        start + k < values.len(),
    ensures
        bernstein_sum(values, start, k, a, b, count) == a * bernstein_sum(
            values,
            start,
            (k - 1) as nat,
            a,
            b,
            count,
        ) + b * bernstein_sum(values, start + 1, (k - 1) as nat, a, b, (count - 1) as nat),
    decreases count,
{
    let lower = (k - 1) as nat;
    if count == 1 {
        let pa = pow(a, k);
        let pa_less = pow(a, lower);
        lemma_pow_step(a, k);
        lemma_pow0(b);
        lemma_binomial_zero(k);
        lemma_binomial_zero(lower);
        assert(bernstein_sum(values, start, k, a, b, 0) == 0);
        assert(bernstein_sum(values, start, lower, a, b, 0) == 0);
        assert(bernstein_sum(values, start + 1, lower, a, b, 0) == 0);
        let v = values[start];
        let w = bernstein_weight(k, 0, a, b);
        let w_same = bernstein_weight(lower, 0, a, b);
        assert(w == pa) by (nonlinear_arith)
            requires
                w == 1 * pa * 1,
        ;
        assert(w_same == pa_less) by (nonlinear_arith)
            requires
                w_same == 1 * pa_less * 1,
        ;
        assert(0 + w * v == a * (0 + w_same * v) + b * 0) by (nonlinear_arith)
            requires
                w == a * w_same,
        ;
    } else {
        let j = (count - 1) as nat;
        lemma_sum_recurrence(values, start, k, a, b, j);
        lemma_weight_recurrence(k, j, a, b);
        let v = values[start + j];
        let w = bernstein_weight(k, j, a, b);
        let w_same = bernstein_weight(lower, j, a, b);
        let w_before = bernstein_weight(lower, (j - 1) as nat, a, b);
        let s = bernstein_sum(values, start, k, a, b, j);
        let s_same = bernstein_sum(values, start, lower, a, b, j);
        let s_next = bernstein_sum(values, start + 1, lower, a, b, (j - 1) as nat);
        assert(bernstein_sum(values, start + 1, lower, a, b, j) == s_next + w_before * v);
        let t_same = w_same * v;
        let t_before = w_before * v;
        assert(w * v == a * t_same + b * t_before) by (nonlinear_arith)
            requires
                w == a * w_same + b * w_before,
                t_same == w_same * v,
                t_before == w_before * v,
        ;
        assert(a * (s_same + t_same) == a * s_same + a * t_same) by (nonlinear_arith);
        assert(b * (s_next + t_before) == b * s_next + b * t_before) by (nonlinear_arith);
    }
}

/// Both evaluation schemes agree: entry `i` of level `k` of the De Casteljau
/// pyramid is the Bernstein polynomial of degree `k` over the `k + 1` control
/// values that start at `i`.
pub proof fn lemma_casteljau_is_bernstein(values: Seq<int>, a: int, b: int, k: nat, i: int)
    requires
        0 <= i,
        i + k < values.len(),
    ensures
        casteljau(values, a, b, k, i) == bernstein_sum(values, i, k, a, b, k + 1),
    decreases k,
{
    if k == 0 {
        lemma_pow0(a);
        lemma_pow0(b);
        let w = bernstein_weight(0, 0, a, b);
        let v = values[i];
        assert(w == 1) by (nonlinear_arith)
            requires
                w == 1 * 1 * 1,
        ;
        assert(bernstein_sum(values, i, 0, a, b, 0) == 0);
        assert(bernstein_sum(values, i, 0, a, b, 1) == 0 + w * v);
        assert(w * v == v) by (nonlinear_arith)
            requires
                w == 1,
        ;
    } else {
        let lower = (k - 1) as nat;
        lemma_casteljau_is_bernstein(values, a, b, lower, i);
        lemma_casteljau_is_bernstein(values, a, b, lower, i + 1);
        lemma_sum_recurrence(values, i, k, a, b, k + 1);
        let w = bernstein_weight(lower, k, a, b);
        let v = values[i + k];
        let full = bernstein_sum(values, i, lower, a, b, k + 1);
        let short = bernstein_sum(values, i, lower, a, b, k);
        assert(w == 0);
        assert(full == short + w * v);
        assert(w * v == 0) by (nonlinear_arith)
            requires
                w == 0,
        ;
    }
}

/// The final De Casteljau interpolation equals direct Bernstein evaluation.
pub proof fn lemma_evaluations_agree(values: Seq<int>, a: int, b: int)
    requires
        values.len() >= 1,
    ensures
        casteljau(values, a, b, (values.len() - 1) as nat, 0) == bernstein_value(values, a, b),
{
    lemma_casteljau_is_bernstein(values, a, b, (values.len() - 1) as nat, 0);
}

/// At `t = 0` every pyramid entry is its leftmost control value, scaled.
pub proof fn lemma_casteljau_at_start(values: Seq<int>, a: int, k: nat, i: int)
    requires
        0 <= i,
        i + k < values.len(),
    ensures
        casteljau(values, a, 0, k, i) == pow(a, k) * values[i],
    decreases k,
{
    if k == 0 {
        lemma_pow0(a);
        assert(1 * values[i] == values[i]) by (nonlinear_arith);
    } else {
        let lower = (k - 1) as nat;
        lemma_casteljau_at_start(values, a, lower, i);
        lemma_pow_step(a, k);
        let left = casteljau(values, a, 0, lower, i);
        let right = casteljau(values, a, 0, lower, i + 1);
        let v = values[i];
        assert(a * left + 0 * right == pow(a, k) * v) by (nonlinear_arith)
            requires
                left == pow(a, lower) * v,
                pow(a, k) == a * pow(a, lower),
        ;
    }
}

/// At `t = 1` every pyramid entry is its rightmost control value, scaled.
pub proof fn lemma_casteljau_at_end(values: Seq<int>, b: int, k: nat, i: int)
    requires
        0 <= i,
        i + k < values.len(),
    ensures
        casteljau(values, 0, b, k, i) == pow(b, k) * values[i + k],
    decreases k,
{
    if k == 0 {
        lemma_pow0(b);
        assert(1 * values[i] == values[i]) by (nonlinear_arith);
    } else {
        let lower = (k - 1) as nat;
        lemma_casteljau_at_end(values, b, lower, i + 1);
        lemma_pow_step(b, k);
        let left = casteljau(values, 0, b, lower, i);
        let right = casteljau(values, 0, b, lower, i + 1);
        let v = values[i + k];
        assert(0 * left + b * right == pow(b, k) * v) by (nonlinear_arith)
            requires
                right == pow(b, lower) * v,
                pow(b, k) == b * pow(b, lower),
        ;
    }
}

/// The curve starts at its first control value: at `t = 0` the Bernstein
/// polynomial is that value times the scale.
pub proof fn lemma_bernstein_at_start(values: Seq<int>, a: int)
    requires
        values.len() >= 1,
    ensures
        bernstein_value(values, a, 0) == pow(a, (values.len() - 1) as nat) * values[0],
{
    let n = (values.len() - 1) as nat;
    lemma_evaluations_agree(values, a, 0);
    lemma_casteljau_at_start(values, a, n, 0);
}

/// The curve ends at its last control value: at `t = 1` the Bernstein
/// polynomial is that value times the scale.
pub proof fn lemma_bernstein_at_end(values: Seq<int>, b: int)
    requires
        values.len() >= 1,
    ensures
        bernstein_value(values, 0, b) == pow(b, (values.len() - 1) as nat) * values[
            values.len() - 1],
{
    let n = (values.len() - 1) as nat;
    lemma_evaluations_agree(values, 0, b);
    lemma_casteljau_at_end(values, b, n, 0);
}

/// Whether every one of the values is at most `bound` in absolute value.
pub open spec fn bounded_by(values: Seq<int>, bound: int) -> bool {
    forall|i: int| 0 <= i < values.len() ==> -bound <= #[trigger] values[i] <= bound
}

/// A power of a non-negative base is non-negative.
pub proof fn lemma_pow_nonnegative(base: int, exponent: nat)
    requires
        base >= 0,
    ensures
        pow(base, exponent) >= 0,
    decreases exponent,
{
    if exponent == 0 {
        lemma_pow0(base);
    } else {
        lemma_pow_nonnegative(base, (exponent - 1) as nat);
        lemma_pow_step(base, exponent);
        assert(base * pow(base, (exponent - 1) as nat) >= 0) by (nonlinear_arith)
            requires
                base >= 0,
                pow(base, (exponent - 1) as nat) >= 0,
        ;
    }
}

/// Between non-negative bases, the larger base has the larger power.
pub proof fn lemma_pow_grows_with_base(smaller: int, larger: int, exponent: nat)
    requires
        0 <= smaller <= larger,
    ensures
        0 <= pow(smaller, exponent) <= pow(larger, exponent),
    decreases exponent,
{
    if exponent == 0 {
        lemma_pow0(smaller);
        lemma_pow0(larger);
    } else {
        let less = (exponent - 1) as nat;
        lemma_pow_grows_with_base(smaller, larger, less);
        lemma_pow_step(smaller, exponent);
        lemma_pow_step(larger, exponent);
        let ps = pow(smaller, less);
        let pl = pow(larger, less);
        assert(0 <= smaller * ps <= larger * pl) by (nonlinear_arith)
            requires
                0 <= smaller <= larger,
                0 <= ps <= pl,
        ;
    }
}

/// Powers of a base of at least one grow with the exponent.
pub proof fn lemma_pow_grows_with_exponent(base: int, fewer: nat, more: nat)
    requires
        base >= 1,
        fewer <= more,
    ensures
        1 <= pow(base, fewer) <= pow(base, more),
{
    lemma_pow_positive(base, fewer);
    lemma_pow_increases(base as nat, fewer, more);
}

/// With weights `a, b >= 0` the pyramid only forms convex combinations:
/// where the control values lie between `low` and `high`, level `k` lies
/// between the two as well, times the scale.
pub proof fn lemma_casteljau_within(
    values: Seq<int>,
    a: int,
    b: int,
    k: nat,
    i: int,
    low: int,
    high: int,
)
    requires
        a >= 0,
        b >= 0,
        0 <= i,
        i + k < values.len(),
        forall|j: int| 0 <= j < values.len() ==> low <= #[trigger] values[j] <= high,
    ensures
        low * pow(a + b, k) <= casteljau(values, a, b, k, i) <= high * pow(a + b, k),
    decreases k,
{
    if k == 0 {
        lemma_pow0(a + b);
        assert(low * 1 == low && high * 1 == high) by (nonlinear_arith);
    } else {
        let lower = (k - 1) as nat;
        lemma_casteljau_within(values, a, b, lower, i, low, high);
        lemma_casteljau_within(values, a, b, lower, i + 1, low, high);
        lemma_pow_step(a + b, k);
        let left = casteljau(values, a, b, lower, i);
        let right = casteljau(values, a, b, lower, i + 1);
        let scale = pow(a + b, lower);
        let floor = low * scale;
        let ceiling = high * scale;
        assert((a + b) * floor <= a * left + b * right <= (a + b) * ceiling)
            by (nonlinear_arith)
            requires
                a >= 0,
                b >= 0,
                floor <= left <= ceiling,
                floor <= right <= ceiling,
        ;
        assert(low * pow(a + b, k) == (a + b) * floor && high * pow(a + b, k) == (a + b)
            * ceiling) by (nonlinear_arith)
            requires
                pow(a + b, k) == (a + b) * scale,
                floor == low * scale,
                ceiling == high * scale,
        ;
    }
}

/// With weights `a, b >= 0` the pyramid only forms convex combinations:
/// level `k` stays within the bound of the control values, times the scale.
pub proof fn lemma_casteljau_bounded(
    values: Seq<int>,
    a: int,
    b: int,
    k: nat,
    i: int,
    bound: int,
)
    requires
        a >= 0,
        b >= 0,
        0 <= i,
        i + k < values.len(),
        bounded_by(values, bound),
    ensures
        -bound * pow(a + b, k) <= casteljau(values, a, b, k, i) <= bound * pow(a + b, k),
{
    lemma_casteljau_within(values, a, b, k, i, -bound, bound);
}

/// The sum of the first `count` Bernstein weights of degree `k`.
pub open spec fn weight_sum(k: nat, a: int, b: int, count: nat) -> int
    decreases count,
{
    if count == 0 {
        0
    } else {
        weight_sum(k, a, b, (count - 1) as nat) + bernstein_weight(k, (count - 1) as nat, a, b)
    }
}

/// Weights built from non-negative `a` and `b` are non-negative.
pub proof fn lemma_weight_nonnegative(k: nat, j: nat, a: int, b: int)
    requires
        a >= 0,
        b >= 0,
    ensures
        bernstein_weight(k, j, a, b) >= 0,
{
    if j <= k {
        lemma_pow_nonnegative(a, (k - j) as nat);
        lemma_pow_nonnegative(b, j);
        let c = binomial_coefficient(k, j) as int;
        let pa = pow(a, (k - j) as nat);
        let pb = pow(b, j);
        assert(c * pa * pb >= 0) by (nonlinear_arith)
            requires
                c >= 0,
                pa >= 0,
                pb >= 0,
        ;
    }
}

/// Partial weight sums grow with the number of terms.
pub proof fn lemma_weight_sum_grows(k: nat, a: int, b: int, fewer: nat, more: nat)
    requires
        a >= 0,
        b >= 0,
        fewer <= more,
    ensures
        0 <= weight_sum(k, a, b, fewer) <= weight_sum(k, a, b, more),
    decreases more,
{
    if more == 0 {
    } else if fewer == more {
        lemma_weight_sum_grows(k, a, b, 0, (more - 1) as nat);
        lemma_weight_nonnegative(k, (more - 1) as nat, a, b);
    } else {
        lemma_weight_sum_grows(k, a, b, fewer, (more - 1) as nat);
        lemma_weight_nonnegative(k, (more - 1) as nat, a, b);
    }
}

/// Over control values that are all one, a partial Bernstein sum is the sum
/// of its weights.
proof fn lemma_sum_of_ones(ones: Seq<int>, k: nat, a: int, b: int, count: nat)
    requires
        count <= ones.len(),
        forall|i: int| 0 <= i < ones.len() ==> ones[i] == 1,
    ensures
        bernstein_sum(ones, 0, k, a, b, count) == weight_sum(k, a, b, count),
    decreases count,
{
    if count > 0 {
        lemma_sum_of_ones(ones, k, a, b, (count - 1) as nat);
        let w = bernstein_weight(k, (count - 1) as nat, a, b);
        assert(ones[0 + count - 1] == 1);
        assert(w * 1 == w) by (nonlinear_arith);
    }
}

/// Over control values that are all one, every pyramid entry is the scale.
proof fn lemma_casteljau_of_ones(ones: Seq<int>, a: int, b: int, k: nat, i: int)
    requires
        0 <= i,
        i + k < ones.len(),
        forall|j: int| 0 <= j < ones.len() ==> ones[j] == 1,
    ensures
        casteljau(ones, a, b, k, i) == pow(a + b, k),
    decreases k,
{
    if k == 0 {
        lemma_pow0(a + b);
    } else {
        let lower = (k - 1) as nat;
        lemma_casteljau_of_ones(ones, a, b, lower, i);
        lemma_casteljau_of_ones(ones, a, b, lower, i + 1);
        lemma_pow_step(a + b, k);
        let scale = pow(a + b, lower);
        assert(a * scale + b * scale == (a + b) * scale) by (nonlinear_arith);
    }
}

/// The binomial theorem: the weights of degree `k` add up to `(a + b)^k`.
pub proof fn lemma_weights_add_up(k: nat, a: int, b: int)
    ensures
        weight_sum(k, a, b, k + 1) == pow(a + b, k),
{
    let ones = Seq::new(k + 1, |i: int| 1int);
    lemma_sum_of_ones(ones, k, a, b, k + 1);
    lemma_casteljau_of_ones(ones, a, b, k, 0);
    lemma_casteljau_is_bernstein(ones, a, b, k, 0);
}

/// No single weight exceeds the scale.
pub proof fn lemma_weight_at_most_scale(k: nat, j: nat, a: int, b: int)
    requires
        a >= 0,
        b >= 0,
    ensures
        0 <= bernstein_weight(k, j, a, b) <= pow(a + b, k),
{
    lemma_weight_nonnegative(k, j, a, b);
    if j <= k {
        lemma_weight_sum_grows(k, a, b, 0, j);
        lemma_weight_sum_grows(k, a, b, j + 1, k + 1);
        lemma_weights_add_up(k, a, b);
    } else {
        lemma_pow_nonnegative(a + b, k);
    }
}

/// A partial Bernstein sum over bounded control values stays within the bound
/// times the weights summed so far, and so within the bound times the scale.
pub proof fn lemma_bernstein_sum_bounded(
    values: Seq<int>,
    k: nat,
    a: int,
    b: int,
    count: nat,
    bound: int,
)
    requires
        a >= 0,
        b >= 0,
        count <= k + 1,
        count <= values.len(),
        bound >= 0,
        bounded_by(values, bound),
    ensures
        -bound * weight_sum(k, a, b, count) <= bernstein_sum(values, 0, k, a, b, count) <= bound
            * weight_sum(k, a, b, count),
        0 <= weight_sum(k, a, b, count) <= pow(a + b, k),
        -bound * pow(a + b, k) <= bernstein_sum(values, 0, k, a, b, count) <= bound * pow(
            a + b,
            k,
        ),
    decreases count,
{
    lemma_weight_sum_grows(k, a, b, count, k + 1);
    lemma_weights_add_up(k, a, b);
    let total = weight_sum(k, a, b, count);
    let scale = pow(a + b, k);
    if count == 0 {
        assert(bound * 0 == 0 && -bound * 0 == 0) by (nonlinear_arith);
    } else {
        let fewer = (count - 1) as nat;
        lemma_bernstein_sum_bounded(values, k, a, b, fewer, bound);
        lemma_weight_nonnegative(k, fewer, a, b);
        let w = bernstein_weight(k, fewer, a, b);
        let v = values[0 + count - 1];
        let s = bernstein_sum(values, 0, k, a, b, fewer);
        let before = weight_sum(k, a, b, fewer);
        assert(-bound * (before + w) <= s + w * v <= bound * (before + w)) by (nonlinear_arith)
            requires
                w >= 0,
                -bound <= v <= bound,
                -bound * before <= s <= bound * before,
        ;
    }
    let s = bernstein_sum(values, 0, k, a, b, count);
    assert(-bound * scale <= s <= bound * scale) by (nonlinear_arith)
        requires
            -bound * total <= s <= bound * total,
            0 <= total <= scale,
            bound >= 0,
    ;
}

/// Entry `i` of level `level` of the De Casteljau pyramid as it is computed
/// on a grid of `grid` steps per unit: the control values are taken in grid
/// steps, and every interpolation is rounded down to a whole step.
pub open spec fn grid_casteljau(
    values: Seq<int>,
    a: int,
    b: int,
    grid: int,
    level: nat,
    i: int,
) -> int
    decreases level,
{
    if level == 0 {
        values[i] * grid
    } else {
        (a * grid_casteljau(values, a, b, grid, (level - 1) as nat, i) + b * grid_casteljau(
            values,
            a,
            b,
            grid,
            (level - 1) as nat,
            i + 1,
        )) / (a + b)
    }
}

/// A weighted mean of two values between `floor` and `ceiling`, rounded
/// down, lies between them as well.
proof fn lemma_rounded_mean_within(
    a: int,
    b: int,
    left: int,
    right: int,
    floor: int,
    ceiling: int,
)
    requires
        a >= 0,
        b >= 0,
        a + b > 0,
        floor <= left <= ceiling,
        floor <= right <= ceiling,
    ensures
        floor <= (a * left + b * right) / (a + b) <= ceiling,
        (a + b) * floor <= a * left + b * right <= (a + b) * ceiling,
{
    let d = a + b;
    let x = a * left + b * right;
    assert(d * floor <= x <= d * ceiling) by (nonlinear_arith)
        requires
            d == a + b,
            x == a * left + b * right,
            a >= 0,
            b >= 0,
            floor <= left <= ceiling,
            floor <= right <= ceiling,
    ;
    lemma_fundamental_div_mod(x, d);
    lemma_mod_bound(x, d);
    let q = x / d;
    let r = x % d;
    assert(floor <= q <= ceiling) by (nonlinear_arith)
        requires
            x == d * q + r,
            0 <= r < d,
            d * floor <= x <= d * ceiling,
    ;
}

/// On the grid, too, the pyramid stays within the extent of the control
/// values.
pub proof fn lemma_grid_casteljau_within(
    values: Seq<int>,
    a: int,
    b: int,
    grid: int,
    k: nat,
    i: int,
    low: int,
    high: int,
)
    requires
        a >= 0,
        b >= 0,
        a + b > 0,
        grid >= 0,
        0 <= i,
        i + k < values.len(),
        forall|j: int| 0 <= j < values.len() ==> low <= #[trigger] values[j] <= high,
    ensures
        low * grid <= grid_casteljau(values, a, b, grid, k, i) <= high * grid,
    decreases k,
{
    if k == 0 {
        let v = values[i];
        assert(low * grid <= v * grid <= high * grid) by (nonlinear_arith)
            requires
                low <= v <= high,
                grid >= 0,
        ;
    } else {
        let lower = (k - 1) as nat;
        lemma_grid_casteljau_within(values, a, b, grid, lower, i, low, high);
        lemma_grid_casteljau_within(values, a, b, grid, lower, i + 1, low, high);
        lemma_rounded_mean_within(
            a,
            b,
            grid_casteljau(values, a, b, grid, lower, i),
            grid_casteljau(values, a, b, grid, lower, i + 1),
            low * grid,
            high * grid,
        );
    }
}

/// How one rounded interpolation adds to the error: the errors of the two
/// values it interpolates are averaged, and the rounding costs at most one
/// step more.
proof fn lemma_grid_error_step(
    a: int,
    b: int,
    scale: int,
    exact_left: int,
    exact_right: int,
    grid_left: int,
    grid_right: int,
    steps: int,
)
    requires
        a >= 0,
        b >= 0,
        a + b > 0,
        scale >= 0,
        steps >= 0,
        0 <= exact_left - scale * grid_left <= steps * scale,
        0 <= exact_right - scale * grid_right <= steps * scale,
    ensures
        0 <= (a * exact_left + b * exact_right) - ((a + b) * scale) * ((a * grid_left + b
            * grid_right) / (a + b)) <= (steps + 1) * ((a + b) * scale),
{
    let d = a + b;
    let x = a * grid_left + b * grid_right;
    lemma_fundamental_div_mod(x, d);
    lemma_mod_bound(x, d);
    let q = x / d;
    let r = x % d;
    let error_left = exact_left - scale * grid_left;
    let error_right = exact_right - scale * grid_right;
    let carried = a * error_left + b * error_right;
    assert(0 <= carried <= d * (steps * scale)) by (nonlinear_arith)
        requires
            carried == a * error_left + b * error_right,
            d == a + b,
            a >= 0,
            b >= 0,
            0 <= error_left <= steps * scale,
            0 <= error_right <= steps * scale,
    ;
    let scaled_left = scale * grid_left;
    let scaled_right = scale * grid_right;
    assert((d * scale) * q == scale * (d * q)) by (nonlinear_arith);
    assert(scale * (d * q) == scale * x - r * scale) by (nonlinear_arith)
        requires
            x == d * q + r,
    ;
    assert(scale * x == a * scaled_left + b * scaled_right) by (nonlinear_arith)
        requires
            x == a * grid_left + b * grid_right,
            scaled_left == scale * grid_left,
            scaled_right == scale * grid_right,
    ;
    assert(carried == a * exact_left + b * exact_right - a * scaled_left - b * scaled_right)
        by (nonlinear_arith)
        requires
            carried == a * error_left + b * error_right,
            error_left == exact_left - scaled_left,
            error_right == exact_right - scaled_right,
    ;
    assert((a * exact_left + b * exact_right) - (d * scale) * q == carried + r * scale);
    assert(0 <= r * scale <= d * scale) by (nonlinear_arith)
        requires
            0 <= r < d,
            scale >= 0,
    ;
    assert(d * (steps * scale) + d * scale == (steps + 1) * (d * scale)) by (nonlinear_arith);
}

/// The pyramid on the grid follows the exact one from below, and falls
/// behind by at most one grid step per level: with `scale` the common
/// denominator `(a + b)^k`,
/// `0 <= grid * exact - scale * on_grid <= k * scale`.
pub proof fn lemma_grid_casteljau_is_close(
    values: Seq<int>,
    a: int,
    b: int,
    grid: int,
    k: nat,
    i: int,
)
    requires
        a >= 0,
        b >= 0,
        a + b > 0,
        0 <= i,
        i + k < values.len(),
    ensures
        0 <= grid * casteljau(values, a, b, k, i) - pow(a + b, k) * grid_casteljau(
            values,
            a,
            b,
            grid,
            k,
            i,
        ) <= k * pow(a + b, k),
    decreases k,
{
    if k == 0 {
        lemma_pow0(a + b);
        let v = values[i];
        assert(grid * v - 1 * (v * grid) == 0) by (nonlinear_arith);
        assert(0 * 1 == 0) by (nonlinear_arith);
    } else {
        let lower = (k - 1) as nat;
        lemma_grid_casteljau_is_close(values, a, b, grid, lower, i);
        lemma_grid_casteljau_is_close(values, a, b, grid, lower, i + 1);
        lemma_pow_step(a + b, k);
        lemma_pow_nonnegative(a + b, lower);
        let scale = pow(a + b, lower);
        let exact_left = grid * casteljau(values, a, b, lower, i);
        let exact_right = grid * casteljau(values, a, b, lower, i + 1);
        let grid_left = grid_casteljau(values, a, b, grid, lower, i);
        let grid_right = grid_casteljau(values, a, b, grid, lower, i + 1);
        lemma_grid_error_step(
            a,
            b,
            scale,
            exact_left,
            exact_right,
            grid_left,
            grid_right,
            lower as int,
        );
        let exact = casteljau(values, a, b, k, i);
        assert(grid * exact == a * exact_left + b * exact_right) by (nonlinear_arith)
            requires
                exact == a * casteljau(values, a, b, lower, i) + b * casteljau(
                    values,
                    a,
                    b,
                    lower,
                    i + 1,
                ),
                exact_left == grid * casteljau(values, a, b, lower, i),
                exact_right == grid * casteljau(values, a, b, lower, i + 1),
        ;
        assert(pow(a + b, k) == (a + b) * scale);
        assert((lower + 1) * ((a + b) * scale) == k * pow(a + b, k)) by (nonlinear_arith)
            requires
                lower + 1 == k,
                pow(a + b, k) == (a + b) * scale,
        ;
    }
}

/// At `t = 0` the pyramid on the grid is exact: every entry is its leftmost
/// control value.
pub proof fn lemma_grid_casteljau_at_start(values: Seq<int>, a: int, grid: int, k: nat, i: int)
    requires
        a > 0,
        0 <= i,
        i + k < values.len(),
    ensures
        grid_casteljau(values, a, 0, grid, k, i) == values[i] * grid,
    decreases k,
{
    if k > 0 {
        let lower = (k - 1) as nat;
        lemma_grid_casteljau_at_start(values, a, grid, lower, i);
        let left = grid_casteljau(values, a, 0, grid, lower, i);
        let right = grid_casteljau(values, a, 0, grid, lower, i + 1);
        assert((a * left + 0 * right) / (a + 0) == left) by (nonlinear_arith)
            requires
                a > 0,
        ;
    }
}

/// At `t = 1` the pyramid on the grid is exact: every entry is its rightmost
/// control value.
pub proof fn lemma_grid_casteljau_at_end(values: Seq<int>, b: int, grid: int, k: nat, i: int)
    requires
        b > 0,
        0 <= i,
        i + k < values.len(),
    ensures
        grid_casteljau(values, 0, b, grid, k, i) == values[i + k] * grid,
    decreases k,
{
    if k > 0 {
        let lower = (k - 1) as nat;
        lemma_grid_casteljau_at_end(values, b, grid, lower, i + 1);
        let left = grid_casteljau(values, 0, b, grid, lower, i);
        let right = grid_casteljau(values, 0, b, grid, lower, i + 1);
        assert((0 * left + b * right) / (0 + b) == right) by (nonlinear_arith)
            requires
                b > 0,
        ;
    }
}

} // verus!
