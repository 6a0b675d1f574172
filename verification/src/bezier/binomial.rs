//! Binomial coefficients: the definition by Pascal's rule, the identities that
//! follow from it, and a machine-integer implementation.

use vstd::prelude::*;

verus! {

/// The largest `n` for which [`binomial`] is defined: every intermediate
/// product of its recurrence still fits in 64 bits up to this row.
pub const MAX_BINOMIAL_ROW: u64 = 62;

/// The number of `k`-element subsets of an `n`-element set, by Pascal's rule.
pub open spec fn binomial_coefficient(n: nat, k: nat) -> nat
    decreases n,
{
    if k == 0 {
        1
    } else if n == 0 {
        0
    } else {
        binomial_coefficient((n - 1) as nat, (k - 1) as nat) + binomial_coefficient(
            (n - 1) as nat,
            k,
        )
    }
}

/// Choosing nothing can be done in exactly one way.
pub proof fn lemma_binomial_zero(n: nat)
    ensures
        binomial_coefficient(n, 0) == 1,
{
}

/// There is no way to choose more elements than there are.
pub proof fn lemma_binomial_vanishes(n: nat, k: nat)
    requires
        k > n,
    ensures
        binomial_coefficient(n, k) == 0,
    decreases n,
{
    if n > 0 {
        lemma_binomial_vanishes((n - 1) as nat, (k - 1) as nat);
        lemma_binomial_vanishes((n - 1) as nat, k);
    }
}

/// Choosing everything can be done in exactly one way.
pub proof fn lemma_binomial_full(n: nat)
    ensures
        binomial_coefficient(n, n) == 1,
    decreases n,
{
    if n > 0 {
        lemma_binomial_full((n - 1) as nat);
        lemma_binomial_vanishes((n - 1) as nat, n);
    }
}

/// Within a row every coefficient is at least one.
pub proof fn lemma_binomial_positive(n: nat, k: nat)
    requires
        k <= n,
    ensures
        binomial_coefficient(n, k) >= 1,
    decreases n,
{
    if k > 0 {
        lemma_binomial_positive((n - 1) as nat, (k - 1) as nat);
    }
}

/// Choosing `k` elements is choosing the `n - k` that are left out.
pub proof fn lemma_binomial_symmetry(n: nat, k: nat)
    requires
        k <= n,
    ensures
        binomial_coefficient(n, k) == binomial_coefficient(n, (n - k) as nat),
    decreases n,
{
    if k == 0 || k == n {
        lemma_binomial_full(n);
    } else {
        lemma_binomial_symmetry((n - 1) as nat, (k - 1) as nat);
        lemma_binomial_symmetry((n - 1) as nat, k);
    }
}

/// The absorption identity `(k + 1) * C(n + 1, k + 1) == (n + 1) * C(n, k)`.
pub proof fn lemma_binomial_absorption(n: nat, k: nat)
    ensures
        (k + 1) * binomial_coefficient(n + 1, k + 1) == (n + 1) * binomial_coefficient(n, k),
    decreases n,
{
    let upper = binomial_coefficient(n + 1, k + 1);
    let here = binomial_coefficient(n, k);
    let right = binomial_coefficient(n, k + 1);
    assert(upper == here + right);
    if n == 0 {
        assert(right == 0);
        assert((k + 1) * here == 1 * here) by (nonlinear_arith)
            requires
                k == 0 || here == 0,
        ;
    } else {
        let below = binomial_coefficient((n - 1) as nat, k);
        lemma_binomial_absorption((n - 1) as nat, k);
        assert((k + 1) * right == n * below);
        if k == 0 {
            assert(right == n) by (nonlinear_arith)
                requires
                    1 * right == n * below,
                    below == 1,
            ;
            assert(1 * upper == (n + 1) * 1) by (nonlinear_arith)
                requires
                    upper == 1 + right,
                    right == n,
            ;
        } else {
            let below_left = binomial_coefficient((n - 1) as nat, (k - 1) as nat);
            lemma_binomial_absorption((n - 1) as nat, (k - 1) as nat);
            assert(k * here == n * below_left);
            assert(here == below_left + below);
            assert((k + 1) * upper == (n + 1) * here) by (nonlinear_arith)
                requires
                    upper == here + right,
                    here == below_left + below,
                    (k + 1) * right == n * below,
                    k * here == n * below_left,
            ;
        }
    }
}

/// A coefficient never shrinks from one row to the next.
pub proof fn lemma_binomial_grows_with_row(n: nat, m: nat, k: nat)
    requires
        n <= m,
    ensures
        binomial_coefficient(n, k) <= binomial_coefficient(m, k),
    decreases m,
{
    if n < m {
        lemma_binomial_grows_with_row(n, (m - 1) as nat, k);
    }
}

/// Within a row the coefficients rise up to the middle.
proof fn lemma_binomial_rises(n: nat, k: nat)
    requires
        2 * k + 1 <= n,
    ensures
        binomial_coefficient(n, k) <= binomial_coefficient(n, k + 1),
{
    let low = binomial_coefficient(n, k);
    let high = binomial_coefficient(n, k + 1);
    let below = binomial_coefficient((n - 1) as nat, k);
    lemma_binomial_absorption((n - 1) as nat, k);
    assert((k + 1) * high == n * below);
    lemma_binomial_symmetry(n, k);
    lemma_binomial_absorption((n - 1) as nat, (n - k - 1) as nat);
    lemma_binomial_symmetry((n - 1) as nat, k);
    assert((n - k) * low == n * below);
    assert(low <= high) by (nonlinear_arith)
        requires
            (k + 1) * high == (n - k) * low,
            k + 1 <= n - k,
            0 <= low,
            0 <= high,
    ;
}

/// Below the middle, every coefficient is at most the central one.
proof fn lemma_binomial_below_middle(n: nat, k: nat)
    requires
        k <= n / 2,
    ensures
        binomial_coefficient(n, k) <= binomial_coefficient(n, n / 2),
    decreases n / 2 - k,
{
    if k < n / 2 {
        lemma_binomial_rises(n, k);
        lemma_binomial_below_middle(n, k + 1);
    }
}

/// The central coefficient is the largest of its row.
pub proof fn lemma_binomial_central_is_largest(n: nat, k: nat)
    ensures
        binomial_coefficient(n, k) <= binomial_coefficient(n, n / 2),
{
    if k > n {
        lemma_binomial_vanishes(n, k);
    } else if k <= n / 2 {
        lemma_binomial_below_middle(n, k);
    } else {
        lemma_binomial_symmetry(n, k);
        lemma_binomial_below_middle(n, (n - k) as nat);
    }
}

/// One step along a diagonal of Pascal's triangle, from a known value.
proof fn lemma_diagonal_step(n: nat, k: nat, known: nat, next: nat)
    requires
        binomial_coefficient(n, k) == known,
        (k + 1) * next == (n + 1) * known,
    ensures
        binomial_coefficient(n + 1, k + 1) == next,
{
    lemma_binomial_absorption(n, k);
    let upper = binomial_coefficient(n + 1, k + 1);
    assert(upper == next) by (nonlinear_arith)
        requires
            (k + 1) * upper == (n + 1) * known,
            (k + 1) * next == (n + 1) * known,
    ;
}

/// The value of the largest coefficient of row 61.
proof fn lemma_binomial_61_30()
    ensures
        binomial_coefficient(61, 30) == 232714176627630544,
{
    lemma_binomial_zero(31);
    lemma_diagonal_step(31, 0, 1, 32);
    lemma_diagonal_step(32, 1, 32, 528);
    lemma_diagonal_step(33, 2, 528, 5984);
    lemma_diagonal_step(34, 3, 5984, 52360);
    lemma_diagonal_step(35, 4, 52360, 376992);
    lemma_diagonal_step(36, 5, 376992, 2324784);
    lemma_diagonal_step(37, 6, 2324784, 12620256);
    lemma_diagonal_step(38, 7, 12620256, 61523748);
    lemma_diagonal_step(39, 8, 61523748, 273438880);
    lemma_diagonal_step(40, 9, 273438880, 1121099408);
    lemma_diagonal_step(41, 10, 1121099408, 4280561376);
    lemma_diagonal_step(42, 11, 4280561376, 15338678264);
    lemma_diagonal_step(43, 12, 15338678264, 51915526432);
    lemma_diagonal_step(44, 13, 51915526432, 166871334960);
    lemma_diagonal_step(45, 14, 166871334960, 511738760544);
    lemma_diagonal_step(46, 15, 511738760544, 1503232609098);
    lemma_diagonal_step(47, 16, 1503232609098, 4244421484512);
    lemma_diagonal_step(48, 17, 4244421484512, 11554258485616);
    lemma_diagonal_step(49, 18, 11554258485616, 30405943383200);
    lemma_diagonal_step(50, 19, 30405943383200, 77535155627160);
    lemma_diagonal_step(51, 20, 77535155627160, 191991813933920);
    lemma_diagonal_step(52, 21, 191991813933920, 462525733568080);
    lemma_diagonal_step(53, 22, 462525733568080, 1085929983159840);
    lemma_diagonal_step(54, 23, 1085929983159840, 2488589544741300);
    lemma_diagonal_step(55, 24, 2488589544741300, 5574440580220512);
    lemma_diagonal_step(56, 25, 5574440580220512, 12220888964329584);
    lemma_diagonal_step(57, 26, 12220888964329584, 26252279997448736);
    lemma_diagonal_step(58, 27, 26252279997448736, 55317304280338408);
    lemma_diagonal_step(59, 28, 55317304280338408, 114449595062769120);
    lemma_diagonal_step(60, 29, 114449595062769120, 232714176627630544);
}

/// Up to row 61 no coefficient exceeds the central one of row 61.
pub proof fn lemma_binomial_bound(n: nat, k: nat)
    requires
        n <= 61,
    ensures
        binomial_coefficient(n, k) <= 232714176627630544,
{
    lemma_binomial_grows_with_row(n, 61, k);
    lemma_binomial_central_is_largest(61, k);
    lemma_binomial_61_30();
}

/// The binomial coefficient `C(n, k)`, zero when `k > n`.
///
/// The row is limited to [`MAX_BINOMIAL_ROW`]: the recurrence multiplies before
/// it divides, and past that row the product leaves the 64-bit range.
pub fn binomial(n: u64, k: u64) -> (coefficient: u64)
    requires
        n <= MAX_BINOMIAL_ROW,
    ensures
        coefficient == binomial_coefficient(n as nat, k as nat),
    decreases n,
{
    if k > n {
        proof {
            lemma_binomial_vanishes(n as nat, k as nat);
        }
        0
    } else if k == 0 {
        1
    } else {
        let previous = binomial(n - 1, n - k);
        proof {
            let target = binomial_coefficient(n as nat, k as nat);
            lemma_binomial_symmetry((n - 1) as nat, (k - 1) as nat);
            lemma_binomial_absorption((n - 1) as nat, (k - 1) as nat);
            lemma_binomial_bound((n - 1) as nat, (n - k) as nat);
            assert(k * target == n * previous);
            assert(n * previous <= u64::MAX) by (nonlinear_arith)
                requires
                    n <= 62,
                    previous <= 232714176627630544,
            ;
            assert((n * previous) / (k as int) == target) by (nonlinear_arith)
                requires
                    k * target == n * previous,
                    k > 0,
            ;
        }
        n * previous / k
    }
}

} // verus!
