//! Binomial coefficients and the bounds that keep the enumeration
//! counters inside `u64`.

use vstd::prelude::*;

verus! {

/// The binomial coefficient C(n, k) by Pascal's rule.
pub open spec fn binom(n: int, k: int) -> int
    decreases n, k,
{
    if k <= 0 {
        if k == 0 {
            1
        } else {
            0
        }
    } else if n < k {
        0
    } else {
        binom(n - 1, k - 1) + binom(n - 1, k)
    }
}

/// Integer power with nonnegative exponent.
pub open spec fn int_pow(b: int, e: int) -> int
    decreases e,
{
    if e <= 0 {
        1
    } else {
        b * int_pow(b, e - 1)
    }
}

/// A product of nonnegative factors is bounded by the product of their
/// bounds.
pub proof fn lemma_mul_le(a: int, amax: int, b: int, bmax: int)
    requires
        0 <= a <= amax,
        0 <= b <= bmax,
    ensures
        a * b <= amax * bmax,
{
    assert(a * b <= amax * bmax) by (nonlinear_arith)
        requires
            0 <= a <= amax,
            0 <= b <= bmax,
    ;
}

pub proof fn lemma_binom_nonneg(n: int, k: int)
    ensures
        binom(n, k) >= 0,
    decreases n, k,
{
    if k > 0 && n >= k {
        lemma_binom_nonneg(n - 1, k - 1);
        lemma_binom_nonneg(n - 1, k);
    }
}

pub proof fn lemma_int_pow_nonneg(b: int, e: int)
    requires
        b >= 0,
    ensures
        int_pow(b, e) >= 0,
    decreases e,
{
    if e > 0 {
        lemma_int_pow_nonneg(b, e - 1);
        assert(b * int_pow(b, e - 1) >= 0) by (nonlinear_arith)
            requires
                b >= 0,
                int_pow(b, e - 1) >= 0,
        ;
    }
}

/// `int_pow` grows with the base.
pub proof fn lemma_int_pow_base_mono(b1: int, b2: int, e: int)
    requires
        0 <= b1 <= b2,
    ensures
        int_pow(b1, e) <= int_pow(b2, e),
    decreases e,
{
    if e > 0 {
        lemma_int_pow_base_mono(b1, b2, e - 1);
        lemma_int_pow_nonneg(b1, e - 1);
        lemma_int_pow_nonneg(b2, e - 1);
        assert(b1 * int_pow(b1, e - 1) <= b2 * int_pow(b2, e - 1)) by (nonlinear_arith)
            requires
                0 <= b1 <= b2,
                0 <= int_pow(b1, e - 1) <= int_pow(b2, e - 1),
        ;
    }
}

/// `int_pow` grows with the exponent once the base is at least one.
pub proof fn lemma_int_pow_exp_mono(b: int, e1: int, e2: int)
    requires
        b >= 1,
        e1 <= e2,
    ensures
        int_pow(b, e1) <= int_pow(b, e2),
    decreases e2 - e1,
{
    if e1 < e2 {
        lemma_int_pow_exp_mono(b, e1, e2 - 1);
        lemma_int_pow_nonneg(b, e2 - 1);
        if e2 > 0 {
            assert(int_pow(b, e2 - 1) <= b * int_pow(b, e2 - 1)) by (nonlinear_arith)
                requires
                    b >= 1,
                    int_pow(b, e2 - 1) >= 0,
            ;
        }
    }
}

/// C(n, k) is at most n^k.
pub proof fn lemma_binom_le_pow(n: int, k: int)
    requires
        n >= 0,
        k >= 0,
    ensures
        binom(n, k) <= int_pow(n, k),
    decreases n, k,
{
    if k == 0 {
    } else if n < k {
        lemma_int_pow_nonneg(n, k);
    } else {
        lemma_binom_le_pow(n - 1, k - 1);
        lemma_binom_le_pow(n - 1, k);
        lemma_binom_nonneg(n - 1, k - 1);
        lemma_binom_nonneg(n - 1, k);
        lemma_int_pow_nonneg(n - 1, k - 1);
        // binom(n-1,k-1) + binom(n-1,k) <= pow(n-1,k-1) + (n-1)*pow(n-1,k-1)
        //                               == n * pow(n-1,k-1) <= n * pow(n,k-1)
        assert(int_pow(n - 1, k) == (n - 1) * int_pow(n - 1, k - 1));
        assert(int_pow(n - 1, k - 1) + (n - 1) * int_pow(n - 1, k - 1) == n * int_pow(
            n - 1,
            k - 1,
        )) by (nonlinear_arith);
        lemma_int_pow_base_mono(n - 1, n, k - 1);
        assert(n * int_pow(n - 1, k - 1) <= n * int_pow(n, k - 1)) by (nonlinear_arith)
            requires
                n >= 0,
                int_pow(n - 1, k - 1) <= int_pow(n, k - 1),
        ;
        assert(int_pow(n, k) == n * int_pow(n, k - 1));
    }
}

/// For a deck of at most 52 cards and at most 5 drawn, the completion
/// count stays below 2^29, so all enumeration counters fit in `u64`.
pub proof fn lemma_binom_card_bound(n: int, k: int)
    requires
        0 <= n <= 52,
        0 <= k <= 5,
    ensures
        0 <= binom(n, k) <= 380204032,
{
    lemma_binom_nonneg(n, k);
    lemma_binom_le_pow(n, k);
    lemma_int_pow_base_mono(n, 52, k);
    lemma_int_pow_exp_mono(52, k, 5);
    assert(int_pow(52, 5) == 380204032) by {
        reveal_with_fuel(int_pow, 6);
    }
}

} // verus!
