//! Facts about integer products and quotients used by the accrual proofs.

use vstd::prelude::*;
use vstd::arithmetic::div_mod::{
    lemma_div_nonincreasing,
    lemma_div_pos_is_pos,
    lemma_fundamental_div_mod,
    lemma_mod_pos_bound,
};

verus! {

/// Quotient bounds for a non-negative dividend and a positive divisor.
pub proof fn lemma_div_bounds(x: int, d: int)
    requires
        0 <= x,
        0 < d,
    ensures
        0 <= x / d <= x,
        (x / d) * d <= x,
        x < (x / d) * d + d,
{
    lemma_div_pos_is_pos(x, d);
    lemma_div_nonincreasing(x, d);
    lemma_fundamental_div_mod(x, d);
    lemma_mod_pos_bound(x, d);
    assert(d * (x / d) == (x / d) * d) by (nonlinear_arith);
}

/// A product of non-negative factors is non-negative and grows with each factor.
pub proof fn lemma_mul_grows(a: int, b: int, c: int)
    requires
        0 <= a,
        0 <= b,
        1 <= c,
    ensures
        0 <= a * b,
        a * b <= a * b * c,
{
    assert(0 <= a * b) by (nonlinear_arith)
        requires
            0 <= a,
            0 <= b,
    ;
    assert(a * b <= a * b * c) by (nonlinear_arith)
        requires
            0 <= a * b,
            1 <= c,
    ;
}

/// Multiplying by a non-negative factor keeps the order.
pub proof fn lemma_mul_le(a: int, b: int, c: int)
    requires
        0 <= c,
        a <= b,
    ensures
        a * c <= b * c,
{
    assert(a * c <= b * c) by (nonlinear_arith)
        requires
            0 <= c,
            a <= b,
    ;
}

} // verus!
