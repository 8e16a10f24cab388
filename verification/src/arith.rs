//! Facts about integer division used by the blocking proofs.

use vstd::prelude::*;

verus! {

/// `x` divided by `d`, rounded up.
pub open spec fn ceil_div(x: int, d: int) -> int {
    (x + d - 1) / d
}

/// The smaller of two integers.
pub open spec fn min_int(a: int, b: int) -> int {
    if a <= b {
        a
    } else {
        b
    }
}

/// `a <= y / d` exactly when `a * d <= y`.
pub proof fn lemma_le_floor_div(a: int, y: int, d: int)
    requires
        d > 0,
    ensures
        a <= y / d <==> a * d <= y,
{
    vstd::arithmetic::div_mod::lemma_fundamental_div_mod(y, d);
    vstd::arithmetic::div_mod::lemma_mod_bound(y, d);
    let q = y / d;
    let r = y % d;
    assert(a <= q ==> a * d <= y) by (nonlinear_arith)
        requires
            y == d * q + r,
            0 <= r < d,
            d > 0,
    ;
    assert(a * d <= y ==> a <= q) by (nonlinear_arith)
        requires
            y == d * q + r,
            0 <= r < d,
            d > 0,
    ;
}

/// `q` is below the rounded-up quotient exactly when `q * d < x`.
pub proof fn lemma_lt_ceil_div(q: int, x: int, d: int)
    requires
        d > 0,
    ensures
        q < ceil_div(x, d) <==> q * d < x,
{
    lemma_le_floor_div(q + 1, x + d - 1, d);
    assert((q + 1) * d == q * d + d) by (nonlinear_arith);
}

/// The quotient of `x` by `d` is `q` when `x` lies in `[q * d, q * d + d)`.
pub proof fn lemma_quotient_of_block(x: int, d: int, q: int)
    requires
        d > 0,
        q * d <= x < q * d + d,
    ensures
        x / d == q,
        x % d == x - q * d,
{
    vstd::arithmetic::div_mod::lemma_fundamental_div_mod_converse(x, d, q, x - q * d);
}

/// The rounded-up quotient, computed from the floor quotient and remainder.
pub proof fn lemma_ceil_div_from_floor(x: int, d: int)
    requires
        d > 0,
        x >= 0,
    ensures
        ceil_div(x, d) == x / d + (if x % d == 0 { 0int } else { 1int }),
        ceil_div(x, d) >= 0,
{
    vstd::arithmetic::div_mod::lemma_fundamental_div_mod(x, d);
    vstd::arithmetic::div_mod::lemma_mod_bound(x, d);
    let q = x / d;
    let r = x % d;
    assert(x == q * d + r) by (nonlinear_arith)
        requires
            x == d * q + r,
    ;
    if r == 0 {
        lemma_quotient_of_block(x + d - 1, d, q);
    } else {
        assert((q + 1) * d == q * d + d) by (nonlinear_arith);
        lemma_quotient_of_block(x + d - 1, d, q + 1);
    }
    lemma_le_floor_div(0, x + d - 1, d);
}

/// The rounded-up quotient is at most `x` when `d >= 1`.
pub proof fn lemma_ceil_div_le(x: int, d: int)
    requires
        d > 0,
        x >= 0,
    ensures
        0 <= ceil_div(x, d) <= x,
        x > 0 ==> ceil_div(x, d) >= 1,
{
    lemma_ceil_div_from_floor(x, d);
    vstd::arithmetic::div_mod::lemma_fundamental_div_mod(x, d);
    vstd::arithmetic::div_mod::lemma_mod_bound(x, d);
    let q = x / d;
    let r = x % d;
    lemma_le_floor_div(0, x, d);
    assert(q * d <= x) by (nonlinear_arith)
        requires
            x == d * q + r,
            0 <= r,
    ;
    assert(q <= q * d) by (nonlinear_arith)
        requires
            d >= 1,
            q >= 0,
    ;
    if r != 0 {
        assert(q * d + 1 <= x);
    }
}

} // verus!
