use vstd::prelude::*;

verus! {

/// Floor division of a signed 64-bit value by a positive divisor.
///
/// In specifications, `a / b` on `int` with `b > 0` already rounds toward
/// negative infinity, so the contract can use the plain operator.
pub fn floor_div_i64(a: i64, b: i64) -> (q: i64)
    requires
        0 < b < 0x1000_0000,
        -0x2000_0000_0000_0000 <= a <= 0x2000_0000_0000_0000,
    ensures
        q == (a as int) / (b as int),
{
    if a >= 0 {
        a / b
    } else {
        let num = -a + b - 1;
        let pos = num / b;
        proof {
            lemma_neg_ceil_is_floor(a as int, b as int);
        }
        -pos
    }
}

/// For a negative dividend, floor division equals the negated ceiling
/// division of the magnitude: `a / b == -((-a + b - 1) / b)` when `b > 0`.
proof fn lemma_neg_ceil_is_floor(a: int, b: int)
    requires
        0 < b,
        a < 0,
    ensures
        a / b == -((-a + b - 1) / b),
{
    let x = -a + b - 1;
    let q = x / b;
    let r = x % b;
    vstd::arithmetic::div_mod::lemma_fundamental_div_mod(x, b);
    vstd::arithmetic::div_mod::lemma_remainder_lower(x, b);
    vstd::arithmetic::div_mod::lemma_remainder_upper(x, b);
    assert(x == b * q + r);
    assert(0 <= r < b);
    assert(a == (-q) * b + (b - 1 - r)) by (nonlinear_arith)
        requires
            -a + b - 1 == b * q + r,
    ;
    vstd::arithmetic::div_mod::lemma_fundamental_div_mod_converse_div(a, b, -q, b - 1 - r);
}

} // verus!
