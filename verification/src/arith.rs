//! Integer arithmetic as the language has it: on 64 bits, wrapping round
//! where a result does not fit, and dividing towards zero.

use vstd::prelude::*;
use vstd::arithmetic::div_mod::lemma_fundamental_div_mod;
use vstd::wrapping::i64_specs;

verus! {

/// The quotient of `a` by `b`, rounded towards zero.
pub open spec fn trunc_div(a: int, b: int) -> int
    recommends
        b != 0,
{
    if a >= 0 && b > 0 {
        a / b
    } else if a < 0 && b > 0 {
        -((-a) / b)
    } else if a >= 0 && b < 0 {
        -(a / (-b))
    } else {
        (-a) / (-b)
    }
}

/// What is left of `a` after division by `b` towards zero: it has the sign
/// of `a`.
pub open spec fn trunc_rem(a: int, b: int) -> int
    recommends
        b != 0,
{
    if a >= 0 && b > 0 {
        a % b
    } else if a < 0 && b > 0 {
        -((-a) % b)
    } else if a >= 0 && b < 0 {
        a % (-b)
    } else {
        -((-a) % (-b))
    }
}

/// The negation of `a` on 64 bits.
pub open spec fn int_neg(a: i64) -> i64 {
    if a == i64::MIN {
        i64::MIN
    } else {
        (-a) as i64
    }
}

/// The sum of `a` and `b` on 64 bits.
pub open spec fn int_add(a: i64, b: i64) -> i64 {
    i64_specs::wrapping_add(a, b)
}

/// The difference of `a` and `b` on 64 bits.
pub open spec fn int_sub(a: i64, b: i64) -> i64 {
    i64_specs::wrapping_sub(a, b)
}

/// The product of `a` and `b` on 64 bits.
pub open spec fn int_mul(a: i64, b: i64) -> i64 {
    i64_specs::wrapping_mul(a, b)
}

/// The quotient of `a` by `b` on 64 bits, for `b` other than zero.
pub open spec fn int_div(a: i64, b: i64) -> i64
    recommends
        b != 0,
{
    if a == i64::MIN && b == -1 {
        i64::MIN
    } else {
        trunc_div(a as int, b as int) as i64
    }
}

/// The remainder of `a` by `b` on 64 bits, for `b` other than zero.
pub open spec fn int_rem(a: i64, b: i64) -> i64
    recommends
        b != 0,
{
    trunc_rem(a as int, b as int) as i64
}

/// The quotient and the remainder make up the dividend.
pub proof fn lemma_trunc_div_rem(a: int, b: int)
    requires
        b != 0,
    ensures
        trunc_div(a, b) * b + trunc_rem(a, b) == a,
        a >= 0 ==> 0 <= trunc_rem(a, b) <= a,
        a < 0 ==> a <= trunc_rem(a, b) <= 0,
{
    let x = if a >= 0 {
        a
    } else {
        -a
    };
    let y = if b > 0 {
        b
    } else {
        -b
    };
    lemma_fundamental_div_mod(x, y);
    assert(0 <= x % y < y) by (nonlinear_arith)
        requires
            x >= 0,
            y > 0,
    ;
    assert(0 <= x / y) by (nonlinear_arith)
        requires
            x >= 0,
            y > 0,
    ;
    assert(y * (x / y) >= 0) by (nonlinear_arith)
        requires
            x / y >= 0,
            y > 0,
    ;
    assert((-(x / y)) * b == -((x / y) * b)) by (nonlinear_arith);
    assert((x / y) * (-y) == -(y * (x / y))) by (nonlinear_arith);
    assert((x / y) * y == y * (x / y)) by (nonlinear_arith);
    assert((-(x / y)) * y == -(y * (x / y))) by (nonlinear_arith);
    assert((-(x / y)) * (-y) == y * (x / y)) by (nonlinear_arith);
}

/// The size of `a`.
fn magnitude(a: i64) -> (r: u64)
    ensures
        a >= 0 ==> r == a,
        a < 0 ==> r == -a,
{
    if a >= 0 {
        a as u64
    } else {
        (-(a + 1)) as u64 + 1
    }
}

/// The negation of `a` on 64 bits.
pub fn neg64(a: i64) -> (r: i64)
    ensures
        r == int_neg(a),
{
    if a == i64::MIN {
        i64::MIN
    } else {
        -a
    }
}

/// The quotient of `a` by `b` on 64 bits.
pub fn div64(a: i64, b: i64) -> (r: i64)
    requires
        b != 0,
    ensures
        r == int_div(a, b),
{
    if a == i64::MIN && b == -1 {
        return i64::MIN;
    }
    let x = magnitude(a);
    let y = magnitude(b);
    let q = x / y;
    proof {
        lemma_trunc_div_rem(a as int, b as int);
        assert(q <= x) by (nonlinear_arith)
            requires
                q == x as int / y as int,
                y > 0,
                x >= 0,
        ;
        if y > 1 {
            assert(2 * q <= x) by (nonlinear_arith)
                requires
                    q == x as int / y as int,
                    y >= 2,
                    x >= 0,
            ;
        }
    }
    if (a < 0) != (b < 0) {
        if q == 0x8000_0000_0000_0000 {
            i64::MIN
        } else {
            -(q as i64)
        }
    } else {
        q as i64
    }
}

/// The remainder of `a` by `b` on 64 bits.
pub fn rem64(a: i64, b: i64) -> (r: i64)
    requires
        b != 0,
    ensures
        r == int_rem(a, b),
{
    let x = magnitude(a);
    let y = magnitude(b);
    let m = x % y;
    proof {
        lemma_trunc_div_rem(a as int, b as int);
    }
    if a < 0 {
        -(m as i64)
    } else {
        m as i64
    }
}

} // verus!
