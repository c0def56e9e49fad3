//! Small numeric helpers: wrapping exponentiation and the modular inverse
//! machinery used for solving linear congruences.
#![allow(non_snake_case)]
use vstd::prelude::*;

verus! {

use crate::ast::wpow;
use crate::{wadd, wmul};

/// Wrapping 64-bit exponentiation by square and multiply.
pub fn Pow2(base: u64, exp: u64) -> (r: u64)
    ensures
        r == wpow(base, exp),
{
    let mut res: u64 = 1;
    let mut b = base;
    let mut e = exp;
    proof {
        lemma_wmul_one(wpow(base, exp));
    }
    while e != 0
        invariant
            wmul(res, wpow(b, e)) == wpow(base, exp),
        decreases e,
    {
        proof {
            let h = e >> 1u64;
            assert(e != 0 ==> (e >> 1u64 < e && (e & 1 != 0 ==> e == 2 * (e >> 1u64) + 1) && (e & 1
                == 0 ==> e == 2 * (e >> 1u64)))) by (bit_vector);
            if (e & 1) != 0 {
                lemma_wpow_odd(b, e);
                lemma_wmul_assoc(res, b, wpow(b, (e - 1) as u64));
                lemma_wpow_even(b, h);
            } else {
                lemma_wpow_even(b, h);
            }
            lemma_wrapping_mul_is_wmul(res, b);
            lemma_wrapping_mul_is_wmul(b, b);
        }
        if (e & 1) != 0 {
            res = res.wrapping_mul(b);
        }
        e = e >> 1u64;
        b = b.wrapping_mul(b);
    }
    proof {
        lemma_wmul_one(res);
    }
    res
}

/// The library's wrapping-product spec agrees with the standard one.
pub proof fn lemma_wrapping_mul_is_wmul(x: u64, y: u64)
    ensures
        vstd::wrapping::u64_specs::wrapping_mul(x, y) == wmul(x, y),
{
    assert(((x * y) % 0x1_0000_0000_0000_0000int) as u64 == (x * y) as u64) by (bit_vector);
}

/// The standard wrapping sum agrees with the library's.
pub proof fn lemma_wrapping_add_is_wadd(x: u64, y: u64)
    ensures
        vstd::wrapping::u64_specs::wrapping_add(x, y) == wadd(x, y),
{
    assert(((x + y) % 0x1_0000_0000_0000_0000int) as u64 == (x + y) as u64) by (bit_vector);
}

/// Wrapping multiplication has a unit and associates.
proof fn lemma_wmul_ring(x: u64, y: u64, z: u64)
    by (bit_vector)
    ensures
        (x * 1) as u64 == x,
        ((x * ((y * z) as u64)) as u64) == (((x * y) as u64) * z) as u64,
{
}

/// Multiplying by one wraps to the same value.
proof fn lemma_wmul_one(x: u64)
    ensures
        wmul(x, 1) == x,
{
    lemma_wmul_ring(x, 0, 0);
}

/// Wrapping multiplication associates.
proof fn lemma_wmul_assoc(x: u64, y: u64, z: u64)
    ensures
        wmul(x, wmul(y, z)) == wmul(wmul(x, y), z),
{
    lemma_wmul_ring(x, y, z);
}

/// An odd exponent peels one factor off the power.
proof fn lemma_wpow_odd(x: u64, e: u64)
    requires
        e % 2 == 1,
    ensures
        wpow(x, e) == wmul(x, wpow(x, (e - 1) as u64)),
{
}

/// An even power of the base is the half power of the squared base.
proof fn lemma_wpow_even(x: u64, k: u64)
    requires
        2 * k <= u64::MAX,
    ensures
        wpow(x, (2 * k) as u64) == wpow(wmul(x, x), k),
    decreases k,
{
    if k == 0 {
    } else {
        lemma_wpow_even(x, (k - 1) as u64);
        let e2 = (2 * k) as u64;
        let xx = wmul(x, x);
        assert(wpow(x, e2) == wmul(x, wpow(x, (e2 - 1) as u64)));
        assert(wpow(x, (e2 - 1) as u64) == wmul(x, wpow(x, (e2 - 2) as u64)));
        lemma_wmul_assoc(x, x, wpow(x, (e2 - 2) as u64));
        assert((2 * (k - 1)) as u64 == (e2 - 2) as u64);
        assert(wpow(xx, k) == wmul(xx, wpow(xx, (k - 1) as u64)));
    }
}

} // verus!
