//! Integer model of binary32 (`f32`) round-to-nearest-even, used to
//! reproduce bit-for-bit the few places where the engine scales integers
//! through single-precision arithmetic.

use vstd::prelude::*;

verus! {

/// 2^24: one past the largest 24-bit significand.
pub open spec fn sig_limit() -> nat {
    0x100_0000
}

/// The smallest power-of-two multiple `u' >= u` of `u` with `x / u' < 2^24`:
/// the weight of the last significand bit when `x` is stored in binary32.
pub open spec fn sig_unit(x: nat, u: nat) -> nat
    decreases x - u when u >= 1
{
    if x / u < sig_limit() {
        u
    } else {
        proof {
            lemma_unit_step(x, u);
        }
        sig_unit(x, 2 * u)
    }
}

pub proof fn lemma_unit_step(x: nat, u: nat)
    requires
        u >= 1,
        x / u >= sig_limit(),
    ensures
        2 * u <= x,
{
    assert(x >= (x / u) * u) by (nonlinear_arith) requires u >= 1;
    assert((x / u) * u >= 2 * u) by (nonlinear_arith) requires x / u >= 0x100_0000, u >= 1;
}

/// The non-negative integer `x` rounded to the nearest value with a 24-bit
/// significand, ties to even — what `x as f32` (and any binary32 operation
/// whose exact result is `x` times a power of two) produces.
pub open spec fn round_sig24(x: nat) -> nat {
    let u = sig_unit(x, 1);
    let q = x / u;
    let r = x % u;
    if 2 * r > u || (2 * r == u && q % 2 == 1) {
        (q + 1) * u
    } else {
        q * u
    }
}

/// Rounds `x` to a 24-bit significand, ties to even (see `round_sig24`).
pub fn round_f32(x: u128) -> (r: u128)
    requires
        x < 0x1_0000_0000_0000_0000_0000_0000_0000u128,
    ensures
        r == round_sig24(x as nat),
        r <= 2 * x,
        r <= x + x / 0x80_0000,
{
    let mut u: u128 = 1;
    while x / u >= 0x100_0000
        invariant
            u >= 1,
            u == 1 || u <= x,
            u == 1 || (u % 2 == 0 && (u / 2) * 0x100_0000 <= x),
            x < 0x1_0000_0000_0000_0000_0000_0000_0000u128,
            sig_unit(x as nat, u as nat) == sig_unit(x as nat, 1),
        decreases x - u,
    {
        proof {
            lemma_unit_step(x as nat, u as nat);
            assert(u * 0x100_0000 <= x) by (nonlinear_arith)
                requires u >= 1, x / u >= 0x100_0000;
        }
        u = u * 2;
    }
    let q = x / u;
    let rem = x % u;
    proof {
        assert(x == q * u + rem) by (nonlinear_arith) requires u >= 1, q == x / u, rem == x % u;
        assert(q * u <= x);
        assert((q + 1) * u == q * u + u) by (nonlinear_arith);
        if u > 1 {
            assert(u <= x / 0x80_0000) by (nonlinear_arith)
                requires u % 2 == 0, (u / 2) * 0x100_0000 <= x, u > 1;
        }
    }
    if 2 * rem > u || (2 * rem == u && q % 2 == 1) {
        (q + 1) * u
    } else {
        q * u
    }
}

/// The unit `sig_unit` settles on is 1, or an even unit whose half still
/// fits 2^24 times into `x`.
proof fn lemma_sig_unit_shape(x: nat, u: nat)
    requires
        u >= 1,
        u == 1 || (u % 2 == 0 && (u / 2) * 0x100_0000 <= x),
    ensures
        sig_unit(x, u) >= 1,
        sig_unit(x, u) == 1 || (sig_unit(x, u) % 2 == 0 && (sig_unit(x, u) / 2) * 0x100_0000 <= x),
    decreases x - u,
{
    if x / u >= sig_limit() {
        lemma_unit_step(x, u);
        assert(u * 0x100_0000 <= x) by (nonlinear_arith)
            requires u >= 1, x / u >= 0x100_0000;
        lemma_sig_unit_shape(x, 2 * u);
    }
}

/// Rounding to 24 significant bits moves `x` up by at most `x / 2^23`.
pub proof fn lemma_round_sig24_bound(x: nat)
    ensures
        round_sig24(x) <= x + x / 0x80_0000,
{
    lemma_sig_unit_shape(x, 1);
    let u = sig_unit(x, 1);
    let q = x / u;
    let rem = x % u;
    assert(x == q * u + rem) by (nonlinear_arith) requires u >= 1, q == x / u, rem == x % u;
    assert(0 <= rem < u) by (nonlinear_arith) requires u >= 1, rem == x % u;
    assert((q + 1) * u == q * u + u) by (nonlinear_arith);
    if u > 1 {
        assert(u <= x / 0x80_0000) by (nonlinear_arith)
            requires u % 2 == 0, (u / 2) * 0x100_0000 <= x, u > 1;
    } else {
        assert(rem == 0);
    }
}

} // verus!
