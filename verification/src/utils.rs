//! Shared arithmetic: power-of-two tests, alignment, and rounding a size up
//! to an alignment boundary.

use vstd::prelude::*;
use vstd::arithmetic::power2::{
    is_pow2, is_pow2_equiv, lemma_pow2, lemma_pow2_adds, lemma_pow2_pos, pow2,
};
use vstd::arithmetic::power::lemma_pow_increases;
use vstd::arithmetic::div_mod::{lemma_fundamental_div_mod, lemma_mod_multiples_basic};

verus! {

/// `a` lies on a multiple of `p`.
pub open spec fn aligned(a: nat, p: nat) -> bool
    recommends
        p > 0,
{
    a % p == 0
}

/// `value` rounded up to the next multiple of `boundary`.
pub open spec fn spec_round_up(value: nat, boundary: nat) -> nat
    recommends
        boundary > 0,
{
    if value % boundary == 0 {
        value
    } else {
        (value + (boundary - value % boundary)) as nat
    }
}

/// The rounded value is aligned, and no more than one boundary above.
pub proof fn lemma_round_up_properties(value: nat, boundary: nat)
    requires
        boundary > 0,
    ensures
        aligned(spec_round_up(value, boundary), boundary),
        value <= spec_round_up(value, boundary) < value + boundary,
{
    if value % boundary != 0 {
        let r = value % boundary;
        let q = value / boundary;
        lemma_fundamental_div_mod(value as int, boundary as int);
        assert(value == boundary * q + r);
        assert(spec_round_up(value, boundary) == (q as int + 1) * boundary) by (nonlinear_arith)
            requires
                value == boundary * q + r,
                0 < r < boundary,
                spec_round_up(value, boundary) == value + (boundary - r),
        ;
        lemma_mod_multiples_basic(q as int + 1, boundary as int);
    }
}

/// Exact test whether `n` is a power of two.
pub fn check_power_of_two(n: usize) -> (r: bool)
    ensures
        r == is_pow2(n as int),
{
    proof {
        reveal(is_pow2);
    }
    if n == 0 {
        return false;
    }
    let mut m: usize = n;
    while m > 1
        invariant
            m >= 1,
            is_pow2(n as int) == is_pow2(m as int),
        decreases m,
    {
        proof {
            reveal(is_pow2);
        }
        if m % 2 == 1 {
            return false;
        }
        m = m / 2;
    }
    true
}

/// A smaller power of two divides a larger one.
pub proof fn lemma_pow2_divides(small: nat, large: nat)
    requires
        is_pow2(small as int),
        is_pow2(large as int),
        small <= large,
    ensures
        large % small == 0,
{
    is_pow2_equiv(small as int);
    is_pow2_equiv(large as int);
    let i = choose|i: nat| vstd::arithmetic::power::pow(2, i) == small as int;
    let j = choose|j: nat| vstd::arithmetic::power::pow(2, j) == large as int;
    lemma_pow2(i);
    lemma_pow2(j);
    assert(small == pow2(i));
    assert(large == pow2(j));
    if j < i {
        lemma_pow_increases(2, j, i);
        lemma_pow2(i);
        lemma_pow2(j);
        assert(large >= small);
        assert(pow2(j) >= pow2(i));
        assert(small == large);
        assert(large % small == 0) by (nonlinear_arith)
            requires
                small == large,
                small > 0,
        ;
    } else {
        lemma_pow2_adds((j - i) as nat, i);
        assert(large == pow2((j - i) as nat) * small);
        lemma_pow2_pos(i);
        lemma_mod_multiples_basic(pow2((j - i) as nat) as int, small as int);
    }
}

/// What is aligned to a multiple of `d` is aligned to `d`.
pub proof fn lemma_aligned_coarser(a: nat, m: nat, d: nat)
    requires
        d > 0,
        m > 0,
        aligned(a, m),
        m % d == 0,
    ensures
        aligned(a, d),
{
    let q = a / m;
    let s = m / d;
    lemma_fundamental_div_mod(a as int, m as int);
    lemma_fundamental_div_mod(m as int, d as int);
    assert(a == m * q);
    assert(m == d * s);
    assert(a == (s as int * q as int) * d) by (nonlinear_arith)
        requires
            a == m * q,
            m == d * s,
    ;
    lemma_mod_multiples_basic(s as int * q as int, d as int);
}

/// The rounded value is the least aligned value at or above the given one.
pub proof fn lemma_round_up_is_least(s: nat, a: nat, x: nat)
    requires
        a > 0,
        aligned(x, a),
        x >= s,
    ensures
        x >= spec_round_up(s, a),
{
    lemma_round_up_properties(s, a);
    if x < spec_round_up(s, a) {
        let r = spec_round_up(s, a);
        assert(aligned(r, a));
        vstd::arithmetic::div_mod::lemma_sub_mod_noop(r as int, x as int, a as int);
        vstd::arithmetic::div_mod::lemma_small_mod(0, a);
        assert((r - x) % (a as int) == 0);
        vstd::arithmetic::div_mod::lemma_mod_is_zero((r - x) as nat, a);
        assert(r - x >= a);
        assert(x <= r - a);
        assert(r < s + a);
        assert(x < s);
    }
}

/// Two aligned quantities sum to an aligned quantity.
pub proof fn lemma_aligned_sum(a: nat, b: nat, p: nat)
    requires
        p > 0,
        aligned(a, p),
        aligned(b, p),
    ensures
        aligned((a + b) as nat, p),
{
    vstd::arithmetic::div_mod::lemma_add_mod_noop(a as int, b as int, p as int);
    vstd::arithmetic::div_mod::lemma_small_mod(0, p);
}

/// A power of two is positive.
pub proof fn lemma_pow2_positive(n: int)
    requires
        is_pow2(n),
    ensures
        n > 0,
{
    reveal(is_pow2);
}

/// The larger of two sizes.
pub fn max_usize(a: usize, b: usize) -> (r: usize)
    ensures
        r == if a >= b {
            a as int
        } else {
            b as int
        },
{
    if a >= b {
        a
    } else {
        b
    }
}

/// Round `value` up to the next multiple of `boundary`.
pub fn round_up_to_boundary(value: usize, boundary: usize) -> (r: usize)
    requires
        boundary > 0,
        value + boundary <= usize::MAX,
    ensures
        r == spec_round_up(value as nat, boundary as nat),
{
    let remainder = value % boundary;
    if remainder == 0 {
        value
    } else {
        value + (boundary - remainder)
    }
}

} // verus!
