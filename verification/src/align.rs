//! Rounding up to a power of two.

use vstd::prelude::*;

verus! {

/// The least multiple of `a` that is not below `x`.
pub open spec fn round_up(x: int, a: int) -> int {
    (x + a - 1) / a * a
}

pub open spec fn is_power_of_two(a: u64) -> bool {
    a >= 1 && a & ((a - 1) as u64) == 0
}

/// A number whose bits below a power of two are all zero is a multiple of it.
proof fn lemma_low_bits_zero(x: u64, a: u64)
    requires
        is_power_of_two(a),
        x & ((a - 1) as u64) == 0,
    ensures
        x % a == 0,
    decreases a,
{
    if a == 1 {
    } else {
        let h = a / 2;
        let y = x / 2;
        assert(a % 2 == 0 && h >= 1 && h & ((h - 1) as u64) == 0) by (bit_vector)
            requires
                a > 1,
                a & ((a - 1) as u64) == 0,
                h == a / 2,
        ;
        assert(x % 2 == 0 && y & ((h - 1) as u64) == 0) by (bit_vector)
            requires
                a > 1,
                a & ((a - 1) as u64) == 0,
                x & ((a - 1) as u64) == 0,
                h == a / 2,
                y == x / 2,
        ;
        lemma_low_bits_zero(y, h);
        let q = y as int / h as int;
        assert(y == q * h) by {
            vstd::arithmetic::div_mod::lemma_fundamental_div_mod(y as int, h as int);
            vstd::arithmetic::mul::lemma_mul_is_commutative(h as int, q);
        }
        assert(x == q * a) by (nonlinear_arith)
            requires
                x == 2 * y,
                a == 2 * h,
                y == q * h,
        ;
        vstd::arithmetic::div_mod::lemma_mod_multiples_basic(q, a as int);
    }
}

/// A multiple of `a` in `x .. x + a` is `x` rounded up.
proof fn lemma_round_up_unique(x: int, a: int, r: int)
    requires
        a >= 1,
        x <= r < x + a,
        r % a == 0,
    ensures
        r == round_up(x, a),
{
    let q = r / a;
    vstd::arithmetic::div_mod::lemma_fundamental_div_mod(r, a);
    vstd::arithmetic::mul::lemma_mul_is_commutative(a, q);
    assert(r == q * a);
    let d = x + a - 1 - r;
    assert(x + a - 1 == q * a + d);
    assert(0 <= d < a);
    vstd::arithmetic::div_mod::lemma_fundamental_div_mod_converse(x + a - 1, a, q, d);
}

/// `round_up` gives a multiple of `a`, at least `x` and less than `a` above it.
pub proof fn lemma_round_up(x: int, a: int)
    requires
        a >= 1,
    ensures
        x <= round_up(x, a) < x + a,
        round_up(x, a) % a == 0,
{
    let q = (x + a - 1) / a;
    vstd::arithmetic::div_mod::lemma_fundamental_div_mod(x + a - 1, a);
    vstd::arithmetic::mul::lemma_mul_is_commutative(a, q);
    vstd::arithmetic::div_mod::lemma_mod_multiples_basic(q, a);
}

/// Rounds `offset` up to a multiple of the power of two `alignment`.
///
/// For any other `alignment` the bits of `alignment - 1` are cleared.
pub fn align_up(offset: u64, alignment: u64) -> (r: u64)
    requires
        alignment >= 1,
        offset + alignment - 1 <= u64::MAX,
    ensures
        r == (offset + alignment - 1) as u64 & !((alignment - 1) as u64),
        is_power_of_two(alignment) ==> r == round_up(offset as int, alignment as int),
{
    let top: u64 = offset + (alignment - 1);
    let low: u64 = alignment - 1;
    let r: u64 = top & !low;
    proof {
        if is_power_of_two(alignment) {
            assert(r & low == 0 && r <= top && top - r <= low) by (bit_vector)
                requires
                    r == top & !low,
            ;
            lemma_low_bits_zero(r, alignment);
            lemma_round_up_unique(offset as int, alignment as int, r as int);
        }
    }
    r
}

} // verus!
