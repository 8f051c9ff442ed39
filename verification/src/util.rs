//! Floating-point numbers as bit patterns: conversion between half and single
//! precision, comparison, and the place of the largest.

use crate::bytes;
use vstd::prelude::*;

verus! {

/// Tokens in the vocabulary.
pub const VOCAB_SIZE: u32 = 248320;

/// Minus infinity, in single precision.
pub const NEG_INFINITY: u32 = 0xff80_0000;

/// The `u16` at `off`, least significant byte first.
pub fn read_u16(data: &[u8], off: usize) -> (r: u16)
    requires
        off + 2 <= data@.len(),
    ensures
        r == bytes::u16_le(data@, off as int),
{
    bytes::get_u16(data, off)
}

/// The sign bit of a half-precision number.
pub open spec fn half_sign(bits: u16) -> int {
    bits as int / 0x8000
}

/// The exponent field of a half-precision number.
pub open spec fn half_exponent(bits: u16) -> int {
    bits as int / 0x400 % 0x20
}

/// The fraction field of a half-precision number.
pub open spec fn half_fraction(bits: u16) -> int {
    bits as int % 0x400
}

/// The sign bit of a single-precision number.
pub open spec fn single_sign(bits: u32) -> int {
    bits as int / 0x8000_0000
}

/// The exponent field of a single-precision number.
pub open spec fn single_exponent(bits: u32) -> int {
    bits as int / 0x80_0000 % 0x100
}

/// The fraction field of a single-precision number.
pub open spec fn single_fraction(bits: u32) -> int {
    bits as int % 0x80_0000
}

/// A half-precision number in single precision. A denormal becomes a zero of
/// its sign; the exponents differ by 112, the largest one included.
pub open spec fn widened(bits: u16) -> int {
    half_sign(bits) * 0x8000_0000 + if half_exponent(bits) == 0 {
        0
    } else {
        (half_exponent(bits) + 112) * 0x80_0000 + half_fraction(bits) * 0x2000
    }
}

/// A single-precision number in half precision. What is too small for a normal
/// number becomes a zero of its sign, what is too large an infinity; the
/// fraction is cut off.
pub open spec fn narrowed(bits: u32) -> int {
    single_sign(bits) * 0x8000 + if single_exponent(bits) <= 112 {
        0
    } else if single_exponent(bits) >= 143 {
        0x7c00
    } else {
        (single_exponent(bits) - 112) * 0x400 + single_fraction(bits) / 0x2000
    }
}

/// Half to single precision, on bit patterns.
pub fn f16_bits_to_f32(bits: u16) -> (r: u32)
    ensures
        r == widened(bits),
{
    let b: u32 = bits as u32;
    let sign: u32 = (b / 0x8000) * 0x8000_0000;
    let exponent: u32 = b / 0x400 % 0x20;
    if exponent == 0 {
        sign
    } else {
        sign + (exponent + 112) * 0x80_0000 + (b % 0x400) * 0x2000
    }
}

/// Single to half precision, on bit patterns.
pub fn f32_to_f16_bits(bits: u32) -> (r: u16)
    ensures
        r == narrowed(bits),
{
    let sign: u16 = (bits / 0x8000_0000) as u16 * 0x8000;
    let exponent: u32 = bits / 0x80_0000 % 0x100;
    if exponent <= 112 {
        sign
    } else if exponent >= 143 {
        sign + 0x7c00
    } else {
        sign + (exponent - 112) as u16 * 0x400 + (bits % 0x80_0000 / 0x2000) as u16
    }
}

/// A half-precision number that is neither denormal nor not a number comes
/// back from single precision as it was.
pub proof fn law_half_survives(bits: u16)
    requires
        half_fraction(bits) == 0 || 0 < half_exponent(bits) < 31,
    ensures
        0 <= widened(bits) <= u32::MAX,
        narrowed(widened(bits) as u32) == bits,
{
    let w = widened(bits);
    let s = half_sign(bits);
    let e = half_exponent(bits);
    let f = half_fraction(bits);
    assert(bits == s * 0x8000 + e * 0x400 + f);
    if e != 0 {
        assert(w == s * 0x8000_0000 + (e + 112) * 0x80_0000 + f * 0x2000);
    }
}

/// A denormal in single precision: `f` is doubled, and the exponent `e` lowered,
/// until the leading bit is that of a normal number.
pub open spec fn normal_form(f: int, e: int) -> int
    decreases 0x800 - f,
{
    if f <= 0 || f >= 0x400 {
        e * 0x80_0000 + (f - 0x400) * 0x2000
    } else {
        normal_form(2 * f, e - 1)
    }
}

/// A half-precision number in single precision, as the machine converts it: the
/// value stays. What is not a number becomes a quiet one.
pub open spec fn hardware_widened(bits: u16) -> int {
    let f = half_fraction(bits);
    half_sign(bits) * 0x8000_0000 + if half_exponent(bits) == 31 {
        0x7f80_0000 + f * 0x2000 + if 0 < f < 0x200 {
            0x40_0000int
        } else {
            0
        }
    } else if half_exponent(bits) > 0 {
        (half_exponent(bits) + 112) * 0x80_0000 + f * 0x2000
    } else if f == 0 {
        0
    } else {
        normal_form(f, 113)
    }
}

/// The number nearest to `x / d`, of two that are as near the even one.
pub open spec fn nearest_even(x: int, d: int) -> int {
    let q = x / d;
    let r = x % d;
    if 2 * r > d || (2 * r == d && q % 2 == 1) {
        q + 1
    } else {
        q
    }
}

/// What the last bit of a half-precision denormal is worth in the significand of
/// a single-precision number with this exponent.
pub open spec fn unit(exponent: int) -> int
    decreases 113 - exponent,
{
    if exponent >= 113 {
        0x2000
    } else {
        2 * unit(exponent + 1)
    }
}

/// A single-precision number in half precision, as the machine converts it: to
/// the nearest one, of two that are as near to the even one, and to an infinity
/// where that is too large. What is not a number becomes a quiet one.
pub open spec fn hardware_narrowed(bits: u32) -> int {
    let m = bits as int % 0x8000_0000;
    let e = single_exponent(bits);
    let f = single_fraction(bits);
    single_sign(bits) * 0x8000 + if e == 255 && f > 0 {
        0x7e00 + f / 0x2000 % 0x200
    } else if e >= 113 {
        let q = nearest_even(m - 112 * 0x80_0000, 0x2000);
        if q > 0x7c00 {
            0x7c00
        } else {
            q
        }
    } else if e >= 102 {
        nearest_even(0x80_0000 + f, unit(e))
    } else {
        0
    }
}

proof fn lemma_unit_grows(d: int, e: int)
    requires
        d <= e <= 113,
    ensures
        unit(d) >= unit(e) >= 0x2000,
    decreases 113 - d,
{
    if d < 113 {
        lemma_unit_grows(d + 1, if d + 1 <= e {
            e
        } else {
            d + 1
        });
    }
}

proof fn lemma_units()
    ensures
        unit(113) == 0x2000,
        unit(112) == 0x4000,
        unit(103) == 0x80_0000,
        unit(102) == 0x100_0000,
{
    reveal_with_fuel(unit, 12);
}

/// Half to single precision, as the machine converts it.
fn widen_in_hardware(bits: u16) -> (r: u32)
    ensures
        r == hardware_widened(bits),
{
    let b: u32 = bits as u32;
    let sign: u32 = (b / 0x8000) * 0x8000_0000;
    let exponent: u32 = b / 0x400 % 0x20;
    let fraction: u32 = b % 0x400;
    if exponent == 31 {
        if 0 < fraction && fraction < 0x200 {
            sign + 0x7fc0_0000 + fraction * 0x2000
        } else {
            sign + 0x7f80_0000 + fraction * 0x2000
        }
    } else if exponent > 0 {
        sign + (exponent + 112) * 0x80_0000 + fraction * 0x2000
    } else if fraction == 0 {
        sign
    } else {
        let mut f: u32 = fraction;
        let mut e: u32 = 113;
        proof {
            lemma_units();
        }
        while f < 0x400
            invariant
                0 < f < 0x800,
                103 <= e <= 113,
                unit(e as int) <= f * 0x2000,
                unit(103) == 0x80_0000,
                normal_form(fraction as int, 113) == normal_form(f as int, e as int),
            decreases 0x800 - f,
        {
            f = 2 * f;
            e = e - 1;
        }
        sign + e * 0x80_0000 + (f - 0x400) * 0x2000
    }
}

/// The number nearest to `x / d`, of two that are as near the even one.
fn divide_to_even(x: u32, d: u32) -> (r: u32)
    requires
        0 < d <= 0x100_0000,
    ensures
        r == nearest_even(x as int, d as int),
        r <= x / d + 1,
{
    let q: u32 = x / d;
    let rest: u32 = x % d;
    proof {
        if d == 1 {
            assert(x % 1 == 0);
        } else {
            assert(x / d <= x / 2) by (nonlinear_arith)
                requires
                    d >= 2,
                    x >= 0,
            ;
        }
    }
    if 2 * rest > d || (2 * rest == d && q % 2 == 1) {
        q + 1
    } else {
        q
    }
}

/// Single to half precision, as the machine converts it.
fn narrow_in_hardware(bits: u32) -> (r: u16)
    ensures
        r == hardware_narrowed(bits),
{
    let sign: u16 = (bits / 0x8000_0000) as u16 * 0x8000;
    let magnitude: u32 = bits % 0x8000_0000;
    let exponent: u32 = bits / 0x80_0000 % 0x100;
    let fraction: u32 = bits % 0x80_0000;
    if exponent == 255 && fraction > 0 {
        sign + 0x7e00 + (fraction / 0x2000 % 0x200) as u16
    } else if exponent >= 113 {
        let q: u32 = divide_to_even(magnitude - 112 * 0x80_0000, 0x2000);
        if q > 0x7c00 {
            sign + 0x7c00
        } else {
            sign + q as u16
        }
    } else if exponent >= 102 {
        let mut d: u32 = 0x2000;
        let mut e: u32 = 113;
        proof {
            lemma_units();
        }
        while e > exponent
            invariant
                102 <= exponent <= e <= 113,
                d == unit(e as int),
                unit(102) == 0x100_0000,
            decreases e,
        {
            proof {
                lemma_unit_grows(102, e - 1);
            }
            d = 2 * d;
            e = e - 1;
        }
        proof {
            lemma_unit_grows(exponent as int, 112);
            assert(unit(112) == 0x4000) by {
                lemma_units();
            }
            lemma_unit_grows(102, exponent as int);
        }
        let x: u32 = 0x80_0000 + fraction;
        let q: u32 = divide_to_even(x, d);
        assert(x / d <= x / 0x4000) by (nonlinear_arith)
            requires
                d >= 0x4000,
        ;
        sign + q as u16
    } else {
        sign
    }
}

/// A half-precision number has sixteen bits.
pub proof fn lemma_narrowed_fits(bits: u32)
    ensures
        0 <= narrowed(bits) < 0x1_0000,
        0 <= hardware_narrowed(bits) < 0x1_0000,
{
    let e = single_exponent(bits);
    if 102 <= e < 113 {
        lemma_units();
        lemma_unit_grows(e, 112);
        let x = 0x80_0000 + single_fraction(bits);
        let d = unit(e);
        assert(0 <= x / d <= x / 0x4000) by (nonlinear_arith)
            requires
                d >= 0x4000,
                x >= 0,
        ;
    }
}

proof fn lemma_normal_form(f: int, e: int)
    requires
        0 < f < 0x800,
        e <= 113,
        unit(e) <= f * 0x2000,
    ensures
        ({
            let v = normal_form(f, e);
            let x = v / 0x80_0000;
            &&& 103 <= x <= e
            &&& f < 0x400 ==> x < e
            &&& (0x80_0000 + v % 0x80_0000) * unit(e) == f * 0x2000 * unit(x)
        }),
    decreases 0x800 - f,
{
    lemma_units();
    if f >= 0x400 {
        let v = normal_form(f, e);
        assert(v == e * 0x80_0000 + (f - 0x400) * 0x2000);
        assert(v / 0x80_0000 == e);
        assert(v % 0x80_0000 == (f - 0x400) * 0x2000);
        if e < 103 {
            lemma_unit_grows(e, 102);
        }
    } else {
        lemma_normal_form(2 * f, e - 1);
        let v = normal_form(f, e);
        let x = v / 0x80_0000;
        let g = 0x80_0000 + v % 0x80_0000;
        assert(g * unit(e) == f * 0x2000 * unit(x)) by (nonlinear_arith)
            requires
                g * (2 * unit(e)) == (2 * f) * 0x2000 * unit(x),
        ;
    }
}

/// A half-precision number comes back from single precision as it was, denormals
/// included, where the machine converts. What is not a number may not.
pub proof fn law_half_survives_in_hardware(bits: u16)
    requires
        half_exponent(bits) < 31 || half_fraction(bits) == 0,
    ensures
        0 <= hardware_widened(bits) <= u32::MAX,
        hardware_narrowed(hardware_widened(bits) as u32) == bits,
{
    let s = half_sign(bits);
    let e = half_exponent(bits);
    let f = half_fraction(bits);
    assert(bits == s * 0x8000 + e * 0x400 + f);
    let w = hardware_widened(bits);
    if e == 0 && f > 0 {
        lemma_units();
        lemma_normal_form(f, 113);
        let v = normal_form(f, 113);
        let x = v / 0x80_0000;
        let g = 0x80_0000 + v % 0x80_0000;
        assert(w == s * 0x8000_0000 + v);
        assert(single_exponent(w as u32) == x);
        assert(single_fraction(w as u32) == v % 0x80_0000);
        assert(g == f * unit(x)) by (nonlinear_arith)
            requires
                g * 0x2000 == f * 0x2000 * unit(x),
        ;
        lemma_unit_grows(x, 113);
        let u = unit(x);
        assert(g / u == f && g % u == 0) by (nonlinear_arith)
            requires
                g == f * u,
                u > 0,
        ;
    } else if e > 0 {
        let m = (e + 112) * 0x80_0000 + f * 0x2000;
        let m2 = if e == 31 {
            0x7f80_0000
        } else {
            m
        };
        assert(w == s * 0x8000_0000 + m2);
    }
}

/// The number at `i` of `n` ones is converted by the machine: they are taken
/// eight at a time, as far as that goes.
pub open spec fn in_eights(i: int, n: int) -> bool {
    i < n / 8 * 8
}

/// The numbers that both sides have room for.
pub open spec fn common(a: int, b: int) -> int {
    if a <= b {
        a
    } else {
        b
    }
}

/// Converts as many numbers as both sides have room for; the rest of `dst`
/// stays. `f16c` says that the machine converts eight numbers at a time.
pub fn f16_slice_to_f32(src: &[u16], dst: &mut [u32], f16c: bool)
    ensures
        final(dst)@.len() == old(dst)@.len(),
        ({
            let n = common(src@.len() as int, old(dst)@.len() as int);
            forall|i: int|
                0 <= i < old(dst)@.len() ==> #[trigger] final(dst)@[i] == if i >= n {
                    old(dst)@[i] as int
                } else if f16c && in_eights(i, n) {
                    hardware_widened(src@[i])
                } else {
                    widened(src@[i])
                }
        }),
{
    let ghost start = dst@;
    let n: usize = if src.len() <= dst.len() {
        src.len()
    } else {
        dst.len()
    };
    let eights: usize = n / 8 * 8;
    let mut i: usize = 0;
    while i < n
        invariant
            i <= n == common(src@.len() as int, start.len() as int),
            eights == n / 8 * 8,
            dst@.len() == start.len(),
            forall|j: int|
                0 <= j < i ==> #[trigger] dst@[j] == if f16c && in_eights(j, n as int) {
                    hardware_widened(src@[j])
                } else {
                    widened(src@[j])
                },
            forall|j: int| i <= j < dst@.len() ==> #[trigger] dst@[j] == start[j],
        decreases n - i,
    {
        dst[i] = if f16c && i < eights {
            widen_in_hardware(src[i])
        } else {
            f16_bits_to_f32(src[i])
        };
        i = i + 1;
    }
}

/// The number at `i` of `n` ones in half precision. `f16c` says that the machine
/// converts eight numbers at a time.
pub open spec fn narrowed_at(values: Seq<u32>, i: int, n: int, f16c: bool) -> int {
    if f16c && in_eights(i, n) {
        hardware_narrowed(values[i])
    } else {
        narrowed(values[i])
    }
}

/// Converts as many numbers as both sides have room for; the rest of `dst`
/// stays. `f16c` says that the machine converts eight numbers at a time.
pub fn f32_slice_to_f16(src: &[u32], dst: &mut [u16], f16c: bool)
    ensures
        final(dst)@.len() == old(dst)@.len(),
        ({
            let n = common(src@.len() as int, old(dst)@.len() as int);
            forall|i: int|
                0 <= i < old(dst)@.len() ==> #[trigger] final(dst)@[i] == if i >= n {
                    old(dst)@[i] as int
                } else {
                    narrowed_at(src@, i, n, f16c)
                }
        }),
{
    let ghost start = dst@;
    let n: usize = if src.len() <= dst.len() {
        src.len()
    } else {
        dst.len()
    };
    let eights: usize = n / 8 * 8;
    let mut i: usize = 0;
    while i < n
        invariant
            i <= n == common(src@.len() as int, start.len() as int),
            eights == n / 8 * 8,
            dst@.len() == start.len(),
            forall|j: int|
                0 <= j < i ==> #[trigger] dst@[j] == narrowed_at(src@, j, n as int, f16c),
            forall|j: int| i <= j < dst@.len() ==> #[trigger] dst@[j] == start[j],
        decreases n - i,
    {
        dst[i] = if f16c && i < eights {
            narrow_in_hardware(src[i])
        } else {
            f32_to_f16_bits(src[i])
        };
        i = i + 1;
    }
}

/// The bit pattern is not a number.
pub open spec fn is_nan(bits: u32) -> bool {
    bits as int % 0x8000_0000 > 0x7f80_0000
}

/// A number that orders single-precision numbers as their values are ordered;
/// both zeros have the same.
pub open spec fn rank(bits: u32) -> int {
    if bits < 0x8000_0000 {
        bits as int
    } else {
        0x8000_0000 - bits
    }
}

/// `a` is greater than `b` as a number.
pub open spec fn greater(a: u32, b: u32) -> bool {
    !is_nan(a) && !is_nan(b) && rank(a) > rank(b)
}

/// `a` is not a number.
pub fn not_a_number(bits: u32) -> (r: bool)
    ensures
        r == is_nan(bits),
{
    bits % 0x8000_0000 > 0x7f80_0000
}

/// The number by which a bit pattern is ordered.
pub fn rank_of(bits: u32) -> (r: i64)
    ensures
        r == rank(bits),
{
    if bits < 0x8000_0000 {
        bits as i64
    } else {
        0x8000_0000 - bits as i64
    }
}

/// `a` is greater than `b` as a number.
pub fn is_greater(a: u32, b: u32) -> (r: bool)
    ensures
        r == greater(a, b),
{
    !not_a_number(a) && !not_a_number(b) && rank_of(a) > rank_of(b)
}

/// `best` is the first place of the largest number; zero when no number is
/// above minus infinity.
pub open spec fn is_argmax(s: Seq<u32>, best: int) -> bool {
    if forall|i: int| 0 <= i < s.len() ==> !greater(#[trigger] s[i], NEG_INFINITY) {
        best == 0
    } else {
        &&& 0 <= best < s.len()
        &&& greater(s[best], NEG_INFINITY)
        &&& forall|i: int| 0 <= i < s.len() ==> !greater(#[trigger] s[i], s[best])
        &&& forall|i: int| 0 <= i < best ==> is_nan(#[trigger] s[i]) || greater(s[best], s[i])
    }
}

/// The first place of the largest number.
pub fn argmax(slice: &[u32]) -> (best: u32)
    requires
        slice@.len() <= u32::MAX,
    ensures
        is_argmax(slice@, best as int),
{
    let mut best: u32 = 0;
    let mut value: u32 = NEG_INFINITY;
    let mut i: usize = 0;
    while i < slice.len()
        invariant
            i <= slice@.len() <= u32::MAX,
            is_argmax(slice@.take(i as int), best as int),
            !is_nan(value),
            value == NEG_INFINITY || (best < i && value == slice@[best as int]),
            value == NEG_INFINITY ==> best == 0,
            value != NEG_INFINITY ==> greater(value, NEG_INFINITY),
            forall|j: int| 0 <= j < i ==> !greater(#[trigger] slice@[j], value),
            forall|j: int|
                0 <= j < best ==> is_nan(#[trigger] slice@[j]) || greater(value, slice@[j]),
        decreases slice.len() - i,
    {
        let v: u32 = slice[i];
        if is_greater(v, value) {
            value = v;
            best = i as u32;
        }
        i = i + 1;
        proof {
            let now = slice@.take(i as int);
            assert(now[i - 1] == v);
            if value == NEG_INFINITY {
                assert forall|j: int| 0 <= j < now.len() implies !greater(
                    #[trigger] now[j],
                    NEG_INFINITY,
                ) by {
                    assert(!greater(slice@[j], value));
                }
            } else {
                assert(greater(now[best as int], NEG_INFINITY));
                assert forall|j: int| 0 <= j < now.len() implies !greater(
                    #[trigger] now[j],
                    now[best as int],
                ) by {
                    assert(!greater(slice@[j], value));
                }
                assert forall|j: int| 0 <= j < best implies is_nan(#[trigger] now[j]) || greater(
                    now[best as int],
                    now[j],
                ) by {
                    assert(is_nan(slice@[j]) || greater(value, slice@[j]));
                }
            }
        }
    }
    assert(slice@.take(i as int) =~= slice@);
    best
}

/// The largest number stands at only one first place.
pub proof fn law_argmax_is_unique(s: Seq<u32>, a: int, b: int)
    requires
        is_argmax(s, a),
        is_argmax(s, b),
    ensures
        a == b,
{
    if !(forall|i: int| 0 <= i < s.len() ==> !greater(#[trigger] s[i], NEG_INFINITY)) {
        if a < b {
            assert(is_nan(s[a]) || greater(s[b], s[a]));
            assert(!greater(s[b], s[a]));
        } else if b < a {
            assert(is_nan(s[b]) || greater(s[a], s[b]));
            assert(!greater(s[a], s[b]));
        }
    }
}

/// A number that half precision can hold loses the thirteen last bits of its
/// fraction when it is narrowed, and nothing else; a smaller one becomes a zero
/// of its sign, and a larger one an infinity.
pub proof fn law_narrowing_cuts_off(bits: u32)
    ensures
        ({
            let e = single_exponent(bits);
            let h = narrowed(bits) as u16;
            &&& 113 <= e <= 142 ==> widened(h) == bits - bits % 0x2000
            &&& e <= 112 ==> widened(h) == bits - bits % 0x8000_0000
            &&& e >= 143 ==> h == single_sign(bits) * 0x8000 + 0x7c00
        }),
{
    lemma_narrowed_fits(bits);
    let s = single_sign(bits);
    let e = single_exponent(bits);
    let f = single_fraction(bits);
    assert(bits == s * 0x8000_0000 + e * 0x80_0000 + f);
    assert(s == 0 || s == 1);
    if 113 <= e <= 142 {
        let h = narrowed(bits);
        let x = e - 112;
        let g = f / 0x2000;
        assert(h == s * 0x8000 + x * 0x400 + g);
        assert(0 <= g < 0x400);
        assert(half_sign(h as u16) == s);
        assert(half_exponent(h as u16) == x);
        assert(half_fraction(h as u16) == g);
    }
}

/// Numbers are ordered by sign and size: a negative one stands as far below zero
/// as its opposite stands above, and both zeros stand in one place.
pub proof fn law_ranks_are_signed(b: u32)
    requires
        b < 0x8000_0000,
    ensures
        rank(b) == b,
        rank((b + 0x8000_0000) as u32) == -b,
{
}

/// The best place holds a number that none exceeds and that exceeds all before
/// it; where there is nothing above negative infinity it is the first place.
pub proof fn law_argmax_is_the_first_largest(s: Seq<u32>, best: int, i: int)
    requires
        is_argmax(s, best),
        0 <= i < s.len(),
    ensures
        greater(s[i], 0xff80_0000) ==> 0 <= best < s.len() && !greater(s[i], s[best]) && (i < best
            ==> greater(s[best], s[i])),
        (forall|j: int| 0 <= j < s.len() ==> !greater(#[trigger] s[j], 0xff80_0000)) ==> best == 0,
{
}

} // verus!
