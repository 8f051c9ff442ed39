//! Half-precision weights to IQ4_XS blocks.
//!
//! Half-precision numbers are whole numbers of one small unit, so that scales
//! and levels are found without rounding on the way.

use crate::bytes;
use crate::reference;
use crate::reference::Weight;
use crate::util;
use vstd::arithmetic::power2::pow2;
use vstd::prelude::*;

verus! {

/// The size of a half-precision number in units of two to the power of minus 24.
/// A denormal counts as zero, and the largest exponent is one like the others.
pub open spec fn magnitude(bits: u16) -> int {
    if util::half_exponent(bits) == 0 {
        0
    } else {
        (0x400 + util::half_fraction(bits)) * pow2((util::half_exponent(bits) - 1) as nat)
    }
}

/// The value of a half-precision number in the same units.
pub open spec fn units(bits: u16) -> int {
    if util::half_sign(bits) == 1 {
        -magnitude(bits)
    } else {
        magnitude(bits)
    }
}

/// With this scale every one of the numbers lies between the lowest and the
/// highest level.
pub open spec fn covers(numbers: Seq<u16>, scale: u16) -> bool {
    forall|i: int|
        0 <= i < numbers.len() ==> -8 * magnitude(scale) <= #[trigger] units(numbers[i]) <= 23
            * magnitude(scale)
}

/// The smallest scale that covers the numbers, among the positive normal ones.
pub open spec fn is_scale(numbers: Seq<u16>, scale: u16) -> bool {
    &&& 0x400 <= scale < 0x8000
    &&& covers(numbers, scale)
    &&& scale > 0x400 ==> !covers(numbers, (scale - 1) as u16)
}

/// The smallest scale that covers the numbers.
pub open spec fn scale_of(numbers: Seq<u16>) -> u16 {
    choose|scale: u16| is_scale(numbers, scale)
}

/// The level nearest to a number with this scale, counted from the lowest one.
pub open spec fn nearest_level(number: u16, scale: u16) -> int {
    (2 * units(number) + 17 * magnitude(scale)) / (2 * magnitude(scale))
}

/// The sixteen numbers that share a scale with the one at `k`.
pub open spec fn group(numbers: Seq<u16>, k: int) -> Seq<u16> {
    numbers.subrange(k / 16 * 16, k / 16 * 16 + 16)
}

/// The level of the number at `k`, counted from the lowest one.
pub open spec fn level_at(numbers: Seq<u16>, k: int) -> int {
    nearest_level(numbers[k], scale_of(group(numbers, k)))
}

/// What the number at `k` becomes.
pub open spec fn weight_of(numbers: Seq<u16>, k: int) -> Weight {
    Weight { level: (level_at(numbers, k) - 8) as i32, scale: scale_of(group(numbers, k)) }
}

/// The fifth bits of eight levels from the one at `k` on.
#[verifier::opaque]
pub open spec fn high_bits(numbers: Seq<u16>, k: int) -> int {
    level_at(numbers, k) / 16 + 2 * (level_at(numbers, k + 1) / 16) + 4 * (level_at(
        numbers,
        k + 2,
    ) / 16) + 8 * (level_at(numbers, k + 3) / 16) + 16 * (level_at(numbers, k + 4) / 16) + 32 * (
    level_at(numbers, k + 5) / 16) + 64 * (level_at(numbers, k + 6) / 16) + 128 * (level_at(
        numbers,
        k + 7,
    ) / 16)
}

/// Byte `i` of block `b`: the two scales, the low bits of the levels, their
/// high bits, and zeros.
pub open spec fn block_byte(numbers: Seq<u16>, b: int, i: int) -> u8 {
    let first = scale_of(group(numbers, 32 * b)) as int;
    let second = scale_of(group(numbers, 32 * b + 16)) as int;
    if i == 0 {
        (first % 256) as u8
    } else if i == 1 {
        (first / 256) as u8
    } else if i == 2 {
        (second % 256) as u8
    } else if i == 3 {
        (second / 256) as u8
    } else if i < 20 {
        (level_at(numbers, 32 * b + 2 * (i - 4)) % 16 + 16 * (level_at(
            numbers,
            32 * b + 2 * (i - 4) + 1,
        ) % 16)) as u8
    } else if i < 24 {
        high_bits(numbers, 32 * b + 8 * (i - 20)) as u8
    } else {
        0
    }
}

/// The blocks of the numbers, thirty-two to a block.
pub open spec fn quantized(numbers: Seq<u16>) -> Seq<u8> {
    Seq::new(
        numbers.len() / 32 * 36,
        |i: int| block_byte(numbers, i / 36, i % 36),
    )
}

/// The half-precision numbers in a run of bytes, least significant byte first.
pub open spec fn halves_of(data: Seq<u8>) -> Seq<u16> {
    Seq::new(data.len() / 2, |i: int| bytes::u16_le(data, 2 * i))
}

/// The half-precision numbers in a run of bytes.
pub fn read_halves(data: &[u8]) -> (r: Vec<u16>)
    ensures
        r@ == halves_of(data@),
{
    let len: usize = data.len();
    let n: usize = len / 2;
    let mut out: Vec<u16> = Vec::new();
    let mut i: usize = 0;
    while i < n
        invariant
            i <= n,
            n == len / 2,
            len == data@.len(),
            out@ == halves_of(data@).take(i as int),
        decreases n - i,
    {
        out.push(util::read_u16(data, 2 * i));
        i = i + 1;
        assert(out@ =~= halves_of(data@).take(i as int));
    }
    assert(out@ =~= halves_of(data@));
    out
}

proof fn lemma_magnitude_grows(a: u16, b: u16)
    requires
        0x400 <= a <= b < 0x8000,
    ensures
        0 < magnitude(a) <= magnitude(b),
    decreases b - a,
{
    let e = util::half_exponent(a);
    vstd::arithmetic::power2::lemma_pow2_pos((e - 1) as nat);
    let p = pow2((e - 1) as nat) as int;
    let f = util::half_fraction(a);
    assert((0x400 + f) * p > 0) by (nonlinear_arith)
        requires
            f >= 0,
            p > 0,
    ;
    if a < b {
        let c: u16 = (a + 1) as u16;
        lemma_magnitude_grows(c, b);
        if f < 0x3ff {
            assert(util::half_exponent(c) == e && util::half_fraction(c) == f + 1);
            assert((0x400 + f) * p <= (0x400 + f + 1) * p) by (nonlinear_arith)
                requires
                    p > 0,
            ;
        } else {
            assert(util::half_exponent(c) == e + 1 && util::half_fraction(c) == 0);
            vstd::arithmetic::power2::lemma_pow2_unfold(e as nat);
            assert(0x7ff * p <= 0x400 * (2 * p)) by (nonlinear_arith)
                requires
                    p > 0,
            ;
        }
    }
}

proof fn lemma_magnitude_bound(a: u16)
    ensures
        0 <= magnitude(a) <= 0x1ff_c000_0000,
        magnitude(0x7fff) == 0x1ff_c000_0000,
        a < 0x8000 ==> units(a) == magnitude(a),
{
    assert(pow2(30) == 0x4000_0000) by {
        vstd::arithmetic::power2::lemma2_to64();
    }
    assert(util::half_exponent(0x7fff) == 31 && util::half_fraction(0x7fff) == 0x3ff);
    let e = util::half_exponent(a);
    let f = util::half_fraction(a);
    if e > 0 {
        vstd::arithmetic::power2::lemma_pow2_pos((e - 1) as nat);
        let p = pow2((e - 1) as nat) as int;
        if e < 31 {
            vstd::arithmetic::power2::lemma_pow2_strictly_increases((e - 1) as nat, 30);
        }
        assert(0 <= (0x400 + f) * p <= 0x7ff * 0x4000_0000) by (nonlinear_arith)
            requires
                0 <= f <= 0x3ff,
                0 < p <= 0x4000_0000,
        ;
    }
}

proof fn lemma_covers_grows(numbers: Seq<u16>, a: u16, b: u16)
    requires
        0x400 <= a <= b < 0x8000,
        covers(numbers, a),
    ensures
        covers(numbers, b),
{
    lemma_magnitude_grows(a, b);
}

/// There is one smallest scale.
proof fn lemma_scale_is_unique(numbers: Seq<u16>, scale: u16)
    requires
        is_scale(numbers, scale),
    ensures
        scale_of(numbers) == scale,
{
    let other = scale_of(numbers);
    assert(is_scale(numbers, other));
    if other < scale {
        lemma_covers_grows(numbers, other, (scale - 1) as u16);
    } else if scale < other {
        lemma_covers_grows(numbers, scale, (other - 1) as u16);
    }
}

/// A level is one of thirty-two where the scale covers the number.
proof fn lemma_level_bound(number: u16, scale: u16)
    requires
        0x400 <= scale < 0x8000,
        -8 * magnitude(scale) <= units(number) <= 23 * magnitude(scale),
    ensures
        0 <= nearest_level(number, scale) < 32,
{
    lemma_magnitude_grows(scale, scale);
    let d = magnitude(scale);
    let x = 2 * units(number) + 17 * d;
    assert(0 <= x / (2 * d) < 32) by (nonlinear_arith)
        requires
            d > 0,
            d <= x <= 63 * d,
    ;
}

fn magnitude_of(bits: u16) -> (r: i64)
    ensures
        r == magnitude(bits),
        0 <= r <= 0x1ff_c000_0000,
{
    let exponent: u16 = bits / 0x400 % 0x20;
    proof {
        lemma_magnitude_bound(bits);
    }
    if exponent == 0 {
        0
    } else {
        let significand: u64 = 0x400 + (bits % 0x400) as u64;
        let shift: u64 = (exponent - 1) as u64;
        proof {
            vstd::bits::lemma_u64_shl_is_mul(significand, shift);
        }
        (significand << shift) as i64
    }
}

fn units_of(bits: u16) -> (r: i64)
    ensures
        r == units(bits),
        -0x1ff_c000_0000 <= r <= 0x1ff_c000_0000,
{
    let m: i64 = magnitude_of(bits);
    if bits >= 0x8000 {
        -m
    } else {
        m
    }
}

/// The scale covers numbers from `-low` to `high`.
fn reaches(low: i64, high: i64, scale: u16) -> (r: bool)
    requires
        0 <= low <= 0x1ff_c000_0000,
        0 <= high <= 0x1ff_c000_0000,
    ensures
        r == (low <= 8 * magnitude(scale) && high <= 23 * magnitude(scale)),
{
    let d: i64 = magnitude_of(scale);
    low <= 8 * d && high <= 23 * d
}

/// The smallest scale that covers the numbers.
fn find_scale(numbers: &[u16]) -> (r: u16)
    ensures
        r == scale_of(numbers@),
        is_scale(numbers@, r),
{
    let mut low: i64 = 0;
    let mut high: i64 = 0;
    let mut i: usize = 0;
    while i < numbers.len()
        invariant
            i <= numbers@.len(),
            0 <= low <= 0x1ff_c000_0000,
            0 <= high <= 0x1ff_c000_0000,
            forall|k: int| 0 <= k < i ==> -low <= #[trigger] units(numbers@[k]) <= high,
            low > 0 ==> exists|k: int| 0 <= k < i && #[trigger] units(numbers@[k]) == -low,
            high > 0 ==> exists|k: int| 0 <= k < i && #[trigger] units(numbers@[k]) == high,
        decreases numbers.len() - i,
    {
        let x: i64 = units_of(numbers[i]);
        assert(units(numbers@[i as int]) == x);
        if x > high {
            high = x;
        }
        if -x > low {
            low = -x;
        }
        i = i + 1;
    }
    assert forall|scale: u16| #[trigger] covers(numbers@, scale) == (low <= 8 * magnitude(scale)
        && high <= 23 * magnitude(scale)) by {
        lemma_magnitude_bound(scale);
        if covers(numbers@, scale) {
            if low > 0 {
                let k = choose|k: int|
                    0 <= k < numbers@.len() && #[trigger] units(numbers@[k]) == -low;
            }
            if high > 0 {
                let k = choose|k: int|
                    0 <= k < numbers@.len() && #[trigger] units(numbers@[k]) == high;
            }
        }
    }
    let mut below: u16 = 0x3ff;
    let mut above: u16 = 0x7fff;
    proof {
        lemma_magnitude_bound(0x7fff);
    }
    while above - below > 1
        invariant
            0x3ff <= below < above <= 0x7fff,
            0 <= low <= 0x1ff_c000_0000,
            0 <= high <= 0x1ff_c000_0000,
            forall|scale: u16| #[trigger]
                covers(numbers@, scale) == (low <= 8 * magnitude(scale) && high <= 23 * magnitude(
                    scale,
                )),
            covers(numbers@, above),
            below >= 0x400 ==> !covers(numbers@, below),
        decreases above - below,
    {
        let middle: u16 = below + (above - below) / 2;
        if reaches(low, high, middle) {
            above = middle;
        } else {
            below = middle;
        }
    }
    assert((above - 1) as u16 == below);
    proof {
        lemma_scale_is_unique(numbers@, above);
    }
    above
}

/// The level nearest to a number, counted from the lowest one.
fn find_level(number: u16, scale: u16) -> (r: u8)
    requires
        0x400 <= scale < 0x8000,
        -8 * magnitude(scale) <= units(number) <= 23 * magnitude(scale),
    ensures
        r == nearest_level(number, scale),
        r < 32,
{
    let x: i64 = units_of(number);
    let d: i64 = magnitude_of(scale);
    proof {
        lemma_level_bound(number, scale);
        lemma_magnitude_grows(scale, scale);
    }
    ((2 * x + 17 * d) / (2 * d)) as u8
}

/// Appends the levels of sixteen numbers from the one at `at` on; gives their
/// scale.
fn push_levels(out: &mut Vec<u8>, numbers: &[u16], at: usize) -> (scale: u16)
    requires
        at % 16 == 0,
        at + 16 <= numbers@.len(),
    ensures
        scale == scale_of(group(numbers@, at as int)),
        final(out)@.len() == old(out)@.len() + 16,
        forall|k: int| 0 <= k < old(out)@.len() ==> #[trigger] final(out)@[k] == old(out)@[k],
        forall|k: int|
            0 <= k < 16 ==> #[trigger] final(out)@[old(out)@.len() + k] == level_at(
                numbers@,
                at + k,
            ) && final(out)@[old(out)@.len() + k] < 32,
{
    let ghost n = out@.len() as int;
    let ghost start = out@;
    assert(numbers.len() == numbers@.len());
    let part: &[u16] = vstd::slice::slice_subrange(numbers, at, at + 16);
    let scale: u16 = find_scale(part);
    assert(part@ =~= group(numbers@, at as int));
    let mut i: usize = 0;
    while i < 16
        invariant
            i <= 16,
            at % 16 == 0,
            at + 16 <= numbers@.len(),
            part@ == group(numbers@, at as int),
            part@.len() == 16,
            is_scale(part@, scale),
            scale == scale_of(part@),
            start.len() == n,
            out@.len() == n + i,
            forall|k: int| 0 <= k < n ==> #[trigger] out@[k] == start[k],
            forall|k: int|
                0 <= k < i ==> #[trigger] out@[n + k] == level_at(numbers@, at + k) && out@[n + k]
                    < 32,
        decreases 16 - i,
    {
        assert(units(part@[i as int]) <= 23 * magnitude(scale));
        let level: u8 = find_level(part[i], scale);
        assert((at + i) / 16 * 16 == at);
        assert(group(numbers@, at + i) =~= group(numbers@, at as int));
        out.push(level);
        i = i + 1;
    }
    scale
}

/// The fifth bits of eight levels, in one byte.
fn gather(a: &[u8], at: usize) -> (r: u8)
    requires
        at + 8 <= a@.len(),
        forall|k: int| at <= k < at + 8 ==> #[trigger] a@[k] < 32,
    ensures
        r == a@[at as int] / 16 + 2 * (a@[at + 1] / 16) + 4 * (a@[at + 2] / 16) + 8 * (a@[at + 3]
            / 16) + 16 * (a@[at + 4] / 16) + 32 * (a@[at + 5] / 16) + 64 * (a@[at + 6] / 16) + 128
            * (a@[at + 7] / 16),
{
    assert(a.len() == a@.len());
    a[at] / 16 + 2 * (a[at + 1] / 16) + 4 * (a[at + 2] / 16) + 8 * (a[at + 3] / 16) + 16 * (a[at
        + 4] / 16) + 32 * (a[at + 5] / 16) + 64 * (a[at + 6] / 16) + 128 * (a[at + 7] / 16)
}

/// Appends block `b`.
fn push_block(out: &mut Vec<u8>, numbers: &[u16], b: usize)
    requires
        32 * b + 32 <= numbers@.len(),
    ensures
        final(out)@ == old(out)@ + Seq::new(36, |i: int| block_byte(numbers@, b as int, i)),
{
    assert(numbers.len() == numbers@.len());
    let ghost start = out@;
    let mut levels: Vec<u8> = Vec::new();
    let first: u16 = push_levels(&mut levels, numbers, 32 * b);
    let second: u16 = push_levels(&mut levels, numbers, 32 * b + 16);
    assert forall|k: int| 0 <= k < 32 implies #[trigger] levels@[k] == level_at(
        numbers@,
        32 * b + k,
    ) && levels@[k] < 32 by {
        if k >= 16 {
            assert(levels@[16 + (k - 16)] == level_at(numbers@, 32 * b + 16 + (k - 16)));
        } else {
            assert(levels@[0 + k] == level_at(numbers@, 32 * b + k));
        }
    }
    out.push((first % 256) as u8);
    out.push((first / 256) as u8);
    out.push((second % 256) as u8);
    out.push((second / 256) as u8);
    let ghost block = Seq::new(36, |i: int| block_byte(numbers@, b as int, i));
    assert(out@ =~= start + block.take(4));
    let mut i: usize = 0;
    while i < 16
        invariant
            i <= 16,
            levels@.len() == 32,
            forall|k: int|
                0 <= k < 32 ==> #[trigger] levels@[k] == level_at(numbers@, 32 * b + k)
                    && levels@[k] < 32,
            block == Seq::new(36, |i: int| block_byte(numbers@, b as int, i)),
            out@ == start + block.take(4 + i),
        decreases 16 - i,
    {
        assert(levels@[2 * i] == level_at(numbers@, 32 * b + 2 * i));
        assert(levels@[2 * i + 1] == level_at(numbers@, 32 * b + 2 * i + 1));
        out.push(levels[2 * i] % 16 + 16 * (levels[2 * i + 1] % 16));
        assert(block[4 + i] == out@.last());
        i = i + 1;
        assert(out@ =~= start + block.take(4 + i));
    }
    let mut i: usize = 0;
    while i < 4
        invariant
            i <= 4,
            levels@.len() == 32,
            forall|k: int|
                0 <= k < 32 ==> #[trigger] levels@[k] == level_at(numbers@, 32 * b + k)
                    && levels@[k] < 32,
            block == Seq::new(36, |i: int| block_byte(numbers@, b as int, i)),
            out@ == start + block.take(20 + i),
        decreases 4 - i,
    {
        let h: u8 = gather(levels.as_slice(), 8 * i);
        assert(h == high_bits(numbers@, 32 * b + 8 * i)) by {
            reveal(high_bits);
            assert(levels@[8 * i] == level_at(numbers@, 32 * b + 8 * i));
            assert(levels@[8 * i + 1] == level_at(numbers@, 32 * b + 8 * i + 1));
            assert(levels@[8 * i + 2] == level_at(numbers@, 32 * b + 8 * i + 2));
            assert(levels@[8 * i + 3] == level_at(numbers@, 32 * b + 8 * i + 3));
            assert(levels@[8 * i + 4] == level_at(numbers@, 32 * b + 8 * i + 4));
            assert(levels@[8 * i + 5] == level_at(numbers@, 32 * b + 8 * i + 5));
            assert(levels@[8 * i + 6] == level_at(numbers@, 32 * b + 8 * i + 6));
            assert(levels@[8 * i + 7] == level_at(numbers@, 32 * b + 8 * i + 7));
        }
        out.push(h);
        assert(block[20 + i] == h);
        i = i + 1;
        assert(out@ =~= start + block.take(20 + i));
    }
    let mut i: usize = 0;
    while i < 12
        invariant
            i <= 12,
            block == Seq::new(36, |i: int| block_byte(numbers@, b as int, i)),
            out@ == start + block.take(24 + i),
        decreases 12 - i,
    {
        out.push(0);
        assert(block[24 + i] == 0);
        i = i + 1;
        assert(out@ =~= start + block.take(24 + i));
    }
    assert(block.take(36) =~= block);
}

/// Half-precision numbers as IQ4_XS blocks. Of each sixteen numbers the scale is
/// the smallest with which the levels reach all of them, and each number goes to
/// the level nearest to it.
pub fn quantize_f16_to_iq4xs(numbers: &[u16]) -> (r: Vec<u8>)
    requires
        numbers@.len() % 32 == 0,
    ensures
        r@ == quantized(numbers@),
{
    let blocks: usize = numbers.len() / 32;
    let mut out: Vec<u8> = Vec::new();
    let mut b: usize = 0;
    assert(out@ =~= quantized(numbers@).take(0));
    while b < blocks
        invariant
            b <= blocks,
            blocks == numbers@.len() / 32,
            out@ == quantized(numbers@).take(36 * b),
        decreases blocks - b,
    {
        push_block(&mut out, numbers, b);
        assert forall|i: int| 0 <= i < 36 implies quantized(numbers@)[36 * b + i] == block_byte(
            numbers@,
            b as int,
            i,
        ) by {
            assert((36 * b + i) / 36 == b && (36 * b + i) % 36 == i);
        }
        b = b + 1;
        assert(out@ =~= quantized(numbers@).take(36 * b));
    }
    assert(quantized(numbers@).take(36 * b) =~= quantized(numbers@));
    out
}

/// Below a scale that covers the numbers, or at it, stands the smallest one.
proof fn lemma_scale_exists(numbers: Seq<u16>, scale: u16)
    requires
        0x400 <= scale < 0x8000,
        covers(numbers, scale),
    ensures
        is_scale(numbers, scale_of(numbers)),
    decreases scale,
{
    if scale > 0x400 && covers(numbers, (scale - 1) as u16) {
        lemma_scale_exists(numbers, (scale - 1) as u16);
    } else {
        assert(is_scale(numbers, scale));
    }
}

/// All numbers have a scale.
proof fn lemma_scale(numbers: Seq<u16>)
    ensures
        is_scale(numbers, scale_of(numbers)),
{
    assert forall|i: int| 0 <= i < numbers.len() implies -8 * magnitude(0x7fff)
        <= #[trigger] units(numbers[i]) <= 23 * magnitude(0x7fff) by {
        lemma_magnitude_bound(numbers[i]);
    }
    lemma_scale_exists(numbers, 0x7fff);
}

proof fn lemma_level(numbers: Seq<u16>, k: int)
    requires
        0 <= k,
        k / 16 * 16 + 16 <= numbers.len(),
    ensures
        0 <= level_at(numbers, k) < 32,
        is_scale(group(numbers, k), scale_of(group(numbers, k))),
        -8 * magnitude(scale_of(group(numbers, k))) <= units(numbers[k]) <= 23 * magnitude(
            scale_of(group(numbers, k)),
        ),
{
    let g = group(numbers, k);
    lemma_scale(g);
    assert(g[k % 16] == numbers[k]);
    assert(units(g[k % 16]) <= 23 * magnitude(scale_of(g)));
    lemma_level_bound(numbers[k], scale_of(g));
}

proof fn lemma_bits(a: u8, b: u8, c: u8, d: u8, e: u8, f: u8, g: u8, h: u8, x: u8)
    by (bit_vector)
    requires
        a <= 1,
        b <= 1,
        c <= 1,
        d <= 1,
        e <= 1,
        f <= 1,
        g <= 1,
        h <= 1,
        x == a + 2 * b + 4 * c + 8 * d + 16 * e + 32 * f + 64 * g + 128 * h,
    ensures
        (x >> 0) & 1 == a,
        (x >> 1) & 1 == b,
        (x >> 2) & 1 == c,
        (x >> 3) & 1 == d,
        (x >> 4) & 1 == e,
        (x >> 5) & 1 == f,
        (x >> 6) & 1 == g,
        (x >> 7) & 1 == h,
{
}

proof fn lemma_high_bits(numbers: Seq<u16>, k: int, j: int)
    requires
        0 <= k,
        k % 8 == 0,
        (k + 7) / 16 * 16 + 16 <= numbers.len(),
        0 <= j < 8,
    ensures
        0 <= high_bits(numbers, k) < 256,
        ((high_bits(numbers, k) as u8) >> (j as u8)) & 1 == level_at(numbers, k + j) / 16,
{
    assert forall|i: int| 0 <= i < 8 implies 0 <= #[trigger] level_at(numbers, k + i) < 32 by {
        lemma_level(numbers, k + i);
    }
    assert(0 <= level_at(numbers, k + 0) < 32);
    reveal(high_bits);
    let a = (level_at(numbers, k) / 16) as u8;
    let b = (level_at(numbers, k + 1) / 16) as u8;
    let c = (level_at(numbers, k + 2) / 16) as u8;
    let d = (level_at(numbers, k + 3) / 16) as u8;
    let e = (level_at(numbers, k + 4) / 16) as u8;
    let f = (level_at(numbers, k + 5) / 16) as u8;
    let g = (level_at(numbers, k + 6) / 16) as u8;
    let h = (level_at(numbers, k + 7) / 16) as u8;
    lemma_bits(a, b, c, d, e, f, g, h, high_bits(numbers, k) as u8);
}

proof fn lemma_block_bytes(numbers: Seq<u16>, b: int, i: int)
    requires
        0 <= b < numbers.len() / 32,
        0 <= i < 36,
    ensures
        quantized(numbers)[36 * b + i] == block_byte(numbers, b, i),
{
    assert((36 * b + i) / 36 == b && (36 * b + i) % 36 == i);
}

proof fn lemma_scale_unpacks(numbers: Seq<u16>, b: int, pos: int)
    requires
        0 <= b < numbers.len() / 32,
        0 <= pos < 32,
    ensures
        bytes::u16_le(
            quantized(numbers),
            if pos < 16 {
                36 * b
            } else {
                36 * b + 2
            },
        ) == scale_of(group(numbers, 32 * b + pos)),
{
    lemma_block_bytes(numbers, b, 0);
    lemma_block_bytes(numbers, b, 1);
    lemma_block_bytes(numbers, b, 2);
    lemma_block_bytes(numbers, b, 3);
    if pos < 16 {
        assert((32 * b + pos) / 16 * 16 == 32 * b);
        assert(group(numbers, 32 * b + pos) =~= group(numbers, 32 * b));
    } else {
        assert((32 * b + pos) / 16 * 16 == 32 * b + 16);
        assert(group(numbers, 32 * b + pos) =~= group(numbers, 32 * b + 16));
    }
}

proof fn lemma_low_unpacks(numbers: Seq<u16>, b: int, pos: int)
    requires
        0 <= b < numbers.len() / 32,
        0 <= pos < 32,
    ensures
        reference::low_bits(quantized(numbers), 36 * b, pos) == level_at(numbers, 32 * b + pos)
            % 16,
{
    let h = pos / 2;
    let pair = 32 * b + 2 * h;
    lemma_pairs(numbers.len() as int, b, pos);
    lemma_block_bytes(numbers, b, 4 + h);
    lemma_level(numbers, pair);
    lemma_level(numbers, pair + 1);
    let byte = quantized(numbers)[36 * b + (4 + h)];
    assert(byte == level_at(numbers, pair) % 16 + 16 * (level_at(numbers, pair + 1) % 16)) by {
        lemma_low_byte(numbers, b, h);
    }
    assert(36 * b + 4 + h == 36 * b + (4 + h));
}

proof fn lemma_pairs(len: int, b: int, pos: int)
    requires
        0 <= b < len / 32,
        0 <= pos < 32,
    ensures
        ({
            let pair = 32 * b + 2 * (pos / 2);
            &&& 0 <= pair
            &&& pair / 16 * 16 + 16 <= len
            &&& (pair + 1) / 16 * 16 + 16 <= len
            &&& 0 <= pos / 2 < 16
            &&& 32 * b + pos == pair + pos % 2
        }),
{
}

proof fn lemma_low_byte(numbers: Seq<u16>, b: int, h: int)
    requires
        0 <= h < 16,
    ensures
        block_byte(numbers, b, 4 + h) == (level_at(numbers, 32 * b + 2 * h) % 16 + 16 * (level_at(
            numbers,
            32 * b + 2 * h + 1,
        ) % 16)) as u8,
{
    assert(4 + h - 4 == h);
}

proof fn lemma_high_unpacks(numbers: Seq<u16>, b: int, pos: int)
    requires
        0 <= b < numbers.len() / 32,
        0 <= pos < 32,
    ensures
        reference::high_bit(quantized(numbers), 36 * b, pos) == level_at(numbers, 32 * b + pos)
            / 16,
{
    let e = pos / 8;
    let k = 32 * b + 8 * e;
    lemma_eights(numbers.len() as int, b, pos);
    lemma_block_bytes(numbers, b, 20 + e);
    lemma_high_bits(numbers, k, pos % 8);
    let byte = quantized(numbers)[36 * b + (20 + e)];
    assert(byte == high_bits(numbers, k) as u8) by {
        lemma_high_byte(numbers, b, e);
    }
}

proof fn lemma_eights(len: int, b: int, pos: int)
    requires
        0 <= b < len / 32,
        0 <= pos < 32,
    ensures
        ({
            let k = 32 * b + 8 * (pos / 8);
            &&& 0 <= k
            &&& k % 8 == 0
            &&& (k + 7) / 16 * 16 + 16 <= len
            &&& k + pos % 8 == 32 * b + pos
            &&& 0 <= pos / 8 < 4
        }),
{
}

proof fn lemma_high_byte(numbers: Seq<u16>, b: int, e: int)
    requires
        0 <= e < 4,
    ensures
        block_byte(numbers, b, 20 + e) == high_bits(numbers, 32 * b + 8 * e) as u8,
{
    assert(20 + e - 20 == e);
}

/// Every number is unpacked from its block as the level that was chosen for it,
/// with the scale of its sixteen.
pub proof fn law_quantized_unpacks(numbers: Seq<u16>, k: int)
    requires
        numbers.len() % 32 == 0,
        0 <= k < numbers.len(),
    ensures
        reference::weight_at(quantized(numbers), k / 32 * 36, k % 32) == weight_of(numbers, k),
{
    let b = k / 32;
    let pos = k % 32;
    assert(32 * b + pos == k);
    lemma_level(numbers, k);
    lemma_scale_unpacks(numbers, b, pos);
    lemma_low_unpacks(numbers, b, pos);
    lemma_high_unpacks(numbers, b, pos);
}

/// What a number becomes is off by half a scale at most.
pub proof fn law_quantized_is_near(numbers: Seq<u16>, k: int)
    requires
        numbers.len() % 32 == 0,
        0 <= k < numbers.len(),
    ensures
        ({
            let w = weight_of(numbers, k);
            let d = magnitude(w.scale);
            &&& -8 <= w.level < 24
            &&& -d <= 2 * (units(numbers[k]) - w.level * d) <= d
        }),
{
    lemma_level(numbers, k);
    let scale = scale_of(group(numbers, k));
    let d = magnitude(scale);
    lemma_magnitude_grows(scale, scale);
    let x = 2 * units(numbers[k]) + 17 * d;
    let q = x / (2 * d);
    vstd::arithmetic::div_mod::lemma_fundamental_div_mod(x, 2 * d);
    assert(-d <= 2 * (units(numbers[k]) - (q - 8) * d) <= d) by (nonlinear_arith)
        requires
            x == 2 * units(numbers[k]) + 17 * d,
            x == (2 * d) * q + x % (2 * d),
            0 <= x % (2 * d) < 2 * d,
    ;
}

} // verus!
