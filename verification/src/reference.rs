//! Quantised weights, one at a time: what the shaders unpack, on the host.

use crate::bytes;
use crate::util;
use vstd::prelude::*;

verus! {

/// Bytes of a block of IQ4_XS weights.
pub const BLOCK_BYTES: usize = 36;

/// Weights of a block.
pub const BLOCK_WEIGHTS: usize = 32;

/// A quantised weight: its value is `level` times `scale`, which is a
/// half-precision bit pattern.
#[derive(Clone, Copy, Debug, PartialEq, Eq, Structural)]
pub struct Weight {
    pub level: i32,
    pub scale: u16,
}

/// The four low bits of weight `pos` in the block at `base`, two weights a byte.
pub open spec fn low_bits(data: Seq<u8>, base: int, pos: int) -> int {
    let b = data[base + 4 + pos / 2];
    if pos % 2 == 0 {
        b as int % 16
    } else {
        b as int / 16
    }
}

/// The fifth bit of weight `pos` in the block at `base`.
pub open spec fn high_bit(data: Seq<u8>, base: int, pos: int) -> u8 {
    (data[base + 20 + pos / 8] >> ((pos % 8) as u8)) & 1
}

/// Weight `pos` of the block at `base`: two scales, one for each half of the
/// block, then the low bits, then the high bits.
pub open spec fn weight_at(data: Seq<u8>, base: int, pos: int) -> Weight {
    Weight {
        level: (low_bits(data, base, pos) + 16 * high_bit(data, base, pos) - 8) as i32,
        scale: bytes::u16_le(
            data,
            if pos < 16 {
                base
            } else {
                base + 2
            },
        ),
    }
}

/// Weight `pos` of the block at `base`.
pub fn unpack_weight(data: &[u8], base: usize, pos: usize) -> (r: Weight)
    requires
        pos < BLOCK_WEIGHTS,
        base + 24 <= data@.len(),
    ensures
        r == weight_at(data@, base as int, pos as int),
        -8 <= r.level < 24,
{
    assert(data.len() == data@.len());
    let scale: u16 = util::read_u16(
        data,
        if pos < 16 {
            base
        } else {
            base + 2
        },
    );
    let b: u8 = data[base + 4 + pos / 2];
    let low: u8 = if pos % 2 == 0 {
        b % 16
    } else {
        b / 16
    };
    let h: u8 = data[base + 20 + pos / 8];
    let shift: u8 = (pos % 8) as u8;
    let high: u8 = (h >> shift) & 1;
    assert((h >> shift) & 1 <= 1) by (bit_vector)
        requires
            shift < 8,
    ;
    Weight { level: low as i32 + 16 * high as i32 - 8, scale }
}

/// Weight `block_pos` of block `block_idx`.
pub fn ref_dequant_iq4_xs(data: &[u8], block_idx: usize, block_pos: usize) -> (r: Weight)
    requires
        block_pos < BLOCK_WEIGHTS,
        block_idx * BLOCK_BYTES + 24 <= data@.len(),
    ensures
        r == weight_at(data@, block_idx * BLOCK_BYTES, block_pos as int),
        -8 <= r.level < 24,
{
    assert(data.len() == data@.len());
    unpack_weight(data, block_idx * BLOCK_BYTES, block_pos)
}

/// A half-precision number, as its bit pattern.
#[allow(non_camel_case_types)]
#[derive(Clone, Copy, Debug, PartialEq, Eq, Structural)]
pub struct half_f16(pub u16);

/// A half-precision number in single precision. Zeros and denormals become
/// zero, an infinity becomes infinity, and what is not a number stays so.
pub open spec fn half_value(bits: u16) -> int {
    if util::half_exponent(bits) == 0 {
        0
    } else if util::half_exponent(bits) < 31 {
        util::widened(bits)
    } else if util::half_fraction(bits) == 0 {
        0x7f80_0000
    } else {
        0x7fc0_0000
    }
}

impl half_f16 {
    /// The number in single precision, as its bit pattern.
    pub fn to_f32_bits(self) -> (r: u32)
        ensures
            r == half_value(self.0),
    {
        let exponent: u16 = self.0 / 0x400 % 0x20;
        if exponent == 0 {
            0
        } else if exponent < 31 {
            util::f16_bits_to_f32(self.0)
        } else if self.0 % 0x400 == 0 {
            0x7f80_0000
        } else {
            0x7fc0_0000
        }
    }
}

/// A normal number of half precision keeps its value; smaller ones are zero, and
/// what is not finite loses its sign.
pub proof fn law_half_is_read(bits: u16)
    ensures
        ({
            let v = half_value(bits) as u32;
            let e = util::half_exponent(bits);
            &&& 0 <= half_value(bits) <= u32::MAX
            &&& 0 < e < 31 ==> util::narrowed(v) == bits
            &&& e == 0 ==> v == 0
            &&& e == 31 && util::half_fraction(bits) == 0 ==> v == 0x7f80_0000
            &&& e == 31 && util::half_fraction(bits) != 0 <==> util::is_nan(v)
        }),
{
    let s = util::half_sign(bits);
    let e = util::half_exponent(bits);
    let f = util::half_fraction(bits);
    assert(s == 0 || s == 1);
    if 0 < e < 31 {
        util::law_half_survives(bits);
        let v = util::widened(bits);
        assert(v == s * 0x8000_0000 + (e + 112) * 0x80_0000 + f * 0x2000);
        assert(v % 0x8000_0000 == (e + 112) * 0x80_0000 + f * 0x2000);
    }
}

} // verus!
