use moe_680m::bytes::{get_u16, get_u32, get_u64, read_words};
use moe_680m::reference::{half_f16, ref_dequant_iq4_xs, unpack_weight, Weight};
use moe_680m::sort::stable_order;
use moe_680m::text;
use moe_680m::util;

#[test]
fn half_to_single_normal_numbers() {
    assert_eq!(util::f16_bits_to_f32(0x3c00), 1.0f32.to_bits());
    assert_eq!(util::f16_bits_to_f32(0xc000), (-2.0f32).to_bits());
    assert_eq!(util::f16_bits_to_f32(0x3555), 0.33325195f32.to_bits());
    assert_eq!(util::f16_bits_to_f32(0x7bff), 65504.0f32.to_bits());
}

#[test]
fn half_denormals_are_flushed() {
    assert_eq!(util::f16_bits_to_f32(0x0000), 0.0f32.to_bits());
    assert_eq!(util::f16_bits_to_f32(0x0001), 0.0f32.to_bits());
    assert_eq!(util::f16_bits_to_f32(0x83ff), (-0.0f32).to_bits());
}

#[test]
fn half_largest_exponent_is_shifted() {
    assert_eq!(util::f16_bits_to_f32(0x7c00), 65536.0f32.to_bits());
}

#[test]
fn single_to_half() {
    assert_eq!(util::f32_to_f16_bits(1.0f32.to_bits()), 0x3c00);
    assert_eq!(util::f32_to_f16_bits((-2.5f32).to_bits()), 0xc100);
    assert_eq!(util::f32_to_f16_bits(65504.0f32.to_bits()), 0x7bff);
    assert_eq!(util::f32_to_f16_bits(65536.0f32.to_bits()), 0x7c00);
    assert_eq!(util::f32_to_f16_bits(f32::NEG_INFINITY.to_bits()), 0xfc00);
    assert_eq!(util::f32_to_f16_bits(1e-6f32.to_bits()), 0x0000);
    assert_eq!(util::f32_to_f16_bits((-1e-6f32).to_bits()), 0x8000);
}

#[test]
fn half_survives_the_round_trip() {
    for h in 0..=u16::MAX {
        let exponent = h >> 10 & 31;
        if h & 0x3ff == 0 || (0 < exponent && exponent < 31) {
            assert_eq!(util::f32_to_f16_bits(util::f16_bits_to_f32(h)), h);
        }
    }
}

#[test]
fn slices_convert_the_common_part() {
    let mut wide = [7u32; 3];
    util::f16_slice_to_f32(&[0x3c00, 0x4000], &mut wide, true);
    assert_eq!(wide, [1.0f32.to_bits(), 2.0f32.to_bits(), 7]);
    let mut narrow = [9u16; 2];
    util::f32_slice_to_f16(&[1.0f32.to_bits(), 2.0f32.to_bits(), 0], &mut narrow, false);
    assert_eq!(narrow, [0x3c00, 0x4000]);
}

#[test]
fn the_machine_keeps_denormals_and_infinities() {
    let src = [0x0001, 0x03ff, 0x8200, 0x7c00, 0xfc00, 0x7c01, 0x3555, 0x0000, 0x0001];
    let mut wide = [0u32; 9];
    util::f16_slice_to_f32(&src, &mut wide, true);
    assert_eq!(wide[0], 2f32.powi(-24).to_bits());
    assert_eq!(wide[1], (1023.0 * 2f32.powi(-24)).to_bits());
    assert_eq!(wide[2], (-512.0 * 2f32.powi(-24)).to_bits());
    assert_eq!(wide[3], f32::INFINITY.to_bits());
    assert_eq!(wide[4], f32::NEG_INFINITY.to_bits());
    assert_eq!(wide[5], 0x7fc0_2000);
    assert_eq!(wide[6], (1365.0 * 2f32.powi(-12)).to_bits());
    assert_eq!(wide[7], 0);
    assert_eq!(wide[8], 0);
    util::f16_slice_to_f32(&src, &mut wide, false);
    assert_eq!(wide[0], 0);
    assert_eq!(wide[3], 65536.0f32.to_bits());
}

#[test]
fn the_machine_rounds_to_the_nearest() {
    let values = [
        1.0 + 2f32.powi(-11),
        1.0 + 3.0 * 2f32.powi(-11),
        65519.996,
        65520.0,
        2f32.powi(-25),
        -3.0 * 2f32.powi(-25),
        f32::from_bits(0x7f80_0001),
        1e-30,
        1.0 + 3.0 * 2f32.powi(-11),
    ];
    let bits: Vec<u32> = values.iter().map(|v| v.to_bits()).collect();
    let mut narrow = [0u16; 9];
    util::f32_slice_to_f16(&bits, &mut narrow, true);
    assert_eq!(
        narrow,
        [0x3c00, 0x3c02, 0x7bff, 0x7c00, 0x0000, 0x8002, 0x7e00, 0x0000, 0x3c01]
    );
}

#[test]
fn halves_survive_the_machine() {
    for first in (0..=u16::MAX).step_by(8) {
        let src: Vec<u16> = (0..8).map(|i| first + i).collect();
        let mut wide = [0u32; 8];
        let mut back = [0u16; 8];
        util::f16_slice_to_f32(&src, &mut wide, true);
        util::f32_slice_to_f16(&wide, &mut back, true);
        for i in 0..8 {
            if src[i] & 0x7fff <= 0x7c00 {
                assert_eq!(back[i], src[i]);
            }
        }
    }
}

#[test]
fn argmax_takes_the_first_largest() {
    let v: Vec<u32> = [1.0f32, 3.0, -7.0, 3.0].iter().map(|x| x.to_bits()).collect();
    assert_eq!(util::argmax(&v), 1);
    let nan = [f32::NAN.to_bits(), (-1.0f32).to_bits(), f32::NAN.to_bits()];
    assert_eq!(util::argmax(&nan), 1);
    assert_eq!(util::argmax(&[]), 0);
    assert_eq!(util::argmax(&[f32::NEG_INFINITY.to_bits(), f32::NAN.to_bits()]), 0);
}

#[test]
fn comparison_agrees_with_floats() {
    let samples = [0.0f32, -0.0, 1.0, -1.0, 1e-40, f32::INFINITY, f32::NEG_INFINITY, f32::NAN];
    for a in samples {
        for b in samples {
            assert_eq!(util::is_greater(a.to_bits(), b.to_bits()), a > b);
        }
    }
}

#[test]
fn little_endian_numbers() {
    let b = [1u8, 2, 3, 4, 5, 6, 7, 8, 9];
    assert_eq!(get_u16(&b, 1), 0x0302);
    assert_eq!(util::read_u16(&b, 0), 0x0201);
    assert_eq!(get_u32(&b, 0), 0x0403_0201);
    assert_eq!(get_u64(&b, 1), 0x0908_0706_0504_0302);
    assert_eq!(read_words(&b), vec![0x0403_0201, 0x0807_0605]);
}

#[test]
fn order_is_stable() {
    assert_eq!(stable_order(&[3, 1, 2, 1]), vec![1, 3, 2, 0]);
    assert_eq!(stable_order(&[]), Vec::<usize>::new());
}

#[test]
fn quantised_weights_unpack() {
    let mut block = [0u8; 72];
    block[36] = 0x00;
    block[37] = 0x3c;
    block[38] = 0x00;
    block[39] = 0x40;
    block[40] = 0x5a;
    block[36 + 4 + 8] = 0x0f;
    block[36 + 20] = 0b10;
    block[36 + 22] = 0b1;
    assert_eq!(ref_dequant_iq4_xs(&block, 1, 0), Weight { level: 10 - 8, scale: 0x3c00 });
    assert_eq!(ref_dequant_iq4_xs(&block, 1, 1), Weight { level: 5 + 16 - 8, scale: 0x3c00 });
    assert_eq!(ref_dequant_iq4_xs(&block, 1, 16), Weight { level: 15 + 16 - 8, scale: 0x4000 });
    assert_eq!(ref_dequant_iq4_xs(&block, 1, 2), Weight { level: -8, scale: 0x3c00 });
    assert_eq!(unpack_weight(&block, 36, 16), ref_dequant_iq4_xs(&block, 1, 16));
}

#[test]
fn half_values() {
    assert_eq!(half_f16(0x3c00).to_f32_bits(), 1.0f32.to_bits());
    assert_eq!(half_f16(0x8001).to_f32_bits(), 0.0f32.to_bits());
    assert_eq!(half_f16(0x7c00).to_f32_bits(), f32::INFINITY.to_bits());
    assert!(f32::from_bits(half_f16(0x7c01).to_f32_bits()).is_nan());
}

#[test]
fn decimal_numbers() {
    let mut s = String::from("n=");
    text::push_decimal(&mut s, 0);
    text::push_decimal(&mut s, u64::MAX);
    assert_eq!(s, "n=018446744073709551615");
    let digits: Vec<char> = "18446744073709551615".chars().collect();
    assert_eq!(text::parse_number(&digits, u64::MAX), Some(u64::MAX));
    let plus: Vec<char> = "+42".chars().collect();
    assert_eq!(text::parse_number(&plus, 100), Some(42));
    assert_eq!(text::parse_number(&plus, 41), None);
    assert_eq!(text::parse_number(&['-', '1'], 100), None);
    assert_eq!(text::parse_number(&['+'], 100), None);
    assert_eq!(text::parse_number(&[], 100), None);
}

#[test]
fn words_and_trimming() {
    let s: Vec<char> = " \tone\u{a0}two \n three".chars().collect();
    assert_eq!(text::split_words(&s), vec!["one", "two", "three"]);
    assert_eq!(text::trim(&s[..5]), &['o', 'n', 'e']);
    let blank: Vec<char> = " \n ".chars().collect();
    assert!(text::trim(&blank).is_empty());
    assert!(text::split_words(&blank).is_empty());
}

#[test]
fn prefixes_and_places() {
    let s: Vec<char> = "POST /x".chars().collect();
    assert!(text::starts_with(&s, "POST"));
    assert!(text::starts_with(&s, ""));
    assert!(!text::starts_with(&s, "POST /x/"));
    assert_eq!(text::find_char(&s, '/'), 5);
    assert_eq!(text::find_char(&s, '?'), 7);
    let lower: String = text::to_ascii_lower(&s).into_iter().collect();
    assert_eq!(lower, "post /x");
}

#[test]
fn hexadecimal_list() {
    let mut s = String::new();
    text::push_hex_list(&mut s, &[0x47, 0x0a]);
    assert_eq!(s, "[47, 0a]");
}

#[test]
fn white_space_agrees_with_char() {
    for n in 0..=0x10ffffu32 {
        if let Some(c) = char::from_u32(n) {
            assert_eq!(text::is_white_space(c), c.is_whitespace());
        }
    }
}
