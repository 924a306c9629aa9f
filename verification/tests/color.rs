use palette_hub::color::unipolar_float_to_u8;
use palette_hub::Color;

/// What single-precision arithmetic gives for the same channel.
fn by_floats(bits: u32) -> u8 {
    (f32::from_bits(bits) * 255.).round() as u8
}

#[test]
fn zero_packs_to_zero() {
    assert_eq!(unipolar_float_to_u8(0.0f32.to_bits()), 0);
}

#[test]
fn one_packs_to_255() {
    assert_eq!(unipolar_float_to_u8(1.0f32.to_bits()), 255);
}

#[test]
fn half_packs_to_128() {
    assert_eq!(unipolar_float_to_u8(0.5f32.to_bits()), 128);
}

#[test]
fn packing_rounds_to_the_nearest_byte() {
    assert_eq!(unipolar_float_to_u8(0.001f32.to_bits()), 0);
    assert_eq!(unipolar_float_to_u8(0.002f32.to_bits()), 1);
    assert_eq!(unipolar_float_to_u8(0.25f32.to_bits()), 64);
    assert_eq!(unipolar_float_to_u8(0.75f32.to_bits()), 191);
    assert_eq!(unipolar_float_to_u8(0.99f32.to_bits()), 252);
    assert_eq!(unipolar_float_to_u8(0.999f32.to_bits()), 255);
}

#[test]
fn packing_keeps_within_the_byte() {
    assert_eq!(unipolar_float_to_u8(2.0f32.to_bits()), 255);
    assert_eq!(unipolar_float_to_u8(1.0e30f32.to_bits()), 255);
    assert_eq!(unipolar_float_to_u8(f32::MAX.to_bits()), 255);
    assert_eq!(unipolar_float_to_u8(f32::INFINITY.to_bits()), 255);
    assert_eq!(unipolar_float_to_u8((-0.0f32).to_bits()), 0);
    assert_eq!(unipolar_float_to_u8((-0.5f32).to_bits()), 0);
    assert_eq!(unipolar_float_to_u8((-3.0f32).to_bits()), 0);
    assert_eq!(unipolar_float_to_u8(f32::NEG_INFINITY.to_bits()), 0);
    assert_eq!(unipolar_float_to_u8(f32::NAN.to_bits()), 0);
    assert_eq!(unipolar_float_to_u8(0xffc0_0001), 0);
    assert_eq!(unipolar_float_to_u8(f32::MIN_POSITIVE.to_bits()), 0);
    assert_eq!(unipolar_float_to_u8(1), 0);
}

#[test]
fn packing_agrees_with_float_arithmetic_on_a_sweep_of_all_bit_patterns() {
    let mut bits: u32 = 0;
    loop {
        assert_eq!(unipolar_float_to_u8(bits), by_floats(bits), "bits {:#010x}", bits);
        match bits.checked_add(2039) {
            Some(next) => bits = next,
            None => break,
        }
    }
}

#[test]
fn packing_agrees_with_float_arithmetic_around_every_step() {
    for byte in 0u32..=256 {
        let edge = ((byte as f32 - 0.5) / 255.).to_bits();
        if edge >= 0x8000_0000 {
            continue;
        }
        let from = edge.saturating_sub(300);
        for bits in from..=edge + 300 {
            assert_eq!(unipolar_float_to_u8(bits), by_floats(bits), "bits {:#010x}", bits);
        }
    }
}

#[test]
fn packing_agrees_with_float_arithmetic_around_every_power_of_two() {
    for exponent in 0u32..=255 {
        let start = exponent << 23;
        for offset in 0u32..200 {
            for bits in [start + offset, (start | 0x7f_ffff) - offset, start + 0x40_0000 + offset] {
                assert_eq!(unipolar_float_to_u8(bits), by_floats(bits), "bits {:#010x}", bits);
                let negative = bits | 0x8000_0000;
                assert_eq!(unipolar_float_to_u8(negative), by_floats(negative));
            }
        }
    }
}

#[test]
fn packing_agrees_with_float_arithmetic_on_the_unit_interval() {
    let mut bits: u32 = 0x3a00_0000;
    while bits <= 0x3f80_0000 {
        assert_eq!(unipolar_float_to_u8(bits), by_floats(bits), "bits {:#010x}", bits);
        bits += 61;
    }
}

#[test]
fn a_color_packs_channel_by_channel() {
    let color = Color { red: 1.0f32.to_bits(), green: 0.5f32.to_bits(), blue: 0.0f32.to_bits() };
    assert_eq!(color.as_u8(), (255, 128, 0));
    let out_of_range =
        Color { red: 7.5f32.to_bits(), green: (-1.0f32).to_bits(), blue: 0.2f32.to_bits() };
    assert_eq!(out_of_range.as_u8(), (255, 0, 51));
}
