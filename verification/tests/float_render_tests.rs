use serlink::fixedpoint::{render_f32_bits, render_f64_bits};
use serlink::parser::parse_field_value;
use serlink::protocol::{ByteOrder, FieldType};

#[test]
fn f32_fields_render_with_six_fixed_digits() {
    let bytes = 1.5f32.to_be_bytes();
    assert_eq!(
        parse_field_value(&bytes, &FieldType::Float32, &ByteOrder::BigEndian),
        "1.500000"
    );
    let bytes = (-2.5f32).to_le_bytes();
    assert_eq!(
        parse_field_value(&bytes, &FieldType::Float32, &ByteOrder::LittleEndian),
        "-2.500000"
    );
}

#[test]
fn f64_fields_render_with_ten_fixed_digits() {
    let bytes = 0.1f64.to_be_bytes();
    assert_eq!(
        parse_field_value(&bytes, &FieldType::Float64, &ByteOrder::BigEndian),
        "0.1000000000"
    );
    let bytes = (1.0f64 / 3.0f64).to_le_bytes();
    assert_eq!(
        parse_field_value(&bytes, &FieldType::Float64, &ByteOrder::LittleEndian),
        "0.3333333333"
    );
}

#[test]
fn f32_rendering_agrees_with_the_standard_library() {
    let samples = [
        0.0f32,
        -0.0,
        1.0,
        -1.0,
        0.1,
        0.25,
        -0.375,
        1.5,
        100.0,
        123456.789,
        3.4028235e38,
        f32::MAX,
        f32::MIN,
        1.1754944e-38,
        1e-45,
        -1e-45,
        f32::INFINITY,
        f32::NEG_INFINITY,
        f32::NAN,
        65535.996,
        -7.0e-3,
        2.0e20,
    ];
    for v in samples {
        let expected = format!("{:.6}", v);
        let got = render_f32_bits(v.to_bits());
        assert_eq!(got, expected, "bits {:#010x}", v.to_bits());
    }
}

#[test]
fn f64_rendering_agrees_with_the_standard_library() {
    let samples = [
        0.0f64,
        -0.0,
        1.0,
        -1.0,
        0.1,
        0.25,
        -0.3125,
        1.5,
        1.0 / 3.0,
        1e300,
        f64::MAX,
        f64::MIN,
        5e-324,
        -5e-324,
        2.2250738585072014e-308,
        f64::INFINITY,
        f64::NEG_INFINITY,
        f64::NAN,
        9007199254740993.0,
        -6.25e-5,
    ];
    for v in samples {
        let expected = format!("{:.10}", v);
        let got = render_f64_bits(v.to_bits());
        assert_eq!(got, expected, "bits {:#018x}", v.to_bits());
    }
}

#[test]
fn f32_rendering_agrees_over_a_sweep_of_bit_patterns() {
    // A spread of bit patterns across exponent ranges, both signs.
    let mut bits: u32 = 0;
    loop {
        let v = f32::from_bits(bits);
        assert_eq!(render_f32_bits(bits), format!("{:.6}", v), "bits {:#010x}", bits);
        let neg = bits | 0x8000_0000;
        let nv = f32::from_bits(neg);
        assert_eq!(render_f32_bits(neg), format!("{:.6}", nv), "bits {:#010x}", neg);
        match bits.checked_add(0x00A0_1237) {
            Some(b) if b < 0x8000_0000 => bits = b,
            _ => break,
        }
    }
}
