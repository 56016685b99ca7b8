use soma_health::number::{Real32, Real64};

const SAMPLES: [f32; 30] = [
    0.0,
    -0.0,
    0.25,
    0.49999997,
    0.5,
    0.9999999,
    1.0,
    1.5,
    2.0,
    7.0,
    7.99,
    255.0,
    8388607.5,
    8388608.0,
    16777215.0,
    16777216.0,
    2147483648.0,
    4294967040.0,
    4294967296.0,
    1.0e20,
    f32::MAX,
    f32::INFINITY,
    f32::NEG_INFINITY,
    -0.5,
    -1.0,
    -3.7,
    f32::MIN_POSITIVE,
    1.0e-45,
    -1.1e-39,
    36.6,
];

#[test]
fn truncation_is_that_of_the_cast() {
    for x in SAMPLES {
        assert_eq!(Real32 { bits: x.to_bits() }.to_u32(), x as u32, "{x}");
    }
    assert_eq!(Real32 { bits: f32::NAN.to_bits() }.to_u32(), 0);
}

#[test]
fn half_is_the_threshold() {
    for x in SAMPLES {
        assert_eq!(Real32 { bits: x.to_bits() }.at_least_half(), x >= 0.5, "{x}");
    }
    assert!(!Real32 { bits: f32::NAN.to_bits() }.at_least_half());
}

#[test]
fn widening_is_that_of_the_cast() {
    for x in SAMPLES {
        let wide = Real32 { bits: x.to_bits() }.widen();
        assert_eq!(wide.bits, (x as f64).to_bits(), "{x}");
    }
    let nan = Real32 { bits: f32::NAN.to_bits() }.widen();
    assert!(f64::from_bits(nan.bits).is_nan());
    let signalling = Real32 { bits: 0xFF80_0001 }.widen();
    assert_eq!(signalling.bits, 0xFFF8_0000_2000_0000);
}

#[test]
fn widening_is_that_of_the_cast_across_all_exponents() {
    let mut bits: u32 = 0;
    while bits < 0x7F80_0000 {
        let x = f32::from_bits(bits);
        assert_eq!(Real32 { bits }.widen().bits, (x as f64).to_bits());
        assert_eq!(Real32 { bits }.to_u32(), x as u32);
        assert_eq!(Real32 { bits }.at_least_half(), x >= 0.5);
        let negative = bits | 0x8000_0000;
        let y = f32::from_bits(negative);
        assert_eq!(Real32 { bits: negative }.widen().bits, (y as f64).to_bits());
        assert_eq!(Real32 { bits: negative }.to_u32(), y as u32);
        bits += 104_729;
    }
}

#[test]
fn zero_is_the_threshold() {
    for x in SAMPLES {
        let y = x as f64;
        assert_eq!(Real64 { bits: y.to_bits() }.at_least_zero(), y >= 0.0, "{x}");
    }
    assert!(!Real64 { bits: f64::NAN.to_bits() }.at_least_zero());
    assert!(!Real64 { bits: (-f64::NAN).to_bits() }.at_least_zero());
}

#[test]
fn default_number_is_zero() {
    assert_eq!(Real32::default(), Real32 { bits: 0 });
}
