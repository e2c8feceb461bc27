use render_backend::geometry::{DeviceSize, Size2D};
use render_backend::scalar::Scalar;

fn s(value: f32) -> Scalar {
    Scalar { bits: value.to_bits() }
}

const SAMPLES: [f32; 24] = [
    0.0,
    -0.0,
    1.0,
    -1.0,
    0.5,
    -0.5,
    0.999_999_9,
    1.5,
    2.75,
    -2.75,
    3.0,
    255.0,
    256.5,
    8_388_607.5,
    8_388_608.0,
    16_777_216.0,
    16_777_218.0,
    2_147_483_648.0,
    4_294_967_040.0,
    4_294_967_296.0,
    1.0e-40,
    -1.0e-40,
    f32::INFINITY,
    f32::NEG_INFINITY,
];

#[test]
fn comparisons_agree_with_numbers() {
    for a in SAMPLES {
        for b in SAMPLES {
            assert_eq!(s(a).less_than(s(b)), a < b);
            assert_eq!(s(a).at_most(s(b)), a <= b);
            assert_eq!(s(a).equals(s(b)), a == b);
        }
    }
}

#[test]
fn nothing_compares_with_no_number() {
    let nan = s(f32::NAN);
    assert!(nan.is_nan());
    for a in SAMPLES {
        assert!(!s(a).is_nan());
        assert!(!s(a).less_than(nan));
        assert!(!nan.less_than(s(a)));
        assert!(!nan.at_most(s(a)));
        assert!(!nan.equals(s(a)));
    }
    assert!(!nan.equals(nan));
}

#[test]
fn whole_parts_agree_with_casts() {
    for a in SAMPLES {
        assert_eq!(s(a).to_u32(), a as u32);
    }
    assert_eq!(s(f32::NAN).to_u32(), 0);
    assert_eq!(s(2.75).to_u32(), 2);
    assert_eq!(s(16_777_218.0).to_u32(), 16_777_218);
    assert_eq!(s(1.0e20).to_u32(), u32::MAX);
    assert_eq!(s(-3.5).to_u32(), 0);
    let size = Size2D { width: s(640.9), height: s(480.0) };
    assert_eq!(size.to_device(), DeviceSize { width: 640, height: 480 });
}

#[test]
fn smaller_of_two() {
    assert_eq!(s(1.0).min(s(2.0)), s(1.0));
    assert_eq!(s(2.0).min(s(-1.0)), s(-1.0));
    assert_eq!(s(f32::NAN).min(s(2.0)), s(2.0));
    assert_eq!(s(2.0).min(s(f32::NAN)), s(2.0));
}

#[test]
fn larger_magnitudes_are_larger_numbers() {
    let mut bits = 0u32;
    while bits < 0x7f00_0000 {
        let next = bits + 0x0001_2345;
        assert!(Scalar { bits }.less_than(Scalar { bits: next }));
        bits = next;
    }
}
