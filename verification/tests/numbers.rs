use baeru::single::Single;

fn value(x: f32) -> Single {
    Single { bits: x.to_bits() }
}

/// Encodings of zeros, ones, ordinary, tiny and huge numbers, infinities and others.
fn samples() -> Vec<f32> {
    let mut list = vec![
        0.0,
        1.0,
        -1.0,
        0.5,
        0.1,
        0.55,
        0.45,
        2.5,
        -3.75,
        255.0,
        1e-3,
        1e10,
        -1e20,
        3.4e38,
        1e-38,
        1e-45,
        f32::MAX,
        f32::MIN_POSITIVE,
        f32::INFINITY,
        f32::NEG_INFINITY,
        16_777_215.0,
        16_777_217.0,
        0.333_333_34,
    ];
    let mut bits: u32 = 12345;
    for _ in 0..40 {
        bits = bits.wrapping_mul(1_664_525).wrapping_add(1_013_904_223);
        let x = f32::from_bits(bits);
        if !x.is_nan() {
            list.push(x);
        }
    }
    list
}

fn agree(ours: Single, native: f32, what: &str) {
    let x = f32::from_bits(ours.bits);
    if native.is_nan() {
        assert!(x.is_nan(), "{what}");
    } else if native == 0.0 {
        assert!(x == 0.0, "{what}: {x}");
    } else {
        assert_eq!(x.to_bits(), native.to_bits(), "{what}: {x} {native}");
    }
}

#[test]
fn arithmetic_is_native_arithmetic() {
    for a in samples() {
        for b in samples() {
            agree(value(a).plus(&value(b)), a + b, &format!("{a} + {b}"));
            agree(value(a).minus(&value(b)), a - b, &format!("{a} - {b}"));
            agree(value(a).times(&value(b)), a * b, &format!("{a} * {b}"));
            if b != 0.0 {
                agree(value(a).over(&value(b)), a / b, &format!("{a} / {b}"));
            }
            assert_eq!(value(a).is_less(&value(b)), a < b, "{a} < {b}");
            assert_eq!(value(a).is_at_most(&value(b)), a <= b, "{a} <= {b}");
            agree(value(a).or_larger(&value(b)), a.max(b), &format!("max {a} {b}"));
        }
        agree(value(a).clamp_to_one(), a.clamp(0.0, 1.0), &format!("clamp {a}"));
        agree(value(a).negate(), -a, &format!("-{a}"));
        assert_eq!(value(a).truncate_to(u64::MAX), a as u64, "{a} cut");
        assert_eq!(value(a).ceil_to(u64::MAX), a.ceil() as u64, "{a} up");
        assert_eq!(value(a).round_to(255), a.round().clamp(0.0, 255.0) as u64, "{a} rounded");
        assert_eq!(value(a).is_finite(), a.is_finite());
        assert_eq!(value(a).is_zero(), a == 0.0);
    }
}

#[test]
fn what_is_not_a_number_compares_with_nothing() {
    let nan = value(f32::NAN);
    assert!(nan.is_nan());
    assert!(!nan.is_less(&Single::one()));
    assert!(!nan.is_at_most(&nan));
    assert!(nan.plus(&Single::one()).is_nan());
    assert!(nan.clamp_to_one().is_nan());
    assert_eq!(nan.truncate_to(9), 0);
    agree(nan.or_larger(&Single::one()), 1.0, "max");
}

#[test]
fn whole_numbers_and_ratios_are_rounded_natively() {
    for n in [0u64, 1, 255, 16_777_217, 123_456_789_123, u64::MAX] {
        agree(Single::from_u64(n), n as f32, "whole");
        agree(Single::from_wide(n as u128), n as f32, "wide");
    }
    agree(Single::from_ratio(1, 10), 0.1, "0.1");
    agree(Single::from_ratio(98, 100), 0.98, "0.98");
    agree(Single::from_ratio(299, 1000), 0.299, "0.299");
    agree(Single::zero(), 0.0, "zero");
    agree(Single::one(), 1.0, "one");
}
