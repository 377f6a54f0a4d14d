use lazor::Number;

fn num(x: f64) -> Number {
    Number::from_bits(x.to_bits())
}

fn value(n: Number) -> f64 {
    f64::from_bits(n.bits)
}

/// Some numbers of every kind, and what is no number.
fn samples() -> Vec<f64> {
    let mut all = vec![
        0.0,
        5.0e-324,
        2.2250738585072009e-308,
        2.2250738585072014e-308,
        1.0e-300,
        0.1,
        0.2,
        0.25,
        0.49999999999999994,
        0.5,
        0.5000000000000001,
        0.75,
        1.0,
        1.4999999999999998,
        1.5,
        2.5,
        75.0,
        147.5,
        148.1,
        254.49999999999997,
        254.5,
        255.0,
        255.49999999999997,
        255.5,
        256.0,
        1000000.0,
        4503599627370496.0,
        9007199254740993.0,
        1.0e300,
        f64::MAX,
        f64::INFINITY,
    ];
    let negative: Vec<f64> = all.iter().map(|x| -x).collect();
    all.extend(negative);
    all.push(f64::NAN);
    all.push(-f64::NAN);
    all.push(f64::from_bits(0x7ff0_0000_0000_0001));
    all.push(f64::from_bits(0xffff_ffff_ffff_ffff));
    all
}

/// A sequence of bit patterns that runs through all exponents.
fn scattered(count: usize) -> Vec<u64> {
    let mut state: u64 = 0x9e37_79b9_7f4a_7c15;
    let mut all = Vec::new();
    for _ in 0..count {
        state = state.wrapping_mul(6364136223846793005).wrapping_add(1442695040888963407);
        all.push(state ^ (state >> 29));
    }
    all
}

#[test]
fn from_bits_keeps_the_bits() {
    assert_eq!(Number::from_bits(0).bits, 0);
    assert_eq!(Number::from_bits(u64::MAX).bits, u64::MAX);
    assert_eq!(num(1.0).bits, 0x3ff0_0000_0000_0000);
    assert_eq!(Number::zero().bits, 0);
    assert_eq!(value(Number::zero()), 0.0);
    assert_eq!(num(-2.5), Number { bits: 0xc004_0000_0000_0000 });
    assert_ne!(num(0.0), num(-0.0));
}

#[test]
fn what_is_no_number() {
    for x in samples() {
        assert_eq!(num(x).is_nan(), x.is_nan());
    }
    for bits in scattered(20000) {
        assert_eq!(Number::from_bits(bits).is_nan(), f64::from_bits(bits).is_nan());
    }
    assert!(!num(f64::INFINITY).is_nan());
    assert!(!num(f64::NEG_INFINITY).is_nan());
    assert!(Number::from_bits(0x7ff0_0000_0000_0001).is_nan());
    assert!(Number::from_bits(0xfff0_0000_0000_0001).is_nan());
}

#[test]
fn absolute_values() {
    for x in samples() {
        assert_eq!(num(x).abs().bits, x.abs().to_bits());
    }
    for bits in scattered(20000) {
        assert_eq!(Number::from_bits(bits).abs().bits, f64::from_bits(bits).abs().to_bits());
    }
}

#[test]
fn less_than_is_the_order_of_the_numbers() {
    for a in samples() {
        for b in samples() {
            assert_eq!(num(a).less_than(num(b)), a < b);
        }
    }
    let bits = scattered(600);
    for a in &bits {
        for b in &bits {
            let less = Number::from_bits(*a).less_than(Number::from_bits(*b));
            assert_eq!(less, f64::from_bits(*a) < f64::from_bits(*b));
        }
    }
}

#[test]
fn zeros_are_equal_and_nothing_compares_with_no_number() {
    assert!(!num(-0.0).less_than(num(0.0)));
    assert!(!num(0.0).less_than(num(-0.0)));
    assert!(num(-5.0e-324).less_than(num(-0.0)));
    assert!(num(-0.0).less_than(num(5.0e-324)));
    assert!(!num(f64::NAN).less_than(num(1.0)));
    assert!(!num(1.0).less_than(num(f64::NAN)));
    assert!(!num(f64::NAN).less_than(num(f64::NAN)));
    assert!(!num(f64::NAN).less_than(num(f64::INFINITY)));
    assert!(!num(f64::NEG_INFINITY).less_than(num(-f64::NAN)));
    assert!(num(f64::NEG_INFINITY).less_than(num(f64::INFINITY)));
    assert!(num(f64::MAX).less_than(num(f64::INFINITY)));
}

#[test]
fn the_larger_and_the_smaller() {
    for a in samples() {
        for b in samples() {
            let larger = value(Number::larger(num(a), num(b)));
            let smaller = value(Number::smaller(num(a), num(b)));
            if a.is_nan() && b.is_nan() {
                assert!(larger.is_nan() && smaller.is_nan());
            } else {
                // equal as numbers; which of two zeros is taken is left open
                assert_eq!(larger, a.max(b));
                assert_eq!(smaller, a.min(b));
            }
        }
    }
    assert_eq!(Number::larger(num(0.2), num(0.74)), num(0.74));
    assert_eq!(Number::larger(num(0.2), num(-0.3)), num(0.2));
    assert_eq!(Number::larger(num(f64::NAN), num(0.2)), num(0.2));
    assert_eq!(Number::larger(num(0.2), num(f64::NAN)), num(0.2));
    assert_eq!(Number::smaller(num(75.0), num(125.0)), num(75.0));
    assert_eq!(Number::smaller(num(f64::NAN), num(125.0)), num(125.0));
    // of equal numbers the first
    assert_eq!(Number::larger(num(0.0), num(-0.0)), num(0.0));
    assert_eq!(Number::larger(num(-0.0), num(0.0)), num(-0.0));
    assert_eq!(Number::smaller(num(-0.0), num(0.0)), num(-0.0));
}

#[test]
fn channels_of_whole_numbers() {
    for c in 0..=255u32 {
        assert_eq!(num(c as f64).to_channel() as u32, c);
    }
    for c in 256..2000u32 {
        assert_eq!(num(c as f64).to_channel(), 255);
    }
}

#[test]
fn channels_are_rounded_to_the_nearest() {
    assert_eq!(num(147.4).to_channel(), 147);
    assert_eq!(num(147.6).to_channel(), 148);
    assert_eq!(num(148.12130691231).to_channel(), 148);
    assert_eq!(num(0.49999999999999994).to_channel(), 0);
    assert_eq!(num(254.49999999999997).to_channel(), 254);
    assert_eq!(num(1.0e-300).to_channel(), 0);
    assert_eq!(num(5.0e-324).to_channel(), 0);
}

#[test]
fn a_tie_goes_away_from_zero() {
    assert_eq!(num(0.5).to_channel(), 1);
    assert_eq!(num(1.5).to_channel(), 2);
    assert_eq!(num(2.5).to_channel(), 3);
    assert_eq!(num(127.5).to_channel(), 128);
    assert_eq!(num(254.5).to_channel(), 255);
    for c in 0..255u32 {
        assert_eq!(num(c as f64 + 0.5).to_channel() as u32, c + 1);
    }
}

#[test]
fn channels_are_cut_off_at_both_ends() {
    assert_eq!(num(255.49999999999997).to_channel(), 255);
    assert_eq!(num(255.5).to_channel(), 255);
    assert_eq!(num(256.0).to_channel(), 255);
    assert_eq!(num(1.0e300).to_channel(), 255);
    assert_eq!(num(f64::INFINITY).to_channel(), 255);
    assert_eq!(num(-0.0).to_channel(), 0);
    assert_eq!(num(-0.4).to_channel(), 0);
    assert_eq!(num(-0.5).to_channel(), 0);
    assert_eq!(num(-200.0).to_channel(), 0);
    assert_eq!(num(f64::NEG_INFINITY).to_channel(), 0);
    assert_eq!(num(f64::NAN).to_channel(), 0);
    assert_eq!(num(-f64::NAN).to_channel(), 0);
}

#[test]
fn channels_agree_with_rounding_in_floating_point() {
    for x in samples() {
        assert_eq!(num(x).to_channel(), x.round() as u8);
    }
    for bits in scattered(200000) {
        assert_eq!(Number::from_bits(bits).to_channel(), f64::from_bits(bits).round() as u8);
    }
    // all products of a channel and a brightness, and their neighbours
    for c in 0..=255u32 {
        for step in 0..=400u32 {
            let product = (c as f64) * (step as f64 / 400.0 * 1.25);
            for near in [product, f64::from_bits(product.to_bits() + 1), -product] {
                assert_eq!(num(near).to_channel(), near.round() as u8);
            }
        }
    }
    // just below, at and just above every half
    for c in 0..300u64 {
        let half = c as f64 + 0.5;
        for bits in [half.to_bits() - 1, half.to_bits(), half.to_bits() + 1] {
            assert_eq!(Number::from_bits(bits).to_channel(), f64::from_bits(bits).round() as u8);
        }
    }
}
