use meetily_speakers::double::Double;

fn double(x: f64) -> Double {
    Double { bits: x.to_bits() }
}

fn same(d: Double, x: f64) -> bool {
    let y = f64::from_bits(d.bits);
    y == x || (y.is_nan() && x.is_nan())
}

/// Numbers of all sizes, from a fixed sequence, with the awkward ones in front.
fn samples() -> Vec<f64> {
    let mut v = vec![
        0.0, -0.0, 1.0, -1.0, 0.5, 0.1, -0.1, 0.3, 2.0, 3.0, 59.996, 1e-300, 1e300, 5e-324, -5e-324,
        f64::MIN_POSITIVE, f64::MAX, f64::MIN, f64::EPSILON, 4503599627370496.5, 9007199254740993.0,
        9007199254740992.0, 1.7976931348623155e308, 2.2250738585072011e-308, f64::INFINITY,
        f64::NEG_INFINITY, f64::NAN, 18446744073709551615.0, 0.49999999999999994, 1.5, 2.5, 1e16,
    ];
    let mut state: u64 = 0x9e37_79b9_7f4a_7c15;
    for i in 0..300 {
        state = state.wrapping_mul(6364136223846793005).wrapping_add(1442695040888963407);
        if i % 2 == 0 {
            v.push(f64::from_bits(state));
        } else {
            v.push((state >> 11) as f64 / 1e9 - 4e6);
        }
    }
    v
}

#[test]
fn sums_and_differences_match_the_machine() {
    let v = samples();
    for a in &v {
        for b in &v {
            assert!(same(double(*a).plus(&double(*b)), a + b), "{:e} + {:e}", a, b);
            assert!(same(double(*a).minus(&double(*b)), a - b), "{:e} - {:e}", a, b);
        }
    }
}

#[test]
fn comparisons_match_the_machine() {
    let v = samples();
    for a in &v {
        for b in &v {
            assert_eq!(double(*a).lt(&double(*b)), a < b);
            assert_eq!(double(*a).le(&double(*b)), a <= b);
            assert!(same(double(*a).max(&double(*b)), a.max(*b)));
            assert!(same(double(*a).min(&double(*b)), a.min(*b)));
        }
        assert_eq!(double(*a).is_nan(), a.is_nan());
        assert!(same(double(*a).negate(), -a));
    }
}

#[test]
fn products_match_the_machine() {
    let factors = [0_u32, 1, 2, 3, 7, 100, 16_000, 44_100, 48_000, 65_537, u32::MAX];
    for a in samples() {
        for k in factors {
            assert!(same(double(a).times(k), a * k as f64), "{:e} * {}", a, k);
        }
    }
}

#[test]
fn quotients_match_the_machine() {
    let numbers = [
        0_u64, 1, 2, 3, 5, 7, 10, 12_345, 48_000, 1 << 31, 1 << 52, (1 << 53) + 1, u64::MAX / 3, u64::MAX - 1,
        u64::MAX,
    ];
    for n in numbers {
        assert!(same(Double::from_whole(n), n as f64));
        for d in numbers {
            if d > 0 {
                assert!(same(Double::divide(n, d), n as f64 / d as f64), "{} / {}", n, d);
            }
        }
    }
}

#[test]
fn whole_numbers_match_the_machine() {
    for a in samples() {
        assert_eq!(double(a).round_within(u64::MAX), a.round() as u64);
        assert_eq!(double(a).truncate_within(u64::MAX), a as u64);
        assert_eq!(double(a).truncate_within(u32::MAX as u64), a as u32 as u64);
    }
}

#[test]
fn differences_have_the_sign_of_the_order() {
    let v = samples();
    for a in &v {
        for b in &v {
            let d = double(*a).minus(&double(*b));
            assert_eq!(double(0.0).lt(&d), b < a);
        }
    }
}
