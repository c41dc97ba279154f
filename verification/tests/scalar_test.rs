use construct_engine::remainder::Remainder;
use construct_engine::scalar::{
    abs, apply, clamp, count, flag, is_finite, max_of, negate, ratio, signed, whole, widen,
};

#[test]
fn constants_are_those_of_the_number_type() {
    assert_eq!(whole::<f32>(-5120), -5120.0);
    assert_eq!(ratio::<f32>(9315, 100), 93.15);
    assert_eq!(ratio::<f64>(12, 10), 1.2);
    assert_eq!(flag::<f32>(true), 1.0);
    assert_eq!(flag::<f64>(false), 0.0);
    assert_eq!(count::<f64>(123_456_789_012), 123_456_789_012.0);
    for n in [0u64, 16383, 16384, 36000, 16_777_217, 4_294_967_295] {
        assert_eq!(count::<f32>(n), n as f32);
    }
    assert_eq!(signed::<f32>(-2_147_483_648), i32::MIN as f32);
    assert_eq!(signed::<f64>(7), 7.0);
}

#[test]
fn undefined_numbers_are_handled_as_by_std() {
    for a in [1.0f32, -1.0, f32::NAN, f32::INFINITY] {
        for b in [0.5f32, f32::NAN, f32::NEG_INFINITY] {
            let (x, y) = (max_of(a, b), a.max(b));
            assert!(x == y || (x.is_nan() && y.is_nan()));
        }
        assert_eq!(is_finite(a), a.is_finite());
        let (x, y) = (clamp(a, 0.0, 1.0), a.clamp(0.0, 1.0));
        assert!(x == y || (x.is_nan() && y.is_nan()));
    }
    assert_eq!(abs(-3.5f32), 3.5);
    assert_eq!(negate(2.0f64), -2.0);
    assert_eq!(widen::<f32, f64>(0.1), 0.1f32 as f64);
    assert_eq!(apply(&|x: f32| x * 2.0, 4.0), 8.0);
}

#[test]
fn remainders_compute_modulo_three() {
    let r = |n: i32| Remainder::new(n);
    for a in -4..5i32 {
        for b in -4..5i32 {
            assert_eq!((r(a) + r(b)).get(), (a + b).rem_euclid(3));
            assert_eq!((r(a) - r(b)).get(), (a - b).rem_euclid(3));
            assert_eq!((r(a) * r(b)).get(), (a * b).rem_euclid(3));
            if b % 3 != 0 {
                assert!(r(a) / r(b) * r(b) == r(a));
            }
            assert_eq!(r(a) < r(b), a.rem_euclid(3) < b.rem_euclid(3));
        }
        assert_eq!((-r(a)).get(), (-a).rem_euclid(3));
        assert!(whole::<Remainder>(a as i16) == r(a));
    }
}
