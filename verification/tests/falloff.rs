use islands::falloff::{exp_neg, EXP_CUTOFF, EXP_DENOMINATOR_LIMIT, EXP_NUMERATOR_LIMIT};
use islands::fixed::ONE;

#[test]
fn exponential_of_zero_is_exactly_one() {
    assert_eq!(exp_neg(0, 1), ONE);
    assert_eq!(exp_neg(0, 1000), ONE);
    assert_eq!(exp_neg(0, EXP_DENOMINATOR_LIMIT), ONE);
}

#[test]
fn exponential_values() {
    assert_eq!(exp_neg(1, 1000), 999_000);
    assert_eq!(exp_neg(500, 1000), 606_530);
    assert_eq!(exp_neg(1, 1), 367_879);
    assert_eq!(exp_neg(2, 1), 135_335);
    assert_eq!(exp_neg(4, 1), 18_315);
}

#[test]
fn exponential_vanishes_from_the_cutoff() {
    assert_eq!(exp_neg(15_999, 1000), 0);
    assert_eq!(exp_neg(EXP_CUTOFF, 1), 0);
    assert_eq!(exp_neg(EXP_CUTOFF * 1000, 1000), 0);
    assert_eq!(exp_neg(EXP_NUMERATOR_LIMIT, 1), 0);
    assert_eq!(exp_neg(EXP_NUMERATOR_LIMIT, EXP_DENOMINATOR_LIMIT), 0);
}

#[test]
fn exponential_is_within_a_millionth_of_the_real_one() {
    for num in 0..17_000u128 {
        let real = (-(num as f64) / 1000.0).exp() * ONE as f64;
        let got = exp_neg(num, 1000) as f64;
        assert!((got - real).abs() <= 1.0, "exponent {} / 1000", num);
    }
}

#[test]
fn exponential_does_not_grow() {
    let mut last = ONE;
    for num in 0..17_000u128 {
        let e = exp_neg(num, 1000);
        assert!(0 <= e && e <= last, "exponent {} / 1000", num);
        last = e;
    }
}

#[test]
fn exponential_depends_on_the_ratio() {
    assert_eq!(exp_neg(3, 2), exp_neg(1500, 1000));
    assert_eq!(exp_neg(1 << 60, 1 << 60), exp_neg(1, 1));
}
