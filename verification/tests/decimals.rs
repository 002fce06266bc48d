use std::str::FromStr;

use matching_engine::models::decimal::{Decimal, Relation, MAX_MANTISSA, MAX_SCALE};

fn dec(text: &str) -> Decimal {
    let d = rust_decimal::Decimal::from_str(text).unwrap();
    Decimal::new(d.mantissa(), d.scale()).unwrap()
}

fn outside(d: Decimal) -> rust_decimal::Decimal {
    rust_decimal::Decimal::from_i128_with_scale(d.mantissa(), d.scale())
}

#[test]
fn new_accepts_exactly_the_representable_numbers() {
    assert!(Decimal::new(MAX_MANTISSA, MAX_SCALE).is_some());
    assert!(Decimal::new(-MAX_MANTISSA, 0).is_some());
    assert!(Decimal::new(MAX_MANTISSA + 1, 0).is_none());
    assert!(Decimal::new(-MAX_MANTISSA - 1, 0).is_none());
    assert!(Decimal::new(1, MAX_SCALE + 1).is_none());
    let d = Decimal::new(-12345, 3).unwrap();
    assert_eq!(d.mantissa(), -12345);
    assert_eq!(d.scale(), 3);
    assert_eq!(outside(d).to_string(), "-12.345");
}

#[test]
fn zero_and_max_are_what_the_arithmetic_calls_them() {
    assert_eq!(outside(Decimal::zero()), rust_decimal::Decimal::ZERO);
    assert_eq!(outside(Decimal::max()), rust_decimal::Decimal::MAX);
    assert!(Decimal::zero().is_zero());
    assert!(dec("0.000").is_zero());
    assert!(!dec("0.001").is_zero());
    assert!(!Decimal::max().is_zero());
}

#[test]
fn relation_compares_values_whatever_the_scales() {
    assert_eq!(dec("1.0").relation_to(dec("1.00")), Relation::Equal);
    assert_eq!(dec("1.5").relation_to(dec("2")), Relation::Less);
    assert_eq!(dec("2").relation_to(dec("1.5")), Relation::Greater);
    assert_eq!(dec("-3").relation_to(dec("0.0001")), Relation::Less);
    assert_eq!(dec("-0.1").relation_to(dec("-0.11")), Relation::Greater);
    assert_eq!(
        Decimal::max().relation_to(dec("0.0000000000000000000000000001")),
        Relation::Greater
    );
    assert_eq!(
        dec("0.0000000000000000000000000001").relation_to(Decimal::max()),
        Relation::Less
    );
}

#[test]
fn min_is_the_smaller_and_the_first_of_equals() {
    let small = dec("1.50");
    let large = dec("2");
    assert_eq!(small.min(large).mantissa(), 150);
    assert_eq!(large.min(small).mantissa(), 150);
    let a = dec("1.0");
    let b = dec("1.00");
    assert_eq!(a.min(b).scale(), 1);
    assert_eq!(b.min(a).scale(), 2);
    assert_eq!(outside(a.min(b)), outside(a).min(outside(b)));
}

#[test]
fn minus_subtracts() {
    let d = dec("3.00").minus(dec("1")).unwrap();
    assert_eq!(outside(d).to_string(), "2.00");
    let d = dec("1").minus(dec("2.5")).unwrap();
    assert_eq!(outside(d).to_string(), "-1.5");
    assert!(Decimal::max().minus(dec("-1")).is_none());
    assert!(dec("5").minus(dec("5.000")).unwrap().is_zero());
}

#[test]
fn times_multiplies() {
    let d = dec("1.5").times(dec("0.25")).unwrap();
    assert_eq!(outside(d).to_string(), "0.375");
    assert!(Decimal::max().times(dec("2")).is_none());
    assert!(dec("0").times(Decimal::max()).unwrap().is_zero());
}

#[test]
fn divided_by_divides() {
    let d = dec("10").divided_by(dec("4")).unwrap();
    assert_eq!(outside(d), outside(dec("2.5")));
    assert_eq!(d.relation_to(dec("2.5")), Relation::Equal);
    let third = dec("1").divided_by(dec("3")).unwrap();
    assert_eq!(outside(third).to_string(), "0.3333333333333333333333333333");
    assert!(dec("1").divided_by(dec("0")).is_none());
    assert!(Decimal::max().divided_by(dec("0.1")).is_none());
}

#[test]
fn truncated_cuts_without_rounding() {
    let d = dec("3.14159").truncated(2).unwrap();
    assert_eq!(outside(d).to_string(), "3.14");
    let d = dec("-1.98765").truncated(1).unwrap();
    assert_eq!(outside(d).to_string(), "-1.9");
    let d = dec("0.00009").truncated(4).unwrap();
    assert!(d.is_zero());
    let d = dec("2.5").truncated(8).unwrap();
    assert_eq!(outside(d), outside(dec("2.5")));
    // beyond 28 places the arithmetic may answer with more places than a number can have
    assert!(dec("0.1").truncated(29).is_none());
    let d = dec("2").truncated(29).unwrap();
    assert_eq!(d.relation_to(dec("2")), Relation::Equal);
}

fn samples() -> Vec<Decimal> {
    let mantissas: [i128; 12] = [
        0,
        1,
        2,
        5,
        10,
        99,
        4294967295,
        4294967296,
        18446744073709551615,
        18446744073709551616,
        MAX_MANTISSA - 1,
        MAX_MANTISSA,
    ];
    let scales: [u32; 8] = [0, 1, 2, 9, 10, 19, 27, 28];
    let mut all = Vec::new();
    for m in mantissas {
        for s in scales {
            all.push(Decimal::new(m, s).unwrap());
        }
    }
    all
}

#[test]
fn taking_no_more_than_there_is_leaves_a_difference_that_is_zero_only_for_equals() {
    let all = samples();
    let zero = Decimal::zero();
    let mut pairs = 0u32;
    for a in &all {
        for b in &all {
            if b.relation_to(*a) == Relation::Greater {
                continue;
            }
            pairs += 1;
            let left = a.minus(*b);
            assert!(left.is_some(), "{:?} - {:?}", a, b);
            let left = left.unwrap();
            assert!(left.relation_to(zero) != Relation::Less, "{:?} - {:?}", a, b);
            assert_eq!(
                left.is_zero(),
                a.relation_to(*b) == Relation::Equal,
                "{:?} - {:?}",
                a,
                b
            );
        }
    }
    assert!(pairs > 4000);
}

#[test]
fn results_stay_within_the_representable_numbers() {
    let all = samples();
    for a in &all {
        for b in &all {
            for r in [a.minus(*b), a.times(*b), a.divided_by(*b)] {
                if let Some(d) = r {
                    assert!(Decimal::new(d.mantissa(), d.scale()).is_some());
                }
            }
        }
        for places in [0u32, 4, 28] {
            let t = a.truncated(places).unwrap();
            assert!(Decimal::new(t.mantissa(), t.scale()).is_some());
        }
    }
}

#[test]
fn a_difference_may_round_back_to_what_was_there() {
    let tiny = dec("0.0000000000000000000000000001");
    let left = Decimal::max().minus(tiny).unwrap();
    assert_eq!(left.relation_to(Decimal::max()), Relation::Equal);
    assert!(!left.is_zero());
}

#[test]
fn zero_divides_to_zero_and_nothing_divides_by_zero() {
    let all = samples();
    for a in &all {
        for b in &all {
            let q = a.divided_by(*b);
            if b.is_zero() {
                assert!(q.is_none(), "{:?} / {:?}", a, b);
            } else if a.is_zero() {
                assert!(q.unwrap().is_zero(), "{:?} / {:?}", a, b);
            }
        }
    }
}

#[test]
fn truncation_cuts_towards_zero() {
    let mut all = samples();
    let negatives: Vec<Decimal> =
        all.iter().map(|d| Decimal::new(-d.mantissa(), d.scale()).unwrap()).collect();
    all.extend(negatives);
    let one = rust_decimal::Decimal::ONE;
    let ten = rust_decimal::Decimal::TEN;
    for x in &all {
        for places in [0u32, 1, 2, 4, 8, 9, 10, 18, 19, 27, 28, 29, 1000, u32::MAX] {
            let r = match x.truncated(places) {
                Some(r) => outside(r),
                None => {
                    assert!(places > 28, "{:?} at {}", x, places);
                    continue;
                }
            };
            let x = outside(*x);
            // towards zero: the same sign and no larger
            assert!(r.abs() <= x.abs(), "{} at {}", x, places);
            assert!(r.is_zero() || r.is_sign_negative() == x.is_sign_negative());
            if places >= x.scale() {
                assert_eq!(r, x, "{} at {}", x, places);
            } else {
                // a whole number of steps, less than one step away
                assert!(r.scale() <= places, "{} at {}", x, places);
                let mut step = one;
                for _ in 0..places {
                    step = step / ten;
                }
                assert!(x.abs() - r.abs() < step, "{} at {}", x, places);
            }
        }
    }
}
