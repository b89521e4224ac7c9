use lattice_pi::error::CountError;
use lattice_pi::estimate::{approximate_pi, estimate_from_count, PiEstimate};

fn as_float(estimate: PiEstimate) -> f64 {
    estimate.numerator as f64 / estimate.denominator as f64
}

fn absolute_error(n: i64) -> f64 {
    (as_float(approximate_pi(n, 4).unwrap()) - std::f64::consts::PI).abs()
}

#[test]
fn estimate_for_radius_one_is_twelve_over_one() {
    let estimate: PiEstimate = approximate_pi(1, 1).unwrap();
    assert_eq!(estimate, PiEstimate { numerator: 12, denominator: 1 });
    assert_eq!(as_float(estimate), 12.0);
}

#[test]
fn estimate_for_radius_two_is_twenty_four_over_four() {
    let estimate: PiEstimate = approximate_pi(2, 1).unwrap();
    assert_eq!(estimate, PiEstimate { numerator: 24, denominator: 4 });
    assert_eq!(as_float(estimate), 6.0);
}

#[test]
fn estimate_for_radius_zero_has_no_denominator() {
    assert_eq!(approximate_pi(0, 1), Ok(PiEstimate { numerator: 4, denominator: 0 }));
}

#[test]
fn estimate_for_radius_one_thousand() {
    assert_eq!(
        approximate_pi(1_000, 3),
        Ok(PiEstimate { numerator: 3_145_552, denominator: 1_000_000 })
    );
}

#[test]
fn estimate_does_not_depend_on_thread_count() {
    let workers: [i64; 4] = [1, 2, 3, 7];
    for k in workers {
        assert_eq!(
            approximate_pi(100, k),
            Ok(PiEstimate { numerator: 31_820, denominator: 10_000 })
        );
    }
}

#[test]
fn estimate_error_shrinks_as_the_radius_grows() {
    let at_thousand: f64 = absolute_error(1_000);
    let at_hundred_thousand: f64 = absolute_error(100_000);
    let at_million: f64 = absolute_error(1_000_000);
    assert!(at_thousand < 0.004);
    assert!(at_hundred_thousand < at_thousand);
    assert!(at_million < at_hundred_thousand);
    assert!(at_million < 0.000_004);
}

#[test]
fn estimate_rejects_invalid_configuration() {
    assert_eq!(approximate_pi(-1, 1), Err(CountError::InvalidConfiguration));
    assert_eq!(approximate_pi(10, 0), Err(CountError::InvalidConfiguration));
}

#[test]
fn estimate_from_a_given_count() {
    assert_eq!(estimate_from_count(10, 90), Ok(PiEstimate { numerator: 360, denominator: 100 }));
    assert_eq!(
        estimate_from_count(10_000_000_000, 78_539_816_345_380_287_906),
        Ok(PiEstimate {
            numerator: 314_159_265_381_521_151_624,
            denominator: 100_000_000_000_000_000_000,
        })
    );
}

#[test]
fn estimate_from_count_rejects_negative_radius() {
    assert_eq!(estimate_from_count(-3, 90), Err(CountError::InvalidConfiguration));
    assert_eq!(estimate_from_count(-3, u128::MAX), Err(CountError::InvalidConfiguration));
}

#[test]
fn estimate_from_count_reports_overflow() {
    assert_eq!(estimate_from_count(3, u128::MAX), Err(CountError::ArithmeticOverflow));
    assert_eq!(
        estimate_from_count(3, 85_070_591_730_234_615_865_843_651_857_942_052_864),
        Err(CountError::ArithmeticOverflow)
    );
    assert_eq!(
        estimate_from_count(3, 85_070_591_730_234_615_865_843_651_857_942_052_863),
        Ok(PiEstimate {
            numerator: 340_282_366_920_938_463_463_374_607_431_768_211_452,
            denominator: 9,
        })
    );
}
