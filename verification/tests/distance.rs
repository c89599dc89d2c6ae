use triangle_gator::rat::Rat;
use triangle_gator::trilateration_calc::{NetInfo, SolveError, TrilaterationCalculator};

#[test]
fn exponent_matches_the_path_loss_formula() {
    // tx = 15 dBm, rx = -38 dBm, n = 2.5: the exponent is
    // (15 - (-38)) / 25 = 53/25 = 2.12 exactly
    let mut calc = TrilaterationCalculator::default();
    calc.set_path_loss_exponent(Rat::new(25, 10));
    let info = NetInfo { tx_power: Some(Rat::new(15, 1)), measured_power: Some(Rat::new(-38, 1)) };
    let e = calc.distance_exponent(&info).unwrap();
    assert!(e.den > 0);
    assert_eq!(e.num * 25, 53 * e.den);
    // the estimated distance 10^2.12 is about 131.8 (the power of ten is
    // evaluated outside the exact pipeline)
    let distance = 10f64.powf(e.num as f64 / e.den as f64);
    assert!((distance - 131.8).abs() < 0.1, "distance was {distance}");
}

#[test]
fn exponent_decreases_as_the_model_constant_grows() {
    let info = NetInfo { tx_power: Some(Rat::new(15, 1)), measured_power: Some(Rat::new(-38, 1)) };
    let mut calc = TrilaterationCalculator::default();
    calc.set_path_loss_exponent(Rat::new(2, 1));
    let e_low = calc.distance_exponent(&info).unwrap();
    calc.set_path_loss_exponent(Rat::new(5, 1));
    let e_high = calc.distance_exponent(&info).unwrap();
    // e_high < e_low by cross-multiplication (both denominators positive)
    assert!(e_high.num * e_low.den < e_low.num * e_high.den);
}

#[test]
fn incomplete_measurement_has_no_exponent() {
    let calc = TrilaterationCalculator::default();
    let info = NetInfo { tx_power: None, measured_power: Some(Rat::new(-38, 1)) };
    assert_eq!(calc.distance_exponent(&info), Err(SolveError::MissingMeasurement));
    let info = NetInfo { tx_power: Some(Rat::new(15, 1)), measured_power: None };
    assert_eq!(calc.distance_exponent(&info), Err(SolveError::MissingMeasurement));
}

#[test]
fn averaged_measurements_feed_the_exponent_exactly() {
    // an average with denominator 5 combines exactly: tx = 75/5, rx = -200/5
    let info = NetInfo {
        tx_power: Some(Rat::new(75, 5)),
        measured_power: Some(Rat::new(-200, 5)),
    };
    let mut calc = TrilaterationCalculator::default();
    calc.set_path_loss_exponent(Rat::new(25, 10));
    let e = calc.distance_exponent(&info).unwrap();
    // (15 - (-40)) / 25 = 55/25 = 2.2
    assert_eq!(e.num * 10, 22 * e.den);
}
