use triangle_gator::rat::Rat;
use triangle_gator::trilateration_calc::{
    NetInfo, Point, SolveError, TrilaterationCalculator,
};

fn measured_info() -> Option<NetInfo> {
    Some(NetInfo { tx_power: Some(Rat::new(15, 1)), measured_power: Some(Rat::new(-40, 1)) })
}

fn rat_value_eq(a: &Rat, num: i128, den: i128) -> bool {
    a.num * den == num * a.den
}

#[test]
fn recovers_consistent_point() {
    // source point (30, 40); squared distances measured exactly from it
    let p1 = Point::new(0, 0, measured_info());
    let p2 = Point::new(100, 0, measured_info());
    let p3 = Point::new(0, 100, measured_info());
    let calc = TrilaterationCalculator::default();
    let loc = calc.get_location(&p1, &p2, &p3, 2500, 6500, 4500).unwrap();
    assert!(loc.x.den > 0 && loc.y.den > 0);
    assert!(rat_value_eq(&loc.x, 30, 1));
    assert!(rat_value_eq(&loc.y, 40, 1));
}

#[test]
fn collinear_anchors_have_no_unique_solution() {
    let p1 = Point::new(0, 0, measured_info());
    let p2 = Point::new(1, 0, measured_info());
    let p3 = Point::new(2, 0, measured_info());
    let calc = TrilaterationCalculator::default();
    assert_eq!(calc.get_location(&p1, &p2, &p3, 4, 1, 4), Err(SolveError::NoUniqueSolution));
    assert_eq!(calc.get_location(&p1, &p2, &p3, 100, 50, 7), Err(SolveError::NoUniqueSolution));
}

#[test]
fn coincident_anchors_have_no_unique_solution() {
    let p1 = Point::new(5, 5, measured_info());
    let p2 = Point::new(5, 5, measured_info());
    let p3 = Point::new(80, 3, measured_info());
    let calc = TrilaterationCalculator::default();
    assert_eq!(calc.get_location(&p1, &p2, &p3, 9, 9, 16), Err(SolveError::NoUniqueSolution));
}

#[test]
fn missing_measurement_is_reported() {
    let calc = TrilaterationCalculator::default();
    let p1 = Point::new(0, 0, None);
    let p2 = Point::new(100, 0, measured_info());
    let p3 = Point::new(0, 100, measured_info());
    assert_eq!(calc.get_location(&p1, &p2, &p3, 1, 1, 1), Err(SolveError::MissingMeasurement));

    // a present but incomplete measurement is just as missing
    let half = Some(NetInfo { tx_power: Some(Rat::new(15, 1)), measured_power: None });
    let p1 = Point::new(0, 0, half);
    assert_eq!(calc.get_location(&p1, &p2, &p3, 1, 1, 1), Err(SolveError::MissingMeasurement));
}

#[test]
fn solution_is_invariant_under_anchor_permutation() {
    let p1 = Point::new(0, 0, measured_info());
    let p2 = Point::new(100, 0, measured_info());
    let p3 = Point::new(0, 100, measured_info());
    let (r1, r2, r3) = (3000i64, 7100i64, 4900i64);
    let calc = TrilaterationCalculator::default();
    let base = calc.get_location(&p1, &p2, &p3, r1, r2, r3).unwrap();
    let swapped_last = calc.get_location(&p1, &p3, &p2, r1, r3, r2).unwrap();
    let swapped_first = calc.get_location(&p2, &p1, &p3, r2, r1, r3).unwrap();
    let rotated = calc.get_location(&p3, &p1, &p2, r3, r1, r2).unwrap();
    for other in [&swapped_last, &swapped_first, &rotated] {
        assert_eq!(base.x.num * other.x.den, other.x.num * base.x.den);
        assert_eq!(base.y.num * other.y.den, other.y.num * base.y.den);
    }
}

#[test]
fn equilateral_example_returns_centre() {
    // anchors (0,0), (100,0), (50,86.6) in tenths of a unit; all three
    // distances 57.7, so the transmitter sits at the centre (50.0, 28.87)
    let p1 = Point::new(0, 0, measured_info());
    let p2 = Point::new(1000, 0, measured_info());
    let p3 = Point::new(500, 866, measured_info());
    let r_sq = 577 * 577;
    let calc = TrilaterationCalculator::default();
    let loc = calc.get_location(&p1, &p2, &p3, r_sq, r_sq, r_sq).unwrap();
    let x = loc.x.num as f64 / loc.x.den as f64 / 10.0;
    let y = loc.y.num as f64 / loc.y.den as f64 / 10.0;
    assert!((x - 50.0).abs() < 1e-3, "x was {x}");
    assert!((y - 28.87).abs() < 5e-3, "y was {y}");
}
