use dancespiele::benefit::{benefit_at_least, calc_benefit};
use dancespiele::decimal::parse_price;

#[test]
fn should_calculate_benefit() {
    // in thirty-two-bit floats the same formula rounds to five fraction digits
    let float_benefit = (0.4f32 - 0.29f32) / 0.29f32 * 100.0f32;
    assert_eq!(float_benefit.to_string(), "37.93104".to_string());

    // the engine computes the same percentage exactly, floored to the atom
    let basis = parse_price("0.29").unwrap();
    let current = parse_price("0.4").unwrap();
    let benefit = calc_benefit(basis, current);
    assert_eq!(benefit, "37.93103448".to_string());
}

#[test]
fn benefit_is_never_negative() {
    // a loss clamps to exactly zero, never a negative percentage
    let basis = parse_price("3.5").unwrap();
    let current = parse_price("2.1").unwrap();
    assert_eq!(calc_benefit(basis, current), "0");
}

#[test]
fn benefit_is_zero_without_gain() {
    let basis = parse_price("0.29").unwrap();
    assert_eq!(calc_benefit(basis, parse_price("0.29").unwrap()), "0");
    assert_eq!(calc_benefit(basis, parse_price("0.28").unwrap()), "0");
    assert_eq!(calc_benefit(basis, parse_price("0").unwrap()), "0");
}

#[test]
fn threshold_comparison_is_exact() {
    let basis = parse_price("0.29").unwrap();
    let current = parse_price("0.4").unwrap();
    // the exact benefit is 37.9310344827...%
    assert!(benefit_at_least(basis, current, parse_price("30.0").unwrap()));
    assert!(benefit_at_least(basis, current, parse_price("37.93103448").unwrap()));
    assert!(!benefit_at_least(basis, current, parse_price("37.93103449").unwrap()));
    assert!(!benefit_at_least(basis, current, parse_price("38.0").unwrap()));
}

#[test]
fn boundary_equality_triggers() {
    // benefit(2.0, 3.0) is exactly 50%
    let basis = parse_price("2.0").unwrap();
    let current = parse_price("3.0").unwrap();
    assert!(benefit_at_least(basis, current, parse_price("50.0").unwrap()));
    assert!(!benefit_at_least(basis, current, parse_price("50.00000001").unwrap()));
    assert_eq!(calc_benefit(basis, current), "50");
}

#[test]
fn zero_basis_carries_zero_benefit() {
    // a zero basis (an unparsable trigger defaults to it) has no well-defined
    // percentage: both the comparison and the rendered value treat it as zero
    let current = parse_price("3.5").unwrap();
    assert_eq!(calc_benefit(0, current), "0");
    assert!(benefit_at_least(0, current, 0));
    assert!(!benefit_at_least(0, current, 1));
    assert!(!benefit_at_least(0, current, parse_price("14.0").unwrap()));
}

#[test]
fn zero_threshold_without_gain() {
    let basis = parse_price("2.0").unwrap();
    let current = parse_price("1.0").unwrap();
    assert!(benefit_at_least(basis, current, 0));
    assert!(!benefit_at_least(basis, current, 1));
}
