use csm_rs::scan::fill_gaps;

#[test]
fn gaps_take_the_previous_known_value() {
    let mut values = vec![1.0, f64::NAN, f64::NAN, 4.0, f64::NAN];
    let known: Vec<bool> = values.iter().map(|v: &f64| v.is_finite()).collect();
    fill_gaps(&mut values, &known, 0.0);
    assert_eq!(values, [1.0, 1.0, 1.0, 4.0, 4.0]);
}

#[test]
fn leading_gaps_take_the_first_known_value() {
    let mut values = vec![f64::INFINITY, f64::NAN, 2.5, f64::NAN, 3.0];
    let known: Vec<bool> = values.iter().map(|v: &f64| v.is_finite()).collect();
    fill_gaps(&mut values, &known, 0.0);
    assert_eq!(values, [2.5, 2.5, 2.5, 2.5, 3.0]);
}

#[test]
fn with_nothing_known_every_value_is_neutral() {
    let mut values = vec![f64::NAN; 4];
    fill_gaps(&mut values, &[false; 4], 0.0);
    assert_eq!(values, [0.0; 4]);
    let mut empty: Vec<f64> = Vec::new();
    fill_gaps(&mut empty, &[], 0.0);
    assert!(empty.is_empty());
}

#[test]
fn unknown_positions_are_replaced_whatever_they_hold() {
    let mut values = vec![10u32, 20, 30];
    fill_gaps(&mut values, &[false, true, false], 0);
    assert_eq!(values, [20, 20, 20]);
}
