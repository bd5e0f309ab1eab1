use risp::decimal::Decimal;
use risp::val::Val;
use std::cmp::Ordering;

#[test]
fn compare_floats() {
    let one = Val::Float(Decimal::from_units(1_000_000_000));
    let zero = Val::Float(Decimal::from_units(0));
    assert!(one.partial_cmp(&zero) == Some(Ordering::Greater));
}
