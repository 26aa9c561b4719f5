use nal::notation::TruthValueError;
use nal::truth::{
    abduction_tv, analogy_tv, comparison_tv, conversion_tv, deduction_tv, difference_tv,
    exemplification_tv, induction_tv, intersection_extension_tv, intersection_intension_tv,
    resemblance_tv, revision_tv, union_extension_tv, union_intension_tv, TruthValue,
};

fn tv(f: u64, c: u64) -> TruthValue {
    TruthValue { freq: f, conf: c }
}

#[test]
fn truth_value_test_new() {
    assert_eq!(TruthValue::new().unwrap(), TruthValue { freq: 1_000_000_000, conf: 990_000_000 });
}

#[test]
fn truth_value_text() {
    assert_eq!(TruthValue::new().unwrap().to_string(), "<1.00, 0.99>");
    assert_eq!(TruthValue::new_from_str("<0.787, 0.5678>").unwrap().to_string(), "<0.79, 0.57>");
    assert_eq!(tv(5_000_000, 4_999_999).to_string(), "<0.01, 0.00>");
    assert_eq!(tv(0, 0).to_string(), "<0.00, 0.00>");
    assert_eq!(tv(995_000_000, 999_999_999).to_string(), "<1.00, 1.00>");
}

#[test]
fn truth_value_parse() {
    assert_eq!(TruthValue::new_from_str("<0.5, 0.89>"), Ok(tv(500_000_000, 890_000_000)));
    assert_eq!(TruthValue::new_from_str("<1,0>"), Ok(tv(1_000_000_000, 0)));
    assert_eq!(TruthValue::new_from_str("< 1.0 ,  0.1234567891 >"), Ok(tv(1_000_000_000, 123_456_789)));
    assert_eq!(TruthValue::new_from_str("<0.5, 1.0>"), Err(TruthValueError::OutOfRange));
    assert_eq!(TruthValue::new_from_str("<1.5, 0.5>"), Err(TruthValueError::OutOfRange));
    assert_eq!(TruthValue::new_from_str("<2, 0.5>"), Err(TruthValueError::OutOfRange));
    assert_eq!(TruthValue::new_from_str("<0.5 0.5>"), Err(TruthValueError::Malformed));
    assert_eq!(TruthValue::new_from_str("0.5, 0.5"), Err(TruthValueError::Malformed));
    assert_eq!(TruthValue::new_from_str("<0.5, x>"), Err(TruthValueError::Malformed));
    assert_eq!(TruthValue::new_from_str("<0., 0.5>"), Err(TruthValueError::Malformed));
    assert_eq!(TruthValue::new_from_str(""), Err(TruthValueError::Malformed));
}

#[test]
fn truth_function_values() {
    let a = tv(500_000_000, 890_000_000);
    let b = tv(800_000_000, 890_000_000);
    assert_eq!(deduction_tv(a, b), tv(400_000_000, 316_840_000));
    assert_eq!(induction_tv(a, b), tv(500_000_000, 387_885_020));
    assert_eq!(abduction_tv(a, b), tv(800_000_000, 283_693_277));
    assert_eq!(exemplification_tv(a, b), tv(1_000_000_000, 240_606_300));
    assert_eq!(comparison_tv(a, b), tv(444_444_444, 416_191_349));
    assert_eq!(analogy_tv(a, b), tv(400_000_000, 633_680_000));
    assert_eq!(resemblance_tv(a, b), tv(400_000_000, 712_890_000));
    assert_eq!(union_extension_tv(a, b), tv(400_000_000, 792_100_000));
    assert_eq!(union_intension_tv(a, b), tv(900_000_000, 792_100_000));
    assert_eq!(intersection_extension_tv(a, b), tv(900_000_000, 792_100_000));
    assert_eq!(intersection_intension_tv(a, b), tv(400_000_000, 792_100_000));
    assert_eq!(difference_tv(a, b), tv(100_000_000, 792_100_000));
    assert_eq!(conversion_tv(tv(600_000_000, 900_000_000)), tv(1_000_000_000, 350_649_351));
    assert_eq!(revision_tv(tv(890_000_000, 900_000_000), tv(800_000_000, 950_000_000)), tv(828_928_571, 965_517_241));
}

#[test]
fn truth_functions_without_evidence() {
    let none = tv(0, 0);
    assert_eq!(induction_tv(none, none), tv(500_000_000, 0));
    assert_eq!(abduction_tv(none, none), tv(500_000_000, 0));
    assert_eq!(exemplification_tv(none, none), tv(500_000_000, 0));
    assert_eq!(conversion_tv(none), tv(500_000_000, 0));
    assert_eq!(comparison_tv(none, none), tv(500_000_000, 0));
    assert_eq!(revision_tv(none, none), tv(500_000_000, 0));
}

#[test]
fn truth_values_round_to_nearest_billionth() {
    // 0.54 / 1.54 = 0.350649350649...
    assert_eq!(conversion_tv(tv(600_000_000, 900_000_000)).conf, 350_649_351);
    // (0.89 * 0.9 * 0.05 + 0.8 * 0.95 * 0.1) / (0.9 * 0.05 + 0.95 * 0.1) = 0.828928571...
    assert_eq!(revision_tv(tv(890_000_000, 900_000_000), tv(800_000_000, 950_000_000)).freq, 828_928_571);
    // A pooled confidence that would round to one stays below it.
    assert_eq!(revision_tv(tv(500_000_000, 999_999_999), tv(500_000_000, 999_999_999)).conf, 999_999_999);
}
