use nal::dispatch::{infer_and_update, print_inference_result};
use nal::experience::{ExperienceBase, ExperienceElement};
use nal::grammar::Statement;
use nal::inference::{
    abduction, analogy, choice, comparison, conversion, deduction, difference_extension,
    difference_intension, exemplification, induction, intersection_extension,
    intersection_intension, resemblance, revision, selection, union_extension, union_intension,
    InferenceError, Rule,
};
use nal::instruction::{InferenceInstruction, InstructionError};
use nal::truth::TruthValue;

fn judged(text: &str, id: usize, truth: &str) -> ExperienceElement {
    ExperienceElement::new_with_truth_value(
        Statement::new(text).unwrap(),
        id,
        TruthValue::new_from_str(truth).unwrap(),
        0,
    )
}

fn base(items: &[(&str, &str)]) -> ExperienceBase {
    let mut b = ExperienceBase::new();
    for (i, (s, t)) in items.iter().enumerate() {
        b.add(judged(s, i + 1, t));
    }
    b
}

fn shown(t: &str) -> String {
    TruthValue::new_from_str(t).unwrap().to_string()
}

fn words(v: &[&str]) -> Vec<String> {
    v.iter().map(|w| w.to_string()).collect()
}

#[test]
fn test_deduction() {
    let experience_base =
        base(&[("d is e", "<0.5, 0.89>"), ("e is f", "<0.8, 0.89>"), ("a is b", "<0.9, 0.99>")]);
    assert_eq!(experience_base.experiences().len(), 3);
    let result = deduction(&experience_base, 1, 2).unwrap();
    assert_eq!(result.0, Statement::new("d is f").unwrap());
    assert_eq!(result.1.to_string(), shown("<0.40, 0.32>"));
    let result = deduction(&experience_base, 1, 3);
    assert_eq!(result.unwrap_err().message(), "Deduction not possible.");
}

#[test]
fn test_induction() {
    let experience_base =
        base(&[("a is b", "<0.5, 0.89>"), ("a is c", "<0.8, 0.89>"), ("b is c", "<0.9, 0.99>")]);
    assert_eq!(experience_base.experiences().len(), 3);
    let result = induction(&experience_base, 1, 2).unwrap();
    assert_eq!(result.0, Statement::new("c is b").unwrap());
    assert_eq!(result.1.to_string(), shown("<0.50, 0.39>"));
    let result = induction(&experience_base, 1, 3);
    assert_eq!(result.unwrap_err().message(), "Induction not possible.");
}

#[test]
fn test_abduction() {
    let experience_base =
        base(&[("a is b", "<0.5, 0.89>"), ("c is b", "<0.8, 0.89>"), ("d is c", "<0.9, 0.99>")]);
    assert_eq!(experience_base.experiences().len(), 3);
    let result = abduction(&experience_base, 1, 2).unwrap();
    assert_eq!(result.0, Statement::new("c is a").unwrap());
    assert_eq!(result.1.to_string(), shown("<0.80, 0.28>"));
    let result = abduction(&experience_base, 1, 3);
    assert_eq!(result.unwrap_err().message(), "Abduction not possible.");
}

#[test]
fn test_exemplification() {
    let experience_base =
        base(&[("a is b", "<0.5, 0.89>"), ("a is c", "<0.82, 0.69>"), ("b is c", "<0.8, 0.89>")]);
    assert_eq!(experience_base.experiences().len(), 3);
    let result = exemplification(&experience_base, 1, 3).unwrap();
    assert_eq!(result.0, Statement::new("c is a").unwrap());
    assert_eq!(result.1.to_string(), shown("<1.00, 0.24>"));
    let result = exemplification(&experience_base, 3, 1).unwrap();
    assert_eq!(result.0, Statement::new("c is a").unwrap());
    assert_eq!(result.1.to_string(), shown("<1.00, 0.24>"));
    let result = exemplification(&experience_base, 1, 2);
    assert_eq!(result.unwrap_err().message(), "Exemplification not possible.");
}

#[test]
fn test_conversion() {
    let experience_base = base(&[("a is b", "<0.6, 0.90>")]);
    assert_eq!(experience_base.experiences().len(), 1);
    let result = conversion(&experience_base, 1).unwrap();
    assert_eq!(result.0, Statement::new("b is a").unwrap());
    assert_eq!(result.1.to_string(), shown("<1.00, 0.35>"));
}

#[test]
fn test_comparison() {
    let experience_base =
        base(&[("d is e", "<0.5, 0.89>"), ("d is f", "<0.8, 0.89>"), ("a is b", "<0.9, 0.99>")]);
    assert_eq!(experience_base.experiences().len(), 3);
    let result = comparison(&experience_base, 1, 2);
    assert!(result.is_ok());
    let result = result.unwrap();
    assert_eq!(result.0, Statement::new("f <-> e").unwrap());
    assert_eq!(result.1.to_string(), shown("<0.44, 0.42>"));
}

#[test]
fn test_analogy() {
    let experience_base = base(&[("d is e", "<0.5, 0.89>"), ("d <-> f", "<0.8, 0.89>")]);
    assert_eq!(experience_base.experiences().len(), 2);
    let result = analogy(&experience_base, 1, 2);
    assert!(result.is_ok());
    let result = result.unwrap();
    assert_eq!(result.0, Statement::new("f -> e").unwrap());
    assert_eq!(result.1.to_string(), shown("<0.40, 0.63>"));
}

#[test]
fn test_revision() {
    let experience_base =
        base(&[("d is e", "<0.89, 0.9>"), ("d is e", "<0.80, 0.95>"), ("a is b", "<0.9, 0.99>")]);
    assert_eq!(experience_base.experiences().len(), 3);
    let result = revision(&experience_base, 1, 2).unwrap();
    assert_eq!(result.0, Statement::new("d is e").unwrap());
    assert_eq!(result.1.to_string(), shown("<0.83, 0.97>"));
    let result = revision(&experience_base, 1, 3);
    assert_eq!(result.unwrap_err().message(), "Revision not possible.");
}

#[test]
fn test_choice() {
    let experience_base = base(&[
        ("d is e", "<0.5, 0.89>"),
        ("d is e", "<0.8, 0.89>"),
        ("d is e", "<0.3, 0.95>"),
        ("a is b", "<0.9, 0.99>"),
    ]);
    assert_eq!(experience_base.experiences().len(), 4);
    let result = choice(&experience_base, 1, 2).unwrap();
    assert_eq!(result.0, Statement::new("d is e").unwrap());
    assert_eq!(result.1.to_string(), shown("<0.8, 0.89>"));
    let result = choice(&experience_base, 1, 3).unwrap();
    assert_eq!(result.0, Statement::new("d is e").unwrap());
    assert_eq!(result.1.to_string(), shown("<0.3, 0.95>"));
    let result = choice(&experience_base, 1, 4).unwrap();
    assert_eq!(result.0, Statement::new("a is b").unwrap());
    assert_eq!(result.1.to_string(), shown("<0.9, 0.99>"));
}

#[test]
fn choice_ties() {
    let b = base(&[("d is e", "<0.5, 0.89>"), ("d is e", "<0.5, 0.89>"), ("a is b", "<0.5, 0.3>")]);
    assert_eq!(choice(&b, 1, 2), Err(InferenceError::EqualExperiences));
    assert_eq!(choice(&b, 1, 3), Err(InferenceError::EqualExpectations));
    assert_eq!(InferenceError::EqualExperiences.message(), "Equal experiences.");
    assert_eq!(InferenceError::EqualExpectations.message(), "Equal expectations.");
    assert_eq!(selection(&b, 1, 2), choice(&b, 1, 2));
}

#[test]
fn test_union_extension() {
    let b = base(&[("d is e", "<0.5, 0.89>"), ("f is e", "<0.8, 0.89>"), ("a is b", "<0.9, 0.99>")]);
    let result = union_extension(&b, 1, 2).unwrap();
    assert_eq!(result.0, Statement::new("(d|f) is e").unwrap());
    assert_eq!(result.1.to_string(), shown("<0.40, 0.79>"));
    assert_eq!(union_extension(&b, 1, 3).unwrap_err().message(), "Union_extension not possible.");
}

#[test]
fn test_union_intension() {
    let b = base(&[("e is d", "<0.5, 0.89>"), ("e is f", "<0.8, 0.89>"), ("a is b", "<0.9, 0.99>")]);
    let result = union_intension(&b, 1, 2).unwrap();
    assert_eq!(result.0, Statement::new("e is (d|f)").unwrap());
    assert_eq!(result.1.to_string(), shown("<0.90, 0.79>"));
    assert_eq!(union_intension(&b, 1, 3).unwrap_err().message(), "Union_intension not possible.");
}

#[test]
fn test_intersection_extension() {
    let b = base(&[("d is e", "<0.5, 0.89>"), ("f is e", "<0.8, 0.89>"), ("a is b", "<0.9, 0.99>")]);
    let result = intersection_extension(&b, 1, 2).unwrap();
    assert_eq!(result.0, Statement::new("(d&f) is e").unwrap());
    assert_eq!(result.1.to_string(), shown("<0.90, 0.79>"));
    assert_eq!(
        intersection_extension(&b, 1, 3).unwrap_err().message(),
        "Intersection_extension not possible."
    );
}

#[test]
fn test_difference_intension() {
    let b = base(&[("e is d", "<0.5, 0.89>"), ("e is f", "<0.8, 0.89>"), ("a is b", "<0.9, 0.99>")]);
    let result = difference_intension(&b, 1, 2).unwrap();
    assert_eq!(result.0, Statement::new("e is (d-f)").unwrap());
    assert_eq!(result.1.to_string(), shown("<0.10, 0.79>"));
    assert_eq!(
        difference_intension(&b, 1, 3).unwrap_err().message(),
        "Difference_intension not possible."
    );
}

#[test]
fn remaining_set_operations() {
    let b = base(&[("e is d", "<0.5, 0.89>"), ("e is f", "<0.8, 0.89>"), ("d is e", "<0.5, 0.89>"), ("f is e", "<0.8, 0.89>")]);
    let r = intersection_intension(&b, 1, 2).unwrap();
    assert_eq!(r.0.to_string(), "e -> (d&f)");
    assert_eq!(r.1, TruthValue { freq: 400_000_000, conf: 792_100_000 });
    let r = difference_extension(&b, 3, 4).unwrap();
    assert_eq!(r.0.to_string(), "(d-f) -> e");
    assert_eq!(r.1, TruthValue { freq: 100_000_000, conf: 792_100_000 });
    assert_eq!(difference_extension(&b, 1, 2), Err(InferenceError::NotPossible(Rule::DifferenceExtension)));
}

#[test]
fn resemblance_and_similarity_shapes() {
    let b = base(&[("m <-> p", "<0.5, 0.89>"), ("s <-> m", "<0.8, 0.89>"), ("a is b", "<0.9, 0.99>")]);
    let r = resemblance(&b, 1, 2).unwrap();
    assert_eq!(r.0.to_string(), "s <-> p");
    assert_eq!(r.1, TruthValue { freq: 400_000_000, conf: 712_890_000 });
    assert_eq!(resemblance(&b, 1, 3), Err(InferenceError::NotPossible(Rule::Resemblance)));
    assert_eq!(comparison(&b, 1, 2), Err(InferenceError::NotPossible(Rule::Comparison)));
    assert_eq!(conversion(&b, 1), Err(InferenceError::NotPossible(Rule::Conversion)));
    assert_eq!(deduction(&b, 1, 2), Err(InferenceError::NotPossible(Rule::Deduction)));
}

#[test]
fn analogy_with_similarity_first() {
    let b = base(&[("d <-> f", "<0.8, 0.89>"), ("d is e", "<0.5, 0.89>")]);
    let r = analogy(&b, 1, 2).unwrap();
    assert_eq!(r.0.to_string(), "f <-> e");
    assert_eq!(r.1.to_string(), "<0.40, 0.63>");
}

#[test]
fn missing_operands() {
    let b = base(&[("a is b", "<0.9, 0.99>")]);
    assert_eq!(deduction(&b, 9, 1), Err(InferenceError::FirstNotFound));
    assert_eq!(deduction(&b, 1, 9), Err(InferenceError::SecondNotFound));
    assert_eq!(conversion(&b, 9), Err(InferenceError::NotFound));
    assert_eq!(InferenceError::FirstNotFound.message(), "Experience 1 not found.");
    assert_eq!(InferenceError::SecondNotFound.message(), "Experience 2 not found.");
    assert_eq!(InferenceError::NotFound.message(), "Experience not found.");
}

#[test]
fn test_new_inference() {
    assert_eq!(
        InferenceInstruction::new(&vec!["revision".to_string(), "1".to_string(), "a".to_string()])
            .unwrap_err()
            .message(),
        "Invalid inference instruction: Expected <id1> <id2>"
    );
    assert_eq!(
        InferenceInstruction::new(&vec!["revision".to_string(), "1".to_string(), "2".to_string()])
            .unwrap(),
        InferenceInstruction::Revision(1, 2)
    );
    assert_eq!(
        InferenceInstruction::new(&vec!["choice".to_string(), "1".to_string(), "2".to_string()])
            .unwrap(),
        InferenceInstruction::Choice(1, 2)
    );
    assert_eq!(
        InferenceInstruction::new(&vec!["deduction".to_string(), "1".to_string(), "2".to_string()])
            .unwrap(),
        InferenceInstruction::Deduction(1, 2)
    );
}

#[test]
fn instruction_names_and_errors() {
    assert_eq!(InferenceInstruction::new(&words(&["d", "3", "4"])), Ok(InferenceInstruction::Deduction(3, 4)));
    assert_eq!(InferenceInstruction::new(&words(&["ch", "1", "2"])), Ok(InferenceInstruction::Choice(1, 2)));
    assert_eq!(InferenceInstruction::new(&words(&["cnv", "7"])), Ok(InferenceInstruction::Conversion(7)));
    assert_eq!(InferenceInstruction::new(&words(&["res", "1", "2"])), Ok(InferenceInstruction::Resemblance(1, 2)));
    assert_eq!(InferenceInstruction::new(&words(&["ii", "1", "2"])), Ok(InferenceInstruction::IntersectionIntension(1, 2)));
    assert_eq!(InferenceInstruction::new(&words(&["de", "1", "2"])), Ok(InferenceInstruction::DifferenceExtension(1, 2)));
    assert_eq!(InferenceInstruction::new(&words(&["conversion"])), Err(InstructionError::ExpectedOneId));
    assert_eq!(InferenceInstruction::new(&words(&["c", "x"])), Err(InstructionError::ExpectedOneId));
    assert_eq!(InferenceInstruction::new(&words(&["ana", "1"])), Err(InstructionError::ExpectedTwoIds));
    assert_eq!(InferenceInstruction::new(&words(&["transitivity", "1", "2"])), Err(InstructionError::UnknownRule));
    assert_eq!(InferenceInstruction::new(&vec![]), Err(InstructionError::UnknownRule));
    assert_eq!(InstructionError::UnknownRule.message(), "Invalid inference instruction");
    assert_eq!(InstructionError::ExpectedOneId.message(), "Invalid inference instruction: Expected <id>");
}

#[test]
fn dispatcher_evaluates_and_applies() {
    let mut b = base(&[("a is b", "<1, 0.99>"), ("b is c", "<1, 0.99>")]);
    let text = print_inference_result(&b, InferenceInstruction::Deduction(1, 2)).unwrap();
    assert_eq!(text, "  1: a -> b <1.00, 0.99>\n  2: b -> c <1.00, 0.99>\n  RESULT: a -> c <1.00, 0.98>");
    assert_eq!(b.len(), 2);
    let text = print_inference_result(&b, InferenceInstruction::Conversion(2)).unwrap();
    assert_eq!(text, "  2: b -> c <1.00, 0.99>\n  RESULT: c -> b <1.00, 0.50>");
    let applied = infer_and_update(&mut b, InferenceInstruction::Deduction(1, 2), 0).unwrap();
    assert_eq!(applied, "  1: a -> b <1.00, 0.99>\n  2: b -> c <1.00, 0.99>\n  RESULT: a -> c <1.00, 0.98>");
    assert_eq!(b.len(), 3);
    assert_eq!(b.experiences()[2].to_string(), "3: a -> c <1.00, 0.98>");
    assert_eq!(infer_and_update(&mut b, InferenceInstruction::Induction(1, 2), 0), Err(InferenceError::NotPossible(Rule::Induction)));
    assert_eq!(b.len(), 3);
    assert_eq!(print_inference_result(&b, InferenceInstruction::Revision(1, 9)), Err(InferenceError::SecondNotFound));
}

#[test]
fn choice_across_copulas_goes_by_expectation() {
    let b = base(&[("a is b", "<0.5, 0.9>"), ("a <-> b", "<0.9, 0.5>")]);
    // Different statements: expectations 0.5 and 0.7, so the similarity wins
    // although the inheritance is more confident.
    let (s, t) = choice(&b, 1, 2).unwrap();
    assert_eq!(s.to_string(), "a <-> b");
    assert_eq!(t.to_string(), "<0.90, 0.50>");
}
