use nal::experience::{ExperienceBase, ExperienceElement};
use nal::grammar::{Query, Statement, Term};
use nal::inference::{choice, conversion, deduction, revision};
use nal::meaning::{extension_from_term, intension_from_term};
use nal::truth::TruthValue;

fn judged(text: &str, id: usize, truth: &str) -> ExperienceElement {
    ExperienceElement::new_with_truth_value(
        Statement::new(text).unwrap(),
        id,
        TruthValue::new_from_str(truth).unwrap(),
        0,
    )
}

#[test]
fn valid_terms_show_as_written() {
    for t in ["bird", "(a&b)", "x-1", "?!", "\u{e9}t\u{e9}"] {
        assert_eq!(Term::new(t).unwrap().to_string(), t);
    }
    for t in ["", " ", "a b", "a\nb", "?"] {
        assert!(Term::new(t).is_err());
    }
}

#[test]
fn add_then_remove_keeps_count() {
    let mut b = ExperienceBase::new();
    b.add(ExperienceElement::new(Statement::new("a is b").unwrap(), 1, 0));
    b.add(ExperienceElement::new(Statement::new("c is d").unwrap(), 2, 0));
    let before = b.experiences().len();
    let e = ExperienceElement::new(Statement::new("e is f").unwrap(), 2, 0);
    b.add(e);
    b.remove(2).unwrap();
    assert_eq!(b.experiences().len(), before);
}

#[test]
fn deduction_scenario() {
    let mut b = ExperienceBase::new();
    b.add(judged("a is b", 1, "<1, 0.99>"));
    b.add(judged("b is c", 2, "<1, 0.99>"));
    let (s, t) = deduction(&b, 1, 2).unwrap();
    assert_eq!(s.to_string(), "a -> c");
    assert_eq!(t, TruthValue { freq: 1_000_000_000, conf: 980_100_000 });
    assert_eq!(t.to_string(), "<1.00, 0.98>");
}

#[test]
fn revision_scenario() {
    let mut b = ExperienceBase::new();
    b.add(judged("d is e", 1, "<0.89, 0.90>"));
    b.add(judged("d is e", 2, "<0.80, 0.95>"));
    let (s, t) = revision(&b, 1, 2).unwrap();
    assert_eq!(s.to_string(), "d -> e");
    assert_eq!(t.to_string(), "<0.83, 0.97>");
    assert!(t.conf > 900_000_000 && t.conf > 950_000_000);
}

#[test]
fn choice_scenario() {
    let mut b = ExperienceBase::new();
    b.add(judged("d is e", 1, "<0.5, 0.89>"));
    b.add(judged("d is e", 2, "<0.8, 0.89>"));
    let (_, t) = choice(&b, 1, 2).unwrap();
    assert_eq!(t, TruthValue { freq: 800_000_000, conf: 890_000_000 });
}

#[test]
fn closure_scenario() {
    let mut b = ExperienceBase::new();
    for (i, s) in ["robin is bird", "bird is animal", "penguin is bird", "chicken is bird", "human is animal", "saul is human"].iter().enumerate() {
        b.add(ExperienceElement::new(Statement::new(s).unwrap(), i + 1, 0));
    }
    let mut ext: Vec<String> = extension_from_term(&Term::new("animal").unwrap(), &b).iter().map(|t| t.to_string()).collect();
    ext.sort();
    assert_eq!(ext, vec!["animal", "bird", "chicken", "human", "penguin", "robin", "saul"]);
    let mut int: Vec<String> = intension_from_term(&Term::new("penguin").unwrap(), &b).iter().map(|t| t.to_string()).collect();
    int.sort();
    assert_eq!(int, vec!["animal", "bird", "penguin"]);
}

#[test]
fn query_scenario() {
    let mut b = ExperienceBase::new();
    b.add(ExperienceElement::new(Statement::new("a is b").unwrap(), 1, 0));
    assert_eq!(b.query(Query::new("a is ?").unwrap()).unwrap(), "  1: a -> b <1.00, 0.99>");
    assert_eq!(b.query(Query::new("u is v").unwrap()).unwrap(), "  u -> v <0.50, 0.00>");
}

#[test]
fn conversion_scenario() {
    let mut b = ExperienceBase::new();
    b.add(judged("a is b", 1, "<0.6, 0.90>"));
    let (s, t) = conversion(&b, 1).unwrap();
    assert_eq!(s.to_string(), "b -> a");
    assert_eq!(t.to_string(), "<1.00, 0.35>");
}
