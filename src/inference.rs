//! The inference rules: each combines one or two stored judgments into a new
//! statement and truth value.
use vstd::prelude::*;

use crate::experience::{
    find_id, lemma_position_of_id, truths_wf, ExperienceBase, ExperienceElement,
};
use crate::grammar::{Copula, Statement, Term};
use crate::truth::{
    abduction_truth, abduction_tv, analogy_truth, analogy_tv, compare_expectation, comparison_truth,
    comparison_tv, conversion_truth, conversion_tv, deduction_truth, deduction_tv, difference_truth,
    difference_tv, exemplification_truth, exemplification_tv, expectation, induction_truth,
    induction_tv, intersection_extension_truth, intersection_extension_tv,
    intersection_intension_truth, intersection_intension_tv, resemblance_truth, resemblance_tv,
    revision_truth, revision_tv, union_extension_truth, union_extension_tv, union_intension_truth,
    union_intension_tv, TruthValue,
};

verus! {

/// The rules of the catalogue.
#[derive(Clone, Copy, Debug, PartialEq, Eq, Structural)]
pub enum Rule {
    Revision,
    Choice,
    Deduction,
    Induction,
    Exemplification,
    Abduction,
    Conversion,
    Comparison,
    Analogy,
    Resemblance,
    UnionExtension,
    UnionIntension,
    IntersectionExtension,
    IntersectionIntension,
    DifferenceExtension,
    DifferenceIntension,
}

/// Why a rule gave no result.
#[derive(Clone, Copy, Debug, PartialEq, Eq, Structural)]
pub enum InferenceError {
    /// No element has the first id.
    FirstNotFound,
    /// No element has the second id.
    SecondNotFound,
    /// No element has the id of a one-operand rule.
    NotFound,
    /// The operands do not have the shape the rule needs.
    NotPossible(Rule),
    /// Choice between two equal judgments of one statement.
    EqualExperiences,
    /// Choice between two statements of equal expectation.
    EqualExpectations,
}

impl InferenceError {
    pub fn message(&self) -> (r: &'static str)
        ensures
            r@ == inference_error_text(*self),
    {
        match self {
            InferenceError::FirstNotFound => "Experience 1 not found.",
            InferenceError::SecondNotFound => "Experience 2 not found.",
            InferenceError::NotFound => "Experience not found.",
            InferenceError::EqualExperiences => "Equal experiences.",
            InferenceError::EqualExpectations => "Equal expectations.",
            InferenceError::NotPossible(rule) => match rule {
                Rule::Revision => "Revision not possible.",
                Rule::Choice => "Choice not possible.",
                Rule::Deduction => "Deduction not possible.",
                Rule::Induction => "Induction not possible.",
                Rule::Exemplification => "Exemplification not possible.",
                Rule::Abduction => "Abduction not possible.",
                Rule::Conversion => "Conversion not possible.",
                Rule::Comparison => "Comparison not possible.",
                Rule::Analogy => "Analogy not possible.",
                Rule::Resemblance => "Resemblance not possible.",
                Rule::UnionExtension => "Union_extension not possible.",
                Rule::UnionIntension => "Union_intension not possible.",
                Rule::IntersectionExtension => "Intersection_extension not possible.",
                Rule::IntersectionIntension => "Intersection_intension not possible.",
                Rule::DifferenceExtension => "Difference_extension not possible.",
                Rule::DifferenceIntension => "Difference_intension not possible.",
            },
        }
    }
}

/// The text of an inference error.
pub open spec fn inference_error_text(e: InferenceError) -> Seq<char> {
    match e {
        InferenceError::FirstNotFound => "Experience 1 not found."@,
        InferenceError::SecondNotFound => "Experience 2 not found."@,
        InferenceError::NotFound => "Experience not found."@,
        InferenceError::EqualExperiences => "Equal experiences."@,
        InferenceError::EqualExpectations => "Equal expectations."@,
        InferenceError::NotPossible(rule) => match rule {
            Rule::Revision => "Revision not possible."@,
            Rule::Choice => "Choice not possible."@,
            Rule::Deduction => "Deduction not possible."@,
            Rule::Induction => "Induction not possible."@,
            Rule::Exemplification => "Exemplification not possible."@,
            Rule::Abduction => "Abduction not possible."@,
            Rule::Conversion => "Conversion not possible."@,
            Rule::Comparison => "Comparison not possible."@,
            Rule::Analogy => "Analogy not possible."@,
            Rule::Resemblance => "Resemblance not possible."@,
            Rule::UnionExtension => "Union_extension not possible."@,
            Rule::UnionIntension => "Union_intension not possible."@,
            Rule::IntersectionExtension => "Intersection_extension not possible."@,
            Rule::IntersectionIntension => "Intersection_intension not possible."@,
            Rule::DifferenceExtension => "Difference_extension not possible."@,
            Rule::DifferenceIntension => "Difference_intension not possible."@,
        },
    }
}

/// A statement as plain values: left term, copula, right term.
pub type Parts = (Seq<char>, Copula, Seq<char>);

/// What a rule yields: a statement and its truth value, or why there is none.
pub type Outcome = Result<(Parts, TruthValue), InferenceError>;

/// A rule's result as plain values.
pub open spec fn result_parts(r: Result<(Statement, TruthValue), InferenceError>) -> Outcome {
    match r {
        Ok((st, t)) => Ok((st.parts(), t)),
        Err(e) => Err(e),
    }
}

/// `(a op b)`: the compound term of a set operation.
pub open spec fn compound(a: Seq<char>, op: char, b: Seq<char>) -> Seq<char> {
    seq!['('] + a + seq![op] + b + seq![')']
}

/// `l -> r`.
pub open spec fn inh(l: Seq<char>, r: Seq<char>) -> Parts {
    (l, Copula::Inheritance, r)
}

/// `l <-> r`.
pub open spec fn sim(l: Seq<char>, r: Seq<char>) -> Parts {
    (l, Copula::Similarity, r)
}

/// What `rule` yields from the operands `e1` and `e2` (for conversion, `e1` alone).
pub open spec fn rule_outcome(rule: Rule, e1: ExperienceElement, e2: ExperienceElement) -> Outcome {
    let (l1, c1, r1) = e1.stmt.parts();
    let (l2, c2, r2) = e2.stmt.parts();
    let (t1, t2) = (e1.truth_value, e2.truth_value);
    let both_inh = c1 == Copula::Inheritance && c2 == Copula::Inheritance;
    let no = Err(InferenceError::NotPossible(rule));
    match rule {
        Rule::Revision => if l1 == l2 && r1 == r2 {
            Ok((e1.stmt.parts(), revision_truth(t1, t2)))
        } else {
            no
        },
        Rule::Choice => choice_outcome(e1, e2),
        Rule::Deduction => if !both_inh {
            no
        } else if r1 == l2 {
            Ok((inh(l1, r2), deduction_truth(t1, t2)))
        } else if r2 == l1 {
            Ok((inh(l2, r1), deduction_truth(t1, t2)))
        } else {
            no
        },
        Rule::Induction => if both_inh && l1 == l2 {
            Ok((inh(r2, r1), induction_truth(t1, t2)))
        } else {
            no
        },
        Rule::Abduction => if both_inh && r1 == r2 {
            Ok((inh(l2, l1), abduction_truth(t1, t2)))
        } else {
            no
        },
        Rule::Exemplification => if !both_inh {
            no
        } else if r1 == l2 {
            Ok((inh(r2, l1), exemplification_truth(t1, t2)))
        } else if l1 == r2 {
            Ok((inh(r1, l2), exemplification_truth(t1, t2)))
        } else {
            no
        },
        Rule::Conversion => if c1 == Copula::Inheritance {
            Ok((inh(r1, l1), conversion_truth(t1)))
        } else {
            no
        },
        Rule::Comparison => if both_inh && l1 == l2 {
            Ok((sim(r2, r1), comparison_truth(t1, t2)))
        } else {
            no
        },
        Rule::Analogy => if c1 == Copula::Inheritance && c2 == Copula::Similarity {
            if l1 == l2 {
                Ok((inh(r2, r1), analogy_truth(t1, t2)))
            } else if l1 == r2 {
                Ok((sim(l2, r1), analogy_truth(t1, t2)))
            } else {
                no
            }
        } else if c1 == Copula::Similarity && c2 == Copula::Inheritance {
            if l2 == l1 {
                Ok((sim(r1, r2), analogy_truth(t2, t1)))
            } else if l2 == r1 {
                Ok((sim(l1, r2), analogy_truth(t2, t1)))
            } else {
                no
            }
        } else {
            no
        },
        Rule::Resemblance => if c1 != Copula::Similarity || c2 != Copula::Similarity {
            no
        } else if l1 == l2 {
            Ok((sim(r2, r1), resemblance_truth(t1, t2)))
        } else if r1 == l2 {
            Ok((sim(l1, r2), resemblance_truth(t1, t2)))
        } else if l1 == r2 {
            Ok((sim(l2, r1), resemblance_truth(t1, t2)))
        } else if r1 == r2 {
            Ok((sim(l1, l2), resemblance_truth(t1, t2)))
        } else {
            no
        },
        Rule::UnionExtension => if both_inh && r1 == r2 {
            Ok((inh(compound(l1, '|', l2), r2), union_extension_truth(t1, t2)))
        } else {
            no
        },
        Rule::UnionIntension => if both_inh && l1 == l2 {
            Ok((inh(l1, compound(r1, '|', r2)), union_intension_truth(t1, t2)))
        } else {
            no
        },
        Rule::IntersectionExtension => if both_inh && r1 == r2 {
            Ok((inh(compound(l1, '&', l2), r2), intersection_extension_truth(t1, t2)))
        } else {
            no
        },
        Rule::IntersectionIntension => if both_inh && l1 == l2 {
            Ok((inh(l1, compound(r1, '&', r2)), intersection_intension_truth(t1, t2)))
        } else {
            no
        },
        Rule::DifferenceExtension => if both_inh && r1 == r2 {
            Ok((inh(compound(l1, '-', l2), r2), difference_truth(t1, t2)))
        } else {
            no
        },
        Rule::DifferenceIntension => if both_inh && l1 == l2 {
            Ok((inh(l1, compound(r1, '-', r2)), difference_truth(t1, t2)))
        } else {
            no
        },
    }
}

/// Choice: for one statement (equal in terms and copula), the higher
/// confidence, then the higher frequency; for two different statements, the higher expectation. The winner is
/// returned as it is stored.
pub open spec fn choice_outcome(e1: ExperienceElement, e2: ExperienceElement) -> Outcome {
    let (t1, t2) = (e1.truth_value, e2.truth_value);
    let first = Ok((e1.stmt.parts(), t1));
    let second = Ok((e2.stmt.parts(), t2));
    if e1.stmt.same(e2.stmt) {
        if t1.conf > t2.conf {
            first
        } else if t1.conf < t2.conf {
            second
        } else if t1.freq > t2.freq {
            first
        } else if t1.freq < t2.freq {
            second
        } else {
            Err(InferenceError::EqualExperiences)
        }
    } else if expectation(t1) > expectation(t2) {
        first
    } else if expectation(t1) < expectation(t2) {
        second
    } else {
        Err(InferenceError::EqualExpectations)
    }
}

/// What a two-operand rule yields over the store `s`.
pub open spec fn binary_outcome(s: Seq<ExperienceElement>, rule: Rule, id1: usize, id2: usize) -> Outcome {
    match (find_id(s, id1), find_id(s, id2)) {
        (None, _) => Err(InferenceError::FirstNotFound),
        (_, None) => Err(InferenceError::SecondNotFound),
        (Some(e1), Some(e2)) => rule_outcome(rule, e1, e2),
    }
}

/// What conversion yields over the store `s`.
pub open spec fn unary_outcome(s: Seq<ExperienceElement>, id: usize) -> Outcome {
    match find_id(s, id) {
        None => Err(InferenceError::NotFound),
        Some(e) => rule_outcome(Rule::Conversion, e, e),
    }
}

/// The first element with id `id`.
pub fn operand(base: &ExperienceBase, id: usize) -> (r: Option<&ExperienceElement>)
    requires
        base.wf(),
    ensures
        r matches Some(e) ==> find_id(base@, id) == Some(*e) && e.truth_value.wf(),
        r is None ==> find_id(base@, id) is None,
{
    let s = base.experiences();
    let mut i: usize = 0;
    while i < s.len()
        invariant
            s@ == base@,
            truths_wf(s@),
            i <= s@.len(),
            forall|j: int| 0 <= j < i ==> s@[j].id != id,
        decreases s@.len() - i,
    {
        if s[i].id == id {
            proof {
                lemma_position_of_id(s@, id, i as int);
                assert(s@[i as int].truth_value.wf());
            }
            return Some(&s[i]);
        }
        i = i + 1;
    }
    proof {
        lemma_position_of_id(s@, id, i as int);
    }
    None
}

fn operands(base: &ExperienceBase, id1: usize, id2: usize) -> (r: Result<
    (&ExperienceElement, &ExperienceElement),
    InferenceError,
>)
    requires
        base.wf(),
    ensures
        r matches Ok((e1, e2)) ==> find_id(base@, id1) == Some(*e1) && find_id(base@, id2) == Some(
            *e2,
        ) && e1.truth_value.wf() && e2.truth_value.wf(),
        r matches Err(e) ==> binary_outcome(base@, Rule::Revision, id1, id2) == Err::<
            (Parts, TruthValue),
            InferenceError,
        >(e) && (e == InferenceError::FirstNotFound || e == InferenceError::SecondNotFound),
{
    let e1 = match operand(base, id1) {
        Some(e) => e,
        None => {
            return Err(InferenceError::FirstNotFound);
        },
    };
    let e2 = match operand(base, id2) {
        Some(e) => e,
        None => {
            return Err(InferenceError::SecondNotFound);
        },
    };
    Ok((e1, e2))
}

/// `(a op b)`.
fn compound_term(a: &Term, op: &str, b: &Term) -> (r: Term)
    requires
        op@.len() == 1,
    ensures
        r.word@ == compound(a.word@, op@[0], b.word@),
{
    let mut w = String::from_str("(");
    w.append(a.word.as_str());
    w.append(op);
    w.append(b.word.as_str());
    w.append(")");
    proof {
        reveal_strlit("(");
        reveal_strlit(")");
    }
    assert(w@ =~= compound(a.word@, op@[0], b.word@));
    Term { word: w }
}

fn statement(left: Term, copula: Copula, right: Term) -> (r: Statement)
    ensures
        r.parts() == (left.word@, copula, right.word@),
{
    Statement { left, copula, right }
}


/// Revision: pools the evidence of two judgments of one statement.
pub fn revision(experience_base: &ExperienceBase, id_exp_1: usize, id_exp_2: usize) -> (r: Result<
    (Statement, TruthValue),
    InferenceError,
>)
    requires
        experience_base.wf(),
    ensures
        result_parts(r) == binary_outcome(experience_base@, Rule::Revision, id_exp_1, id_exp_2),
        r matches Ok((_, t)) ==> t.wf(),
{
    let (e1, e2) = operands(experience_base, id_exp_1, id_exp_2)?;
    let (a, b) = (&e1.stmt, &e2.stmt);
    let (t1, t2) = (e1.truth_value, e2.truth_value);
    if a.left == b.left && a.right == b.right {
        Ok((a.clone(), revision_tv(t1, t2)))
    } else {
        Err(InferenceError::NotPossible(Rule::Revision))
    }
}

/// Deduction: `a -> b` and `b -> c` give `a -> c`, in either order.
pub fn deduction(experience_base: &ExperienceBase, id_exp_1: usize, id_exp_2: usize) -> (r: Result<
    (Statement, TruthValue),
    InferenceError,
>)
    requires
        experience_base.wf(),
    ensures
        result_parts(r) == binary_outcome(experience_base@, Rule::Deduction, id_exp_1, id_exp_2),
        r matches Ok((_, t)) ==> t.wf(),
{
    let (e1, e2) = operands(experience_base, id_exp_1, id_exp_2)?;
    let (a, b) = (&e1.stmt, &e2.stmt);
    let (t1, t2) = (e1.truth_value, e2.truth_value);
    let both_inh = a.copula == Copula::Inheritance && b.copula == Copula::Inheritance;
    if !both_inh {
        return Err(InferenceError::NotPossible(Rule::Deduction));
    }
    let t = deduction_tv(t1, t2);
    if a.right == b.left {
        Ok((statement(a.left.clone(), Copula::Inheritance, b.right.clone()), t))
    } else if b.right == a.left {
        Ok((statement(b.left.clone(), Copula::Inheritance, a.right.clone()), t))
    } else {
        Err(InferenceError::NotPossible(Rule::Deduction))
    }
}

/// Induction: `m -> p` and `m -> s` give `s -> p`.
pub fn induction(experience_base: &ExperienceBase, id_exp_1: usize, id_exp_2: usize) -> (r: Result<
    (Statement, TruthValue),
    InferenceError,
>)
    requires
        experience_base.wf(),
    ensures
        result_parts(r) == binary_outcome(experience_base@, Rule::Induction, id_exp_1, id_exp_2),
        r matches Ok((_, t)) ==> t.wf(),
{
    let (e1, e2) = operands(experience_base, id_exp_1, id_exp_2)?;
    let (a, b) = (&e1.stmt, &e2.stmt);
    let (t1, t2) = (e1.truth_value, e2.truth_value);
    let both_inh = a.copula == Copula::Inheritance && b.copula == Copula::Inheritance;
    if both_inh && a.left == b.left {
        Ok((statement(b.right.clone(), Copula::Inheritance, a.right.clone()), induction_tv(t1, t2)))
    } else {
        Err(InferenceError::NotPossible(Rule::Induction))
    }
}

/// Abduction: `p -> m` and `s -> m` give `s -> p`.
pub fn abduction(experience_base: &ExperienceBase, id_exp_1: usize, id_exp_2: usize) -> (r: Result<
    (Statement, TruthValue),
    InferenceError,
>)
    requires
        experience_base.wf(),
    ensures
        result_parts(r) == binary_outcome(experience_base@, Rule::Abduction, id_exp_1, id_exp_2),
        r matches Ok((_, t)) ==> t.wf(),
{
    let (e1, e2) = operands(experience_base, id_exp_1, id_exp_2)?;
    let (a, b) = (&e1.stmt, &e2.stmt);
    let (t1, t2) = (e1.truth_value, e2.truth_value);
    let both_inh = a.copula == Copula::Inheritance && b.copula == Copula::Inheritance;
    if both_inh && a.right == b.right {
        Ok((statement(b.left.clone(), Copula::Inheritance, a.left.clone()), abduction_tv(t1, t2)))
    } else {
        Err(InferenceError::NotPossible(Rule::Abduction))
    }
}

/// Exemplification: `a -> b` and `b -> c` give `c -> a`, in either order.
pub fn exemplification(experience_base: &ExperienceBase, id_exp_1: usize, id_exp_2: usize) -> (r: Result<
    (Statement, TruthValue),
    InferenceError,
>)
    requires
        experience_base.wf(),
    ensures
        result_parts(r) == binary_outcome(experience_base@, Rule::Exemplification, id_exp_1, id_exp_2),
        r matches Ok((_, t)) ==> t.wf(),
{
    let (e1, e2) = operands(experience_base, id_exp_1, id_exp_2)?;
    let (a, b) = (&e1.stmt, &e2.stmt);
    let (t1, t2) = (e1.truth_value, e2.truth_value);
    let both_inh = a.copula == Copula::Inheritance && b.copula == Copula::Inheritance;
    if !both_inh {
        return Err(InferenceError::NotPossible(Rule::Exemplification));
    }
    let t = exemplification_tv(t1, t2);
    if a.right == b.left {
        Ok((statement(b.right.clone(), Copula::Inheritance, a.left.clone()), t))
    } else if a.left == b.right {
        Ok((statement(a.right.clone(), Copula::Inheritance, b.left.clone()), t))
    } else {
        Err(InferenceError::NotPossible(Rule::Exemplification))
    }
}

/// Comparison: `m -> p` and `m -> s` give `s <-> p`.
pub fn comparison(experience_base: &ExperienceBase, id_exp_1: usize, id_exp_2: usize) -> (r: Result<
    (Statement, TruthValue),
    InferenceError,
>)
    requires
        experience_base.wf(),
    ensures
        result_parts(r) == binary_outcome(experience_base@, Rule::Comparison, id_exp_1, id_exp_2),
        r matches Ok((_, t)) ==> t.wf(),
{
    let (e1, e2) = operands(experience_base, id_exp_1, id_exp_2)?;
    let (a, b) = (&e1.stmt, &e2.stmt);
    let (t1, t2) = (e1.truth_value, e2.truth_value);
    let both_inh = a.copula == Copula::Inheritance && b.copula == Copula::Inheritance;
    if both_inh && a.left == b.left {
        Ok((statement(b.right.clone(), Copula::Similarity, a.right.clone()), comparison_tv(t1, t2)))
    } else {
        Err(InferenceError::NotPossible(Rule::Comparison))
    }
}

/// Analogy: an inheritance and a similarity that share a term.
pub fn analogy(experience_base: &ExperienceBase, id_exp_1: usize, id_exp_2: usize) -> (r: Result<
    (Statement, TruthValue),
    InferenceError,
>)
    requires
        experience_base.wf(),
    ensures
        result_parts(r) == binary_outcome(experience_base@, Rule::Analogy, id_exp_1, id_exp_2),
        r matches Ok((_, t)) ==> t.wf(),
{
    let (e1, e2) = operands(experience_base, id_exp_1, id_exp_2)?;
    let (a, b) = (&e1.stmt, &e2.stmt);
    let (t1, t2) = (e1.truth_value, e2.truth_value);
    if a.copula == Copula::Inheritance && b.copula == Copula::Similarity {
        let t = analogy_tv(t1, t2);
        if a.left == b.left {
            Ok((statement(b.right.clone(), Copula::Inheritance, a.right.clone()), t))
        } else if a.left == b.right {
            Ok((statement(b.left.clone(), Copula::Similarity, a.right.clone()), t))
        } else {
            Err(InferenceError::NotPossible(Rule::Analogy))
        }
    } else if a.copula == Copula::Similarity && b.copula == Copula::Inheritance {
        let t = analogy_tv(t2, t1);
        if b.left == a.left {
            Ok((statement(a.right.clone(), Copula::Similarity, b.right.clone()), t))
        } else if b.left == a.right {
            Ok((statement(a.left.clone(), Copula::Similarity, b.right.clone()), t))
        } else {
            Err(InferenceError::NotPossible(Rule::Analogy))
        }
    } else {
        Err(InferenceError::NotPossible(Rule::Analogy))
    }
}

/// Resemblance: two similarities that share a term give a similarity of the other two.
pub fn resemblance(experience_base: &ExperienceBase, id_exp_1: usize, id_exp_2: usize) -> (r: Result<
    (Statement, TruthValue),
    InferenceError,
>)
    requires
        experience_base.wf(),
    ensures
        result_parts(r) == binary_outcome(experience_base@, Rule::Resemblance, id_exp_1, id_exp_2),
        r matches Ok((_, t)) ==> t.wf(),
{
    let (e1, e2) = operands(experience_base, id_exp_1, id_exp_2)?;
    let (a, b) = (&e1.stmt, &e2.stmt);
    let (t1, t2) = (e1.truth_value, e2.truth_value);
    if a.copula != Copula::Similarity || b.copula != Copula::Similarity {
        return Err(InferenceError::NotPossible(Rule::Resemblance));
    }
    let t = resemblance_tv(t1, t2);
    if a.left == b.left {
        Ok((statement(b.right.clone(), Copula::Similarity, a.right.clone()), t))
    } else if a.right == b.left {
        Ok((statement(a.left.clone(), Copula::Similarity, b.right.clone()), t))
    } else if a.left == b.right {
        Ok((statement(b.left.clone(), Copula::Similarity, a.right.clone()), t))
    } else if a.right == b.right {
        Ok((statement(a.left.clone(), Copula::Similarity, b.left.clone()), t))
    } else {
        Err(InferenceError::NotPossible(Rule::Resemblance))
    }
}

/// Union in extension: `a -> m` and `b -> m` give `(a|b) -> m`.
pub fn union_extension(experience_base: &ExperienceBase, id_exp_1: usize, id_exp_2: usize) -> (r: Result<
    (Statement, TruthValue),
    InferenceError,
>)
    requires
        experience_base.wf(),
    ensures
        result_parts(r) == binary_outcome(experience_base@, Rule::UnionExtension, id_exp_1, id_exp_2),
        r matches Ok((_, t)) ==> t.wf(),
{
    proof {
        reveal_strlit("|");
    }
    let (e1, e2) = operands(experience_base, id_exp_1, id_exp_2)?;
    let (a, b) = (&e1.stmt, &e2.stmt);
    let (t1, t2) = (e1.truth_value, e2.truth_value);
    let both_inh = a.copula == Copula::Inheritance && b.copula == Copula::Inheritance;
    if both_inh && a.right == b.right {
        let left = compound_term(&a.left, "|", &b.left);
        Ok((statement(left, Copula::Inheritance, b.right.clone()), union_extension_tv(t1, t2)))
    } else {
        Err(InferenceError::NotPossible(Rule::UnionExtension))
    }
}

/// Union in intension: `m -> a` and `m -> b` give `m -> (a|b)`.
pub fn union_intension(experience_base: &ExperienceBase, id_exp_1: usize, id_exp_2: usize) -> (r: Result<
    (Statement, TruthValue),
    InferenceError,
>)
    requires
        experience_base.wf(),
    ensures
        result_parts(r) == binary_outcome(experience_base@, Rule::UnionIntension, id_exp_1, id_exp_2),
        r matches Ok((_, t)) ==> t.wf(),
{
    proof {
        reveal_strlit("|");
    }
    let (e1, e2) = operands(experience_base, id_exp_1, id_exp_2)?;
    let (a, b) = (&e1.stmt, &e2.stmt);
    let (t1, t2) = (e1.truth_value, e2.truth_value);
    let both_inh = a.copula == Copula::Inheritance && b.copula == Copula::Inheritance;
    if both_inh && a.left == b.left {
        let right = compound_term(&a.right, "|", &b.right);
        Ok((statement(a.left.clone(), Copula::Inheritance, right), union_intension_tv(t1, t2)))
    } else {
        Err(InferenceError::NotPossible(Rule::UnionIntension))
    }
}

/// Intersection in extension: `a -> m` and `b -> m` give `(a&b) -> m`.
pub fn intersection_extension(experience_base: &ExperienceBase, id_exp_1: usize, id_exp_2: usize) -> (r: Result<
    (Statement, TruthValue),
    InferenceError,
>)
    requires
        experience_base.wf(),
    ensures
        result_parts(r) == binary_outcome(experience_base@, Rule::IntersectionExtension, id_exp_1, id_exp_2),
        r matches Ok((_, t)) ==> t.wf(),
{
    proof {
        reveal_strlit("&");
    }
    let (e1, e2) = operands(experience_base, id_exp_1, id_exp_2)?;
    let (a, b) = (&e1.stmt, &e2.stmt);
    let (t1, t2) = (e1.truth_value, e2.truth_value);
    let both_inh = a.copula == Copula::Inheritance && b.copula == Copula::Inheritance;
    if both_inh && a.right == b.right {
        let left = compound_term(&a.left, "&", &b.left);
        Ok((statement(left, Copula::Inheritance, b.right.clone()), intersection_extension_tv(t1, t2)))
    } else {
        Err(InferenceError::NotPossible(Rule::IntersectionExtension))
    }
}

/// Intersection in intension: `m -> a` and `m -> b` give `m -> (a&b)`.
pub fn intersection_intension(experience_base: &ExperienceBase, id_exp_1: usize, id_exp_2: usize) -> (r: Result<
    (Statement, TruthValue),
    InferenceError,
>)
    requires
        experience_base.wf(),
    ensures
        result_parts(r) == binary_outcome(experience_base@, Rule::IntersectionIntension, id_exp_1, id_exp_2),
        r matches Ok((_, t)) ==> t.wf(),
{
    proof {
        reveal_strlit("&");
    }
    let (e1, e2) = operands(experience_base, id_exp_1, id_exp_2)?;
    let (a, b) = (&e1.stmt, &e2.stmt);
    let (t1, t2) = (e1.truth_value, e2.truth_value);
    let both_inh = a.copula == Copula::Inheritance && b.copula == Copula::Inheritance;
    if both_inh && a.left == b.left {
        let right = compound_term(&a.right, "&", &b.right);
        Ok((statement(a.left.clone(), Copula::Inheritance, right), intersection_intension_tv(t1, t2)))
    } else {
        Err(InferenceError::NotPossible(Rule::IntersectionIntension))
    }
}

/// Difference in extension: `a -> m` and `b -> m` give `(a-b) -> m`.
pub fn difference_extension(experience_base: &ExperienceBase, id_exp_1: usize, id_exp_2: usize) -> (r: Result<
    (Statement, TruthValue),
    InferenceError,
>)
    requires
        experience_base.wf(),
    ensures
        result_parts(r) == binary_outcome(experience_base@, Rule::DifferenceExtension, id_exp_1, id_exp_2),
        r matches Ok((_, t)) ==> t.wf(),
{
    proof {
        reveal_strlit("-");
    }
    let (e1, e2) = operands(experience_base, id_exp_1, id_exp_2)?;
    let (a, b) = (&e1.stmt, &e2.stmt);
    let (t1, t2) = (e1.truth_value, e2.truth_value);
    let both_inh = a.copula == Copula::Inheritance && b.copula == Copula::Inheritance;
    if both_inh && a.right == b.right {
        let left = compound_term(&a.left, "-", &b.left);
        Ok((statement(left, Copula::Inheritance, b.right.clone()), difference_tv(t1, t2)))
    } else {
        Err(InferenceError::NotPossible(Rule::DifferenceExtension))
    }
}

/// Difference in intension: `m -> a` and `m -> b` give `m -> (a-b)`.
pub fn difference_intension(experience_base: &ExperienceBase, id_exp_1: usize, id_exp_2: usize) -> (r: Result<
    (Statement, TruthValue),
    InferenceError,
>)
    requires
        experience_base.wf(),
    ensures
        result_parts(r) == binary_outcome(experience_base@, Rule::DifferenceIntension, id_exp_1, id_exp_2),
        r matches Ok((_, t)) ==> t.wf(),
{
    proof {
        reveal_strlit("-");
    }
    let (e1, e2) = operands(experience_base, id_exp_1, id_exp_2)?;
    let (a, b) = (&e1.stmt, &e2.stmt);
    let (t1, t2) = (e1.truth_value, e2.truth_value);
    let both_inh = a.copula == Copula::Inheritance && b.copula == Copula::Inheritance;
    if both_inh && a.left == b.left {
        let right = compound_term(&a.right, "-", &b.right);
        Ok((statement(a.left.clone(), Copula::Inheritance, right), difference_tv(t1, t2)))
    } else {
        Err(InferenceError::NotPossible(Rule::DifferenceIntension))
    }
}

/// Choice: the better supported of two judgments, as it is stored.
pub fn choice(experience_base: &ExperienceBase, id_exp_1: usize, id_exp_2: usize) -> (r: Result<
    (Statement, TruthValue),
    InferenceError,
>)
    requires
        experience_base.wf(),
    ensures
        result_parts(r) == binary_outcome(experience_base@, Rule::Choice, id_exp_1, id_exp_2),
        r matches Ok((_, t)) ==> t.wf(),
{
    let (e1, e2) = operands(experience_base, id_exp_1, id_exp_2)?;
    let (a, b) = (&e1.stmt, &e2.stmt);
    let (t1, t2) = (e1.truth_value, e2.truth_value);
    if *a == *b {
        if t1.conf > t2.conf {
            Ok((a.clone(), t1))
        } else if t1.conf < t2.conf {
            Ok((b.clone(), t2))
        } else if t1.freq > t2.freq {
            Ok((a.clone(), t1))
        } else if t1.freq < t2.freq {
            Ok((b.clone(), t2))
        } else {
            Err(InferenceError::EqualExperiences)
        }
    } else {
        let order = compare_expectation(t1, t2);
        if order == 1 {
            Ok((a.clone(), t1))
        } else if order == -1 {
            Ok((b.clone(), t2))
        } else {
            Err(InferenceError::EqualExpectations)
        }
    }
}

/// Selection: the same as choice.
pub fn selection(experience_base: &ExperienceBase, id_exp_1: usize, id_exp_2: usize) -> (r: Result<
    (Statement, TruthValue),
    InferenceError,
>)
    requires
        experience_base.wf(),
    ensures
        result_parts(r) == binary_outcome(experience_base@, Rule::Choice, id_exp_1, id_exp_2),
        r matches Ok((_, t)) ==> t.wf(),
{
    choice(experience_base, id_exp_1, id_exp_2)
}

/// Conversion: `a -> b` gives `b -> a`.
pub fn conversion(experience_base: &ExperienceBase, id_exp: usize) -> (r: Result<
    (Statement, TruthValue),
    InferenceError,
>)
    requires
        experience_base.wf(),
    ensures
        result_parts(r) == unary_outcome(experience_base@, id_exp),
        r matches Ok((_, t)) ==> t.wf(),
{
    let e = match operand(experience_base, id_exp) {
        Some(e) => e,
        None => {
            return Err(InferenceError::NotFound);
        },
    };
    if e.stmt.copula == Copula::Similarity {
        return Err(InferenceError::NotPossible(Rule::Conversion));
    }
    Ok(
        (
            statement(e.stmt.right.clone(), Copula::Inheritance, e.stmt.left.clone()),
            conversion_tv(e.truth_value),
        ),
    )
}

} // verus!
