//! Inference instructions: a rule name and the ids of its operands.
use vstd::prelude::*;

use crate::grammar::str_equal;
use crate::inference::Rule;
use crate::text::{parse_index, parse_usize, string_views};

verus! {

/// A rule applied to one or two stored judgments, by id.
#[derive(Clone, Copy, Debug, PartialEq, Eq, Structural)]
pub enum InferenceInstruction {
    Revision(usize, usize),
    Choice(usize, usize),
    Deduction(usize, usize),
    Induction(usize, usize),
    Exemplification(usize, usize),
    Abduction(usize, usize),
    Conversion(usize),
    Comparison(usize, usize),
    Analogy(usize, usize),
    Resemblance(usize, usize),
    UnionExtension(usize, usize),
    UnionIntension(usize, usize),
    IntersectionExtension(usize, usize),
    IntersectionIntension(usize, usize),
    DifferenceExtension(usize, usize),
    DifferenceIntension(usize, usize),
}

/// Why words are not an inference instruction.
#[derive(Clone, Copy, Debug, PartialEq, Eq, Structural)]
pub enum InstructionError {
    /// The first word names no rule.
    UnknownRule,
    /// A two-operand rule without two ids after it.
    ExpectedTwoIds,
    /// Conversion without an id after it.
    ExpectedOneId,
}

/// The text of an instruction error.
pub open spec fn instruction_error_text(e: InstructionError) -> Seq<char> {
    match e {
        InstructionError::UnknownRule => "Invalid inference instruction"@,
        InstructionError::ExpectedTwoIds => "Invalid inference instruction: Expected <id1> <id2>"@,
        InstructionError::ExpectedOneId => "Invalid inference instruction: Expected <id>"@,
    }
}

impl InstructionError {
    pub fn message(&self) -> (r: &'static str)
        ensures
            r@ == instruction_error_text(*self),
    {
        match self {
            InstructionError::UnknownRule => "Invalid inference instruction",
            InstructionError::ExpectedTwoIds => "Invalid inference instruction: Expected <id1> <id2>",
            InstructionError::ExpectedOneId => "Invalid inference instruction: Expected <id>",
        }
    }
}

/// The rule that a word names: its full name or an abbreviation.
pub open spec fn rule_named(w: Seq<char>) -> Option<Rule> {
    if w == "revision"@ || w == "rev"@ || w == "r"@ {
        Some(Rule::Revision)
    } else if w == "choice"@ || w == "cho"@ || w == "ch"@ {
        Some(Rule::Choice)
    } else if w == "deduction"@ || w == "ded"@ || w == "d"@ {
        Some(Rule::Deduction)
    } else if w == "induction"@ || w == "ind"@ || w == "i"@ {
        Some(Rule::Induction)
    } else if w == "exemplification"@ || w == "exe"@ || w == "e"@ {
        Some(Rule::Exemplification)
    } else if w == "abduction"@ || w == "abd"@ || w == "a"@ {
        Some(Rule::Abduction)
    } else if w == "conversion"@ || w == "cnv"@ || w == "c"@ {
        Some(Rule::Conversion)
    } else if w == "comparison"@ || w == "com"@ {
        Some(Rule::Comparison)
    } else if w == "analogy"@ || w == "ana"@ {
        Some(Rule::Analogy)
    } else if w == "resemblance"@ || w == "res"@ {
        Some(Rule::Resemblance)
    } else if w == "union_extension"@ || w == "ue"@ {
        Some(Rule::UnionExtension)
    } else if w == "union_intension"@ || w == "ui"@ {
        Some(Rule::UnionIntension)
    } else if w == "intersection_extension"@ || w == "ie"@ {
        Some(Rule::IntersectionExtension)
    } else if w == "intersection_intension"@ || w == "ii"@ {
        Some(Rule::IntersectionIntension)
    } else if w == "difference_extension"@ || w == "de"@ {
        Some(Rule::DifferenceExtension)
    } else if w == "difference_intension"@ || w == "di"@ {
        Some(Rule::DifferenceIntension)
    } else {
        None
    }
}

/// The instruction that applies `rule` to `id1` and `id2` (conversion: `id1`).
pub open spec fn instruction_of(rule: Rule, id1: usize, id2: usize) -> InferenceInstruction {
    match rule {
        Rule::Revision => InferenceInstruction::Revision(id1, id2),
        Rule::Choice => InferenceInstruction::Choice(id1, id2),
        Rule::Deduction => InferenceInstruction::Deduction(id1, id2),
        Rule::Induction => InferenceInstruction::Induction(id1, id2),
        Rule::Exemplification => InferenceInstruction::Exemplification(id1, id2),
        Rule::Abduction => InferenceInstruction::Abduction(id1, id2),
        Rule::Conversion => InferenceInstruction::Conversion(id1),
        Rule::Comparison => InferenceInstruction::Comparison(id1, id2),
        Rule::Analogy => InferenceInstruction::Analogy(id1, id2),
        Rule::Resemblance => InferenceInstruction::Resemblance(id1, id2),
        Rule::UnionExtension => InferenceInstruction::UnionExtension(id1, id2),
        Rule::UnionIntension => InferenceInstruction::UnionIntension(id1, id2),
        Rule::IntersectionExtension => InferenceInstruction::IntersectionExtension(id1, id2),
        Rule::IntersectionIntension => InferenceInstruction::IntersectionIntension(id1, id2),
        Rule::DifferenceExtension => InferenceInstruction::DifferenceExtension(id1, id2),
        Rule::DifferenceIntension => InferenceInstruction::DifferenceIntension(id1, id2),
    }
}

/// The instruction that words spell: a rule name, then its ids; later words are ignored.
pub open spec fn instruction_from(args: Seq<Seq<char>>) -> Result<
    InferenceInstruction,
    InstructionError,
> {
    if args.len() == 0 || rule_named(args[0]) is None {
        Err(InstructionError::UnknownRule)
    } else if rule_named(args[0]) == Some(Rule::Conversion) {
        if args.len() < 2 || parse_index(args[1]) is None {
            Err(InstructionError::ExpectedOneId)
        } else {
            let id = parse_index(args[1])->Some_0;
            Ok(InferenceInstruction::Conversion(id))
        }
    } else if args.len() < 3 || parse_index(args[1]) is None || parse_index(args[2]) is None {
        Err(InstructionError::ExpectedTwoIds)
    } else {
        Ok(
            instruction_of(
                rule_named(args[0])->Some_0,
                parse_index(args[1])->Some_0,
                parse_index(args[2])->Some_0,
            ),
        )
    }
}

fn is_one_of(w: &str, a: &str, b: &str, c: &str) -> (r: bool)
    ensures
        r == (w@ == a@ || w@ == b@ || w@ == c@),
{
    str_equal(w, a) || str_equal(w, b) || str_equal(w, c)
}

fn name_rule(w: &str) -> (r: Option<Rule>)
    ensures
        r == rule_named(w@),
{
    if is_one_of(w, "revision", "rev", "r") {
        Some(Rule::Revision)
    } else if is_one_of(w, "choice", "cho", "ch") {
        Some(Rule::Choice)
    } else if is_one_of(w, "deduction", "ded", "d") {
        Some(Rule::Deduction)
    } else if is_one_of(w, "induction", "ind", "i") {
        Some(Rule::Induction)
    } else if is_one_of(w, "exemplification", "exe", "e") {
        Some(Rule::Exemplification)
    } else if is_one_of(w, "abduction", "abd", "a") {
        Some(Rule::Abduction)
    } else if is_one_of(w, "conversion", "cnv", "c") {
        Some(Rule::Conversion)
    } else if str_equal(w, "comparison") || str_equal(w, "com") {
        Some(Rule::Comparison)
    } else if str_equal(w, "analogy") || str_equal(w, "ana") {
        Some(Rule::Analogy)
    } else if str_equal(w, "resemblance") || str_equal(w, "res") {
        Some(Rule::Resemblance)
    } else if str_equal(w, "union_extension") || str_equal(w, "ue") {
        Some(Rule::UnionExtension)
    } else if str_equal(w, "union_intension") || str_equal(w, "ui") {
        Some(Rule::UnionIntension)
    } else if str_equal(w, "intersection_extension") || str_equal(w, "ie") {
        Some(Rule::IntersectionExtension)
    } else if str_equal(w, "intersection_intension") || str_equal(w, "ii") {
        Some(Rule::IntersectionIntension)
    } else if str_equal(w, "difference_extension") || str_equal(w, "de") {
        Some(Rule::DifferenceExtension)
    } else if str_equal(w, "difference_intension") || str_equal(w, "di") {
        Some(Rule::DifferenceIntension)
    } else {
        None
    }
}

impl InferenceInstruction {
    /// Reads `rule id1 id2`, or `conversion id`.
    pub fn new(args: &[String]) -> (r: Result<InferenceInstruction, InstructionError>)
        ensures
            r == instruction_from(string_views(args@)),
    {
        let ghost v = string_views(args@);
        if args.len() == 0 {
            return Err(InstructionError::UnknownRule);
        }
        assert(v[0] == args@[0]@);
        let rule = match name_rule(args[0].as_str()) {
            Some(rule) => rule,
            None => {
                return Err(InstructionError::UnknownRule);
            },
        };
        if args.len() < 2 {
            return Err(
                if rule == Rule::Conversion {
                    InstructionError::ExpectedOneId
                } else {
                    InstructionError::ExpectedTwoIds
                },
            );
        }
        assert(v[1] == args@[1]@);
        let id1 = parse_usize(args[1].as_str());
        if rule == Rule::Conversion {
            return match id1 {
                Some(id) => Ok(InferenceInstruction::Conversion(id)),
                None => Err(InstructionError::ExpectedOneId),
            };
        }
        if args.len() < 3 {
            return Err(InstructionError::ExpectedTwoIds);
        }
        assert(v[2] == args@[2]@);
        let id2 = parse_usize(args[2].as_str());
        match (id1, id2) {
            (Some(a), Some(b)) => Ok(InferenceInstruction::make(rule, a, b)),
            _ => Err(InstructionError::ExpectedTwoIds),
        }
    }

    fn make(rule: Rule, id1: usize, id2: usize) -> (r: InferenceInstruction)
        ensures
            r == instruction_of(rule, id1, id2),
    {
        match rule {
            Rule::Revision => InferenceInstruction::Revision(id1, id2),
            Rule::Choice => InferenceInstruction::Choice(id1, id2),
            Rule::Deduction => InferenceInstruction::Deduction(id1, id2),
            Rule::Induction => InferenceInstruction::Induction(id1, id2),
            Rule::Exemplification => InferenceInstruction::Exemplification(id1, id2),
            Rule::Abduction => InferenceInstruction::Abduction(id1, id2),
            Rule::Conversion => InferenceInstruction::Conversion(id1),
            Rule::Comparison => InferenceInstruction::Comparison(id1, id2),
            Rule::Analogy => InferenceInstruction::Analogy(id1, id2),
            Rule::Resemblance => InferenceInstruction::Resemblance(id1, id2),
            Rule::UnionExtension => InferenceInstruction::UnionExtension(id1, id2),
            Rule::UnionIntension => InferenceInstruction::UnionIntension(id1, id2),
            Rule::IntersectionExtension => InferenceInstruction::IntersectionExtension(id1, id2),
            Rule::IntersectionIntension => InferenceInstruction::IntersectionIntension(id1, id2),
            Rule::DifferenceExtension => InferenceInstruction::DifferenceExtension(id1, id2),
            Rule::DifferenceIntension => InferenceInstruction::DifferenceIntension(id1, id2),
        }
    }

    /// The rule and the operand ids; conversion has one id, given twice.
    pub open spec fn parts(self) -> (Rule, usize, usize) {
        match self {
            InferenceInstruction::Revision(a, b) => (Rule::Revision, a, b),
            InferenceInstruction::Choice(a, b) => (Rule::Choice, a, b),
            InferenceInstruction::Deduction(a, b) => (Rule::Deduction, a, b),
            InferenceInstruction::Induction(a, b) => (Rule::Induction, a, b),
            InferenceInstruction::Exemplification(a, b) => (Rule::Exemplification, a, b),
            InferenceInstruction::Abduction(a, b) => (Rule::Abduction, a, b),
            InferenceInstruction::Conversion(a) => (Rule::Conversion, a, a),
            InferenceInstruction::Comparison(a, b) => (Rule::Comparison, a, b),
            InferenceInstruction::Analogy(a, b) => (Rule::Analogy, a, b),
            InferenceInstruction::Resemblance(a, b) => (Rule::Resemblance, a, b),
            InferenceInstruction::UnionExtension(a, b) => (Rule::UnionExtension, a, b),
            InferenceInstruction::UnionIntension(a, b) => (Rule::UnionIntension, a, b),
            InferenceInstruction::IntersectionExtension(a, b) => (Rule::IntersectionExtension, a, b),
            InferenceInstruction::IntersectionIntension(a, b) => (Rule::IntersectionIntension, a, b),
            InferenceInstruction::DifferenceExtension(a, b) => (Rule::DifferenceExtension, a, b),
            InferenceInstruction::DifferenceIntension(a, b) => (Rule::DifferenceIntension, a, b),
        }
    }
}

} // verus!
