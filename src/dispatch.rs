//! Running an inference instruction: evaluate only, or apply and store.
use vstd::prelude::*;

use crate::experience::{element_text, find_id, ExperienceBase, ExperienceElement};
use crate::grammar::{copula_text, spaced3, Statement};
use crate::inference::{
    abduction, analogy, binary_outcome, choice, comparison, conversion, deduction,
    difference_extension, difference_intension, exemplification, induction,
    intersection_extension, intersection_intension, operand, resemblance, result_parts,
    revision, unary_outcome, union_extension, union_intension, InferenceError, Outcome, Parts,
    Rule,
};
use crate::instruction::InferenceInstruction;
use crate::notation::truth_text;
use crate::truth::TruthValue;

verus! {

/// What an instruction yields over the store `s`.
pub open spec fn instruction_outcome(s: Seq<ExperienceElement>, i: InferenceInstruction) -> Outcome {
    let (rule, a, b) = i.parts();
    if rule == Rule::Conversion {
        unary_outcome(s, a)
    } else {
        binary_outcome(s, rule, a, b)
    }
}

/// `left copula right`.
pub open spec fn parts_text(p: Parts) -> Seq<char> {
    spaced3(p.0, copula_text(p.1), p.2)
}

/// The antecedents, one line each (one line where both ids are equal), then
/// `RESULT: statement <f, c>`; each line indented by two spaces.
pub open spec fn report_text(
    s: Seq<ExperienceElement>,
    i: InferenceInstruction,
    p: Parts,
    t: TruthValue,
) -> Seq<char> {
    let (rule, a, b) = i.parts();
    let first = seq![' ', ' '] + element_text(find_id(s, a)->Some_0);
    let second = if a != b {
        seq!['\n', ' ', ' '] + element_text(find_id(s, b)->Some_0)
    } else {
        Seq::empty()
    };
    first + second + "\n  RESULT: "@ + parts_text(p) + seq![' '] + truth_text(t)
}

/// Runs the rule of `instruction`; returns its result and the operand ids.
fn execute_inference(experience_base: &ExperienceBase, instruction: InferenceInstruction) -> (r:
    Result<((Statement, TruthValue), usize, usize), InferenceError>)
    requires
        experience_base.wf(),
    ensures
        r matches Ok((res, a, b)) ==> result_parts(Ok(res)) == instruction_outcome(
            experience_base@,
            instruction,
        ) && a == instruction.parts().1 && b == instruction.parts().2 && res.1.wf(),
        r matches Err(e) ==> instruction_outcome(experience_base@, instruction) == Err::<
            (Parts, TruthValue),
            InferenceError,
        >(e),
{
    let b = experience_base;
    let (result, a, c) = match instruction {
        InferenceInstruction::Revision(x, y) => (revision(b, x, y)?, x, y),
        InferenceInstruction::Choice(x, y) => (choice(b, x, y)?, x, y),
        InferenceInstruction::Deduction(x, y) => (deduction(b, x, y)?, x, y),
        InferenceInstruction::Induction(x, y) => (induction(b, x, y)?, x, y),
        InferenceInstruction::Exemplification(x, y) => (exemplification(b, x, y)?, x, y),
        InferenceInstruction::Abduction(x, y) => (abduction(b, x, y)?, x, y),
        InferenceInstruction::Conversion(x) => (conversion(b, x)?, x, x),
        InferenceInstruction::Comparison(x, y) => (comparison(b, x, y)?, x, y),
        InferenceInstruction::Analogy(x, y) => (analogy(b, x, y)?, x, y),
        InferenceInstruction::Resemblance(x, y) => (resemblance(b, x, y)?, x, y),
        InferenceInstruction::UnionExtension(x, y) => (union_extension(b, x, y)?, x, y),
        InferenceInstruction::UnionIntension(x, y) => (union_intension(b, x, y)?, x, y),
        InferenceInstruction::IntersectionExtension(x, y) => (
            intersection_extension(b, x, y)?,
            x,
            y,
        ),
        InferenceInstruction::IntersectionIntension(x, y) => (
            intersection_intension(b, x, y)?,
            x,
            y,
        ),
        InferenceInstruction::DifferenceExtension(x, y) => (difference_extension(b, x, y)?, x, y),
        InferenceInstruction::DifferenceIntension(x, y) => (difference_intension(b, x, y)?, x, y),
    };
    Ok((result, a, c))
}

/// The report of a successful inference.
fn report(
    experience_base: &ExperienceBase,
    instruction: InferenceInstruction,
    stmt: &Statement,
    truth_value: TruthValue,
) -> (r: String)
    requires
        experience_base.wf(),
        truth_value.wf(),
        find_id(experience_base@, instruction.parts().1) is Some,
        find_id(experience_base@, instruction.parts().2) is Some,
    ensures
        r@ == report_text(experience_base@, instruction, stmt.parts(), truth_value),
{
    let (id1, id2) = instruction.ids();
    let e1 = operand(experience_base, id1).unwrap();
    let mut out = String::from_str("  ");
    out.append(e1.to_string().as_str());
    if id1 != id2 {
        let e2 = operand(experience_base, id2).unwrap();
        out.append("\n  ");
        out.append(e2.to_string().as_str());
    }
    out.append("\n  RESULT: ");
    out.append(stmt.to_string().as_str());
    out.append(" ");
    out.append(truth_value.to_string().as_str());
    proof {
        reveal_strlit("  ");
        reveal_strlit("\n  ");
        reveal_strlit(" ");
    }
    assert(out@ =~= report_text(experience_base@, instruction, stmt.parts(), truth_value));
    out
}

impl InferenceInstruction {
    /// The operand ids; conversion's one id twice.
    pub fn ids(&self) -> (r: (usize, usize))
        ensures
            r.0 == self.parts().1,
            r.1 == self.parts().2,
    {
        match *self {
            InferenceInstruction::Revision(a, b) => (a, b),
            InferenceInstruction::Choice(a, b) => (a, b),
            InferenceInstruction::Deduction(a, b) => (a, b),
            InferenceInstruction::Induction(a, b) => (a, b),
            InferenceInstruction::Exemplification(a, b) => (a, b),
            InferenceInstruction::Abduction(a, b) => (a, b),
            InferenceInstruction::Conversion(a) => (a, a),
            InferenceInstruction::Comparison(a, b) => (a, b),
            InferenceInstruction::Analogy(a, b) => (a, b),
            InferenceInstruction::Resemblance(a, b) => (a, b),
            InferenceInstruction::UnionExtension(a, b) => (a, b),
            InferenceInstruction::UnionIntension(a, b) => (a, b),
            InferenceInstruction::IntersectionExtension(a, b) => (a, b),
            InferenceInstruction::IntersectionIntension(a, b) => (a, b),
            InferenceInstruction::DifferenceExtension(a, b) => (a, b),
            InferenceInstruction::DifferenceIntension(a, b) => (a, b),
        }
    }
}

/// Evaluates an instruction and reports it, leaving the store as it is.
pub fn print_inference_result(
    experience_base: &ExperienceBase,
    inference_instruction: InferenceInstruction,
) -> (r: Result<String, InferenceError>)
    requires
        experience_base.wf(),
    ensures
        r is Ok <==> instruction_outcome(experience_base@, inference_instruction) is Ok,
        r matches Ok(text) ==> text@ == report_text(
            experience_base@,
            inference_instruction,
            instruction_outcome(experience_base@, inference_instruction)->Ok_0.0,
            instruction_outcome(experience_base@, inference_instruction)->Ok_0.1,
        ),
        r matches Err(e) ==> instruction_outcome(experience_base@, inference_instruction) == Err::<
            (Parts, TruthValue),
            InferenceError,
        >(e),
{
    let ((stmt, truth_value), _a, _b) = execute_inference(experience_base, inference_instruction)?;
    Ok(report(experience_base, inference_instruction, &stmt, truth_value))
}

/// Evaluates an instruction, appends its result to the store under the next
/// id with creation time `created_at`, and reports it.
pub fn infer_and_update(
    experience_base: &mut ExperienceBase,
    inference_instruction: InferenceInstruction,
    created_at: i64,
) -> (r: Result<String, InferenceError>)
    requires
        old(experience_base).wf(),
        old(experience_base).last_id() < usize::MAX,
    ensures
        final(experience_base).wf(),
        r is Ok <==> instruction_outcome(old(experience_base)@, inference_instruction) is Ok,
        r matches Err(e) ==> instruction_outcome(old(experience_base)@, inference_instruction)
            == Err::<(Parts, TruthValue), InferenceError>(e) && final(experience_base)@ == old(
            experience_base,
        )@ && final(experience_base).term_index() == old(experience_base).term_index()
            && final(experience_base).last_id() == old(experience_base).last_id(),
        r matches Ok(text) ==> {
            let (p, t) = instruction_outcome(old(experience_base)@, inference_instruction)->Ok_0;
            let added = final(experience_base)@.last();
            &&& text@ == report_text(old(experience_base)@, inference_instruction, p, t)
            &&& final(experience_base)@ == old(experience_base)@.push(added)
            &&& added.id == old(experience_base).last_id() + 1
            &&& added.stmt.parts() == p
            &&& added.truth_value == t
            &&& added.created_at == created_at
            &&& final(experience_base).last_id() == old(experience_base).last_id() + 1
            &&& final(experience_base).term_index() == old(experience_base).term_index().insert(
                p.0,
            ).insert(p.2)
        },
{
    let ((stmt, truth_value), _a, _b) = execute_inference(experience_base, inference_instruction)?;
    let text = report(experience_base, inference_instruction, &stmt, truth_value);
    let new_id = experience_base.get_next_id();
    experience_base.add(ExperienceElement::new_with_truth_value(stmt, new_id, truth_value, created_at));
    Ok(text)
}

} // verus!
