//! Answering queries: a stored match, or a truth value derived from the
//! extensions and intensions of the two terms.
use vstd::prelude::*;

use crate::experience::{element_text, truths_wf, ExperienceBase, ExperienceElement};
use crate::grammar::{copula_text, spaced3, OptionalTerm, Query, Statement, Term};
use crate::meaning::{
    contains_word, extension, extension_from_term, intension, intension_from_term, words,
};
use crate::notation::truth_text;
use crate::truth::{confidence, confidence_of, frequency, frequency_of, TruthValue};

verus! {

/// Terms shared by the two extensions or by the two intensions.
pub open spec fn positive_evidence(b: ExperienceBase, l: Seq<char>, r: Seq<char>) -> nat {
    extension(b, l).intersect(extension(b, r)).union(intension(b, l).intersect(intension(b, r))).len()
}

/// Terms of the left extension not in the right one, or of the left
/// intension not in the right one.
pub open spec fn negative_evidence(b: ExperienceBase, l: Seq<char>, r: Seq<char>) -> nat {
    extension(b, l).difference(extension(b, r)).union(intension(b, l).difference(intension(b, r))).len()
}

/// The truth of `l -> r` as the store's evidence has it, with horizon 1.
pub open spec fn derived_truth(b: ExperienceBase, l: Seq<char>, r: Seq<char>) -> TruthValue {
    let pe = positive_evidence(b, l, r) as int;
    let w = pe + negative_evidence(b, l, r);
    TruthValue { freq: frequency_of(pe, w) as u64, conf: confidence_of(w, 1) as u64 }
}

/// The words of `a` that `keep` selects, added to `acc` unless already there.
fn gather(acc: &mut Vec<Term>, a: &Vec<Term>, b: &Vec<Term>, keep_shared: bool)
    requires
        words(old(acc)@).no_duplicates(),
    ensures
        words(final(acc)@).no_duplicates(),
        words(final(acc)@).to_set() == words(old(acc)@).to_set().union(
            if keep_shared {
                words(a@).to_set().intersect(words(b@).to_set())
            } else {
                words(a@).to_set().difference(words(b@).to_set())
            },
        ),
{
    let ghost start = words(acc@).to_set();
    let ghost sel = if keep_shared {
        words(a@).to_set().intersect(words(b@).to_set())
    } else {
        words(a@).to_set().difference(words(b@).to_set())
    };
    let mut i: usize = 0;
    while i < a.len()
        invariant
            i <= a@.len(),
            words(acc@).no_duplicates(),
            sel == (if keep_shared {
                words(a@).to_set().intersect(words(b@).to_set())
            } else {
                words(a@).to_set().difference(words(b@).to_set())
            }),
            words(acc@).to_set() == start.union(
                sel.intersect(words(a@.take(i as int)).to_set()),
            ),
        decreases a@.len() - i,
    {
        let w = &a[i].word;
        let in_b = contains_word(b, w);
        let ghost before = words(acc@);
        assert(words(a@.take(i as int + 1)) =~= words(a@.take(i as int)).push(w@));
        assert(words(a@)[i as int] == w@);
        if in_b == keep_shared && !contains_word(acc, w) {
            acc.push(a[i].clone());
            assert(words(acc@) =~= before.push(w@));
        }
        proof {
            let now = words(acc@);
            assert(words(a@).to_set().contains(w@));
            assert(words(a@.take(i as int + 1)) =~= words(a@.take(i as int)) + seq![w@]);
            Seq::lemma_to_set_insert_commutes(words(a@.take(i as int)), w@);
            assert(sel.contains(w@) == (in_b == keep_shared));
            assert forall|x: Seq<char>| #[trigger]
                now.to_set().contains(x) <==> (before.to_set().contains(x) || (x == w@
                    && sel.contains(x))) by {
                if now.contains(x) && !before.contains(x) {
                    let j = choose|j: int| 0 <= j < now.len() && now[j] == x;
                    if j < before.len() {
                        assert(before[j] == x);
                    }
                }
                if before.contains(x) {
                    let j = choose|j: int| 0 <= j < before.len() && before[j] == x;
                    assert(now[j] == x);
                }
                if x == w@ && sel.contains(x) && !before.contains(x) {
                    assert(now[before.len() as int] == x);
                }
            }
            assert(now.to_set() =~= start.union(
                sel.intersect(words(a@.take(i as int + 1)).to_set()),
            ));
            if now.len() > before.len() {
                assert forall|p: int, q: int|
                    0 <= p < q < now.len() implies now[p] != now[q] by {
                    if q == before.len() {
                        assert(before.contains(now[p]));
                    }
                }
            }
        }
        i = i + 1;
    }
    assert(a@.take(a@.len() as int) =~= a@);
    assert(sel.intersect(words(a@).to_set()) =~= sel);
}

/// The size of a set that a duplicate-free list of terms spells.
proof fn lemma_count(v: Seq<Term>)
    requires
        words(v).no_duplicates(),
    ensures
        words(v).to_set().len() == v.len(),
{
    words(v).unique_seq_to_set();
}

impl TruthValue {
    /// How many terms count for `left -> right`.
    pub fn get_positive_evidence(left: &Term, right: &Term, exp_base: &ExperienceBase) -> (r:
        usize)
        ensures
            r == positive_evidence(*exp_base, left.word@, right.word@),
    {
        let le = extension_from_term(left, exp_base);
        let re = extension_from_term(right, exp_base);
        let li = intension_from_term(left, exp_base);
        let ri = intension_from_term(right, exp_base);
        let mut acc: Vec<Term> = Vec::new();
        assert(words(acc@).to_set() =~= Set::<Seq<char>>::empty());
        gather(&mut acc, &le, &re, true);
        gather(&mut acc, &li, &ri, true);
        proof {
            lemma_count(acc@);
            assert(words(acc@).to_set() =~= extension(*exp_base, left.word@).intersect(
                extension(*exp_base, right.word@),
            ).union(intension(*exp_base, left.word@).intersect(intension(*exp_base, right.word@))));
        }
        acc.len()
    }

    /// How many terms count against `left -> right`.
    pub fn get_negative_evidence(left: &Term, right: &Term, exp_base: &ExperienceBase) -> (r:
        usize)
        ensures
            r == negative_evidence(*exp_base, left.word@, right.word@),
    {
        let le = extension_from_term(left, exp_base);
        let re = extension_from_term(right, exp_base);
        let li = intension_from_term(left, exp_base);
        let ri = intension_from_term(right, exp_base);
        let mut acc: Vec<Term> = Vec::new();
        assert(words(acc@).to_set() =~= Set::<Seq<char>>::empty());
        gather(&mut acc, &le, &re, false);
        gather(&mut acc, &li, &ri, false);
        proof {
            lemma_count(acc@);
            assert(words(acc@).to_set() =~= extension(*exp_base, left.word@).difference(
                extension(*exp_base, right.word@),
            ).union(
                intension(*exp_base, left.word@).difference(intension(*exp_base, right.word@)),
            ));
        }
        acc.len()
    }

    /// The truth value that the store's evidence gives `stmt`; where there is
    /// none either way, frequency one half and confidence zero.
    pub fn from_statement(stmt: &Statement, exp_base: &ExperienceBase) -> (r: Result<
        TruthValue,
        String,
    >)
        ensures
            r == Ok::<TruthValue, String>(
                derived_truth(*exp_base, stmt.left.word@, stmt.right.word@),
            ),
            r matches Ok(t) ==> t.wf(),
    {
        let pe = TruthValue::get_positive_evidence(&stmt.left, &stmt.right, exp_base) as u128;
        let ne = TruthValue::get_negative_evidence(&stmt.left, &stmt.right, exp_base) as u128;
        Ok(TruthValue { freq: frequency(pe, pe + ne), conf: confidence(pe + ne, 1) })
    }
}


/// A query with the wildcard on both sides.
#[derive(Clone, Copy, Debug, PartialEq, Eq, Structural)]
pub enum QueryError {
    InvalidQuery,
}

impl QueryError {
    pub fn message(&self) -> (r: &'static str)
        ensures
            r@ == "Invalid Query"@,
    {
        "Invalid Query"
    }
}

/// A query side fits a term: it is the wildcard or that term.
pub open spec fn side_matches(side: Option<Seq<char>>, w: Seq<char>) -> bool {
    side is None || side == Some(w)
}

/// `e` fits the pattern of `q` on each side that is not the wildcard.
pub open spec fn answers(q: Query, e: ExperienceElement) -> bool {
    side_matches(q.left.side(), e.stmt.left.word@) && side_matches(
        q.right.side(),
        e.stmt.right.word@,
    )
}

/// The index of the first element that fits `q`, or -1.
pub open spec fn first_answer(s: Seq<ExperienceElement>, q: Query) -> int
    decreases s.len(),
{
    if s.len() == 0 {
        -1
    } else if answers(q, s[0]) {
        0
    } else {
        let r = first_answer(s.drop_first(), q);
        if r < 0 {
            -1
        } else {
            r + 1
        }
    }
}

proof fn lemma_first_answer(s: Seq<ExperienceElement>, q: Query, i: int)
    requires
        0 <= i <= s.len(),
        forall|j: int| 0 <= j < i ==> !answers(q, #[trigger] s[j]),
    ensures
        i < s.len() && answers(q, s[i]) ==> first_answer(s, q) == i,
        i == s.len() ==> first_answer(s, q) == -1,
    decreases i,
{
    if i > 0 {
        assert forall|j: int| 0 <= j < i - 1 implies !answers(q, #[trigger] s.drop_first()[j]) by {
            assert(s.drop_first()[j] == s[j + 1]);
        }
        lemma_first_answer(s.drop_first(), q, i - 1);
    }
}

/// What a query prints: the first stored match; or, with both sides given, the
/// statement with the truth value the evidence gives it; or that nothing matched.
pub open spec fn query_text(b: ExperienceBase, q: Query) -> Result<Seq<char>, QueryError> {
    let k = first_answer(b@, q);
    if q.left.side() is None && q.right.side() is None {
        Err(QueryError::InvalidQuery)
    } else if k >= 0 {
        Ok(seq![' ', ' '] + element_text(b@[k]))
    } else if q.left.side() is Some && q.right.side() is Some {
        let l = q.left.side()->Some_0;
        let r = q.right.side()->Some_0;
        Ok(seq![' ', ' '] + spaced3(l, copula_text(q.copula), r) + seq![' '] + truth_text(
            derived_truth(b, l, r),
        ))
    } else {
        Ok("  No matches found."@)
    }
}

fn side_fits(side: &OptionalTerm, w: &String) -> (r: bool)
    ensures
        r == side_matches(side.side(), w@),
{
    match side {
        OptionalTerm::Question => true,
        OptionalTerm::Term(t) => t.word == *w,
    }
}

impl ExperienceBase {
    /// Answers `q` against the store.
    pub fn query(&self, q: Query) -> (r: Result<String, QueryError>)
        requires
            self.wf(),
        ensures
            r matches Ok(t) ==> query_text(*self, q) == Ok::<Seq<char>, QueryError>(t@),
            r matches Err(e) ==> query_text(*self, q) == Err::<Seq<char>, QueryError>(e),
    {
        if q.left.side_is_wildcard() && q.right.side_is_wildcard() {
            return Err(QueryError::InvalidQuery);
        }
        let s = self.experiences();
        let mut i: usize = 0;
        while i < s.len()
            invariant
                s@ == self@,
                self.wf(),
                !(q.left.side() is None && q.right.side() is None),
                i <= s@.len(),
                forall|j: int| 0 <= j < i ==> !answers(q, #[trigger] s@[j]),
            decreases s@.len() - i,
        {
            let e = &s[i];
            if side_fits(&q.left, &e.stmt.left.word) && side_fits(&q.right, &e.stmt.right.word) {
                proof {
                    lemma_first_answer(self@, q, i as int);
                    assert(truths_wf(self@));
                    assert(s@[i as int].truth_value.wf());
                }
                let mut out = String::from_str("  ");
                let line = e.to_string();
                out.append(line.as_str());
                proof {
                    reveal_strlit("  ");
                }
                assert(out@ =~= seq![' ', ' '] + element_text(self@[i as int]));
                return Ok(out);
            }
            i = i + 1;
        }
        proof {
            lemma_first_answer(self@, q, i as int);
        }
        match (&q.left, &q.right) {
            (OptionalTerm::Term(l), OptionalTerm::Term(r)) => {
                let stmt = Statement { left: l.clone(), copula: q.copula, right: r.clone() };
                let tv = match TruthValue::from_statement(&stmt, self) {
                    Ok(t) => t,
                    Err(_) => TruthValue { freq: 500_000_000, conf: 0 },
                };
                let mut out = String::from_str("  ");
                let st = stmt.to_string();
                out.append(st.as_str());
                out.append(" ");
                let tt = tv.to_string();
                out.append(tt.as_str());
                proof {
                    reveal_strlit("  ");
                    reveal_strlit(" ");
                }
                assert(out@ =~= seq![' ', ' '] + spaced3(l.word@, copula_text(q.copula), r.word@)
                    + seq![' '] + truth_text(derived_truth(*self, l.word@, r.word@)));
                Ok(out)
            },
            _ => {
                let out = String::from_str("  No matches found.");
                Ok(out)
            },
        }
    }
}

/// Where neither term is in the store's index there is no evidence either way,
/// and the derived truth value is frequency one half, confidence zero.
pub proof fn lemma_unknown_terms_have_no_evidence(b: ExperienceBase, l: Seq<char>, r: Seq<char>)
    requires
        !b.term_index().contains(l),
        !b.term_index().contains(r),
    ensures
        positive_evidence(b, l, r) == 0,
        negative_evidence(b, l, r) == 0,
        derived_truth(b, l, r) == (TruthValue { freq: 500_000_000, conf: 0 }),
{
    let e = Set::<Seq<char>>::empty();
    assert(extension(b, l) == e && extension(b, r) == e);
    assert(intension(b, l) == e && intension(b, r) == e);
    assert(e.intersect(e).union(e.intersect(e)) =~= e);
    assert(e.difference(e).union(e.difference(e)) =~= e);
    crate::truth::lemma_round_le(0, 1, 0);
}

} // verus!
