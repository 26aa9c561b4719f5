//! Extension and intension: the terms below and above a term in the
//! inheritance graph of the store.
use vstd::prelude::*;

use crate::experience::{ExperienceBase, ExperienceElement};
use crate::grammar::{Copula, Term};

verus! {

/// `e` is an inheritance `y -> x` (downward, `up` false) or `x -> y` (upward).
pub open spec fn links(e: ExperienceElement, up: bool, x: Seq<char>, y: Seq<char>) -> bool {
    &&& e.stmt.copula == Copula::Inheritance
    &&& if up {
        e.stmt.left.word@ == x && e.stmt.right.word@ == y
    } else {
        e.stmt.right.word@ == x && e.stmt.left.word@ == y
    }
}

/// Some stored statement leads from `x` to `y`.
pub open spec fn step(s: Seq<ExperienceElement>, up: bool, x: Seq<char>, y: Seq<char>) -> bool {
    exists|i: int| 0 <= i < s.len() && #[trigger] links(s[i], up, x, y)
}

/// `p` is a chain of steps.
pub open spec fn is_path(s: Seq<ExperienceElement>, up: bool, p: Seq<Seq<char>>) -> bool {
    &&& p.len() >= 1
    &&& forall|k: int| 0 < k < p.len() ==> step(s, up, p[k - 1], #[trigger] p[k])
}

/// A chain of steps leads from `t` to `u` (possibly the empty chain).
pub open spec fn reachable(s: Seq<ExperienceElement>, up: bool, t: Seq<char>, u: Seq<char>) -> bool {
    exists|p: Seq<Seq<char>>| is_path(s, up, p) && p[0] == t && p.last() == u
}

/// The terms that `t` reaches, or none where `t` is not in the term index.
pub open spec fn closure(b: ExperienceBase, up: bool, t: Seq<char>) -> Set<Seq<char>> {
    if b.term_index().contains(t) {
        Set::new(|u: Seq<char>| reachable(b@, up, t, u))
    } else {
        Set::empty()
    }
}

/// `t` and every term below it: the subjects of inheritances into the set.
pub open spec fn extension(b: ExperienceBase, t: Seq<char>) -> Set<Seq<char>> {
    closure(b, false, t)
}

/// `t` and every term above it: the predicates of inheritances out of the set.
pub open spec fn intension(b: ExperienceBase, t: Seq<char>) -> Set<Seq<char>> {
    closure(b, true, t)
}

/// The texts of a list of terms.
pub open spec fn words(v: Seq<Term>) -> Seq<Seq<char>> {
    v.map_values(|t: Term| t.word@)
}

/// The term that a step from `e` reaches.
pub open spec fn far_end(e: ExperienceElement, up: bool) -> Seq<char> {
    if up {
        e.stmt.right.word@
    } else {
        e.stmt.left.word@
    }
}

/// Every term a closure from `t` can hold: `t`, and the far end of each statement.
pub open spec fn candidates(s: Seq<ExperienceElement>, up: bool, t: Seq<char>) -> Seq<Seq<char>> {
    seq![t] + s.map_values(|e: ExperienceElement| far_end(e, up))
}

proof fn lemma_closed_contains_reachable(
    s: Seq<ExperienceElement>,
    up: bool,
    r: Seq<Seq<char>>,
    p: Seq<Seq<char>>,
)
    requires
        is_path(s, up, p),
        r.contains(p[0]),
        forall|x: Seq<char>, y: Seq<char>| r.contains(x) && step(s, up, x, y) ==> r.contains(y),
    ensures
        r.contains(p.last()),
    decreases p.len(),
{
    if p.len() > 1 {
        let q = p.drop_last();
        assert forall|k: int| 0 < k < q.len() implies step(s, up, q[k - 1], #[trigger] q[k]) by {
            assert(p[k] == q[k]);
            assert(p[k - 1] == q[k - 1]);
        }
        lemma_closed_contains_reachable(s, up, r, q);
        assert(step(s, up, p[p.len() - 2], p[p.len() - 1]));
        assert(q.last() == p[p.len() - 2]);
    }
}

proof fn lemma_bounded_by_candidates(r: Seq<Seq<char>>, u: Seq<Seq<char>>)
    requires
        r.no_duplicates(),
        forall|x: Seq<char>| r.contains(x) ==> u.contains(x),
    ensures
        r.len() <= u.len(),
{
    r.unique_seq_to_set();
    u.lemma_cardinality_of_set();
    vstd::seq_lib::seq_to_set_is_finite(u);
    assert(r.to_set().subset_of(u.to_set()));
    vstd::set_lib::lemma_len_subset(r.to_set(), u.to_set());
}

/// Whether one of the terms in `v` has the text `w`.
pub fn contains_word(v: &Vec<Term>, w: &String) -> (r: bool)
    ensures
        r == words(v@).contains(w@),
        r == words(v@).to_set().contains(w@),
{
    let mut i: usize = 0;
    while i < v.len()
        invariant
            i <= v@.len(),
            forall|j: int| 0 <= j < i ==> v@[j].word@ != w@,
        decreases v@.len() - i,
    {
        if v[i].word == *w {
            assert(words(v@)[i as int] == w@);
            return true;
        }
        i = i + 1;
    }
    assert(!words(v@).contains(w@)) by {
        if words(v@).contains(w@) {
            let j = choose|j: int| 0 <= j < words(v@).len() && words(v@)[j] == w@;
            assert(v@[j].word@ == w@);
        }
    }
    false
}

/// The terms reachable from `term` by inheritance steps in one direction.
fn closure_from(term: &Term, base: &ExperienceBase, up: bool) -> (r: Vec<Term>)
    ensures
        words(r@).no_duplicates(),
        words(r@).to_set() == closure(*base, up, term.word@),
{
    if !base.has_term(&term.word) {
        assert(words(Seq::<Term>::empty()).to_set() =~= Set::<Seq<char>>::empty());
        return Vec::new();
    }
    let s = base.experiences();
    let ghost t = term.word@;
    let ghost u = candidates(s@, up, t);
    let mut r: Vec<Term> = Vec::new();
    r.push(term.clone());
    proof {
        assert(words(r@) =~= seq![t]);
        let single = seq![t];
        assert(is_path(s@, up, single) && single[0] == t && single.last() == t);
        assert(reachable(s@, up, t, t));
        assert(u[0] == t);
    }
    let mut k: usize = 0;
    while k < r.len()
        invariant
            s@ == base@,
            u == candidates(s@, up, t),
            0 <= k <= r@.len(),
            r@.len() >= 1,
            words(r@)[0] == t,
            words(r@).no_duplicates(),
            forall|x: Seq<char>| words(r@).contains(x) ==> u.contains(x),
            forall|x: Seq<char>| words(r@).contains(x) ==> reachable(s@, up, t, x),
            forall|a: int, y: Seq<char>|
                0 <= a < k && #[trigger] step(s@, up, words(r@)[a], y) ==> words(r@).contains(y),
        decreases u.len() - k,
    {
        proof {
            lemma_bounded_by_candidates(words(r@), u);
        }
        let x = r[k].clone();
        let ghost xw = x.word@;
        assert(words(r@)[k as int] == xw);
        assert(words(r@).contains(xw));
        assert(reachable(s@, up, t, xw));
        let mut i: usize = 0;
        while i < s.len()
            invariant
                s@ == base@,
                u == candidates(s@, up, t),
                0 <= k < r@.len(),
                xw == x.word@,
                words(r@)[k as int] == xw,
                reachable(s@, up, t, xw),
                words(r@)[0] == t,
                words(r@).no_duplicates(),
                i <= s@.len(),
                forall|z: Seq<char>| words(r@).contains(z) ==> u.contains(z),
                forall|z: Seq<char>| words(r@).contains(z) ==> reachable(s@, up, t, z),
                forall|a: int, y: Seq<char>|
                    0 <= a < k && #[trigger] step(s@, up, words(r@)[a], y) ==> words(r@).contains(y),
                forall|j: int, y: Seq<char>|
                    0 <= j < i && #[trigger] links(s@[j], up, xw, y) ==> words(r@).contains(y),
            decreases s@.len() - i,
        {
            let e = &s[i];
            let hit = e.stmt.copula == Copula::Inheritance && (if up {
                e.stmt.left.word == x.word
            } else {
                e.stmt.right.word == x.word
            });
            if hit {
                let y = if up {
                    e.stmt.right.clone()
                } else {
                    e.stmt.left.clone()
                };
                assert(links(s@[i as int], up, xw, y.word@));
                if !contains_word(&r, &y.word) {
                    let ghost before = words(r@);
                    proof {
                        let p = choose|p: Seq<Seq<char>>|
                            is_path(s@, up, p) && p[0] == t && p.last() == xw;
                        let q = p.push(y.word@);
                        assert(step(s@, up, xw, y.word@));
                        assert forall|m: int| 0 < m < q.len() implies step(
                            s@,
                            up,
                            q[m - 1],
                            #[trigger] q[m],
                        ) by {
                            if m < p.len() {
                                assert(q[m] == p[m]);
                                assert(q[m - 1] == p[m - 1]);
                            } else {
                                assert(q[m - 1] == xw);
                                assert(q[m] == y.word@);
                            }
                        }
                        assert(is_path(s@, up, q) && q[0] == t && q.last() == y.word@);
                        assert(reachable(s@, up, t, y.word@));
                        assert(u[i + 1] == far_end(s@[i as int], up));
                        assert(u.contains(y.word@));
                    }
                    r.push(y);
                    proof {
                        assert(words(r@) =~= before.push(y.word@));
                        assert forall|z: Seq<char>| words(r@).contains(z) implies #[trigger] u.contains(z) by {
                            if z != y.word@ {
                                let j = choose|j: int| 0 <= j < words(r@).len() && words(r@)[j] == z;
                                assert(before[j] == z);
                                assert(before.contains(z));
                            }
                        }
                        assert forall|z: Seq<char>| words(r@).contains(z) implies #[trigger] reachable(s@, up, t, z) by {
                            if z != y.word@ {
                                let j = choose|j: int| 0 <= j < words(r@).len() && words(r@)[j] == z;
                                assert(before[j] == z);
                                assert(before.contains(z));
                            }
                        }
                        assert forall|a: int, b: int|
                            0 <= a < b < words(r@).len() implies words(r@)[a] != words(r@)[b] by {
                            if b == before.len() {
                                assert(before.contains(words(r@)[a]));
                            }
                        }
                        assert forall|a: int, w: Seq<char>|
                            0 <= a < k && #[trigger] step(s@, up, words(r@)[a], w) implies words(
                                r@,
                            ).contains(w) by {
                            assert(words(r@)[a] == before[a]);
                            assert(before.contains(w));
                            let j = choose|j: int| 0 <= j < before.len() && before[j] == w;
                            assert(words(r@)[j] == w);
                        }
                        assert forall|j: int, w: Seq<char>|
                            0 <= j <= i && #[trigger] links(s@[j], up, xw, w) implies words(
                                r@,
                            ).contains(w) by {
                            if w != y.word@ {
                                assert(before.contains(w));
                                let m = choose|m: int| 0 <= m < before.len() && before[m] == w;
                                assert(words(r@)[m] == w);
                            } else {
                                assert(words(r@)[before.len() as int] == w);
                            }
                        }
                        assert(words(r@)[k as int] == before[k as int]);
                        assert(words(r@)[0] == before[0]);
                    }
                }
            }
            i = i + 1;
        }
        proof {
            assert forall|a: int, y: Seq<char>|
                0 <= a < k + 1 && #[trigger] step(s@, up, words(r@)[a], y) implies words(
                    r@,
                ).contains(y) by {
                if a == k {
                    let j = choose|j: int| 0 <= j < s@.len() && #[trigger] links(s@[j], up, xw, y);
                }
            }
        }
        k = k + 1;
    }
    proof {
        let rw = words(r@);
        assert forall|x: Seq<char>, y: Seq<char>| rw.contains(x) && step(s@, up, x, y) implies rw.contains(y) by {
            let a = choose|a: int| 0 <= a < rw.len() && rw[a] == x;
        }
        assert forall|z: Seq<char>| #[trigger] rw.to_set().contains(z) <==> closure(*base, up, t).contains(z) by {
            if reachable(s@, up, t, z) {
                let p = choose|p: Seq<Seq<char>>| is_path(s@, up, p) && p[0] == t && p.last() == z;
                assert(rw[0] == t);
                lemma_closed_contains_reachable(s@, up, rw, p);
            }
        }
        assert(rw.to_set() =~= closure(*base, up, t));
    }
    r
}

/// The extension of `term`: `term` and every term below it by inheritance.
pub fn extension_from_term(term: &Term, exp_base: &ExperienceBase) -> (r: Vec<Term>)
    ensures
        words(r@).no_duplicates(),
        words(r@).to_set() == extension(*exp_base, term.word@),
{
    closure_from(term, exp_base, false)
}

/// The intension of `term`: `term` and every term above it by inheritance.
pub fn intension_from_term(term: &Term, exp_base: &ExperienceBase) -> (r: Vec<Term>)
    ensures
        words(r@).no_duplicates(),
        words(r@).to_set() == intension(*exp_base, term.word@),
{
    closure_from(term, exp_base, true)
}

} // verus!
