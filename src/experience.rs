//! The belief store: judgments in insertion order, and an index of their terms.
use vstd::prelude::*;

use crate::grammar::Statement;
use crate::notation::truth_text;
use crate::text::{decimal_text, push_decimal};
use crate::truth::TruthValue;

verus! {

/// A stored judgment: a statement, its truth value, its id and when it was made.
#[derive(Debug)]
pub struct ExperienceElement {
    pub id: usize,
    pub stmt: Statement,
    /// Local wall-clock time of creation, in milliseconds.
    pub created_at: i64,
    pub truth_value: TruthValue,
}

impl Clone for ExperienceElement {
    fn clone(&self) -> (r: ExperienceElement)
        ensures
            r == *self,
    {
        ExperienceElement {
            id: self.id,
            stmt: self.stmt.clone(),
            created_at: self.created_at,
            truth_value: self.truth_value,
        }
    }
}

/// `id: statement <f, c>`.
pub open spec fn element_text(e: ExperienceElement) -> Seq<char> {
    decimal_text(e.id as nat) + seq![':', ' '] + e.stmt.text() + seq![' '] + truth_text(
        e.truth_value,
    )
}

impl ExperienceElement {
    /// A judgment asserted without evidence, `<1.00, 0.99>`, made at
    /// `created_at` (local wall-clock milliseconds, read by the caller).
    pub fn new(stmt: Statement, id: usize, created_at: i64) -> (r: ExperienceElement)
        ensures
            r.id == id,
            r.stmt == stmt,
            r.created_at == created_at,
            r.truth_value == (TruthValue { freq: 1_000_000_000, conf: 990_000_000 }),
    {
        let truth_value = match TruthValue::new() {
            Ok(t) => t,
            Err(_) => TruthValue { freq: 1_000_000_000, conf: 990_000_000 },
        };
        ExperienceElement { id, stmt, created_at, truth_value }
    }

    /// A judgment with the given truth value.
    pub fn new_with_truth_value(
        stmt: Statement,
        id: usize,
        truth_value: TruthValue,
        created_at: i64,
    ) -> (r: ExperienceElement)
        ensures
            r.id == id,
            r.stmt == stmt,
            r.created_at == created_at,
            r.truth_value == truth_value,
    {
        ExperienceElement { id, stmt, created_at, truth_value }
    }

    /// `id: statement <f, c>`.
    pub fn to_string(&self) -> (r: String)
        requires
            self.truth_value.wf(),
        ensures
            r@ == element_text(*self),
    {
        let mut out = String::new();
        push_decimal(&mut out, self.id);
        out.append(": ");
        let st = self.stmt.to_string();
        out.append(st.as_str());
        out.append(" ");
        let tv = self.truth_value.to_string();
        out.append(tv.as_str());
        proof {
            reveal_strlit(": ");
            reveal_strlit(" ");
        }
        assert(out@ =~= element_text(*self));
        out
    }
}

/// The views of a list of strings.
pub open spec fn views(v: Seq<String>) -> Seq<Seq<char>> {
    v.map_values(|t: String| t@)
}

/// The index of the first element with id `id`, or -1.
pub open spec fn position_of_id(s: Seq<ExperienceElement>, id: usize) -> int
    decreases s.len(),
{
    if s.len() == 0 {
        -1
    } else if s[0].id == id {
        0
    } else {
        let r = position_of_id(s.drop_first(), id);
        if r < 0 {
            -1
        } else {
            r + 1
        }
    }
}

/// Where the first `i` elements lack the id, the first match is at `i` or nowhere.
pub proof fn lemma_position_of_id(s: Seq<ExperienceElement>, id: usize, i: int)
    requires
        0 <= i <= s.len(),
        forall|j: int| 0 <= j < i ==> s[j].id != id,
    ensures
        i < s.len() && s[i].id == id ==> position_of_id(s, id) == i,
        i == s.len() ==> position_of_id(s, id) == -1,
    decreases i,
{
    if i > 0 {
        lemma_position_of_id(s.drop_first(), id, i - 1);
    }
}

/// The first match of an id exists exactly when some element has the id.
pub proof fn lemma_position_of_id_found(s: Seq<ExperienceElement>, id: usize)
    ensures
        position_of_id(s, id) < s.len(),
        position_of_id(s, id) >= 0 ==> s[position_of_id(s, id)].id == id,
        position_of_id(s, id) >= 0 <==> exists|j: int| 0 <= j < s.len() && s[j].id == id,
    decreases s.len(),
{
    if s.len() > 0 {
        lemma_position_of_id_found(s.drop_first(), id);
        if s[0].id != id {
            if exists|j: int| 0 <= j < s.len() && s[j].id == id {
                let j = choose|j: int| 0 <= j < s.len() && s[j].id == id;
                assert(s.drop_first()[j - 1].id == id);
            }
            if position_of_id(s.drop_first(), id) >= 0 {
                let j = position_of_id(s.drop_first(), id);
                assert(s[j + 1] == s.drop_first()[j]);
            }
        }
    }
}

/// The element with id `id` that queries and rules see: the first one.
pub open spec fn find_id(s: Seq<ExperienceElement>, id: usize) -> Option<ExperienceElement> {
    let k = position_of_id(s, id);
    if k < 0 {
        None
    } else {
        Some(s[k])
    }
}

/// `s` without the first element with id `id`.
pub open spec fn without_id(s: Seq<ExperienceElement>, id: usize) -> Seq<ExperienceElement> {
    let k = position_of_id(s, id);
    if k < 0 {
        s
    } else {
        s.remove(k)
    }
}

/// Removing an id from a store has nothing to remove.
#[derive(Clone, Copy, Debug, PartialEq, Eq, Structural)]
pub enum StoreError {
    NotFound,
}

impl StoreError {
    pub fn message(&self) -> (r: &'static str)
        ensures
            r@ == "Experience id not found."@,
    {
        "Experience id not found."
    }
}

/// The belief store. Elements keep their insertion order, the order in which
/// they are listed, scanned and queried. The term index holds each term of an
/// added statement; removing a statement drops its two terms from the index
/// even where another statement still uses them, and clearing the store keeps
/// the index as it is.
pub struct ExperienceBase {
    experiences: Vec<ExperienceElement>,
    terms: Vec<String>,
    last_id: usize,
}

impl View for ExperienceBase {
    type V = Seq<ExperienceElement>;

    closed spec fn view(&self) -> Seq<ExperienceElement> {
        self.experiences@
    }
}

/// Every element's truth value is well formed.
pub open spec fn truths_wf(s: Seq<ExperienceElement>) -> bool {
    forall|i: int| 0 <= i < s.len() ==> (#[trigger] s[i]).truth_value.wf()
}

/// Ids strictly increase along the store, none above `last`.
pub open spec fn ids_ordered(s: Seq<ExperienceElement>, last: nat) -> bool {
    &&& forall|i: int, j: int| 0 <= i < j < s.len() ==> s[i].id < s[j].id
    &&& forall|i: int| 0 <= i < s.len() ==> 1 <= (#[trigger] s[i]).id <= last
}

impl ExperienceBase {
    /// The terms in the index.
    pub closed spec fn term_index(&self) -> Set<Seq<char>> {
        Set::new(|w: Seq<char>| views(self.terms@).contains(w))
    }

    /// How many elements were ever added.
    pub closed spec fn last_id(&self) -> nat {
        self.last_id as nat
    }

    /// The term index lists each term once.
    pub closed spec fn index_wf(&self) -> bool {
        views(self.terms@).no_duplicates()
    }

    pub open spec fn wf(&self) -> bool {
        &&& truths_wf(self@)
        &&& self.index_wf()
    }

    /// An empty store with an empty index.
    pub fn new() -> (r: ExperienceBase)
        ensures
            r.wf(),
            r@ == Seq::<ExperienceElement>::empty(),
            r.term_index() == Set::<Seq<char>>::empty(),
            r.last_id() == 0,
    {
        let r = ExperienceBase { experiences: Vec::new(), terms: Vec::new(), last_id: 0 };
        assert(r.term_index() =~= Set::<Seq<char>>::empty());
        assert(views(r.terms@) =~= Seq::<Seq<char>>::empty());
        r
    }

    /// The elements, in storage order.
    pub fn experiences(&self) -> (r: &Vec<ExperienceElement>)
        ensures
            r@ == self@,
    {
        &self.experiences
    }

    /// How many elements the store holds.
    pub fn len(&self) -> (r: usize)
        ensures
            r == self@.len(),
    {
        self.experiences.len()
    }

    /// No id is left for another element.
    pub fn is_full(&self) -> (r: bool)
        ensures
            r == (self.last_id() == usize::MAX),
            self.last_id() <= usize::MAX,
    {
        self.last_id == usize::MAX
    }

    /// The id that the next added element should carry.
    pub fn get_next_id(&self) -> (r: usize)
        requires
            self.last_id() < usize::MAX,
        ensures
            r == self.last_id() + 1,
    {
        self.last_id + 1
    }

    /// Whether the index holds the term `word`.
    pub fn has_term(&self, word: &String) -> (r: bool)
        ensures
            r == self.term_index().contains(word@),
    {
        let mut i: usize = 0;
        while i < self.terms.len()
            invariant
                i <= self.terms@.len(),
                forall|j: int| 0 <= j < i ==> self.terms@[j]@ != word@,
            decreases self.terms@.len() - i,
        {
            if self.terms[i] == *word {
                assert(views(self.terms@)[i as int] == word@);
                return true;
            }
            i = i + 1;
        }
        assert(!views(self.terms@).contains(word@)) by {
            if views(self.terms@).contains(word@) {
                let j = choose|j: int| 0 <= j < views(self.terms@).len() && views(self.terms@)[j] == word@;
                assert(self.terms@[j]@ == word@);
            }
        }
        false
    }

    fn index_insert(&mut self, word: &String)
        requires
            old(self).index_wf(),
        ensures
            final(self).index_wf(),
            final(self).term_index() == old(self).term_index().insert(word@),
            final(self).experiences == old(self).experiences,
            final(self).last_id == old(self).last_id,
    {
        if !self.has_term(word) {
            let ghost before = views(self.terms@);
            self.terms.push(word.clone());
            assert(views(self.terms@) =~= before.push(word@));
            assert(views(self.terms@).no_duplicates()) by {
                assert forall|i: int, j: int|
                    0 <= i < views(self.terms@).len() && 0 <= j < views(self.terms@).len() && i
                        != j implies views(self.terms@)[i] != views(self.terms@)[j] by {
                    if i < before.len() && j < before.len() {
                    } else if i == before.len() {
                        assert(before[j] == views(self.terms@)[j]);
                    } else {
                        assert(before[i] == views(self.terms@)[i]);
                    }
                }
            }
        }
        assert forall|w: Seq<char>|
            self.term_index().contains(w) <==> old(self).term_index().insert(word@).contains(
                w,
            ) by {
            let now = views(self.terms@);
            let was = views(old(self).terms@);
            if now.contains(w) {
                let j = choose|j: int| 0 <= j < now.len() && now[j] == w;
                if j < was.len() {
                    assert(was[j] == w);
                }
            }
            if was.contains(w) {
                let j = choose|j: int| 0 <= j < was.len() && was[j] == w;
                assert(now[j] == w);
            }
            if w == word@ && !was.contains(w) {
                assert(now[was.len() as int] == w);
            }
        }
        assert(self.term_index() =~= old(self).term_index().insert(word@));
    }

    fn index_remove(&mut self, word: &String)
        requires
            old(self).index_wf(),
        ensures
            final(self).index_wf(),
            final(self).term_index() == old(self).term_index().remove(word@),
            final(self).experiences == old(self).experiences,
            final(self).last_id == old(self).last_id,
    {
        let mut i: usize = 0;
        while i < self.terms.len()
            invariant
                *self == *old(self),
                old(self).index_wf(),
                i <= self.terms@.len(),
                forall|j: int| 0 <= j < i ==> self.terms@[j]@ != word@,
            decreases self.terms@.len() - i,
        {
            if self.terms[i] == *word {
                let ghost before = views(self.terms@);
                self.terms.remove(i);
                assert(views(self.terms@) =~= before.remove(i as int));
                assert forall|w: Seq<char>|
                    self.term_index().contains(w) <==> old(self).term_index().remove(
                        word@,
                    ).contains(w) by {
                    let now = views(self.terms@);
                    if now.contains(w) {
                        let j = choose|j: int| 0 <= j < now.len() && now[j] == w;
                        if j < i {
                            assert(before[j] == w);
                        } else {
                            assert(before[j + 1] == w);
                        }
                        assert(before[i as int] == word@);
                    }
                    if before.contains(w) && w != word@ {
                        let j = choose|j: int| 0 <= j < before.len() && before[j] == w;
                        assert(before[i as int] == word@);
                        if j < i {
                            assert(now[j] == w);
                        } else {
                            assert(now[j - 1] == w);
                        }
                    }
                }
                assert(self.term_index() =~= old(self).term_index().remove(word@));
                return;
            }
            i = i + 1;
        }
        assert(!views(self.terms@).contains(word@)) by {
            if views(self.terms@).contains(word@) {
                let j = choose|j: int| 0 <= j < views(self.terms@).len() && views(self.terms@)[j] == word@;
                assert(self.terms@[j]@ == word@);
            }
        }
        assert(self.term_index() =~= old(self).term_index().remove(word@));
    }

    /// Appends an element and indexes both of its terms.
    pub fn add(&mut self, experience: ExperienceElement)
        requires
            old(self).wf(),
            old(self).last_id() < usize::MAX,
            experience.truth_value.wf(),
        ensures
            final(self).wf(),
            final(self)@ == old(self)@.push(experience),
            final(self).term_index() == old(self).term_index().insert(
                experience.stmt.left.word@,
            ).insert(experience.stmt.right.word@),
            final(self).last_id() == old(self).last_id() + 1,
            ids_ordered(old(self)@, old(self).last_id()) && experience.id == old(self).last_id()
                + 1 ==> ids_ordered(final(self)@, final(self).last_id()),
    {
        self.index_insert(&experience.stmt.left.word);
        self.index_insert(&experience.stmt.right.word);
        self.experiences.push(experience);
        self.last_id = self.last_id + 1;
    }

    /// Deletes the first element with id `id` and drops its two terms from the index.
    pub fn remove(&mut self, id: usize) -> (r: Result<(), StoreError>)
        requires
            old(self).wf(),
        ensures
            final(self).wf(),
            final(self).last_id() == old(self).last_id(),
            r is Err <==> find_id(old(self)@, id) is None,
            r is Err ==> final(self)@ == old(self)@ && final(self).term_index() == old(
                self,
            ).term_index(),
            r is Ok ==> final(self)@ == without_id(old(self)@, id) && final(self).term_index()
                == old(self).term_index().remove(find_id(old(self)@, id)->Some_0.stmt.left.word@).remove(
                find_id(old(self)@, id)->Some_0.stmt.right.word@,
            ),
            ids_ordered(old(self)@, old(self).last_id()) ==> ids_ordered(
                final(self)@,
                final(self).last_id(),
            ),
    {
        let mut i: usize = 0;
        while i < self.experiences.len()
            invariant
                *self == *old(self),
                old(self).wf(),
                i <= self.experiences@.len(),
                forall|j: int| 0 <= j < i ==> self.experiences@[j].id != id,
            decreases self.experiences@.len() - i,
        {
            if self.experiences[i].id == id {
                proof {
                    lemma_position_of_id(self@, id, i as int);
                }
                let left = self.experiences[i].stmt.left.word.clone();
                let right = self.experiences[i].stmt.right.word.clone();
                self.index_remove(&left);
                self.index_remove(&right);
                let ghost before = self.experiences@;
                self.experiences.remove(i);
                proof {
                    assert forall|k: int| 0 <= k < self@.len() implies (#[trigger] self@[k]).truth_value.wf() by {
                        if k < i {
                            assert(self@[k] == before[k]);
                        } else {
                            assert(self@[k] == before[k + 1]);
                        }
                    }
                    if ids_ordered(before, self.last_id as nat) {
                        assert forall|a: int, b: int| 0 <= a < b < self@.len() implies self@[a].id < self@[b].id by {
                            let a0 = if a < i { a } else { a + 1 };
                            let b0 = if b < i { b } else { b + 1 };
                            assert(self@[a] == before[a0]);
                            assert(self@[b] == before[b0]);
                        }
                        assert forall|k: int| 0 <= k < self@.len() implies 1 <= (#[trigger] self@[k]).id <= self.last_id() by {
                            if k < i {
                                assert(self@[k] == before[k]);
                            } else {
                                assert(self@[k] == before[k + 1]);
                            }
                        }
                    }
                }
                return Ok(());
            }
            i = i + 1;
        }
        proof {
            lemma_position_of_id(self@, id, i as int);
        }
        Err(StoreError::NotFound)
    }

    /// Empties the store; the term index and the id counter stay as they are.
    pub fn clear(&mut self)
        requires
            old(self).wf(),
        ensures
            final(self).wf(),
            final(self)@ == Seq::<ExperienceElement>::empty(),
            final(self).term_index() == old(self).term_index(),
            final(self).last_id() == old(self).last_id(),
    {
        self.experiences.clear();
    }
}


impl Default for ExperienceBase {
    fn default() -> (r: ExperienceBase)
        ensures
            r.wf(),
            r@ == Seq::<ExperienceElement>::empty(),
            r.term_index() == Set::<Seq<char>>::empty(),
            r.last_id() == 0,
    {
        ExperienceBase::new()
    }
}

/// One line per element, in storage order, joined by newlines.
pub open spec fn listing(s: Seq<ExperienceElement>) -> Seq<char>
    decreases s.len(),
{
    if s.len() == 0 {
        Seq::empty()
    } else if s.len() == 1 {
        element_text(s[0])
    } else {
        listing(s.drop_last()) + seq!['\n'] + element_text(s.last())
    }
}

impl ExperienceBase {
    /// The elements, one `id: statement <f, c>` line each.
    pub fn to_string(&self) -> (r: String)
        requires
            self.wf(),
        ensures
            r@ == listing(self@),
    {
        let s = &self.experiences;
        let mut out = String::new();
        let mut i: usize = 0;
        while i < s.len()
            invariant
                s@ == self@,
                truths_wf(s@),
                i <= s@.len(),
                out@ == listing(s@.take(i as int)),
            decreases s@.len() - i,
        {
            assert(s@[i as int].truth_value.wf());
            let line = s[i].to_string();
            if i > 0 {
                out.append("\n");
            }
            out.append(line.as_str());
            proof {
                reveal_strlit("\n");
                assert(s@.take(i as int + 1).drop_last() =~= s@.take(i as int));
                if i == 0 {
                    assert(out@ =~= listing(s@.take(1)));
                } else {
                    assert(out@ =~= listing(s@.take(i as int + 1)));
                }
            }
            i = i + 1;
        }
        assert(s@.take(s@.len() as int) =~= s@);
        out
    }
}

/// Adding an element and then removing its id leaves as many elements as
/// there were before: the removal always finds an element, the added one or
/// an earlier one with the same id.
pub proof fn lemma_add_then_remove_keeps_count(base: ExperienceBase, e: ExperienceElement)
    ensures
        find_id(base@.push(e), e.id) is Some,
        without_id(base@.push(e), e.id).len() == base@.len(),
{
    let s = base@.push(e);
    lemma_position_of_id_found(s, e.id);
    assert(s[base@.len() as int].id == e.id);
}

} // verus!
