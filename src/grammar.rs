//! Terms, copulas, statements and queries: how they are read and written.
use vstd::prelude::*;

use crate::text::{split_tokens, string_views, tokens};

verus! {

/// The characters with the Unicode `White_Space` property.
pub open spec fn is_space(c: char) -> bool {
    let u = c as u32;
    ||| 0x09 <= u <= 0x0d
    ||| u == 0x20
    ||| u == 0x85
    ||| u == 0xa0
    ||| u == 0x1680
    ||| 0x2000 <= u <= 0x200a
    ||| u == 0x2028
    ||| u == 0x2029
    ||| u == 0x202f
    ||| u == 0x205f
    ||| u == 0x3000
}

/// Some character of `s` is whitespace.
pub open spec fn has_space(s: Seq<char>) -> bool {
    exists|i: int| 0 <= i < s.len() && is_space(#[trigger] s[i])
}

/// A term's text: non-empty, without whitespace, and not the wildcard `?`.
pub open spec fn valid_term(s: Seq<char>) -> bool {
    &&& s.len() > 0
    &&& !has_space(s)
    &&& s != seq!['?']
}

/// Whether `c` is whitespace.
pub fn is_space_char(c: char) -> (r: bool)
    ensures
        r == is_space(c),
{
    let u = c as u32;
    (0x09 <= u && u <= 0x0d) || u == 0x20 || u == 0x85 || u == 0xa0 || u == 0x1680 || (0x2000
        <= u && u <= 0x200a) || u == 0x2028 || u == 0x2029 || u == 0x202f || u == 0x205f || u
        == 0x3000
}

/// Whether `s` holds any whitespace.
pub fn contains_space(s: &str) -> (r: bool)
    ensures
        r == has_space(s@),
{
    let n = s.unicode_len();
    let mut i: usize = 0;
    while i < n
        invariant
            n == s@.len(),
            i <= n,
            forall|j: int| 0 <= j < i ==> !is_space(#[trigger] s@[j]),
        decreases n - i,
    {
        if is_space_char(s.get_char(i)) {
            return true;
        }
        i = i + 1;
    }
    false
}

/// A named concept. Compound terms that the set rules build, such as
/// `(a&b)`, are terms like any other; nothing takes them apart.
#[derive(Debug)]
pub struct Term {
    pub word: String,
}

impl Clone for Term {
    fn clone(&self) -> (r: Term)
        ensures
            r == *self,
    {
        Term { word: self.word.clone() }
    }
}

impl PartialEq for Term {
    fn eq(&self, other: &Term) -> (r: bool)
        ensures
            r == (self.word@ == other.word@),
    {
        self.word == other.word
    }
}

impl vstd::std_specs::cmp::PartialEqSpecImpl for Term {
    open spec fn obeys_eq_spec() -> bool {
        true
    }

    open spec fn eq_spec(&self, other: &Term) -> bool {
        self.word@ == other.word@
    }
}

impl Eq for Term {

}

/// Why a text is not a term, copula, statement or query.
#[derive(Clone, Copy, Debug, PartialEq, Eq, Structural)]
pub enum ParseError {
    SpacedTerm,
    EmptyTerm,
    WildcardTerm,
    InvalidCopula,
    StatementArity,
    QueryArity,
}

impl ParseError {
    pub fn message(&self) -> (r: &'static str)
        ensures
            r@ == parse_error_text(*self),
    {
        match self {
            ParseError::SpacedTerm => "Term can't contain whitespaces",
            ParseError::EmptyTerm => "Term can't be empty",
            ParseError::WildcardTerm => "Term can't be a question mark (?)",
            ParseError::InvalidCopula => "Invalid copula",
            ParseError::StatementArity => "Invalid statement: Expected <term> <copula> <term>",
            ParseError::QueryArity => "Invalid query: Expected <term / ?> <copula> <term / ?>",
        }
    }
}

/// The text of a parse error.
pub open spec fn parse_error_text(e: ParseError) -> Seq<char> {
    match e {
        ParseError::SpacedTerm => "Term can't contain whitespaces"@,
        ParseError::EmptyTerm => "Term can't be empty"@,
        ParseError::WildcardTerm => "Term can't be a question mark (?)"@,
        ParseError::InvalidCopula => "Invalid copula"@,
        ParseError::StatementArity => "Invalid statement: Expected <term> <copula> <term>"@,
        ParseError::QueryArity => "Invalid query: Expected <term / ?> <copula> <term / ?>"@,
    }
}

/// The outcome of reading `s` as a term.
pub open spec fn term_outcome(s: Seq<char>) -> Result<Seq<char>, ParseError> {
    if has_space(s) {
        Err(ParseError::SpacedTerm)
    } else if s.len() == 0 {
        Err(ParseError::EmptyTerm)
    } else if s == seq!['?'] {
        Err(ParseError::WildcardTerm)
    } else {
        Ok(s)
    }
}

impl Term {
    /// Reads a term: succeeds exactly on valid term text, which it keeps as written.
    pub fn new(word: &str) -> (r: Result<Term, ParseError>)
        ensures
            r.is_ok() <==> valid_term(word@),
            r matches Ok(t) ==> t.word@ == word@,
            r matches Err(e) ==> term_outcome(word@) == Err::<Seq<char>, ParseError>(e),
    {
        if contains_space(word) {
            return Err(ParseError::SpacedTerm);
        }
        if word.unicode_len() == 0 {
            return Err(ParseError::EmptyTerm);
        }
        if word.unicode_len() == 1 && word.get_char(0) == '?' {
            assert(word@ =~= seq!['?']);
            return Err(ParseError::WildcardTerm);
        }
        assert(word@ != seq!['?']) by {
            if word@ =~= seq!['?'] {
                assert(word@[0] == '?');
            }
        }
        Ok(Term { word: String::from_str(word) })
    }

    /// The term's text.
    pub fn to_string(&self) -> (r: String)
        ensures
            r@ == self.word@,
    {
        self.word.clone()
    }
}


/// The kind of relation that a statement asserts.
#[derive(Clone, Copy, Debug, PartialEq, Eq, Structural)]
pub enum Copula {
    Inheritance,
    Similarity,
}

/// The copula that a symbol names, if any.
pub open spec fn copula_of(s: Seq<char>) -> Option<Copula> {
    if s == "is"@ || s == "->"@ {
        Some(Copula::Inheritance)
    } else if s == "similar"@ || s == "<->"@ {
        Some(Copula::Similarity)
    } else {
        None
    }
}

/// The symbol a copula is shown with.
pub open spec fn copula_text(c: Copula) -> Seq<char> {
    match c {
        Copula::Inheritance => "->"@,
        Copula::Similarity => "<->"@,
    }
}

/// Whether two texts are equal, character by character.
pub fn str_equal(a: &str, b: &str) -> (r: bool)
    ensures
        r == (a@ == b@),
{
    let n = a.unicode_len();
    if n != b.unicode_len() {
        return false;
    }
    let mut i: usize = 0;
    while i < n
        invariant
            n == a@.len(),
            n == b@.len(),
            i <= n,
            a@.take(i as int) =~= b@.take(i as int),
        decreases n - i,
    {
        if a.get_char(i) != b.get_char(i) {
            return false;
        }
        assert(a@.take(i as int + 1) =~= a@.take(i as int).push(a@[i as int]));
        assert(b@.take(i as int + 1) =~= b@.take(i as int).push(b@[i as int]));
        i = i + 1;
    }
    assert(a@ =~= a@.take(n as int));
    assert(b@ =~= b@.take(n as int));
    true
}

impl Copula {
    /// Reads `is` or `->` as inheritance, `similar` or `<->` as similarity.
    pub fn new(symbols: &str) -> (r: Result<Copula, ParseError>)
        ensures
            r matches Ok(c) ==> copula_of(symbols@) == Some(c),
            r is Err ==> copula_of(symbols@) is None && r == Err::<Copula, ParseError>(
                ParseError::InvalidCopula,
            ),
    {
        if str_equal(symbols, "is") || str_equal(symbols, "->") {
            Ok(Copula::Inheritance)
        } else if str_equal(symbols, "similar") || str_equal(symbols, "<->") {
            Ok(Copula::Similarity)
        } else {
            Err(ParseError::InvalidCopula)
        }
    }

    /// `->` or `<->`.
    pub fn symbol(&self) -> (r: &'static str)
        ensures
            r@ == copula_text(*self),
    {
        match self {
            Copula::Inheritance => "->",
            Copula::Similarity => "<->",
        }
    }

    pub fn to_string(&self) -> (r: String)
        ensures
            r@ == copula_text(*self),
    {
        String::from_str(self.symbol())
    }
}

/// `a`, a space, `b`, a space, `c`.
pub open spec fn spaced3(a: Seq<char>, b: Seq<char>, c: Seq<char>) -> Seq<char> {
    a + seq![' '] + b + seq![' '] + c
}

/// `a b c`.
pub fn join3(a: &str, b: &str, c: &str) -> (r: String)
    ensures
        r@ == spaced3(a@, b@, c@),
{
    let mut out = String::from_str(a);
    out.append(" ");
    out.append(b);
    out.append(" ");
    out.append(c);
    proof {
        reveal_strlit(" ");
    }
    assert(out@ =~= spaced3(a@, b@, c@));
    out
}

/// A relation between two terms: `left copula right`.
#[derive(Debug)]
pub struct Statement {
    pub left: Term,
    pub copula: Copula,
    pub right: Term,
}

impl Clone for Statement {
    fn clone(&self) -> (r: Statement)
        ensures
            r == *self,
    {
        Statement { left: self.left.clone(), copula: self.copula, right: self.right.clone() }
    }
}

impl PartialEq for Statement {
    fn eq(&self, other: &Statement) -> (r: bool)
        ensures
            r == self.same(*other),
    {
        self.left == other.left && self.copula == other.copula && self.right == other.right
    }
}

impl vstd::std_specs::cmp::PartialEqSpecImpl for Statement {
    open spec fn obeys_eq_spec() -> bool {
        true
    }

    open spec fn eq_spec(&self, other: &Statement) -> bool {
        self.same(*other)
    }
}

impl Eq for Statement {

}

/// The statement that tokens describe, or why they describe none.
pub open spec fn statement_from_tokens(t: Seq<Seq<char>>) -> Result<
    (Seq<char>, Copula, Seq<char>),
    ParseError,
> {
    if t.len() != 3 {
        Err(ParseError::StatementArity)
    } else if term_outcome(t[0]) is Err {
        Err(term_outcome(t[0])->Err_0)
    } else if copula_of(t[1]) is None {
        Err(ParseError::InvalidCopula)
    } else if term_outcome(t[2]) is Err {
        Err(term_outcome(t[2])->Err_0)
    } else {
        Ok((t[0], copula_of(t[1])->Some_0, t[2]))
    }
}

impl Statement {
    /// Equal in all three parts.
    pub open spec fn same(self, other: Statement) -> bool {
        &&& self.left.word@ == other.left.word@
        &&& self.copula == other.copula
        &&& self.right.word@ == other.right.word@
    }

    /// The parts that a statement is made of, as plain values.
    pub open spec fn parts(self) -> (Seq<char>, Copula, Seq<char>) {
        (self.left.word@, self.copula, self.right.word@)
    }

    pub open spec fn text(self) -> Seq<char> {
        spaced3(self.left.word@, copula_text(self.copula), self.right.word@)
    }

    /// Reads a statement written as `term copula term`.
    pub fn new(s: &str) -> (r: Result<Statement, ParseError>)
        ensures
            r matches Ok(st) ==> statement_from_tokens(tokens(s@)) == Ok::<
                (Seq<char>, Copula, Seq<char>),
                ParseError,
            >(st.parts()),
            r matches Err(e) ==> statement_from_tokens(tokens(s@)) == Err::<
                (Seq<char>, Copula, Seq<char>),
                ParseError,
            >(e),
    {
        let t = split_tokens(s);
        Statement::from_vec(&t)
    }

    /// Reads a statement from its three tokens.
    pub fn from_vec(t: &[String]) -> (r: Result<Statement, ParseError>)
        ensures
            r matches Ok(st) ==> statement_from_tokens(string_views(t@)) == Ok::<
                (Seq<char>, Copula, Seq<char>),
                ParseError,
            >(st.parts()),
            r matches Err(e) ==> statement_from_tokens(string_views(t@)) == Err::<
                (Seq<char>, Copula, Seq<char>),
                ParseError,
            >(e),
    {
        if t.len() != 3 {
            return Err(ParseError::StatementArity);
        }
        let left = Term::new(t[0].as_str())?;
        let copula = Copula::new(t[1].as_str())?;
        let right = Term::new(t[2].as_str())?;
        Ok(Statement { left, copula, right })
    }

    /// `left copula right`, the copula by its symbol.
    pub fn to_string(&self) -> (r: String)
        ensures
            r@ == self.text(),
    {
        join3(self.left.word.as_str(), self.copula.symbol(), self.right.word.as_str())
    }
}

/// One side of a query: a term, or the wildcard `?`.
#[derive(Debug)]
pub enum OptionalTerm {
    Term(Term),
    Question,
}

impl PartialEq for OptionalTerm {
    fn eq(&self, other: &OptionalTerm) -> (r: bool)
        ensures
            r == self.same(*other),
    {
        match (self, other) {
            (OptionalTerm::Term(a), OptionalTerm::Term(b)) => a == b,
            (OptionalTerm::Question, OptionalTerm::Question) => true,
            _ => false,
        }
    }
}

impl vstd::std_specs::cmp::PartialEqSpecImpl for OptionalTerm {
    open spec fn obeys_eq_spec() -> bool {
        true
    }

    open spec fn eq_spec(&self, other: &OptionalTerm) -> bool {
        self.same(*other)
    }
}

impl Eq for OptionalTerm {

}

impl OptionalTerm {
    /// The side as a plain value: `None` for the wildcard.
    pub open spec fn side(self) -> Option<Seq<char>> {
        match self {
            OptionalTerm::Term(t) => Some(t.word@),
            OptionalTerm::Question => None,
        }
    }

    pub open spec fn same(self, other: OptionalTerm) -> bool {
        self.side() == other.side()
    }

    pub open spec fn text(self) -> Seq<char> {
        match self {
            OptionalTerm::Term(t) => t.word@,
            OptionalTerm::Question => seq!['?'],
        }
    }

    /// Whether this side is the wildcard.
    pub fn side_is_wildcard(&self) -> (r: bool)
        ensures
            r == self.side() is None,
    {
        match self {
            OptionalTerm::Term(_) => false,
            OptionalTerm::Question => true,
        }
    }

    /// The side as written: its term, or `?`.
    pub fn as_str(&self) -> (r: &str)
        ensures
            r@ == self.text(),
    {
        match self {
            OptionalTerm::Term(t) => t.word.as_str(),
            OptionalTerm::Question => {
                proof {
                    reveal_strlit("?");
                }
                "?"
            },
        }
    }
}

/// A pattern over statements; at most one side is the wildcard.
#[derive(Debug)]
pub struct Query {
    pub left: OptionalTerm,
    pub copula: Copula,
    pub right: OptionalTerm,
}

impl PartialEq for Query {
    fn eq(&self, other: &Query) -> (r: bool)
        ensures
            r == (self.parts() == other.parts()),
    {
        self.left == other.left && self.copula == other.copula && self.right == other.right
    }
}

impl vstd::std_specs::cmp::PartialEqSpecImpl for Query {
    open spec fn obeys_eq_spec() -> bool {
        true
    }

    open spec fn eq_spec(&self, other: &Query) -> bool {
        self.parts() == other.parts()
    }
}

impl Eq for Query {

}

/// The query that tokens describe, or why they describe none.
pub open spec fn query_from_tokens(t: Seq<Seq<char>>) -> Result<
    (Option<Seq<char>>, Copula, Option<Seq<char>>),
    ParseError,
> {
    if t.len() != 3 {
        Err(ParseError::QueryArity)
    } else if t[0] == seq!['?'] {
        if copula_of(t[1]) is None {
            Err(ParseError::InvalidCopula)
        } else if term_outcome(t[2]) is Err {
            Err(term_outcome(t[2])->Err_0)
        } else {
            Ok((None, copula_of(t[1])->Some_0, Some(t[2])))
        }
    } else if term_outcome(t[0]) is Err {
        Err(term_outcome(t[0])->Err_0)
    } else if copula_of(t[1]) is None {
        Err(ParseError::InvalidCopula)
    } else if t[2] == seq!['?'] {
        Ok((Some(t[0]), copula_of(t[1])->Some_0, None))
    } else if term_outcome(t[2]) is Err {
        Err(term_outcome(t[2])->Err_0)
    } else {
        Ok((Some(t[0]), copula_of(t[1])->Some_0, Some(t[2])))
    }
}

/// Whether `s` is the wildcard `?`.
pub fn is_wildcard(s: &str) -> (r: bool)
    ensures
        r == (s@ == seq!['?']),
{
    if s.unicode_len() == 1 && s.get_char(0) == '?' {
        assert(s@ =~= seq!['?']);
        true
    } else {
        assert(s@ != seq!['?']) by {
            if s@ =~= seq!['?'] {
                assert(s@[0] == '?');
            }
        }
        false
    }
}

impl Query {
    pub open spec fn parts(self) -> (Option<Seq<char>>, Copula, Option<Seq<char>>) {
        (self.left.side(), self.copula, self.right.side())
    }

    pub open spec fn text(self) -> Seq<char> {
        spaced3(self.left.text(), copula_text(self.copula), self.right.text())
    }

    /// Reads a query written as `side copula side`, a side being a term or `?`.
    pub fn new(s: &str) -> (r: Result<Query, ParseError>)
        ensures
            r matches Ok(q) ==> query_from_tokens(tokens(s@)) == Ok::<
                (Option<Seq<char>>, Copula, Option<Seq<char>>),
                ParseError,
            >(q.parts()),
            r matches Err(e) ==> query_from_tokens(tokens(s@)) == Err::<
                (Option<Seq<char>>, Copula, Option<Seq<char>>),
                ParseError,
            >(e),
    {
        let t = split_tokens(s);
        Query::from_vec(&t)
    }

    /// Reads a query from its three tokens.
    pub fn from_vec(t: &[String]) -> (r: Result<Query, ParseError>)
        ensures
            r matches Ok(q) ==> query_from_tokens(string_views(t@)) == Ok::<
                (Option<Seq<char>>, Copula, Option<Seq<char>>),
                ParseError,
            >(q.parts()),
            r matches Err(e) ==> query_from_tokens(string_views(t@)) == Err::<
                (Option<Seq<char>>, Copula, Option<Seq<char>>),
                ParseError,
            >(e),
    {
        if t.len() != 3 {
            return Err(ParseError::QueryArity);
        }
        if is_wildcard(t[0].as_str()) {
            let copula = Copula::new(t[1].as_str())?;
            let right = Term::new(t[2].as_str())?;
            Ok(Query { left: OptionalTerm::Question, copula, right: OptionalTerm::Term(right) })
        } else {
            let left = Term::new(t[0].as_str())?;
            let copula = Copula::new(t[1].as_str())?;
            if is_wildcard(t[2].as_str()) {
                Ok(Query { left: OptionalTerm::Term(left), copula, right: OptionalTerm::Question })
            } else {
                let right = Term::new(t[2].as_str())?;
                Ok(
                    Query {
                        left: OptionalTerm::Term(left),
                        copula,
                        right: OptionalTerm::Term(right),
                    },
                )
            }
        }
    }

    /// `left copula right`, a wildcard side shown as `?`.
    pub fn to_string(&self) -> (r: String)
        ensures
            r@ == self.text(),
    {
        join3(self.left.as_str(), self.copula.symbol(), self.right.as_str())
    }
}

} // verus!
