//! The written form of truth values: `<0.80, 0.95>`.
use vstd::prelude::*;

use crate::grammar::{is_space, is_space_char};
use crate::text::{
    all_digits, digits_value, is_digit, lemma_digits_prefix_bounded, lemma_digits_value_grows,
    parse_index, parse_usize,
};
use crate::truth::{pow10, TruthValue, SCALE};

verus! {

/// The ten decimal digits, in order.
pub open spec fn digit_chars() -> Seq<char> {
    seq!['0', '1', '2', '3', '4', '5', '6', '7', '8', '9']
}

/// A value in billionths rounded half up to hundredths.
pub open spec fn hundredths(v: u64) -> int {
    (v + 5_000_000) / 10_000_000
}

/// A value of at most one, written with two decimals.
pub open spec fn two_decimals(v: u64) -> Seq<char> {
    let h = hundredths(v);
    seq![digit_chars()[h / 100], '.', digit_chars()[(h / 10) % 10], digit_chars()[h % 10]]
}

/// `<frequency, confidence>`, each with two decimals.
pub open spec fn truth_text(t: TruthValue) -> Seq<char> {
    seq!['<'] + two_decimals(t.freq) + seq![',', ' '] + two_decimals(t.conf) + seq!['>']
}

fn digit_text(n: u64) -> (r: &'static str)
    requires
        n < 10,
    ensures
        r@ == seq![digit_chars()[n as int]],
{
    proof {
        reveal_strlit("0123456789");
    }
    let r = "0123456789".substring_char(n as usize, n as usize + 1);
    assert(r@ =~= seq![digit_chars()[n as int]]);
    r
}

fn push_two_decimals(out: &mut String, v: u64)
    requires
        v <= SCALE,
    ensures
        final(out)@ == old(out)@ + two_decimals(v),
{
    let h = (v + 5_000_000) / 10_000_000;
    out.append(digit_text(h / 100));
    out.append(".");
    out.append(digit_text((h / 10) % 10));
    out.append(digit_text(h % 10));
    proof {
        reveal_strlit(".");
    }
    assert(final(out)@ =~= old(out)@ + two_decimals(v));
}

impl TruthValue {
    /// The truth value of a statement asserted without evidence: `<1.00, 0.99>`.
    pub fn new() -> (r: Result<TruthValue, String>)
        ensures
            r == Ok::<TruthValue, String>(TruthValue { freq: SCALE, conf: 990_000_000 }),
    {
        Ok(TruthValue { freq: SCALE, conf: 990_000_000 })
    }

    /// The written form, rounded to two decimals.
    pub fn to_string(&self) -> (r: String)
        requires
            self.wf(),
        ensures
            r@ == truth_text(*self),
    {
        let mut out = String::from_str("<");
        push_two_decimals(&mut out, self.freq);
        out.append(", ");
        push_two_decimals(&mut out, self.conf);
        out.append(">");
        proof {
            reveal_strlit("<");
            reveal_strlit(", ");
            reveal_strlit(">");
        }
        assert(out@ =~= truth_text(*self));
        out
    }
}

/// The index of the first `c` in `s`, or -1.
pub open spec fn index_of(s: Seq<char>, c: char) -> int
    decreases s.len(),
{
    if s.len() == 0 {
        -1
    } else if s[0] == c {
        0
    } else {
        let r = index_of(s.drop_first(), c);
        if r < 0 {
            -1
        } else {
            r + 1
        }
    }
}

proof fn lemma_index_of(s: Seq<char>, c: char, i: int)
    requires
        0 <= i <= s.len(),
        forall|j: int| 0 <= j < i ==> s[j] != c,
    ensures
        i < s.len() && s[i] == c ==> index_of(s, c) == i,
        i == s.len() ==> index_of(s, c) == -1,
    decreases i,
{
    if i > 0 {
        lemma_index_of(s.drop_first(), c, i - 1);
    }
}

fn find_char(s: &str, c: char) -> (r: Option<usize>)
    ensures
        r matches Some(i) ==> i < s@.len() && s@[i as int] == c && index_of(s@, c) == i,
        r is None ==> index_of(s@, c) == -1,
{
    let n = s.unicode_len();
    let mut i: usize = 0;
    while i < n
        invariant
            n == s@.len(),
            i <= n,
            forall|j: int| 0 <= j < i ==> s@[j] != c,
        decreases n - i,
    {
        if s.get_char(i) == c {
            proof {
                lemma_index_of(s@, c, i as int);
            }
            return Some(i);
        }
        i = i + 1;
    }
    proof {
        lemma_index_of(s@, c, i as int);
    }
    None
}

/// `s` without leading and trailing whitespace.
pub open spec fn trim(s: Seq<char>) -> Seq<char>
    decreases s.len(),
{
    if s.len() > 0 && is_space(s[0]) {
        trim(s.drop_first())
    } else if s.len() > 0 && is_space(s.last()) {
        trim(s.drop_last())
    } else {
        s
    }
}

proof fn lemma_trim_end(s: Seq<char>, j: int)
    requires
        0 < j <= s.len(),
        !is_space(s[0]),
        !is_space(s[j - 1]),
        forall|k: int| j <= k < s.len() ==> is_space(#[trigger] s[k]),
    ensures
        trim(s) == s.take(j),
    decreases s.len(),
{
    if j < s.len() {
        assert(s.drop_last()[0] == s[0]);
        lemma_trim_end(s.drop_last(), j);
        assert(s.drop_last().take(j) =~= s.take(j));
    } else {
        assert(s.take(j) =~= s);
    }
}

proof fn lemma_trim_start(s: Seq<char>, i: int)
    requires
        0 <= i <= s.len(),
        forall|k: int| 0 <= k < i ==> is_space(#[trigger] s[k]),
    ensures
        trim(s) == trim(s.skip(i)),
    decreases i,
{
    if i > 0 {
        lemma_trim_start(s.drop_first(), i - 1);
        assert(s.drop_first().skip(i - 1) =~= s.skip(i));
    } else {
        assert(s.skip(0) =~= s);
    }
}

proof fn lemma_trim_all_space(s: Seq<char>)
    requires
        forall|k: int| 0 <= k < s.len() ==> is_space(#[trigger] s[k]),
    ensures
        trim(s).len() == 0,
    decreases s.len(),
{
    if s.len() > 0 {
        lemma_trim_all_space(s.drop_first());
    }
}

fn trim_str(s: &str) -> (r: &str)
    ensures
        r@ == trim(s@),
{
    let n = s.unicode_len();
    let mut i: usize = 0;
    while i < n
        invariant
            n == s@.len(),
            i <= n,
            forall|k: int| 0 <= k < i ==> is_space(#[trigger] s@[k]),
        ensures
            i == n || !is_space(s@[i as int]),
        decreases n - i,
    {
        if !is_space_char(s.get_char(i)) {
            break;
        }
        i = i + 1;
    }
    proof {
        lemma_trim_start(s@, i as int);
    }
    if i == n {
        proof {
            lemma_trim_all_space(s@.skip(i as int));
        }
        return s.substring_char(n, n);
    }
    let mut j: usize = n;
    while j > i + 1
        invariant
            n == s@.len(),
            i < j <= n,
            !is_space(s@[i as int]),
            forall|k: int| j <= k < n ==> is_space(#[trigger] s@[k]),
        ensures
            j == i + 1 || !is_space(s@[j - 1]),
        decreases j,
    {
        if !is_space_char(s.get_char(j - 1)) {
            break;
        }
        j = j - 1;
    }
    let r = s.substring_char(i, j);
    proof {
        let t = s@.skip(i as int);
        if j == i + 1 {
            assert forall|k: int| (j - i) <= k < t.len() implies is_space(#[trigger] t[k]) by {
                assert(t[k] == s@[k + i]);
            }
        } else {
            assert forall|k: int| (j - i) <= k < t.len() implies is_space(#[trigger] t[k]) by {
                assert(t[k] == s@[k + i]);
            }
        }
        assert(t[0] == s@[i as int]);
        assert(t[j - i - 1] == s@[j - 1]);
        lemma_trim_end(t, j - i);
        assert(t.take(j - i) =~= s@.subrange(i as int, j as int));
    }
    r
}


/// Nine fraction digits: cut after the ninth, or padded with zeros.
pub open spec fn nine_digits(f: Seq<char>) -> Seq<char> {
    if f.len() >= 9 {
        f.take(9)
    } else {
        f + Seq::new((9 - f.len()) as nat, |i: int| '0')
    }
}

/// A decimal `d` or `d.ddd` in billionths; fraction digits past the ninth are dropped.
pub open spec fn decimal_billionths(s: Seq<char>) -> Option<nat> {
    let k = index_of(s, '.');
    if k < 0 {
        match parse_index(s) {
            Some(v) => Some((v * SCALE) as nat),
            None => None,
        }
    } else {
        let fp = s.skip(k + 1);
        match parse_index(s.take(k)) {
            Some(v) => if fp.len() > 0 && all_digits(fp) {
                Some((v * SCALE + digits_value(nine_digits(fp))) as nat)
            } else {
                None
            },
            None => None,
        }
    }
}

/// Why a text is not a truth value.
#[derive(Clone, Copy, Debug, PartialEq, Eq, Structural)]
pub enum TruthValueError {
    Malformed,
    OutOfRange,
}

/// Reads `<f, c>`: two decimals, a frequency in [0, 1] and a confidence in [0, 1).
pub open spec fn parse_truth(s: Seq<char>) -> Result<TruthValue, TruthValueError> {
    if s.len() < 2 || s[0] != '<' || s.last() != '>' {
        Err(TruthValueError::Malformed)
    } else {
        let inner = s.subrange(1, s.len() - 1);
        let k = index_of(inner, ',');
        let f = decimal_billionths(trim(inner.take(k)));
        let c = decimal_billionths(trim(inner.skip(k + 1)));
        if k < 0 || f is None || c is None {
            Err(TruthValueError::Malformed)
        } else if f->Some_0 > SCALE || c->Some_0 >= SCALE {
            Err(TruthValueError::OutOfRange)
        } else {
            Ok(TruthValue { freq: f->Some_0 as u64, conf: c->Some_0 as u64 })
        }
    }
}

proof fn lemma_digits_value_bound(s: Seq<char>)
    requires
        all_digits(s),
    ensures
        digits_value(s) < pow10(s.len()),
    decreases s.len(),
{
    if s.len() > 0 {
        lemma_digits_value_bound(s.drop_last());
        assert(is_digit(s[s.len() - 1]));
    }
}


/// The nine fraction digits of `f` in billionths, when all of `f` are digits.
fn fraction_billionths(f: &str) -> (r: Option<u64>)
    ensures
        r is Some <==> (f@.len() > 0 && all_digits(f@)),
        r matches Some(v) ==> v == digits_value(nine_digits(f@)) && v < SCALE,
{
    let n = f.unicode_len();
    if n == 0 {
        return None;
    }
    let mut i: usize = 0;
    while i < n
        invariant
            n == f@.len(),
            i <= n,
            forall|k: int| 0 <= k < i ==> is_digit(#[trigger] f@[k]),
        decreases n - i,
    {
        let c = f.get_char(i);
        if !('0' <= c && c <= '9') {
            assert(!all_digits(f@)) by {
                assert(!is_digit(f@[i as int]));
            }
            return None;
        }
        i = i + 1;
    }
    let ghost nine = nine_digits(f@);
    assert(all_digits(nine));
    proof {
        lemma_digits_value_bound(nine);
        reveal_with_fuel(pow10, 10);
    }
    let mut v: u64 = 0;
    let mut j: usize = 0;
    while j < 9
        invariant
            n == f@.len(),
            nine == nine_digits(f@),
            nine.len() == 9,
            all_digits(nine),
            j <= 9,
            v == digits_value(nine.take(j as int)),
            digits_value(nine) < 1_000_000_000,
        decreases 9 - j,
    {
        let c = if j < n {
            f.get_char(j)
        } else {
            '0'
        };
        assert(c == nine[j as int]);
        assert(nine.take(j as int + 1) =~= nine.take(j as int).push(c));
        proof {
            lemma_digits_value_grows(nine.take(j as int), c);
            lemma_digits_prefix_bounded(nine, j + 1);
        }
        v = v * 10 + (c as u32 - '0' as u32) as u64;
        j = j + 1;
    }
    assert(nine.take(9) =~= nine);
    Some(v)
}

/// A decimal in billionths: malformed, above one, or its value.
fn decimal(s: &str) -> (r: Result<u64, TruthValueError>)
    ensures
        r matches Ok(v) ==> decimal_billionths(s@) == Some(v as nat) && v <= SCALE,
        r == Err::<u64, TruthValueError>(TruthValueError::Malformed) ==> decimal_billionths(
            s@,
        ) is None,
        r == Err::<u64, TruthValueError>(TruthValueError::OutOfRange) ==> decimal_billionths(
            s@,
        ) is Some && decimal_billionths(s@)->Some_0 > SCALE,
{
    let n = s.unicode_len();
    match find_char(s, '.') {
        None => match parse_usize(s) {
            Some(v) => if v <= 1 {
                Ok(v as u64 * SCALE)
            } else {
                Err(TruthValueError::OutOfRange)
            },
            None => Err(TruthValueError::Malformed),
        },
        Some(k) => {
            let whole = s.substring_char(0, k);
            let part = s.substring_char(k + 1, n);
            assert(whole@ =~= s@.take(k as int));
            assert(part@ =~= s@.skip(k + 1));
            match parse_usize(whole) {
                Some(v) => match fraction_billionths(part) {
                    Some(fr) => if v == 0 || (v == 1 && fr == 0) {
                        Ok(v as u64 * SCALE + fr)
                    } else {
                        Err(TruthValueError::OutOfRange)
                    },
                    None => Err(TruthValueError::Malformed),
                },
                None => Err(TruthValueError::Malformed),
            }
        },
    }
}

impl TruthValue {
    /// Reads a truth value written as `<frequency, confidence>`.
    pub fn new_from_str(s: &str) -> (r: Result<TruthValue, TruthValueError>)
        ensures
            r == parse_truth(s@),
            r matches Ok(t) ==> t.wf(),
    {
        let n = s.unicode_len();
        if n < 2 || s.get_char(0) != '<' || s.get_char(n - 1) != '>' {
            return Err(TruthValueError::Malformed);
        }
        let inner = s.substring_char(1, n - 1);
        let m = inner.unicode_len();
        let k = match find_char(inner, ',') {
            Some(k) => k,
            None => {
                return Err(TruthValueError::Malformed);
            },
        };
        let left = inner.substring_char(0, k);
        let right = inner.substring_char(k + 1, m);
        assert(left@ =~= inner@.take(k as int));
        assert(right@ =~= inner@.skip(k + 1));
        let fa = trim_str(left);
        let fb = trim_str(right);
        let ghost f = decimal_billionths(trim(inner@.take(k as int)));
        let ghost c = decimal_billionths(trim(inner@.skip(k + 1)));
        assert(s@.last() == s@[n - 1]);
        let da = decimal(fa);
        let db = decimal(fb);
        match (da, db) {
            (Ok(fv), Ok(cv)) => {
                if cv >= SCALE {
                    Err(TruthValueError::OutOfRange)
                } else {
                    Ok(TruthValue { freq: fv, conf: cv })
                }
            },
            (Err(TruthValueError::Malformed), _) => Err(TruthValueError::Malformed),
            (_, Err(TruthValueError::Malformed)) => Err(TruthValueError::Malformed),
            _ => Err(TruthValueError::OutOfRange),
        }
    }
}

} // verus!
