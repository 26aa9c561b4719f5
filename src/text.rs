//! Splitting text into words, reading ids, and writing numbers.
use vstd::prelude::*;

use crate::grammar::{is_space, is_space_char};

verus! {

/// The whitespace-separated tokens of `s`, in order.
pub open spec fn tokens(s: Seq<char>) -> Seq<Seq<char>>
    decreases s.len(),
{
    if s.len() == 0 {
        seq![]
    } else {
        let p = s.drop_last();
        let c = s.last();
        if is_space(c) {
            tokens(p)
        } else if p.len() > 0 && !is_space(p.last()) {
            let t = tokens(p);
            t.drop_last().push(t.last().push(c))
        } else {
            tokens(p).push(seq![c])
        }
    }
}

/// The texts of a list of strings.
pub open spec fn string_views(v: Seq<String>) -> Seq<Seq<char>> {
    v.map_values(|t: String| t@)
}

proof fn lemma_tokens_nonempty_when_inside(s: Seq<char>)
    requires
        s.len() > 0,
        !is_space(s.last()),
    ensures
        tokens(s).len() > 0,
    decreases s.len(),
{
    let p = s.drop_last();
    if p.len() > 0 && !is_space(p.last()) {
        lemma_tokens_nonempty_when_inside(p);
    }
}

/// Splits `s` into its whitespace-separated tokens.
pub fn split_tokens(s: &str) -> (r: Vec<String>)
    ensures
        string_views(r@) == tokens(s@),
{
    let n = s.unicode_len();
    let mut out: Vec<String> = Vec::new();
    let mut i: usize = 0;
    while i < n
        invariant
            n == s@.len(),
            i <= n,
            string_views(out@) == tokens(s@.take(i as int)),
        decreases n - i,
    {
        let c = s.get_char(i);
        let piece = s.substring_char(i, i + 1);
        assert(s@.take(i as int + 1).drop_last() =~= s@.take(i as int));
        assert(s@.take(i as int + 1).last() == c);
        assert(piece@ =~= seq![c]);
        if is_space_char(c) {
        } else if i > 0 && !is_space_char(s.get_char(i - 1)) {
            proof {
                assert(s@.take(i as int).last() == s@[i - 1]);
                lemma_tokens_nonempty_when_inside(s@.take(i as int));
            }
            let ghost before = out@;
            let mut last = out.pop().unwrap();
            last.append(piece);
            out.push(last);
            proof {
                assert(last@ =~= before.last()@.push(c));
                assert(out@ =~= before.drop_last().push(last));
                assert(string_views(before).last() == before.last()@);
                assert(string_views(out@) =~= string_views(before).drop_last().push(
                    string_views(before).last().push(c),
                ));
            }
            assert(string_views(out@) =~= tokens(s@.take(i as int + 1)));
        } else {
            proof {
                if i > 0 {
                    assert(s@.take(i as int).last() == s@[i - 1]);
                }
            }
            out.push(String::from_str(piece));
            assert(string_views(out@) =~= tokens(s@.take(i as int + 1)));
        }
        i = i + 1;
    }
    assert(s@.take(n as int) =~= s@);
    out
}

/// `c` is a decimal digit.
pub open spec fn is_digit(c: char) -> bool {
    '0' <= c <= '9'
}

/// The value of a decimal digit.
pub open spec fn digit_value(c: char) -> nat {
    (c as u32 - '0' as u32) as nat
}

/// The number that the decimal digits `s` spell.
pub open spec fn digits_value(s: Seq<char>) -> nat
    decreases s.len(),
{
    if s.len() == 0 {
        0
    } else {
        digits_value(s.drop_last()) * 10 + digit_value(s.last())
    }
}

/// Every character of `s` is a decimal digit.
pub open spec fn all_digits(s: Seq<char>) -> bool {
    forall|i: int| 0 <= i < s.len() ==> is_digit(#[trigger] s[i])
}

/// `s` without its leading `+`, if any.
pub open spec fn index_digits(s: Seq<char>) -> Seq<char> {
    if s.len() > 0 && s[0] == '+' {
        s.drop_first()
    } else {
        s
    }
}

/// The unsigned integer written in `s`: an optional `+`, then at least one
/// decimal digit, with a value that fits in `usize`.
pub open spec fn parse_index(s: Seq<char>) -> Option<usize> {
    let d = index_digits(s);
    if d.len() > 0 && all_digits(d) && digits_value(d) <= usize::MAX {
        Some(digits_value(d) as usize)
    } else {
        None
    }
}

/// One more digit shifts the value by one place.
pub proof fn lemma_digits_value_grows(s: Seq<char>, c: char)
    requires
        is_digit(c),
    ensures
        digits_value(s.push(c)) == digits_value(s) * 10 + digit_value(c),
        digits_value(s.push(c)) >= digits_value(s),
{
    assert(s.push(c).drop_last() =~= s);
}

/// Reads an id such as `12` or `+12`.
pub fn parse_usize(s: &str) -> (r: Option<usize>)
    ensures
        r == parse_index(s@),
{
    let n = s.unicode_len();
    let mut start: usize = 0;
    if n > 0 && s.get_char(0) == '+' {
        start = 1;
    }
    let ghost d = index_digits(s@);
    assert(d =~= s@.subrange(start as int, n as int));
    if start == n {
        return None;
    }
    let mut value: usize = 0;
    let mut i: usize = start;
    while i < n
        invariant
            n == s@.len(),
            start <= i <= n,
            d == index_digits(s@),
            d =~= s@.subrange(start as int, n as int),
            all_digits(s@.subrange(start as int, i as int)),
            value == digits_value(s@.subrange(start as int, i as int)),
        decreases n - i,
    {
        let c = s.get_char(i);
        if !('0' <= c && c <= '9') {
            assert(!all_digits(d)) by {
                assert(d[i - start] == c);
            }
            assert(parse_index(s@).is_none());
            return None;
        }
        let dv = (c as u32 - '0' as u32) as usize;
        proof {
            assert(s@.subrange(start as int, i as int + 1) =~= s@.subrange(
                start as int,
                i as int,
            ).push(c));
            lemma_digits_value_grows(s@.subrange(start as int, i as int), c);
            lemma_digits_prefix_bounded(d, i - start + 1);
        }
        if value > (usize::MAX - dv) / 10 {
            proof {
                lemma_too_big(value as nat, dv as nat);
                assert(d.take(i - start + 1) =~= s@.subrange(start as int, i as int + 1));
                if all_digits(d) {
                    assert(digits_value(d) > usize::MAX);
                }
            }
            assert(parse_index(s@).is_none());
            return None;
        }
        value = value * 10 + dv;
        i = i + 1;
    }
    assert(s@.subrange(start as int, n as int) =~= d);
    Some(value)
}

proof fn lemma_too_big(v: nat, dv: nat)
    requires
        dv <= 9,
        v > (usize::MAX - dv) / 10,
    ensures
        v * 10 + dv > usize::MAX,
{
    assert(v * 10 + dv > usize::MAX) by (nonlinear_arith)
        requires
            dv <= 9,
            v > (usize::MAX - dv) / 10,
    ;
}

/// A prefix of digits is worth no more than the whole.
pub proof fn lemma_digits_prefix_bounded(d: Seq<char>, k: int)
    requires
        0 <= k <= d.len(),
    ensures
        all_digits(d) ==> digits_value(d.take(k)) <= digits_value(d),
    decreases d.len() - k,
{
    if k < d.len() && all_digits(d) {
        lemma_digits_prefix_bounded(d, k + 1);
        assert(d.take(k + 1) =~= d.take(k).push(d[k]));
        lemma_digits_value_grows(d.take(k), d[k]);
    } else if k == d.len() {
        assert(d.take(k) =~= d);
    }
}


/// The ten decimal digits, in order.
pub open spec fn decimal_digits() -> Seq<char> {
    seq!['0', '1', '2', '3', '4', '5', '6', '7', '8', '9']
}

/// `n` in decimal, without leading zeros.
pub open spec fn decimal_text(n: nat) -> Seq<char>
    decreases n,
{
    if n < 10 {
        seq![decimal_digits()[n as int]]
    } else {
        decimal_text(n / 10).push(decimal_digits()[(n % 10) as int])
    }
}

fn digit_str(n: usize) -> (r: &'static str)
    requires
        n < 10,
    ensures
        r@ == seq![decimal_digits()[n as int]],
{
    proof {
        reveal_strlit("0123456789");
    }
    let r = "0123456789".substring_char(n, n + 1);
    assert(r@ =~= seq![decimal_digits()[n as int]]);
    r
}

/// Appends `n` in decimal.
pub fn push_decimal(out: &mut String, n: usize)
    ensures
        final(out)@ == old(out)@ + decimal_text(n as nat),
    decreases n,
{
    if n < 10 {
        out.append(digit_str(n));
    } else {
        push_decimal(out, n / 10);
        out.append(digit_str(n % 10));
        assert(final(out)@ =~= old(out)@ + decimal_text(n as nat));
    }
}

} // verus!
