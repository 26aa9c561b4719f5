//! Truth values and the truth functions of the inference rules.
//!
//! Frequency and confidence are held as integers in billionths: a frequency
//! `f` stands for `f / SCALE`. Each truth function is stated over exact integer
//! arithmetic and rounds to nearest once, at the end. Where a formula divides
//! an amount of evidence by a total that is zero, the frequency is one half
//! and the confidence zero: no evidence either way. A confidence that would
//! round to one is kept at the largest value below it.
use vstd::prelude::*;

use vstd::arithmetic::div_mod::lemma_multiply_divide_lt;
use vstd::arithmetic::mul::lemma_mul_upper_bound;

verus! {

/// The unit of frequency and confidence: one billion parts.
pub const SCALE: u64 = 1_000_000_000;

/// `p / q` rounded to the nearest integer, halves up.
pub open spec fn round_div(p: int, q: int) -> int {
    (2 * p + q) / (2 * q)
}

/// Ten to the power `n`.
pub open spec fn pow10(n: nat) -> nat
    decreases n,
{
    if n == 0 {
        1
    } else {
        10 * pow10((n - 1) as nat)
    }
}

proof fn lemma_pow10_positive(n: nat)
    ensures
        pow10(n) >= 1,
    decreases n,
{
    if n > 0 {
        lemma_pow10_positive((n - 1) as nat);
    }
}

/// A rounded quotient is at most `m` where the exact one is.
pub proof fn lemma_round_le(x: int, q: int, m: int)
    requires
        0 < q,
        0 <= x,
        0 <= m,
        x <= m * q,
    ensures
        0 <= round_div(x, q) <= m,
{
    assert(2 * x + q < (2 * q) * (m + 1)) by (nonlinear_arith)
        requires
            0 < q,
            x <= m * q,
    ;
    lemma_multiply_divide_lt(2 * x + q, 2 * q, m + 1);
    vstd::arithmetic::div_mod::lemma_div_pos_is_pos(2 * x + q, 2 * q);
}

/// A rounded quotient is at least `m` where the exact one is.
pub proof fn lemma_round_ge(x: int, q: int, m: int)
    requires
        0 < q,
        0 <= m,
        m * q <= x,
    ensures
        round_div(x, q) >= m,
{
    assert((2 * q) * m <= 2 * x + q) by (nonlinear_arith)
        requires
            0 < q,
            m * q <= x,
    ;
    vstd::arithmetic::div_mod::lemma_div_multiples_vanish(m, 2 * q);
    vstd::arithmetic::div_mod::lemma_div_is_ordered((2 * q) * m, 2 * x + q, 2 * q);
}

/// `x / q`, rounded to nearest.
fn rounded(x: u128, q: u128) -> (r: u128)
    requires
        0 < q <= 1_000_000_000_000_000_000_000_000_000_000u128,
        x <= 100_000_000_000_000_000_000_000_000_000_000_000_000u128,
    ensures
        r == round_div(x as int, q as int),
{
    (2 * x + q) / (2 * q)
}

/// `x / d` in billionths, rounded to nearest, for `x <= d`: long division,
/// one decimal digit at a time, so that nothing overflows.
pub fn scaled_ratio(x: u128, d: u128) -> (r: u64)
    requires
        0 < d <= 10_000_000_000_000_000_000_000_000_000_000_000_000u128,
        x <= d,
    ensures
        r == round_div(x * SCALE, d as int),
        r <= SCALE,
{
    let ghost s = SCALE as int;
    if x == d {
        proof {
            assert(2 * (x * s) + d == (2 * d) * s + d) by (nonlinear_arith)
                requires
                    x == d,
            ;
            vstd::arithmetic::div_mod::lemma_div_multiples_vanish_fancy(s, d as int, 2 * d);
            assert((2 * d) * s + d == 2 * d * s + d);
        }
        return SCALE;
    }
    let dd: u128 = 2 * d;
    let mut q: u128 = 0;
    let mut rem: u128 = 2 * x;
    let mut i: usize = 0;
    let ghost mut p: int = 1;
    assert(pow10(9) == 1_000_000_000) by {
        reveal_with_fuel(pow10, 10);
    }
    while i < 9
        invariant
            0 < d <= 10_000_000_000_000_000_000_000_000_000_000_000_000u128,
            x < d,
            dd == 2 * d,
            i <= 9,
            p * pow10((9 - i) as nat) == 1_000_000_000,
            p >= 1,
            2 * x * p == q * dd + rem,
            rem < dd,
            q < p,
        decreases 9 - i,
    {
        proof {
            lemma_pow10_positive((8 - i) as nat);
            assert(pow10((9 - i) as nat) == 10 * pow10((8 - i) as nat));
            assert(p * 10 <= 1_000_000_000) by (nonlinear_arith)
                requires
                    p * (10 * pow10((8 - i) as nat)) == 1_000_000_000,
                    pow10((8 - i) as nat) >= 1,
                    p >= 1,
            ;
            assert((p * 10) * pow10((8 - i) as nat) == 1_000_000_000) by (nonlinear_arith)
                requires
                    p * (10 * pow10((8 - i) as nat)) == 1_000_000_000,
            ;
        }
        let ten_rem = rem * 10;
        let digit = ten_rem / dd;
        let next = ten_rem % dd;
        proof {
            vstd::arithmetic::div_mod::lemma_fundamental_div_mod(ten_rem as int, dd as int);
            vstd::arithmetic::div_mod::lemma_mod_pos_bound(ten_rem as int, dd as int);
            lemma_multiply_divide_lt(ten_rem as int, dd as int, 10);
            assert(2 * x * (p * 10) == (q * 10 + digit) * dd + next) by (nonlinear_arith)
                requires
                    2 * x * p == q * dd + rem,
                    ten_rem == rem * 10,
                    ten_rem == dd * digit + next,
            ;
            assert(q * 10 + digit < p * 10) by (nonlinear_arith)
                requires
                    q < p,
                    digit < 10,
            ;
        }
        q = q * 10 + digit;
        rem = next;
        i = i + 1;
        proof {
            p = p * 10;
        }
    }
    proof {
        assert(i == 9);
        assert(pow10((9 - i) as nat) == 1);
        assert(p * 1 == p);
        assert(s == 1_000_000_000);
        assert(p == s);
        assert(2 * (x * s) + d == dd * q + (rem + d)) by (nonlinear_arith)
            requires
                2 * x * p == q * dd + rem,
                p == s,
        ;
    }
    if rem + d < dd {
        proof {
            vstd::arithmetic::div_mod::lemma_div_multiples_vanish_fancy(q as int, (rem + d) as int, dd as int);
        }
        q as u64
    } else {
        proof {
            assert(dd * q + (rem + d) == dd * (q + 1) + (rem + d - dd)) by (nonlinear_arith);
            vstd::arithmetic::div_mod::lemma_div_multiples_vanish_fancy(
                (q + 1) as int,
                (rem + d - dd) as int,
                dd as int,
            );
        }
        (q + 1) as u64
    }
}


/// A frequency and a confidence, both in billionths.
#[derive(Clone, Copy, Debug, PartialEq, Eq, Structural)]
pub struct TruthValue {
    pub freq: u64,
    pub conf: u64,
}

impl TruthValue {
    /// Frequency in [0, 1], confidence in [0, 1).
    pub open spec fn wf(self) -> bool {
        self.freq <= SCALE && self.conf < SCALE
    }
}

/// `p / w` in billionths, rounded to nearest; one half where `w` is zero.
pub open spec fn frequency_of(p: int, w: int) -> int {
    if w == 0 {
        SCALE as int / 2
    } else {
        round_div(p * SCALE, w)
    }
}

/// A confidence kept below one: a value that rounds to one becomes the
/// largest confidence there is.
pub open spec fn below_one(x: int) -> int {
    if x >= SCALE {
        SCALE - 1
    } else {
        x
    }
}

/// `w / (w + k)` in billionths, rounded to nearest and kept below one, for
/// evidence `w` and horizon `k`.
pub open spec fn confidence_of(w: int, k: int) -> int {
    below_one(round_div(w * SCALE, w + k))
}

/// A truth value from two values in billionths.
pub open spec fn truth(f: int, c: int) -> TruthValue {
    TruthValue { freq: f as u64, conf: c as u64 }
}

/// The complement `1 - x`, in billionths.
pub open spec fn complement(x: u64) -> int {
    SCALE - x
}

/// One, in units of `1 / SCALE^2`.
pub open spec fn s2() -> int {
    SCALE * SCALE
}

/// One, in units of `1 / SCALE^3`.
pub open spec fn s3() -> int {
    SCALE * SCALE * SCALE
}

/// One, in units of `1 / SCALE^4`.
pub open spec fn s4() -> int {
    SCALE * SCALE * SCALE * SCALE
}

/// Deduction: `f1 f2`, `c1 c2 f1 f2`.
pub open spec fn deduction_truth(a: TruthValue, b: TruthValue) -> TruthValue {
    truth(
        round_div(a.freq * b.freq, SCALE as int),
        round_div(a.conf * b.conf * a.freq * b.freq, s3()),
    )
}

/// Induction: positive evidence `f1 f2 c1 c2`, negative `(1 - f1) f2 c1 c2`.
pub open spec fn induction_truth(a: TruthValue, b: TruthValue) -> TruthValue {
    let pe = a.freq * b.freq * a.conf * b.conf;
    let ne = complement(a.freq) * b.freq * a.conf * b.conf;
    truth(frequency_of(pe, pe + ne), confidence_of(pe + ne, s4()))
}

/// Abduction: positive evidence `f1 f2 c1 c2`, negative `(1 - f2) f1 c1 c2`.
pub open spec fn abduction_truth(a: TruthValue, b: TruthValue) -> TruthValue {
    let pe = a.freq * b.freq * a.conf * b.conf;
    let ne = complement(b.freq) * a.freq * a.conf * b.conf;
    truth(frequency_of(pe, pe + ne), confidence_of(pe + ne, s4()))
}

/// Exemplification: positive evidence `f1 f2 c1 c2` and none against.
pub open spec fn exemplification_truth(a: TruthValue, b: TruthValue) -> TruthValue {
    let pe = a.freq * b.freq * a.conf * b.conf;
    truth(frequency_of(pe, pe), confidence_of(pe, s4()))
}

/// Conversion: positive evidence `f c` and none against.
pub open spec fn conversion_truth(a: TruthValue) -> TruthValue {
    let pe = a.freq * a.conf;
    truth(frequency_of(pe, pe), confidence_of(pe, s2()))
}

/// `f1 + f2 - f1 f2`, in units of `SCALE * SCALE`.
pub open spec fn either(a: TruthValue, b: TruthValue) -> int {
    a.freq * SCALE + b.freq * SCALE - a.freq * b.freq
}

/// Comparison: `f1 f2 / D`, `c1 c2 D / (c1 c2 D + 1)` with `D = f1 + f2 - f1 f2`.
pub open spec fn comparison_truth(a: TruthValue, b: TruthValue) -> TruthValue {
    let d = either(a, b);
    truth(frequency_of(a.freq * b.freq, d), confidence_of(a.conf * b.conf * d, s4()))
}

/// Analogy from an inheritance `a` and a similarity `b`: `f1 f2`, `f2 c1 c2`.
pub open spec fn analogy_truth(a: TruthValue, b: TruthValue) -> TruthValue {
    truth(round_div(a.freq * b.freq, SCALE as int), round_div(b.freq * a.conf * b.conf, s2()))
}

/// Resemblance: `f1 f2`, `c1 c2 (f1 + f2 - f1 f2)`.
pub open spec fn resemblance_truth(a: TruthValue, b: TruthValue) -> TruthValue {
    truth(round_div(a.freq * b.freq, SCALE as int), round_div(a.conf * b.conf * either(a, b), s3()))
}

/// Revision: evidence weights `c1 (1 - c2)` and `c2 (1 - c1)` pooled.
pub open spec fn revision_truth(a: TruthValue, b: TruthValue) -> TruthValue {
    let w1 = a.conf * complement(b.conf);
    let w2 = b.conf * complement(a.conf);
    truth(
        frequency_of(a.freq * w1 + b.freq * w2, SCALE * (w1 + w2)),
        confidence_of(w1 + w2, complement(a.conf) * complement(b.conf)),
    )
}

/// `f1 f2`, in billionths.
pub open spec fn freq_and(a: TruthValue, b: TruthValue) -> int {
    round_div(a.freq * b.freq, SCALE as int)
}

/// `1 - (1 - f1)(1 - f2)`, in billionths.
pub open spec fn freq_or(a: TruthValue, b: TruthValue) -> int {
    round_div(s2() - complement(a.freq) * complement(b.freq), SCALE as int)
}

/// `f1 (1 - f2)`, in billionths.
pub open spec fn freq_minus(a: TruthValue, b: TruthValue) -> int {
    round_div(a.freq * complement(b.freq), SCALE as int)
}

/// `c1 c2`, in billionths.
pub open spec fn conf_and(a: TruthValue, b: TruthValue) -> int {
    round_div(a.conf * b.conf, SCALE as int)
}

/// Expectation `c (f - 1/2) + 1/2`, in units of `1 / (2 SCALE^2)`.
pub open spec fn expectation(t: TruthValue) -> int {
    t.conf * (2 * t.freq - SCALE) + s2()
}

// Exact arithmetic on the scaled values.

fn times(a: u128, b: u128) -> (r: u128)
    requires
        a * b <= u128::MAX,
    ensures
        r == a * b,
{
    a * b
}

proof fn lemma_le_mul(a: int, b: int, x: int, y: int)
    requires
        0 <= a <= x,
        0 <= b <= y,
    ensures
        0 <= a * b <= x * y,
{
    lemma_mul_upper_bound(a, x, b, y);
    assert(0 <= a * b) by (nonlinear_arith)
        requires
            0 <= a,
            0 <= b,
    ;
}

/// `p / w` in billionths, one half where `w` is zero.
pub fn frequency(p: u128, w: u128) -> (r: u64)
    requires
        p <= w,
        w <= 10_000_000_000_000_000_000_000_000_000_000_000_000u128,
    ensures
        r == frequency_of(p as int, w as int),
        r <= SCALE,
{
    if w == 0 {
        SCALE / 2
    } else {
        scaled_ratio(p, w)
    }
}

/// `w / (w + k)` in billionths, kept below one.
pub fn confidence(w: u128, k: u128) -> (r: u64)
    requires
        k > 0,
        w <= 5_000_000_000_000_000_000_000_000_000_000_000_000u128,
        k <= 5_000_000_000_000_000_000_000_000_000_000_000_000u128,
    ensures
        r == confidence_of(w as int, k as int),
        r < SCALE,
{
    let q = scaled_ratio(w, w + k);
    if q >= SCALE {
        SCALE - 1
    } else {
        q
    }
}

/// A product of two values in billionths, rounded to billionths.
fn scaled_product(a: u64, b: u64) -> (r: u64)
    requires
        a <= SCALE,
        b <= SCALE,
    ensures
        r == round_div(a * b, SCALE as int),
        r <= a,
        r <= b,
{
    proof {
        lemma_le_mul(a as int, b as int, a as int, SCALE as int);
        lemma_le_mul(a as int, b as int, SCALE as int, b as int);
        assert(a * SCALE == SCALE * a && b * SCALE == SCALE * b) by (nonlinear_arith);
        lemma_round_le(a * b, SCALE as int, a as int);
        lemma_round_le(a * b, SCALE as int, b as int);
    }
    rounded(times(a as u128, b as u128), SCALE as u128) as u64
}

/// The product of four values in billionths, exactly; at most the first
/// times `SCALE^3`.
fn product4(a: u64, b: u64, c: u64, d: u64) -> (r: u128)
    requires
        a <= SCALE,
        b <= SCALE,
        c <= SCALE,
        d <= SCALE,
    ensures
        r == a * b * c * d,
        r <= a * s3(),
        r <= s4(),
{
    proof {
        lemma_le_mul(a as int, b as int, a as int, SCALE as int);
        lemma_le_mul(a * b, c as int, a * SCALE, SCALE as int);
        lemma_le_mul(a * b * c, d as int, a * SCALE * SCALE, SCALE as int);
        lemma_le_mul(a as int, s3(), SCALE as int, s3());
        assert(a * SCALE * SCALE * SCALE == a * s3()) by (nonlinear_arith);
    }
    times(times(times(a as u128, b as u128), c as u128), d as u128)
}

/// The largest confidence there is, in billionths.
pub open spec fn largest_conf() -> int {
    SCALE - 1
}

/// Computes [`deduction_truth`].
pub fn deduction_tv(a: TruthValue, b: TruthValue) -> (r: TruthValue)
    requires
        a.wf(),
        b.wf(),
    ensures
        r == deduction_truth(a, b),
        r.wf(),
{
    let c = product4(a.conf, b.conf, a.freq, b.freq);
    proof {
        lemma_le_mul(a.conf as int, s3(), largest_conf(), s3());
        lemma_round_le(c as int, s3(), largest_conf());
    }
    let conf = rounded(c, 1_000_000_000_000_000_000_000_000_000u128) as u64;
    TruthValue { freq: scaled_product(a.freq, b.freq), conf }
}

/// Computes [`induction_truth`].
pub fn induction_tv(a: TruthValue, b: TruthValue) -> (r: TruthValue)
    requires
        a.wf(),
        b.wf(),
    ensures
        r == induction_truth(a, b),
        r.wf(),
{
    let pe = product4(a.freq, b.freq, a.conf, b.conf);
    let ne = product4(SCALE - a.freq, b.freq, a.conf, b.conf);
    TruthValue {
        freq: frequency(pe, pe + ne),
        conf: confidence(pe + ne, 1_000_000_000_000_000_000_000_000_000_000_000_000u128),
    }
}

/// Computes [`abduction_truth`].
pub fn abduction_tv(a: TruthValue, b: TruthValue) -> (r: TruthValue)
    requires
        a.wf(),
        b.wf(),
    ensures
        r == abduction_truth(a, b),
        r.wf(),
{
    let pe = product4(a.freq, b.freq, a.conf, b.conf);
    let ne = product4(SCALE - b.freq, a.freq, a.conf, b.conf);
    TruthValue {
        freq: frequency(pe, pe + ne),
        conf: confidence(pe + ne, 1_000_000_000_000_000_000_000_000_000_000_000_000u128),
    }
}

/// Computes [`exemplification_truth`].
pub fn exemplification_tv(a: TruthValue, b: TruthValue) -> (r: TruthValue)
    requires
        a.wf(),
        b.wf(),
    ensures
        r == exemplification_truth(a, b),
        r.wf(),
{
    let pe = product4(a.freq, b.freq, a.conf, b.conf);
    TruthValue {
        freq: frequency(pe, pe),
        conf: confidence(pe, 1_000_000_000_000_000_000_000_000_000_000_000_000u128),
    }
}

/// Computes [`conversion_truth`].
pub fn conversion_tv(a: TruthValue) -> (r: TruthValue)
    requires
        a.wf(),
    ensures
        r == conversion_truth(a),
        r.wf(),
{
    proof {
        lemma_le_mul(a.freq as int, a.conf as int, SCALE as int, SCALE as int);
    }
    let pe = times(a.freq as u128, a.conf as u128);
    TruthValue {
        freq: frequency(pe, pe),
        conf: confidence(pe, 1_000_000_000_000_000_000u128),
    }
}

proof fn lemma_either(a: TruthValue, b: TruthValue)
    requires
        a.wf(),
        b.wf(),
    ensures
        either(a, b) == s2() - complement(a.freq) * complement(b.freq),
        a.freq * b.freq <= either(a, b) <= s2(),
        0 <= complement(a.freq) * complement(b.freq) <= s2(),
{
    let (f1, f2) = (a.freq as int, b.freq as int);
    let s = SCALE as int;
    assert(s * f1 + s * f2 - f1 * f2 == s * s - (s - f1) * (s - f2)) by (nonlinear_arith);
    assert(f1 * s == s * f1 && f2 * s == s * f2) by (nonlinear_arith);
    lemma_le_mul(s - f1, s - f2, s, s);
    lemma_le_mul(f1, f2, f1, s);
    lemma_le_mul(f1, f2, s, f2);
}

/// `f1 + f2 - f1 f2`, in units of `SCALE * SCALE`.
fn either_of(a: TruthValue, b: TruthValue) -> (r: u128)
    requires
        a.wf(),
        b.wf(),
    ensures
        r == either(a, b),
        a.freq * b.freq <= r <= s2(),
{
    proof {
        lemma_either(a, b);
        lemma_le_mul(a.freq as int, b.freq as int, SCALE as int, SCALE as int);
    }
    times(a.freq as u128, SCALE as u128) + times(b.freq as u128, SCALE as u128) - times(
        a.freq as u128,
        b.freq as u128,
    )
}

/// Computes [`comparison_truth`].
pub fn comparison_tv(a: TruthValue, b: TruthValue) -> (r: TruthValue)
    requires
        a.wf(),
        b.wf(),
    ensures
        r == comparison_truth(a, b),
        r.wf(),
{
    let d = either_of(a, b);
    proof {
        lemma_le_mul(a.freq as int, b.freq as int, SCALE as int, SCALE as int);
        lemma_le_mul(a.conf as int, b.conf as int, SCALE as int, SCALE as int);
        lemma_le_mul(a.conf * b.conf, d as int, s2(), s2());
    }
    let fp = times(a.freq as u128, b.freq as u128);
    let w = times(times(a.conf as u128, b.conf as u128), d);
    TruthValue {
        freq: frequency(fp, d),
        conf: confidence(w, 1_000_000_000_000_000_000_000_000_000_000_000_000u128),
    }
}

/// Computes [`analogy_truth`].
pub fn analogy_tv(a: TruthValue, b: TruthValue) -> (r: TruthValue)
    requires
        a.wf(),
        b.wf(),
    ensures
        r == analogy_truth(a, b),
        r.wf(),
{
    let ghost (f2, c1, c2) = (b.freq as int, a.conf as int, b.conf as int);
    proof {
        lemma_le_mul(f2, c1, SCALE as int, largest_conf());
        lemma_le_mul(f2 * c1, c2, SCALE * largest_conf(), SCALE as int);
        assert(SCALE * largest_conf() * SCALE == largest_conf() * s2()) by (nonlinear_arith);
        lemma_round_le(f2 * c1 * c2, s2(), largest_conf());
    }
    let c = times(times(b.freq as u128, a.conf as u128), b.conf as u128);
    TruthValue {
        freq: scaled_product(a.freq, b.freq),
        conf: rounded(c, 1_000_000_000_000_000_000u128) as u64,
    }
}

/// Computes [`resemblance_truth`].
pub fn resemblance_tv(a: TruthValue, b: TruthValue) -> (r: TruthValue)
    requires
        a.wf(),
        b.wf(),
    ensures
        r == resemblance_truth(a, b),
        r.wf(),
{
    let d = either_of(a, b);
    let ghost (c1, c2) = (a.conf as int, b.conf as int);
    proof {
        lemma_le_mul(c1, c2, largest_conf(), SCALE as int);
        lemma_le_mul(c1 * c2, d as int, largest_conf() * SCALE, s2());
        assert(largest_conf() * SCALE * s2() == largest_conf() * s3()) by (nonlinear_arith);
        lemma_round_le(c1 * c2 * d, s3(), largest_conf());
    }
    let c = times(times(a.conf as u128, b.conf as u128), d);
    TruthValue {
        freq: scaled_product(a.freq, b.freq),
        conf: rounded(c, 1_000_000_000_000_000_000_000_000_000u128) as u64,
    }
}

/// Computes [`revision_truth`].
pub fn revision_tv(a: TruthValue, b: TruthValue) -> (r: TruthValue)
    requires
        a.wf(),
        b.wf(),
    ensures
        r == revision_truth(a, b),
        r.wf(),
{
    let ghost (f1, f2, c1, c2) = (a.freq as int, b.freq as int, a.conf as int, b.conf as int);
    let s: u128 = SCALE as u128;
    proof {
        lemma_le_mul(c1, s - c2, s as int, s as int);
        lemma_le_mul(c2, s - c1, s as int, s as int);
        lemma_le_mul(f1, c1 * (s - c2), s as int, c1 * (s - c2));
        lemma_le_mul(f2, c2 * (s - c1), s as int, c2 * (s - c1));
        lemma_le_mul(s - c1, s - c2, s as int, s as int);
        assert((s - c1) * (s - c2) > 0) by (nonlinear_arith)
            requires
                c1 < s,
                c2 < s,
        ;
        assert(s * (c1 * (s - c2)) + s * (c2 * (s - c1)) == s * (c1 * (s - c2) + c2 * (s
            - c1))) by (nonlinear_arith);
    }
    let w1 = times(a.conf as u128, s - b.conf as u128);
    let w2 = times(b.conf as u128, s - a.conf as u128);
    let p = times(a.freq as u128, w1) + times(b.freq as u128, w2);
    let k = times(s - a.conf as u128, s - b.conf as u128);
    TruthValue { freq: frequency(p, times(s, w1 + w2)), conf: confidence(w1 + w2, k) }
}

/// Union in extension: `f1 f2`, `c1 c2`.
pub open spec fn union_extension_truth(a: TruthValue, b: TruthValue) -> TruthValue {
    truth(freq_and(a, b), conf_and(a, b))
}

/// Union in intension: `1 - (1 - f1)(1 - f2)`, `c1 c2`.
pub open spec fn union_intension_truth(a: TruthValue, b: TruthValue) -> TruthValue {
    truth(freq_or(a, b), conf_and(a, b))
}

/// Intersection in extension: `1 - (1 - f1)(1 - f2)`, `c1 c2`.
pub open spec fn intersection_extension_truth(a: TruthValue, b: TruthValue) -> TruthValue {
    truth(freq_or(a, b), conf_and(a, b))
}

/// Intersection in intension: `f1 f2`, `c1 c2`.
pub open spec fn intersection_intension_truth(a: TruthValue, b: TruthValue) -> TruthValue {
    truth(freq_and(a, b), conf_and(a, b))
}

/// Difference, in extension and in intension alike: `f1 (1 - f2)`, `c1 c2`.
pub open spec fn difference_truth(a: TruthValue, b: TruthValue) -> TruthValue {
    truth(freq_minus(a, b), conf_and(a, b))
}

fn conf_product(a: TruthValue, b: TruthValue) -> (r: u64)
    requires
        a.wf(),
        b.wf(),
    ensures
        r == conf_and(a, b),
        r < SCALE,
{
    proof {
        lemma_le_mul(a.conf as int, b.conf as int, largest_conf(), SCALE as int);
        lemma_round_le(a.conf * b.conf, SCALE as int, largest_conf());
    }
    rounded(times(a.conf as u128, b.conf as u128), SCALE as u128) as u64
}

fn freq_or_of(a: TruthValue, b: TruthValue) -> (r: u64)
    requires
        a.wf(),
        b.wf(),
    ensures
        r == freq_or(a, b),
        r <= SCALE,
{
    let s: u128 = SCALE as u128;
    proof {
        lemma_either(a, b);
        lemma_round_le(s2() - complement(a.freq) * complement(b.freq), s as int, s as int);
    }
    rounded(times(s, s) - times(s - a.freq as u128, s - b.freq as u128), s) as u64
}

/// Computes [`union_extension_truth`].
pub fn union_extension_tv(a: TruthValue, b: TruthValue) -> (r: TruthValue)
    requires
        a.wf(),
        b.wf(),
    ensures
        r == union_extension_truth(a, b),
        r.wf(),
{
    TruthValue { freq: scaled_product(a.freq, b.freq), conf: conf_product(a, b) }
}

/// Computes [`union_intension_truth`].
pub fn union_intension_tv(a: TruthValue, b: TruthValue) -> (r: TruthValue)
    requires
        a.wf(),
        b.wf(),
    ensures
        r == union_intension_truth(a, b),
        r.wf(),
{
    TruthValue { freq: freq_or_of(a, b), conf: conf_product(a, b) }
}

/// Computes [`intersection_extension_truth`].
pub fn intersection_extension_tv(a: TruthValue, b: TruthValue) -> (r: TruthValue)
    requires
        a.wf(),
        b.wf(),
    ensures
        r == intersection_extension_truth(a, b),
        r.wf(),
{
    TruthValue { freq: freq_or_of(a, b), conf: conf_product(a, b) }
}

/// Computes [`intersection_intension_truth`].
pub fn intersection_intension_tv(a: TruthValue, b: TruthValue) -> (r: TruthValue)
    requires
        a.wf(),
        b.wf(),
    ensures
        r == intersection_intension_truth(a, b),
        r.wf(),
{
    TruthValue { freq: scaled_product(a.freq, b.freq), conf: conf_product(a, b) }
}

/// Computes [`difference_truth`].
pub fn difference_tv(a: TruthValue, b: TruthValue) -> (r: TruthValue)
    requires
        a.wf(),
        b.wf(),
    ensures
        r == difference_truth(a, b),
        r.wf(),
{
    TruthValue { freq: scaled_product(a.freq, SCALE - b.freq), conf: conf_product(a, b) }
}

/// The sign of `expectation(a) - expectation(b)`.
pub fn compare_expectation(a: TruthValue, b: TruthValue) -> (r: i8)
    requires
        a.wf(),
        b.wf(),
    ensures
        r == 1 <==> expectation(a) > expectation(b),
        r == -1 <==> expectation(a) < expectation(b),
        r == 0 <==> expectation(a) == expectation(b),
{
    // c (2f - 1) + 1, written without negative numbers: c 2f + (1 - c).
    let s: u128 = SCALE as u128;
    proof {
        lemma_le_mul(a.conf as int, 2 * a.freq, SCALE as int, 2 * SCALE);
        lemma_le_mul(b.conf as int, 2 * b.freq, SCALE as int, 2 * SCALE);
        lemma_le_mul(a.conf as int, SCALE as int, SCALE as int, SCALE as int);
        lemma_le_mul(b.conf as int, SCALE as int, SCALE as int, SCALE as int);
        assert(expectation(a) == a.conf * (2 * a.freq) + (s2() - a.conf * SCALE)) by (nonlinear_arith);
        assert(expectation(b) == b.conf * (2 * b.freq) + (s2() - b.conf * SCALE)) by (nonlinear_arith);
    }
    let ea = times(a.conf as u128, 2 * a.freq as u128) + (times(s, s) - times(a.conf as u128, s));
    let eb = times(b.conf as u128, 2 * b.freq as u128) + (times(s, s) - times(b.conf as u128, s));
    if ea > eb {
        1
    } else if ea < eb {
        -1
    } else {
        0
    }
}

/// The pooled evidence weight of revision, `c1 (1 - c2) + c2 (1 - c1)`, in
/// units of `1 / SCALE^2`.
pub open spec fn revision_weight(a: TruthValue, b: TruthValue) -> int {
    a.conf * complement(b.conf) + b.conf * complement(a.conf)
}

/// Revision's horizon term `(1 - c1)(1 - c2)`, in units of `1 / SCALE^2`.
pub open spec fn revision_horizon(a: TruthValue, b: TruthValue) -> int {
    complement(a.conf) * complement(b.conf)
}

/// Revision pools confidence: the exact pooled confidence `w / (w + k)` is
/// above each input confidence where both lie strictly between zero and one,
/// and the stored, rounded confidence is never below either input.
pub proof fn lemma_revision_confidence_grows(a: TruthValue, b: TruthValue)
    requires
        a.wf(),
        b.wf(),
    ensures
        revision_truth(a, b).conf >= a.conf,
        revision_truth(a, b).conf >= b.conf,
        0 < a.conf && 0 < b.conf ==> revision_weight(a, b) * SCALE > a.conf * (revision_weight(
            a,
            b,
        ) + revision_horizon(a, b)) && revision_weight(a, b) * SCALE > b.conf * (
        revision_weight(a, b) + revision_horizon(a, b)),
{
    let s = SCALE as int;
    let (c1, c2) = (a.conf as int, b.conf as int);
    let w = revision_weight(a, b);
    let k = revision_horizon(a, b);
    assert(w * s - c1 * (w + k) == c2 * (s - c1) * (s - c1)) by (nonlinear_arith)
        requires
            w == c1 * (s - c2) + c2 * (s - c1),
            k == (s - c1) * (s - c2),
    ;
    assert(w * s - c2 * (w + k) == c1 * (s - c2) * (s - c2)) by (nonlinear_arith)
        requires
            w == c1 * (s - c2) + c2 * (s - c1),
            k == (s - c1) * (s - c2),
    ;
    assert(c2 * (s - c1) * (s - c1) >= 0 && (c2 > 0 ==> c2 * (s - c1) * (s - c1) > 0))
        by (nonlinear_arith)
        requires
            c2 >= 0,
            c1 < s,
    ;
    assert(c1 * (s - c2) * (s - c2) >= 0 && (c1 > 0 ==> c1 * (s - c2) * (s - c2) > 0))
        by (nonlinear_arith)
        requires
            c1 >= 0,
            c2 < s,
    ;
    assert(k > 0) by (nonlinear_arith)
        requires
            c1 < s,
            c2 < s,
            k == (s - c1) * (s - c2),
    ;
    assert(w >= 0) by (nonlinear_arith)
        requires
            0 <= c1 < s,
            0 <= c2 < s,
            w == c1 * (s - c2) + c2 * (s - c1),
    ;
    lemma_round_ge(w * s, w + k, c1);
    lemma_round_ge(w * s, w + k, c2);
    assert(s * w == w * s) by (nonlinear_arith);
    lemma_round_le(w * s, w + k, s);
    assert(revision_truth(a, b).conf == confidence_of(w, k));
}

/// Revision's frequency lies between the two input frequencies, where at
/// least one input has some confidence.
pub proof fn lemma_revision_frequency_between(a: TruthValue, b: TruthValue)
    requires
        a.wf(),
        b.wf(),
        a.conf > 0 || b.conf > 0,
    ensures
        revision_truth(a, b).freq >= if a.freq <= b.freq {
            a.freq
        } else {
            b.freq
        },
        revision_truth(a, b).freq <= if a.freq <= b.freq {
            b.freq
        } else {
            a.freq
        },
{
    let s = SCALE as int;
    let (f1, f2, c1, c2) = (a.freq as int, b.freq as int, a.conf as int, b.conf as int);
    let w1 = c1 * (s - c2);
    let w2 = c2 * (s - c1);
    let lo = if f1 <= f2 {
        f1
    } else {
        f2
    };
    let hi = if f1 <= f2 {
        f2
    } else {
        f1
    };
    let p = f1 * w1 + f2 * w2;
    assert(w1 >= 0 && w2 >= 0 && w1 + w2 > 0) by (nonlinear_arith)
        requires
            0 <= c1 < s,
            0 <= c2 < s,
            c1 > 0 || c2 > 0,
            w1 == c1 * (s - c2),
            w2 == c2 * (s - c1),
    ;
    assert(lo * (w1 + w2) <= p && p <= hi * (w1 + w2)) by (nonlinear_arith)
        requires
            w1 >= 0,
            w2 >= 0,
            lo <= f1 <= hi,
            lo <= f2 <= hi,
            p == f1 * w1 + f2 * w2,
    ;
    assert(lo * (s * (w1 + w2)) <= p * s && p * s <= hi * (s * (w1 + w2))) by (nonlinear_arith)
        requires
            lo * (w1 + w2) <= p,
            p <= hi * (w1 + w2),
            s > 0,
    ;
    assert(s * (w1 + w2) > 0) by (nonlinear_arith)
        requires
            w1 + w2 > 0,
            s > 0,
    ;
    lemma_round_ge(p * s, s * (w1 + w2), lo);
    lemma_round_le(p * s, s * (w1 + w2), hi);
    assert(revision_truth(a, b).freq == round_div(p * s, s * (w1 + w2)));
}

} // verus!
