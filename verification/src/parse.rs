//! Charge-definition text: lines of whitespace-separated fields.
//!
//! A stationary-charge row is `<x> <y> <q>`; a movable-charge row is
//! `<x> <y> <q> <m> <vx> <vy> <ax> <ay>`. Lines whose first byte is `#` are
//! comments. Numeric fields are decimals with an optional sign, fraction
//! and exponent, read exactly onto the fixed-point grid (truncating toward
//! zero). A malformed or out-of-range row is a load-time error carrying its
//! 1-based line number.

use vstd::prelude::*;
use crate::math::mag;
use crate::cellgrid::StationaryCharge;
use crate::movable_charge::{MovableCharge, mc_ok};
use crate::helpers::XY;
use crate::field::{Q_LIM, POS_LIM, VEL_LIM, ACC_LIM, sc_ok};

verus! {

/// What is wrong with a charge-definition row.
#[derive(Clone, Copy, PartialEq, Eq, Structural, Debug)]
pub enum ParseErrorKind {
    /// The row does not have the expected number of fields.
    WrongFieldCount,
    /// A field is not a decimal of the accepted form, or is out of range.
    BadValue,
    /// The file defines more stationary charges than the grid supports.
    TooManyCharges,
}

/// A load-time error: the 1-based line it arose on (0 for a whole-file
/// error) and what was wrong.
#[derive(Clone, Copy, PartialEq, Eq, Structural, Debug)]
pub struct ParseError {
    pub line: usize,
    pub kind: ParseErrorKind,
}

/// Horizontal whitespace separating fields (a carriage return before a
/// line feed is treated the same way).
pub open spec fn is_space(b: u8) -> bool {
    b == 32 || b == 9 || b == 13
}

/// ASCII digit.
pub open spec fn is_digit(b: u8) -> bool {
    48 <= b <= 57
}

/// Number of bytes before the first line feed (or all of them).
pub open spec fn line_len(s: Seq<u8>) -> nat
    decreases s.len(),
{
    if s.len() == 0 || s[0] == 10 {
        0
    } else {
        1 + line_len(s.drop_first())
    }
}

/// The text split at line feeds, as `str::lines` splits it: the final line
/// needs no trailing line feed, and a trailing line feed adds no line.
pub open spec fn lines_of(s: Seq<u8>) -> Seq<Seq<u8>>
    decreases s.len(),
    via lines_of_decreases
{
    if s.len() == 0 {
        Seq::empty()
    } else {
        let l = line_len(s) as int;
        if l == s.len() {
            seq![s]
        } else {
            seq![s.take(l)] + lines_of(s.skip(l + 1))
        }
    }
}

/// Length of the whitespace-free run starting the sequence.
pub open spec fn token_len(s: Seq<u8>) -> nat
    decreases s.len(),
{
    if s.len() == 0 || is_space(s[0]) {
        0
    } else {
        1 + token_len(s.drop_first())
    }
}

/// The line split into whitespace-separated fields.
pub open spec fn tokens_of(s: Seq<u8>) -> Seq<Seq<u8>>
    decreases s.len(),
    via tokens_of_decreases
{
    if s.len() == 0 {
        Seq::empty()
    } else if is_space(s[0]) {
        tokens_of(s.drop_first())
    } else {
        let l = token_len(s) as int;
        seq![s.take(l)] + tokens_of(s.skip(l))
    }
}

/// The first line is never longer than the text.
pub proof fn lemma_line_len_le(s: Seq<u8>)
    ensures
        line_len(s) <= s.len(),
    decreases s.len(),
{
    if !(s.len() == 0 || s[0] == 10) {
        lemma_line_len_le(s.drop_first());
    }
}

#[via_fn]
proof fn lines_of_decreases(s: Seq<u8>) {
    lemma_line_len_le(s);
}

/// The first field is never longer than the line.
pub proof fn lemma_token_len_le(s: Seq<u8>)
    ensures
        token_len(s) <= s.len(),
    decreases s.len(),
{
    if !(s.len() == 0 || is_space(s[0])) {
        lemma_token_len_le(s.drop_first());
    }
}

#[via_fn]
proof fn tokens_of_decreases(s: Seq<u8>) {
    lemma_token_len_le(s);
}

/// A comment line: its first byte is `#`.
pub open spec fn is_comment(l: Seq<u8>) -> bool {
    l.len() > 0 && l[0] == 35
}

/// A scan that stopped at the first line feed found the line's length.
proof fn lemma_line_len_scan(s: Seq<u8>, j: int)
    requires
        0 <= j <= s.len(),
        forall|m: int| 0 <= m < j ==> s[m] != 10,
        j == s.len() || s[j] == 10,
    ensures
        line_len(s) == j,
    decreases j,
{
    if j > 0 {
        lemma_line_len_scan(s.drop_first(), j - 1);
    }
}

/// A scan that stopped at the first whitespace found the field's length.
proof fn lemma_token_len_scan(s: Seq<u8>, j: int)
    requires
        0 <= j <= s.len(),
        forall|m: int| 0 <= m < j ==> !is_space(s[m]),
        j == s.len() || is_space(s[j]),
    ensures
        token_len(s) == j,
    decreases j,
{
    if j > 0 {
        lemma_token_len_scan(s.drop_first(), j - 1);
    }
}

/// Copy of `s[from..to]` as an owned vector.
fn copy_range(s: &[u8], from: usize, to: usize) -> (r: Vec<u8>)
    requires
        from <= to <= s@.len(),
    ensures
        r@ == s@.subrange(from as int, to as int),
{
    let mut r: Vec<u8> = Vec::new();
    let mut i: usize = from;
    while i < to
        invariant
            from <= i <= to <= s@.len(),
            r@ == s@.subrange(from as int, i as int),
        decreases to - i,
    {
        r.push(s[i]);
        proof {
            assert(r@ =~= s@.subrange(from as int, i as int + 1));
        }
        i = i + 1;
    }
    r
}

/// The line's whitespace-separated fields, in order.
pub fn split_tokens(l: &[u8]) -> (ts: Vec<Vec<u8>>)
    ensures
        ts@.len() == tokens_of(l@).len(),
        forall|i: int| 0 <= i < ts@.len() ==> (#[trigger] ts@[i])@ == tokens_of(l@)[i],
{
    let n = l.len();
    let mut ts: Vec<Vec<u8>> = Vec::new();
    let mut p: usize = 0;
    let ghost full = tokens_of(l@);
    proof {
        assert(l@.skip(0) =~= l@);
    }
    while p < n
        invariant
            0 <= p <= n,
            n == l@.len(),
            full == tokens_of(l@),
            full =~= ts@.map_values(|t: Vec<u8>| t@) + tokens_of(l@.skip(p as int)),
            forall|i: int| 0 <= i < ts@.len() ==> (#[trigger] ts@[i])@ == full[i],
            ts@.len() <= p,
        decreases n - p,
    {
        let b = l[p];
        if b == 32 || b == 9 || b == 13 {
            proof {
                assert(l@.skip(p as int).drop_first() =~= l@.skip(p as int + 1));
            }
            p = p + 1;
        } else {
            let mut e: usize = p + 1;
            while e < n
                invariant
                    p < e <= n,
                    n == l@.len(),
                    forall|m: int| p <= m < e ==> !is_space(l@[m]),
                ensures
                    p < e <= n,
                    forall|m: int| p <= m < e ==> !is_space(l@[m]),
                    e == n || is_space(l@[e as int]),
                decreases n - e,
            {
                let c = l[e];
                if c == 32 || c == 9 || c == 13 {
                    break ;
                }
                e = e + 1;
            }
            proof {
                let rest = l@.skip(p as int);
                assert(forall|m: int| 0 <= m < e - p ==> rest[m] == l@[m + p] && !is_space(rest[m]));
                assert(e - p == rest.len() || is_space(rest[e - p]));
                lemma_token_len_scan(rest, e - p);
                assert(rest.take(e - p) =~= l@.subrange(p as int, e as int));
                assert(rest.skip(e - p) =~= l@.skip(e as int));
            }
            let tok = copy_range(l, p, e);
            ts.push(tok);
            proof {
                assert(ts@.map_values(|t: Vec<u8>| t@) =~= ts@.drop_last().map_values(
                    |t: Vec<u8>| t@,
                ).push(l@.subrange(p as int, e as int)));
            }
            p = e;
        }
    }
    proof {
        assert(tokens_of(l@.skip(n as int)) =~= Seq::<Seq<u8>>::empty());
        assert(full =~= ts@.map_values(|t: Vec<u8>| t@));
    }
    ts
}

/// The text's lines, in order.
pub fn split_lines(s: &[u8]) -> (ls: Vec<Vec<u8>>)
    ensures
        ls@.len() == lines_of(s@).len(),
        forall|i: int| 0 <= i < ls@.len() ==> (#[trigger] ls@[i])@ == lines_of(s@)[i],
{
    let n = s.len();
    let mut ls: Vec<Vec<u8>> = Vec::new();
    let mut p: usize = 0;
    let ghost full = lines_of(s@);
    proof {
        assert(s@.skip(0) =~= s@);
    }
    while p < n
        invariant
            0 <= p <= n,
            n == s@.len(),
            full == lines_of(s@),
            full =~= ls@.map_values(|t: Vec<u8>| t@) + lines_of(s@.skip(p as int)),
            forall|i: int| 0 <= i < ls@.len() ==> (#[trigger] ls@[i])@ == full[i],
        decreases n - p,
    {
        let mut e: usize = p;
        while e < n
            invariant
                p <= e <= n,
                n == s@.len(),
                forall|m: int| p <= m < e ==> s@[m] != 10,
            ensures
                p <= e <= n,
                forall|m: int| p <= m < e ==> s@[m] != 10,
                e == n || s@[e as int] == 10,
            decreases n - e,
        {
            if s[e] == 10 {
                break ;
            }
            e = e + 1;
        }
        proof {
            let rest = s@.skip(p as int);
            assert(forall|m: int| 0 <= m < e - p ==> rest[m] == s@[m + p] && rest[m] != 10);
            assert(e - p == rest.len() || rest[e - p] == 10);
            lemma_line_len_scan(rest, e - p);
            assert(rest.take(e - p) =~= s@.subrange(p as int, e as int));
            if e < n {
                assert(rest.skip(e - p + 1) =~= s@.skip(e as int + 1));
            } else {
                assert(rest.take(e - p) =~= rest);
            }
        }
        let line = copy_range(s, p, e);
        ls.push(line);
        proof {
            assert(ls@.map_values(|t: Vec<u8>| t@) =~= ls@.drop_last().map_values(
                |t: Vec<u8>| t@,
            ).push(s@.subrange(p as int, e as int)));
        }
        if e < n {
            p = e + 1;
        } else {
            p = n;
        }
    }
    proof {
        assert(lines_of(s@.skip(n as int)) =~= Seq::<Seq<u8>>::empty());
        assert(full =~= ls@.map_values(|t: Vec<u8>| t@));
    }
    ls
}


/// Every byte is an ASCII digit.
pub open spec fn all_digits(s: Seq<u8>) -> bool {
    forall|i: int| 0 <= i < s.len() ==> is_digit(#[trigger] s[i])
}

/// The number written by a digit string, most significant digit first.
pub open spec fn digits_value(s: Seq<u8>) -> int
    decreases s.len(),
{
    if s.len() == 0 {
        0
    } else {
        digits_value(s.drop_last()) * 10 + (s.last() - 48)
    }
}

/// Ten to the `n`.
pub open spec fn p10(n: nat) -> int
    decreases n,
{
    if n == 0 {
        1
    } else {
        10 * p10((n - 1) as nat)
    }
}

pub proof fn lemma_p10_pos(n: nat)
    ensures
        p10(n) >= 1,
    decreases n,
{
    if n > 0 {
        lemma_p10_pos((n - 1) as nat);
    }
}

pub proof fn lemma_p10_mono(a: nat, b: nat)
    requires
        a <= b,
    ensures
        p10(a) <= p10(b),
    decreases b,
{
    if a < b {
        lemma_p10_mono(a, (b - 1) as nat);
        lemma_p10_pos((b - 1) as nat);
    }
}

/// A string of `n` digits writes a value below ten to the `n`.
pub proof fn lemma_digits_bound(s: Seq<u8>)
    requires
        all_digits(s),
    ensures
        0 <= digits_value(s) < p10(s.len()),
    decreases s.len(),
{
    if s.len() > 0 {
        assert(all_digits(s.drop_last()));
        assert(is_digit(s[s.len() - 1]));
        lemma_digits_bound(s.drop_last());
        lemma_p10_pos((s.len() - 1) as nat);
    }
}

/// A scan that stopped at the first non-digit found the digit run's length.
proof fn lemma_digit_run_scan(s: Seq<u8>, from: int, j: int)
    requires
        0 <= from <= j <= s.len(),
        forall|m: int| from <= m < j ==> is_digit(s[m]),
        j == s.len() || !is_digit(s[j]),
    ensures
        digit_run(s, from) == j - from,
    decreases j - from,
{
    if j > from {
        lemma_digit_run_scan(s, from + 1, j);
    }
}

/// Length of the digit run starting at `from`.
pub open spec fn digit_run(s: Seq<u8>, from: int) -> int
    decreases s.len() - from,
{
    if from < 0 || from >= s.len() || !is_digit(s[from]) {
        0
    } else {
        1 + digit_run(s, from + 1)
    }
}

/// A field of at most 18 digits, read as an unsigned integer.
pub open spec fn wf_uint(t: Seq<u8>) -> bool {
    1 <= t.len() <= 18 && all_digits(t)
}

/// Ten to the `n`, executable.
pub(crate) fn pow10_u64(n: usize) -> (r: u64)
    requires
        n <= 19,
    ensures
        r == p10(n as nat),
{
    proof {
        reveal_with_fuel(p10, 21);
    }
    let mut acc: u64 = 1;
    let mut i: usize = 0;
    while i < n
        invariant
            0 <= i <= n <= 19,
            acc == p10(i as nat),
        decreases n - i,
    {
        proof {
            lemma_p10_mono(i as nat, 18nat);
            reveal_with_fuel(p10, 21);
        }
        acc = acc * 10;
        i = i + 1;
    }
    acc
}

/// Digits of `t[from..to]` appended to an accumulator that already holds
/// the digits `pre`.
fn digits_acc(t: &[u8], from: usize, to: usize, acc0: u64, Ghost(pre): Ghost<Seq<u8>>) -> (r: u64)
    requires
        from <= to <= t@.len(),
        all_digits(t@.subrange(from as int, to as int)),
        all_digits(pre),
        acc0 == digits_value(pre),
        pre.len() + (to - from) <= 18,
    ensures
        r == digits_value(pre + t@.subrange(from as int, to as int)),
{
    let mut acc: u64 = acc0;
    let mut i: usize = from;
    proof {
        assert(pre + t@.subrange(from as int, from as int) =~= pre);
    }
    while i < to
        invariant
            from <= i <= to <= t@.len(),
            all_digits(t@.subrange(from as int, to as int)),
            all_digits(pre),
            pre.len() + (to - from) <= 18,
            acc == digits_value(pre + t@.subrange(from as int, i as int)),
        decreases to - i,
    {
        let ghost cur = pre + t@.subrange(from as int, i as int);
        proof {
            assert(forall|m: int|
                0 <= m < i - from ==> is_digit(#[trigger] t@.subrange(from as int, to as int)[m]));
            assert(all_digits(cur));
            lemma_digits_bound(cur);
            lemma_p10_mono(cur.len(), 17nat);
            reveal_with_fuel(p10, 21);
            assert(is_digit(t@.subrange(from as int, to as int)[i - from]));
            assert(t@[i as int] == t@.subrange(from as int, to as int)[i - from]);
        }
        let d = t[i];
        acc = acc * 10 + (d - 48) as u64;
        proof {
            let nxt = pre + t@.subrange(from as int, i as int + 1);
            assert(nxt.drop_last() =~= cur);
            assert(nxt.last() == t@[i as int]);
        }
        i = i + 1;
    }
    acc
}

/// The digits of `t[from..to]` as a number (at most 18 digits).
fn parse_digits(t: &[u8], from: usize, to: usize) -> (r: u64)
    requires
        from <= to <= t@.len(),
        all_digits(t@.subrange(from as int, to as int)),
        to - from <= 18,
    ensures
        r == digits_value(t@.subrange(from as int, to as int)),
{
    let r = digits_acc(t, from, to, 0, Ghost(Seq::empty()));
    proof {
        assert(Seq::empty() + t@.subrange(from as int, to as int) =~= t@.subrange(
            from as int,
            to as int,
        ));
    }
    r
}

/// A field of at most 18 digits, read as an unsigned integer; `None` when
/// it is not such a field.
pub fn parse_uint(t: &[u8]) -> (r: Option<u64>)
    ensures
        match r {
            Some(v) => wf_uint(t@) && v == digits_value(t@),
            None => !wf_uint(t@),
        },
{
    let n = t.len();
    if n < 1 || n > 18 {
        return None;
    }
    let mut i: usize = 0;
    while i < n
        invariant
            0 <= i <= n,
            n == t@.len(),
            forall|m: int| 0 <= m < i ==> is_digit(#[trigger] t@[m]),
        decreases n - i,
    {
        let b = t[i];
        if b < 48 || b > 57 {
            return None;
        }
        i = i + 1;
    }
    proof {
        assert(t@.subrange(0, n as int) =~= t@);
    }
    Some(parse_digits(t, 0, n))
}


/// Sign length of a decimal field: one leading `+` or `-`, or nothing.
pub open spec fn dec_sl(t: Seq<u8>) -> int {
    if t.len() > 0 && (t[0] == 43 || t[0] == 45) {
        1
    } else {
        0
    }
}

/// Length of the integer-part digit run.
pub open spec fn dec_il(t: Seq<u8>) -> int {
    digit_run(t, dec_sl(t))
}

/// Position just after the integer part.
pub open spec fn dec_p(t: Seq<u8>) -> int {
    dec_sl(t) + dec_il(t)
}

/// Whether a decimal point follows the integer part.
pub open spec fn dec_has_dot(t: Seq<u8>) -> bool {
    dec_p(t) < t.len() && t[dec_p(t)] == 46
}

/// Length of the fraction digit run.
pub open spec fn dec_fl(t: Seq<u8>) -> int {
    if dec_has_dot(t) {
        digit_run(t, dec_p(t) + 1)
    } else {
        0
    }
}

/// Position just after the mantissa.
pub open spec fn dec_p2(t: Seq<u8>) -> int {
    if dec_has_dot(t) {
        dec_p(t) + 1 + dec_fl(t)
    } else {
        dec_p(t)
    }
}

/// Whether an exponent marker follows the mantissa.
pub open spec fn dec_has_exp(t: Seq<u8>) -> bool {
    dec_p2(t) < t.len() && (t[dec_p2(t)] == 101 || t[dec_p2(t)] == 69)
}

/// Sign length of the exponent.
pub open spec fn dec_esl(t: Seq<u8>) -> int {
    if dec_has_exp(t) && dec_p2(t) + 1 < t.len() && (t[dec_p2(t) + 1] == 43 || t[dec_p2(t) + 1]
        == 45) {
        1
    } else {
        0
    }
}

/// Length of the exponent digit run.
pub open spec fn dec_el(t: Seq<u8>) -> int {
    if dec_has_exp(t) {
        digit_run(t, dec_p2(t) + 1 + dec_esl(t))
    } else {
        0
    }
}

/// Position just after the whole field.
pub open spec fn dec_end(t: Seq<u8>) -> int {
    if dec_has_exp(t) {
        dec_p2(t) + 1 + dec_esl(t) + dec_el(t)
    } else {
        dec_p2(t)
    }
}

/// The signed exponent value.
pub open spec fn dec_exp(t: Seq<u8>) -> int {
    if dec_has_exp(t) {
        let ev = digits_value(t.subrange(dec_p2(t) + 1 + dec_esl(t), dec_end(t)));
        if dec_esl(t) == 1 && t[dec_p2(t) + 1] == 45 {
            -ev
        } else {
            ev
        }
    } else {
        0
    }
}

/// Grammar of a decimal field: an optional sign, an integer part, an
/// optional fraction, an optional exponent of at most two digits, with at
/// most 18 mantissa digits in all and at least one of them present.
pub open spec fn wf_decimal(t: Seq<u8>) -> bool {
    &&& dec_il(t) + dec_fl(t) >= 1
    &&& dec_il(t) + dec_fl(t) <= 18
    &&& (dec_has_exp(t) ==> 1 <= dec_el(t) <= 2)
    &&& dec_end(t) == t.len()
}

/// The mantissa digits of a decimal field: integer part then fraction.
pub open spec fn mantissa_digits(t: Seq<u8>) -> Seq<u8> {
    if dec_has_dot(t) {
        t.subrange(dec_sl(t), dec_p(t)) + t.subrange(dec_p(t) + 1, dec_p2(t))
    } else {
        t.subrange(dec_sl(t), dec_p(t))
    }
}

/// The decimal shift of a decimal field when read onto the fixed-point
/// grid: its exponent, minus its fraction length, plus six (the grid's own
/// scale of ten to the sixth).
pub open spec fn decimal_shift(t: Seq<u8>) -> int {
    dec_exp(t) - dec_fl(t) + 6
}

/// A nonnegative number shifted by a power of ten, truncating toward zero.
pub open spec fn shift10(m: int, e: int) -> int {
    if e >= 0 {
        m * p10(e as nat)
    } else {
        m / p10((-e) as nat)
    }
}

/// The exact value of a decimal field on the fixed-point grid: its
/// mantissa, decimally shifted, truncated toward zero, with its sign.
pub open spec fn decimal_value_scaled(t: Seq<u8>) -> int {
    let m = shift10(digits_value(mantissa_digits(t)), decimal_shift(t));
    if t.len() > 0 && t[0] == 45 {
        -m
    } else {
        m
    }
}

/// Scan a digit run, returning its end.
fn scan_digits(t: &[u8], from: usize) -> (e: usize)
    requires
        from <= t@.len(),
    ensures
        from <= e <= t@.len(),
        digit_run(t@, from as int) == e - from,
        all_digits(t@.subrange(from as int, e as int)),
    decreases t@.len() - from,
{
    let n = t.len();
    let mut e: usize = from;
    while e < n
        invariant
            from <= e <= n,
            n == t@.len(),
            forall|m: int| from <= m < e ==> is_digit(#[trigger] t@[m]),
        ensures
            from <= e <= n,
            forall|m: int| from <= m < e ==> is_digit(#[trigger] t@[m]),
            e == n || !is_digit(t@[e as int]),
        decreases n - e,
    {
        let b = t[e];
        if b < 48 || b > 57 {
            break ;
        }
        e = e + 1;
    }
    proof {
        lemma_digit_run_scan(t@, from as int, e as int);
    }
    e
}

/// The scanned layout of a well-formed decimal field.
struct DecScan {
    sl: usize,
    int_end: usize,
    has_dot: bool,
    frac_end: usize,
    exp_val: u64,
    exp_neg: bool,
}

/// Scan a decimal field's layout; `None` when it is malformed.
#[verifier::rlimit(100)]
fn scan_decimal(t: &[u8]) -> (r: Option<DecScan>)
    ensures
        match r {
            Some(d) => {
                &&& wf_decimal(t@)
                &&& d.sl == dec_sl(t@)
                &&& d.int_end == dec_p(t@)
                &&& d.has_dot == dec_has_dot(t@)
                &&& (d.has_dot ==> d.frac_end == dec_p2(t@))
                &&& d.sl <= d.int_end <= t@.len()
                &&& (d.has_dot ==> d.int_end + 1 <= d.frac_end <= t@.len())
                &&& all_digits(t@.subrange(d.sl as int, d.int_end as int))
                &&& (d.has_dot ==> all_digits(t@.subrange(d.int_end as int + 1, d.frac_end as int)))
                &&& dec_exp(t@) == if d.exp_neg {
                    -(d.exp_val as int)
                } else {
                    d.exp_val as int
                }
                &&& d.exp_val <= 99
            },
            None => !wf_decimal(t@),
        },
{
    let n = t.len();
    let sl: usize = if n > 0 && (t[0] == 43 || t[0] == 45) {
        1
    } else {
        0
    };
    let e1 = scan_digits(t, sl);
    let il = e1 - sl;
    let has_dot = e1 < n && t[e1] == 46;
    let mut fl: usize = 0;
    let mut frac_end: usize = e1;
    if has_dot {
        frac_end = scan_digits(t, e1 + 1);
        fl = frac_end - (e1 + 1);
    }
    let p2: usize = if has_dot {
        frac_end
    } else {
        e1
    };
    let has_exp = p2 < n && (t[p2] == 101 || t[p2] == 69);
    proof {
        assert(sl == dec_sl(t@));
        assert(il == dec_il(t@));
        assert(e1 == dec_p(t@));
        assert(has_dot == dec_has_dot(t@));
        assert(fl == dec_fl(t@));
        assert(p2 == dec_p2(t@));
        assert(has_exp == dec_has_exp(t@));
    }
    if il + fl < 1 || il + fl > 18 {
        return None;
    }
    let mut ev: u64 = 0;
    let mut eneg = false;
    if has_exp {
        let esl: usize = if p2 + 1 < n && (t[p2 + 1] == 43 || t[p2 + 1] == 45) {
            1
        } else {
            0
        };
        eneg = p2 + 1 < n && t[p2 + 1] == 45;
        proof {
            assert(esl == dec_esl(t@));
        }
        let e3 = scan_digits(t, p2 + 1 + esl);
        let el = e3 - (p2 + 1 + esl);
        proof {
            assert(el == dec_el(t@));
            assert(e3 == dec_end(t@));
        }
        if el < 1 || el > 2 {
            return None;
        }
        if e3 != n {
            return None;
        }
        proof {
            lemma_digits_bound(t@.subrange(p2 as int + 1 + esl as int, e3 as int));
            reveal_with_fuel(p10, 3);
        }
        ev = parse_digits(t, p2 + 1 + esl, e3);
        proof {
            assert(dec_exp(t@) == if eneg {
                -(ev as int)
            } else {
                ev as int
            });
        }
    } else {
        if p2 != n {
            return None;
        }
        proof {
            assert(dec_end(t@) == p2 && dec_exp(t@) == 0);
        }
    }
    Some(DecScan { sl, int_end: e1, has_dot, frac_end, exp_val: ev, exp_neg: eneg })
}

/// A decimal field read exactly onto the fixed-point grid, truncating
/// toward zero; `None` when the field is malformed or its value does not
/// fit an `i64`.
#[verifier::rlimit(100)]
pub fn parse_scaled(t: &[u8]) -> (r: Option<i64>)
    ensures
        match r {
            Some(v) => wf_decimal(t@) && crate::math::mag(decimal_value_scaled(t@)) <= i64::MAX
                && v == decimal_value_scaled(t@),
            None => !wf_decimal(t@) || crate::math::mag(decimal_value_scaled(t@)) > i64::MAX,
        },
{
    let n = t.len();
    let d = match scan_decimal(t) {
        None => {
            return None;
        },
        Some(d) => d,
    };
    let neg = n > 0 && t[0] == 45;
    let sl = d.sl;
    let e1 = d.int_end;
    let fl: usize = if d.has_dot {
        d.frac_end - (e1 + 1)
    } else {
        0
    };
    proof {
        assert(fl == dec_fl(t@));
    }
    let mant: u64 = if d.has_dot {
        let mi = parse_digits(t, sl, e1);
        digits_acc(t, e1 + 1, d.frac_end, mi, Ghost(t@.subrange(sl as int, e1 as int)))
    } else {
        parse_digits(t, sl, e1)
    };
    proof {
        assert(mant == digits_value(mantissa_digits(t@)));
        lemma_digits_bound(mantissa_digits(t@));
        lemma_p10_mono(mantissa_digits(t@).len(), 18nat);
        reveal_with_fuel(p10, 21);
        assert(mant < 1_000_000_000_000_000_000u64);
    }
    let shift: i64 = (if d.exp_neg {
        -(d.exp_val as i64)
    } else {
        d.exp_val as i64
    }) - fl as i64 + 6;
    proof {
        assert(shift == decimal_shift(t@));
    }
    if mant == 0 {
        proof {
            if shift >= 0 {
                assert(0 * p10(shift as nat) == 0);
            } else {
                lemma_p10_pos((-(shift as int)) as nat);
                vstd::arithmetic::div_mod::lemma_div_of0(p10((-(shift as int)) as nat));
            }
        }
        return Some(0);
    }
    if shift >= 0 {
        if shift > 18 {
            proof {
                lemma_p10_mono(19nat, shift as nat);
                reveal_with_fuel(p10, 21);
                assert(mant * p10(shift as nat) >= p10(shift as nat)) by (nonlinear_arith)
                    requires
                        mant >= 1,
                        p10(shift as nat) >= 1,
                ;
            }
            return None;
        }
        let p = pow10_u64(shift as usize);
        proof {
            lemma_p10_mono(shift as nat, 18nat);
            lemma_p10_pos(shift as nat);
            reveal_with_fuel(p10, 21);
            vstd::arithmetic::mul::lemma_mul_upper_bound(
                mant as int,
                1_000_000_000_000_000_000,
                p as int,
                1_000_000_000_000_000_000,
            );
        }
        let prod: u128 = (mant as u128) * (p as u128);
        if prod > i64::MAX as u128 {
            return None;
        }
        if neg {
            Some(-(prod as i64))
        } else {
            Some(prod as i64)
        }
    } else {
        let neg_shift: u64 = (-(shift as i128)) as u64;
        proof {
            assert(neg_shift == -(shift as int));
        }
        if neg_shift > 18 {
            proof {
                lemma_p10_mono(19nat, neg_shift as nat);
                reveal_with_fuel(p10, 21);
                vstd::arithmetic::div_mod::lemma_basic_div(mant as int, p10(neg_shift as nat));
            }
            return Some(0);
        }
        let p = pow10_u64(neg_shift as usize);
        proof {
            lemma_p10_pos(neg_shift as nat);
        }
        let q = mant / p;
        proof {
            vstd::arithmetic::div_mod::lemma_div_nonincreasing(mant as int, p as int);
            vstd::arithmetic::div_mod::lemma_div_pos_is_pos(mant as int, p as int);
        }
        if neg {
            Some(-(q as i64))
        } else {
            Some(q as i64)
        }
    }
}


/// A well-formed stationary-charge row for a `w` by `h` grid:
/// `<x> <y> <q>` with the coordinates on the grid and the charge in range.
pub open spec fn stationary_line_ok(l: Seq<u8>, w: int, h: int) -> bool {
    let ts = tokens_of(l);
    &&& ts.len() == 3
    &&& wf_uint(ts[0])
    &&& digits_value(ts[0]) < w
    &&& wf_uint(ts[1])
    &&& digits_value(ts[1]) < h
    &&& wf_decimal(ts[2])
    &&& mag(decimal_value_scaled(ts[2])) <= Q_LIM
}

/// The charge a well-formed stationary row defines.
pub open spec fn stationary_of_line(l: Seq<u8>) -> StationaryCharge {
    let ts = tokens_of(l);
    StationaryCharge {
        x: digits_value(ts[0]) as usize,
        y: digits_value(ts[1]) as usize,
        q: decimal_value_scaled(ts[2]) as i64,
    }
}

/// The charges defined by the non-comment lines, in order.
pub open spec fn stationary_values(lines: Seq<Seq<u8>>) -> Seq<StationaryCharge>
    decreases lines.len(),
{
    if lines.len() == 0 {
        Seq::empty()
    } else {
        let prev = stationary_values(lines.drop_last());
        if is_comment(lines.last()) {
            prev
        } else {
            prev.push(stationary_of_line(lines.last()))
        }
    }
}

/// The error kind a bad stationary row reports.
pub open spec fn stationary_line_error(l: Seq<u8>) -> ParseErrorKind {
    if tokens_of(l).len() != 3 {
        ParseErrorKind::WrongFieldCount
    } else {
        ParseErrorKind::BadValue
    }
}

/// A decimal field within `[-lim, lim]`; `None` when malformed or outside.
fn parse_field(t: &[u8], lim: i64) -> (r: Option<i64>)
    requires
        0 <= lim,
    ensures
        match r {
            Some(v) => wf_decimal(t@) && v == decimal_value_scaled(t@) && mag(v as int) <= lim,
            None => !wf_decimal(t@) || mag(decimal_value_scaled(t@)) > lim,
        },
{
    match parse_scaled(t) {
        None => None,
        Some(v) => {
            if v > lim || v < -lim {
                None
            } else {
                Some(v)
            }
        },
    }
}

/// Read the stationary charges of a `w` by `h` grid from the text of a
/// charge-definition file: one `<x> <y> <q>` row per charge, comment rows
/// (first byte `#`) ignored. The first malformed or out-of-range row is
/// reported with its 1-based line number.
pub fn parse_stationary_charges(text: &[u8], w: usize, h: usize) -> (r: Result<
    Vec<StationaryCharge>,
    ParseError,
>)
    requires
        w <= crate::field::GRID_LIM,
        h <= crate::field::GRID_LIM,
    ensures
        match r {
            Ok(cs) => {
                &&& forall|j: int|
                    0 <= j < lines_of(text@).len() ==> is_comment(#[trigger] lines_of(text@)[j])
                        || stationary_line_ok(lines_of(text@)[j], w as int, h as int)
                &&& cs@ == stationary_values(lines_of(text@))
                &&& forall|i: int|
                    0 <= i < cs@.len() ==> sc_ok(#[trigger] cs@[i]) && cs@[i].x < w && cs@[i].y < h
            },
            Err(e) => {
                &&& 1 <= e.line <= lines_of(text@).len()
                &&& !is_comment(lines_of(text@)[e.line - 1])
                &&& !stationary_line_ok(lines_of(text@)[e.line - 1], w as int, h as int)
                &&& forall|j: int|
                    0 <= j < e.line - 1 ==> is_comment(#[trigger] lines_of(text@)[j])
                        || stationary_line_ok(lines_of(text@)[j], w as int, h as int)
                &&& e.kind == stationary_line_error(lines_of(text@)[e.line - 1])
            },
        },
{
    let ghost all = lines_of(text@);
    let lines = split_lines(text);
    let n = lines.len();
    let mut out: Vec<StationaryCharge> = Vec::new();
    let mut i: usize = 0;
    while i < n
        invariant
            0 <= i <= n,
            n == all.len(),
            all == lines_of(text@),
            lines@.len() == n,
            forall|j: int| 0 <= j < n ==> (#[trigger] lines@[j])@ == all[j],
            w <= crate::field::GRID_LIM,
            h <= crate::field::GRID_LIM,
            forall|j: int|
                0 <= j < i ==> is_comment(#[trigger] all[j]) || stationary_line_ok(
                    all[j],
                    w as int,
                    h as int,
                ),
            out@ == stationary_values(all.take(i as int)),
            forall|k: int|
                0 <= k < out@.len() ==> sc_ok(#[trigger] out@[k]) && out@[k].x < w && out@[k].y < h,
        decreases n - i,
    {
        let line = &lines[i];
        proof {
            assert(all.take(i as int + 1).drop_last() =~= all.take(i as int));
            assert(all.take(i as int + 1).last() == all[i as int]);
        }
        if line.len() > 0 && line[0] == 35 {
            i = i + 1;
            continue ;
        }
        let ts = split_tokens(line.as_slice());
        if ts.len() != 3 {
            return Err(ParseError { line: i + 1, kind: ParseErrorKind::WrongFieldCount });
        }
        let x = match parse_uint(ts[0].as_slice()) {
            None => {
                return Err(ParseError { line: i + 1, kind: ParseErrorKind::BadValue });
            },
            Some(x) => x,
        };
        if x >= w as u64 {
            return Err(ParseError { line: i + 1, kind: ParseErrorKind::BadValue });
        }
        let y = match parse_uint(ts[1].as_slice()) {
            None => {
                return Err(ParseError { line: i + 1, kind: ParseErrorKind::BadValue });
            },
            Some(y) => y,
        };
        if y >= h as u64 {
            return Err(ParseError { line: i + 1, kind: ParseErrorKind::BadValue });
        }
        let q = match parse_field(ts[2].as_slice(), Q_LIM) {
            None => {
                return Err(ParseError { line: i + 1, kind: ParseErrorKind::BadValue });
            },
            Some(q) => q,
        };
        out.push(StationaryCharge { x: x as usize, y: y as usize, q });
        i = i + 1;
    }
    proof {
        assert(all.take(n as int) =~= all);
    }
    Ok(out)
}


/// A well-formed movable-charge row:
/// `<x> <y> <q> <m> <vx> <vy> <ax> <ay>`, each field a decimal, with the
/// state in the representable range and a strictly positive mass.
pub open spec fn movable_line_ok(l: Seq<u8>) -> bool {
    let ts = tokens_of(l);
    &&& ts.len() == 8
    &&& wf_decimal(ts[0])
    &&& mag(decimal_value_scaled(ts[0])) <= POS_LIM
    &&& wf_decimal(ts[1])
    &&& mag(decimal_value_scaled(ts[1])) <= POS_LIM
    &&& wf_decimal(ts[2])
    &&& mag(decimal_value_scaled(ts[2])) <= Q_LIM
    &&& wf_decimal(ts[3])
    &&& 1 <= decimal_value_scaled(ts[3]) <= i64::MAX
    &&& wf_decimal(ts[4])
    &&& mag(decimal_value_scaled(ts[4])) <= VEL_LIM
    &&& wf_decimal(ts[5])
    &&& mag(decimal_value_scaled(ts[5])) <= VEL_LIM
    &&& wf_decimal(ts[6])
    &&& mag(decimal_value_scaled(ts[6])) <= ACC_LIM
    &&& wf_decimal(ts[7])
    &&& mag(decimal_value_scaled(ts[7])) <= ACC_LIM
}

/// The charge a well-formed movable row defines: not yet collided, free to
/// move.
pub open spec fn movable_of_line(l: Seq<u8>) -> MovableCharge {
    let ts = tokens_of(l);
    MovableCharge {
        should_move: true,
        collided: false,
        x: decimal_value_scaled(ts[0]) as i64,
        y: decimal_value_scaled(ts[1]) as i64,
        q: decimal_value_scaled(ts[2]) as i64,
        m: decimal_value_scaled(ts[3]) as i64,
        v: XY { x: decimal_value_scaled(ts[4]) as i64, y: decimal_value_scaled(ts[5]) as i64 },
        a: XY { x: decimal_value_scaled(ts[6]) as i64, y: decimal_value_scaled(ts[7]) as i64 },
    }
}

/// The movable charges defined by the non-comment lines, in order.
pub open spec fn movable_values(lines: Seq<Seq<u8>>) -> Seq<MovableCharge>
    decreases lines.len(),
{
    if lines.len() == 0 {
        Seq::empty()
    } else {
        let prev = movable_values(lines.drop_last());
        if is_comment(lines.last()) {
            prev
        } else {
            prev.push(movable_of_line(lines.last()))
        }
    }
}

/// The error kind a bad movable row reports.
pub open spec fn movable_line_error(l: Seq<u8>) -> ParseErrorKind {
    if tokens_of(l).len() != 8 {
        ParseErrorKind::WrongFieldCount
    } else {
        ParseErrorKind::BadValue
    }
}

/// Read movable charges from the text of a charge-definition file: one
/// `<x> <y> <q> <m> <vx> <vy> <ax> <ay>` row per charge, comment rows
/// (first byte `#`) ignored. A zero (or negative, or unrepresentable) mass
/// is a load-time error, as is any other malformed or out-of-range row; the
/// first one is reported with its 1-based line number.
pub fn parse_movable_charges(text: &[u8]) -> (r: Result<Vec<MovableCharge>, ParseError>)
    ensures
        match r {
            Ok(ms) => {
                &&& forall|j: int|
                    0 <= j < lines_of(text@).len() ==> is_comment(#[trigger] lines_of(text@)[j])
                        || movable_line_ok(lines_of(text@)[j])
                &&& ms@ == movable_values(lines_of(text@))
                &&& forall|i: int| 0 <= i < ms@.len() ==> mc_ok(#[trigger] ms@[i])
            },
            Err(e) => {
                &&& 1 <= e.line <= lines_of(text@).len()
                &&& !is_comment(lines_of(text@)[e.line - 1])
                &&& !movable_line_ok(lines_of(text@)[e.line - 1])
                &&& forall|j: int|
                    0 <= j < e.line - 1 ==> is_comment(#[trigger] lines_of(text@)[j])
                        || movable_line_ok(lines_of(text@)[j])
                &&& e.kind == movable_line_error(lines_of(text@)[e.line - 1])
            },
        },
{
    let ghost all = lines_of(text@);
    let lines = split_lines(text);
    let n = lines.len();
    let mut out: Vec<MovableCharge> = Vec::new();
    let mut i: usize = 0;
    while i < n
        invariant
            0 <= i <= n,
            n == all.len(),
            all == lines_of(text@),
            lines@.len() == n,
            forall|j: int| 0 <= j < n ==> (#[trigger] lines@[j])@ == all[j],
            forall|j: int| 0 <= j < i ==> is_comment(#[trigger] all[j]) || movable_line_ok(all[j]),
            out@ == movable_values(all.take(i as int)),
            forall|k: int| 0 <= k < out@.len() ==> mc_ok(#[trigger] out@[k]),
        decreases n - i,
    {
        let line = &lines[i];
        proof {
            assert(all.take(i as int + 1).drop_last() =~= all.take(i as int));
            assert(all.take(i as int + 1).last() == all[i as int]);
        }
        if line.len() > 0 && line[0] == 35 {
            i = i + 1;
            continue ;
        }
        let ts = split_tokens(line.as_slice());
        if ts.len() != 8 {
            return Err(ParseError { line: i + 1, kind: ParseErrorKind::WrongFieldCount });
        }
        let bad = ParseError { line: i + 1, kind: ParseErrorKind::BadValue };
        let x = match parse_field(ts[0].as_slice(), POS_LIM) {
            None => {
                return Err(bad);
            },
            Some(v) => v,
        };
        let y = match parse_field(ts[1].as_slice(), POS_LIM) {
            None => {
                return Err(bad);
            },
            Some(v) => v,
        };
        let q = match parse_field(ts[2].as_slice(), Q_LIM) {
            None => {
                return Err(bad);
            },
            Some(v) => v,
        };
        let m = match parse_scaled(ts[3].as_slice()) {
            None => {
                return Err(bad);
            },
            Some(v) => v,
        };
        if m < 1 {
            return Err(bad);
        }
        let vx = match parse_field(ts[4].as_slice(), VEL_LIM) {
            None => {
                return Err(bad);
            },
            Some(v) => v,
        };
        let vy = match parse_field(ts[5].as_slice(), VEL_LIM) {
            None => {
                return Err(bad);
            },
            Some(v) => v,
        };
        let ax = match parse_field(ts[6].as_slice(), ACC_LIM) {
            None => {
                return Err(bad);
            },
            Some(v) => v,
        };
        let ay = match parse_field(ts[7].as_slice(), ACC_LIM) {
            None => {
                return Err(bad);
            },
            Some(v) => v,
        };
        out.push(
            MovableCharge {
                should_move: true,
                collided: false,
                x,
                y,
                q,
                m,
                v: XY { x: vx, y: vy },
                a: XY { x: ax, y: ay },
            },
        );
        i = i + 1;
    }
    proof {
        assert(all.take(n as int) =~= all);
    }
    Ok(out)
}

} // verus!
