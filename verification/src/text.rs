//! Character-level text primitives shared by the envelope codec: conversion
//! between `String` and `Vec<char>`, escaping of delimiter characters, and a
//! decimal integer codec.  Every operation is paired with a specification
//! function, and the inversions needed for round-trip proofs are provided as
//! lemmas.

use vstd::prelude::*;
use vstd::string::StrSliceExecFns;

verus! {

// ---------------------------------------------------------------------------
// String <-> Vec<char>
// ---------------------------------------------------------------------------

/// Relies on std's `String::push`: appends exactly the given character.
#[verifier::external_body]
pub(crate) fn push_char(s: &mut String, c: char)
    ensures
        final(s)@ == old(s)@.push(c),
{
    s.push(c);
}

/// Collects the characters of a string slice into a vector.
pub fn str_to_chars(s: &str) -> (r: Vec<char>)
    ensures
        r@ == s@,
{
    let n = s.unicode_len();
    let mut r: Vec<char> = Vec::new();
    let mut i: usize = 0;
    while i < n
        invariant
            n == s@.len(),
            i <= n,
            r@ == s@.take(i as int),
        decreases n - i,
    {
        r.push(s.get_char(i));
        proof {
            assert(s@.take(i as int).push(s@[i as int]) =~= s@.take(i + 1));
        }
        i = i + 1;
    }
    proof {
        assert(s@.take(n as int) =~= s@);
    }
    r
}

/// Builds a `String` whose characters are exactly the given vector.
pub fn chars_to_string(v: &Vec<char>) -> (r: String)
    ensures
        r@ == v@,
{
    let mut r: String = String::new();
    let mut i: usize = 0;
    while i < v.len()
        invariant
            i <= v.len(),
            r@ == v@.take(i as int),
        decreases v.len() - i,
    {
        push_char(&mut r, v[i]);
        proof {
            assert(v@.take(i as int).push(v@[i as int]) =~= v@.take(i + 1));
        }
        i = i + 1;
    }
    proof {
        assert(v@.take(v@.len() as int) =~= v@);
    }
    r
}

/// Appends the characters of a string slice to a character vector.
pub fn push_str_chars(out: &mut Vec<char>, s: &str)
    ensures
        final(out)@ == old(out)@ + s@,
{
    let n = s.unicode_len();
    let mut i: usize = 0;
    while i < n
        invariant
            n == s@.len(),
            i <= n,
            out@ == old(out)@ + s@.take(i as int),
        decreases n - i,
    {
        out.push(s.get_char(i));
        proof {
            assert(s@.take(i as int).push(s@[i as int]) =~= s@.take(i + 1));
        }
        i = i + 1;
    }
    proof {
        assert(s@.take(n as int) =~= s@);
    }
}

// ---------------------------------------------------------------------------
// Escaping
// ---------------------------------------------------------------------------

/// True for the two characters that must be escaped inside a quoted text
/// field: the quote that delimits the field and the backslash that starts an
/// escape.
pub open spec fn needs_escape(c: char) -> bool {
    c == '"' || c == '\\'
}

/// The escaped form of one character.
pub open spec fn escape_char(c: char) -> Seq<char> {
    if needs_escape(c) {
        seq!['\\', c]
    } else {
        seq![c]
    }
}

/// The escaped form of a text: quotes and backslashes get a leading
/// backslash, every other character is kept as it is.
pub open spec fn escape(s: Seq<char>) -> Seq<char>
    decreases s.len(),
{
    if s.len() == 0 {
        Seq::empty()
    } else {
        escape_char(s[0]) + escape(s.skip(1))
    }
}

pub proof fn lemma_escape_add(a: Seq<char>, b: Seq<char>)
    ensures
        escape(a + b) == escape(a) + escape(b),
    decreases a.len(),
{
    if a.len() == 0 {
        assert(a + b =~= b);
        assert(escape(a) + escape(b) =~= escape(b));
    } else {
        assert((a + b).skip(1) =~= a.skip(1) + b);
        lemma_escape_add(a.skip(1), b);
        assert(escape(a + b) =~= escape(a) + escape(b));
    }
}

/// Appends the escaped form of `s` to `out`.
pub fn push_escaped(out: &mut Vec<char>, s: &Vec<char>)
    ensures
        final(out)@ == old(out)@ + escape(s@),
{
    let mut i: usize = 0;
    while i < s.len()
        invariant
            i <= s.len(),
            out@ == old(out)@ + escape(s@.take(i as int)),
        decreases s.len() - i,
    {
        let c = s[i];
        if c == '"' || c == '\\' {
            out.push('\\');
            out.push(c);
        } else {
            out.push(c);
        }
        proof {
            assert(s@.take(i + 1) =~= s@.take(i as int) + seq![s@[i as int]]);
            lemma_escape_add(s@.take(i as int), seq![s@[i as int]]);
            assert(seq![s@[i as int]].skip(1) =~= Seq::<char>::empty());
            assert(escape(Seq::<char>::empty()) == Seq::<char>::empty());
            assert(escape(seq![s@[i as int]]) =~= escape_char(s@[i as int]));
        }
        i = i + 1;
    }
    proof {
        assert(s@.take(s@.len() as int) =~= s@);
    }
}

/// Appends the escaped form of a string slice to `out`.
pub fn push_escaped_str(out: &mut Vec<char>, s: &str)
    ensures
        final(out)@ == old(out)@ + escape(s@),
{
    let cs = str_to_chars(s);
    push_escaped(out, &cs);
}

// ---------------------------------------------------------------------------
// Decimal integers
// ---------------------------------------------------------------------------

pub open spec fn is_digit(c: char) -> bool {
    '0' <= c && c <= '9'
}

pub open spec fn digit_char(d: int) -> char {
    if d == 0 {
        '0'
    } else if d == 1 {
        '1'
    } else if d == 2 {
        '2'
    } else if d == 3 {
        '3'
    } else if d == 4 {
        '4'
    } else if d == 5 {
        '5'
    } else if d == 6 {
        '6'
    } else if d == 7 {
        '7'
    } else if d == 8 {
        '8'
    } else {
        '9'
    }
}

pub open spec fn digit_val(c: char) -> int {
    c as int - '0' as int
}

/// The decimal digits of a natural number, most significant first.
pub open spec fn dec_digits(n: nat) -> Seq<char>
    decreases n,
{
    if n < 10 {
        seq![digit_char(n as int)]
    } else {
        dec_digits(n / 10).push(digit_char((n % 10) as int))
    }
}

/// The decimal text of an integer: a minus sign for negative values.
pub open spec fn dec_int(n: int) -> Seq<char> {
    if n < 0 {
        seq!['-'] + dec_digits((-n) as nat)
    } else {
        dec_digits(n as nat)
    }
}

pub proof fn lemma_dec_digits_are_digits(n: nat)
    ensures
        dec_digits(n).len() >= 1,
        forall|i: int| 0 <= i < dec_digits(n).len() ==> is_digit(#[trigger] dec_digits(n)[i]),
        forall|i: int|
            0 <= i < dec_digits(n).len() ==> 0 <= digit_val(#[trigger] dec_digits(n)[i]) <= 9,
    decreases n,
{
    if n >= 10 {
        lemma_dec_digits_are_digits(n / 10);
    }
}

pub open spec fn pow10(k: nat) -> nat
    decreases k,
{
    if k == 0 {
        1
    } else {
        10 * pow10((k - 1) as nat)
    }
}

pub proof fn lemma_dec_digits_len(n: nat, k: nat)
    requires
        k >= 1,
        n < pow10(k),
    ensures
        dec_digits(n).len() <= k,
    decreases n,
{
    if n >= 10 {
        assert(n / 10 < pow10((k - 1) as nat)) by {
            assert(pow10(k) == 10 * pow10((k - 1) as nat));
        }
        lemma_dec_digits_len(n / 10, (k - 1) as nat);
    }
}

/// The value of a run of decimal digits, most significant first.
pub open spec fn digits_val(ds: Seq<char>) -> nat
    decreases ds.len(),
{
    if ds.len() == 0 {
        0
    } else {
        digits_val(ds.drop_last()) * 10 + (digit_val(ds.last()) as nat)
    }
}

pub proof fn lemma_digits_val_dec_digits(n: nat)
    ensures
        digits_val(dec_digits(n)) == n,
    decreases n,
{
    if n < 10 {
        assert(dec_digits(n).drop_last() =~= Seq::<char>::empty());
        assert(digits_val(Seq::<char>::empty()) == 0);
        assert(dec_digits(n).last() == digit_char(n as int));
        assert(digit_val(digit_char(n as int)) == n);
    } else {
        lemma_digits_val_dec_digits(n / 10);
        assert(digit_val(digit_char((n % 10) as int)) == n % 10);
        assert(dec_digits(n).drop_last() =~= dec_digits(n / 10));
        assert(digits_val(dec_digits(n)) == (n / 10) * 10 + n % 10);
        assert((n / 10) * 10 + n % 10 == n) by (nonlinear_arith);
    }
}

/// Appends the decimal digits of `n` to `out`.
pub fn push_u64(out: &mut Vec<char>, n: u64)
    ensures
        final(out)@ == old(out)@ + dec_digits(n as nat),
    decreases n,
{
    if n < 10 {
        let c: char = match n {
            0 => '0',
            1 => '1',
            2 => '2',
            3 => '3',
            4 => '4',
            5 => '5',
            6 => '6',
            7 => '7',
            8 => '8',
            _ => '9',
        };
        out.push(c);
        proof {
            assert(out@ =~= old(out)@ + dec_digits(n as nat));
        }
    } else {
        push_u64(out, n / 10);
        let d: u64 = n % 10;
        let c: char = match d {
            0 => '0',
            1 => '1',
            2 => '2',
            3 => '3',
            4 => '4',
            5 => '5',
            6 => '6',
            7 => '7',
            8 => '8',
            _ => '9',
        };
        out.push(c);
        proof {
            assert(out@ =~= old(out)@ + dec_digits(n as nat));
        }
    }
}

/// Appends the decimal text of `n`, with a minus sign when negative.
pub fn push_i64(out: &mut Vec<char>, n: i64)
    requires
        n > i64::MIN,
    ensures
        final(out)@ == old(out)@ + dec_int(n as int),
{
    if n < 0 {
        out.push('-');
        push_u64(out, (-n) as u64);
        proof {
            assert(out@ =~= old(out)@ + dec_int(n as int));
        }
    } else {
        push_u64(out, n as u64);
    }
}

// ---------------------------------------------------------------------------
// Decimal parsing
// ---------------------------------------------------------------------------

/// The length of the run of decimal digits at the head of `s`.
pub open spec fn leading_digits(s: Seq<char>) -> nat
    decreases s.len(),
{
    if s.len() == 0 || !is_digit(s[0]) {
        0
    } else {
        1 + leading_digits(s.skip(1))
    }
}

pub proof fn lemma_leading_digits_run(ds: Seq<char>, rest: Seq<char>)
    requires
        forall|i: int| 0 <= i < ds.len() ==> is_digit(#[trigger] ds[i]),
        rest.len() == 0 || !is_digit(rest[0]),
    ensures
        leading_digits(ds + rest) == ds.len(),
    decreases ds.len(),
{
    if ds.len() == 0 {
        assert(ds + rest =~= rest);
    } else {
        assert((ds + rest).skip(1) =~= ds.skip(1) + rest);
        lemma_leading_digits_run(ds.skip(1), rest);
    }
}

pub proof fn lemma_leading_digits_le_len(s: Seq<char>)
    ensures
        leading_digits(s) <= s.len(),
        forall|i: int| 0 <= i < leading_digits(s) ==> is_digit(#[trigger] s[i]),
    decreases s.len(),
{
    if s.len() > 0 && is_digit(s[0]) {
        lemma_leading_digits_le_len(s.skip(1));
        assert forall|i: int| 0 <= i < leading_digits(s) implies is_digit(#[trigger] s[i]) by {
            if i > 0 {
                assert(s.skip(1)[i - 1] == s[i]);
            }
        }
    }
}

/// The parse of an unsigned decimal number at the head of `s`: its value and
/// the index just past its digits.  Rejects an empty digit run and a run of
/// more than 19 digits (such a run can denote a value beyond the signed
/// 64-bit range that the envelope fields use).
pub open spec fn parse_u64_at(s: Seq<char>, i: int) -> Option<(nat, int)> {
    let ld = leading_digits(s.skip(i));
    if i < 0 || i > s.len() || ld == 0 || ld > 19 {
        None
    } else {
        Some((digits_val(s.subrange(i, i + ld)), i + ld))
    }
}

/// Reads an unsigned decimal number at position `i`.
pub fn scan_u64(s: &Vec<char>, i: usize) -> (r: Option<(u64, usize)>)
    requires
        i <= s@.len(),
    ensures
        match r {
            Some((v, j)) => parse_u64_at(s@, i as int) == Some(((v as nat), j as int)) && i < j
                <= s@.len(),
            None => parse_u64_at(s@, i as int) is None,
        },
{
    proof {
        lemma_leading_digits_le_len(s@.skip(i as int));
    }
    let ghost ld = leading_digits(s@.skip(i as int));
    // measure the digit run
    let mut j: usize = i;
    while j < s.len() && s[j] >= '0' && s[j] <= '9'
        invariant
            i <= j <= s@.len(),
            j - i <= ld,
            forall|k: int| i <= k < j ==> is_digit(#[trigger] s@[k]),
            leading_digits(s@.skip(j as int)) == ld - (j - i),
        decreases s@.len() - j,
    {
        proof {
            assert(s@.skip(j as int)[0] == s@[j as int]);
            assert(s@.skip(j as int).skip(1) =~= s@.skip(j + 1));
        }
        j = j + 1;
    }
    proof {
        assert(leading_digits(s@.skip(j as int)) == 0);
        assert(j - i == ld);
    }
    if j == i || j - i > 19 {
        return None;
    }
    let ghost run = s@.subrange(i as int, i + ld);
    let mut acc: u64 = 0;
    let mut k: usize = i;
    while k < j
        invariant
            i <= k <= j <= s@.len(),
            j - i <= 19,
            ld == j - i,
            run == s@.subrange(i as int, i + ld),
            forall|t: int| i <= t < j ==> is_digit(#[trigger] s@[t]),
            acc as nat == digits_val(run.take(k - i)),
            (acc as nat) < pow10((k - i) as nat),
        decreases j - k,
    {
        let c = s[k];
        let d: u64 = (c as u32 as u64) - ('0' as u32 as u64);
        proof {
            assert(run.take(k + 1 - i).drop_last() =~= run.take(k - i));
            assert(run.take(k + 1 - i).last() == s@[k as int]);
            assert(digit_val(s@[k as int]) == d);
            // acc stays in range: fewer than 19 digits read so far
            assert(pow10(18) == 1000000000000000000) by {
                reveal_with_fuel(pow10, 19);
            }
            lemma_pow10_mono((k - i) as nat, 18);
            assert(acc as nat <= pow10(18) - 1);
            assert(acc as nat * 10 <= (pow10(18) - 1) * 10) by (nonlinear_arith)
                requires
                    acc as nat <= pow10(18) - 1,
            ;
        }
        acc = acc * 10 + d;
        k = k + 1;
    }
    proof {
        assert(run.take(j - i) =~= run);
    }
    Some((acc, j))
}

pub proof fn lemma_pow10_mono(a: nat, b: nat)
    requires
        a <= b,
    ensures
        pow10(a) <= pow10(b),
    decreases b,
{
    if a < b {
        lemma_pow10_mono(a, (b - 1) as nat);
        assert(pow10(b) == 10 * pow10((b - 1) as nat));
    }
}

/// Round trip of the decimal codec: parsing the printed digits of `n`,
/// followed by any text that does not begin with a digit, yields `n` again
/// and stops exactly past the digits.
pub proof fn lemma_parse_dec_digits(n: nat, prefix: Seq<char>, rest: Seq<char>)
    requires
        n <= 9223372036854775808,
        rest.len() == 0 || !is_digit(rest[0]),
    ensures
        parse_u64_at(prefix + dec_digits(n) + rest, prefix.len() as int) == Some(
            (n, prefix.len() + dec_digits(n).len() as int),
        ),
{
    let s = prefix + dec_digits(n) + rest;
    lemma_dec_digits_are_digits(n);
    assert(s.skip(prefix.len() as int) =~= dec_digits(n) + rest);
    lemma_leading_digits_run(dec_digits(n), rest);
    assert(pow10(19) == 10000000000000000000 && pow10(20) == 100000000000000000000) by {
        reveal_with_fuel(pow10, 21);
    }
    // values within the signed 64-bit range print as at most 19 digits
    assert(n < pow10(19));
    lemma_dec_digits_len(n, 19);
    assert(s.subrange(prefix.len() as int, prefix.len() + dec_digits(n).len() as int) =~= dec_digits(n));
    lemma_digits_val_dec_digits(n);
}

// ---------------------------------------------------------------------------
// Quoted text
// ---------------------------------------------------------------------------

/// The parse of an escaped text at position `i` of `s`, up to and including
/// its closing quote: the unescaped content and the index just past the
/// quote.  Rejects a backslash that is not followed by a quote or a second
/// backslash, and text with no closing quote.
pub open spec fn parse_text_at(s: Seq<char>, i: int) -> Option<(Seq<char>, int)>
    decreases s.len() - i,
{
    if i < 0 || i >= s.len() {
        None
    } else if s[i] == '"' {
        Some((Seq::empty(), i + 1))
    } else if s[i] == '\\' {
        if i + 1 < s.len() && needs_escape(s[i + 1]) {
            match parse_text_at(s, i + 2) {
                Some((c, j)) => Some((seq![s[i + 1]] + c, j)),
                None => None,
            }
        } else {
            None
        }
    } else {
        match parse_text_at(s, i + 1) {
            Some((c, j)) => Some((seq![s[i]] + c, j)),
            None => None,
        }
    }
}

pub proof fn lemma_parse_text_at_bounds(s: Seq<char>, i: int)
    ensures
        (match parse_text_at(s, i) {
            Some((c, j)) => i < j <= s.len(),
            None => true,
        }),
    decreases s.len() - i,
{
    if 0 <= i < s.len() {
        if s[i] == '"' {
        } else if s[i] == '\\' {
            if i + 1 < s.len() && needs_escape(s[i + 1]) {
                lemma_parse_text_at_bounds(s, i + 2);
            }
        } else {
            lemma_parse_text_at_bounds(s, i + 1);
        }
    }
}

/// Prepends already-read content to the outcome of a text parse.
pub open spec fn prepend_text(pre: Seq<char>, r: Option<(Seq<char>, int)>) -> Option<
    (Seq<char>, int),
> {
    match r {
        Some((c, j)) => Some((pre + c, j)),
        None => None,
    }
}

/// Reads escaped text and its closing quote at position `i`.
pub fn scan_text(s: &Vec<char>, i: usize) -> (r: Option<(Vec<char>, usize)>)
    requires
        i <= s@.len(),
    ensures
        (match r {
            Some((c, j)) => parse_text_at(s@, i as int) == Some((c@, j as int)) && i < j
                <= s@.len(),
            None => parse_text_at(s@, i as int) is None,
        }),
{
    proof {
        lemma_parse_text_at_bounds(s@, i as int);
    }
    let mut out: Vec<char> = Vec::new();
    let mut j: usize = i;
    loop
        invariant
            i <= j <= s@.len(),
            parse_text_at(s@, i as int) == prepend_text(out@, parse_text_at(s@, j as int)),
        decreases s@.len() - j,
    {
        if j == s.len() {
            return None;
        }
        let c = s[j];
        if c == '"' {
            proof {
                assert(out@ + Seq::<char>::empty() =~= out@);
            }
            return Some((out, j + 1));
        } else if c == '\\' {
            if j + 1 < s.len() && (s[j + 1] == '"' || s[j + 1] == '\\') {
                proof {
                    if let Some((c2, k)) = parse_text_at(s@, j + 2) {
                        assert(out@ + (seq![s@[j + 1]] + c2) =~= out@.push(s@[j + 1]) + c2);
                    }
                }
                out.push(s[j + 1]);
                j = j + 2;
            } else {
                return None;
            }
        } else {
            proof {
                if let Some((c2, k)) = parse_text_at(s@, j + 1) {
                    assert(out@ + (seq![s@[j as int]] + c2) =~= out@.push(s@[j as int]) + c2);
                }
            }
            out.push(c);
            j = j + 1;
        }
    }
}

// ---------------------------------------------------------------------------
// Literals and signed integers
// ---------------------------------------------------------------------------

/// True when `pat` occurs in `s` at position `i`.
pub open spec fn match_at(s: Seq<char>, i: int, pat: Seq<char>) -> bool {
    0 <= i && i + pat.len() <= s.len() && s.subrange(i, i + pat.len()) == pat
}

/// Checks that the literal `pat` occurs at position `i` and steps past it.
pub fn expect_lit(s: &Vec<char>, i: usize, pat: &str) -> (r: Option<usize>)
    requires
        i <= s@.len(),
    ensures
        (match r {
            Some(j) => match_at(s@, i as int, pat@) && j == i + pat@.len(),
            None => !match_at(s@, i as int, pat@),
        }),
{
    let n = pat.unicode_len();
    if n > s.len() - i {
        proof {
            assert(!match_at(s@, i as int, pat@));
        }
        return None;
    }
    let end = i + n;
    let mut j: usize = i;
    while j < end
        invariant
            i <= j <= end,
            end == i + n,
            n == pat@.len(),
            end <= s@.len(),
            forall|t: int| 0 <= t < j - i ==> s@[i + t] == pat@[t],
        decreases end - j,
    {
        if s[j] != pat.get_char(j - i) {
            proof {
                assert(s@.subrange(i as int, i + pat@.len())[j - i] == s@[j as int]);
                assert(!match_at(s@, i as int, pat@));
            }
            return None;
        }
        j = j + 1;
    }
    proof {
        assert(s@.subrange(i as int, i + pat@.len()) =~= pat@);
    }
    Some(i + n)
}

/// The parse of a signed decimal number at position `i`: its value and the
/// index just past its digits.  Accepts exactly the signed 64-bit range.
pub open spec fn parse_i64_at(s: Seq<char>, i: int) -> Option<(int, int)> {
    if 0 <= i < s.len() && s[i] == '-' {
        match parse_u64_at(s, i + 1) {
            Some((n, j)) => if n <= 9223372036854775808 {
                Some((-(n as int), j))
            } else {
                None
            },
            None => None,
        }
    } else {
        match parse_u64_at(s, i) {
            Some((n, j)) => if n <= 9223372036854775807 {
                Some((n as int, j))
            } else {
                None
            },
            None => None,
        }
    }
}

/// Reads a signed decimal number at position `i`.
pub fn scan_i64(s: &Vec<char>, i: usize) -> (r: Option<(i64, usize)>)
    requires
        i <= s@.len(),
    ensures
        (match r {
            Some((v, j)) => parse_i64_at(s@, i as int) == Some((v as int, j as int)) && i < j
                <= s@.len(),
            None => parse_i64_at(s@, i as int) is None,
        }),
{
    if i < s.len() && s[i] == '-' {
        match scan_u64(s, i + 1) {
            Some((n, j)) => {
                if n <= 9223372036854775808 {
                    let v: i64 = if n == 9223372036854775808 {
                        i64::MIN
                    } else {
                        -(n as i64)
                    };
                    Some((v, j))
                } else {
                    None
                }
            },
            None => None,
        }
    } else {
        match scan_u64(s, i) {
            Some((n, j)) => {
                if n <= 9223372036854775807 {
                    Some((n as i64, j))
                } else {
                    None
                }
            },
            None => None,
        }
    }
}

/// Appends the decimal text of `n`, the least value included.
pub fn push_i64_full(out: &mut Vec<char>, n: i64)
    ensures
        final(out)@ == old(out)@ + dec_int(n as int),
{
    if n == i64::MIN {
        out.push('-');
        push_u64(out, 9223372036854775808);
    } else {
        push_i64(out, n);
    }
}

/// Round trip of the signed decimal codec: parsing the printed text of `n`,
/// followed by anything that does not begin with a digit, yields `n` again.
pub proof fn lemma_parse_dec_int(n: int, prefix: Seq<char>, rest: Seq<char>)
    requires
        i64::MIN <= n <= i64::MAX,
        rest.len() == 0 || !is_digit(rest[0]),
    ensures
        parse_i64_at(prefix + dec_int(n) + rest, prefix.len() as int) == Some(
            (n, prefix.len() + dec_int(n).len() as int),
        ),
{
    let s = prefix + dec_int(n) + rest;
    if n < 0 {
        let m = (-n) as nat;
        let prefix2 = prefix + seq!['-'];
        assert(prefix2 + dec_digits(m) + rest =~= s);
        lemma_parse_dec_digits(m, prefix2, rest);
        assert(s[prefix.len() as int] == '-');
        lemma_dec_digits_are_digits(m);
    } else {
        assert(prefix + dec_digits(n as nat) + rest =~= s);
        lemma_parse_dec_digits(n as nat, prefix, rest);
        lemma_dec_digits_are_digits(n as nat);
        assert(s[prefix.len() as int] == dec_digits(n as nat)[0]);
        assert(s[prefix.len() as int] != '-');
    }
}

/// Round trip of the text codec: parsing the escaped form of `x`, its
/// closing quote, and any remainder recovers `x` exactly and stops just past
/// the quote.
pub proof fn lemma_parse_escaped(x: Seq<char>, prefix: Seq<char>, rest: Seq<char>)
    ensures
        parse_text_at(prefix + escape(x) + seq!['"'] + rest, prefix.len() as int) == Some(
            (x, prefix.len() + escape(x).len() as int + 1),
        ),
    decreases x.len(),
{
    let s = prefix + escape(x) + seq!['"'] + rest;
    let p = prefix.len() as int;
    if x.len() == 0 {
        assert(s[p] == '"');
        assert(parse_text_at(s, p) == Some((Seq::<char>::empty(), p + 1)));
        assert(x =~= Seq::<char>::empty());
    } else {
        let c = x[0];
        let tail = x.skip(1);
        assert(escape(x) == escape_char(c) + escape(tail));
        if needs_escape(c) {
            let prefix2 = prefix + seq!['\\', c];
            lemma_parse_escaped(tail, prefix2, rest);
            assert(prefix2 + escape(tail) + seq!['"'] + rest =~= s);
            assert(s[p] == '\\');
            assert(s[p + 1] == c);
            assert(parse_text_at(s, p + 2) == Some((tail, p + 2 + escape(tail).len() as int + 1)));
            assert(seq![c] + tail =~= x);
            assert(p + 2 + escape(tail).len() + 1 == p + escape(x).len() + 1);
        } else {
            let prefix2 = prefix + seq![c];
            lemma_parse_escaped(tail, prefix2, rest);
            assert(prefix2 + escape(tail) + seq!['"'] + rest =~= s);
            assert(s[p] == c);
            assert(parse_text_at(s, p + 1) == Some((tail, p + 1 + escape(tail).len() as int + 1)));
            assert(seq![c] + tail =~= x);
        }
    }
}

} // verus!
