//! Text-record scaffolding shared by the payload and envelope codecs: fixed
//! literal fields around escaped text values and decimal integers, with the
//! parse of each shape proved to invert its serialization.

use vstd::prelude::*;

use crate::envelope::{entries_view, metadata_wf, EventEnvelope, EventEnvelopeView, Metadata};
use crate::event::Event;
use crate::text::{
    chars_to_string, dec_int, escape, expect_lit, is_digit, lemma_parse_dec_int,
    lemma_parse_escaped, lemma_parse_text_at_bounds, match_at, parse_i64_at, parse_text_at,
    push_escaped_str, push_i64_full, push_str_chars, scan_i64, scan_text, str_to_chars,
};
use crate::Error;

verus! {

/// The parse of `<text> <mid> <text> <end>` at position `p`: two escaped
/// texts around the literal `mid`, closed by the literal `end`, which must
/// end the input.
pub open spec fn parse_two_texts(text: Seq<char>, p: int, mid: Seq<char>, end: Seq<char>) -> Result<
    (Seq<char>, Seq<char>),
    Error,
> {
    match parse_text_at(text, p) {
        Some((v1, p2)) => {
            if match_at(text, p2, mid) {
                match parse_text_at(text, p2 + mid.len() as int) {
                    Some((v2, p4)) => {
                        if match_at(text, p4, end) && p4 + end.len() == text.len() {
                            Ok((v1, v2))
                        } else {
                            Err(Error::DecodeError)
                        }
                    },
                    None => Err(Error::DecodeError),
                }
            } else {
                Err(Error::DecodeError)
            }
        },
        None => Err(Error::DecodeError),
    }
}

/// The parse of `<text> <mid> <number> <end>` at position `p`.
pub open spec fn parse_text_int(text: Seq<char>, p: int, mid: Seq<char>, end: Seq<char>) -> Result<
    (Seq<char>, int),
    Error,
> {
    match parse_text_at(text, p) {
        Some((v1, p2)) => {
            if match_at(text, p2, mid) {
                match parse_i64_at(text, p2 + mid.len() as int) {
                    Some((num, p4)) => {
                        if match_at(text, p4, end) && p4 + end.len() == text.len() {
                            Ok((v1, num))
                        } else {
                            Err(Error::DecodeError)
                        }
                    },
                    None => Err(Error::DecodeError),
                }
            } else {
                Err(Error::DecodeError)
            }
        },
        None => Err(Error::DecodeError),
    }
}

/// The parse of `<text> <end>` at position `p`.
pub open spec fn parse_one_text(text: Seq<char>, p: int, end: Seq<char>) -> Result<
    Seq<char>,
    Error,
> {
    match parse_text_at(text, p) {
        Some((v1, p2)) => {
            if match_at(text, p2, end) && p2 + end.len() == text.len() {
                Ok(v1)
            } else {
                Err(Error::DecodeError)
            }
        },
        None => Err(Error::DecodeError),
    }
}

/// The parse of `<text> <mid1> <text> <mid2> <number> <end>` at position `p`.
pub open spec fn parse_two_texts_int(
    text: Seq<char>,
    p: int,
    mid1: Seq<char>,
    mid2: Seq<char>,
    end: Seq<char>,
) -> Result<(Seq<char>, Seq<char>, int), Error> {
    match parse_text_at(text, p) {
        Some((v1, p2)) => {
            if match_at(text, p2, mid1) {
                match parse_text_at(text, p2 + mid1.len() as int) {
                    Some((v2, p4)) => {
                        if match_at(text, p4, mid2) {
                            match parse_i64_at(text, p4 + mid2.len() as int) {
                                Some((num, p6)) => {
                                    if match_at(text, p6, end) && p6 + end.len() == text.len() {
                                        Ok((v1, v2, num))
                                    } else {
                                        Err(Error::DecodeError)
                                    }
                                },
                                None => Err(Error::DecodeError),
                            }
                        } else {
                            Err(Error::DecodeError)
                        }
                    },
                    None => Err(Error::DecodeError),
                }
            } else {
                Err(Error::DecodeError)
            }
        },
        None => Err(Error::DecodeError),
    }
}

// ---------------------------------------------------------------------------
// Executable parsers for the same shapes
// ---------------------------------------------------------------------------

/// Reads `<text> <mid> <text> <end>` at position `p`.
pub fn scan_two_texts(s: &Vec<char>, p: usize, mid: &str, end: &str) -> (r: Result<
    (Vec<char>, Vec<char>),
    Error,
>)
    requires
        p <= s@.len(),
    ensures
        (match r {
            Ok((v1, v2)) => parse_two_texts(s@, p as int, mid@, end@) == Ok::<
                (Seq<char>, Seq<char>),
                Error,
            >((v1@, v2@)),
            Err(e) => parse_two_texts(s@, p as int, mid@, end@) == Err::<
                (Seq<char>, Seq<char>),
                Error,
            >(e),
        }),
{
    let (v1, p2) = match scan_text(s, p) {
        Some(x) => x,
        None => {
            return Err(Error::DecodeError);
        },
    };
    let p3 = match expect_lit(s, p2, mid) {
        Some(x) => x,
        None => {
            return Err(Error::DecodeError);
        },
    };
    let (v2, p4) = match scan_text(s, p3) {
        Some(x) => x,
        None => {
            return Err(Error::DecodeError);
        },
    };
    match expect_lit(s, p4, end) {
        Some(p5) => {
            if p5 == s.len() {
                Ok((v1, v2))
            } else {
                Err(Error::DecodeError)
            }
        },
        None => Err(Error::DecodeError),
    }
}

/// Reads `<text> <mid> <number> <end>` at position `p`.
pub fn scan_text_int(s: &Vec<char>, p: usize, mid: &str, end: &str) -> (r: Result<
    (Vec<char>, i64),
    Error,
>)
    requires
        p <= s@.len(),
    ensures
        (match r {
            Ok((v1, num)) => parse_text_int(s@, p as int, mid@, end@) == Ok::<
                (Seq<char>, int),
                Error,
            >((v1@, num as int)),
            Err(e) => parse_text_int(s@, p as int, mid@, end@) == Err::<(Seq<char>, int), Error>(
                e,
            ),
        }),
{
    let (v1, p2) = match scan_text(s, p) {
        Some(x) => x,
        None => {
            return Err(Error::DecodeError);
        },
    };
    let p3 = match expect_lit(s, p2, mid) {
        Some(x) => x,
        None => {
            return Err(Error::DecodeError);
        },
    };
    let (num, p4) = match scan_i64(s, p3) {
        Some(x) => x,
        None => {
            return Err(Error::DecodeError);
        },
    };
    match expect_lit(s, p4, end) {
        Some(p5) => {
            if p5 == s.len() {
                Ok((v1, num))
            } else {
                Err(Error::DecodeError)
            }
        },
        None => Err(Error::DecodeError),
    }
}

/// Reads `<text> <end>` at position `p`.
pub fn scan_one_text(s: &Vec<char>, p: usize, end: &str) -> (r: Result<Vec<char>, Error>)
    requires
        p <= s@.len(),
    ensures
        (match r {
            Ok(v1) => parse_one_text(s@, p as int, end@) == Ok::<Seq<char>, Error>(v1@),
            Err(e) => parse_one_text(s@, p as int, end@) == Err::<Seq<char>, Error>(e),
        }),
{
    let (v1, p2) = match scan_text(s, p) {
        Some(x) => x,
        None => {
            return Err(Error::DecodeError);
        },
    };
    match expect_lit(s, p2, end) {
        Some(p3) => {
            if p3 == s.len() {
                Ok(v1)
            } else {
                Err(Error::DecodeError)
            }
        },
        None => Err(Error::DecodeError),
    }
}

/// Reads `<text> <mid1> <text> <mid2> <number> <end>` at position `p`.
pub fn scan_two_texts_int(s: &Vec<char>, p: usize, mid1: &str, mid2: &str, end: &str) -> (r: Result<
    (Vec<char>, Vec<char>, i64),
    Error,
>)
    requires
        p <= s@.len(),
    ensures
        (match r {
            Ok((v1, v2, num)) => parse_two_texts_int(s@, p as int, mid1@, mid2@, end@) == Ok::<
                (Seq<char>, Seq<char>, int),
                Error,
            >((v1@, v2@, num as int)),
            Err(e) => parse_two_texts_int(s@, p as int, mid1@, mid2@, end@) == Err::<
                (Seq<char>, Seq<char>, int),
                Error,
            >(e),
        }),
{
    let (v1, p2) = match scan_text(s, p) {
        Some(x) => x,
        None => {
            return Err(Error::DecodeError);
        },
    };
    let p3 = match expect_lit(s, p2, mid1) {
        Some(x) => x,
        None => {
            return Err(Error::DecodeError);
        },
    };
    let (v2, p4) = match scan_text(s, p3) {
        Some(x) => x,
        None => {
            return Err(Error::DecodeError);
        },
    };
    let p5 = match expect_lit(s, p4, mid2) {
        Some(x) => x,
        None => {
            return Err(Error::DecodeError);
        },
    };
    let (num, p6) = match scan_i64(s, p5) {
        Some(x) => x,
        None => {
            return Err(Error::DecodeError);
        },
    };
    match expect_lit(s, p6, end) {
        Some(p7) => {
            if p7 == s.len() {
                Ok((v1, v2, num))
            } else {
                Err(Error::DecodeError)
            }
        },
        None => Err(Error::DecodeError),
    }
}

// ---------------------------------------------------------------------------
// Round trips of the shapes
// ---------------------------------------------------------------------------

/// The serialized form of two text fields: `<esc a> " <mid> <esc b> " <end>`.
pub open spec fn ser_two_texts(a: Seq<char>, mid: Seq<char>, b: Seq<char>, end: Seq<char>) -> Seq<
    char,
> {
    escape(a) + seq!['"'] + mid + escape(b) + seq!['"'] + end
}

pub proof fn lemma_rt_two_texts(
    prefix: Seq<char>,
    a: Seq<char>,
    mid: Seq<char>,
    b: Seq<char>,
    end: Seq<char>,
)
    ensures
        parse_two_texts(prefix + ser_two_texts(a, mid, b, end), prefix.len() as int, mid, end)
            == Ok::<(Seq<char>, Seq<char>), Error>((a, b)),
{
    let text = prefix + ser_two_texts(a, mid, b, end);
    let rest1 = mid + escape(b) + seq!['"'] + end;
    assert(prefix + escape(a) + seq!['"'] + rest1 =~= text);
    lemma_parse_escaped(a, prefix, rest1);
    let p2 = prefix.len() + escape(a).len() + 1;
    assert(text.subrange(p2 as int, p2 + mid.len() as int) =~= mid);
    let prefix2 = prefix + escape(a) + seq!['"'] + mid;
    assert(prefix2 + escape(b) + seq!['"'] + end =~= text);
    lemma_parse_escaped(b, prefix2, end);
    let p4 = prefix2.len() + escape(b).len() + 1;
    assert(text.subrange(p4 as int, p4 + end.len() as int) =~= end);
    assert(p4 + end.len() == text.len());
}

/// The serialized form of a text field and a number: `<esc a> " <mid> <n> <end>`.
pub open spec fn ser_text_int(a: Seq<char>, mid: Seq<char>, n: int, end: Seq<char>) -> Seq<char> {
    escape(a) + seq!['"'] + mid + dec_int(n) + end
}

pub proof fn lemma_rt_text_int(prefix: Seq<char>, a: Seq<char>, mid: Seq<char>, n: int, end: Seq<char>)
    requires
        i64::MIN <= n <= i64::MAX,
        end.len() > 0,
        !is_digit(end[0]),
    ensures
        parse_text_int(prefix + ser_text_int(a, mid, n, end), prefix.len() as int, mid, end)
            == Ok::<(Seq<char>, int), Error>((a, n)),
{
    let text = prefix + ser_text_int(a, mid, n, end);
    let rest1 = mid + dec_int(n) + end;
    assert(prefix + escape(a) + seq!['"'] + rest1 =~= text);
    lemma_parse_escaped(a, prefix, rest1);
    let p2 = prefix.len() + escape(a).len() + 1;
    assert(text.subrange(p2 as int, p2 + mid.len() as int) =~= mid);
    let prefix2 = prefix + escape(a) + seq!['"'] + mid;
    assert(prefix2 + dec_int(n) + end =~= text);
    lemma_parse_dec_int(n, prefix2, end);
    let p4 = prefix2.len() + dec_int(n).len() as int;
    assert(text.subrange(p4, p4 + end.len() as int) =~= end);
    assert(p4 + end.len() == text.len());
}

/// The serialized form of one text field: `<esc a> " <end>`.
pub open spec fn ser_one_text(a: Seq<char>, end: Seq<char>) -> Seq<char> {
    escape(a) + seq!['"'] + end
}

pub proof fn lemma_rt_one_text(prefix: Seq<char>, a: Seq<char>, end: Seq<char>)
    ensures
        parse_one_text(prefix + ser_one_text(a, end), prefix.len() as int, end) == Ok::<
            Seq<char>,
            Error,
        >(a),
{
    let text = prefix + ser_one_text(a, end);
    assert(prefix + escape(a) + seq!['"'] + end =~= text);
    lemma_parse_escaped(a, prefix, end);
    let p2 = prefix.len() + escape(a).len() + 1;
    assert(text.subrange(p2 as int, p2 + end.len() as int) =~= end);
    assert(p2 + end.len() == text.len());
}

/// The serialized form of two texts and a number.
pub open spec fn ser_two_texts_int(
    a: Seq<char>,
    mid1: Seq<char>,
    b: Seq<char>,
    mid2: Seq<char>,
    n: int,
    end: Seq<char>,
) -> Seq<char> {
    escape(a) + seq!['"'] + mid1 + escape(b) + seq!['"'] + mid2 + dec_int(n) + end
}

pub proof fn lemma_rt_two_texts_int(
    prefix: Seq<char>,
    a: Seq<char>,
    mid1: Seq<char>,
    b: Seq<char>,
    mid2: Seq<char>,
    n: int,
    end: Seq<char>,
)
    requires
        i64::MIN <= n <= i64::MAX,
        end.len() > 0,
        !is_digit(end[0]),
    ensures
        parse_two_texts_int(
            prefix + ser_two_texts_int(a, mid1, b, mid2, n, end),
            prefix.len() as int,
            mid1,
            mid2,
            end,
        ) == Ok::<(Seq<char>, Seq<char>, int), Error>((a, b, n)),
{
    let text = prefix + ser_two_texts_int(a, mid1, b, mid2, n, end);
    let rest1 = mid1 + escape(b) + seq!['"'] + mid2 + dec_int(n) + end;
    assert(prefix + escape(a) + seq!['"'] + rest1 =~= text);
    lemma_parse_escaped(a, prefix, rest1);
    let p2 = prefix.len() + escape(a).len() + 1;
    assert(text.subrange(p2 as int, p2 + mid1.len() as int) =~= mid1);
    let prefix2 = prefix + escape(a) + seq!['"'] + mid1;
    let rest2 = mid2 + dec_int(n) + end;
    assert(prefix2 + escape(b) + seq!['"'] + rest2 =~= text);
    lemma_parse_escaped(b, prefix2, rest2);
    let p4 = prefix2.len() + escape(b).len() + 1;
    assert(text.subrange(p4 as int, p4 + mid2.len() as int) =~= mid2);
    let prefix3 = prefix2 + escape(b) + seq!['"'] + mid2;
    assert(prefix3 + dec_int(n) + end =~= text);
    lemma_parse_dec_int(n, prefix3, end);
    let p6 = prefix3.len() + dec_int(n).len() as int;
    assert(text.subrange(p6, p6 + end.len() as int) =~= end);
    assert(p6 + end.len() == text.len());
}

// ---------------------------------------------------------------------------
// The envelope wire format
// ---------------------------------------------------------------------------

/// The text of metadata entries: `"k":"v"` pairs separated by commas, closed
/// by the object's brace.
pub open spec fn ser_pairs(ps: Seq<(Seq<char>, Seq<char>)>) -> Seq<char>
    decreases ps.len(),
{
    if ps.len() == 0 {
        Seq::empty()
    } else {
        let head = seq!['"'] + escape(ps[0].0) + seq!['"', ':', '"'] + escape(ps[0].1)
            + seq!['"'];
        if ps.len() == 1 {
            head + seq!['}']
        } else {
            head + seq![','] + ser_pairs(ps.skip(1))
        }
    }
}

/// The text of a metadata object.
pub open spec fn ser_metadata(ps: Seq<(Seq<char>, Seq<char>)>) -> Seq<char> {
    if ps.len() == 0 {
        seq!['{', '}']
    } else {
        seq!['{'] + ser_pairs(ps)
    }
}

/// The parse of metadata entries at position `p` (just past the object's
/// opening brace, or past a separating comma): the entries and the index
/// just past the object's closing brace.
pub open spec fn parse_pairs(text: Seq<char>, p: int) -> Option<
    (Seq<(Seq<char>, Seq<char>)>, int),
>
    decreases text.len() - p,
{
    if p < 0 || p >= text.len() || text[p] != '"' {
        None
    } else {
        match parse_text_at(text, p + 1) {
            Some((k, p2)) => {
                if p2 + 2 <= text.len() && text[p2] == ':' && text[p2 + 1] == '"' {
                    match parse_text_at(text, p2 + 2) {
                        Some((v, p4)) => {
                            if p4 < text.len() && text[p4] == ',' {
                                proof {
                                    lemma_parse_text_at_bounds(text, p + 1);
                                    lemma_parse_text_at_bounds(text, p2 + 2);
                                }
                                match parse_pairs(text, p4 + 1) {
                                    Some((ps, p5)) => Some((seq![(k, v)] + ps, p5)),
                                    None => None,
                                }
                            } else if p4 < text.len() && text[p4] == '}' {
                                Some((seq![(k, v)], p4 + 1))
                            } else {
                                None
                            }
                        },
                        None => None,
                    }
                } else {
                    None
                }
            },
            None => None,
        }
    }
}

/// The parse of a metadata object's contents at position `p`, just past its
/// opening brace: an empty object, or its entries.
pub open spec fn parse_metadata(text: Seq<char>, p: int) -> Option<
    (Seq<(Seq<char>, Seq<char>)>, int),
> {
    if 0 <= p < text.len() && text[p] == '}' {
        Some((Seq::empty(), p + 1))
    } else {
        parse_pairs(text, p)
    }
}

/// Round trip of the metadata entries: parsing the serialized entries, and
/// any remainder, recovers the entries exactly.
#[verifier::rlimit(80)]
pub proof fn lemma_rt_pairs(prefix: Seq<char>, ps: Seq<(Seq<char>, Seq<char>)>, rest: Seq<char>)
    requires
        ps.len() > 0,
    ensures
        parse_pairs(prefix + ser_pairs(ps) + rest, prefix.len() as int) == Some(
            (ps, prefix.len() + ser_pairs(ps).len() as int),
        ),
    decreases ps.len(),
{
    let text = prefix + ser_pairs(ps) + rest;
    let p = prefix.len() as int;
    let k = ps[0].0;
    let v = ps[0].1;
    let head = seq!['"'] + escape(k) + seq!['"', ':', '"'] + escape(v) + seq!['"'];
    assert(text[p] == '"');
    if ps.len() == 1 {
        let rest1 = seq![':', '"'] + escape(v) + seq!['"'] + (seq!['}'] + rest);
        assert(prefix + seq!['"'] + escape(k) + seq!['"'] + rest1 =~= text);
        lemma_parse_escaped(k, prefix + seq!['"'], rest1);
        let p2 = p + 1 + escape(k).len() + 1;
        assert(text[p2] == ':');
        assert(text[p2 + 1] == '"');
        let prefix2 = prefix + seq!['"'] + escape(k) + seq!['"', ':', '"'];
        assert(prefix2 + escape(v) + seq!['"'] + (seq!['}'] + rest) =~= text);
        lemma_parse_escaped(v, prefix2, seq!['}'] + rest);
        let p4 = prefix2.len() + escape(v).len() as int + 1;
        assert(text[p4] == '}');
        assert(seq![(k, v)] =~~= ps);
    } else {
        let tail = ps.skip(1);
        let rest1 = seq![':', '"'] + escape(v) + seq!['"'] + (seq![','] + ser_pairs(tail) + rest);
        assert(prefix + seq!['"'] + escape(k) + seq!['"'] + rest1 =~= text);
        lemma_parse_escaped(k, prefix + seq!['"'], rest1);
        let p2 = p + 1 + escape(k).len() + 1;
        assert(text[p2] == ':');
        assert(text[p2 + 1] == '"');
        let prefix2 = prefix + seq!['"'] + escape(k) + seq!['"', ':', '"'];
        assert(prefix2 + escape(v) + seq!['"'] + (seq![','] + ser_pairs(tail) + rest) =~= text);
        lemma_parse_escaped(v, prefix2, seq![','] + ser_pairs(tail) + rest);
        let p4 = prefix2.len() + escape(v).len() as int + 1;
        assert(text[p4] == ',');
        let prefix3 = prefix + (head + seq![',']);
        assert(prefix3 + ser_pairs(tail) + rest =~= text);
        lemma_rt_pairs(prefix3, tail, rest);
        assert(prefix3.len() == p4 + 1);
        assert(seq![(k, v)] + tail =~~= ps);
    }
}

/// Reads metadata entries at position `p`, just past the opening brace or a
/// separating comma.
pub fn scan_pairs(s: &Vec<char>, p: usize) -> (r: Option<(Vec<(String, String)>, usize)>)
    requires
        p <= s@.len(),
    ensures
        (match r {
            Some((entries, j)) => parse_pairs(s@, p as int) == Some(
                (entries_view(entries@), j as int),
            ) && p < j <= s@.len(),
            None => parse_pairs(s@, p as int) is None,
        }),
    decreases s@.len() - p,
{
    if p == s.len() || s[p] != '"' {
        return None;
    }
    let (k, p2) = match scan_text(s, p + 1) {
        Some(x) => x,
        None => {
            return None;
        },
    };
    if !(p2 < s.len() && s[p2] == ':' && s.len() - p2 >= 2 && s[p2 + 1] == '"') {
        return None;
    }
    let (v, p4) = match scan_text(s, p2 + 2) {
        Some(x) => x,
        None => {
            return None;
        },
    };
    let key = chars_to_string(&k);
    let value = chars_to_string(&v);
    if p4 < s.len() && s[p4] == ',' {
        match scan_pairs(s, p4 + 1) {
            Some((tail, j)) => {
                let ghost tailv = entries_view(tail@);
                let mut entries = tail;
                entries.insert(0, (key, value));
                proof {
                    assert(entries_view(entries@) =~~= seq![(k@, v@)] + tailv);
                }
                Some((entries, j))
            },
            None => None,
        }
    } else if p4 < s.len() && s[p4] == '}' {
        let mut entries: Vec<(String, String)> = Vec::new();
        entries.push((key, value));
        proof {
            assert(entries_view(entries@) =~~= seq![(k@, v@)]);
        }
        Some((entries, p4 + 1))
    } else {
        None
    }
}

/// Appends the serialized metadata entries from position `i` on.
#[verifier::rlimit(60)]
fn push_pairs(out: &mut Vec<char>, metadata: &Metadata, i: usize)
    requires
        i < metadata@.len(),
    ensures
        final(out)@ == old(out)@ + ser_pairs(metadata@.skip(i as int)),
    decreases metadata@.len() - i,
{
    let n = metadata.len();
    let (k, v) = metadata.entry_at(i);
    out.push('"');
    push_escaped_str(out, k.as_str());
    out.push('"');
    out.push(':');
    out.push('"');
    push_escaped_str(out, v.as_str());
    out.push('"');
    if i + 1 == n {
        out.push('}');
        proof {
            assert(metadata@.skip(i as int).len() == 1);
            assert(metadata@.skip(i as int)[0] == metadata@[i as int]);
            assert(out@ =~= old(out)@ + ser_pairs(metadata@.skip(i as int)));
        }
    } else {
        out.push(',');
        push_pairs(out, metadata, i + 1);
        proof {
            assert(metadata@.skip(i as int)[0] == metadata@[i as int]);
            assert(metadata@.skip(i as int).skip(1) =~= metadata@.skip(i + 1));
            assert(out@ =~= old(out)@ + ser_pairs(metadata@.skip(i as int)));
        }
    }
}

/// The canonical text of an event envelope: one object carrying the
/// aggregate identity and kind, the payload's canonical text, the event's
/// discriminator, the write position, time and schema revision, and the
/// metadata as a nested object.
pub open spec fn ser_envelope_of<E: Event>(env: EventEnvelopeView<E::V>) -> Seq<char> {
    "{\"aggregate_id\":\""@ + escape(env.aggregate_id) + seq!['"']
        + ",\"aggregate_type\":\""@ + escape(env.aggregate_type) + seq!['"'] + ",\"event\":\""@
        + escape(E::serial_of(env.event)) + seq!['"'] + ",\"event_type\":\""@ + escape(
        env.event_type,
    ) + seq!['"'] + ",\"event_time\":"@ + dec_int(env.event_time) + ",\"sequence\":"@ + dec_int(
        env.sequence,
    ) + ",\"revision\":"@ + dec_int(env.revision) + ",\"metadata\":"@ + ser_metadata(
        env.metadata,
    ) + seq!['}']
}

/// The parse of an envelope's canonical text: the envelope it denotes, the
/// payload's own error where the payload text is invalid, and `DecodeError`
/// where a field is absent or malformed or a metadata key repeats.
pub open spec fn parse_envelope_of<E: Event>(text: Seq<char>) -> Result<
    EventEnvelopeView<E::V>,
    Error,
> {
    let l0 = "{\"aggregate_id\":\""@;
    let m1 = ",\"aggregate_type\":\""@;
    let m2 = ",\"event\":\""@;
    let m3 = ",\"event_type\":\""@;
    let m4 = ",\"event_time\":"@;
    let m5 = ",\"sequence\":"@;
    let m6 = ",\"revision\":"@;
    let m7 = ",\"metadata\":{"@;
    if !match_at(text, 0, l0) {
        Err(Error::DecodeError)
    } else {
        match parse_text_at(text, l0.len() as int) {
            Some((aggregate_id, p1)) => if match_at(text, p1, m1) {
                match parse_text_at(text, p1 + m1.len() as int) {
                    Some((aggregate_type, p2)) => if match_at(text, p2, m2) {
                        match parse_text_at(text, p2 + m2.len() as int) {
                            Some((payload, p3)) => match <E as Event>::parse_of(payload) {
                                Ok(event) => if match_at(text, p3, m3) {
                                    match parse_text_at(text, p3 + m3.len() as int) {
                                        Some((event_type, p4)) => if match_at(text, p4, m4) {
                                            match parse_i64_at(text, p4 + m4.len() as int) {
                                                Some((event_time, p5)) => if match_at(
                                                    text,
                                                    p5,
                                                    m5,
                                                ) {
                                                    match parse_i64_at(text, p5 + m5.len() as int) {
                                                        Some((sequence, p6)) => if match_at(
                                                            text,
                                                            p6,
                                                            m6,
                                                        ) {
                                                            match parse_i64_at(
                                                                text,
                                                                p6 + m6.len() as int,
                                                            ) {
                                                                Some((revision, p7)) => if match_at(
                                                                    text,
                                                                    p7,
                                                                    m7,
                                                                ) {
                                                                    match parse_metadata(
                                                                        text,
                                                                        p7 + m7.len() as int,
                                                                    ) {
                                                                        Some((metadata, p8)) => if metadata_wf(
                                                                            metadata,
                                                                        ) && p8 < text.len()
                                                                            && text[p8] == '}' && p8
                                                                            + 1 == text.len() {
                                                                            Ok(
                                                                                EventEnvelopeView {
                                                                                    aggregate_id,
                                                                                    aggregate_type,
                                                                                    event,
                                                                                    event_type,
                                                                                    event_time,
                                                                                    sequence,
                                                                                    revision,
                                                                                    metadata,
                                                                                },
                                                                            )
                                                                        } else {
                                                                            Err(Error::DecodeError)
                                                                        },
                                                                        None => Err(
                                                                            Error::DecodeError,
                                                                        ),
                                                                    }
                                                                } else {
                                                                    Err(Error::DecodeError)
                                                                },
                                                                None => Err(Error::DecodeError),
                                                            }
                                                        } else {
                                                            Err(Error::DecodeError)
                                                        },
                                                        None => Err(Error::DecodeError),
                                                    }
                                                } else {
                                                    Err(Error::DecodeError)
                                                },
                                                None => Err(Error::DecodeError),
                                            }
                                        } else {
                                            Err(Error::DecodeError)
                                        },
                                        None => Err(Error::DecodeError),
                                    }
                                } else {
                                    Err(Error::DecodeError)
                                },
                                Err(e) => Err(e),
                            },
                            None => Err(Error::DecodeError),
                        }
                    } else {
                        Err(Error::DecodeError)
                    },
                    None => Err(Error::DecodeError),
                }
            } else {
                Err(Error::DecodeError)
            },
            None => Err(Error::DecodeError),
        }
    }
}

/// Serializes an envelope to its canonical text.
pub fn serialize_envelope<E: Event>(envelope: &EventEnvelope<E>) -> (r: String)
    ensures
        r@ == ser_envelope_of::<E>(envelope@),
{
    let mut out: Vec<char> = Vec::new();
    push_str_chars(&mut out, "{\"aggregate_id\":\"");
    push_escaped_str(&mut out, envelope.aggregate_id.as_str());
    out.push('"');
    push_str_chars(&mut out, ",\"aggregate_type\":\"");
    push_escaped_str(&mut out, envelope.aggregate_type.as_str());
    out.push('"');
    push_str_chars(&mut out, ",\"event\":\"");
    let payload = envelope.event.serialize();
    push_escaped_str(&mut out, payload.as_str());
    out.push('"');
    push_str_chars(&mut out, ",\"event_type\":\"");
    push_escaped_str(&mut out, envelope.event_type.as_str());
    out.push('"');
    push_str_chars(&mut out, ",\"event_time\":");
    push_i64_full(&mut out, envelope.event_time);
    push_str_chars(&mut out, ",\"sequence\":");
    push_i64_full(&mut out, envelope.sequence);
    push_str_chars(&mut out, ",\"revision\":");
    push_i64_full(&mut out, envelope.revision);
    push_str_chars(&mut out, ",\"metadata\":");
    out.push('{');
    if envelope.metadata.len() == 0 {
        out.push('}');
    } else {
        push_pairs(&mut out, &envelope.metadata, 0);
        proof {
            assert(envelope.metadata@.skip(0) =~= envelope.metadata@);
        }
    }
    out.push('}');
    proof {
        assert(out@ =~= ser_envelope_of::<E>(envelope@));
    }
    chars_to_string(&out)
}

/// Parses an envelope from its canonical text.
pub fn parse_envelope<E: Event>(text: &str) -> (r: Result<EventEnvelope<E>, Error>)
    ensures
        (match r {
            Ok(env) => parse_envelope_of::<E>(text@) == Ok::<EventEnvelopeView<E::V>, Error>(
                env@,
            ),
            Err(e) => parse_envelope_of::<E>(text@) == Err::<EventEnvelopeView<E::V>, Error>(e),
        }),
{
    let s = str_to_chars(text);
    let p0 = match expect_lit(&s, 0, "{\"aggregate_id\":\"") {
        Some(x) => x,
        None => {
            return Err(Error::DecodeError);
        },
    };
    let (aggregate_id, p1) = match scan_text(&s, p0) {
        Some(x) => x,
        None => {
            return Err(Error::DecodeError);
        },
    };
    let p1b = match expect_lit(&s, p1, ",\"aggregate_type\":\"") {
        Some(x) => x,
        None => {
            return Err(Error::DecodeError);
        },
    };
    let (aggregate_type, p2) = match scan_text(&s, p1b) {
        Some(x) => x,
        None => {
            return Err(Error::DecodeError);
        },
    };
    let p2b = match expect_lit(&s, p2, ",\"event\":\"") {
        Some(x) => x,
        None => {
            return Err(Error::DecodeError);
        },
    };
    let (payload, p3) = match scan_text(&s, p2b) {
        Some(x) => x,
        None => {
            return Err(Error::DecodeError);
        },
    };
    let payload_text = chars_to_string(&payload);
    let event: E = match E::parse(payload_text.as_str()) {
        Ok(e) => e,
        Err(e) => {
            return Err(e);
        },
    };
    let p3b = match expect_lit(&s, p3, ",\"event_type\":\"") {
        Some(x) => x,
        None => {
            return Err(Error::DecodeError);
        },
    };
    let (event_type, p4) = match scan_text(&s, p3b) {
        Some(x) => x,
        None => {
            return Err(Error::DecodeError);
        },
    };
    let p4b = match expect_lit(&s, p4, ",\"event_time\":") {
        Some(x) => x,
        None => {
            return Err(Error::DecodeError);
        },
    };
    let (event_time, p5) = match scan_i64(&s, p4b) {
        Some(x) => x,
        None => {
            return Err(Error::DecodeError);
        },
    };
    let p5b = match expect_lit(&s, p5, ",\"sequence\":") {
        Some(x) => x,
        None => {
            return Err(Error::DecodeError);
        },
    };
    let (sequence, p6) = match scan_i64(&s, p5b) {
        Some(x) => x,
        None => {
            return Err(Error::DecodeError);
        },
    };
    let p6b = match expect_lit(&s, p6, ",\"revision\":") {
        Some(x) => x,
        None => {
            return Err(Error::DecodeError);
        },
    };
    let (revision, p7) = match scan_i64(&s, p6b) {
        Some(x) => x,
        None => {
            return Err(Error::DecodeError);
        },
    };
    let p7b = match expect_lit(&s, p7, ",\"metadata\":{") {
        Some(x) => x,
        None => {
            return Err(Error::DecodeError);
        },
    };
    let (metadata, p8) = if p7b < s.len() && s[p7b] == '}' {
        (Metadata::new(), p7b + 1)
    } else {
        match scan_pairs(&s, p7b) {
            Some((entries, j)) => {
                match Metadata::from_entries(entries) {
                    Some(m) => (m, j),
                    None => {
                        return Err(Error::DecodeError);
                    },
                }
            },
            None => {
                return Err(Error::DecodeError);
            },
        }
    };
    if p8 < s.len() && s[p8] == '}' && p8 + 1 == s.len() {
        Ok(
            EventEnvelope {
                aggregate_id: chars_to_string(&aggregate_id),
                aggregate_type: chars_to_string(&aggregate_type),
                event,
                event_type: chars_to_string(&event_type),
                event_time,
                sequence,
                revision,
                metadata,
            },
        )
    } else {
        Err(Error::DecodeError)
    }
}

/// One text field of the envelope: its escaped value, the closing quote,
/// and the literal that introduces the next field.
proof fn lemma_field_step(x: Seq<char>, prefix: Seq<char>, mid: Seq<char>, rest: Seq<char>)
    ensures
        ({
            let text = prefix + escape(x) + seq!['"'] + mid + rest;
            &&& parse_text_at(text, prefix.len() as int) == Some(
                (x, prefix.len() + escape(x).len() as int + 1),
            )
            &&& match_at(text, prefix.len() + escape(x).len() as int + 1, mid)
        }),
{
    let text = prefix + escape(x) + seq!['"'] + mid + rest;
    assert(text =~= prefix + escape(x) + seq!['"'] + (mid + rest));
    lemma_parse_escaped(x, prefix, mid + rest);
    let p = prefix.len() + escape(x).len() as int + 1;
    assert(text.subrange(p, p + mid.len() as int) =~= mid);
}

/// One number field of the envelope: its decimal text and the literal that
/// introduces the next field.
proof fn lemma_int_step(n: int, prefix: Seq<char>, mid: Seq<char>, rest: Seq<char>)
    requires
        i64::MIN <= n <= i64::MAX,
        mid.len() > 0,
        !is_digit(mid[0]),
    ensures
        ({
            let text = prefix + dec_int(n) + mid + rest;
            &&& parse_i64_at(text, prefix.len() as int) == Some(
                (n, prefix.len() + dec_int(n).len() as int),
            )
            &&& match_at(text, prefix.len() + dec_int(n).len() as int, mid)
        }),
{
    let text = prefix + dec_int(n) + mid + rest;
    assert(text =~= prefix + dec_int(n) + (mid + rest));
    lemma_parse_dec_int(n, prefix, mid + rest);
    let p = prefix.len() + dec_int(n).len() as int;
    assert(text.subrange(p, p + mid.len() as int) =~= mid);
}

#[verifier::rlimit(100)]
proof fn lemma_env_rt_texts<E: Event>(env: EventEnvelopeView<E::V>)
    ensures
        ({
            let text = ser_envelope_of::<E>(env);
            let l0 = "{\"aggregate_id\":\""@;
            let m1 = ",\"aggregate_type\":\""@;
            let m2 = ",\"event\":\""@;
            let m3 = ",\"event_type\":\""@;
            let m4 = ",\"event_time\":"@;
            let a1 = l0.len() + escape(env.aggregate_id).len() as int + 1;
            let b1 = a1 + m1.len();
            let a2 = b1 + escape(env.aggregate_type).len() as int + 1;
            let b2 = a2 + m2.len();
            let a3 = b2 + escape(E::serial_of(env.event)).len() as int + 1;
            let b3 = a3 + m3.len();
            let a4 = b3 + escape(env.event_type).len() as int + 1;
            &&& match_at(text, 0, l0)
            &&& parse_text_at(text, l0.len() as int) == Some((env.aggregate_id, a1))
            &&& match_at(text, a1, m1)
            &&& parse_text_at(text, b1) == Some((env.aggregate_type, a2))
            &&& match_at(text, a2, m2)
            &&& parse_text_at(text, b2) == Some((E::serial_of(env.event), a3))
            &&& match_at(text, a3, m3)
            &&& parse_text_at(text, b3) == Some((env.event_type, a4))
            &&& match_at(text, a4, m4)
        }),
{
    let text = ser_envelope_of::<E>(env);
    let l0 = "{\"aggregate_id\":\""@;
    let m1 = ",\"aggregate_type\":\""@;
    let m2 = ",\"event\":\""@;
    let m3 = ",\"event_type\":\""@;
    let m4 = ",\"event_time\":"@;
    let m5 = ",\"sequence\":"@;
    let m6 = ",\"revision\":"@;
    let mm = ",\"metadata\":"@;
    let q = seq!['"'];
    let ea = escape(env.aggregate_id);
    let eb = escape(env.aggregate_type);
    let ec = escape(E::serial_of(env.event));
    let ed = escape(env.event_type);
    let t1 = dec_int(env.event_time);
    let t2 = dec_int(env.sequence);
    let t3 = dec_int(env.revision);
    let tail_meta = mm + ser_metadata(env.metadata) + seq!['}'];
    let pre1 = l0;
    let pre2 = pre1 + ea + q + m1;
    let pre3 = pre2 + eb + q + m2;
    let pre4 = pre3 + ec + q + m3;
    let rest4 = t1 + m5 + t2 + m6 + t3 + tail_meta;
    let rest3 = ed + q + m4 + rest4;
    let rest2 = ec + q + m3 + rest3;
    let rest1 = eb + q + m2 + rest2;
    assert(text.subrange(0, l0.len() as int) =~= l0);
    lemma_field_step(env.aggregate_id, pre1, m1, rest1);
    assert(text =~= pre1 + ea + q + m1 + rest1);
    lemma_field_step(env.aggregate_type, pre2, m2, rest2);
    assert(text =~= pre2 + eb + q + m2 + rest2);
    lemma_field_step(E::serial_of(env.event), pre3, m3, rest3);
    assert(text =~= pre3 + ec + q + m3 + rest3);
    lemma_field_step(env.event_type, pre4, m4, rest4);
    assert(text =~= pre4 + ed + q + m4 + rest4);
}

#[verifier::rlimit(100)]
proof fn lemma_env_rt_tail<E: Event>(env: EventEnvelopeView<E::V>)
    requires
        env.wf(),
        env.event_time <= i64::MAX,
        env.sequence <= i64::MAX,
        env.revision <= i64::MAX,
    ensures
        ({
            let text = ser_envelope_of::<E>(env);
            let l0 = "{\"aggregate_id\":\""@;
            let m1 = ",\"aggregate_type\":\""@;
            let m2 = ",\"event\":\""@;
            let m3 = ",\"event_type\":\""@;
            let m4 = ",\"event_time\":"@;
            let m5 = ",\"sequence\":"@;
            let m6 = ",\"revision\":"@;
            let m7 = ",\"metadata\":{"@;
            let a1 = l0.len() + escape(env.aggregate_id).len() as int + 1;
            let b1 = a1 + m1.len();
            let a2 = b1 + escape(env.aggregate_type).len() as int + 1;
            let b2 = a2 + m2.len();
            let a3 = b2 + escape(E::serial_of(env.event)).len() as int + 1;
            let b3 = a3 + m3.len();
            let a4 = b3 + escape(env.event_type).len() as int + 1;
            let b4 = a4 + m4.len();
            let a5 = b4 + dec_int(env.event_time).len() as int;
            let b5 = a5 + m5.len();
            let a6 = b5 + dec_int(env.sequence).len() as int;
            let b6 = a6 + m6.len();
            let a7 = b6 + dec_int(env.revision).len() as int;
            let b7 = a7 + m7.len();
            &&& parse_i64_at(text, b4) == Some((env.event_time, a5))
            &&& match_at(text, a5, m5)
            &&& parse_i64_at(text, b5) == Some((env.sequence, a6))
            &&& match_at(text, a6, m6)
            &&& parse_i64_at(text, b6) == Some((env.revision, a7))
            &&& match_at(text, a7, m7)
            &&& parse_metadata(text, b7) == Some((env.metadata, text.len() - 1))
            &&& text.len() >= 1
            &&& text[text.len() - 1] == '}'
            &&& b7 < text.len()
        }),
{
    let text = ser_envelope_of::<E>(env);
    let l0 = "{\"aggregate_id\":\""@;
    let m1 = ",\"aggregate_type\":\""@;
    let m2 = ",\"event\":\""@;
    let m3 = ",\"event_type\":\""@;
    let m4 = ",\"event_time\":"@;
    let m5 = ",\"sequence\":"@;
    let m6 = ",\"revision\":"@;
    let m7 = ",\"metadata\":{"@;
    let mm = ",\"metadata\":"@;
    reveal_strlit(",\"sequence\":");
    reveal_strlit(",\"revision\":");
    reveal_strlit(",\"metadata\":");
    reveal_strlit(",\"metadata\":{");
    let q = seq!['"'];
    let ea = escape(env.aggregate_id);
    let eb = escape(env.aggregate_type);
    let ec = escape(E::serial_of(env.event));
    let ed = escape(env.event_type);
    let t1 = dec_int(env.event_time);
    let t2 = dec_int(env.sequence);
    let t3 = dec_int(env.revision);
    let tail_meta = mm + ser_metadata(env.metadata) + seq!['}'];
    let pre5 = l0 + ea + q + m1 + eb + q + m2 + ec + q + m3 + ed + q + m4;
    let pre6 = pre5 + t1 + m5;
    let pre7 = pre6 + t2 + m6;
    lemma_int_step(env.event_time, pre5, m5, t2 + m6 + t3 + tail_meta);
    assert(text =~= pre5 + t1 + m5 + (t2 + m6 + t3 + tail_meta));
    lemma_int_step(env.sequence, pre6, m6, t3 + tail_meta);
    assert(text =~= pre6 + t2 + m6 + (t3 + tail_meta));
    lemma_int_step(env.revision, pre7, m7, ser_metadata(env.metadata).skip(1) + seq!['}']);
    assert(m7 =~= mm + seq!['{']);
    assert(ser_metadata(env.metadata)[0] == '{');
    assert(ser_metadata(env.metadata) =~= seq!['{'] + ser_metadata(env.metadata).skip(1));
    assert(text =~= pre7 + t3 + m7 + (ser_metadata(env.metadata).skip(1) + seq!['}']));
    let pre8 = pre7 + t3 + m7;
    let p8a = pre8.len() as int;
    let ps = env.metadata;
    if ps.len() == 0 {
        assert(ser_metadata(ps) =~= seq!['{', '}']);
        assert(text[p8a] == '}');
        assert(text[p8a + 1] == '}');
        assert(p8a + 2 == text.len());
    } else {
        assert(ser_metadata(ps).skip(1) =~= ser_pairs(ps));
        assert(text =~= pre8 + ser_pairs(ps) + seq!['}']);
        lemma_rt_pairs(pre8, ps, seq!['}']);
        assert(ser_pairs(ps).len() > 0);
        assert(ser_pairs(ps)[0] == '"');
        assert(text[p8a] == '"');
        let p8 = pre8.len() + ser_pairs(ps).len() as int;
        assert(text[p8] == '}');
        assert(p8 + 1 == text.len());
    }
}

/// Round trip of the envelope codec: parsing the canonical text of a
/// well-formed envelope yields that envelope again, whatever the payload
/// type — this is what makes the persisted stream a faithful record.
#[verifier::rlimit(100)]
pub proof fn lemma_envelope_round_trip<E: Event>(env: EventEnvelopeView<E::V>)
    requires
        env.wf(),
        env.event_time <= i64::MAX,
        env.sequence <= i64::MAX,
        env.revision <= i64::MAX,
    ensures
        parse_envelope_of::<E>(ser_envelope_of::<E>(env)) == Ok::<EventEnvelopeView<E::V>, Error>(
            env,
        ),
{
    lemma_env_rt_texts::<E>(env);
    lemma_env_rt_tail::<E>(env);
    E::lemma_round_trip(env.event);
    let text = ser_envelope_of::<E>(env);
    assert(parse_envelope_of::<E>(text) =~~= Ok::<EventEnvelopeView<E::V>, Error>(env));
}

} // verus!