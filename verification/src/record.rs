//! The textual event-record codec.
//!
//! An event is stored and filed as one line holding a JSON object in a fixed
//! canonical shape: `{"user_id":"<id>","event":"<label>","timestamp":<secs>}`
//! with no extra whitespace, the fields exactly in that order, and the two
//! strings escaped as below. `decode_event` accepts exactly this shape and
//! rejects records with misspelled, missing, reordered or wrong-typed fields.
//!
//! Inside a quoted string the characters `"` and `\` and the controls
//! newline, carriage return and tab are written `\"`, `\\`, `\n`, `\r`, `\t`;
//! every other character stands for itself. Escaping the line feed keeps one
//! record on one line of the per-day file.
use vstd::prelude::*;
use vstd::string::*;

use crate::text::{
    chars_to_string, is_digit, parse_u64_chars, spec_all_digits, spec_dec_digits, spec_dec_val,
    spec_is_digit, str_to_chars,
};
use crate::types::{AppError, LogEvent, LogEventView};

verus! {

/// How one character is written inside a quoted string.
pub open spec fn spec_escape_char(c: char) -> Seq<char> {
    if c == '"' {
        seq!['\\', '"']
    } else if c == '\\' {
        seq!['\\', '\\']
    } else if c == '\n' {
        seq!['\\', 'n']
    } else if c == '\r' {
        seq!['\\', 'r']
    } else if c == '\t' {
        seq!['\\', 't']
    } else {
        seq![c]
    }
}

/// The escaped form of a whole string.
pub open spec fn spec_escape(s: Seq<char>) -> Seq<char>
    decreases s.len(),
{
    if s.len() == 0 {
        Seq::empty()
    } else {
        spec_escape_char(s[0]) + spec_escape(s.skip(1))
    }
}

/// Escaping distributes over concatenation.
pub proof fn lemma_escape_concat(a: Seq<char>, b: Seq<char>)
    ensures
        spec_escape(a + b) == spec_escape(a) + spec_escape(b),
    decreases a.len(),
{
    if a.len() == 0 {
        assert(a + b =~= b);
        assert(spec_escape(a) + spec_escape(b) =~= spec_escape(b));
    } else {
        assert((a + b).skip(1) =~= a.skip(1) + b);
        lemma_escape_concat(a.skip(1), b);
        assert((a + b)[0] == a[0]);
        assert(spec_escape_char(a[0]) + (spec_escape(a.skip(1)) + spec_escape(b))
            =~= (spec_escape_char(a[0]) + spec_escape(a.skip(1))) + spec_escape(b));
    }
}

fn escape_char_into(c: char, out: &mut Vec<char>)
    ensures
        final(out)@ == old(out)@ + spec_escape_char(c),
{
    if c == '"' {
        out.push('\\');
        out.push('"');
    } else if c == '\\' {
        out.push('\\');
        out.push('\\');
    } else if c == '\n' {
        out.push('\\');
        out.push('n');
    } else if c == '\r' {
        out.push('\\');
        out.push('r');
    } else if c == '\t' {
        out.push('\\');
        out.push('t');
    } else {
        out.push(c);
    }
    proof {
        assert(final(out)@ =~= old(out)@ + spec_escape_char(c));
    }
}

/// Append the escaped form of `chars` to `out`.
fn push_escaped(chars: &Vec<char>, out: &mut Vec<char>)
    ensures
        final(out)@ == old(out)@ + spec_escape(chars@),
{
    let mut i: usize = 0;
    while i < chars.len()
        invariant
            i <= chars@.len(),
            out@ == old(out)@ + spec_escape(chars@.take(i as int)),
        decreases chars@.len() - i,
    {
        let ghost prefix = chars@.take(i as int);
        escape_char_into(chars[i], out);
        proof {
            lemma_escape_concat(prefix, seq![chars@[i as int]]);
            assert(prefix + seq![chars@[i as int]] =~= chars@.take(i + 1 as int));
            assert(seq![chars@[i as int]].skip(1) =~= Seq::<char>::empty());
            assert(spec_escape(Seq::<char>::empty()) =~= Seq::<char>::empty());
            assert(spec_escape(seq![chars@[i as int]]) =~= spec_escape_char(chars@[i as int]));
            assert((old(out)@ + spec_escape(prefix)) + spec_escape_char(chars@[i as int])
                =~= old(out)@ + spec_escape(chars@.take(i + 1 as int)));
        }
        i = i + 1;
    }
    proof {
        assert(chars@.take(chars@.len() as int) =~= chars@);
    }
}

/// The character an escape code stands for, if the code is valid.
pub open spec fn spec_unescape_code(c: char) -> Option<char> {
    if c == '"' {
        Some('"')
    } else if c == '\\' {
        Some('\\')
    } else if c == 'n' {
        Some('\n')
    } else if c == 'r' {
        Some('\r')
    } else if c == 't' {
        Some('\t')
    } else {
        None
    }
}

fn unescape_code(c: char) -> (r: Option<char>)
    ensures
        r == spec_unescape_code(c),
{
    if c == '"' {
        Some('"')
    } else if c == '\\' {
        Some('\\')
    } else if c == 'n' {
        Some('\n')
    } else if c == 'r' {
        Some('\r')
    } else if c == 't' {
        Some('\t')
    } else {
        None
    }
}

/// Read a quoted-string body from the front of `s` up to and including the
/// closing quote: the result is the unescaped content and what follows the
/// closing quote, or nothing if `s` ends before an unescaped quote or holds
/// an invalid escape.
pub open spec fn spec_unescape_prefix(s: Seq<char>) -> Option<(Seq<char>, Seq<char>)>
    decreases s.len(),
{
    if s.len() == 0 {
        None
    } else if s[0] == '"' {
        Some((Seq::empty(), s.skip(1)))
    } else if s[0] == '\\' {
        if s.len() < 2 {
            None
        } else {
            match spec_unescape_code(s[1]) {
                None => None,
                Some(ch) => match spec_unescape_prefix(s.skip(2)) {
                    None => None,
                    Some(p) => Some((seq![ch] + p.0, p.1)),
                },
            }
        }
    } else {
        match spec_unescape_prefix(s.skip(1)) {
            None => None,
            Some(p) => Some((seq![s[0]] + p.0, p.1)),
        }
    }
}

/// Unescaping undoes escaping: an escaped string followed by a closing quote
/// reads back as the original string, leaving the remainder untouched.
pub proof fn lemma_unescape_escape(s: Seq<char>, rest: Seq<char>)
    ensures
        spec_unescape_prefix(spec_escape(s) + seq!['"'] + rest) == Some((s, rest)),
    decreases s.len(),
{
    let t = spec_escape(s) + seq!['"'] + rest;
    if s.len() == 0 {
        assert(t =~= seq!['"'] + rest);
        assert(t[0] == '"');
        assert(t.skip(1) =~= rest);
        assert(spec_unescape_prefix(t) == Some((Seq::<char>::empty(), rest)));
        assert(s =~= Seq::<char>::empty());
    } else {
        let c = s[0];
        lemma_unescape_escape(s.skip(1), rest);
        let t1 = spec_escape(s.skip(1)) + seq!['"'] + rest;
        assert(spec_escape(s) == spec_escape_char(c) + spec_escape(s.skip(1)));
        if c == '"' || c == '\\' || c == '\n' || c == '\r' || c == '\t' {
            assert(spec_escape_char(c).len() == 2);
            assert(t.len() >= 2);
            assert(t[0] == '\\');
            assert(spec_unescape_code(t[1]) == Some(c));
            assert(t.skip(2) =~= t1);
            assert(seq![c] + s.skip(1) =~= s);
        } else {
            assert(t[0] == c);
            assert(t[0] != '"' && t[0] != '\\');
            assert(t.skip(1) =~= t1);
            assert(seq![c] + s.skip(1) =~= s);
        }
    }
}

/// Prepend already-read content to the result of reading the rest.
pub open spec fn spec_prepend(
    prefix: Seq<char>,
    r: Option<(Seq<char>, Seq<char>)>,
) -> Option<(Seq<char>, Seq<char>)> {
    match r {
        None => None,
        Some(p) => Some((prefix + p.0, p.1)),
    }
}

/// Read a quoted-string body starting at `start`; on success return the
/// content and the index just past the closing quote.
fn scan_quoted(chars: &Vec<char>, start: usize) -> (r: Option<(Vec<char>, usize)>)
    requires
        start <= chars@.len(),
    ensures
        match r {
            Some(p) => {
                &&& start <= p.1 <= chars@.len()
                &&& spec_unescape_prefix(chars@.skip(start as int)) == Some(
                    (p.0@, chars@.skip(p.1 as int)),
                )
            },
            None => spec_unescape_prefix(chars@.skip(start as int)) is None,
        },
{
    let mut pos: usize = start;
    let mut out: Vec<char> = Vec::new();
    loop
        invariant
            start <= pos <= chars@.len(),
            spec_unescape_prefix(chars@.skip(start as int)) == spec_prepend(
                out@,
                spec_unescape_prefix(chars@.skip(pos as int)),
            ),
        decreases chars@.len() - pos,
    {
        let ghost tail = chars@.skip(pos as int);
        if pos == chars.len() {
            assert(tail =~= Seq::<char>::empty());
            return None;
        }
        let c = chars[pos];
        assert(tail[0] == c);
        if c == '"' {
            assert(tail.skip(1) =~= chars@.skip(pos + 1 as int));
            let next = pos + 1;
            proof {
                assert(out@ + Seq::<char>::empty() =~= out@);
            }
            return Some((out, next));
        } else if c == '\\' {
            if pos + 1 == chars.len() {
                assert(tail.len() < 2);
                return None;
            }
            let code = chars[pos + 1];
            assert(tail[1] == code);
            match unescape_code(code) {
                None => {
                    return None;
                },
                Some(ch) => {
                    assert(tail.skip(2) =~= chars@.skip(pos + 2 as int));
                    let ghost out_old = out@;
                    out.push(ch);
                    pos = pos + 2;
                    proof {
                        let inner = spec_unescape_prefix(chars@.skip(pos as int));
                        if inner is Some {
                            let p = inner->0;
                            assert(out_old + (seq![ch] + p.0) =~= out@ + p.0);
                        }
                    }
                },
            }
        } else {
            assert(tail.skip(1) =~= chars@.skip(pos + 1 as int));
            let ghost out_old = out@;
            out.push(c);
            pos = pos + 1;
            proof {
                let inner = spec_unescape_prefix(chars@.skip(pos as int));
                if inner is Some {
                    let p = inner->0;
                    assert(out_old + (seq![c] + p.0) =~= out@ + p.0);
                }
            }
        }
    }
}

/// Strip an expected literal from the front of `s`, or fail.
pub open spec fn spec_match_lit(s: Seq<char>, lit: Seq<char>) -> Option<Seq<char>> {
    if lit.len() <= s.len() && s.take(lit.len() as int) == lit {
        Some(s.skip(lit.len() as int))
    } else {
        None
    }
}

/// Strip the literal `lit` at position `pos`; on success return the index
/// just past it.
pub(crate) fn match_lit(chars: &Vec<char>, pos: usize, lit: &str) -> (r: Option<usize>)
    requires
        pos <= chars@.len(),
    ensures
        match r {
            Some(next) => {
                &&& pos <= next <= chars@.len()
                &&& spec_match_lit(chars@.skip(pos as int), lit@) == Some(
                    chars@.skip(next as int),
                )
            },
            None => spec_match_lit(chars@.skip(pos as int), lit@) is None,
        },
{
    let n = lit.unicode_len();
    if chars.len() - pos < n {
        assert(chars@.skip(pos as int).len() < lit@.len());
        return None;
    }
    let mut j: usize = 0;
    while j < n
        invariant
            pos + n <= chars@.len() <= usize::MAX,
            n == lit@.len(),
            j <= n,
            forall|k: int| 0 <= k < j ==> chars@[pos + k] == lit@[k],
        decreases n - j,
    {
        let c = chars[pos + j];
        let l = lit.get_char(j);
        if c != l {
            assert(chars@.skip(pos as int).take(lit@.len() as int)[j as int] != lit@[j as int]);
            return None;
        }
        j = j + 1;
    }
    proof {
        assert(chars@.skip(pos as int).take(n as int) =~= lit@);
        assert(chars@.skip(pos as int).skip(n as int) =~= chars@.skip(pos + n));
    }
    Some(pos + n)
}

/// The number of leading decimal digits of `s`.
pub open spec fn spec_digit_prefix_len(s: Seq<char>) -> int
    decreases s.len(),
{
    if s.len() == 0 || !spec_is_digit(s[0]) {
        0
    } else {
        1 + spec_digit_prefix_len(s.skip(1))
    }
}

/// A run of digits followed by anything that does not start with a digit has
/// exactly that run as its digit prefix.
pub proof fn lemma_digit_prefix_of_digits(d: Seq<char>, s: Seq<char>)
    requires
        spec_all_digits(d),
        s.len() == 0 || !spec_is_digit(s[0]),
    ensures
        spec_digit_prefix_len(d + s) == d.len(),
    decreases d.len(),
{
    if d.len() == 0 {
        assert(d + s =~= s);
    } else {
        assert((d + s)[0] == d[0]);
        assert((d + s).skip(1) =~= d.skip(1) + s);
        assert(spec_all_digits(d.skip(1)));
        lemma_digit_prefix_of_digits(d.skip(1), s);
    }
}

/// Decode one record line: the canonical object shape described at the top
/// of this module, or nothing.
pub open spec fn spec_decode_event(s: Seq<char>) -> Option<LogEventView> {
    match spec_match_lit(s, "{\"user_id\":\""@) {
        None => None,
        Some(s1) => match spec_unescape_prefix(s1) {
            None => None,
            Some(p1) => match spec_match_lit(p1.1, ",\"event\":\""@) {
                None => None,
                Some(s2) => match spec_unescape_prefix(s2) {
                    None => None,
                    Some(p2) => match spec_match_lit(p2.1, ",\"timestamp\":"@) {
                        None => None,
                        Some(s3) => {
                            let dl = spec_digit_prefix_len(s3);
                            if dl >= 1 && spec_dec_val(s3.take(dl)) <= u64::MAX && s3.skip(dl)
                                == seq!['}'] {
                                Some(
                                    LogEventView {
                                        user_id: p1.0,
                                        event: p2.0,
                                        timestamp: spec_dec_val(s3.take(dl)) as u64,
                                    },
                                )
                            } else {
                                None
                            }
                        },
                    },
                },
            },
        },
    }
}

/// Serialize an event to its one-line record.
pub fn encode_event(e: &LogEvent) -> (line: String)
    ensures
        line@ == spec_encode_event(e@),
{
    let mut out: Vec<char> = Vec::new();
    let mut lit1 = str_to_chars("{\"user_id\":\"");
    let mut lit2 = str_to_chars(",\"event\":\"");
    let mut lit3 = str_to_chars(",\"timestamp\":");
    let uid = str_to_chars(e.user_id.as_str());
    let ev = str_to_chars(e.event.as_str());
    out.append(&mut lit1);
    push_escaped(&uid, &mut out);
    out.push('"');
    out.append(&mut lit2);
    push_escaped(&ev, &mut out);
    out.push('"');
    out.append(&mut lit3);
    crate::text::push_dec_digits(e.timestamp, &mut out);
    out.push('}');
    proof {
        reveal_strlit("\"");
        reveal_strlit("}");
        assert("\""@ =~= seq!['"']);
        assert("}"@ =~= seq!['}']);
        assert(out@ =~= spec_encode_event(e@));
    }
    chars_to_string(&out)
}

/// The one-line record an event is serialized to.
pub open spec fn spec_encode_event(e: LogEventView) -> Seq<char> {
    "{\"user_id\":\""@ + spec_escape(e.user_id) + "\""@ + ",\"event\":\""@ + spec_escape(e.event)
        + "\""@ + ",\"timestamp\":"@ + spec_dec_digits(e.timestamp as int) + "}"@
}

/// Parse one record line back into an event. Succeeds exactly on the
/// canonical record shape; anything else is a parse error.
pub fn decode_event(line: &str) -> (r: Result<LogEvent, AppError>)
    ensures
        r is Ok ==> spec_decode_event(line@) == Some(r->Ok_0@),
        r is Err ==> spec_decode_event(line@) is None && r->Err_0 is JsonParseError,
{
    let chars = str_to_chars(line);
    let pos0 = match match_lit(&chars, 0, "{\"user_id\":\"") {
        Some(p) => p,
        None => {
            proof {
                assert(chars@.skip(0) =~= chars@);
            }
            return Err(record_error());
        },
    };
    proof {
        assert(chars@.skip(0) =~= chars@);
    }
    let (uid, pos1) = match scan_quoted(&chars, pos0) {
        Some(p) => p,
        None => {
            return Err(record_error());
        },
    };
    let pos2 = match match_lit(&chars, pos1, ",\"event\":\"") {
        Some(p) => p,
        None => {
            return Err(record_error());
        },
    };
    let (ev, pos3) = match scan_quoted(&chars, pos2) {
        Some(p) => p,
        None => {
            return Err(record_error());
        },
    };
    let pos4 = match match_lit(&chars, pos3, ",\"timestamp\":") {
        Some(p) => p,
        None => {
            return Err(record_error());
        },
    };
    let ghost s3 = chars@.skip(pos4 as int);
    let mut j: usize = pos4;
    let mut digits: Vec<char> = Vec::new();
    while j < chars.len() && is_digit(chars[j])
        invariant
            pos4 <= j <= chars@.len(),
            s3 == chars@.skip(pos4 as int),
            digits@ == chars@.subrange(pos4 as int, j as int),
            spec_all_digits(digits@),
            spec_digit_prefix_len(s3) == (j - pos4) + spec_digit_prefix_len(
                chars@.skip(j as int),
            ),
        decreases chars@.len() - j,
    {
        let ghost tail = chars@.skip(j as int);
        proof {
            assert(tail[0] == chars@[j as int]);
            assert(tail.skip(1) =~= chars@.skip(j + 1 as int));
            assert(chars@.subrange(pos4 as int, j as int).push(chars@[j as int])
                =~= chars@.subrange(pos4 as int, j + 1 as int));
        }
        digits.push(chars[j]);
        j = j + 1;
    }
    proof {
        let tail = chars@.skip(j as int);
        if j < chars@.len() {
            assert(tail[0] == chars@[j as int]);
            assert(!spec_is_digit(tail[0]));
        } else {
            assert(tail.len() == 0);
        }
        assert(spec_digit_prefix_len(tail) == 0);
        assert(spec_digit_prefix_len(s3) == j - pos4);
        assert(digits@ =~= s3.take(spec_digit_prefix_len(s3)));
    }
    let timestamp = match parse_u64_chars(&digits) {
        Some(v) => v,
        None => {
            return Err(record_error());
        },
    };
    if chars.len() - j != 1 {
        proof {
            let tail = chars@.skip(j as int);
            assert(tail.len() != 1);
            assert(s3.skip(j - pos4) =~= tail);
        }
        return Err(record_error());
    }
    let close = chars[j];
    proof {
        assert(chars@.skip(j as int)[0] == chars@[j as int]);
        assert(s3.skip(j - pos4) =~= chars@.skip(j as int));
    }
    if close != '}' {
        proof {
            assert(chars@.skip(j as int)[0] != '}');
            assert(seq!['}'][0] == '}');
            assert(chars@.skip(j as int) != seq!['}']);
        }
        return Err(record_error());
    }
    proof {
        assert(chars@.skip(j as int) =~= seq!['}']);
    }
    let event = LogEvent {
        user_id: chars_to_string(&uid),
        event: chars_to_string(&ev),
        timestamp,
    };
    proof {
        let decoded = spec_decode_event(chars@);
        assert(decoded == Some(event@));
    }
    Ok(event)
}

fn record_error() -> (e: AppError)
    ensures
        e is JsonParseError,
{
    let mut msg = String::new();
    msg.append("record does not match the canonical event shape");
    AppError::JsonParseError(msg)
}

/// Round trip: decoding a serialized event yields the event back, all three
/// fields preserved exactly.
pub proof fn lemma_decode_encode(e: LogEventView)
    ensures
        spec_decode_event(spec_encode_event(e)) == Some(e),
{
    reveal_strlit("{\"user_id\":\"");
    reveal_strlit(",\"event\":\"");
    reveal_strlit(",\"timestamp\":");
    reveal_strlit("\"");
    reveal_strlit("}");
    let lit1 = "{\"user_id\":\""@;
    let lit2 = ",\"event\":\""@;
    let lit3 = ",\"timestamp\":"@;
    let q = "\""@;
    let dig = spec_dec_digits(e.timestamp as int);
    let t = spec_encode_event(e);
    let tail1 = spec_escape(e.user_id) + q + lit2 + spec_escape(e.event) + q + lit3 + dig + "}"@;
    assert(t =~= lit1 + tail1);
    assert(t.take(lit1.len() as int) =~= lit1);
    assert(t.skip(lit1.len() as int) =~= tail1);
    assert(spec_match_lit(t, lit1) == Some(tail1));

    let rest1 = lit2 + spec_escape(e.event) + q + lit3 + dig + "}"@;
    assert(q =~= seq!['"']);
    assert(tail1 =~= spec_escape(e.user_id) + seq!['"'] + rest1);
    lemma_unescape_escape(e.user_id, rest1);
    assert(spec_unescape_prefix(tail1) == Some((e.user_id, rest1)));

    let tail2 = spec_escape(e.event) + q + lit3 + dig + "}"@;
    assert(rest1.take(lit2.len() as int) =~= lit2);
    assert(rest1.skip(lit2.len() as int) =~= tail2);
    assert(spec_match_lit(rest1, lit2) == Some(tail2));

    let rest2 = lit3 + dig + "}"@;
    assert(tail2 =~= spec_escape(e.event) + seq!['"'] + rest2);
    lemma_unescape_escape(e.event, rest2);
    assert(spec_unescape_prefix(tail2) == Some((e.event, rest2)));

    let tail3 = dig + "}"@;
    assert(rest2.take(lit3.len() as int) =~= lit3);
    assert(rest2.skip(lit3.len() as int) =~= tail3);
    assert(spec_match_lit(rest2, lit3) == Some(tail3));

    crate::text::lemma_dec_digits_val(e.timestamp as int);
    assert("}"@ =~= seq!['}']);
    assert(!spec_is_digit('}'));
    lemma_digit_prefix_of_digits(dig, "}"@);
    assert(spec_digit_prefix_len(tail3) == dig.len());
    assert(tail3.take(dig.len() as int) =~= dig);
    assert(tail3.skip(dig.len() as int) =~= seq!['}']);
    assert(spec_dec_val(tail3.take(spec_digit_prefix_len(tail3))) == e.timestamp);
}

} // verus!
