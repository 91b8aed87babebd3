//! The configuration file format: a single flat record written as
//!
//! `{"app_id":"...","details":"...","state":"...","party":[1,4],
//! "image_large":["...","..."],"image_small":["...","..."]}`
//!
//! `encode_config` writes a configuration in exactly this shape, escaping
//! quotes, backslashes and the common control characters inside strings;
//! `parse_config` reads it back. Writing and then reading yields the
//! original record in every field (`lemma_codec_round_trip`).

use vstd::prelude::*;
use vstd::string::{StrSliceExecFns, StringExecFns};

use crate::config::{ConfigView, PresenceConfig};

verus! {

// ---------------------------------------------------------------------------
// String escaping
// ---------------------------------------------------------------------------
/// How one character appears inside a quoted string: the quote, the
/// backslash and five control characters get a two-character escape,
/// every other character stands for itself.
pub open spec fn escape_char(c: char) -> Seq<char> {
    if c == '"' {
        seq!['\\', '"']
    } else if c == '\\' {
        seq!['\\', '\\']
    } else if c == '\n' {
        seq!['\\', 'n']
    } else if c == '\t' {
        seq!['\\', 't']
    } else if c == '\r' {
        seq!['\\', 'r']
    } else if c == '\u{8}' {
        seq!['\\', 'b']
    } else if c == '\u{c}' {
        seq!['\\', 'f']
    } else {
        seq![c]
    }
}

/// A whole string escaped character by character.
pub open spec fn escape_seq(s: Seq<char>) -> Seq<char>
    decreases s.len(),
{
    if s.len() == 0 {
        Seq::empty()
    } else {
        escape_char(s[0]) + escape_seq(s.skip(1))
    }
}

/// The character an escape code stands for, if it is a known code.
pub open spec fn unescape_char(e: char) -> Option<char> {
    if e == '"' {
        Some('"')
    } else if e == '\\' {
        Some('\\')
    } else if e == '/' {
        Some('/')
    } else if e == 'n' {
        Some('\n')
    } else if e == 't' {
        Some('\t')
    } else if e == 'r' {
        Some('\r')
    } else if e == 'b' {
        Some('\u{8}')
    } else if e == 'f' {
        Some('\u{c}')
    } else {
        None
    }
}

/// A string field as written: quoted and escaped.
pub open spec fn enc_str(s: Seq<char>) -> Seq<char> {
    seq!['"'] + escape_seq(s) + seq!['"']
}

// ---------------------------------------------------------------------------
// Decimal numbers
// ---------------------------------------------------------------------------
/// The character of one decimal digit value.
pub open spec fn digit_char(d: int) -> char {
    ((d + 48) as u8) as char
}

/// The digit value of a character, meaningful when `is_digit` holds.
pub open spec fn digit_val(c: char) -> int {
    c as int - 48
}

/// Whether the character is a decimal digit.
pub open spec fn is_digit(c: char) -> bool {
    48 <= c as int <= 57
}

/// The decimal notation of a nonnegative number, most significant digit
/// first, without leading zeros.
pub open spec fn dec_digits(n: int) -> Seq<char>
    decreases n,
{
    if n < 10 {
        seq![digit_char(n)]
    } else {
        dec_digits(n / 10) + seq![digit_char(n % 10)]
    }
}

/// How many leading characters of `s` are digits.
pub open spec fn digit_count(s: Seq<char>) -> int
    decreases s.len(),
{
    if s.len() > 0 && is_digit(s[0]) {
        1 + digit_count(s.skip(1))
    } else {
        0
    }
}

/// The value of a digit string, read most significant digit first.
pub open spec fn digits_value(d: Seq<char>) -> int
    decreases d.len(),
{
    if d.len() == 0 {
        0
    } else {
        digits_value(d.take(d.len() - 1)) * 10 + digit_val(d[d.len() - 1])
    }
}

// ---------------------------------------------------------------------------
// Parsing combinators
// ---------------------------------------------------------------------------
/// Consumes `lit` from the front of `s` and yields the rest.
pub open spec fn parse_exact(s: Seq<char>, lit: Seq<char>) -> Option<Seq<char>> {
    if lit.len() <= s.len() && s.take(lit.len() as int) == lit {
        Some(s.skip(lit.len() as int))
    } else {
        None
    }
}

/// Consumes an escaped string body up to and including the closing quote,
/// yielding the unescaped content and the rest.
pub open spec fn parse_string_body(s: Seq<char>) -> Option<(Seq<char>, Seq<char>)>
    decreases s.len(),
{
    if s.len() == 0 {
        None
    } else if s[0] == '"' {
        Some((Seq::empty(), s.skip(1)))
    } else if s[0] == '\\' {
        if s.len() < 2 {
            None
        } else {
            match unescape_char(s[1]) {
                Some(c) => match parse_string_body(s.skip(2)) {
                    Some(pr) => Some((seq![c] + pr.0, pr.1)),
                    None => None,
                },
                None => None,
            }
        }
    } else {
        match parse_string_body(s.skip(1)) {
            Some(pr) => Some((seq![s[0]] + pr.0, pr.1)),
            None => None,
        }
    }
}

/// Consumes one quoted, escaped string field.
pub open spec fn parse_quoted(s: Seq<char>) -> Option<(Seq<char>, Seq<char>)> {
    if s.len() >= 1 && s[0] == '"' {
        parse_string_body(s.skip(1))
    } else {
        None
    }
}

/// Consumes one decimal number that fits in a `u32`.
pub open spec fn parse_number(s: Seq<char>) -> Option<(u32, Seq<char>)> {
    let k = digit_count(s);
    if k >= 1 && digits_value(s.take(k)) <= u32::MAX {
        Some((digits_value(s.take(k)) as u32, s.skip(k)))
    } else {
        None
    }
}

// ---------------------------------------------------------------------------
// The record
// ---------------------------------------------------------------------------
/// The exact text `encode_config` writes for a configuration.
pub open spec fn spec_encode_config(c: ConfigView) -> Seq<char> {
    "{\"app_id\":"@ + enc_str(c.app_id) + ",\"details\":"@ + enc_str(c.details) + ",\"state\":"@
        + enc_str(c.state) + ",\"party\":["@ + dec_digits(c.party.0 as int) + seq![',']
        + dec_digits(c.party.1 as int) + "],\"image_large\":["@ + enc_str(c.image_large.0)
        + seq![','] + enc_str(c.image_large.1) + "],\"image_small\":["@ + enc_str(c.image_small.0)
        + seq![','] + enc_str(c.image_small.1) + "]}"@
}

/// What `parse_config` accepts: the record fields in their fixed order,
/// with nothing left over at the end.
pub open spec fn parse_config_seq(s: Seq<char>) -> Option<ConfigView> {
    match parse_exact(s, "{\"app_id\":"@) {
        None => None,
        Some(s1) => match parse_quoted(s1) {
            None => None,
            Some((app_id, s2)) => match parse_exact(s2, ",\"details\":"@) {
                None => None,
                Some(s3) => match parse_quoted(s3) {
                    None => None,
                    Some((details, s4)) => match parse_exact(s4, ",\"state\":"@) {
                        None => None,
                        Some(s5) => match parse_quoted(s5) {
                            None => None,
                            Some((state_text, s6)) => match parse_exact(s6, ",\"party\":["@) {
                                None => None,
                                Some(s7) => match parse_number(s7) {
                                    None => None,
                                    Some((p0, s8)) => match parse_exact(s8, seq![',']) {
                                        None => None,
                                        Some(s9) => match parse_number(s9) {
                                            None => None,
                                            Some((p1, s10)) => parse_config_tail(
                                                s10,
                                                app_id,
                                                details,
                                                state_text,
                                                p0,
                                                p1,
                                            ),
                                        },
                                    },
                                },
                            },
                        },
                    },
                },
            },
        },
    }
}

/// The image half of the record, after the party pair.
pub open spec fn parse_config_tail(
    s: Seq<char>,
    app_id: Seq<char>,
    details: Seq<char>,
    state_text: Seq<char>,
    p0: u32,
    p1: u32,
) -> Option<ConfigView> {
    match parse_exact(s, "],\"image_large\":["@) {
        None => None,
        Some(s1) => match parse_quoted(s1) {
            None => None,
            Some((lk, s2)) => match parse_exact(s2, seq![',']) {
                None => None,
                Some(s3) => match parse_quoted(s3) {
                    None => None,
                    Some((lt, s4)) => match parse_exact(s4, "],\"image_small\":["@) {
                        None => None,
                        Some(s5) => match parse_quoted(s5) {
                            None => None,
                            Some((sk, s6)) => match parse_exact(s6, seq![',']) {
                                None => None,
                                Some(s7) => match parse_quoted(s7) {
                                    None => None,
                                    Some((st, s8)) => match parse_exact(s8, "]}"@) {
                                        None => None,
                                        Some(s9) => if s9.len() == 0 {
                                            Some(
                                                ConfigView {
                                                    app_id,
                                                    details,
                                                    state: state_text,
                                                    party: (p0, p1),
                                                    image_large: (lk, lt),
                                                    image_small: (sk, st),
                                                },
                                            )
                                        } else {
                                            None
                                        },
                                    },
                                },
                            },
                        },
                    },
                },
            },
        },
    }
}

// ---------------------------------------------------------------------------
// Encoding, executable
// ---------------------------------------------------------------------------
/// Relies on String::push: appends exactly the one character.
#[verifier::external_body]
fn push_char(out: &mut String, c: char)
    ensures
        final (out)@ == old(out)@ + seq![c],
{
    out.push(c);
}

/// Escaping one more character extends the escaped text.
proof fn lemma_escape_seq_snoc(s: Seq<char>, c: char)
    ensures
        escape_seq(s.push(c)) == escape_seq(s) + escape_char(c),
    decreases s.len(),
{
    if s.len() == 0 {
        assert(s.push(c) =~= seq![c]);
        assert(seq![c][0] == c);
        assert(escape_seq(seq![c]) == escape_char(c) + escape_seq(seq![c].skip(1)));
        assert(seq![c].skip(1) =~= Seq::<char>::empty());
        assert(escape_seq(Seq::<char>::empty()) == Seq::<char>::empty());
        assert(escape_char(c) + Seq::<char>::empty() =~= escape_char(c));
        assert(escape_seq(s) == Seq::<char>::empty());
        assert(Seq::<char>::empty() + escape_char(c) =~= escape_char(c));
    } else {
        assert(s.push(c)[0] == s[0]);
        assert(s.push(c).skip(1) =~= s.skip(1).push(c));
        lemma_escape_seq_snoc(s.skip(1), c);
        assert(escape_char(s[0]) + (escape_seq(s.skip(1)) + escape_char(c)) =~= (escape_char(s[0])
            + escape_seq(s.skip(1))) + escape_char(c));
    }
}

/// Appends the quoted, escaped form of `s` to `out`.
fn push_quoted(out: &mut String, s: &String)
    ensures
        final (out)@ == old(out)@ + enc_str(s@),
{
    push_char(out, '"');
    let n = s.as_str().unicode_len();
    let mut i: usize = 0;
    while i < n
        invariant
            n == s@.len(),
            0 <= i <= n,
            out@ == old(out)@ + seq!['"'] + escape_seq(s@.take(i as int)),
        decreases n - i,
    {
        let c = s.as_str().get_char(i);
        proof {
            lemma_escape_seq_snoc(s@.take(i as int), c);
            assert(s@.take(i as int).push(c) =~= s@.take(i as int + 1));
        }
        if c == '"' {
            push_char(out, '\\');
            push_char(out, '"');
        } else if c == '\\' {
            push_char(out, '\\');
            push_char(out, '\\');
        } else if c == '\n' {
            push_char(out, '\\');
            push_char(out, 'n');
        } else if c == '\t' {
            push_char(out, '\\');
            push_char(out, 't');
        } else if c == '\r' {
            push_char(out, '\\');
            push_char(out, 'r');
        } else if c == '\u{8}' {
            push_char(out, '\\');
            push_char(out, 'b');
        } else if c == '\u{c}' {
            push_char(out, '\\');
            push_char(out, 'f');
        } else {
            push_char(out, c);
        }
        proof {
            assert(out@ =~= old(out)@ + seq!['"'] + escape_seq(s@.take(i as int + 1)));
        }
        i = i + 1;
    }
    proof {
        assert(s@.take(n as int) =~= s@);
    }
    push_char(out, '"');
    proof {
        assert(out@ =~= old(out)@ + enc_str(s@));
    }
}

/// Appends the decimal notation of `n` to `out`.
fn push_u32(out: &mut String, n: u32)
    ensures
        final (out)@ == old(out)@ + dec_digits(n as int),
{
    let mut rev: Vec<char> = Vec::new();
    let mut m: u32 = n;
    proof {
        assert(dec_digits(n as int) =~= dec_digits(n as int) + rev@.reverse());
    }
    while m >= 10
        invariant
            dec_digits(n as int) == dec_digits(m as int) + rev@.reverse(),
        decreases m,
    {
        let d: char = ((m % 10) as u8 + 48) as char;
        proof {
            assert(d == digit_char((m % 10) as int));
            assert(dec_digits(m as int) == dec_digits((m / 10) as int) + seq![
                digit_char((m % 10) as int),
            ]);
            assert(rev@.push(d).reverse() =~= seq![d] + rev@.reverse());
            assert(dec_digits((m / 10) as int) + (seq![d] + rev@.reverse()) =~= (dec_digits(
                (m / 10) as int,
            ) + seq![d]) + rev@.reverse());
        }
        rev.push(d);
        m = m / 10;
    }
    let d: char = (m as u8 + 48) as char;
    proof {
        assert(d == digit_char(m as int));
        assert(dec_digits(m as int) =~= seq![d]);
        assert(rev@.push(d).reverse() =~= seq![d] + rev@.reverse());
    }
    rev.push(d);
    proof {
        assert(dec_digits(n as int) =~= rev@.reverse());
    }
    let k = rev.len();
    let mut j: usize = 0;
    while j < k
        invariant
            k == rev@.len(),
            0 <= j <= k,
            out@ == old(out)@ + rev@.reverse().take(j as int),
        decreases k - j,
    {
        let c = rev[k - 1 - j];
        proof {
            assert(rev@.reverse()[j as int] == rev@[k as int - 1 - j as int]);
            assert(rev@.reverse().take(j as int + 1) =~= rev@.reverse().take(j as int) + seq![c]);
        }
        push_char(out, c);
        j = j + 1;
    }
    proof {
        assert(rev@.reverse().take(k as int) =~= rev@.reverse());
    }
}

/// Writes the configuration in the file format: every field in order, the
/// exact text `spec_encode_config` describes.
pub fn encode_config(c: &PresenceConfig) -> (r: String)
    ensures
        r@ == spec_encode_config(c@),
{
    let mut out = String::new();
    out.append("{\"app_id\":");
    push_quoted(&mut out, &c.app_id);
    out.append(",\"details\":");
    push_quoted(&mut out, &c.details);
    out.append(",\"state\":");
    push_quoted(&mut out, &c.state);
    out.append(",\"party\":[");
    push_u32(&mut out, c.party.0);
    push_char(&mut out, ',');
    push_u32(&mut out, c.party.1);
    out.append("],\"image_large\":[");
    push_quoted(&mut out, &c.image_large.0);
    push_char(&mut out, ',');
    push_quoted(&mut out, &c.image_large.1);
    out.append("],\"image_small\":[");
    push_quoted(&mut out, &c.image_small.0);
    push_char(&mut out, ',');
    push_quoted(&mut out, &c.image_small.1);
    out.append("]}");
    proof {
        assert(out@ =~= spec_encode_config(c@));
    }
    out
}

// ---------------------------------------------------------------------------
// Round trip: parsing inverts encoding
// ---------------------------------------------------------------------------
/// A literal at the front of a text parses off exactly.
proof fn lemma_parse_exact_prefix(lit: Seq<char>, rest: Seq<char>)
    ensures
        parse_exact(lit + rest, lit) == Some(rest),
{
    assert((lit + rest).take(lit.len() as int) =~= lit);
    assert((lit + rest).skip(lit.len() as int) =~= rest);
}

/// Escaped content followed by the closing quote parses back to exactly the
/// content, leaving the rest untouched.
proof fn lemma_parse_escaped(content: Seq<char>, rest: Seq<char>)
    ensures
        parse_string_body(escape_seq(content) + seq!['"'] + rest) == Some((content, rest)),
    decreases content.len(),
{
    let s = escape_seq(content) + seq!['"'] + rest;
    if content.len() == 0 {
        assert(escape_seq(content) =~= Seq::<char>::empty());
        assert(s =~= seq!['"'] + rest);
        assert(s[0] == '"');
        assert(s.skip(1) =~= rest);
    } else {
        let c = content[0];
        let tail = content.skip(1);
        lemma_parse_escaped(tail, rest);
        let s2 = escape_seq(tail) + seq!['"'] + rest;
        assert(escape_seq(content) == escape_char(c) + escape_seq(tail));
        assert(s =~= escape_char(c) + s2);
        assert(seq![c] + tail =~= content);
        if c == '"' || c == '\\' || c == '\n' || c == '\t' || c == '\r' || c == '\u{8}' || c
            == '\u{c}' {
            let e = escape_char(c)[1];
            assert(escape_char(c).len() == 2 && escape_char(c)[0] == '\\');
            assert(unescape_char(e) == Some(c));
            assert(s[0] == '\\');
            assert(s.len() >= 2);
            assert(s[1] == e);
            assert(s.skip(2) =~= s2);
            assert(parse_string_body(s) == Some((seq![c] + tail, rest)));
        } else {
            assert(escape_char(c) =~= seq![c]);
            assert(s[0] == c);
            assert(c != '"' && c != '\\');
            assert(s.skip(1) =~= s2);
            assert(parse_string_body(s) == Some((seq![c] + tail, rest)));
        }
    }
}

/// A quoted, escaped string field parses back to its content.
proof fn lemma_parse_quoted_enc(content: Seq<char>, rest: Seq<char>)
    ensures
        parse_quoted(enc_str(content) + rest) == Some((content, rest)),
{
    let s = enc_str(content) + rest;
    assert(s =~= seq!['"'] + (escape_seq(content) + seq!['"'] + rest));
    assert(s[0] == '"');
    assert(s.skip(1) =~= escape_seq(content) + seq!['"'] + rest);
    lemma_parse_escaped(content, rest);
}

/// Decimal notation consists of digits.
proof fn lemma_dec_digits_are_digits(n: int)
    requires
        n >= 0,
    ensures
        dec_digits(n).len() >= 1,
        forall|i: int| 0 <= i < dec_digits(n).len() ==> is_digit(#[trigger] dec_digits(n)[i]),
    decreases n,
{
    if n < 10 {
        assert(is_digit(digit_char(n)));
    } else {
        lemma_dec_digits_are_digits(n / 10);
        assert(is_digit(digit_char(n % 10)));
        assert(forall|i: int|
            0 <= i < dec_digits(n).len() ==> is_digit(#[trigger] dec_digits(n)[i]));
    }
}

/// The digit run of a digit string followed by a non-digit is the whole
/// digit string.
proof fn lemma_digit_count_prefix(d: Seq<char>, rest: Seq<char>)
    requires
        forall|i: int| 0 <= i < d.len() ==> is_digit(#[trigger] d[i]),
        rest.len() == 0 || !is_digit(rest[0]),
    ensures
        digit_count(d + rest) == d.len(),
    decreases d.len(),
{
    if d.len() == 0 {
        assert(d + rest =~= rest);
    } else {
        assert((d + rest)[0] == d[0]);
        assert((d + rest).skip(1) =~= d.skip(1) + rest);
        lemma_digit_count_prefix(d.skip(1), rest);
    }
}

/// Reading decimal notation back gives the number.
proof fn lemma_digits_value_dec(n: int)
    requires
        n >= 0,
    ensures
        digits_value(dec_digits(n)) == n,
    decreases n,
{
    if n < 10 {
        let d = dec_digits(n);
        assert(d == seq![digit_char(n)]);
        assert(d.len() == 1);
        assert(d[0] == digit_char(n));
        assert(d.take(d.len() - 1) =~= Seq::<char>::empty());
        assert(digits_value(Seq::<char>::empty()) == 0);
        assert(digits_value(d) == digits_value(d.take(d.len() - 1)) * 10 + digit_val(d[0]));
        assert(digit_char(n) as int == n + 48);
        assert(digit_val(digit_char(n)) == n);
    } else {
        lemma_digits_value_dec(n / 10);
        let d = dec_digits(n);
        assert(d.take(d.len() - 1) =~= dec_digits(n / 10));
        assert(d[d.len() - 1] == digit_char(n % 10));
        assert(digit_val(digit_char(n % 10)) == n % 10);
        vstd::arithmetic::div_mod::lemma_fundamental_div_mod(n, 10);
    }
}

/// A number in decimal notation, followed by a non-digit, parses back to
/// itself.
proof fn lemma_parse_number_dec(n: u32, rest: Seq<char>)
    requires
        rest.len() == 0 || !is_digit(rest[0]),
    ensures
        parse_number(dec_digits(n as int) + rest) == Some((n, rest)),
{
    let d = dec_digits(n as int);
    lemma_dec_digits_are_digits(n as int);
    lemma_digit_count_prefix(d, rest);
    lemma_digits_value_dec(n as int);
    let s = d + rest;
    assert(digit_count(s) == d.len());
    assert(s.take(d.len() as int) =~= d);
    assert(s.skip(d.len() as int) =~= rest);
}

// ---------------------------------------------------------------------------
// Parsing, executable
// ---------------------------------------------------------------------------
/// The executable form of `unescape_char`.
fn unescape_exec(e: char) -> (r: Option<char>)
    ensures
        r == unescape_char(e),
{
    if e == '"' {
        Some('"')
    } else if e == '\\' {
        Some('\\')
    } else if e == '/' {
        Some('/')
    } else if e == 'n' {
        Some('\n')
    } else if e == 't' {
        Some('\t')
    } else if e == 'r' {
        Some('\r')
    } else if e == 'b' {
        Some('\u{8}')
    } else if e == 'f' {
        Some('\u{c}')
    } else {
        None
    }
}

/// Consumes `lit` at position `i`, as `parse_exact` describes, and yields
/// the position after it.
fn eat_lit(s: &str, i: usize, lit: &str) -> (r: Option<usize>)
    requires
        i <= s@.len(),
    ensures
        (match r {
            Some(j) => {
                &&& i <= j <= s@.len()
                &&& parse_exact(s@.skip(i as int), lit@) == Some(s@.skip(j as int))
            },
            None => parse_exact(s@.skip(i as int), lit@) is None,
        }),
{
    let slen = s.unicode_len();
    let llen = lit.unicode_len();
    if slen - i < llen {
        return None;
    }
    let mut j: usize = 0;
    while j < llen
        invariant
            slen == s@.len(),
            llen == lit@.len(),
            i + llen <= slen,
            0 <= j <= llen,
            forall|t: int| 0 <= t < j ==> s@[i + t] == lit@[t],
        decreases llen - j,
    {
        let sc = s.get_char(i + j);
        let lc = lit.get_char(j);
        if sc != lc {
            proof {
                assert(s@.skip(i as int).take(llen as int)[j as int] == s@[i + j]);
            }
            return None;
        }
        j = j + 1;
    }
    proof {
        assert(s@.skip(i as int).take(llen as int) =~= lit@);
        assert(s@.skip(i as int).skip(llen as int) =~= s@.skip(i + llen));
    }
    Some(i + llen)
}

/// Consumes one quoted, escaped string field at position `i`, as
/// `parse_quoted` describes, and yields its content and the position after
/// the closing quote.
fn parse_quoted_at(s: &str, i: usize) -> (r: Option<(String, usize)>)
    requires
        i <= s@.len(),
    ensures
        (match r {
            Some(pr) => {
                &&& i <= pr.1 <= s@.len()
                &&& parse_quoted(s@.skip(i as int)) == Some((pr.0@, s@.skip(pr.1 as int)))
            },
            None => parse_quoted(s@.skip(i as int)) is None,
        }),
{
    let slen = s.unicode_len();
    if i >= slen {
        return None;
    }
    if s.get_char(i) != '"' {
        return None;
    }
    proof {
        assert(s@.skip(i as int).len() >= 1);
        assert(s@.skip(i as int)[0] == '"');
        assert(s@.skip(i as int).skip(1) =~= s@.skip(i + 1));
    }
    let mut out = String::new();
    let mut j: usize = i + 1;
    while j < slen
        invariant
            slen == s@.len(),
            i + 1 <= j <= slen,
            i < slen,
            s@[i as int] == '"',
            parse_quoted(s@.skip(i as int)) == parse_string_body(s@.skip(i + 1)),
            (match parse_string_body(s@.skip(j as int)) {
                Some(pr) => parse_string_body(s@.skip(i + 1)) == Some((out@ + pr.0, pr.1)),
                None => parse_string_body(s@.skip(i + 1)) is None,
            }),
        decreases slen - j,
    {
        let c = s.get_char(j);
        if c == '"' {
            proof {
                assert(s@.skip(j as int)[0] == '"');
                assert(s@.skip(j as int).skip(1) =~= s@.skip(j + 1));
                assert(parse_string_body(s@.skip(j as int)) == Some(
                    (Seq::<char>::empty(), s@.skip(j + 1)),
                ));
                assert(out@ + Seq::<char>::empty() =~= out@);
                assert(s@.skip(i as int).len() >= 1 && s@.skip(i as int)[0] == '"');
            }
            return Some((out, j + 1));
        }
        if c == '\\' {
            if j + 1 >= slen {
                proof {
                    assert(s@.skip(j as int).len() < 2);
                    assert(s@.skip(j as int)[0] == '\\');
                    assert(parse_string_body(s@.skip(j as int)) is None);
                }
                return None;
            }
            let e = s.get_char(j + 1);
            let u = unescape_exec(e);
            proof {
                assert(s@.skip(j as int)[0] == '\\');
                assert(s@.skip(j as int)[1] == s@[j + 1]);
                assert(s@.skip(j as int).len() >= 2);
                assert(s@.skip(j as int).skip(2) =~= s@.skip(j + 2));
            }
            match u {
                Some(uc) => {
                    let ghost out0 = out@;
                    push_char(&mut out, uc);
                    proof {
                        let next = parse_string_body(s@.skip(j + 2));
                        if next is Some {
                            let pr = next->0;
                            assert(parse_string_body(s@.skip(j as int)) == Some(
                                (seq![uc] + pr.0, pr.1),
                            ));
                            assert(out0 + (seq![uc] + pr.0) =~= (out0 + seq![uc]) + pr.0);
                        } else {
                            assert(parse_string_body(s@.skip(j as int)) is None);
                        }
                    }
                    j = j + 2;
                },
                None => {
                    proof {
                        assert(parse_string_body(s@.skip(j as int)) is None);
                    }
                    return None;
                },
            }
        } else {
            proof {
                assert(s@.skip(j as int)[0] == c);
                assert(c != '"' && c != '\\');
                assert(s@.skip(j as int).skip(1) =~= s@.skip(j + 1));
            }
            let ghost out0 = out@;
            push_char(&mut out, c);
            proof {
                let next = parse_string_body(s@.skip(j + 1));
                if next is Some {
                    let pr = next->0;
                    assert(parse_string_body(s@.skip(j as int)) == Some((seq![c] + pr.0, pr.1)));
                    assert(out0 + (seq![c] + pr.0) =~= (out0 + seq![c]) + pr.0);
                } else {
                    assert(parse_string_body(s@.skip(j as int)) is None);
                }
            }
            j = j + 1;
        }
    }
    proof {
        assert(s@.skip(j as int).len() == 0);
        assert(parse_string_body(s@.skip(j as int)) is None);
    }
    None
}

/// Consumes one decimal number at position `i`, as `parse_number`
/// describes, and yields its value and the position after it.
fn parse_num_at(s: &str, i: usize) -> (r: Option<(u32, usize)>)
    requires
        i <= s@.len(),
    ensures
        (match r {
            Some(pr) => {
                &&& i <= pr.1 <= s@.len()
                &&& parse_number(s@.skip(i as int)) == Some((pr.0, s@.skip(pr.1 as int)))
            },
            None => parse_number(s@.skip(i as int)) is None,
        }),
{
    let slen = s.unicode_len();
    let mut j: usize = i;
    loop
        invariant_except_break
            slen == s@.len(),
            i <= j <= slen,
            digit_count(s@.skip(i as int)) == j - i + digit_count(s@.skip(j as int)),
            forall|t: int| i <= t < j ==> is_digit(s@[t]),
        ensures
            slen == s@.len(),
            i <= j <= slen,
            digit_count(s@.skip(j as int)) == 0,
            digit_count(s@.skip(i as int)) == j - i,
            forall|t: int| i <= t < j ==> is_digit(s@[t]),
        decreases slen - j,
    {
        if j >= slen {
            proof {
                assert(s@.skip(j as int).len() == 0);
            }
            break;
        }
        let c = s.get_char(j);
        let v = c as u32;
        if !(48 <= v && v <= 57) {
            proof {
                assert(s@.skip(j as int)[0] == c);
                assert(!is_digit(c));
            }
            break;
        }
        proof {
            assert(s@.skip(j as int)[0] == c);
            assert(is_digit(c));
            assert(s@.skip(j as int).skip(1) =~= s@.skip(j + 1));
        }
        j = j + 1;
    }
    if j == i {
        return None;
    }
    let mut acc: u64 = 0;
    let mut p: usize = i;
    proof {
        assert(s@.subrange(i as int, i as int) =~= Seq::<char>::empty());
    }
    while p < j
        invariant
            slen == s@.len(),
            i <= p <= j <= slen,
            forall|t: int| i <= t < j ==> is_digit(s@[t]),
            acc as int == digits_value(s@.subrange(i as int, p as int)) || (acc > u32::MAX
                && digits_value(s@.subrange(i as int, p as int)) > u32::MAX),
        decreases j - p,
    {
        let c = s.get_char(p);
        let v: u64 = (c as u32 - 48) as u64;
        proof {
            let dprev = s@.subrange(i as int, p as int);
            let dnext = s@.subrange(i as int, p + 1);
            assert(dnext.take(dnext.len() - 1) =~= dprev);
            assert(dnext[dnext.len() - 1] == s@[p as int]);
            assert(digits_value(dnext) == digits_value(dprev) * 10 + digit_val(s@[p as int]));
        }
        if acc <= 4294967295u64 {
            acc = acc * 10 + v;
        }
        p = p + 1;
    }
    proof {
        assert(s@.skip(i as int).take((j - i) as int) =~= s@.subrange(i as int, j as int));
        assert(s@.skip(i as int).skip((j - i) as int) =~= s@.skip(j as int));
    }
    if acc <= 4294967295u64 {
        Some((acc as u32, j))
    } else {
        None
    }
}

/// Reads a configuration from the file format, accepting exactly what
/// `parse_config_seq` describes and returning its record; any deviation
/// from the format yields `None`.
#[verifier::rlimit(100)]
pub fn parse_config(s: &str) -> (r: Option<PresenceConfig>)
    ensures
        (match r {
            Some(c) => parse_config_seq(s@) == Some(c@),
            None => parse_config_seq(s@) is None,
        }),
{
    proof {
        assert(s@.skip(0) =~= s@);
    }
    let j1 = match eat_lit(s, 0, "{\"app_id\":") {
        Some(j) => j,
        None => {
            return None;
        },
    };
    let (app_id, j2) = match parse_quoted_at(s, j1) {
        Some(p) => p,
        None => {
            return None;
        },
    };
    let j3 = match eat_lit(s, j2, ",\"details\":") {
        Some(j) => j,
        None => {
            return None;
        },
    };
    let (details, j4) = match parse_quoted_at(s, j3) {
        Some(p) => p,
        None => {
            return None;
        },
    };
    let j5 = match eat_lit(s, j4, ",\"state\":") {
        Some(j) => j,
        None => {
            return None;
        },
    };
    let (state_text, j6) = match parse_quoted_at(s, j5) {
        Some(p) => p,
        None => {
            return None;
        },
    };
    let j7 = match eat_lit(s, j6, ",\"party\":[") {
        Some(j) => j,
        None => {
            return None;
        },
    };
    let (p0, j8) = match parse_num_at(s, j7) {
        Some(p) => p,
        None => {
            return None;
        },
    };
    let j9 = match eat_comma(s, j8) {
        Some(j) => j,
        None => {
            return None;
        },
    };
    let (p1, j10) = match parse_num_at(s, j9) {
        Some(p) => p,
        None => {
            return None;
        },
    };
    let j11 = match eat_lit(s, j10, "],\"image_large\":[") {
        Some(j) => j,
        None => {
            return None;
        },
    };
    let (lk, j12) = match parse_quoted_at(s, j11) {
        Some(p) => p,
        None => {
            return None;
        },
    };
    let j13 = match eat_comma(s, j12) {
        Some(j) => j,
        None => {
            return None;
        },
    };
    let (lt, j14) = match parse_quoted_at(s, j13) {
        Some(p) => p,
        None => {
            return None;
        },
    };
    let j15 = match eat_lit(s, j14, "],\"image_small\":[") {
        Some(j) => j,
        None => {
            return None;
        },
    };
    let (sk, j16) = match parse_quoted_at(s, j15) {
        Some(p) => p,
        None => {
            return None;
        },
    };
    let j17 = match eat_comma(s, j16) {
        Some(j) => j,
        None => {
            return None;
        },
    };
    let (st, j18) = match parse_quoted_at(s, j17) {
        Some(p) => p,
        None => {
            return None;
        },
    };
    let j19 = match eat_lit(s, j18, "]}") {
        Some(j) => j,
        None => {
            return None;
        },
    };
    if j19 < s.unicode_len() {
        return None;
    }
    let c = PresenceConfig {
        app_id,
        details,
        state: state_text,
        party: (p0, p1),
        image_large: (lk, lt),
        image_small: (sk, st),
    };
    Some(c)
}

/// Consumes the one-character separator, as `parse_exact` of `seq![',']`
/// describes.
fn eat_comma(s: &str, i: usize) -> (r: Option<usize>)
    requires
        i <= s@.len(),
    ensures
        (match r {
            Some(j) => {
                &&& i <= j <= s@.len()
                &&& parse_exact(s@.skip(i as int), seq![',']) == Some(s@.skip(j as int))
            },
            None => parse_exact(s@.skip(i as int), seq![',']) is None,
        }),
{
    let slen = s.unicode_len();
    if i >= slen {
        return None;
    }
    let c = s.get_char(i);
    if c != ',' {
        proof {
            assert(s@.skip(i as int).take(1)[0] == c);
        }
        return None;
    }
    proof {
        assert(s@.skip(i as int).take(1) =~= seq![',']);
        assert(s@.skip(i as int).skip(1) =~= s@.skip(i + 1));
    }
    Some(i + 1)
}

/// Round trip: a configuration written by `encode_config` and read back by
/// `parse_config` comes out equal to the original in every field.
#[verifier::rlimit(100)]
pub proof fn lemma_codec_round_trip(c: ConfigView)
    ensures
        parse_config_seq(spec_encode_config(c)) == Some(c),
{
    let a1 = "{\"app_id\":"@;
    let a2 = ",\"details\":"@;
    let a3 = ",\"state\":"@;
    let a4 = ",\"party\":["@;
    let a5 = "],\"image_large\":["@;
    let a6 = "],\"image_small\":["@;
    let a7 = "]}"@;
    let comma = seq![','];
    let e1 = enc_str(c.app_id);
    let e2 = enc_str(c.details);
    let e3 = enc_str(c.state);
    let n1 = dec_digits(c.party.0 as int);
    let n2 = dec_digits(c.party.1 as int);
    let e4 = enc_str(c.image_large.0);
    let e5 = enc_str(c.image_large.1);
    let e6 = enc_str(c.image_small.0);
    let e7 = enc_str(c.image_small.1);

    reveal_strlit("],\"image_large\":[");

    let r17 = Seq::<char>::empty();
    let r16 = a7 + r17;
    let r15 = e7 + r16;
    let r14 = comma + r15;
    let r13 = e6 + r14;
    let r12 = a6 + r13;
    let r11 = e5 + r12;
    let r10 = comma + r11;
    let r9 = e4 + r10;
    let r8 = a5 + r9;
    let r7 = n2 + r8;
    let r6 = comma + r7;
    let r5 = n1 + r6;
    let r4 = a4 + r5;
    let r3 = e3 + r4;
    let r2 = a3 + r3;
    let r1 = e2 + r2;
    let r0 = a2 + r1;

    assert(spec_encode_config(c) =~= a1 + (e1 + r0));

    lemma_parse_exact_prefix(a1, e1 + r0);
    lemma_parse_quoted_enc(c.app_id, r0);
    lemma_parse_exact_prefix(a2, r1);
    lemma_parse_quoted_enc(c.details, r2);
    lemma_parse_exact_prefix(a3, r3);
    lemma_parse_quoted_enc(c.state, r4);
    lemma_parse_exact_prefix(a4, r5);
    assert(r6[0] == ',' && !is_digit(','));
    lemma_parse_number_dec(c.party.0, r6);
    lemma_parse_exact_prefix(comma, r7);
    assert(r8[0] == a5[0]);
    assert(a5[0] == ']' && !is_digit(']'));
    lemma_parse_number_dec(c.party.1, r8);
    lemma_parse_exact_prefix(a5, r9);
    lemma_parse_quoted_enc(c.image_large.0, r10);
    lemma_parse_exact_prefix(comma, r11);
    lemma_parse_quoted_enc(c.image_large.1, r12);
    lemma_parse_exact_prefix(a6, r13);
    lemma_parse_quoted_enc(c.image_small.0, r14);
    lemma_parse_exact_prefix(comma, r15);
    lemma_parse_quoted_enc(c.image_small.1, r16);
    lemma_parse_exact_prefix(a7, r17);

    assert(parse_config_seq(spec_encode_config(c)) == Some(c));
}

} // verus!
