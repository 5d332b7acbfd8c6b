//! The wire codec for the message grammar.
//!
//! One message travels as one UTF-8 text frame holding a JSON object:
//!
//! ```text
//! { "type": <tag>, "id"?: <string>, "text"?: <string> }
//! ```
//!
//! The encoder emits a compact object with the fields in the order `type`,
//! `id`, `text`, leaves absent optional fields out entirely, and escapes
//! `"`, `\` and the control characters inside string values, so its frames
//! are valid JSON for every message. The decoder accepts a JSON object:
//! members in any order, whitespace between tokens, the single-character
//! and `\uXXXX` escapes (surrogate pairs included) inside strings, and
//! members of any JSON value. A member with an unrecognized key is
//! ignored; when a key repeats, the last occurrence wins; a non-string
//! `id` or `text` member reads as absent. A frame is malformed exactly
//! when it is not one JSON object or its `type` member is missing or not
//! a string.

use vstd::arithmetic::div_mod::lemma_fundamental_div_mod;
use vstd::prelude::*;
use vstd::string::StrSliceExecFns;

verus! {

/// A decoded message, as mathematics: the raw type tag and the two optional
/// string fields, each as a sequence of characters.
pub ghost struct MessageModel {
    pub message_type: Seq<char>,
    pub id: Option<Seq<char>>,
    pub text: Option<Seq<char>>,
}

/// The `type` key.
pub open spec fn key_type() -> Seq<char> {
    seq!['t', 'y', 'p', 'e']
}

/// The `id` key.
pub open spec fn key_id() -> Seq<char> {
    seq!['i', 'd']
}

/// The `text` key.
pub open spec fn key_text() -> Seq<char> {
    seq!['t', 'e', 'x', 't']
}

// ------------------------------------------------------------------
// Encoding, as mathematics.
// ------------------------------------------------------------------

/// The character for one hexadecimal digit, lower case.
pub open spec fn hex_digit(d: int) -> char
    recommends
        0 <= d < 16,
{
    if d < 10 {
        ((48 + d) as u8) as char
    } else {
        ((87 + d) as u8) as char
    }
}

/// The escaped form of one character inside a quoted string: the two
/// characters JSON reserves, and the control characters, which JSON
/// requires escaped.
pub open spec fn escape_char(c: char) -> Seq<char> {
    if c == '"' || c == '\\' {
        seq!['\\', c]
    } else if 0 <= c as int && (c as int) < 32 {
        seq!['\\', 'u', '0', '0', hex_digit(c as int / 16), hex_digit(c as int % 16)]
    } else {
        seq![c]
    }
}

/// The escaped form of a string's characters.
pub open spec fn escape(s: Seq<char>) -> Seq<char>
    decreases s.len(),
{
    if s.len() == 0 {
        Seq::empty()
    } else {
        escape_char(s[0]) + escape(s.skip(1))
    }
}

/// `s` holds no character the encoder must escape.
pub open spec fn no_specials(s: Seq<char>) -> bool {
    forall|i: int| 0 <= i < s.len() ==> s[i] != '"' && s[i] != '\\' && s[i] as int >= 32
}

/// `s` wrapped in double quotes.
pub open spec fn quoted(s: Seq<char>) -> Seq<char> {
    seq!['"'] + s + seq!['"']
}

/// One `"key":"value"` member, with the value escaped.
pub open spec fn member(k: Seq<char>, v: Seq<char>) -> Seq<char> {
    quoted(k) + seq![':'] + quoted(escape(v))
}

/// The wire form of a message: the `type` member first, then `id` and
/// `text` where present, inside braces.
pub open spec fn spec_encode_message(m: MessageModel) -> Seq<char> {
    seq!['{'] + member(key_type(), m.message_type) + (match m.id {
        Some(i) => seq![','] + member(key_id(), i),
        None => Seq::empty(),
    }) + (match m.text {
        Some(t) => seq![','] + member(key_text(), t),
        None => Seq::empty(),
    }) + seq!['}']
}

// ------------------------------------------------------------------
// Decoding, as mathematics. Each parser consumes a prefix of its input
// and yields the parsed value together with the unconsumed rest, or
// `None` where the input does not fit the grammar. The bounds on the
// rest's length in the recursive branches only justify termination:
// every successful sub-parse consumes at least one character, so they
// never cut a parse short.
// ------------------------------------------------------------------

/// One of the four whitespace characters JSON allows between tokens.
pub open spec fn is_ws_char(c: char) -> bool {
    c == ' ' || c == '\t' || c == '\n' || c == '\r'
}

/// `s` without its leading whitespace.
pub open spec fn skip_ws(s: Seq<char>) -> Seq<char>
    decreases s.len(),
{
    if s.len() > 0 && is_ws_char(s[0]) {
        skip_ws(s.skip(1))
    } else {
        s
    }
}

/// A decimal digit.
pub open spec fn is_digit(c: char) -> bool {
    48 <= c as int && c as int <= 57
}

/// The value of one hexadecimal digit character, either case.
pub open spec fn hex_val(c: char) -> Option<int> {
    if 48 <= c as int && c as int <= 57 {
        Some(c as int - 48)
    } else if 97 <= c as int && c as int <= 102 {
        Some(c as int - 87)
    } else if 65 <= c as int && c as int <= 70 {
        Some(c as int - 55)
    } else {
        None
    }
}

/// A unicode scalar value: a code point that is not a surrogate.
pub open spec fn valid_scalar(cp: int) -> bool {
    (0 <= cp && cp < 0xD800) || (0xE000 <= cp && cp <= 0x10FFFF)
}

/// The character a single-character escape stands for.
pub open spec fn escape_code(e: char) -> Option<char> {
    if e == '"' {
        Some('"')
    } else if e == '\\' {
        Some('\\')
    } else if e == '/' {
        Some('/')
    } else if e == 'n' {
        Some('\n')
    } else if e == 't' {
        Some('\t')
    } else if e == 'r' {
        Some('\r')
    } else if e == 'b' {
        Some('\u{0008}')
    } else if e == 'f' {
        Some('\u{000C}')
    } else {
        None
    }
}

/// Consumes the four hex digits after `\u` — and, for a high surrogate,
/// the following `\uXXXX` low surrogate as well — yielding the character
/// they stand for. A lone surrogate is malformed.
pub open spec fn parse_u_escape(s: Seq<char>) -> Option<(char, Seq<char>)> {
    if s.len() >= 4 {
        match (hex_val(s[0]), hex_val(s[1]), hex_val(s[2]), hex_val(s[3])) {
            (Some(a), Some(b), Some(c), Some(d)) => {
                let cp = a * 4096 + b * 256 + c * 16 + d;
                if 0xD800 <= cp && cp < 0xDC00 {
                    if s.len() >= 10 && s[4] == '\\' && s[5] == 'u' {
                        match (hex_val(s[6]), hex_val(s[7]), hex_val(s[8]), hex_val(s[9])) {
                            (Some(e), Some(f), Some(g), Some(h)) => {
                                let lo = e * 4096 + f * 256 + g * 16 + h;
                                if 0xDC00 <= lo && lo < 0xE000 {
                                    Some(
                                        (
                                            (0x10000 + (cp - 0xD800) * 0x400 + (lo
                                                - 0xDC00)) as char,
                                            s.skip(10),
                                        ),
                                    )
                                } else {
                                    None
                                }
                            },
                            _ => None,
                        }
                    } else {
                        None
                    }
                } else if 0xDC00 <= cp && cp < 0xE000 {
                    None
                } else {
                    Some((cp as char, s.skip(4)))
                }
            },
            _ => None,
        }
    } else {
        None
    }
}

/// Consumes the body of a quoted string up to and including the closing
/// quote, undoing escapes on the way.
pub open spec fn parse_string_body(s: Seq<char>) -> Option<(Seq<char>, Seq<char>)>
    decreases s.len(),
{
    if s.len() == 0 {
        None
    } else if s[0] == '"' {
        Some((Seq::empty(), s.skip(1)))
    } else if s[0] == '\\' {
        if s.len() >= 2 {
            if s[1] == 'u' {
                match parse_u_escape(s.skip(2)) {
                    Some((u, r)) => {
                        if r.len() < s.len() {
                            match parse_string_body(r) {
                                Some((c, r2)) => Some((seq![u] + c, r2)),
                                None => None,
                            }
                        } else {
                            None
                        }
                    },
                    None => None,
                }
            } else {
                match escape_code(s[1]) {
                    Some(u) => match parse_string_body(s.skip(2)) {
                        Some((c, r)) => Some((seq![u] + c, r)),
                        None => None,
                    },
                    None => None,
                }
            }
        } else {
            None
        }
    } else {
        match parse_string_body(s.skip(1)) {
            Some((c, r)) => Some((seq![s[0]] + c, r)),
            None => None,
        }
    }
}

/// Consumes one quoted string, opening quote included.
pub open spec fn parse_string(s: Seq<char>) -> Option<(Seq<char>, Seq<char>)> {
    if s.len() > 0 && s[0] == '"' {
        parse_string_body(s.skip(1))
    } else {
        None
    }
}

/// The characters of the `true` literal.
pub open spec fn lit_true() -> Seq<char> {
    seq!['t', 'r', 'u', 'e']
}

/// The characters of the `false` literal.
pub open spec fn lit_false() -> Seq<char> {
    seq!['f', 'a', 'l', 's', 'e']
}

/// The characters of the `null` literal.
pub open spec fn lit_null() -> Seq<char> {
    seq!['n', 'u', 'l', 'l']
}

/// Consumes the given literal.
pub open spec fn skip_literal(s: Seq<char>, lit: Seq<char>) -> Option<Seq<char>> {
    if s.len() >= lit.len() && s.take(lit.len() as int) == lit {
        Some(s.skip(lit.len() as int))
    } else {
        None
    }
}

/// Consumes leading decimal digits.
pub open spec fn skip_digits(s: Seq<char>) -> Seq<char>
    decreases s.len(),
{
    if s.len() > 0 && is_digit(s[0]) {
        skip_digits(s.skip(1))
    } else {
        s
    }
}

/// Consumes a number's fraction part, if one is there.
pub open spec fn skip_frac(s: Seq<char>) -> Option<Seq<char>> {
    if s.len() > 0 && s[0] == '.' {
        if s.len() >= 2 && is_digit(s[1]) {
            Some(skip_digits(s.skip(1)))
        } else {
            None
        }
    } else {
        Some(s)
    }
}

/// Consumes a number's exponent part, if one is there.
pub open spec fn skip_exp(s: Seq<char>) -> Option<Seq<char>> {
    if s.len() > 0 && (s[0] == 'e' || s[0] == 'E') {
        let s1 = if s.len() >= 2 && (s[1] == '+' || s[1] == '-') {
            s.skip(2)
        } else {
            s.skip(1)
        };
        if s1.len() > 0 && is_digit(s1[0]) {
            Some(skip_digits(s1))
        } else {
            None
        }
    } else {
        Some(s)
    }
}

/// Consumes one JSON number.
pub open spec fn skip_number(s: Seq<char>) -> Option<Seq<char>> {
    let s1 = if s.len() > 0 && s[0] == '-' {
        s.skip(1)
    } else {
        s
    };
    if s1.len() > 0 && is_digit(s1[0]) {
        let s2 = if s1[0] == '0' {
            s1.skip(1)
        } else {
            skip_digits(s1)
        };
        match skip_frac(s2) {
            Some(s3) => skip_exp(s3),
            None => None,
        }
    } else {
        None
    }
}

/// Consumes one JSON value: its characters where it is a string, `None`
/// for any other value (checked and skipped), and the rest.
pub open spec fn parse_value(s: Seq<char>) -> Option<(Option<Seq<char>>, Seq<char>)>
    decreases s.len(), 0int,
{
    if s.len() == 0 {
        None
    } else if s[0] == '"' {
        match parse_string(s) {
            Some((c, r)) => Some((Some(c), r)),
            None => None,
        }
    } else if s[0] == '{' {
        let inner = skip_ws(s.skip(1));
        if inner.len() > 0 && inner[0] == '}' {
            Some((None, inner.skip(1)))
        } else {
            match parse_members(s.skip(1)) {
                Some((ms, r)) => {
                    if r.len() > 0 && r[0] == '}' {
                        Some((None, r.skip(1)))
                    } else {
                        None
                    }
                },
                None => None,
            }
        }
    } else if s[0] == '[' {
        let inner = skip_ws(s.skip(1));
        if inner.len() > 0 && inner[0] == ']' {
            Some((None, inner.skip(1)))
        } else {
            match parse_elements(s.skip(1)) {
                Some(r) => {
                    if r.len() > 0 && r[0] == ']' {
                        Some((None, r.skip(1)))
                    } else {
                        None
                    }
                },
                None => None,
            }
        }
    } else if s[0] == 't' {
        match skip_literal(s, lit_true()) {
            Some(r) => Some((None, r)),
            None => None,
        }
    } else if s[0] == 'f' {
        match skip_literal(s, lit_false()) {
            Some(r) => Some((None, r)),
            None => None,
        }
    } else if s[0] == 'n' {
        match skip_literal(s, lit_null()) {
            Some(r) => Some((None, r)),
            None => None,
        }
    } else if s[0] == '-' || is_digit(s[0]) {
        match skip_number(s) {
            Some(r) => Some((None, r)),
            None => None,
        }
    } else {
        None
    }
}

/// Consumes one or more comma-separated array elements, leaving the rest
/// whitespace-skipped at the closing bracket.
pub open spec fn parse_elements(s: Seq<char>) -> Option<Seq<char>>
    decreases s.len(), 1int,
{
    let s1 = skip_ws(s);
    if s1.len() <= s.len() {
        match parse_value(s1) {
            Some((_v, r)) => {
                let r1 = skip_ws(r);
                if r1.len() > 0 && r1[0] == ',' {
                    if r1.len() < s.len() {
                        parse_elements(r1.skip(1))
                    } else {
                        None
                    }
                } else {
                    Some(r1)
                }
            },
            None => None,
        }
    } else {
        None
    }
}

/// Consumes one `"key": value` member, whitespace around the colon and
/// before the key included.
pub open spec fn parse_pair(s: Seq<char>) -> Option<((Seq<char>, Option<Seq<char>>), Seq<char>)>
    decreases s.len(), 1int,
{
    match parse_string(skip_ws(s)) {
        Some((k, r1)) => {
            let r2 = skip_ws(r1);
            if r2.len() > 0 && r2[0] == ':' {
                let r3 = skip_ws(r2.skip(1));
                if r3.len() <= s.len() {
                    match parse_value(r3) {
                        Some((v, r4)) => Some(((k, v), r4)),
                        None => None,
                    }
                } else {
                    None
                }
            } else {
                None
            }
        },
        None => None,
    }
}

/// Consumes one or more comma-separated members, leaving the rest
/// whitespace-skipped at the closing brace.
pub open spec fn parse_members(s: Seq<char>) -> Option<
    (Seq<(Seq<char>, Option<Seq<char>>)>, Seq<char>),
>
    decreases s.len(), 2int,
{
    match parse_pair(s) {
        Some((p, r)) => {
            let r1 = skip_ws(r);
            if r1.len() > 0 && r1[0] == ',' {
                if r1.len() < s.len() {
                    match parse_members(r1.skip(1)) {
                        Some((ms, rest)) => Some((seq![p] + ms, rest)),
                        None => None,
                    }
                } else {
                    None
                }
            } else {
                Some((seq![p], r1))
            }
        },
        None => None,
    }
}

/// The value under the member with key `k`, if any; when a key repeats,
/// the last occurrence wins.
pub open spec fn lookup(ms: Seq<(Seq<char>, Option<Seq<char>>)>, k: Seq<char>) -> Option<
    Option<Seq<char>>,
>
    decreases ms.len(),
{
    if ms.len() == 0 {
        None
    } else if ms.last().0 == k {
        Some(ms.last().1)
    } else {
        lookup(ms.drop_last(), k)
    }
}

/// The characters of the `k` member where it is a string; a non-string or
/// absent member reads as absent.
pub open spec fn str_member(ms: Seq<(Seq<char>, Option<Seq<char>>)>, k: Seq<char>) -> Option<
    Seq<char>,
> {
    match lookup(ms, k) {
        Some(Some(v)) => Some(v),
        _ => None,
    }
}

/// Parses a whole object: braces around zero or more members, with nothing
/// but whitespace left over.
pub open spec fn parse_object(s: Seq<char>) -> Option<Seq<(Seq<char>, Option<Seq<char>>)>> {
    let s1 = skip_ws(s);
    if s1.len() > 0 && s1[0] == '{' {
        let inner = skip_ws(s1.skip(1));
        if inner.len() > 0 && inner[0] == '}' {
            if skip_ws(inner.skip(1)).len() == 0 {
                Some(Seq::empty())
            } else {
                None
            }
        } else {
            match parse_members(s1.skip(1)) {
                Some((ms, rest)) => {
                    if rest.len() > 0 && rest[0] == '}' && skip_ws(rest.skip(1)).len() == 0 {
                        Some(ms)
                    } else {
                        None
                    }
                },
                None => None,
            }
        }
    } else {
        None
    }
}

/// The meaning of a whole frame: a JSON object with a string `type` member
/// decodes; anything else is malformed.
pub open spec fn spec_parse_message(s: Seq<char>) -> Option<MessageModel> {
    match parse_object(s) {
        Some(ms) => match lookup(ms, key_type()) {
            Some(Some(t)) => Some(
                MessageModel {
                    message_type: t,
                    id: str_member(ms, key_id()),
                    text: str_member(ms, key_text()),
                },
            ),
            _ => None,
        },
        None => None,
    }
}

// ------------------------------------------------------------------
// The decoder inverts the encoder.
// ------------------------------------------------------------------

/// A hex digit character reads back as its value.
proof fn lemma_hex_val_digit(d: int)
    requires
        0 <= d < 16,
    ensures
        hex_val(hex_digit(d)) == Some(d),
{
}

/// Escaping distributes over concatenation.
proof fn lemma_escape_append(a: Seq<char>, b: Seq<char>)
    ensures
        escape(a + b) == escape(a) + escape(b),
    decreases a.len(),
{
    if a.len() == 0 {
        assert(a + b =~= b);
        assert(escape(a) + escape(b) =~= escape(b));
    } else {
        assert((a + b).skip(1) =~= a.skip(1) + b);
        lemma_escape_append(a.skip(1), b);
        assert((a + b)[0] == a[0]);
        assert(escape(a + b) =~= escape(a) + escape(b));
    }
}

/// Escaping leaves a string without special characters unchanged.
proof fn lemma_escape_identity(s: Seq<char>)
    requires
        no_specials(s),
    ensures
        escape(s) == s,
    decreases s.len(),
{
    if s.len() == 0 {
        assert(escape(s) =~= s);
    } else {
        assert forall|i: int|
            0 <= i < s.skip(1).len() implies s.skip(1)[i] != '"' && s.skip(1)[i] != '\\' && s.skip(
            1,
        )[i] as int >= 32 by {
            assert(s.skip(1)[i] == s[i + 1]);
        }
        lemma_escape_identity(s.skip(1));
        assert(s[0] != '"' && s[0] != '\\' && s[0] as int >= 32);
        assert(escape(s) =~= s);
    }
}

/// Reading a string body back out of its escaped form recovers the
/// original characters and stops exactly at the closing quote.
#[verifier::rlimit(60)]
proof fn lemma_parse_escaped_body(v: Seq<char>, rest: Seq<char>)
    ensures
        parse_string_body(escape(v) + seq!['"'] + rest) == Some((v, rest)),
    decreases v.len(),
{
    let s = escape(v) + seq!['"'] + rest;
    if v.len() == 0 {
        assert(escape(v) =~= Seq::<char>::empty());
        assert(s[0] == '"');
        assert(s.skip(1) =~= rest);
        assert(Seq::<char>::empty() =~= v);
    } else {
        let c = v[0];
        let v1 = v.skip(1);
        assert(escape(v) == escape_char(c) + escape(v1));
        lemma_parse_escaped_body(v1, rest);
        if c == '"' || c == '\\' {
            assert(escape_char(c) == seq!['\\', c]);
            assert(s[0] == '\\');
            assert(s[1] == c);
            assert(escape_code(s[1]) == Some(c));
            assert(s.skip(2) =~= escape(v1) + seq!['"'] + rest);
            assert(seq![c] + v1 =~= v);
        } else if 0 <= c as int && (c as int) < 32 {
            let hi = c as int / 16;
            let lo = c as int % 16;
            lemma_fundamental_div_mod(c as int, 16);
            assert(0 <= hi < 16 && 0 <= lo < 16);
            lemma_hex_val_digit(hi);
            lemma_hex_val_digit(lo);
            assert(escape_char(c) == seq!['\\', 'u', '0', '0', hex_digit(hi), hex_digit(lo)]);
            assert(s[0] == '\\');
            assert(s[1] == 'u');
            let t = s.skip(2);
            assert(t =~= seq!['0', '0', hex_digit(hi), hex_digit(lo)] + (escape(v1) + seq!['"']
                + rest));
            assert(t[0] == '0' && t[1] == '0' && t[2] == hex_digit(hi) && t[3] == hex_digit(lo));
            assert(hex_val('0') == Some(0int));
            let cp = 0 * 4096 + 0 * 256 + hi * 16 + lo;
            assert(cp == c as int);
            assert(0 <= cp < 32);
            assert((cp as char) == c);
            assert(t.skip(4) =~= escape(v1) + seq!['"'] + rest);
            assert(parse_u_escape(t) == Some((c, t.skip(4))));
            assert(t.skip(4).len() < s.len());
            assert(seq![c] + v1 =~= v);
        } else {
            assert(escape_char(c) == seq![c]);
            assert(s[0] == c);
            assert(s.skip(1) =~= escape(v1) + seq!['"'] + rest);
            assert(seq![s[0]] + v1 =~= v);
        }
    }
}

/// Reading a quoted, escaped string recovers the original value.
proof fn lemma_parse_quoted(v: Seq<char>, rest: Seq<char>)
    ensures
        parse_string(quoted(escape(v)) + rest) == Some((v, rest)),
{
    let s = quoted(escape(v)) + rest;
    assert(s[0] == '"');
    assert(s.skip(1) =~= escape(v) + seq!['"'] + rest);
    lemma_parse_escaped_body(v, rest);
}

/// Reading a quoted string without special characters recovers it as it
/// stands.
proof fn lemma_parse_quoted_raw(k: Seq<char>, rest: Seq<char>)
    requires
        no_specials(k),
    ensures
        parse_string(quoted(k) + rest) == Some((k, rest)),
{
    lemma_escape_identity(k);
    lemma_parse_quoted(k, rest);
}

/// Skipping whitespace leaves a string alone when it is empty or starts
/// with something else.
proof fn lemma_skip_ws_id(s: Seq<char>)
    requires
        s.len() == 0 || !is_ws_char(s[0]),
    ensures
        skip_ws(s) == s,
{
}

/// Reading one emitted member yields its key and its value's characters.
proof fn lemma_parse_member(k: Seq<char>, v: Seq<char>, rest: Seq<char>)
    requires
        no_specials(k),
    ensures
        parse_pair(member(k, v) + rest) == Some(((k, Some(v)), rest)),
{
    let s = member(k, v) + rest;
    let r1 = seq![':'] + quoted(escape(v)) + rest;
    assert(s =~= quoted(k) + r1);
    assert(s[0] == '"');
    lemma_skip_ws_id(s);
    lemma_parse_quoted_raw(k, r1);
    assert(r1[0] == ':');
    lemma_skip_ws_id(r1);
    let r3 = quoted(escape(v)) + rest;
    assert(r1.skip(1) =~= r3);
    assert(r3[0] == '"');
    lemma_skip_ws_id(r3);
    assert(r3.len() <= s.len());
    lemma_parse_quoted(v, rest);
    assert(parse_value(r3) == Some((Some(v), rest)));
}

/// A single emitted member before the closing brace parses as a
/// one-member list.
proof fn lemma_members_last(k: Seq<char>, v: Seq<char>)
    requires
        no_specials(k),
    ensures
        parse_members(member(k, v) + seq!['}']) == Some((seq![(k, Some(v))], seq!['}'])),
{
    lemma_parse_member(k, v, seq!['}']);
    assert(seq!['}'][0] == '}');
    lemma_skip_ws_id(seq!['}']);
}

/// An emitted member followed by a comma parses as that member in front
/// of whatever the rest parses to.
proof fn lemma_members_cons(k: Seq<char>, v: Seq<char>, tail: Seq<char>)
    requires
        no_specials(k),
    ensures
        parse_members(member(k, v) + seq![','] + tail) == (match parse_members(tail) {
            Some((ms, rest)) => Some((seq![(k, Some(v))] + ms, rest)),
            None => None,
        }),
{
    let s = member(k, v) + seq![','] + tail;
    let r = seq![','] + tail;
    assert(s =~= member(k, v) + r);
    lemma_parse_member(k, v, r);
    assert(r[0] == ',');
    lemma_skip_ws_id(r);
    assert(member(k, v).len() > 0);
    assert(r.len() < s.len());
    assert(r.skip(1) =~= tail);
}

/// None of the three keys holds a special character.
proof fn lemma_keys_plain()
    ensures
        no_specials(key_type()),
        no_specials(key_id()),
        no_specials(key_text()),
{
}

/// The three keys are pairwise distinct.
proof fn lemma_keys_distinct()
    ensures
        key_type() != key_id(),
        key_type() != key_text(),
        key_id() != key_text(),
{
    assert(key_type()[1] == 'y');
    assert(key_text()[1] == 'e');
    assert(key_type().len() != key_id().len());
    assert(key_id().len() != key_text().len());
}

/// An emitted object — a brace, members, a brace, no whitespace — parses
/// to exactly those members.
proof fn lemma_object_of_members(s: Seq<char>, ms: Seq<(Seq<char>, Option<Seq<char>>)>)
    requires
        s.len() > 0,
        s[0] == '{',
        s.skip(1).len() > 0,
        s.skip(1)[0] == '"',
        parse_members(s.skip(1)) == Some((ms, seq!['}'])),
    ensures
        parse_object(s) == Some(ms),
{
    lemma_skip_ws_id(s);
    lemma_skip_ws_id(s.skip(1));
    assert(seq!['}'][0] == '}');
    assert(seq!['}'].skip(1) =~= Seq::<char>::empty());
    assert(skip_ws(Seq::<char>::empty()) == Seq::<char>::empty());
}

/// Decoding inverts encoding: every message value comes back out of its
/// own wire form, field for field.
pub proof fn lemma_encode_parses(m: MessageModel)
    ensures
        spec_parse_message(spec_encode_message(m)) == Some(m),
{
    lemma_keys_plain();
    lemma_keys_distinct();
    let s = spec_encode_message(m);
    let tm = member(key_type(), m.message_type);
    assert(s[0] == '{');
    match (m.id, m.text) {
        (None, None) => {
            assert(s.skip(1) =~= tm + seq!['}']);
            lemma_members_last(key_type(), m.message_type);
            let ms = seq![(key_type(), Some(m.message_type))];
            assert(tm[0] == '"');
            assert(s.skip(1)[0] == '"');
            lemma_object_of_members(s, ms);
            reveal_with_fuel(lookup, 3);
            assert(lookup(ms, key_type()) == Some(Some(m.message_type)));
            assert(lookup(ms, key_id()) is None);
            assert(lookup(ms, key_text()) is None);
        },
        (Some(i), None) => {
            let im = member(key_id(), i);
            let tail = im + seq!['}'];
            assert(s.skip(1) =~= tm + seq![','] + tail);
            lemma_members_last(key_id(), i);
            lemma_members_cons(key_type(), m.message_type, tail);
            let ms = seq![(key_type(), Some(m.message_type))] + seq![(key_id(), Some(i))];
            assert(parse_members(s.skip(1)) == Some((ms, seq!['}'])));
            assert(tm[0] == '"');
            assert(s.skip(1)[0] == '"');
            lemma_object_of_members(s, ms);
            reveal_with_fuel(lookup, 3);
            assert(ms.last() == (key_id(), Some(i)));
            assert(ms.drop_last() =~= seq![(key_type(), Some(m.message_type))]);
            assert(lookup(ms, key_type()) == Some(Some(m.message_type)));
            assert(lookup(ms, key_id()) == Some(Some(i)));
            assert(lookup(ms, key_text()) is None);
        },
        (None, Some(t)) => {
            let xm = member(key_text(), t);
            let tail = xm + seq!['}'];
            assert(s.skip(1) =~= tm + seq![','] + tail);
            lemma_members_last(key_text(), t);
            lemma_members_cons(key_type(), m.message_type, tail);
            let ms = seq![(key_type(), Some(m.message_type))] + seq![(key_text(), Some(t))];
            assert(parse_members(s.skip(1)) == Some((ms, seq!['}'])));
            assert(tm[0] == '"');
            assert(s.skip(1)[0] == '"');
            lemma_object_of_members(s, ms);
            reveal_with_fuel(lookup, 3);
            assert(ms.last() == (key_text(), Some(t)));
            assert(ms.drop_last() =~= seq![(key_type(), Some(m.message_type))]);
            assert(lookup(ms, key_type()) == Some(Some(m.message_type)));
            assert(lookup(ms, key_id()) is None);
            assert(lookup(ms, key_text()) == Some(Some(t)));
        },
        (Some(i), Some(t)) => {
            let im = member(key_id(), i);
            let xm = member(key_text(), t);
            let tail2 = xm + seq!['}'];
            let tail1 = im + seq![','] + tail2;
            assert(s.skip(1) =~= tm + seq![','] + tail1);
            lemma_members_last(key_text(), t);
            lemma_members_cons(key_id(), i, tail2);
            lemma_members_cons(key_type(), m.message_type, tail1);
            let ms = seq![(key_type(), Some(m.message_type))] + (seq![(key_id(), Some(i))] + seq![
                (key_text(), Some(t)),
            ]);
            assert(parse_members(s.skip(1)) == Some((ms, seq!['}'])));
            assert(tm[0] == '"');
            assert(s.skip(1)[0] == '"');
            lemma_object_of_members(s, ms);
            reveal_with_fuel(lookup, 4);
            assert(ms.last() == (key_text(), Some(t)));
            assert(ms.drop_last() =~= seq![(key_type(), Some(m.message_type))] + seq![
                (key_id(), Some(i)),
            ]);
            assert(ms.drop_last().last() == (key_id(), Some(i)));
            assert(ms.drop_last().drop_last() =~= seq![(key_type(), Some(m.message_type))]);
            assert(lookup(ms, key_type()) == Some(Some(m.message_type)));
            assert(lookup(ms, key_id()) == Some(Some(i)));
            assert(lookup(ms, key_text()) == Some(Some(t)));
        },
    }
}

// ------------------------------------------------------------------
// The executable encoder.
// ------------------------------------------------------------------

/// Relies on `String::push`: appends exactly the given character.
#[verifier::external_body]
pub(crate) fn push_char(s: &mut String, c: char)
    ensures
        final(s)@ == old(s)@.push(c),
{
    s.push(c);
}

/// The view of an optional borrowed string.
pub open spec fn opt_view(s: Option<&str>) -> Option<Seq<char>> {
    match s {
        Some(x) => Some(x@),
        None => None,
    }
}

/// The character for one hexadecimal digit, lower case.
fn hex_char(d: u8) -> (r: char)
    requires
        d < 16,
    ensures
        r == hex_digit(d as int),
{
    if d < 10 {
        (48 + d) as char
    } else {
        (87 + d) as char
    }
}

/// Appends the escaped form of `s` to `out`.
fn append_escaped(out: &mut String, s: &str)
    ensures
        final(out)@ == old(out)@ + escape(s@),
{
    let ghost out0 = out@;
    let n = s.unicode_len();
    let mut i: usize = 0;
    proof {
        assert(s@.take(0) =~= Seq::<char>::empty());
        assert(out0 + escape(s@.take(0)) =~= out0);
    }
    while i < n
        invariant
            i <= n,
            n == s@.len(),
            out@ == out0 + escape(s@.take(i as int)),
        decreases n - i,
    {
        let c = s.get_char(i);
        proof {
            assert(s@.take(i as int + 1) =~= s@.take(i as int) + seq![s@[i as int]]);
            lemma_escape_append(s@.take(i as int), seq![s@[i as int]]);
            assert(seq![s@[i as int]].skip(1) =~= Seq::<char>::empty());
            assert(escape(Seq::<char>::empty()) == Seq::<char>::empty());
            assert(seq![s@[i as int]][0] == s@[i as int]);
            assert(escape(seq![s@[i as int]]) =~= escape_char(s@[i as int]));
        }
        if c == '"' || c == '\\' {
            push_char(out, '\\');
            push_char(out, c);
            proof {
                assert(out@ =~= out0 + escape(s@.take(i as int + 1)));
            }
        } else {
            let cu = c as u32;
            proof {
                assert(cu as int == c as int);
            }
            if cu < 32 {
            push_char(out, '\\');
            push_char(out, 'u');
            push_char(out, '0');
            push_char(out, '0');
            push_char(out, hex_char((cu / 16) as u8));
            push_char(out, hex_char((cu % 16) as u8));
            proof {
                assert(cu as int == c as int);
                assert((cu / 16) as int == c as int / 16);
                assert((cu % 16) as int == c as int % 16);
                assert(out@ =~= out0 + escape(s@.take(i as int + 1)));
            }
            } else {
                push_char(out, c);
                proof {
                    assert(out@ =~= out0 + escape(s@.take(i as int + 1)));
                }
            }
        }
        i = i + 1;
    }
    proof {
        assert(s@.take(n as int) =~= s@);
    }
}

/// Appends one `"key":"value"` member to `out`, escaping the value.
fn append_member(out: &mut String, k: &str, v: &str)
    ensures
        final(out)@ == old(out)@ + member(k@, v@),
{
    let ghost out0 = out@;
    push_char(out, '"');
    out.append(k);
    push_char(out, '"');
    push_char(out, ':');
    push_char(out, '"');
    append_escaped(out, v);
    push_char(out, '"');
    proof {
        assert(out@ =~= out0 + member(k@, v@));
    }
}

/// Builds the wire form of a message from its raw tag and optional fields.
pub(crate) fn encode_fields(message_type: &str, id: Option<&str>, text: Option<&str>) -> (r:
    String)
    ensures
        r@ == spec_encode_message(
            MessageModel { message_type: message_type@, id: opt_view(id), text: opt_view(text) },
        ),
{
    proof {
        reveal_strlit("type");
        reveal_strlit("id");
        reveal_strlit("text");
        assert("type"@ =~= key_type());
        assert("id"@ =~= key_id());
        assert("text"@ =~= key_text());
    }
    let mut out = String::new();
    push_char(&mut out, '{');
    append_member(&mut out, "type", message_type);
    match id {
        Some(i) => {
            push_char(&mut out, ',');
            append_member(&mut out, "id", i);
        },
        None => {},
    }
    match text {
        Some(t) => {
            push_char(&mut out, ',');
            append_member(&mut out, "text", t);
        },
        None => {},
    }
    push_char(&mut out, '}');
    proof {
        let m = MessageModel { message_type: message_type@, id: opt_view(id), text: opt_view(text) };
        assert(out@ =~= spec_encode_message(m));
    }
    out
}

// ------------------------------------------------------------------
// The executable decoder.
// ------------------------------------------------------------------

/// The characters of a string slice, one by one.
fn str_chars(s: &str) -> (r: Vec<char>)
    ensures
        r@ == s@,
{
    let n = s.unicode_len();
    let mut r: Vec<char> = Vec::new();
    let mut i: usize = 0;
    proof {
        assert(s@.take(0) =~= Seq::<char>::empty());
    }
    while i < n
        invariant
            i <= n,
            n == s@.len(),
            r@ == s@.take(i as int),
        decreases n - i,
    {
        r.push(s.get_char(i));
        proof {
            assert(s@.take(i as int).push(s@[i as int]) =~= s@.take(i as int + 1));
        }
        i = i + 1;
    }
    proof {
        assert(s@.take(n as int) =~= s@);
    }
    r
}

/// A `String` holding exactly the given characters.
fn string_of_chars(v: &Vec<char>) -> (r: String)
    ensures
        r@ == v@,
{
    let mut r = String::new();
    let mut i: usize = 0;
    proof {
        assert(v@.take(0) =~= Seq::<char>::empty());
    }
    while i < v.len()
        invariant
            i <= v@.len(),
            r@ == v@.take(i as int),
        decreases v@.len() - i,
    {
        push_char(&mut r, v[i]);
        proof {
            assert(v@.take(i as int).push(v@[i as int]) =~= v@.take(i as int + 1));
        }
        i = i + 1;
    }
    proof {
        assert(v@.take(v@.len() as int) =~= v@);
    }
    r
}

/// Compares a character vector against a string slice.
fn chars_eq_str(a: &Vec<char>, b: &str) -> (r: bool)
    ensures
        r == (a@ == b@),
{
    let blen = b.unicode_len();
    if a.len() != blen {
        return false;
    }
    let mut i: usize = 0;
    while i < blen
        invariant
            i <= blen,
            blen == a@.len(),
            blen == b@.len(),
            forall|j: int| 0 <= j < i ==> a@[j] == b@[j],
        decreases blen - i,
    {
        if a[i] != b.get_char(i) {
            return false;
        }
        i = i + 1;
    }
    proof {
        assert(a@ =~= b@);
    }
    true
}

/// The view of an optional character vector.
pub(crate) open spec fn opt_chars(o: Option<Vec<char>>) -> Option<Seq<char>> {
    match o {
        Some(c) => Some(c@),
        None => None,
    }
}

/// The view of an optional owned string.
pub(crate) open spec fn opt_string(o: Option<String>) -> Option<Seq<char>> {
    match o {
        Some(c) => Some(c@),
        None => None,
    }
}

/// The character a single-character escape stands for.
fn unescape(e: char) -> (r: Option<char>)
    ensures
        r == escape_code(e),
{
    if e == '"' {
        Some('"')
    } else if e == '\\' {
        Some('\\')
    } else if e == '/' {
        Some('/')
    } else if e == 'n' {
        Some('\n')
    } else if e == 't' {
        Some('\t')
    } else if e == 'r' {
        Some('\r')
    } else if e == 'b' {
        Some('\u{0008}')
    } else if e == 'f' {
        Some('\u{000C}')
    } else {
        None
    }
}

/// The value of one hexadecimal digit character.
fn hex_value(c: char) -> (r: Option<u32>)
    ensures
        match r {
            Some(d) => hex_val(c) == Some(d as int) && d < 16,
            None => hex_val(c) is None,
        },
{
    let u = c as u32;
    proof {
        assert(u as int == c as int);
    }
    if 48 <= u && u <= 57 {
        Some(u - 48)
    } else if 97 <= u && u <= 102 {
        Some(u - 87)
    } else if 65 <= u && u <= 70 {
        Some(u - 55)
    } else {
        None
    }
}

/// Relies on `char::from_u32`: the character with the given code point for
/// every valid unicode scalar value, and nothing for the rest.
#[verifier::external_body]
fn char_of_u32(cp: u32) -> (r: Option<char>)
    ensures
        r == (if valid_scalar(cp as int) {
            Some(cp as char)
        } else {
            None::<char>
        }),
{
    char::from_u32(cp)
}

/// Scans the hex digits of a `\u` escape (a surrogate pair as one unit)
/// starting at `start`.
fn take_u_escape(v: &Vec<char>, start: usize) -> (r: Option<(char, usize)>)
    requires
        start <= v@.len(),
    ensures
        match r {
            Some((u, j)) => start < j <= v@.len() && parse_u_escape(v@.skip(start as int)) == Some(
                (u, v@.skip(j as int)),
            ),
            None => parse_u_escape(v@.skip(start as int)) is None,
        },
{
    let ghost s = v@.skip(start as int);
    proof {
        assert(s.len() == v@.len() - start);
        assert forall|i: int| 0 <= i < s.len() implies s[i] == v@[start as int + i] by {}
    }
    if v.len() - start < 4 {
        return None;
    }
    let a = match hex_value(v[start]) {
        Some(d) => d,
        None => {
            return None;
        },
    };
    let b = match hex_value(v[start + 1]) {
        Some(d) => d,
        None => {
            return None;
        },
    };
    let c = match hex_value(v[start + 2]) {
        Some(d) => d,
        None => {
            return None;
        },
    };
    let d = match hex_value(v[start + 3]) {
        Some(d) => d,
        None => {
            return None;
        },
    };
    let cp: u32 = a * 4096 + b * 256 + c * 16 + d;
    if 0xD800 <= cp && cp < 0xDC00 {
        if v.len() - start < 10 {
            return None;
        }
        if v[start + 4] != '\\' || v[start + 5] != 'u' {
            return None;
        }
        let e = match hex_value(v[start + 6]) {
            Some(d) => d,
            None => {
                return None;
            },
        };
        let f = match hex_value(v[start + 7]) {
            Some(d) => d,
            None => {
                return None;
            },
        };
        let g = match hex_value(v[start + 8]) {
            Some(d) => d,
            None => {
                return None;
            },
        };
        let h = match hex_value(v[start + 9]) {
            Some(d) => d,
            None => {
                return None;
            },
        };
        let lo: u32 = e * 4096 + f * 256 + g * 16 + h;
        if !(0xDC00 <= lo && lo < 0xE000) {
            return None;
        }
        let combined: u32 = 0x10000 + (cp - 0xD800) * 0x400 + (lo - 0xDC00);
        proof {
            assert(valid_scalar(combined as int));
            assert(v@.skip(start as int).skip(10) =~= v@.skip(start as int + 10));
        }
        match char_of_u32(combined) {
            Some(u) => Some((u, start + 10)),
            None => {
                proof {
                    assert(false);
                }
                None
            },
        }
    } else if 0xDC00 <= cp && cp < 0xE000 {
        None
    } else {
        proof {
            assert(valid_scalar(cp as int));
            assert(v@.skip(start as int).skip(4) =~= v@.skip(start as int + 4));
        }
        match char_of_u32(cp) {
            Some(u) => Some((u, start + 4)),
            None => {
                proof {
                    assert(false);
                }
                None
            },
        }
    }
}

/// A parse result with `pre` put back in front of the parsed value.
spec fn prepend_chars(pre: Seq<char>, o: Option<(Seq<char>, Seq<char>)>) -> Option<
    (Seq<char>, Seq<char>),
> {
    match o {
        Some((c, r)) => Some((pre + c, r)),
        None => None,
    }
}

/// Scans a quoted string body starting at `start`, undoing escapes.
fn take_string_body(v: &Vec<char>, start: usize) -> (r: Option<(Vec<char>, usize)>)
    requires
        start <= v@.len(),
    ensures
        match r {
            Some((c, j)) => start < j <= v@.len() && parse_string_body(v@.skip(start as int))
                == Some((c@, v@.skip(j as int))),
            None => parse_string_body(v@.skip(start as int)) is None,
        },
{
    let mut out: Vec<char> = Vec::new();
    let mut j: usize = start;
    proof {
        match parse_string_body(v@.skip(start as int)) {
            Some((c0, r0)) => {
                assert(Seq::<char>::empty() + c0 =~= c0);
            },
            None => {},
        }
    }
    loop
        invariant
            start <= j <= v@.len(),
            parse_string_body(v@.skip(start as int)) == prepend_chars(
                out@,
                parse_string_body(v@.skip(j as int)),
            ),
        decreases v@.len() - j,
    {
        if j == v.len() {
            proof {
                assert(v@.skip(j as int) =~= Seq::<char>::empty());
            }
            return None;
        }
        let c = v[j];
        proof {
            assert(v@.skip(j as int)[0] == v@[j as int]);
            assert(v@.skip(j as int).len() == v@.len() - j);
        }
        if c == '"' {
            proof {
                assert(v@.skip(j as int).skip(1) =~= v@.skip(j as int + 1));
                assert(out@ + Seq::<char>::empty() =~= out@);
            }
            return Some((out, j + 1));
        } else if c == '\\' {
            if j + 1 == v.len() {
                return None;
            }
            let d = v[j + 1];
            proof {
                assert(v@.skip(j as int)[1] == v@[j as int + 1]);
            }
            if d == 'u' {
                proof {
                    assert(v@.skip(j as int).skip(2) =~= v@.skip(j as int + 2));
                }
                match take_u_escape(v, j + 2) {
                    Some((u, j2)) => {
                        let ghost out_old = out@;
                        out.push(u);
                        proof {
                            assert(v@.skip(j2 as int).len() < v@.skip(j as int).len());
                            match parse_string_body(v@.skip(j2 as int)) {
                                Some((cc, rr)) => {
                                    assert(out_old + (seq![u] + cc) =~= out_old.push(u) + cc);
                                },
                                None => {},
                            }
                        }
                        j = j2;
                    },
                    None => {
                        return None;
                    },
                }
            } else {
                match unescape(d) {
                    Some(u) => {
                        let ghost out_old = out@;
                        out.push(u);
                        proof {
                            assert(v@.skip(j as int).skip(2) =~= v@.skip(j as int + 2));
                            match parse_string_body(v@.skip(j as int + 2)) {
                                Some((cc, rr)) => {
                                    assert(out_old + (seq![u] + cc) =~= out_old.push(u) + cc);
                                },
                                None => {},
                            }
                        }
                        j = j + 2;
                    },
                    None => {
                        return None;
                    },
                }
            }
        } else {
            let ghost out_old = out@;
            out.push(c);
            proof {
                assert(v@.skip(j as int).skip(1) =~= v@.skip(j as int + 1));
                match parse_string_body(v@.skip(j as int + 1)) {
                    Some((cc, rr)) => {
                        assert(out_old + (seq![c] + cc) =~= out_old.push(c) + cc);
                    },
                    None => {},
                }
            }
            j = j + 1;
        }
    }
}

/// Scans one quoted string starting at `start`.
fn take_string(v: &Vec<char>, start: usize) -> (r: Option<(Vec<char>, usize)>)
    requires
        start <= v@.len(),
    ensures
        match r {
            Some((c, j)) => start < j <= v@.len() && parse_string(v@.skip(start as int)) == Some(
                (c@, v@.skip(j as int)),
            ),
            None => parse_string(v@.skip(start as int)) is None,
        },
{
    if start == v.len() {
        proof {
            assert(v@.skip(start as int).len() == 0);
        }
        return None;
    }
    proof {
        assert(v@.skip(start as int)[0] == v@[start as int]);
    }
    if v[start] != '"' {
        return None;
    }
    proof {
        assert(v@.skip(start as int).skip(1) =~= v@.skip(start as int + 1));
    }
    take_string_body(v, start + 1)
}

/// The position of the first non-whitespace character at or after `start`.
fn skip_ws_at(v: &Vec<char>, start: usize) -> (j: usize)
    requires
        start <= v@.len(),
    ensures
        start <= j <= v@.len(),
        skip_ws(v@.skip(start as int)) == v@.skip(j as int),
{
    let mut j = start;
    loop
        invariant
            start <= j <= v@.len(),
            skip_ws(v@.skip(start as int)) == skip_ws(v@.skip(j as int)),
        decreases v@.len() - j,
    {
        if j == v.len() {
            proof {
                assert(v@.skip(j as int).len() == 0);
            }
            return j;
        }
        let c = v[j];
        proof {
            assert(v@.skip(j as int)[0] == v@[j as int]);
        }
        if c == ' ' || c == '\t' || c == '\n' || c == '\r' {
            proof {
                assert(is_ws_char(v@[j as int]));
                assert(v@.skip(j as int).skip(1) =~= v@.skip(j as int + 1));
            }
            j = j + 1;
        } else {
            proof {
                assert(!is_ws_char(v@[j as int]));
            }
            return j;
        }
    }
}

/// The position after the leading decimal digits at `start`.
fn take_digits(v: &Vec<char>, start: usize) -> (j: usize)
    requires
        start <= v@.len(),
    ensures
        start <= j <= v@.len(),
        skip_digits(v@.skip(start as int)) == v@.skip(j as int),
        start < v@.len() && is_digit(v@[start as int]) ==> j > start,
{
    let mut j = start;
    loop
        invariant
            start <= j <= v@.len(),
            skip_digits(v@.skip(start as int)) == skip_digits(v@.skip(j as int)),
        decreases v@.len() - j,
    {
        if j == v.len() {
            proof {
                assert(v@.skip(j as int).len() == 0);
            }
            return j;
        }
        let c = v[j];
        proof {
            assert(v@.skip(j as int)[0] == v@[j as int]);
        }
        if '0' <= c && c <= '9' {
            proof {
                assert(is_digit(v@[j as int]));
                assert(v@.skip(j as int).skip(1) =~= v@.skip(j as int + 1));
            }
            j = j + 1;
        } else {
            proof {
                assert(!is_digit(v@[j as int]));
            }
            return j;
        }
    }
}

/// Scans one JSON number starting at `start`.
fn take_number(v: &Vec<char>, start: usize) -> (r: Option<usize>)
    requires
        start <= v@.len(),
    ensures
        match r {
            Some(j) => start < j <= v@.len() && skip_number(v@.skip(start as int)) == Some(
                v@.skip(j as int),
            ),
            None => skip_number(v@.skip(start as int)) is None,
        },
{
    let mut j = start;
    if j < v.len() && v[j] == '-' {
        proof {
            assert(v@.skip(j as int)[0] == v@[j as int]);
            assert(v@.skip(j as int).skip(1) =~= v@.skip(j as int + 1));
        }
        j = j + 1;
    } else {
        proof {
            if j < v@.len() {
                assert(v@.skip(j as int)[0] == v@[j as int]);
            } else {
                assert(v@.skip(j as int).len() == 0);
            }
        }
    }
    if j == v.len() {
        proof {
            assert(v@.skip(j as int).len() == 0);
        }
        return None;
    }
    let c0 = v[j];
    proof {
        assert(v@.skip(j as int)[0] == v@[j as int]);
    }
    if !('0' <= c0 && c0 <= '9') {
        proof {
            assert(!is_digit(v@[j as int]));
        }
        return None;
    }
    let j2: usize = if c0 == '0' {
        proof {
            assert(v@.skip(j as int).skip(1) =~= v@.skip(j as int + 1));
        }
        j + 1
    } else {
        take_digits(v, j)
    };
    // the fraction part
    let j3: usize;
    if j2 < v.len() && v[j2] == '.' {
        proof {
            assert(v@.skip(j2 as int)[0] == v@[j2 as int]);
        }
        if j2 + 1 < v.len() {
            let d1 = v[j2 + 1];
            proof {
                assert(v@.skip(j2 as int)[1] == v@[j2 as int + 1]);
            }
            if '0' <= d1 && d1 <= '9' {
                proof {
                    assert(is_digit(v@[j2 as int + 1]));
                    assert(v@.skip(j2 as int).skip(1) =~= v@.skip(j2 as int + 1));
                }
                j3 = take_digits(v, j2 + 1);
            } else {
                proof {
                    assert(!is_digit(v@[j2 as int + 1]));
                }
                return None;
            }
        } else {
            proof {
                assert(v@.skip(j2 as int).len() == 1);
            }
            return None;
        }
    } else {
        proof {
            if j2 < v@.len() {
                assert(v@.skip(j2 as int)[0] == v@[j2 as int]);
            } else {
                assert(v@.skip(j2 as int).len() == 0);
            }
        }
        j3 = j2;
    }
    // the exponent part
    let j5: usize;
    if j3 < v.len() && (v[j3] == 'e' || v[j3] == 'E') {
        proof {
            assert(v@.skip(j3 as int)[0] == v@[j3 as int]);
        }
        let j4: usize;
        if j3 + 1 < v.len() && (v[j3 + 1] == '+' || v[j3 + 1] == '-') {
            proof {
                assert(v@.skip(j3 as int)[1] == v@[j3 as int + 1]);
                assert(v@.skip(j3 as int).skip(2) =~= v@.skip(j3 as int + 2));
            }
            j4 = j3 + 2;
        } else {
            proof {
                if j3 + 1 < v@.len() {
                    assert(v@.skip(j3 as int)[1] == v@[j3 as int + 1]);
                }
                assert(v@.skip(j3 as int).skip(1) =~= v@.skip(j3 as int + 1));
            }
            j4 = j3 + 1;
        }
        if j4 == v.len() {
            proof {
                assert(v@.skip(j4 as int).len() == 0);
            }
            return None;
        }
        let e0 = v[j4];
        proof {
            assert(v@.skip(j4 as int)[0] == v@[j4 as int]);
        }
        if '0' <= e0 && e0 <= '9' {
            proof {
                assert(is_digit(v@[j4 as int]));
            }
            j5 = take_digits(v, j4);
        } else {
            proof {
                assert(!is_digit(v@[j4 as int]));
            }
            return None;
        }
    } else {
        proof {
            if j3 < v@.len() {
                assert(v@.skip(j3 as int)[0] == v@[j3 as int]);
            } else {
                assert(v@.skip(j3 as int).len() == 0);
            }
        }
        j5 = j3;
    }
    Some(j5)
}

/// Scans one literal starting at `start`.
fn take_literal(v: &Vec<char>, start: usize, lit: &str) -> (r: Option<usize>)
    requires
        start <= v@.len(),
    ensures
        match r {
            Some(j) => start <= j <= v@.len() && j == start + lit@.len() && skip_literal(
                v@.skip(start as int),
                lit@,
            ) == Some(v@.skip(j as int)),
            None => skip_literal(v@.skip(start as int), lit@) is None,
        },
{
    let n = lit.unicode_len();
    let vlen = v.len();
    if vlen - start < n {
        return None;
    }
    let mut i: usize = 0;
    while i < n
        invariant
            i <= n,
            n == lit@.len(),
            vlen == v@.len(),
            start + n <= vlen,
            forall|x: int| 0 <= x < i ==> v@[start as int + x] == lit@[x],
        decreases n - i,
    {
        if v[start + i] != lit.get_char(i) {
            proof {
                assert(v@.skip(start as int)[i as int] == v@[start as int + i]);
            }
            return None;
        }
        i = i + 1;
    }
    proof {
        assert(v@.skip(start as int).take(n as int) =~= lit@);
        assert(v@.skip(start as int).skip(n as int) =~= v@.skip(start as int + n));
    }
    Some(start + n)
}

/// Scans one JSON value starting at `start`: its characters where it is a
/// string, `None` for any other (checked, skipped) value.
fn take_value(v: &Vec<char>, start: usize) -> (r: Option<(Option<Vec<char>>, usize)>)
    requires
        start <= v@.len(),
    ensures
        match r {
            Some((val, j)) => start < j <= v@.len() && parse_value(v@.skip(start as int)) == Some(
                (opt_chars(val), v@.skip(j as int)),
            ),
            None => parse_value(v@.skip(start as int)) is None,
        },
    decreases v@.len() - start, 0int,
{
    if start == v.len() {
        proof {
            assert(v@.skip(start as int).len() == 0);
        }
        return None;
    }
    let c = v[start];
    proof {
        assert(v@.skip(start as int)[0] == v@[start as int]);
    }
    if c == '"' {
        match take_string(v, start) {
            Some((s, j)) => Some((Some(s), j)),
            None => None,
        }
    } else if c == '{' {
        proof {
            assert(v@.skip(start as int).skip(1) =~= v@.skip(start as int + 1));
        }
        let ji = skip_ws_at(v, start + 1);
        if ji < v.len() && v[ji] == '}' {
            proof {
                assert(v@.skip(ji as int)[0] == v@[ji as int]);
                assert(v@.skip(ji as int).skip(1) =~= v@.skip(ji as int + 1));
            }
            Some((None, ji + 1))
        } else {
            proof {
                if ji < v@.len() {
                    assert(v@.skip(ji as int)[0] == v@[ji as int]);
                } else {
                    assert(v@.skip(ji as int).len() == 0);
                }
            }
            match take_members(v, start + 1) {
                Some((_ms, j)) => {
                    if j < v.len() && v[j] == '}' {
                        proof {
                            assert(v@.skip(j as int)[0] == v@[j as int]);
                            assert(v@.skip(j as int).skip(1) =~= v@.skip(j as int + 1));
                        }
                        Some((None, j + 1))
                    } else {
                        proof {
                            if j < v@.len() {
                                assert(v@.skip(j as int)[0] == v@[j as int]);
                            } else {
                                assert(v@.skip(j as int).len() == 0);
                            }
                        }
                        None
                    }
                },
                None => None,
            }
        }
    } else if c == '[' {
        proof {
            assert(v@.skip(start as int).skip(1) =~= v@.skip(start as int + 1));
        }
        let ji = skip_ws_at(v, start + 1);
        if ji < v.len() && v[ji] == ']' {
            proof {
                assert(v@.skip(ji as int)[0] == v@[ji as int]);
                assert(v@.skip(ji as int).skip(1) =~= v@.skip(ji as int + 1));
            }
            Some((None, ji + 1))
        } else {
            proof {
                if ji < v@.len() {
                    assert(v@.skip(ji as int)[0] == v@[ji as int]);
                } else {
                    assert(v@.skip(ji as int).len() == 0);
                }
            }
            match take_elements(v, start + 1) {
                Some(j) => {
                    if j < v.len() && v[j] == ']' {
                        proof {
                            assert(v@.skip(j as int)[0] == v@[j as int]);
                            assert(v@.skip(j as int).skip(1) =~= v@.skip(j as int + 1));
                        }
                        Some((None, j + 1))
                    } else {
                        proof {
                            if j < v@.len() {
                                assert(v@.skip(j as int)[0] == v@[j as int]);
                            } else {
                                assert(v@.skip(j as int).len() == 0);
                            }
                        }
                        None
                    }
                },
                None => None,
            }
        }
    } else if c == 't' {
        proof {
            reveal_strlit("true");
            assert("true"@ =~= lit_true());
        }
        match take_literal(v, start, "true") {
            Some(j) => {
                proof {
                    assert(lit_true().len() == 4);
                }
                Some((None, j))
            },
            None => None,
        }
    } else if c == 'f' {
        proof {
            reveal_strlit("false");
            assert("false"@ =~= lit_false());
        }
        match take_literal(v, start, "false") {
            Some(j) => {
                proof {
                    assert(lit_false().len() == 5);
                }
                Some((None, j))
            },
            None => None,
        }
    } else if c == 'n' {
        proof {
            reveal_strlit("null");
            assert("null"@ =~= lit_null());
        }
        match take_literal(v, start, "null") {
            Some(j) => {
                proof {
                    assert(lit_null().len() == 4);
                }
                Some((None, j))
            },
            None => None,
        }
    } else if c == '-' || ('0' <= c && c <= '9') {
        match take_number(v, start) {
            Some(j) => Some((None, j)),
            None => None,
        }
    } else {
        proof {
            assert(!is_digit(v@[start as int]));
        }
        None
    }
}

/// Scans comma-separated array elements starting at `start`, leaving the
/// rest at the closing bracket.
fn take_elements(v: &Vec<char>, start: usize) -> (r: Option<usize>)
    requires
        start <= v@.len(),
    ensures
        match r {
            Some(j) => start <= j <= v@.len() && parse_elements(v@.skip(start as int)) == Some(
                v@.skip(j as int),
            ),
            None => parse_elements(v@.skip(start as int)) is None,
        },
    decreases v@.len() - start, 1int,
{
    let mut cur: usize = start;
    loop
        invariant
            start <= cur <= v@.len(),
            parse_elements(v@.skip(start as int)) == parse_elements(v@.skip(cur as int)),
        decreases v@.len() - cur,
    {
        let s1 = skip_ws_at(v, cur);
        match take_value(v, s1) {
            None => {
                return None;
            },
            Some((_val, j)) => {
                let jc = skip_ws_at(v, j);
                if jc < v.len() && v[jc] == ',' {
                    proof {
                        assert(v@.skip(jc as int)[0] == v@[jc as int]);
                        assert(v@.skip(jc as int).len() < v@.skip(cur as int).len());
                        assert(v@.skip(jc as int).skip(1) =~= v@.skip(jc as int + 1));
                    }
                    cur = jc + 1;
                } else {
                    proof {
                        if jc < v@.len() {
                            assert(v@.skip(jc as int)[0] == v@[jc as int]);
                        } else {
                            assert(v@.skip(jc as int).len() == 0);
                        }
                    }
                    return Some(jc);
                }
            },
        }
    }
}

/// Scans one `"key": value` member starting at `start`.
fn take_pair(v: &Vec<char>, start: usize) -> (r: Option<(Vec<char>, Option<Vec<char>>, usize)>)
    requires
        start <= v@.len(),
    ensures
        match r {
            Some((k, val, j)) => start < j <= v@.len() && parse_pair(v@.skip(start as int))
                == Some(((k@, opt_chars(val)), v@.skip(j as int))),
            None => parse_pair(v@.skip(start as int)) is None,
        },
    decreases v@.len() - start, 1int,
{
    let j0 = skip_ws_at(v, start);
    match take_string(v, j0) {
        None => None,
        Some((k, j1)) => {
            let j2 = skip_ws_at(v, j1);
            if j2 == v.len() {
                proof {
                    assert(v@.skip(j2 as int).len() == 0);
                }
                return None;
            }
            proof {
                assert(v@.skip(j2 as int)[0] == v@[j2 as int]);
            }
            if v[j2] != ':' {
                return None;
            }
            proof {
                assert(v@.skip(j2 as int).skip(1) =~= v@.skip(j2 as int + 1));
            }
            let j3 = skip_ws_at(v, j2 + 1);
            match take_value(v, j3) {
                None => None,
                Some((val, j4)) => Some((k, val, j4)),
            }
        },
    }
}

/// The members a vector of scanned pairs stands for.
pub(crate) open spec fn members_view(s: Seq<(Vec<char>, Option<Vec<char>>)>) -> Seq<
    (Seq<char>, Option<Seq<char>>),
> {
    s.map(|i: int, p: (Vec<char>, Option<Vec<char>>)| (p.0@, opt_chars(p.1)))
}

/// A member-list parse result with `pre` put back in front.
spec fn prepend_members(
    pre: Seq<(Seq<char>, Option<Seq<char>>)>,
    o: Option<(Seq<(Seq<char>, Option<Seq<char>>)>, Seq<char>)>,
) -> Option<(Seq<(Seq<char>, Option<Seq<char>>)>, Seq<char>)> {
    match o {
        Some((ms, r)) => Some((pre + ms, r)),
        None => None,
    }
}

/// Scans the comma-separated members starting at `start`.
fn take_members(v: &Vec<char>, start: usize) -> (r: Option<
    (Vec<(Vec<char>, Option<Vec<char>>)>, usize),
>)
    requires
        start <= v@.len(),
    ensures
        match r {
            Some((ms, j)) => start <= j <= v@.len() && parse_members(v@.skip(start as int))
                == Some((members_view(ms@), v@.skip(j as int))),
            None => parse_members(v@.skip(start as int)) is None,
        },
    decreases v@.len() - start, 2int,
{
    let mut ms: Vec<(Vec<char>, Option<Vec<char>>)> = Vec::new();
    let mut j: usize = start;
    proof {
        assert(members_view(ms@) =~= Seq::<(Seq<char>, Option<Seq<char>>)>::empty());
        match parse_members(v@.skip(start as int)) {
            Some((ms0, r0)) => {
                assert(Seq::<(Seq<char>, Option<Seq<char>>)>::empty() + ms0 =~= ms0);
            },
            None => {},
        }
    }
    loop
        invariant
            start <= j <= v@.len(),
            parse_members(v@.skip(start as int)) == prepend_members(
                members_view(ms@),
                parse_members(v@.skip(j as int)),
            ),
        decreases v@.len() - j,
    {
        match take_pair(v, j) {
            None => {
                return None;
            },
            Some((k, val, j2)) => {
                let ghost ms_old = ms@;
                let ghost pair_view = (k@, opt_chars(val));
                let jc = skip_ws_at(v, j2);
                if jc < v.len() && v[jc] == ',' {
                    ms.push((k, val));
                    proof {
                        assert(v@.skip(jc as int)[0] == v@[jc as int]);
                        assert(v@.skip(jc as int).len() < v@.skip(j as int).len());
                        assert(v@.skip(jc as int).skip(1) =~= v@.skip(jc as int + 1));
                        assert(members_view(ms@) =~= members_view(ms_old).push(pair_view));
                        match parse_members(v@.skip(jc as int + 1)) {
                            Some((mms, rr)) => {
                                assert(members_view(ms_old) + (seq![pair_view] + mms)
                                    =~= members_view(ms_old).push(pair_view) + mms);
                            },
                            None => {},
                        }
                    }
                    j = jc + 1;
                } else {
                    ms.push((k, val));
                    proof {
                        if jc < v@.len() {
                            assert(v@.skip(jc as int)[0] == v@[jc as int]);
                        } else {
                            assert(v@.skip(jc as int).len() == 0);
                        }
                        assert(members_view(ms@) =~= members_view(ms_old).push(pair_view));
                        assert(members_view(ms_old) + seq![pair_view] =~= members_view(
                            ms_old,
                        ).push(pair_view));
                    }
                    return Some((ms, jc));
                }
            },
        }
    }
}

/// The value under the member with the given key, copied out; when a key
/// repeats, the last occurrence wins.
fn find_member(ms: &Vec<(Vec<char>, Option<Vec<char>>)>, key: &str) -> (r: Option<Option<String>>)
    ensures
        match r {
            Some(val) => lookup(members_view(ms@), key@) == Some(opt_string(val)),
            None => lookup(members_view(ms@), key@) is None,
        },
{
    let mut best: Option<Option<String>> = None;
    let mut i: usize = 0;
    proof {
        assert(members_view(ms@).take(0) =~= Seq::<(Seq<char>, Option<Seq<char>>)>::empty());
    }
    while i < ms.len()
        invariant
            i <= ms@.len(),
            match best {
                Some(val) => lookup(members_view(ms@).take(i as int), key@) == Some(
                    opt_string(val),
                ),
                None => lookup(members_view(ms@).take(i as int), key@) is None,
            },
        decreases ms@.len() - i,
    {
        proof {
            assert(members_view(ms@).take(i as int + 1).last() == members_view(ms@)[i as int]);
            assert(members_view(ms@)[i as int] == (ms@[i as int].0@, opt_chars(ms@[i as int].1)));
            assert(members_view(ms@).take(i as int + 1).drop_last() =~= members_view(ms@).take(
                i as int,
            ));
        }
        if chars_eq_str(&ms[i].0, key) {
            let val: Option<String> = match &ms[i].1 {
                Some(c) => Some(string_of_chars(c)),
                None => None,
            };
            proof {
                assert(opt_string(val) == opt_chars(ms@[i as int].1));
            }
            best = Some(val);
        }
        i = i + 1;
    }
    proof {
        assert(members_view(ms@).take(ms@.len() as int) =~= members_view(ms@));
    }
    best
}

/// Decodes a frame into its raw tag and optional fields, or `None` where
/// the frame is malformed.
pub(crate) fn decode_fields(message: &str) -> (r: Option<(String, Option<String>, Option<String>)>)
    ensures
        match r {
            Some((t, id, text)) => spec_parse_message(message@) == Some(
                MessageModel { message_type: t@, id: id.deep_view(), text: text.deep_view() },
            ),
            None => spec_parse_message(message@) is None,
        },
{
    proof {
        reveal_strlit("type");
        reveal_strlit("id");
        reveal_strlit("text");
        assert("type"@ =~= key_type());
        assert("id"@ =~= key_id());
        assert("text"@ =~= key_text());
    }
    let v = str_chars(message);
    proof {
        assert(v@.skip(0) =~= v@);
    }
    let j0 = skip_ws_at(&v, 0);
    if j0 == v.len() {
        proof {
            assert(v@.skip(j0 as int).len() == 0);
        }
        return None;
    }
    proof {
        assert(v@.skip(j0 as int)[0] == v@[j0 as int]);
    }
    if v[j0] != '{' {
        return None;
    }
    proof {
        assert(v@.skip(j0 as int).skip(1) =~= v@.skip(j0 as int + 1));
    }
    let ji = skip_ws_at(&v, j0 + 1);
    if ji < v.len() && v[ji] == '}' {
        // an empty object, possibly followed by whitespace: either way it
        // has no type member
        proof {
            assert(v@.skip(ji as int)[0] == v@[ji as int]);
            assert(v@.skip(ji as int).skip(1) =~= v@.skip(ji as int + 1));
        }
        let jt = skip_ws_at(&v, ji + 1);
        proof {
            assert(v@.skip(jt as int).len() == v@.len() - jt);
            assert(lookup(Seq::<(Seq<char>, Option<Seq<char>>)>::empty(), key_type()) is None);
        }
        return None;
    }
    proof {
        if ji < v@.len() {
            assert(v@.skip(ji as int)[0] == v@[ji as int]);
        } else {
            assert(v@.skip(ji as int).len() == 0);
        }
    }
    match take_members(&v, j0 + 1) {
        None => None,
        Some((ms, j)) => {
            if j < v.len() && v[j] == '}' {
                proof {
                    assert(v@.skip(j as int)[0] == v@[j as int]);
                    assert(v@.skip(j as int).skip(1) =~= v@.skip(j as int + 1));
                }
                let jt = skip_ws_at(&v, j + 1);
                if jt == v.len() {
                    proof {
                        assert(v@.skip(jt as int).len() == 0);
                        assert(parse_object(message@) == Some(members_view(ms@)));
                    }
                    match find_member(&ms, "type") {
                        Some(Some(t)) => {
                            let idm = find_member(&ms, "id");
                            let textm = find_member(&ms, "text");
                            let id: Option<String> = match idm {
                                Some(Some(x)) => Some(x),
                                _ => None,
                            };
                            let text: Option<String> = match textm {
                                Some(Some(x)) => Some(x),
                                _ => None,
                            };
                            Some((t, id, text))
                        },
                        Some(None) => None,
                        None => None,
                    }
                } else {
                    proof {
                        assert(v@.skip(jt as int).len() == v@.len() - jt);
                    }
                    None
                }
            } else {
                proof {
                    if j < v@.len() {
                        assert(v@.skip(j as int)[0] == v@[j as int]);
                    } else {
                        assert(v@.skip(j as int).len() == 0);
                    }
                }
                None
            }
        },
    }
}


} // verus!
