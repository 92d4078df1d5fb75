//! The JSON wire format for string values and tag arrays: serialization,
//! parsing, and round-trip lemmas. Output escapes `"`, `\` and every control
//! character; input additionally accepts the other standard escapes and
//! insignificant whitespace between array tokens.
use vstd::prelude::*;
use crate::text::push_char;

verus! {

/// The character for one hexadecimal digit, lower case.
pub open spec fn hex_char(d: nat) -> char {
    if d == 0 {
        '0'
    } else if d == 1 {
        '1'
    } else if d == 2 {
        '2'
    } else if d == 3 {
        '3'
    } else if d == 4 {
        '4'
    } else if d == 5 {
        '5'
    } else if d == 6 {
        '6'
    } else if d == 7 {
        '7'
    } else if d == 8 {
        '8'
    } else if d == 9 {
        '9'
    } else if d == 10 {
        'a'
    } else if d == 11 {
        'b'
    } else if d == 12 {
        'c'
    } else if d == 13 {
        'd'
    } else if d == 14 {
        'e'
    } else {
        'f'
    }
}

/// The value of a hexadecimal digit character, either case; 16 otherwise.
pub open spec fn hex_val(c: char) -> nat {
    if c == '0' {
        0
    } else if c == '1' {
        1
    } else if c == '2' {
        2
    } else if c == '3' {
        3
    } else if c == '4' {
        4
    } else if c == '5' {
        5
    } else if c == '6' {
        6
    } else if c == '7' {
        7
    } else if c == '8' {
        8
    } else if c == '9' {
        9
    } else if c == 'a' || c == 'A' {
        10
    } else if c == 'b' || c == 'B' {
        11
    } else if c == 'c' || c == 'C' {
        12
    } else if c == 'd' || c == 'D' {
        13
    } else if c == 'e' || c == 'E' {
        14
    } else if c == 'f' || c == 'F' {
        15
    } else {
        16
    }
}

pub proof fn lemma_hex_char_val(d: nat)
    requires
        d < 16,
    ensures
        hex_val(hex_char(d)) == d,
{
}

/// The escape sequence a character prints as inside a quoted JSON string:
/// `"` and `\` by a backslash, control characters as `\u00XX`, the rest as
/// themselves.
pub open spec fn esc_char(c: char) -> Seq<char> {
    if c == '"' {
        seq!['\\', '"']
    } else if c == '\\' {
        seq!['\\', '\\']
    } else if (c as nat) < 0x20 {
        seq!['\\', 'u', '0', '0', hex_char((c as nat) / 16), hex_char((c as nat) % 16)]
    } else {
        seq![c]
    }
}

/// The body of a quoted string: each character escaped.
pub open spec fn spec_escape(s: Seq<char>) -> Seq<char>
    decreases s.len(),
{
    if s.len() == 0 {
        Seq::empty()
    } else {
        esc_char(s[0]) + spec_escape(s.drop_first())
    }
}

/// A string value as JSON: escaped body between double quotes.
pub open spec fn spec_quote(s: Seq<char>) -> Seq<char> {
    seq!['"'] + spec_escape(s) + seq!['"']
}

pub proof fn lemma_escape_concat(a: Seq<char>, b: Seq<char>)
    ensures
        spec_escape(a + b) == spec_escape(a) + spec_escape(b),
    decreases a.len(),
{
    if a.len() == 0 {
        assert(a + b =~= b);
        assert(spec_escape(a) + spec_escape(b) =~= spec_escape(b));
    } else {
        assert((a + b).len() > 0);
        assert((a + b)[0] == a[0]);
        assert((a + b).drop_first() =~= a.drop_first() + b);
        lemma_escape_concat(a.drop_first(), b);
        assert(esc_char(a[0]) + (spec_escape(a.drop_first()) + spec_escape(b)) =~= (esc_char(a[0])
            + spec_escape(a.drop_first())) + spec_escape(b));
    }
}

/// A string without quotes, backslashes or control characters escapes to
/// itself.
pub proof fn lemma_escape_plain(s: Seq<char>)
    requires
        forall|i: int| 0 <= i < s.len() ==> s[i] != '"' && s[i] != '\\' && (s[i] as nat) >= 0x20,
    ensures
        spec_escape(s) == s,
    decreases s.len(),
{
    if s.len() > 0 {
        lemma_escape_plain(s.drop_first());
        assert(spec_escape(s) =~= seq![s[0]] + s.drop_first());
        assert(seq![s[0]] + s.drop_first() =~= s);
    }
}

/// A character is recovered from its code point.
proof fn lemma_char_of_val(c: char, v: u32)
    requires
        v < 0xD800 || (0xE000 <= v && v <= 0x10FFFF),
        c as u32 == v,
    ensures
        c == (v as nat) as char,
{
    assert(((v as nat) as char) as nat == v as nat);
    assert(c as nat == v as nat) by {
        assert(c as u32 == v);
    }
}

/// Casting a character's code point back to `char` is the identity.
proof fn lemma_val_of_char(c: char)
    requires
        (c as nat) < 0xD800,
    ensures
        ((c as nat) as char) == c,
{
    let v: nat = c as nat;
    assert((v as char) as nat == v);
}

/// The character a short escape after a backslash denotes.
pub open spec fn short_escape(e: char) -> char {
    if e == 'n' {
        '\n'
    } else if e == 't' {
        '\t'
    } else if e == 'r' {
        '\r'
    } else if e == 'b' {
        '\u{0008}'
    } else {
        '\u{000C}'
    }
}

/// Parse of a quoted string's body, after the opening quote: characters up
/// to the first unescaped closing quote. Backslash escapes — `\"`, `\\`,
/// `\/`, `\n`, `\t`, `\r`, `\b`, `\f` and `\uXXXX` for non-surrogate code
/// points — are decoded; raw control characters are rejected.
pub open spec fn spec_parse_str_body(s: Seq<char>) -> Option<(Seq<char>, Seq<char>)>
    decreases s.len(),
{
    if s.len() == 0 {
        None
    } else if s[0] == '"' {
        Some((Seq::empty(), s.drop_first()))
    } else if s[0] == '\\' {
        if s.len() >= 2 && (s[1] == '"' || s[1] == '\\' || s[1] == '/') {
            match spec_parse_str_body(s.skip(2)) {
                None => None,
                Some((t, r)) => Some((seq![s[1]] + t, r)),
            }
        } else if s.len() >= 2 && (s[1] == 'n' || s[1] == 't' || s[1] == 'r' || s[1] == 'b' || s[1]
            == 'f') {
            match spec_parse_str_body(s.skip(2)) {
                None => None,
                Some((t, r)) => Some((seq![short_escape(s[1])] + t, r)),
            }
        } else if s.len() >= 6 && s[1] == 'u' && hex_val(s[2]) < 16 && hex_val(s[3]) < 16 && hex_val(
            s[4],
        ) < 16 && hex_val(s[5]) < 16 {
            let v = hex_val(s[2]) * 4096 + hex_val(s[3]) * 256 + hex_val(s[4]) * 16 + hex_val(s[5]);
            if 0xD800 <= v && v <= 0xDFFF {
                None
            } else {
                match spec_parse_str_body(s.skip(6)) {
                    None => None,
                    Some((t, r)) => Some((seq![v as char] + t, r)),
                }
            }
        } else {
            None
        }
    } else if (s[0] as nat) < 0x20 {
        None
    } else {
        match spec_parse_str_body(s.drop_first()) {
            None => None,
            Some((t, r)) => Some((seq![s[0]] + t, r)),
        }
    }
}

/// Parse of a whole quoted string, opening quote included.
pub open spec fn spec_parse_quoted(s: Seq<char>) -> Option<(Seq<char>, Seq<char>)> {
    if s.len() > 0 && s[0] == '"' {
        spec_parse_str_body(s.drop_first())
    } else {
        None
    }
}

/// A successful body parse consumes at least the closing quote.
pub proof fn lemma_parse_str_body_shrinks(s: Seq<char>)
    ensures
        spec_parse_str_body(s) matches Some(p) ==> p.1.len() < s.len(),
    decreases s.len(),
{
    if s.len() == 0 {
    } else if s[0] == '"' {
    } else if s[0] == '\\' {
        if s.len() >= 2 && (s[1] == '"' || s[1] == '\\' || s[1] == '/' || s[1] == 'n' || s[1] == 't'
            || s[1] == 'r' || s[1] == 'b' || s[1] == 'f') {
            lemma_parse_str_body_shrinks(s.skip(2));
        } else if s.len() >= 6 && s[1] == 'u' {
            lemma_parse_str_body_shrinks(s.skip(6));
        }
    } else {
        lemma_parse_str_body_shrinks(s.drop_first());
    }
}

/// A successful quoted parse consumes at least the two quotes.
pub proof fn lemma_parse_quoted_shrinks(s: Seq<char>)
    ensures
        spec_parse_quoted(s) matches Some(p) ==> p.1.len() < s.len() - 1,
{
    if s.len() > 0 && s[0] == '"' {
        lemma_parse_str_body_shrinks(s.drop_first());
    }
}

/// Parsing an escaped body followed by a closing quote yields the original
/// string and the remainder after the quote.
#[verifier::rlimit(100)]
pub proof fn lemma_parse_str_body_round_trip(s: Seq<char>, rest: Seq<char>)
    ensures
        spec_parse_str_body(spec_escape(s) + seq!['"'] + rest) == Some((s, rest)),
    decreases s.len(),
{
    let w = spec_escape(s) + seq!['"'] + rest;
    if s.len() == 0 {
        assert(spec_escape(s) =~= Seq::<char>::empty());
        assert(w =~= seq!['"'] + rest);
        assert(w[0] == '"');
        assert(w.drop_first() =~= rest);
    } else {
        let c = s[0];
        let t = s.drop_first();
        lemma_parse_str_body_round_trip(t, rest);
        let inner = spec_escape(t) + seq!['"'] + rest;
        if c == '"' || c == '\\' {
            assert(w =~= seq!['\\', c] + inner);
            assert(w[0] == '\\');
            assert(w[1] == c);
            assert(w.len() >= 2);
            assert(w.skip(2) =~= inner);
            assert(seq![c] + t =~= s);
        } else if (c as nat) < 0x20 {
            let cv = c as nat;
            let h1 = hex_char(cv / 16);
            let h2 = hex_char(cv % 16);
            assert(w =~= seq!['\\', 'u', '0', '0', h1, h2] + inner);
            assert(w[0] == '\\' && w[1] == 'u' && w[2] == '0' && w[3] == '0' && w[4] == h1 && w[5]
                == h2);
            assert(w.len() >= 6);
            lemma_hex_char_val(cv / 16);
            lemma_hex_char_val(cv % 16);
            assert(hex_val('0') == 0);
            let v = hex_val(w[2]) * 4096 + hex_val(w[3]) * 256 + hex_val(w[4]) * 16 + hex_val(w[5]);
            assert(v == (cv / 16) * 16 + cv % 16);
            assert(v == cv);
            assert(!(0xD800 <= v && v <= 0xDFFF));
            assert(w.skip(6) =~= inner);
            lemma_val_of_char(c);
            assert(v as char == c);
            assert(seq![c] + t =~= s);
        } else {
            assert(w =~= seq![c] + inner);
            assert(w[0] == c);
            assert(w.drop_first() =~= inner);
            assert(seq![c] + t =~= s);
        }
    }
}

/// Round trip for a whole quoted string.
pub proof fn lemma_parse_quoted_round_trip(s: Seq<char>, rest: Seq<char>)
    ensures
        spec_parse_quoted(spec_quote(s) + rest) == Some((s, rest)),
{
    let w = spec_quote(s) + rest;
    assert(w =~= seq!['"'] + (spec_escape(s) + seq!['"'] + rest));
    assert(w[0] == '"');
    assert(w.drop_first() =~= spec_escape(s) + seq!['"'] + rest);
    lemma_parse_str_body_round_trip(s, rest);
}

/// Appends the escaped body of `s` to `out`.
pub fn push_escaped(out: &mut String, s: &str)
    ensures
        final(out)@ == old(out)@ + spec_escape(s@),
{
    let n = s.unicode_len();
    let mut i: usize = 0;
    while i < n
        invariant
            i <= n,
            n == s@.len(),
            out@ == old(out)@ + spec_escape(s@.take(i as int)),
        decreases n - i,
    {
        let c = s.get_char(i);
        if c == '"' {
            push_char(out, '\\');
            push_char(out, '"');
        } else if c == '\\' {
            push_char(out, '\\');
            push_char(out, '\\');
        } else if (c as u32) < 0x20 {
            push_char(out, '\\');
            push_char(out, 'u');
            push_char(out, '0');
            push_char(out, '0');
            push_char(out, hex_to_char((c as u32) / 16));
            push_char(out, hex_to_char((c as u32) % 16));
        } else {
            push_char(out, c);
        }
        proof {
            lemma_escape_concat(s@.take(i as int), seq![c]);
            assert(s@.take(i as int + 1) =~= s@.take(i as int) + seq![c]);
            assert(seq![c].drop_first() =~= Seq::<char>::empty());
            assert(spec_escape(Seq::<char>::empty()) =~= Seq::<char>::empty());
            assert(spec_escape(seq![c]) =~= esc_char(c) + spec_escape(seq![c].drop_first()));
            assert(spec_escape(seq![c]) =~= esc_char(c));
            assert(out@ =~= old(out)@ + spec_escape(s@.take(i as int + 1)));
        }
        i += 1;
    }
    proof {
        assert(s@.take(n as int) =~= s@);
    }
}

fn hex_to_char(d: u32) -> (c: char)
    requires
        d < 16,
    ensures
        c == hex_char(d as nat),
{
    if d == 0 {
        '0'
    } else if d == 1 {
        '1'
    } else if d == 2 {
        '2'
    } else if d == 3 {
        '3'
    } else if d == 4 {
        '4'
    } else if d == 5 {
        '5'
    } else if d == 6 {
        '6'
    } else if d == 7 {
        '7'
    } else if d == 8 {
        '8'
    } else if d == 9 {
        '9'
    } else if d == 10 {
        'a'
    } else if d == 11 {
        'b'
    } else if d == 12 {
        'c'
    } else if d == 13 {
        'd'
    } else if d == 14 {
        'e'
    } else {
        'f'
    }
}

fn char_to_hex(c: char) -> (r: Option<u32>)
    ensures
        match r {
            Some(d) => d < 16 && hex_val(c) == d as nat,
            None => hex_val(c) == 16,
        },
{
    match c {
        '0' => Some(0u32),
        '1' => Some(1u32),
        '2' => Some(2u32),
        '3' => Some(3u32),
        '4' => Some(4u32),
        '5' => Some(5u32),
        '6' => Some(6u32),
        '7' => Some(7u32),
        '8' => Some(8u32),
        '9' => Some(9u32),
        'a' | 'A' => Some(10u32),
        'b' | 'B' => Some(11u32),
        'c' | 'C' => Some(12u32),
        'd' | 'D' => Some(13u32),
        'e' | 'E' => Some(14u32),
        'f' | 'F' => Some(15u32),
        _ => None,
    }
}

/// Relies on std's `char::from_u32`: `Some` exactly for Unicode scalar
/// values (below the surrogate range, or between it and the last code
/// point), carrying the given value.
#[verifier::external_body]
fn char_from_u32(v: u32) -> (r: Option<char>)
    ensures
        (r is Some) <==> (v < 0xD800 || (0xE000 <= v && v <= 0x10FFFF)),
        r matches Some(c) ==> c as u32 == v,
{
    char::from_u32(v)
}

/// Appends `s` as a quoted JSON string to `out`.
pub fn push_quoted(out: &mut String, s: &str)
    ensures
        final(out)@ == old(out)@ + spec_quote(s@),
{
    push_char(out, '"');
    push_escaped(out, s);
    push_char(out, '"');
    proof {
        assert(final(out)@ =~= old(out)@ + spec_quote(s@));
    }
}

/// Parses a quoted string's body, decoding escapes, up to the closing quote.
pub fn parse_str_body<'a>(s: &'a str) -> (r: Option<(String, &'a str)>)
    ensures
        match r {
            Some(p) => spec_parse_str_body(s@) == Some((p.0@, p.1@)),
            None => spec_parse_str_body(s@) is None,
        },
    decreases s@.len(),
{
    let n = s.unicode_len();
    if n == 0 {
        return None;
    }
    let c = s.get_char(0);
    if c == '"' {
        let rest = s.substring_char(1, n);
        proof {
            assert(rest@ =~= s@.drop_first());
        }
        return Some((String::new(), rest));
    }
    if c == '\\' {
        if n < 2 {
            return None;
        }
        let e = s.get_char(1);
        if e == '"' || e == '\\' || e == '/' {
            let tail = s.substring_char(2, n);
            proof {
                assert(tail@ =~= s@.skip(2));
            }
            match parse_str_body(tail) {
                None => None,
                Some((v, rest)) => {
                    let mut out = String::new();
                    push_char(&mut out, e);
                    out.append(v.as_str());
                    proof {
                        assert(out@ =~= seq![s@[1]] + v@);
                    }
                    Some((out, rest))
                },
            }
        } else if e == 'n' || e == 't' || e == 'r' || e == 'b' || e == 'f' {
            let d: char = if e == 'n' {
                '\n'
            } else if e == 't' {
                '\t'
            } else if e == 'r' {
                '\r'
            } else if e == 'b' {
                '\u{0008}'
            } else {
                '\u{000C}'
            };
            let tail = s.substring_char(2, n);
            proof {
                assert(tail@ =~= s@.skip(2));
            }
            match parse_str_body(tail) {
                None => None,
                Some((v, rest)) => {
                    let mut out = String::new();
                    push_char(&mut out, d);
                    out.append(v.as_str());
                    proof {
                        assert(out@ =~= seq![short_escape(s@[1])] + v@);
                    }
                    Some((out, rest))
                },
            }
        } else if e == 'u' {
            if n < 6 {
                return None;
            }
            let h1 = match char_to_hex(s.get_char(2)) {
                None => { return None; },
                Some(d) => d,
            };
            let h2 = match char_to_hex(s.get_char(3)) {
                None => { return None; },
                Some(d) => d,
            };
            let h3 = match char_to_hex(s.get_char(4)) {
                None => { return None; },
                Some(d) => d,
            };
            let h4 = match char_to_hex(s.get_char(5)) {
                None => { return None; },
                Some(d) => d,
            };
            let v: u32 = h1 * 4096 + h2 * 256 + h3 * 16 + h4;
            if 0xD800 <= v && v <= 0xDFFF {
                return None;
            }
            let decoded = match char_from_u32(v) {
                None => { return None; },
                Some(c2) => c2,
            };
            let tail = s.substring_char(6, n);
            proof {
                assert(tail@ =~= s@.skip(6));
            }
            match parse_str_body(tail) {
                None => None,
                Some((t, rest)) => {
                    let mut out = String::new();
                    push_char(&mut out, decoded);
                    out.append(t.as_str());
                    proof {
                        lemma_char_of_val(decoded, v);
                        assert(out@ =~= seq![(v as nat) as char] + t@);
                    }
                    Some((out, rest))
                },
            }
        } else {
            None
        }
    } else if (c as u32) < 0x20 {
        None
    } else {
        let tail = s.substring_char(1, n);
        proof {
            assert(tail@ =~= s@.drop_first());
        }
        match parse_str_body(tail) {
            None => None,
            Some((v, rest)) => {
                let mut out = String::new();
                push_char(&mut out, c);
                out.append(v.as_str());
                proof {
                    assert(out@ =~= seq![s@[0]] + v@);
                }
                Some((out, rest))
            },
        }
    }
}

/// Parses a whole quoted string, opening quote included.
pub fn parse_quoted<'a>(s: &'a str) -> (r: Option<(String, &'a str)>)
    ensures
        match r {
            Some(p) => spec_parse_quoted(s@) == Some((p.0@, p.1@)),
            None => spec_parse_quoted(s@) is None,
        },
{
    let n = s.unicode_len();
    if n == 0 {
        return None;
    }
    if s.get_char(0) != '"' {
        return None;
    }
    let body = s.substring_char(1, n);
    proof {
        assert(body@ =~= s@.drop_first());
    }
    parse_str_body(body)
}

/// JSON's insignificant whitespace characters.
pub open spec fn is_ws(c: char) -> bool {
    c == ' ' || c == '\t' || c == '\n' || c == '\r'
}

/// The remainder of `s` after its leading whitespace.
pub open spec fn spec_skip_ws(s: Seq<char>) -> Seq<char>
    decreases s.len(),
{
    if s.len() > 0 && is_ws(s[0]) {
        spec_skip_ws(s.drop_first())
    } else {
        s
    }
}

/// Skipping whitespace leaves a string that does not start with any alone.
pub proof fn lemma_skip_ws_noop(s: Seq<char>)
    requires
        s.len() == 0 || !is_ws(s[0]),
    ensures
        spec_skip_ws(s) == s,
{
}

pub proof fn lemma_skip_ws_len(s: Seq<char>)
    ensures
        spec_skip_ws(s).len() <= s.len(),
    decreases s.len(),
{
    if s.len() > 0 && is_ws(s[0]) {
        lemma_skip_ws_len(s.drop_first());
    }
}

/// Advances past leading whitespace.
pub fn skip_ws<'a>(s: &'a str) -> (r: &'a str)
    ensures
        r@ == spec_skip_ws(s@),
    decreases s@.len(),
{
    let n = s.unicode_len();
    if n == 0 {
        return s;
    }
    let c = s.get_char(0);
    if c == ' ' || c == '\t' || c == '\n' || c == '\r' {
        let t = s.substring_char(1, n);
        proof {
            assert(t@ =~= s@.drop_first());
        }
        skip_ws(t)
    } else {
        s
    }
}

/// The tail of a serialized tag array: a comma and a quoted string per tag.
pub open spec fn spec_tags_tail(tags: Seq<Seq<char>>) -> Seq<char>
    decreases tags.len(),
{
    if tags.len() == 0 {
        Seq::empty()
    } else {
        seq![','] + spec_quote(tags[0]) + spec_tags_tail(tags.drop_first())
    }
}

/// A tag array as JSON: quoted strings, comma-separated, in brackets.
pub open spec fn spec_tags_json(tags: Seq<Seq<char>>) -> Seq<char> {
    if tags.len() == 0 {
        seq!['[', ']']
    } else {
        seq!['['] + spec_quote(tags[0]) + spec_tags_tail(tags.drop_first()) + seq![']']
    }
}

pub proof fn lemma_tags_tail_snoc(tags: Seq<Seq<char>>, t: Seq<char>)
    ensures
        spec_tags_tail(tags.push(t)) == spec_tags_tail(tags) + (seq![','] + spec_quote(t)),
    decreases tags.len(),
{
    if tags.len() == 0 {
        assert(tags.push(t).drop_first() =~= Seq::<Seq<char>>::empty());
        assert(spec_tags_tail(Seq::<Seq<char>>::empty()) =~= Seq::<char>::empty());
        assert(spec_tags_tail(tags.push(t)) =~= seq![','] + spec_quote(t));
        assert(spec_tags_tail(tags) =~= Seq::<char>::empty());
        assert(spec_tags_tail(tags) + (seq![','] + spec_quote(t)) =~= seq![','] + spec_quote(t));
    } else {
        assert(tags.push(t).drop_first() =~= tags.drop_first().push(t));
        lemma_tags_tail_snoc(tags.drop_first(), t);
        assert(tags.push(t)[0] == tags[0]);
        assert(seq![','] + spec_quote(tags[0]) + (spec_tags_tail(tags.drop_first()) + (seq![',']
            + spec_quote(t))) =~= (seq![','] + spec_quote(tags[0]) + spec_tags_tail(
            tags.drop_first(),
        )) + (seq![','] + spec_quote(t)));
    }
}

pub proof fn lemma_tags_tail_len(tags: Seq<Seq<char>>)
    ensures
        spec_tags_tail(tags).len() >= 3 * tags.len(),
    decreases tags.len(),
{
    if tags.len() > 0 {
        lemma_tags_tail_len(tags.drop_first());
    }
}

/// Parse of the tail of a tag array, after at least one tag was read: up to
/// whitespace, either the closing bracket or a comma and another quoted tag.
/// `fuel` bounds the recursion; it is irrelevant as long as it exceeds the
/// number of tags.
pub open spec fn spec_parse_tags_more(s: Seq<char>, acc: Seq<Seq<char>>, fuel: nat) -> Option<
    (Seq<Seq<char>>, Seq<char>),
>
    decreases fuel,
{
    if fuel == 0 {
        None
    } else {
        let r = spec_skip_ws(s);
        if r.len() > 0 && r[0] == ']' {
            Some((acc, r.drop_first()))
        } else if r.len() > 0 && r[0] == ',' {
            match spec_parse_quoted(spec_skip_ws(r.drop_first())) {
                None => None,
                Some((t, r2)) => spec_parse_tags_more(r2, acc.push(t), (fuel - 1) as nat),
            }
        } else {
            None
        }
    }
}

/// Parse of a whole tag array, opening bracket included.
pub open spec fn spec_parse_tags(s: Seq<char>) -> Option<(Seq<Seq<char>>, Seq<char>)> {
    if s.len() > 0 && s[0] == '[' {
        let r = spec_skip_ws(s.drop_first());
        if r.len() > 0 && r[0] == ']' {
            Some((Seq::empty(), r.drop_first()))
        } else {
            match spec_parse_quoted(r) {
                None => None,
                Some((t, r2)) => spec_parse_tags_more(r2, seq![t], r2.len() + 1),
            }
        }
    } else {
        None
    }
}

proof fn lemma_parse_tags_more_shrinks(s: Seq<char>, acc: Seq<Seq<char>>, fuel: nat)
    ensures
        spec_parse_tags_more(s, acc, fuel) matches Some(p) ==> p.1.len() < s.len(),
    decreases fuel,
{
    if fuel > 0 {
        let r = spec_skip_ws(s);
        lemma_skip_ws_len(s);
        if r.len() > 0 && r[0] == ']' {
        } else if r.len() > 0 && r[0] == ',' {
            lemma_skip_ws_len(r.drop_first());
            lemma_parse_quoted_shrinks(spec_skip_ws(r.drop_first()));
            match spec_parse_quoted(spec_skip_ws(r.drop_first())) {
                None => {},
                Some((t, r2)) => {
                    lemma_parse_tags_more_shrinks(r2, acc.push(t), (fuel - 1) as nat);
                },
            }
        }
    }
}

/// A successful tag-array parse consumes at least the two brackets.
pub proof fn lemma_parse_tags_shrinks(s: Seq<char>)
    ensures
        spec_parse_tags(s) matches Some(p) ==> p.1.len() < s.len(),
{
    if s.len() > 0 && s[0] == '[' {
        let r = spec_skip_ws(s.drop_first());
        lemma_skip_ws_len(s.drop_first());
        if r.len() > 0 && r[0] == ']' {
        } else {
            lemma_parse_quoted_shrinks(r);
            match spec_parse_quoted(r) {
                None => {},
                Some((t, r2)) => {
                    lemma_parse_tags_more_shrinks(r2, seq![t], r2.len() + 1);
                },
            }
        }
    }
}

proof fn lemma_parse_tags_more_round_trip(
    tags: Seq<Seq<char>>,
    acc: Seq<Seq<char>>,
    rest: Seq<char>,
    fuel: nat,
)
    requires
        fuel >= tags.len() + 1,
    ensures
        spec_parse_tags_more(spec_tags_tail(tags) + seq![']'] + rest, acc, fuel) == Some(
            (acc + tags, rest),
        ),
    decreases tags.len(),
{
    let w = spec_tags_tail(tags) + seq![']'] + rest;
    if tags.len() == 0 {
        assert(spec_tags_tail(tags) =~= Seq::<char>::empty());
        assert(w =~= seq![']'] + rest);
        assert(w[0] == ']');
        lemma_skip_ws_noop(w);
        assert(w.drop_first() =~= rest);
        assert(acc + tags =~= acc);
    } else {
        let t0 = tags[0];
        let tl = tags.drop_first();
        let inner = spec_tags_tail(tl) + seq![']'] + rest;
        assert(w =~= seq![','] + (spec_quote(t0) + inner));
        assert(w[0] == ',');
        lemma_skip_ws_noop(w);
        assert(w.drop_first() =~= spec_quote(t0) + inner);
        assert((spec_quote(t0) + inner)[0] == '"');
        lemma_skip_ws_noop(spec_quote(t0) + inner);
        lemma_parse_quoted_round_trip(t0, inner);
        lemma_parse_tags_more_round_trip(tl, acc.push(t0), rest, (fuel - 1) as nat);
        assert(acc.push(t0) + tl =~= acc + tags);
    }
}

/// Round trip for a whole tag array.
pub proof fn lemma_parse_tags_round_trip(tags: Seq<Seq<char>>, rest: Seq<char>)
    ensures
        spec_parse_tags(spec_tags_json(tags) + rest) == Some((tags, rest)),
{
    let w = spec_tags_json(tags) + rest;
    if tags.len() == 0 {
        assert(w =~= seq!['[', ']'] + rest);
        assert(w[0] == '[');
        assert(w.drop_first() =~= seq![']'] + rest);
        lemma_skip_ws_noop(seq![']'] + rest);
        assert((seq![']'] + rest)[0] == ']');
        assert((seq![']'] + rest).drop_first() =~= rest);
        assert(Seq::<Seq<char>>::empty() =~= tags);
    } else {
        let t0 = tags[0];
        let tl = tags.drop_first();
        let inner = spec_tags_tail(tl) + seq![']'] + rest;
        assert(w =~= seq!['['] + (spec_quote(t0) + inner));
        assert(w[0] == '[');
        assert(w.drop_first() =~= spec_quote(t0) + inner);
        assert((spec_quote(t0) + inner)[0] == '"');
        lemma_skip_ws_noop(spec_quote(t0) + inner);
        lemma_parse_quoted_round_trip(t0, inner);
        lemma_tags_tail_len(tl);
        assert(inner.len() + 1 >= tl.len() + 1);
        lemma_parse_tags_more_round_trip(tl, seq![t0], rest, inner.len() + 1);
        assert(seq![t0] + tl =~= tags);
    }
}

/// The sequence of string views of a vector of strings.
pub open spec fn views_of(v: Seq<String>) -> Seq<Seq<char>> {
    v.map_values(|t: String| t@)
}

/// Appends the tag array `tags` as JSON to `out`.
pub fn push_tags_json(out: &mut String, tags: &Vec<String>)
    ensures
        final(out)@ == old(out)@ + spec_tags_json(views_of(tags@)),
{
    let n = tags.len();
    push_char(out, '[');
    let mut i: usize = 0;
    while i < n
        invariant
            i <= n,
            n == tags@.len(),
            out@ == old(out)@ + seq!['['] + (if i == 0 {
                Seq::<char>::empty()
            } else {
                spec_quote(views_of(tags@)[0]) + spec_tags_tail(views_of(tags@).subrange(1, i as int))
            }),
        decreases n - i,
    {
        if i > 0 {
            push_char(out, ',');
        }
        push_quoted(out, tags[i].as_str());
        proof {
            let vs = views_of(tags@);
            if i == 0 {
                assert(out@ =~= old(out)@ + seq!['['] + (spec_quote(vs[0]) + spec_tags_tail(
                    vs.subrange(1, 1),
                )));
            } else {
                assert(vs.subrange(1, i as int + 1) =~= vs.subrange(1, i as int).push(
                    vs[i as int],
                ));
                lemma_tags_tail_snoc(vs.subrange(1, i as int), vs[i as int]);
                assert(out@ =~= old(out)@ + seq!['['] + (spec_quote(vs[0]) + spec_tags_tail(
                    vs.subrange(1, i as int + 1),
                )));
            }
        }
        i += 1;
    }
    push_char(out, ']');
    proof {
        let vs = views_of(tags@);
        if n == 0 {
            assert(final(out)@ =~= old(out)@ + spec_tags_json(vs));
        } else {
            assert(vs.subrange(1, n as int) =~= vs.drop_first());
            assert(final(out)@ =~= old(out)@ + spec_tags_json(vs));
        }
    }
}

/// Parses the tail of a tag array after the first tag, mirroring
/// `spec_parse_tags_more`.
fn parse_tags_more<'a>(s: &'a str, acc: Vec<String>, Ghost(fuel): Ghost<nat>) -> (r: Option<
    (Vec<String>, &'a str),
>)
    requires
        fuel >= s@.len() + 1,
    ensures
        match r {
            Some(p) => spec_parse_tags_more(s@, views_of(acc@), fuel) == Some(
                (views_of(p.0@), p.1@),
            ),
            None => spec_parse_tags_more(s@, views_of(acc@), fuel) is None,
        },
    decreases s@.len(),
{
    let w = skip_ws(s);
    proof {
        lemma_skip_ws_len(s@);
    }
    let n = w.unicode_len();
    if n == 0 {
        return None;
    }
    let c = w.get_char(0);
    if c == ']' {
        let rest = w.substring_char(1, n);
        proof {
            assert(rest@ =~= w@.drop_first());
        }
        return Some((acc, rest));
    }
    if c != ',' {
        return None;
    }
    let after0 = w.substring_char(1, n);
    proof {
        assert(after0@ =~= w@.drop_first());
    }
    let after = skip_ws(after0);
    proof {
        lemma_skip_ws_len(after0@);
    }
    match parse_quoted(after) {
        None => None,
        Some((t, r)) => {
            proof {
                lemma_parse_quoted_shrinks(after@);
            }
            let mut acc2 = acc;
            acc2.push(t);
            let res = parse_tags_more(r, acc2, Ghost((fuel - 1) as nat));
            proof {
                assert(views_of(acc@.push(t)) =~= views_of(acc@).push(t@));
            }
            res
        },
    }
}

/// Parses a whole tag array, opening bracket included.
pub fn parse_tags<'a>(s: &'a str) -> (r: Option<(Vec<String>, &'a str)>)
    ensures
        match r {
            Some(p) => spec_parse_tags(s@) == Some((views_of(p.0@), p.1@)),
            None => spec_parse_tags(s@) is None,
        },
{
    let n = s.unicode_len();
    if n == 0 {
        return None;
    }
    if s.get_char(0) != '[' {
        return None;
    }
    let inner0 = s.substring_char(1, n);
    proof {
        assert(inner0@ =~= s@.drop_first());
    }
    let inner = skip_ws(inner0);
    proof {
        lemma_skip_ws_len(inner0@);
    }
    let m = inner.unicode_len();
    if m > 0 && inner.get_char(0) == ']' {
        let rest = inner.substring_char(1, m);
        proof {
            assert(rest@ =~= inner@.drop_first());
            assert(views_of(Seq::<String>::empty()) =~= Seq::<Seq<char>>::empty());
        }
        return Some((Vec::new(), rest));
    }
    match parse_quoted(inner) {
        None => None,
        Some((t, r)) => {
            proof {
                lemma_parse_quoted_shrinks(inner@);
            }
            let mut acc: Vec<String> = Vec::new();
            acc.push(t);
            let ghost fuel: nat = r@.len() + 1;
            let res = parse_tags_more(r, acc, Ghost(fuel));
            proof {
                assert(views_of(acc@) =~= seq![t@]);
            }
            res
        },
    }
}

} // verus!
