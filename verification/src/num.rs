//! Decimal formatting and parsing of the integers that appear in identifiers
//! and in the numeric JSON fields, with round-trip and injectivity lemmas.
use vstd::prelude::*;

verus! {

/// The character for one decimal digit.
pub open spec fn digit_char(d: nat) -> char {
    if d == 0 {
        '0'
    } else if d == 1 {
        '1'
    } else if d == 2 {
        '2'
    } else if d == 3 {
        '3'
    } else if d == 4 {
        '4'
    } else if d == 5 {
        '5'
    } else if d == 6 {
        '6'
    } else if d == 7 {
        '7'
    } else if d == 8 {
        '8'
    } else {
        '9'
    }
}

/// The value of a digit character; 10 for anything that is not a digit.
pub open spec fn digit_val(c: char) -> nat {
    if c == '0' {
        0
    } else if c == '1' {
        1
    } else if c == '2' {
        2
    } else if c == '3' {
        3
    } else if c == '4' {
        4
    } else if c == '5' {
        5
    } else if c == '6' {
        6
    } else if c == '7' {
        7
    } else if c == '8' {
        8
    } else if c == '9' {
        9
    } else {
        10
    }
}

pub open spec fn is_digit(c: char) -> bool {
    digit_val(c) < 10
}

pub proof fn lemma_digit_char_val(d: nat)
    requires
        d < 10,
    ensures
        digit_val(digit_char(d)) == d,
{
}

/// Decimal representation of a natural number, most significant digit first.
pub open spec fn spec_nat_str(n: nat) -> Seq<char>
    decreases n,
{
    if n < 10 {
        seq![digit_char(n)]
    } else {
        spec_nat_str(n / 10) + seq![digit_char(n % 10)]
    }
}

/// Decimal representation of a signed value: a minus sign, then the magnitude.
pub open spec fn spec_int_str(n: int) -> Seq<char> {
    if n < 0 {
        seq!['-'] + spec_nat_str((-n) as nat)
    } else {
        spec_nat_str(n as nat)
    }
}

pub proof fn lemma_nat_str_nonempty(n: nat)
    ensures
        spec_nat_str(n).len() >= 1,
        is_digit(spec_nat_str(n)[0]),
    decreases n,
{
    if n < 10 {
        lemma_digit_char_val(n);
    } else {
        lemma_nat_str_nonempty(n / 10);
    }
}

pub open spec fn pow10(k: nat) -> nat
    decreases k,
{
    if k == 0 {
        1
    } else {
        10 * pow10((k - 1) as nat)
    }
}

/// Greedy digit parse: consume digits from the front, folding them onto `acc`;
/// the result is the accumulated value and the unconsumed remainder.
pub open spec fn spec_parse_digits(s: Seq<char>, acc: nat) -> (nat, Seq<char>)
    decreases s.len(),
{
    if s.len() > 0 && is_digit(s[0]) {
        spec_parse_digits(s.drop_first(), acc * 10 + digit_val(s[0]))
    } else {
        (acc, s)
    }
}

/// Parse of a natural number: at least one leading digit is required.
pub open spec fn spec_parse_nat(s: Seq<char>) -> Option<(nat, Seq<char>)> {
    if s.len() > 0 && is_digit(s[0]) {
        Some(spec_parse_digits(s, 0))
    } else {
        None
    }
}

/// The accumulated value never decreases while digits are consumed.
pub proof fn lemma_parse_digits_ge_acc(s: Seq<char>, acc: nat)
    ensures
        spec_parse_digits(s, acc).0 >= acc,
    decreases s.len(),
{
    if s.len() > 0 && is_digit(s[0]) {
        lemma_parse_digits_ge_acc(s.drop_first(), acc * 10 + digit_val(s[0]));
    }
}

/// Folding the printed digits of `n` onto `acc` scales `acc` by the digit
/// count and adds `n`, leaving `rest` untouched.
pub proof fn lemma_parse_digits_of_nat(n: nat, rest: Seq<char>, acc: nat)
    ensures
        spec_parse_digits(spec_nat_str(n) + rest, acc) == spec_parse_digits(
            rest,
            acc * pow10(spec_nat_str(n).len()) + n,
        ),
    decreases n,
{
    if n < 10 {
        lemma_digit_char_val(n);
        let s = spec_nat_str(n) + rest;
        assert(s.len() > 0 && is_digit(s[0]));
        assert(s.drop_first() =~= rest);
        assert(pow10(0) == 1);
        assert(pow10(1) == 10 * pow10(0));
        assert(spec_nat_str(n).len() == 1);
    } else {
        let q = n / 10;
        let r = n % 10;
        lemma_digit_char_val(r);
        let tail = seq![digit_char(r)] + rest;
        assert(spec_nat_str(n) + rest =~= spec_nat_str(q) + tail);
        lemma_parse_digits_of_nat(q, tail, acc);
        let lq = spec_nat_str(q).len();
        let acc2 = acc * pow10(lq) + q;
        assert(tail.len() > 0 && is_digit(tail[0]));
        assert(tail.drop_first() =~= rest);
        assert(spec_parse_digits(tail, acc2) == spec_parse_digits(rest, acc2 * 10 + r));
        assert(spec_nat_str(n).len() == lq + 1);
        assert(pow10(lq + 1) == 10 * pow10(lq));
        let p = pow10(lq);
        assert((acc * p + q) * 10 + r == acc * (10 * p) + (q * 10 + r)) by (nonlinear_arith);
        assert(q * 10 + r == n);
        assert(acc * pow10(spec_nat_str(n).len()) == acc * (10 * pow10(lq)));
    }
}

/// Parsing the decimal form of `n` followed by a non-digit (or nothing)
/// yields `n` and that remainder.
pub proof fn lemma_parse_nat_round_trip(n: nat, rest: Seq<char>)
    requires
        rest.len() == 0 || !is_digit(rest[0]),
    ensures
        spec_parse_nat(spec_nat_str(n) + rest) == Some((n, rest)),
{
    lemma_nat_str_nonempty(n);
    let s = spec_nat_str(n) + rest;
    assert(s[0] == spec_nat_str(n)[0]);
    lemma_parse_digits_of_nat(n, rest, 0);
    assert(spec_parse_digits(rest, 0 * pow10(spec_nat_str(n).len()) + n) == (n, rest));
}

/// Distinct naturals print to distinct strings.
pub proof fn lemma_nat_str_injective(a: nat, b: nat)
    requires
        spec_nat_str(a) == spec_nat_str(b),
    ensures
        a == b,
{
    lemma_parse_nat_round_trip(a, Seq::<char>::empty());
    lemma_parse_nat_round_trip(b, Seq::<char>::empty());
    assert(spec_nat_str(a) + Seq::<char>::empty() =~= spec_nat_str(a));
    assert(spec_nat_str(b) + Seq::<char>::empty() =~= spec_nat_str(b));
}

fn digit_to_char(d: u64) -> (c: char)
    requires
        d < 10,
    ensures
        c == digit_char(d as nat),
{
    if d == 0 {
        '0'
    } else if d == 1 {
        '1'
    } else if d == 2 {
        '2'
    } else if d == 3 {
        '3'
    } else if d == 4 {
        '4'
    } else if d == 5 {
        '5'
    } else if d == 6 {
        '6'
    } else if d == 7 {
        '7'
    } else if d == 8 {
        '8'
    } else {
        '9'
    }
}

fn char_to_digit(c: char) -> (r: Option<u64>)
    ensures
        match r {
            Some(d) => d < 10 && digit_val(c) == d as nat,
            None => !is_digit(c),
        },
{
    match c {
        '0' => Some(0u64),
        '1' => Some(1u64),
        '2' => Some(2u64),
        '3' => Some(3u64),
        '4' => Some(4u64),
        '5' => Some(5u64),
        '6' => Some(6u64),
        '7' => Some(7u64),
        '8' => Some(8u64),
        '9' => Some(9u64),
        _ => None,
    }
}

/// Appends the decimal form of `n` to `out`.
pub fn push_u64_str(out: &mut String, n: u64)
    ensures
        final(out)@ == old(out)@ + spec_nat_str(n as nat),
    decreases n,
{
    if n >= 10 {
        push_u64_str(out, n / 10);
    }
    crate::text::push_char(out, digit_to_char(n % 10));
    proof {
        if n >= 10 {
            assert(final(out)@ =~= old(out)@ + spec_nat_str(n as nat));
        } else {
            assert(final(out)@ =~= old(out)@ + spec_nat_str(n as nat));
        }
    }
}

/// The decimal form of `n` as a fresh string.
pub fn u64_to_string(n: u64) -> (r: String)
    ensures
        r@ == spec_nat_str(n as nat),
{
    let mut s = String::new();
    push_u64_str(&mut s, n);
    proof {
        assert(s@ =~= spec_nat_str(n as nat));
    }
    s
}

/// Appends the decimal form of the signed value `n` to `out`.
pub fn push_i64_str(out: &mut String, n: i64)
    ensures
        final(out)@ == old(out)@ + spec_int_str(n as int),
{
    if n < 0 {
        let mag: u64 = if n == i64::MIN {
            9223372036854775808u64
        } else {
            (-n) as u64
        };
        crate::text::push_char(out, '-');
        push_u64_str(out, mag);
        proof {
            assert(final(out)@ =~= old(out)@ + spec_int_str(n as int));
        }
    } else {
        push_u64_str(out, n as u64);
    }
}

/// Consumes leading digits of `s`, failing only when the value exceeds `u64`.
fn parse_digits<'a>(s: &'a str, acc: u64) -> (r: Option<(u64, &'a str)>)
    ensures
        match r {
            Some((v, rest)) => spec_parse_digits(s@, acc as nat) == ((v as nat, rest@)),
            None => spec_parse_digits(s@, acc as nat).0 > u64::MAX,
        },
    decreases s@.len(),
{
    let n = s.unicode_len();
    if n == 0 {
        return Some((acc, s));
    }
    let c = s.get_char(0);
    match char_to_digit(c) {
        None => Some((acc, s)),
        Some(d) => {
            if acc > (u64::MAX - d) / 10 {
                proof {
                    lemma_parse_digits_ge_acc(s@.drop_first(), (acc * 10 + d) as nat);
                    assert(spec_parse_digits(s@, acc as nat) == spec_parse_digits(
                        s@.drop_first(),
                        (acc * 10 + d) as nat,
                    ));
                }
                None
            } else {
                let rest = s.substring_char(1, n);
                proof {
                    assert(rest@ =~= s@.drop_first());
                }
                parse_digits(rest, acc * 10 + d)
            }
        },
    }
}

/// Parses a natural number from the front of `s`. `None` when `s` does not
/// start with a digit or the value does not fit in a `u64`.
pub fn parse_u64<'a>(s: &'a str) -> (r: Option<(u64, &'a str)>)
    ensures
        match r {
            Some((v, rest)) => spec_parse_nat(s@) == Some(((v as nat, rest@))),
            None => spec_parse_nat(s@) is None || spec_parse_nat(s@).unwrap().0 > u64::MAX,
        },
{
    let n = s.unicode_len();
    if n == 0 {
        return None;
    }
    match char_to_digit(s.get_char(0)) {
        None => None,
        Some(_) => parse_digits(s, 0),
    }
}

/// The remainder can only shrink while digits are consumed.
pub proof fn lemma_parse_digits_shrinks(s: Seq<char>, acc: nat)
    ensures
        spec_parse_digits(s, acc).1.len() <= s.len(),
    decreases s.len(),
{
    if s.len() > 0 && is_digit(s[0]) {
        lemma_parse_digits_shrinks(s.drop_first(), acc * 10 + digit_val(s[0]));
    }
}

/// A JSON natural number: digits, with no leading zero before another digit.
pub open spec fn spec_parse_json_nat(s: Seq<char>) -> Option<(nat, Seq<char>)> {
    if s.len() >= 2 && s[0] == '0' && is_digit(s[1]) {
        None
    } else {
        spec_parse_nat(s)
    }
}

/// A successful JSON number parse consumes at least one character.
pub proof fn lemma_parse_json_nat_shrinks(s: Seq<char>)
    ensures
        spec_parse_json_nat(s) matches Some(p) ==> p.1.len() < s.len(),
{
    if s.len() > 0 && is_digit(s[0]) {
        lemma_parse_digits_shrinks(s.drop_first(), digit_val(s[0]));
    }
}

/// The decimal form of a value never starts with a superfluous zero.
pub proof fn lemma_nat_str_no_leading_zero(n: nat)
    requires
        n >= 1,
    ensures
        spec_nat_str(n)[0] != '0',
    decreases n,
{
    if n < 10 {
    } else {
        lemma_nat_str_no_leading_zero(n / 10);
        lemma_nat_str_nonempty(n / 10);
        assert(spec_nat_str(n)[0] == spec_nat_str(n / 10)[0]);
    }
}

/// Round trip for the JSON number grammar.
pub proof fn lemma_parse_json_nat_round_trip(n: nat, rest: Seq<char>)
    requires
        rest.len() == 0 || !is_digit(rest[0]),
    ensures
        spec_parse_json_nat(spec_nat_str(n) + rest) == Some((n, rest)),
{
    lemma_parse_nat_round_trip(n, rest);
    lemma_nat_str_nonempty(n);
    let w = spec_nat_str(n) + rest;
    if n == 0 {
        assert(spec_nat_str(0) =~= seq!['0']);
        if w.len() >= 2 {
            assert(w[1] == rest[0]);
        }
    } else {
        lemma_nat_str_no_leading_zero(n);
        assert(w[0] == spec_nat_str(n)[0]);
    }
}

/// Parses a JSON natural number from the front of `s`. `None` when `s` does
/// not hold one or the value does not fit in a `u64`.
pub fn parse_json_u64<'a>(s: &'a str) -> (r: Option<(u64, &'a str)>)
    ensures
        match r {
            Some((v, rest)) => spec_parse_json_nat(s@) == Some(((v as nat, rest@))),
            None => spec_parse_json_nat(s@) is None || spec_parse_json_nat(s@).unwrap().0
                > u64::MAX,
        },
{
    let n = s.unicode_len();
    if n >= 2 && s.get_char(0) == '0' {
        let c = s.get_char(1);
        if c == '0' || c == '1' || c == '2' || c == '3' || c == '4' || c == '5' || c == '6' || c
            == '7' || c == '8' || c == '9' {
            return None;
        }
    }
    parse_u64(s)
}

/// Parse of a signed JSON integer: an optional minus sign, then digits with
/// no superfluous leading zero.
pub open spec fn spec_parse_int(s: Seq<char>) -> Option<(int, Seq<char>)> {
    if s.len() > 0 && s[0] == '-' {
        match spec_parse_json_nat(s.drop_first()) {
            None => None,
            Some((v, r)) => Some((-(v as int), r)),
        }
    } else {
        match spec_parse_json_nat(s) {
            None => None,
            Some((v, r)) => Some((v as int, r)),
        }
    }
}

/// A successful signed parse consumes at least one character.
pub proof fn lemma_parse_int_shrinks(s: Seq<char>)
    ensures
        spec_parse_int(s) matches Some(p) ==> p.1.len() < s.len(),
{
    if s.len() > 0 && s[0] == '-' {
        lemma_parse_json_nat_shrinks(s.drop_first());
    } else {
        lemma_parse_json_nat_shrinks(s);
    }
}

pub open spec fn in_i64_range(x: int) -> bool {
    i64::MIN <= x <= i64::MAX
}

/// Parsing the decimal form of `n` followed by a non-digit (or nothing)
/// yields `n` and that remainder.
pub proof fn lemma_parse_int_round_trip(n: int, rest: Seq<char>)
    requires
        rest.len() == 0 || !is_digit(rest[0]),
    ensures
        spec_parse_int(spec_int_str(n) + rest) == Some((n, rest)),
{
    if n < 0 {
        let m = (-n) as nat;
        let w = spec_int_str(n) + rest;
        assert(w =~= seq!['-'] + (spec_nat_str(m) + rest));
        assert(w[0] == '-');
        assert(w.drop_first() =~= spec_nat_str(m) + rest);
        lemma_parse_json_nat_round_trip(m, rest);
    } else {
        lemma_parse_json_nat_round_trip(n as nat, rest);
        lemma_nat_str_nonempty(n as nat);
        assert((spec_nat_str(n as nat) + rest)[0] == spec_nat_str(n as nat)[0]);
    }
}

/// Parses a signed integer from the front of `s`. `None` when `s` does not
/// start with a digit or minus sign, or the value falls outside `i64`.
pub fn parse_i64<'a>(s: &'a str) -> (r: Option<(i64, &'a str)>)
    ensures
        match r {
            Some((v, rest)) => spec_parse_int(s@) == Some((v as int, rest@)),
            None => spec_parse_int(s@) is None || !in_i64_range(spec_parse_int(s@).unwrap().0),
        },
{
    let n = s.unicode_len();
    if n == 0 {
        return None;
    }
    if s.get_char(0) == '-' {
        let body = s.substring_char(1, n);
        proof {
            assert(body@ =~= s@.drop_first());
        }
        match parse_json_u64(body) {
            None => None,
            Some((mag, rest)) => {
                if mag > 9223372036854775808u64 {
                    None
                } else if mag == 9223372036854775808u64 {
                    Some((i64::MIN, rest))
                } else {
                    Some((-(mag as i64), rest))
                }
            },
        }
    } else {
        match parse_json_u64(s) {
            None => None,
            Some((v, rest)) => {
                if v > i64::MAX as u64 {
                    None
                } else {
                    Some((v as i64, rest))
                }
            },
        }
    }
}

} // verus!
