//! A small JSON codec for the cache: canonical, compact encoding of strings
//! and numbers, and a deterministic parser for exactly that encoding. The
//! parser is specified as a mathematical function of the input, and reading
//! back a written value is proved to reproduce it.

use vstd::prelude::*;

use crate::text::starts_with_seq;

verus! {

/// The escape sequence a character is written as inside a JSON string.
pub open spec fn esc_char(c: char) -> Seq<char> {
    if c == '"' {
        seq!['\\', '"']
    } else if c == '\\' {
        seq!['\\', '\\']
    } else if c == '\n' {
        seq!['\\', 'n']
    } else if c == '\r' {
        seq!['\\', 'r']
    } else if c == '\t' {
        seq!['\\', 't']
    } else {
        seq![c]
    }
}

/// The body of a JSON string: each character escaped.
pub open spec fn enc_string_body(s: Seq<char>) -> Seq<char>
    decreases s.len(),
{
    if s.len() == 0 {
        Seq::empty()
    } else {
        esc_char(s[0]) + enc_string_body(s.drop_first())
    }
}

/// A JSON string: the escaped body in double quotes.
pub open spec fn enc_string(s: Seq<char>) -> Seq<char> {
    seq!['"'] + enc_string_body(s) + seq!['"']
}

/// A decimal digit.
pub open spec fn is_digit(c: char) -> bool {
    c == '0' || c == '1' || c == '2' || c == '3' || c == '4' || c == '5' || c == '6' || c == '7'
        || c == '8' || c == '9'
}

/// The value of a decimal digit character.
pub open spec fn digit_val(c: char) -> int {
    if c == '0' {
        0
    } else if c == '1' {
        1
    } else if c == '2' {
        2
    } else if c == '3' {
        3
    } else if c == '4' {
        4
    } else if c == '5' {
        5
    } else if c == '6' {
        6
    } else if c == '7' {
        7
    } else if c == '8' {
        8
    } else {
        9
    }
}

/// The character of a decimal digit value.
pub open spec fn digit_char(d: int) -> char {
    if d == 0 {
        '0'
    } else if d == 1 {
        '1'
    } else if d == 2 {
        '2'
    } else if d == 3 {
        '3'
    } else if d == 4 {
        '4'
    } else if d == 5 {
        '5'
    } else if d == 6 {
        '6'
    } else if d == 7 {
        '7'
    } else if d == 8 {
        '8'
    } else {
        '9'
    }
}

/// A nonnegative number in decimal, most significant digit first.
pub open spec fn enc_nat(n: int) -> Seq<char>
    recommends
        n >= 0,
    decreases n,
{
    if n < 10 {
        seq![digit_char(n)]
    } else {
        enc_nat(n / 10).push(digit_char(n % 10))
    }
}

/// Consumes an exact literal and returns the rest of the input.
pub open spec fn p_lit(s: Seq<char>, lit: Seq<char>) -> Option<Seq<char>> {
    if starts_with_seq(s, lit) {
        Some(s.skip(lit.len() as int))
    } else {
        None
    }
}

/// The character an escape letter stands for.
pub open spec fn unesc_char(c: char) -> Option<char> {
    if c == '"' {
        Some('"')
    } else if c == '\\' {
        Some('\\')
    } else if c == 'n' {
        Some('\n')
    } else if c == 'r' {
        Some('\r')
    } else if c == 't' {
        Some('\t')
    } else {
        None
    }
}

/// Parses a string body up to and including the closing quote; returns the
/// unescaped characters and the rest of the input.
pub open spec fn p_str_body(s: Seq<char>) -> Option<(Seq<char>, Seq<char>)>
    decreases s.len(),
{
    if s.len() == 0 {
        None
    } else if s[0] == '"' {
        Some((Seq::empty(), s.drop_first()))
    } else if s[0] == '\\' {
        if s.len() < 2 {
            None
        } else {
            match unesc_char(s[1]) {
                None => None,
                Some(c) => match p_str_body(s.skip(2)) {
                    None => None,
                    Some(pr) => Some((seq![c] + pr.0, pr.1)),
                },
            }
        }
    } else {
        match p_str_body(s.drop_first()) {
            None => None,
            Some(pr) => Some((seq![s[0]] + pr.0, pr.1)),
        }
    }
}

/// Parses a quoted JSON string; returns its characters and the rest.
pub open spec fn p_string(s: Seq<char>) -> Option<(Seq<char>, Seq<char>)> {
    if s.len() > 0 && s[0] == '"' {
        p_str_body(s.drop_first())
    } else {
        None
    }
}

/// Consumes a run of digits, folding them onto an accumulator.
pub open spec fn p_digits(s: Seq<char>, acc: int) -> (int, Seq<char>)
    decreases s.len(),
{
    if s.len() > 0 && is_digit(s[0]) {
        p_digits(s.drop_first(), acc * 10 + digit_val(s[0]))
    } else {
        (acc, s)
    }
}

/// Parses a nonempty digit run as a `u64`; a run whose value does not fit is
/// an error.
pub open spec fn p_u64(s: Seq<char>) -> Option<(u64, Seq<char>)> {
    if s.len() > 0 && is_digit(s[0]) {
        let r = p_digits(s, 0);
        if r.0 <= u64::MAX {
            Some((r.0 as u64, r.1))
        } else {
            None
        }
    } else {
        None
    }
}

/// A written literal parses back, leaving exactly the rest.
pub proof fn lemma_p_lit(lit: Seq<char>, rest: Seq<char>)
    ensures
        p_lit(lit + rest, lit) == Some(rest),
{
    assert((lit + rest).subrange(0, lit.len() as int) =~= lit);
    assert((lit + rest).skip(lit.len() as int) =~= rest);
}

/// A written string body parses back, leaving exactly the rest.
pub proof fn lemma_p_str_body(s: Seq<char>, rest: Seq<char>)
    ensures
        p_str_body(enc_string_body(s) + seq!['"'] + rest) == Some((s, rest)),
    decreases s.len(),
{
    let input = enc_string_body(s) + seq!['"'] + rest;
    if s.len() == 0 {
        assert(input =~= seq!['"'] + rest);
        assert(input[0] == '"');
        assert(input.drop_first() =~= rest);
    } else {
        let c = s[0];
        let tail = s.drop_first();
        lemma_p_str_body(tail, rest);
        let sub = enc_string_body(tail) + seq!['"'] + rest;
        assert(input =~= esc_char(c) + sub);
        if c == '"' || c == '\\' || c == '\n' || c == '\r' || c == '\t' {
            assert(input[0] == '\\');
            assert(unesc_char(input[1]) == Some(c));
            assert(input.skip(2) =~= sub);
            assert(seq![c] + tail =~= s);
        } else {
            assert(input[0] == c);
            assert(input[0] != '"' && input[0] != '\\');
            assert(input.drop_first() =~= sub);
            assert(seq![c] + tail =~= s);
        }
    }
}

/// A written string parses back, leaving exactly the rest.
pub proof fn lemma_p_string(s: Seq<char>, rest: Seq<char>)
    ensures
        p_string(enc_string(s) + rest) == Some((s, rest)),
{
    let input = enc_string(s) + rest;
    assert(input[0] == '"');
    assert(input.drop_first() =~= enc_string_body(s) + seq!['"'] + rest);
    lemma_p_str_body(s, rest);
}

/// The power of ten that shifting past the digits of `n` multiplies by.
pub open spec fn pow10_of(n: int) -> int
    decreases n,
{
    if n < 10 {
        10
    } else {
        pow10_of(n / 10) * 10
    }
}

/// Every character of a written number is a digit, and there is at least one.
pub proof fn lemma_enc_nat_digits(n: int)
    requires
        n >= 0,
    ensures
        enc_nat(n).len() >= 1,
        forall|i: int| 0 <= i < enc_nat(n).len() ==> is_digit(enc_nat(n)[i]),
    decreases n,
{
    if n >= 10 {
        lemma_enc_nat_digits(n / 10);
    }
}

/// Folding digits only grows a nonnegative accumulator.
pub proof fn lemma_p_digits_monotone(s: Seq<char>, acc: int)
    requires
        acc >= 0,
    ensures
        p_digits(s, acc).0 >= acc,
    decreases s.len(),
{
    if s.len() > 0 && is_digit(s[0]) {
        assert(acc * 10 + digit_val(s[0]) >= acc) by (nonlinear_arith)
            requires
                acc >= 0,
                digit_val(s[0]) >= 0,
        ;
        lemma_p_digits_monotone(s.drop_first(), acc * 10 + digit_val(s[0]));
    }
}

/// Consuming the digits of `n` folds it onto the accumulator.
pub proof fn lemma_p_digits_enc(n: int, rest: Seq<char>, acc: int)
    requires
        n >= 0,
        acc >= 0,
    ensures
        p_digits(enc_nat(n) + rest, acc) == p_digits(rest, acc * pow10_of(n) + n),
    decreases n,
{
    lemma_pow10_pos(n);
    if n < 10 {
        let input = enc_nat(n) + rest;
        assert(input[0] == digit_char(n));
        assert(is_digit(digit_char(n)));
        assert(digit_val(digit_char(n)) == n);
        assert(input.drop_first() =~= rest);
        assert(p_digits(input, acc) == p_digits(rest, acc * 10 + n));
    } else {
        let x = digit_char(n % 10);
        assert(enc_nat(n) + rest =~= enc_nat(n / 10) + (seq![x] + rest));
        lemma_pow10_pos(n / 10);
        lemma_p_digits_enc(n / 10, seq![x] + rest, acc);
        let mid = acc * pow10_of(n / 10) + n / 10;
        assert(mid >= 0) by (nonlinear_arith)
            requires
                mid == acc * pow10_of(n / 10) + n / 10,
                acc >= 0,
                pow10_of(n / 10) >= 0,
                n >= 10,
        ;
        let input2 = seq![x] + rest;
        assert(input2[0] == x);
        assert(is_digit(x));
        assert(digit_val(x) == n % 10);
        assert(input2.drop_first() =~= rest);
        assert(p_digits(input2, mid) == p_digits(rest, mid * 10 + n % 10));
        assert(mid * 10 + n % 10 == acc * pow10_of(n) + n) by (nonlinear_arith)
            requires
                mid == acc * pow10_of(n / 10) + n / 10,
                pow10_of(n) == pow10_of(n / 10) * 10,
                n >= 10,
                n % 10 == n - (n / 10) * 10,
        ;
    }
}

pub proof fn lemma_pow10_pos(n: int)
    ensures
        pow10_of(n) >= 10,
    decreases n,
{
    if n >= 10 {
        lemma_pow10_pos(n / 10);
        assert(pow10_of(n / 10) * 10 >= 10) by (nonlinear_arith)
            requires
                pow10_of(n / 10) >= 10,
        ;
    }
}

/// A written `u64` parses back, leaving exactly the rest, as long as the rest
/// does not begin with another digit.
pub proof fn lemma_p_u64(n: u64, rest: Seq<char>)
    requires
        rest.len() == 0 || !is_digit(rest[0]),
    ensures
        p_u64(enc_nat(n as int) + rest) == Some((n, rest)),
{
    let input = enc_nat(n as int) + rest;
    lemma_enc_nat_digits(n as int);
    assert(input[0] == enc_nat(n as int)[0]);
    assert(is_digit(input[0]));
    lemma_pow10_pos(n as int);
    lemma_p_digits_enc(n as int, rest, 0);
    assert(0 * pow10_of(n as int) + n == n) by (nonlinear_arith);
    assert(p_digits(rest, n as int) == (n as int, rest));
}

fn digit_of(d: u64) -> (r: char)
    requires
        d < 10,
    ensures
        r == digit_char(d as int),
{
    if d == 0 {
        '0'
    } else if d == 1 {
        '1'
    } else if d == 2 {
        '2'
    } else if d == 3 {
        '3'
    } else if d == 4 {
        '4'
    } else if d == 5 {
        '5'
    } else if d == 6 {
        '6'
    } else if d == 7 {
        '7'
    } else if d == 8 {
        '8'
    } else {
        '9'
    }
}

/// The escape sequence written one character past the end grows the body by
/// that character's escape.
pub proof fn lemma_enc_body_push(s: Seq<char>, c: char)
    ensures
        enc_string_body(s.push(c)) == enc_string_body(s) + esc_char(c),
    decreases s.len(),
{
    if s.len() == 0 {
        assert(s.push(c)[0] == c);
        assert(s.push(c).drop_first() =~= Seq::<char>::empty());
        assert(enc_string_body(s.push(c)) == esc_char(c) + enc_string_body(
            s.push(c).drop_first(),
        ));
        assert(enc_string_body(Seq::<char>::empty()) == Seq::<char>::empty());
        assert(esc_char(c) + Seq::<char>::empty() =~= esc_char(c));
        assert(Seq::<char>::empty() + esc_char(c) =~= esc_char(c));
    } else {
        lemma_enc_body_push(s.drop_first(), c);
        assert(s.push(c)[0] == s[0]);
        assert(s.push(c).drop_first() =~= s.drop_first().push(c));
        assert(esc_char(s[0]) + (enc_string_body(s.drop_first()) + esc_char(c)) =~= (esc_char(
            s[0],
        ) + enc_string_body(s.drop_first())) + esc_char(c));
    }
}

/// Appends the JSON encoding of `s` (quotes included) to `out`.
pub fn enc_push_string(out: &mut Vec<char>, s: &str)
    ensures
        final(out)@ == old(out)@ + enc_string(s@),
{
    let t = crate::text::str_to_chars(s);
    out.push('"');
    let ghost base = old(out)@ + seq!['"'];
    let mut i: usize = 0;
    while i < t.len()
        invariant
            0 <= i <= t@.len(),
            t@ == s@,
            base == old(out)@ + seq!['"'],
            out@ == base + enc_string_body(t@.subrange(0, i as int)),
        decreases t@.len() - i,
    {
        let c = t[i];
        if c == '"' {
            out.push('\\');
            out.push('"');
        } else if c == '\\' {
            out.push('\\');
            out.push('\\');
        } else if c == '\n' {
            out.push('\\');
            out.push('n');
        } else if c == '\r' {
            out.push('\\');
            out.push('r');
        } else if c == '\t' {
            out.push('\\');
            out.push('t');
        } else {
            out.push(c);
        }
        proof {
            assert(t@.subrange(0, i + 1) =~= t@.subrange(0, i as int).push(c));
            lemma_enc_body_push(t@.subrange(0, i as int), c);
            assert(out@ =~= base + enc_string_body(t@.subrange(0, i + 1)));
        }
        i += 1;
    }
    out.push('"');
    proof {
        assert(t@.subrange(0, t@.len() as int) =~= t@);
        assert(out@ =~= old(out)@ + enc_string(s@));
    }
}

/// Appends the decimal digits of `n` to `out`.
pub fn enc_push_u64(out: &mut Vec<char>, n: u64)
    ensures
        final(out)@ == old(out)@ + enc_nat(n as int),
    decreases n,
{
    if n < 10 {
        out.push(digit_of(n));
        proof {
            assert(out@ =~= old(out)@ + enc_nat(n as int));
        }
    } else {
        enc_push_u64(out, n / 10);
        out.push(digit_of(n % 10));
        proof {
            assert(out@ =~= old(out)@ + enc_nat(n as int));
        }
    }
}

/// Consumes the literal `lit` at position `pos`.
pub fn d_lit(t: &[char], pos: usize, lit: &[char]) -> (r: Option<usize>)
    requires
        pos <= t@.len(),
    ensures
        match r {
            Some(p2) => pos <= p2 <= t@.len() && p_lit(t@.skip(pos as int), lit@) == Some(
                t@.skip(p2 as int),
            ) && p2 - pos == lit@.len(),
            None => p_lit(t@.skip(pos as int), lit@) is None,
        },
{
    let ghost s = t@.skip(pos as int);
    if lit.len() > t.len() - pos {
        proof {
            assert(!starts_with_seq(s, lit@));
        }
        return None;
    }
    let mut k: usize = 0;
    while k < lit.len()
        invariant
            0 <= k <= lit@.len(),
            pos + lit@.len() <= t@.len(),
            t@.len() <= usize::MAX,
            s == t@.skip(pos as int),
            forall|j: int| 0 <= j < k ==> t@[pos + j] == lit@[j],
        decreases lit@.len() - k,
    {
        if t[pos + k] != lit[k] {
            proof {
                assert(s[k as int] == t@[pos + k]);
                if starts_with_seq(s, lit@) {
                    assert(s.subrange(0, lit@.len() as int)[k as int] == lit@[k as int]);
                }
            }
            return None;
        }
        k += 1;
    }
    proof {
        assert(s.subrange(0, lit@.len() as int) =~= lit@) by {
            assert forall|j: int| 0 <= j < lit@.len() implies s.subrange(
                0,
                lit@.len() as int,
            )[j] == lit@[j] by {
                assert(s[j] == t@[pos + j]);
            }
        }
        assert(s.skip(lit@.len() as int) =~= t@.skip(pos + lit@.len()));
    }
    Some(pos + lit.len())
}

/// Parses a quoted string at position `pos`.
pub fn d_string(t: &[char], pos: usize) -> (r: Option<(String, usize)>)
    requires
        pos <= t@.len(),
    ensures
        match r {
            Some(v) => pos < v.1 <= t@.len() && p_string(t@.skip(pos as int)) == Some(
                (v.0@, t@.skip(v.1 as int)),
            ),
            None => p_string(t@.skip(pos as int)) is None,
        },
{
    let ghost s = t@.skip(pos as int);
    if pos == t.len() {
        return None;
    }
    if t[pos] != '"' {
        proof {
            assert(s[0] == t@[pos as int]);
        }
        return None;
    }
    proof {
        assert(s[0] == '"');
        assert(s.drop_first() =~= t@.skip(pos + 1));
    }
    match d_str_body(t, pos + 1) {
        Some((chars, p2)) => {
            let out = crate::text::chars_to_string(chars.as_slice());
            Some((out, p2))
        },
        None => None,
    }
}

fn d_str_body(t: &[char], pos: usize) -> (r: Option<(Vec<char>, usize)>)
    requires
        pos <= t@.len(),
    ensures
        match r {
            Some(v) => pos < v.1 <= t@.len() && p_str_body(t@.skip(pos as int)) == Some(
                (v.0@, t@.skip(v.1 as int)),
            ),
            None => p_str_body(t@.skip(pos as int)) is None,
        },
    decreases t@.len() - pos,
{
    let ghost s = t@.skip(pos as int);
    if pos == t.len() {
        return None;
    }
    let c = t[pos];
    proof {
        assert(s[0] == c);
        assert(s.drop_first() =~= t@.skip(pos + 1));
    }
    if c == '"' {
        let empty: Vec<char> = Vec::new();
        proof {
            assert(empty@ =~= Seq::<char>::empty());
        }
        return Some((empty, pos + 1));
    }
    if c == '\\' {
        if pos + 1 == t.len() {
            proof {
                assert(s.len() < 2);
            }
            return None;
        }
        let e = t[pos + 1];
        proof {
            assert(s[1] == e);
        }
        let u: Option<char> = if e == '"' {
            Some('"')
        } else if e == '\\' {
            Some('\\')
        } else if e == 'n' {
            Some('\n')
        } else if e == 'r' {
            Some('\r')
        } else if e == 't' {
            Some('\t')
        } else {
            None
        };
        proof {
            assert(u == unesc_char(e));
            assert(s.skip(2) =~= t@.skip(pos + 2));
        }
        match u {
            None => {
                return None;
            },
            Some(ch) => {
                match d_str_body(t, pos + 2) {
                    Some((tail, p2)) => {
                        let mut v: Vec<char> = Vec::new();
                        v.push(ch);
                        let mut k: usize = 0;
                        while k < tail.len()
                            invariant
                                0 <= k <= tail@.len(),
                                v@ == seq![ch] + tail@.subrange(0, k as int),
                            decreases tail@.len() - k,
                        {
                            let x = tail[k];
                            v.push(x);
                            proof {
                                assert(seq![ch] + tail@.subrange(0, k + 1) =~= (seq![ch]
                                    + tail@.subrange(0, k as int)).push(x));
                            }
                            k += 1;
                        }
                        proof {
                            assert(tail@.subrange(0, tail@.len() as int) =~= tail@);
                        }
                        return Some((v, p2));
                    },
                    None => {
                        return None;
                    },
                }
            },
        }
    }
    match d_str_body(t, pos + 1) {
        Some((tail, p2)) => {
            let mut v: Vec<char> = Vec::new();
            v.push(c);
            let mut k: usize = 0;
            while k < tail.len()
                invariant
                    0 <= k <= tail@.len(),
                    v@ == seq![c] + tail@.subrange(0, k as int),
                decreases tail@.len() - k,
            {
                let x = tail[k];
                v.push(x);
                proof {
                    assert(seq![c] + tail@.subrange(0, k + 1) =~= (seq![c] + tail@.subrange(
                        0,
                        k as int,
                    )).push(x));
                }
                k += 1;
            }
            proof {
                assert(tail@.subrange(0, tail@.len() as int) =~= tail@);
            }
            Some((v, p2))
        },
        None => None,
    }
}

fn digit_value_of(c: char) -> (r: Option<u64>)
    ensures
        match r {
            Some(d) => is_digit(c) && d == digit_val(c) && d < 10,
            None => !is_digit(c),
        },
{
    if c == '0' {
        Some(0)
    } else if c == '1' {
        Some(1)
    } else if c == '2' {
        Some(2)
    } else if c == '3' {
        Some(3)
    } else if c == '4' {
        Some(4)
    } else if c == '5' {
        Some(5)
    } else if c == '6' {
        Some(6)
    } else if c == '7' {
        Some(7)
    } else if c == '8' {
        Some(8)
    } else if c == '9' {
        Some(9)
    } else {
        None
    }
}

/// Parses a nonempty digit run at position `pos` as a `u64`.
pub fn d_u64(t: &[char], pos: usize) -> (r: Option<(u64, usize)>)
    requires
        pos <= t@.len(),
    ensures
        match r {
            Some(v) => pos < v.1 <= t@.len() && p_u64(t@.skip(pos as int)) == Some(
                (v.0, t@.skip(v.1 as int)),
            ),
            None => p_u64(t@.skip(pos as int)) is None,
        },
{
    let ghost s = t@.skip(pos as int);
    if pos == t.len() {
        return None;
    }
    let first = match digit_value_of(t[pos]) {
        Some(d) => d,
        None => {
            proof {
                assert(s[0] == t@[pos as int]);
            }
            return None;
        },
    };
    proof {
        assert(s[0] == t@[pos as int]);
    }
    let mut acc: u64 = first;
    let mut p: usize = pos + 1;
    proof {
        assert(s.drop_first() =~= t@.skip(pos + 1));
        assert(p_digits(s, 0) == p_digits(t@.skip(pos + 1), first as int));
    }
    while p < t.len()
        invariant
            pos < p <= t@.len(),
            s == t@.skip(pos as int),
            s.len() > 0 && is_digit(s[0]),
            p_digits(s, 0) == p_digits(t@.skip(p as int), acc as int),
        decreases t@.len() - p,
    {
        let c = t[p];
        proof {
            assert(t@.skip(p as int)[0] == c);
        }
        match digit_value_of(c) {
            Some(d) => {
                proof {
                    assert(t@.skip(p as int).drop_first() =~= t@.skip(p + 1));
                    assert(p_digits(t@.skip(p as int), acc as int) == p_digits(
                        t@.skip(p + 1),
                        acc as int * 10 + d,
                    ));
                }
                if acc > (u64::MAX - d) / 10 {
                    proof {
                        assert(acc as int * 10 + d > u64::MAX) by (nonlinear_arith)
                            requires
                                acc as int > (u64::MAX as int - d) / 10,
                                0 <= d < 10,
                                acc as int >= 0,
                        ;
                        lemma_p_digits_monotone(t@.skip(p + 1), acc as int * 10 + d);
                        assert(p_digits(s, 0).0 > u64::MAX);
                    }
                    return None;
                }
                acc = acc * 10 + d;
                p += 1;
            },
            None => {
                proof {
                    assert(p_digits(t@.skip(p as int), acc as int) == (
                        acc as int,
                        t@.skip(p as int),
                    ));
                }
                return Some((acc, p));
            },
        }
    }
    proof {
        assert(t@.skip(p as int).len() == 0);
        assert(p_digits(t@.skip(p as int), acc as int) == (acc as int, t@.skip(p as int)));
    }
    Some((acc, p))
}

} // verus!
