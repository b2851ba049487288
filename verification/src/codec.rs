//! Character-level building blocks of the request codec: string escaping,
//! decimal numbers, and literal matching, each with an exec form, a spec
//! form, and the inversion lemma that decoding undoes encoding.

use vstd::prelude::*;
use crate::strutil::chars_to_string;

verus! {

// ---------------------------------------------------------------------------
// String escaping
// ---------------------------------------------------------------------------

/// The escaped form of one character inside a string literal: quote,
/// backslash, newline, carriage return and tab take a two-character escape;
/// everything else stands for itself.
pub open spec fn esc_char(c: char) -> Seq<char> {
    if c == '"' {
        seq!['\\', '"']
    } else if c == '\\' {
        seq!['\\', '\\']
    } else if c == '\n' {
        seq!['\\', 'n']
    } else if c == '\r' {
        seq!['\\', 'r']
    } else if c == '\t' {
        seq!['\\', 't']
    } else {
        seq![c]
    }
}

/// The escaped form of a whole text.
pub open spec fn enc_str(s: Seq<char>) -> Seq<char>
    decreases s.len(),
{
    if s.len() == 0 {
        Seq::empty()
    } else {
        esc_char(s[0]) + enc_str(s.drop_first())
    }
}

/// A string literal: the escaped text between double quotes.
pub open spec fn enc_string(s: Seq<char>) -> Seq<char> {
    seq!['"'] + enc_str(s) + seq!['"']
}

/// What one escape character stands for, if it is a legal escape.
pub open spec fn unesc_char(c: char) -> Option<char> {
    if c == '"' {
        Option::Some('"')
    } else if c == '\\' {
        Option::Some('\\')
    } else if c == 'n' {
        Option::Some('\n')
    } else if c == 'r' {
        Option::Some('\r')
    } else if c == 't' {
        Option::Some('\t')
    } else {
        Option::None
    }
}

/// Decode a string body up to and including the closing quote, undoing the
/// escapes; the remainder after the quote is returned beside the content.
pub open spec fn dec_str(s: Seq<char>) -> Option<(Seq<char>, Seq<char>)>
    decreases s.len(),
{
    if s.len() == 0 {
        Option::None
    } else if s[0] == '"' {
        Option::Some((Seq::empty(), s.drop_first()))
    } else if s[0] == '\\' {
        if s.len() < 2 {
            Option::None
        } else {
            match unesc_char(s[1]) {
                Option::Some(c) => match dec_str(s.skip(2)) {
                    Option::Some((t, rest)) => Option::Some((seq![c] + t, rest)),
                    Option::None => Option::None,
                },
                Option::None => Option::None,
            }
        }
    } else {
        match dec_str(s.drop_first()) {
            Option::Some((t, rest)) => Option::Some((seq![s[0]] + t, rest)),
            Option::None => Option::None,
        }
    }
}

/// Decode a whole string literal: an opening quote, then the body.
pub open spec fn dec_string(s: Seq<char>) -> Option<(Seq<char>, Seq<char>)> {
    if s.len() > 0 && s[0] == '"' {
        dec_str(s.drop_first())
    } else {
        Option::None
    }
}

/// Law: decoding a string body undoes encoding, for every text and every
/// remainder.
pub proof fn lemma_dec_enc_str(x: Seq<char>, rest: Seq<char>)
    ensures
        dec_str(enc_str(x) + seq!['"'] + rest) == Option::Some((x, rest)),
    decreases x.len(),
{
    let s = enc_str(x) + seq!['"'] + rest;
    if x.len() == 0 {
        assert(s =~= seq!['"'] + rest);
        assert(s[0] == '"');
        assert(s.drop_first() =~= rest);
    } else {
        let c = x[0];
        let tail = x.drop_first();
        lemma_dec_enc_str(tail, rest);
        let inner = enc_str(tail) + seq!['"'] + rest;
        if c == '"' || c == '\\' || c == '\n' || c == '\r' || c == '\t' {
            assert(s =~= esc_char(c) + inner);
            assert(s[0] == '\\');
            assert(unesc_char(s[1]) == Option::Some(c));
            assert(s.skip(2) =~= inner);
            assert(seq![c] + tail =~= x);
        } else {
            assert(s =~= seq![c] + inner);
            assert(s[0] == c);
            assert(s.drop_first() =~= inner);
            assert(seq![c] + tail =~= x);
        }
    }
}

/// Law: decoding a string literal undoes encoding.
pub proof fn lemma_dec_enc_string(x: Seq<char>, rest: Seq<char>)
    ensures
        dec_string(enc_string(x) + rest) == Option::Some((x, rest)),
{
    let s = enc_string(x) + rest;
    assert(s[0] == '"');
    assert(s.drop_first() =~= enc_str(x) + seq!['"'] + rest);
    lemma_dec_enc_str(x, rest);
}

/// Decoding a string body consumes at least the closing quote.
pub proof fn lemma_dec_str_len(s: Seq<char>)
    ensures
        dec_str(s) matches Option::Some((t, rest)) ==> rest.len() < s.len(),
    decreases s.len(),
{
    if s.len() > 0 && s[0] != '"' {
        if s[0] == '\\' {
            if s.len() >= 2 {
                lemma_dec_str_len(s.skip(2));
            }
        } else {
            lemma_dec_str_len(s.drop_first());
        }
    }
}

/// Decoding a string literal consumes at least its two quotes.
pub proof fn lemma_dec_string_len(s: Seq<char>)
    ensures
        dec_string(s) matches Option::Some((t, rest)) ==> rest.len() + 2 <= s.len(),
{
    if s.len() > 0 && s[0] == '"' {
        lemma_dec_str_len(s.drop_first());
    }
}

/// Append the escaped form of one character.
fn push_esc(out: &mut Vec<char>, c: char)
    ensures
        final(out)@ == old(out)@ + esc_char(c),
{
    if c == '"' {
        out.push('\\');
        out.push('"');
    } else if c == '\\' {
        out.push('\\');
        out.push('\\');
    } else if c == '\n' {
        out.push('\\');
        out.push('n');
    } else if c == '\r' {
        out.push('\\');
        out.push('r');
    } else if c == '\t' {
        out.push('\\');
        out.push('t');
    } else {
        out.push(c);
    }
    proof {
        assert(out@ =~= old(out)@ + esc_char(c));
    }
}

/// Escaping one more character extends the escaped text.
pub proof fn lemma_enc_str_snoc(s: Seq<char>, c: char)
    ensures
        enc_str(s.push(c)) == enc_str(s) + esc_char(c),
    decreases s.len(),
{
    if s.len() == 0 {
        assert(s.push(c)[0] == c);
        assert(s.push(c).drop_first() =~= Seq::<char>::empty());
        assert(enc_str(s.push(c)) == esc_char(c) + enc_str(Seq::<char>::empty()));
        assert(enc_str(Seq::<char>::empty()) == Seq::<char>::empty());
        assert(enc_str(s) == Seq::<char>::empty());
        assert(enc_str(s.push(c)) =~= enc_str(s) + esc_char(c));
    } else {
        lemma_enc_str_snoc(s.drop_first(), c);
        assert(s.push(c)[0] == s[0]);
        assert(s.push(c).drop_first() =~= s.drop_first().push(c));
        assert(enc_str(s.push(c)) =~= enc_str(s) + esc_char(c));
    }
}

/// Append the escaped form of a whole text.
pub fn push_enc_str(out: &mut Vec<char>, s: &str)
    ensures
        final(out)@ == old(out)@ + enc_str(s@),
{
    let len = s.unicode_len();
    let mut i: usize = 0;
    while i < len
        invariant
            len == s@.len(),
            i <= len,
            out@ == old(out)@ + enc_str(s@.take(i as int)),
        decreases len - i,
    {
        let c = s.get_char(i);
        push_esc(out, c);
        proof {
            assert(s@.take(i + 1 as int) =~= s@.take(i as int).push(s@[i as int]));
            lemma_enc_str_snoc(s@.take(i as int), s@[i as int]);
        }
        i += 1;
    }
    proof {
        assert(s@.take(len as int) =~= s@);
    }
}

/// Append a whole string literal: quotes around the escaped text.
pub fn push_string(out: &mut Vec<char>, s: &str)
    ensures
        final(out)@ == old(out)@ + enc_string(s@),
{
    out.push('"');
    push_enc_str(out, s);
    out.push('"');
    proof {
        assert(out@ =~= old(out)@ + enc_string(s@));
    }
}

/// Parse a string body starting at `i`, which must sit just after the
/// opening quote; undoes the escapes, as `dec_str` states it.
pub fn parse_str_body(s: &str, i: usize) -> (r: Option<(Vec<char>, usize)>)
    requires
        i <= s@.len(),
    ensures
        match r {
            Option::Some((v, j)) => i <= j <= s@.len() && dec_str(s@.skip(i as int))
                == Option::Some((v@, s@.skip(j as int))),
            Option::None => dec_str(s@.skip(i as int)) is None,
        },
    decreases s@.len() - i,
{
    let len = s.unicode_len();
    let ghost suf = s@.skip(i as int);
    if i >= len {
        proof {
            assert(suf.len() == 0);
        }
        return Option::None;
    }
    proof {
        assert(suf[0] == s@[i as int]);
        assert(suf.drop_first() =~= s@.skip(i + 1 as int));
    }
    let c = s.get_char(i);
    if c == '"' {
        return Option::Some((Vec::new(), i + 1));
    }
    if c == '\\' {
        if i + 1 >= len {
            proof {
                assert(suf.len() < 2);
            }
            return Option::None;
        }
        proof {
            assert(suf[1] == s@[i + 1 as int]);
            assert(suf.skip(2) =~= s@.skip(i + 2 as int));
        }
        let e = s.get_char(i + 1);
        let u: Option<char> = if e == '"' {
            Option::Some('"')
        } else if e == '\\' {
            Option::Some('\\')
        } else if e == 'n' {
            Option::Some('\n')
        } else if e == 'r' {
            Option::Some('\r')
        } else if e == 't' {
            Option::Some('\t')
        } else {
            Option::None
        };
        proof {
            assert(u == unesc_char(suf[1]));
        }
        match u {
            Option::Some(ch) => match parse_str_body(s, i + 2) {
                Option::Some((mut v, j)) => {
                    v.insert(0, ch);
                    proof {
                        assert(v@ =~= seq![ch] + v@.drop_first());
                    }
                    Option::Some((v, j))
                },
                Option::None => Option::None,
            },
            Option::None => Option::None,
        }
    } else {
        match parse_str_body(s, i + 1) {
            Option::Some((mut v, j)) => {
                v.insert(0, c);
                proof {
                    assert(v@ =~= seq![c] + v@.drop_first());
                }
                Option::Some((v, j))
            },
            Option::None => Option::None,
        }
    }
}

/// Parse a whole string literal starting at `i`, as `dec_string` states
/// it.
pub fn parse_string(s: &str, i: usize) -> (r: Option<(String, usize)>)
    requires
        i <= s@.len(),
    ensures
        match r {
            Option::Some((v, j)) => i <= j <= s@.len() && dec_string(s@.skip(i as int))
                == Option::Some((v@, s@.skip(j as int))),
            Option::None => dec_string(s@.skip(i as int)) is None,
        },
{
    let len = s.unicode_len();
    if i >= len {
        return Option::None;
    }
    proof {
        assert(s@.skip(i as int)[0] == s@[i as int]);
        assert(s@.skip(i as int).drop_first() =~= s@.skip(i + 1 as int));
    }
    if s.get_char(i) != '"' {
        return Option::None;
    }
    match parse_str_body(s, i + 1) {
        Option::Some((v, j)) => Option::Some((chars_to_string(&v), j)),
        Option::None => Option::None,
    }
}

// ---------------------------------------------------------------------------
// Literal matching
// ---------------------------------------------------------------------------

/// The remainder after a fixed literal, when the text starts with it.
pub open spec fn expect(s: Seq<char>, lit: Seq<char>) -> Option<Seq<char>> {
    if lit.len() <= s.len() && s.take(lit.len() as int) == lit {
        Option::Some(s.skip(lit.len() as int))
    } else {
        Option::None
    }
}

/// Law: expecting a literal on the literal itself always succeeds.
pub proof fn lemma_expect(lit: Seq<char>, rest: Seq<char>)
    ensures
        expect(lit + rest, lit) == Option::Some(rest),
{
    assert((lit + rest).take(lit.len() as int) =~= lit);
    assert((lit + rest).skip(lit.len() as int) =~= rest);
}

/// Match a fixed literal starting at `i`, as `expect` states it.
pub fn parse_lit(s: &str, i: usize, lit: &str) -> (r: Option<usize>)
    requires
        i <= s@.len(),
    ensures
        match r {
            Option::Some(j) => i <= j <= s@.len() && expect(s@.skip(i as int), lit@)
                == Option::Some(s@.skip(j as int)),
            Option::None => expect(s@.skip(i as int), lit@) is None,
        },
{
    let len = s.unicode_len();
    let lit_len = lit.unicode_len();
    if lit_len > len - i {
        proof {
            assert(s@.skip(i as int).len() < lit@.len());
        }
        return Option::None;
    }
    let mut k: usize = 0;
    while k < lit_len
        invariant
            len == s@.len(),
            lit_len == lit@.len(),
            i + lit_len <= len,
            k <= lit_len,
            forall|m: int| 0 <= m < k ==> s@[i + m] == lit@[m],
        decreases lit_len - k,
    {
        if s.get_char(i + k) != lit.get_char(k) {
            proof {
                assert(expect(s@.skip(i as int), lit@) is None) by {
                    if s@.skip(i as int).take(lit@.len() as int) == lit@ {
                        assert(s@.skip(i as int).take(lit@.len() as int)[k as int] == s@[
                            i + k as int]);
                    }
                }
            }
            return Option::None;
        }
        k += 1;
    }
    proof {
        assert(s@.skip(i as int).take(lit@.len() as int) =~= lit@);
        assert(s@.skip(i as int).skip(lit@.len() as int) =~= s@.skip(i + lit_len as int));
    }
    Option::Some(i + lit_len)
}

// ---------------------------------------------------------------------------
// Decimal numbers
// ---------------------------------------------------------------------------

/// Whether a character is a decimal digit.
pub open spec fn is_digit(c: char) -> bool {
    48 <= c as int && c as int <= 57
}

/// The numeric value of a digit character.
pub open spec fn digit_val(c: char) -> nat {
    (c as int - 48) as nat
}

/// The digit character of a value below ten.
pub open spec fn digit_char(d: nat) -> char {
    if d == 0 {
        '0'
    } else if d == 1 {
        '1'
    } else if d == 2 {
        '2'
    } else if d == 3 {
        '3'
    } else if d == 4 {
        '4'
    } else if d == 5 {
        '5'
    } else if d == 6 {
        '6'
    } else if d == 7 {
        '7'
    } else if d == 8 {
        '8'
    } else {
        '9'
    }
}

/// The decimal digits of a number, most significant first.
pub open spec fn enc_num(n: nat) -> Seq<char>
    decreases n,
{
    if n < 10 {
        seq![digit_char(n)]
    } else {
        enc_num(n / 10) + seq![digit_char(n % 10)]
    }
}

/// Fold the leading digits into a value; stops at the first non-digit.
pub open spec fn dec_num_acc(s: Seq<char>, acc: nat) -> (nat, Seq<char>)
    decreases s.len(),
{
    if s.len() == 0 || !is_digit(s[0]) {
        (acc, s)
    } else {
        dec_num_acc(s.drop_first(), acc * 10 + digit_val(s[0]))
    }
}

/// Decode a decimal number: at least one leading digit, maximal run.
pub open spec fn dec_num(s: Seq<char>) -> Option<(nat, Seq<char>)> {
    if s.len() == 0 || !is_digit(s[0]) {
        Option::None
    } else {
        Option::Some(dec_num_acc(s, 0))
    }
}

/// Every encoded digit is a digit character, and its value is what it
/// encodes.
proof fn lemma_digit_char_val(d: nat)
    requires
        d < 10,
    ensures
        is_digit(digit_char(d)),
        digit_val(digit_char(d)) == d,
{
}

/// Ten to the power of the digit count of `n`.
pub open spec fn pow10_len(n: nat) -> nat
    decreases n,
{
    if n < 10 {
        10
    } else {
        pow10_len(n / 10) * 10
    }
}

/// Folding the digits of `n` onto an accumulator scales the accumulator
/// past them and adds `n`.
proof fn lemma_dec_acc_enc(n: nat, acc: nat, rest: Seq<char>)
    ensures
        dec_num_acc(enc_num(n) + rest, acc) == dec_num_acc(rest, acc * pow10_len(n) + n),
    decreases n,
{
    lemma_pow10_mul(n);
    let s = enc_num(n) + rest;
    if n < 10 {
        lemma_digit_char_val(n);
        assert(s[0] == digit_char(n));
        assert(s.drop_first() =~= rest);
        assert(dec_num_acc(s, acc) == dec_num_acc(rest, acc * 10 + n));
        assert(acc * pow10_len(n) + n == acc * 10 + n);
    } else {
        let hi = n / 10;
        let lo = n % 10;
        vstd::arithmetic::div_mod::lemma_fundamental_div_mod(n as int, 10);
        lemma_digit_char_val(lo);
        assert(s =~= enc_num(hi) + (seq![digit_char(lo)] + rest));
        lemma_dec_acc_enc(hi, acc, seq![digit_char(lo)] + rest);
        let mid = acc * pow10_len(hi) + hi;
        assert(dec_num_acc(s, acc) == dec_num_acc(seq![digit_char(lo)] + rest, mid));
        assert((seq![digit_char(lo)] + rest)[0] == digit_char(lo));
        assert((seq![digit_char(lo)] + rest).drop_first() =~= rest);
        assert(dec_num_acc(seq![digit_char(lo)] + rest, mid) == dec_num_acc(rest, mid * 10 + lo));
        assert(mid * 10 + lo == acc * pow10_len(n) + n) by (nonlinear_arith)
            requires
                mid == acc * pow10_len(hi) + hi,
                pow10_len(n) == pow10_len(hi) * 10,
                n == hi * 10 + lo,
        ;
    }
}

/// `pow10_len` is a positive multiple of ten.
proof fn lemma_pow10_mul(n: nat)
    ensures
        pow10_len(n) % 10 == 0,
        pow10_len(n) >= 10,
    decreases n,
{
    if n >= 10 {
        lemma_pow10_mul(n / 10);
        assert(pow10_len(n) == pow10_len(n / 10) * 10);
        assert(pow10_len(n / 10) * 10 % 10 == 0 && pow10_len(n / 10) * 10 >= 10)
            by (nonlinear_arith)
            requires
                pow10_len(n / 10) >= 10,
        ;
    }
}

/// The first digit of an encoded number is a digit.
proof fn lemma_enc_num_first_digit(n: nat)
    ensures
        enc_num(n).len() >= 1,
        is_digit(enc_num(n)[0]),
    decreases n,
{
    if n < 10 {
        lemma_digit_char_val(n);
    } else {
        lemma_enc_num_first_digit(n / 10);
        assert(enc_num(n)[0] == enc_num(n / 10)[0]);
    }
}

/// Law: decoding a decimal number undoes encoding, whenever the remainder
/// does not begin with another digit.
pub proof fn lemma_dec_enc_num(n: nat, rest: Seq<char>)
    requires
        rest.len() == 0 || !is_digit(rest[0]),
    ensures
        dec_num(enc_num(n) + rest) == Option::Some((n, rest)),
{
    let s = enc_num(n) + rest;
    lemma_enc_num_first_digit(n);
    assert(s[0] == enc_num(n)[0]);
    lemma_dec_acc_enc(n, 0, rest);
    assert(0 * pow10_len(n) == 0);
    assert(dec_num_acc(rest, n) == (n, rest));
}

/// The folded value is never below the accumulator it started from.
proof fn lemma_dec_acc_lower(s: Seq<char>, acc: nat)
    ensures
        dec_num_acc(s, acc).0 >= acc,
    decreases s.len(),
{
    if s.len() > 0 && is_digit(s[0]) {
        lemma_dec_acc_lower(s.drop_first(), acc * 10 + digit_val(s[0]));
        assert(acc * 10 >= acc) by (nonlinear_arith);
    }
}

/// The digits of a number, as `enc_num` states them.
pub fn push_num(out: &mut Vec<char>, n: u32)
    ensures
        final(out)@ == old(out)@ + enc_num(n as nat),
    decreases n,
{
    if n < 10 {
        out.push(digit_char_of(n));
        proof {
            assert(out@ =~= old(out)@ + enc_num(n as nat));
        }
    } else {
        push_num(out, n / 10);
        out.push(digit_char_of(n % 10));
        proof {
            assert(out@ =~= old(out)@ + enc_num(n as nat));
        }
    }
}

/// The digit character of a value below ten, as `digit_char` states it.
fn digit_char_of(d: u32) -> (r: char)
    requires
        d < 10,
    ensures
        r == digit_char(d as nat),
{
    match d {
        0 => '0',
        1 => '1',
        2 => '2',
        3 => '3',
        4 => '4',
        5 => '5',
        6 => '6',
        7 => '7',
        8 => '8',
        _ => '9',
    }
}

/// Parse a decimal number starting at `i`, as `dec_num` states it; a
/// value past `u32::MAX` is rejected.
pub fn parse_num(s: &str, i: usize) -> (r: Option<(u32, usize)>)
    requires
        i <= s@.len(),
    ensures
        match r {
            Option::Some((v, j)) => i <= j <= s@.len() && dec_num(s@.skip(i as int))
                == Option::Some((v as nat, s@.skip(j as int))),
            Option::None => dec_num(s@.skip(i as int)) is None || (dec_num(
                s@.skip(i as int),
            )->0).0 > u32::MAX,
        },
{
    let ghost suf = s@.skip(i as int);
    if !is_digit_at(s, i) {
        proof {
            if suf.len() > 0 {
                assert(suf[0] == s@[i as int]);
            }
        }
        return Option::None;
    }
    proof {
        assert(suf[0] == s@[i as int]);
    }
    let len = s.unicode_len();
    let mut acc: u64 = 0;
    let mut j: usize = i;
    while is_digit_at(s, j)
        invariant
            len == s@.len(),
            i <= j <= s@.len(),
            suf == s@.skip(i as int),
            acc <= u32::MAX,
            dec_num_acc(suf, 0) == dec_num_acc(s@.skip(j as int), acc as nat),
        decreases s@.len() - j,
    {
        proof {
            assert(s@.skip(j as int)[0] == s@[j as int]);
            assert(s@.skip(j as int).drop_first() =~= s@.skip(j + 1 as int));
        }
        let c = s.get_char(j);
        let cv = c as u32;
        proof {
            assert(is_digit(s@[j as int]));
        }
        let d: u64 = (cv - 48) as u64;
        proof {
            assert(d as nat == digit_val(s@[j as int]));
        }
        let next: u64 = acc * 10 + d;
        if next > u32::MAX as u64 {
            proof {
                lemma_dec_acc_lower(s@.skip(j + 1 as int), next as nat);
                assert(dec_num_acc(suf, 0).0 > u32::MAX);
                assert(dec_num(suf) == Option::Some(dec_num_acc(suf, 0)));
            }
            return Option::None;
        }
        acc = next;
        j += 1;
    }
    proof {
        if j < s@.len() {
            assert(!is_digit(s@[j as int]));
        } else {
            assert(s@.skip(j as int).len() == 0);
        }
        assert(dec_num_acc(s@.skip(j as int), acc as nat) == (acc as nat, s@.skip(j as int)));
        assert(dec_num(suf) == Option::Some((acc as nat, s@.skip(j as int))));
    }
    Option::Some((acc as u32, j))
}

/// Whether the character at `j` exists and is a decimal digit.
fn is_digit_at(s: &str, j: usize) -> (r: bool)
    requires
        j <= s@.len(),
    ensures
        r == (j < s@.len() && is_digit(s@[j as int])),
{
    if j >= s.unicode_len() {
        return false;
    }
    let cv = s.get_char(j) as u32;
    48 <= cv && cv <= 57
}

// ---------------------------------------------------------------------------
// Argument objects: JSON objects of string fields
// ---------------------------------------------------------------------------

/// Decode the fields after the first, up to and including the closing
/// brace.
pub open spec fn dec_args_rest(s: Seq<char>) -> Option<(Seq<(Seq<char>, Seq<char>)>, Seq<char>)>
    decreases s.len(),
    via dec_args_rest_dec
{
    if s.len() == 0 {
        Option::None
    } else if s[0] == '}' {
        Option::Some((Seq::empty(), s.drop_first()))
    } else if s[0] == ',' {
        match dec_field(s.drop_first()) {
            Option::Some((kv, r)) => match dec_args_rest(r) {
                Option::Some((kvs, r2)) => Option::Some((seq![kv] + kvs, r2)),
                Option::None => Option::None,
            },
            Option::None => Option::None,
        }
    } else {
        Option::None
    }
}

#[via_fn]
proof fn dec_args_rest_dec(s: Seq<char>) {
    if s.len() > 0 && s[0] != '}' && s[0] == ',' {
        lemma_dec_field_len(s.drop_first());
    }
}

/// Decode one `"key":"value"` field.
pub open spec fn dec_field(s: Seq<char>) -> Option<((Seq<char>, Seq<char>), Seq<char>)> {
    match dec_string(s) {
        Option::Some((k, r1)) => match expect(r1, ":"@) {
            Option::Some(r2) => match dec_string(r2) {
                Option::Some((v, r3)) => Option::Some(((k, v), r3)),
                Option::None => Option::None,
            },
            Option::None => Option::None,
        },
        Option::None => Option::None,
    }
}

/// Decoding one field consumes at least one character.
pub proof fn lemma_dec_field_len(s: Seq<char>)
    ensures
        dec_field(s) matches Option::Some((kv, rest)) ==> rest.len() < s.len(),
{
    lemma_dec_string_len(s);
    if let Option::Some((k, r1)) = dec_string(s) {
        if let Option::Some(r2) = expect(r1, ":"@) {
            lemma_dec_string_len(r2);
        }
    }
}

/// Decode an argument object: string-valued fields between braces.  The
/// text must be consumed exactly.
pub open spec fn dec_args(s: Seq<char>) -> Option<Seq<(Seq<char>, Seq<char>)>> {
    match expect(s, "{"@) {
        Option::Some(r) => match dec_args_inner(r) {
            Option::Some((kvs, r2)) => if r2.len() == 0 {
                Option::Some(kvs)
            } else {
                Option::None
            },
            Option::None => Option::None,
        },
        Option::None => Option::None,
    }
}

/// Decode the fields of an argument object, up to and including the
/// closing brace.
pub open spec fn dec_args_inner(s: Seq<char>) -> Option<(Seq<(Seq<char>, Seq<char>)>, Seq<char>)> {
    if s.len() == 0 {
        Option::None
    } else if s[0] == '}' {
        Option::Some((Seq::empty(), s.drop_first()))
    } else {
        match dec_field(s) {
            Option::Some((kv, r)) => match dec_args_rest(r) {
                Option::Some((kvs, r2)) => Option::Some((seq![kv] + kvs, r2)),
                Option::None => Option::None,
            },
            Option::None => Option::None,
        }
    }
}

/// The argument pairs of a call's raw argument text: the decoded fields,
/// or no fields at all where the text is not a canonical argument object.
pub open spec fn args_of(s: Seq<char>) -> Seq<(Seq<char>, Seq<char>)> {
    match dec_args(s) {
        Option::Some(kvs) => kvs,
        Option::None => Seq::empty(),
    }
}

/// Parse one field starting at `i`, as `dec_field` states it.
fn parse_field(s: &str, i: usize) -> (r: Option<((String, String), usize)>)
    requires
        i <= s@.len(),
    ensures
        match r {
            Option::Some((kv, j)) => i <= j <= s@.len() && dec_field(s@.skip(i as int))
                == Option::Some(((kv.0@, kv.1@), s@.skip(j as int))),
            Option::None => dec_field(s@.skip(i as int)) is None,
        },
{
    match parse_string(s, i) {
        Option::Some((k, j1)) => match parse_lit(s, j1, ":") {
            Option::Some(j2) => match parse_string(s, j2) {
                Option::Some((v, j3)) => Option::Some(((k, v), j3)),
                Option::None => Option::None,
            },
            Option::None => Option::None,
        },
        Option::None => Option::None,
    }
}

/// The views of a list of string pairs (shared with the association
/// lists).
pub open spec fn arg_pairs_view(pairs: Seq<(String, String)>) -> Seq<(Seq<char>, Seq<char>)> {
    crate::assoc::pairs_view(pairs)
}

/// Parse the remaining fields starting at `i`, as `dec_args_rest` states
/// it.
fn parse_args_rest(s: &str, i: usize) -> (r: Option<(Vec<(String, String)>, usize)>)
    requires
        i <= s@.len(),
    ensures
        match r {
            Option::Some((kvs, j)) => i <= j <= s@.len() && dec_args_rest(s@.skip(i as int))
                == Option::Some((arg_pairs_view(kvs@), s@.skip(j as int))),
            Option::None => dec_args_rest(s@.skip(i as int)) is None,
        },
    decreases s@.len() - i,
{
    let slen = s.unicode_len();
    let ghost suf = s@.skip(i as int);
    if i < slen && s.get_char(i) == '}' {
        proof {
            assert(suf[0] == s@[i as int]);
            assert(suf.drop_first() =~= s@.skip(i + 1 as int));
            assert(arg_pairs_view(Seq::<(String, String)>::empty()) =~= Seq::<
                (Seq<char>, Seq<char>),
            >::empty());
        }
        return Option::Some((Vec::new(), i + 1));
    }
    if !(i < slen && s.get_char(i) == ',') {
        proof {
            if suf.len() > 0 {
                assert(suf[0] == s@[i as int]);
            }
        }
        return Option::None;
    }
    proof {
        assert(suf[0] == s@[i as int]);
        assert(suf.drop_first() =~= s@.skip(i + 1 as int));
    }
    match parse_field(s, i + 1) {
        Option::Some((kv, j1)) => {
            proof {
                lemma_dec_field_len(s@.skip(i + 1 as int));
            }
            match parse_args_rest(s, j1) {
                Option::Some((mut kvs, j2)) => {
                    let ghost prev = kvs@;
                    let ghost kvv = (kv.0@, kv.1@);
                    kvs.insert(0, kv);
                    proof {
                        assert forall|k: int| 0 <= k < kvs@.len() implies arg_pairs_view(kvs@)[k]
                            == (seq![kvv] + arg_pairs_view(prev))[k] by {
                            assert(arg_pairs_view(kvs@)[k] == (kvs@[k].0@, kvs@[k].1@));
                            if k > 0 {
                                assert(kvs@[k] == prev[k - 1]);
                                assert(arg_pairs_view(prev)[k - 1] == (prev[k - 1].0@, prev[
                                    k - 1].1@));
                            }
                        }
                        assert(arg_pairs_view(kvs@) =~= seq![kvv] + arg_pairs_view(prev));
                    }
                    Option::Some((kvs, j2))
                },
                Option::None => Option::None,
            }
        },
        Option::None => Option::None,
    }
}

/// Parse a whole argument object, as `dec_args` states it.
pub fn parse_args(s: &str) -> (r: Option<Vec<(String, String)>>)
    ensures
        match r {
            Option::Some(kvs) => dec_args(s@) == Option::Some(arg_pairs_view(kvs@)),
            Option::None => dec_args(s@) is None,
        },
{
    let slen = s.unicode_len();
    proof {
        assert(s@.skip(0) =~= s@);
    }
    let j0 = match parse_lit(s, 0, "{") {
        Option::Some(j) => j,
        Option::None => {
            return Option::None;
        },
    };
    let ghost suf = s@.skip(j0 as int);
    let (kvs, j2): (Vec<(String, String)>, usize) = if j0 < slen && s.get_char(j0) == '}' {
        proof {
            assert(suf[0] == s@[j0 as int]);
            assert(suf.drop_first() =~= s@.skip(j0 + 1 as int));
            assert(arg_pairs_view(Seq::<(String, String)>::empty()) =~= Seq::<
                (Seq<char>, Seq<char>),
            >::empty());
        }
        (Vec::new(), j0 + 1)
    } else {
        proof {
            if suf.len() > 0 {
                assert(suf[0] == s@[j0 as int]);
            }
        }
        match parse_field(s, j0) {
            Option::Some((kv, ja)) => match parse_args_rest(s, ja) {
                Option::Some((mut kvs, jb)) => {
                    let ghost prev = kvs@;
                    let ghost kvv = (kv.0@, kv.1@);
                    kvs.insert(0, kv);
                    proof {
                        assert forall|k: int| 0 <= k < kvs@.len() implies arg_pairs_view(kvs@)[k]
                            == (seq![kvv] + arg_pairs_view(prev))[k] by {
                            assert(arg_pairs_view(kvs@)[k] == (kvs@[k].0@, kvs@[k].1@));
                            if k > 0 {
                                assert(kvs@[k] == prev[k - 1]);
                                assert(arg_pairs_view(prev)[k - 1] == (prev[k - 1].0@, prev[
                                    k - 1].1@));
                            }
                        }
                        assert(arg_pairs_view(kvs@) =~= seq![kvv] + arg_pairs_view(prev));
                    }
                    (kvs, jb)
                },
                Option::None => {
                    return Option::None;
                },
            },
            Option::None => {
                return Option::None;
            },
        }
    };
    if j2 < slen {
        proof {
            assert(s@.skip(j2 as int).len() > 0);
        }
        return Option::None;
    }
    proof {
        assert(s@.skip(j2 as int).len() == 0);
    }
    Option::Some(kvs)
}

/// The argument pairs of a call's raw argument text, as `args_of` states
/// it: the decoded fields, or none where the text is not canonical.
pub fn parse_args_or_empty(s: &str) -> (r: Vec<(String, String)>)
    ensures
        arg_pairs_view(r@) == args_of(s@),
{
    match parse_args(s) {
        Option::Some(kvs) => kvs,
        Option::None => {
            proof {
                assert(arg_pairs_view(Seq::<(String, String)>::empty()) =~= Seq::<
                    (Seq<char>, Seq<char>),
                >::empty());
            }
            Vec::new()
        },
    }
}

} // verus!
