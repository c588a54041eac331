//! From the characters of a literal to its value.
//!
//! An integer literal is decimal, or hexadecimal after `0x`; it has to fit
//! its type. In a string or bytes literal that is not raw, a backslash
//! starts an escape: one of `\a \b \f \n \r \t \v \\ \? \" \' \``, two
//! hexadecimal digits after `\x`, three octal digits (the first at most 3),
//! or, in strings only, the four or eight hexadecimal digits of a code
//! point after `\u` or `\U`. In a string, `\x` and octal escapes give the
//! character of that number; in a bytes literal they give the byte, and every
//! other character gives the bytes of its UTF-8 encoding.
use vstd::prelude::*;
use vstd::utf8::{encode_scalar, is_scalar};
use crate::error::{LexProblem, ParseError};
use crate::lexer::{
    at, body_start, close_len, is_digit, is_hex_digit, shape_at, string_shape, StringShape,
};
use crate::reference::{Val, ValView};
use crate::token::{Token, TokenKind};

verus! {

/// `char::from_u32` gives the character of a code point, and nothing for a
/// number that is none: a surrogate or one above `0x10FFFF`.
pub assume_specification[ char::from_u32 ](i: u32) -> (r: Option<char>)
    ensures
        r == (if is_scalar(i) {
            Some(i as char)
        } else {
            None::<char>
        }),
;

/// The number that a digit stands for, in any base up to sixteen.
pub open spec fn digit_value(c: char) -> nat {
    if is_digit(c) {
        (c as nat - '0' as nat) as nat
    } else if 'a' <= c && c <= 'f' {
        (c as nat - 'a' as nat + 10) as nat
    } else if 'A' <= c && c <= 'F' {
        (c as nat - 'A' as nat + 10) as nat
    } else {
        0
    }
}

/// Whether `c` is a digit of the base.
pub open spec fn is_base_digit(c: char, base: nat) -> bool {
    (is_digit(c) || (is_hex_digit(c) && base > 10)) && digit_value(c) < base
}

/// The number that the digits `start..end` spell in the base.
pub open spec fn digits_value(s: Seq<char>, start: int, end: int, base: nat) -> nat
    decreases end - start,
{
    if end <= start {
        0
    } else {
        digits_value(s, start, end - 1, base) * base + digit_value(s[end - 1])
    }
}

/// Whether the token of a number is written in hexadecimal.
pub open spec fn is_hex_literal(s: Seq<char>, t: Token) -> bool {
    t.end - t.start >= 3 && (at(s, t.start + 1) == 'x' || at(s, t.start + 1) == 'X')
}

/// The number that the token of an integer literal spells, whatever its
/// sign and type.
pub open spec fn magnitude_of(s: Seq<char>, t: Token) -> nat {
    let end = if t.kind == TokenKind::UInt {
        t.end - 1
    } else {
        t.end as int
    };
    if is_hex_literal(s, t) {
        digits_value(s, t.start + 2, end, 16)
    } else {
        digits_value(s, t.start as int, end, 10)
    }
}

pub open spec fn out_of_range(t: Token) -> ParseError {
    ParseError::Lexical { position: t.start, problem: LexProblem::IntegerOutOfRange }
}

/// The value of an integer literal; `negative` says that a minus sign
/// stands before a signed one.
pub open spec fn integer_value(s: Seq<char>, t: Token, negative: bool) -> Result<ValView, ParseError> {
    let m = magnitude_of(s, t);
    if t.kind == TokenKind::UInt {
        if m <= u64::MAX {
            Ok(ValView::UInt(m as u64))
        } else {
            Err(out_of_range(t))
        }
    } else if negative {
        if m <= 0x8000_0000_0000_0000 {
            Ok(ValView::Int((-m) as i64))
        } else {
            Err(out_of_range(t))
        }
    } else {
        if m <= i64::MAX {
            Ok(ValView::Int(m as i64))
        } else {
            Err(out_of_range(t))
        }
    }
}

/// The number that exactly `n` digits of the base spell, from `i` on and
/// before `end`; nothing where they are not all there.
pub open spec fn fixed_digits(s: Seq<char>, i: int, n: nat, base: nat, end: int) -> Option<nat>
    decreases n,
{
    if n == 0 {
        Some(0)
    } else {
        match fixed_digits(s, i, (n - 1) as nat, base, end) {
            Some(v) => if 0 <= i && i + n <= end && end <= s.len() && is_base_digit(s[i + n - 1], base) {
                Some(v * base + digit_value(s[i + n - 1]))
            } else {
                None
            },
            None => None,
        }
    }
}

/// What an escape stands for.
#[derive(Clone, Copy, Debug, PartialEq, Eq, Structural)]
pub enum Unit {
    /// The character of a one-letter escape.
    Char(char),
    /// The number of a `\x` or octal escape.
    Byte(u8),
    /// The code point of a `\u` or `\U` escape.
    Code(char),
}

/// The character of a one-letter escape.
pub open spec fn simple_escape(c: char) -> Option<char> {
    if c == 'a' {
        Some('\x07')
    } else if c == 'b' {
        Some('\x08')
    } else if c == 'f' {
        Some('\x0c')
    } else if c == 'n' {
        Some('\n')
    } else if c == 'r' {
        Some('\r')
    } else if c == 't' {
        Some('\t')
    } else if c == 'v' {
        Some('\x0b')
    } else if c == '\\' || c == '?' || c == '"' || c == '\'' || c == '`' {
        Some(c)
    } else {
        None
    }
}

/// What the escape stands for whose backslash is at `i`, and where it
/// ends; nothing where it is no escape, or goes beyond `end`.
pub open spec fn escape_at(s: Seq<char>, i: int, end: int) -> Option<(Unit, int)> {
    let c = at(s, i + 1);
    if !(0 <= i && i + 1 < end && end <= s.len()) {
        None
    } else if simple_escape(c) is Some {
        Some((Unit::Char(simple_escape(c)->0), i + 2))
    } else if c == 'x' || c == 'X' {
        match fixed_digits(s, i + 2, 2, 16, end) {
            Some(v) => Some((Unit::Byte(v as u8), i + 4)),
            None => None,
        }
    } else if c == 'u' {
        match fixed_digits(s, i + 2, 4, 16, end) {
            Some(v) => if is_scalar(v as u32) {
                Some((Unit::Code(v as char), i + 6))
            } else {
                None
            },
            None => None,
        }
    } else if c == 'U' {
        match fixed_digits(s, i + 2, 8, 16, end) {
            Some(v) => if is_scalar(v as u32) {
                Some((Unit::Code(v as char), i + 10))
            } else {
                None
            },
            None => None,
        }
    } else if '0' <= c && c <= '3' {
        match fixed_digits(s, i + 1, 3, 8, end) {
            Some(v) => Some((Unit::Byte(v as u8), i + 4)),
            None => None,
        }
    } else {
        None
    }
}

pub open spec fn invalid_escape(i: int) -> ParseError {
    ParseError::Lexical { position: i as usize, problem: LexProblem::InvalidEscape }
}

/// The character that an escape gives in a string.
pub open spec fn unit_char(u: Unit) -> char {
    match u {
        Unit::Char(c) => c,
        Unit::Byte(b) => b as char,
        Unit::Code(c) => c,
    }
}

/// The bytes that an escape gives in a bytes literal; a code point has
/// none.
pub open spec fn unit_bytes(u: Unit) -> Option<Seq<u8>> {
    match u {
        Unit::Char(c) => Some(encode_scalar(c as u32)),
        Unit::Byte(b) => Some(seq![b]),
        Unit::Code(_) => None,
    }
}

/// The characters that the text `i..end` of a string literal stands for,
/// after those of `acc`.
pub open spec fn decode_chars(s: Seq<char>, i: int, end: int, raw: bool, acc: Seq<char>) -> Result<
    Seq<char>,
    ParseError,
>
    decreases end - i,
{
    if !(0 <= i < end <= s.len()) {
        Ok(acc)
    } else if !raw && s[i] == '\\' {
        match escape_at(s, i, end) {
            Some((u, next)) => if i < next <= end {
                decode_chars(s, next, end, raw, acc.push(unit_char(u)))
            } else {
                Err(invalid_escape(i))
            },
            None => Err(invalid_escape(i)),
        }
    } else {
        decode_chars(s, i + 1, end, raw, acc.push(s[i]))
    }
}

/// The bytes that the text `i..end` of a bytes literal stands for, after
/// those of `acc`.
pub open spec fn decode_bytes(s: Seq<char>, i: int, end: int, raw: bool, acc: Seq<u8>) -> Result<
    Seq<u8>,
    ParseError,
>
    decreases end - i,
{
    if !(0 <= i < end <= s.len()) {
        Ok(acc)
    } else if !raw && s[i] == '\\' {
        match escape_at(s, i, end) {
            Some((u, next)) => if i < next <= end && unit_bytes(u) is Some {
                decode_bytes(s, next, end, raw, acc + unit_bytes(u)->0)
            } else {
                Err(invalid_escape(i))
            },
            None => Err(invalid_escape(i)),
        }
    } else {
        decode_bytes(s, i + 1, end, raw, acc + encode_scalar(s[i] as u32))
    }
}

/// Where the text of the literal of a token ends: before its closing quotes.
pub open spec fn text_end(t: Token, shape: StringShape) -> int {
    if t.end >= close_len(shape) {
        t.end - close_len(shape)
    } else {
        0
    }
}

/// The value of a string or bytes literal.
pub open spec fn quoted_value(s: Seq<char>, t: Token) -> Result<ValView, ParseError> {
    match string_shape(s, t.start as int) {
        Some(shape) => if t.kind == TokenKind::Bytes {
            match decode_bytes(
                s,
                body_start(t.start as int, shape),
                text_end(t, shape),
                shape.raw,
                Seq::empty(),
            ) {
                Ok(b) => Ok(ValView::Bytes(b)),
                Err(e) => Err(e),
            }
        } else {
            match decode_chars(
                s,
                body_start(t.start as int, shape),
                text_end(t, shape),
                shape.raw,
                Seq::empty(),
            ) {
                Ok(c) => Ok(ValView::String(c)),
                Err(e) => Err(e),
            }
        },
        None => Err(invalid_escape(t.start as int)),
    }
}

/// A string literal fails only with a lexical error.
pub proof fn lemma_decode_chars_error(s: Seq<char>, i: int, end: int, raw: bool, acc: Seq<char>)
    ensures
        decode_chars(s, i, end, raw, acc) matches Err(e) ==> e is Lexical,
    decreases end - i,
{
    if 0 <= i < end <= s.len() {
        if !raw && s[i] == '\\' {
            if let Some((u, next)) = escape_at(s, i, end) {
                if i < next <= end {
                    lemma_decode_chars_error(s, next, end, raw, acc.push(unit_char(u)));
                }
            }
        } else {
            lemma_decode_chars_error(s, i + 1, end, raw, acc.push(s[i]));
        }
    }
}

/// A bytes literal fails only with a lexical error.
pub proof fn lemma_decode_bytes_error(s: Seq<char>, i: int, end: int, raw: bool, acc: Seq<u8>)
    ensures
        decode_bytes(s, i, end, raw, acc) matches Err(e) ==> e is Lexical,
    decreases end - i,
{
    if 0 <= i < end <= s.len() {
        if !raw && s[i] == '\\' {
            if let Some((u, next)) = escape_at(s, i, end) {
                if i < next <= end && unit_bytes(u) is Some {
                    lemma_decode_bytes_error(s, next, end, raw, acc + unit_bytes(u)->0);
                }
            }
        } else {
            lemma_decode_bytes_error(s, i + 1, end, raw, acc + encode_scalar(s[i] as u32));
        }
    }
}

/// A literal that has no value fails with a lexical error.
pub proof fn lemma_literal_errors_are_lexical(s: Seq<char>, t: Token, negative: bool)
    ensures
        integer_value(s, t, negative) matches Err(e) ==> e is Lexical,
        quoted_value(s, t) matches Err(e) ==> e is Lexical,
{
    if let Some(shape) = string_shape(s, t.start as int) {
        lemma_decode_chars_error(
            s,
            body_start(t.start as int, shape),
            text_end(t, shape),
            shape.raw,
            Seq::empty(),
        );
        lemma_decode_bytes_error(
            s,
            body_start(t.start as int, shape),
            text_end(t, shape),
            shape.raw,
            Seq::empty(),
        );
    }
}

fn digit_of(c: char) -> (v: u64)
    ensures
        v == digit_value(c),
        v < 16,
{
    let n = c as u32;
    if '0' <= c && c <= '9' {
        (n - 48) as u64
    } else if 'a' <= c && c <= 'f' {
        (n - 97 + 10) as u64
    } else if 'A' <= c && c <= 'F' {
        (n - 65 + 10) as u64
    } else {
        0
    }
}

fn base_digit(c: char, base: u64) -> (b: bool)
    ensures
        b == is_base_digit(c, base as nat),
{
    let hex = ('a' <= c && c <= 'f') || ('A' <= c && c <= 'F');
    (('0' <= c && c <= '9') || (hex && base > 10)) && digit_of(c) < base
}

proof fn lemma_digits_value_grows(s: Seq<char>, start: int, k: int, end: int, base: nat)
    requires
        k <= end,
        base >= 1,
    ensures
        digits_value(s, start, k, base) <= digits_value(s, start, end, base),
    decreases end - k,
{
    if k < end {
        lemma_digits_value_grows(s, start, k, end - 1, base);
        if end > start {
            let v = digits_value(s, start, end - 1, base);
            assert(v <= v * base) by (nonlinear_arith)
                requires
                    base >= 1,
            ;
        }
    }
}

/// The number that the digits `start..end` spell, unless it is above
/// `u64::MAX`.
fn magnitude(chars: &Vec<char>, start: usize, end: usize, base: u64) -> (r: Option<u64>)
    requires
        end <= chars.len(),
        1 <= base <= 16,
    ensures
        match r {
            Some(v) => v == digits_value(chars@, start as int, end as int, base as nat),
            None => digits_value(chars@, start as int, end as int, base as nat) > u64::MAX,
        },
{
    let mut acc: u64 = 0;
    let mut i: usize = start;
    while i < end
        invariant
            end <= chars.len(),
            1 <= base <= 16,
            start <= i,
            start < end ==> i <= end,
            start >= end ==> i == start,
            acc == digits_value(chars@, start as int, i as int, base as nat),
        decreases end - i,
    {
        let d = digit_of(chars[i]);
        proof {
            lemma_digits_value_grows(chars@, start as int, i + 1, end as int, base as nat);
        }
        let shifted = match acc.checked_mul(base) {
            Some(m) => m,
            None => {
                return None;
            },
        };
        acc = match shifted.checked_add(d) {
            Some(v) => v,
            None => {
                return None;
            },
        };
        i += 1;
    }
    Some(acc)
}

/// The value of an integer literal; see [`integer_value`].
pub fn integer(chars: &Vec<char>, t: Token, negative: bool) -> (r: Result<Val, ParseError>)
    requires
        t.start <= t.end <= chars.len(),
    ensures
        match r {
            Ok(v) => integer_value(chars@, t, negative) == Ok::<ValView, ParseError>(v@),
            Err(e) => integer_value(chars@, t, negative) == Err::<ValView, ParseError>(e) && e is Lexical,
        },
{
    let unsigned = t.kind == TokenKind::UInt;
    let end = if unsigned && t.end > 0 {
        t.end - 1
    } else {
        t.end
    };
    let hex = t.end - t.start >= 3 && (chars[t.start + 1] == 'x' || chars[t.start + 1] == 'X');
    let m = if hex {
        magnitude(chars, t.start + 2, end, 16)
    } else {
        magnitude(chars, t.start, end, 10)
    };
    let failed = Err(ParseError::Lexical { position: t.start, problem: LexProblem::IntegerOutOfRange });
    match m {
        None => failed,
        Some(m) => {
            if unsigned {
                Ok(Val::UInt(m))
            } else if negative {
                if m < 0x8000_0000_0000_0000 {
                    Ok(Val::Int(-(m as i64)))
                } else if m == 0x8000_0000_0000_0000 {
                    Ok(Val::Int(i64::MIN))
                } else {
                    failed
                }
            } else if m <= 0x7fff_ffff_ffff_ffff {
                Ok(Val::Int(m as i64))
            } else {
                failed
            }
        },
    }
}

/// Sixteen to the power `k`.
pub open spec fn power16(k: nat) -> nat
    decreases k,
{
    if k == 0 {
        1
    } else {
        16 * power16((k - 1) as nat)
    }
}

proof fn lemma_fixed_digits_stays_none(s: Seq<char>, i: int, k: nat, n: nat, base: nat, end: int)
    requires
        k <= n,
        fixed_digits(s, i, k, base, end) is None,
    ensures
        fixed_digits(s, i, n, base, end) is None,
    decreases n - k,
{
    if k < n {
        lemma_fixed_digits_stays_none(s, i, k, (n - 1) as nat, base, end);
    }
}

/// The number that exactly `n` digits spell; see [`fixed_digits`].
fn fixed(chars: &Vec<char>, i: usize, n: usize, base: u64, end: usize) -> (r: Option<u64>)
    requires
        i <= end <= chars.len(),
        n <= 8,
        2 <= base <= 16,
    ensures
        match r {
            Some(v) => fixed_digits(chars@, i as int, n as nat, base as nat, end as int) == Some(v as nat)
                && v < power16(n as nat) && i + n <= end,
            None => fixed_digits(chars@, i as int, n as nat, base as nat, end as int) is None,
        },
{
    let mut acc: u64 = 0;
    let mut k: usize = 0;
    proof {
        reveal_with_fuel(power16, 10);
    }
    while k < n
        invariant
            i <= end <= chars.len(),
            k <= n <= 8,
            2 <= base <= 16,
            i + k <= end,
            fixed_digits(chars@, i as int, k as nat, base as nat, end as int) == Some(acc as nat),
            acc < power16(k as nat),
            power16(k as nat) <= 0x1000_0000 || k == 8,
        decreases n - k,
    {
        if end - i <= k || !base_digit(chars[i + k], base) {
            proof {
                lemma_fixed_digits_stays_none(chars@, i as int, (k + 1) as nat, n as nat, base as nat, end as int);
            }
            return None;
        }
        let d = digit_of(chars[i + k]);
        assert(acc * base + d < 16 * power16(k as nat)) by (nonlinear_arith)
            requires
                acc < power16(k as nat),
                base <= 16,
                d < base,
        ;
        acc = acc * base + d;
        k += 1;
        proof {
            reveal_with_fuel(power16, 10);
        }
    }
    Some(acc)
}

fn simple(c: char) -> (r: Option<char>)
    ensures
        r == simple_escape(c),
{
    if c == 'a' {
        Some('\x07')
    } else if c == 'b' {
        Some('\x08')
    } else if c == 'f' {
        Some('\x0c')
    } else if c == 'n' {
        Some('\n')
    } else if c == 'r' {
        Some('\r')
    } else if c == 't' {
        Some('\t')
    } else if c == 'v' {
        Some('\x0b')
    } else if c == '\\' || c == '?' || c == '"' || c == '\'' || c == '`' {
        Some(c)
    } else {
        None
    }
}

fn code_point(v: u64, next: usize) -> (r: Option<(Unit, usize)>)
    requires
        v <= 0xffff_ffff,
    ensures
        r == (if is_scalar(v as u32) {
            Some((Unit::Code(v as u32 as char), next))
        } else {
            None::<(Unit, usize)>
        }),
{
    match char::from_u32(v as u32) {
        Some(c) => Some((Unit::Code(c), next)),
        None => None,
    }
}

/// What the escape at `i` stands for and where it ends; see [`escape_at`].
fn escape(chars: &Vec<char>, i: usize, end: usize) -> (r: Option<(Unit, usize)>)
    requires
        i < end <= chars.len(),
    ensures
        match r {
            Some((u, next)) => escape_at(chars@, i as int, end as int) == Some((u, next as int)) && i < next
                <= end,
            None => escape_at(chars@, i as int, end as int) is None,
        },
{
    if end - i < 2 {
        return None;
    }
    let c = chars[i + 1];
    proof {
        reveal_with_fuel(power16, 10);
        reveal_with_fuel(fixed_digits, 4);
    }
    if let Some(plain) = simple(c) {
        Some((Unit::Char(plain), i + 2))
    } else if c == 'x' || c == 'X' {
        match fixed(chars, i + 2, 2, 16, end) {
            Some(v) => Some((Unit::Byte(v as u8), i + 4)),
            None => None,
        }
    } else if c == 'u' {
        match fixed(chars, i + 2, 4, 16, end) {
            Some(v) => code_point(v, i + 6),
            None => None,
        }
    } else if c == 'U' {
        match fixed(chars, i + 2, 8, 16, end) {
            Some(v) => code_point(v, i + 10),
            None => None,
        }
    } else if '0' <= c && c <= '3' {
        match fixed(chars, i + 1, 3, 8, end) {
            Some(v) => {
                assert(v < 256);
                Some((Unit::Byte(v as u8), i + 4))
            },
            None => None,
        }
    } else {
        None
    }
}

/// Appends the UTF-8 encoding of `c`.
fn push_utf8(out: &mut Vec<u8>, c: char)
    ensures
        final(out)@ == old(out)@ + encode_scalar(c as u32),
{
    let v = c as u32;
    if v <= 0x7F {
        assert(v & 0x7F < 256) by (bit_vector);
        out.push((v & 0x7F) as u8);
        assert(out@ =~= old(out)@ + encode_scalar(v));
    } else if v <= 0x7FF {
        assert((v >> 6) & 0x1F < 256 && v & 0x3F < 256) by (bit_vector);
        out.push(0xC0 | (((v >> 6) & 0x1F) as u8));
        out.push(0x80 | ((v & 0x3F) as u8));
        assert(out@ =~= old(out)@ + encode_scalar(v));
    } else if v <= 0xFFFF {
        assert((v >> 12) & 0x0F < 256 && (v >> 6) & 0x3F < 256 && v & 0x3F < 256) by (bit_vector);
        out.push(0xE0 | (((v >> 12) & 0x0F) as u8));
        out.push(0x80 | (((v >> 6) & 0x3F) as u8));
        out.push(0x80 | ((v & 0x3F) as u8));
        assert(out@ =~= old(out)@ + encode_scalar(v));
    } else {
        assert((v >> 18) & 0x7 < 256 && (v >> 12) & 0x3F < 256 && (v >> 6) & 0x3F < 256 && v & 0x3F < 256)
            by (bit_vector);
        out.push(0xF0 | (((v >> 18) & 0x7) as u8));
        out.push(0x80 | (((v >> 12) & 0x3F) as u8));
        out.push(0x80 | (((v >> 6) & 0x3F) as u8));
        out.push(0x80 | ((v & 0x3F) as u8));
        assert(out@ =~= old(out)@ + encode_scalar(v));
    }
}

fn decode_string(chars: &Vec<char>, start: usize, end: usize, raw: bool) -> (r: Result<String, ParseError>)
    requires
        end <= chars.len(),
    ensures
        match r {
            Ok(out) => decode_chars(chars@, start as int, end as int, raw, Seq::empty()) == Ok::<
                Seq<char>,
                ParseError,
            >(out@),
            Err(e) => decode_chars(chars@, start as int, end as int, raw, Seq::empty()) == Err::<
                Seq<char>,
                ParseError,
            >(e) && e is Lexical,
        },
{
    let mut out = String::new();
    let mut i = start;
    while i < end
        invariant
            end <= chars.len(),
            decode_chars(chars@, start as int, end as int, raw, Seq::empty()) == decode_chars(
                chars@,
                i as int,
                end as int,
                raw,
                out@,
            ),
        decreases end - i,
    {
        let c = chars[i];
        if !raw && c == '\\' {
            match escape(chars, i, end) {
                Some((u, next)) => {
                    out.push(
                        match u {
                            Unit::Char(c) => c,
                            Unit::Byte(b) => b as char,
                            Unit::Code(c) => c,
                        },
                    );
                    i = next;
                },
                None => {
                    return Err(ParseError::Lexical { position: i, problem: LexProblem::InvalidEscape });
                },
            }
        } else {
            out.push(c);
            i += 1;
        }
    }
    Ok(out)
}

fn decode_byte_string(chars: &Vec<char>, start: usize, end: usize, raw: bool) -> (r: Result<
    Vec<u8>,
    ParseError,
>)
    requires
        end <= chars.len(),
    ensures
        match r {
            Ok(out) => decode_bytes(chars@, start as int, end as int, raw, Seq::empty()) == Ok::<
                Seq<u8>,
                ParseError,
            >(out@),
            Err(e) => decode_bytes(chars@, start as int, end as int, raw, Seq::empty()) == Err::<
                Seq<u8>,
                ParseError,
            >(e) && e is Lexical,
        },
{
    let mut out: Vec<u8> = Vec::new();
    let mut i = start;
    while i < end
        invariant
            end <= chars.len(),
            decode_bytes(chars@, start as int, end as int, raw, Seq::empty()) == decode_bytes(
                chars@,
                i as int,
                end as int,
                raw,
                out@,
            ),
        decreases end - i,
    {
        let c = chars[i];
        if !raw && c == '\\' {
            match escape(chars, i, end) {
                Some((Unit::Char(c), next)) => {
                    push_utf8(&mut out, c);
                    i = next;
                },
                Some((Unit::Byte(b), next)) => {
                    let ghost before = out@;
                    out.push(b);
                    assert(out@ =~= before + seq![b]);
                    i = next;
                },
                _ => {
                    return Err(ParseError::Lexical { position: i, problem: LexProblem::InvalidEscape });
                },
            }
        } else {
            push_utf8(&mut out, c);
            i += 1;
        }
    }
    Ok(out)
}

/// The value of a string or bytes literal; see [`quoted_value`].
pub fn quoted(chars: &Vec<char>, t: Token) -> (r: Result<Val, ParseError>)
    requires
        t.start <= t.end <= chars.len(),
    ensures
        match r {
            Ok(v) => quoted_value(chars@, t) == Ok::<ValView, ParseError>(v@),
            Err(e) => quoted_value(chars@, t) == Err::<ValView, ParseError>(e) && e is Lexical,
        },
{
    if t.start >= chars.len() {
        return Err(ParseError::Lexical { position: t.start, problem: LexProblem::InvalidEscape });
    }
    match shape_at(chars, t.start) {
        Some(shape) => {
            let start = t.start + shape.prefix + (if shape.triple {
                3
            } else {
                1
            });
            let close: usize = if shape.triple {
                3
            } else {
                1
            };
            let end = if t.end >= close {
                t.end - close
            } else {
                0
            };
            if t.kind == TokenKind::Bytes {
                match decode_byte_string(chars, start, end, shape.raw) {
                    Ok(b) => Ok(Val::Bytes(b)),
                    Err(e) => Err(e),
                }
            } else {
                match decode_string(chars, start, end, shape.raw) {
                    Ok(s) => Ok(Val::String(s)),
                    Err(e) => Err(e),
                }
            }
        },
        None => Err(ParseError::Lexical { position: t.start, problem: LexProblem::InvalidEscape }),
    }
}

} // verus!
