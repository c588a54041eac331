//! Building strings from characters and numbers.
use vstd::prelude::*;

verus! {

/// `String::push` appends one character at the end of the string.
pub assume_specification[ std::string::String::push ](s: &mut std::string::String, ch: char)
    ensures
        final(s)@ == old(s)@.push(ch),
;

/// The characters of `s`, in order.
pub fn chars_of(s: &str) -> (v: Vec<char>)
    ensures
        v@ == s@,
{
    let mut v: Vec<char> = Vec::new();
    for c in it: s.chars()
        invariant
            it.seq() == s@,
            v@ == it.seq().take(it.index()),
    {
        v.push(c);
    }
    v
}

/// The string made of the characters `chars[start..end]`.
pub fn string_of(chars: &Vec<char>, start: usize, end: usize) -> (r: String)
    requires
        start <= end <= chars.len(),
    ensures
        r@ == chars@.subrange(start as int, end as int),
{
    let mut out = String::new();
    let mut i: usize = start;
    while i < end
        invariant
            start <= i <= end <= chars.len(),
            out@ == chars@.subrange(start as int, i as int),
        decreases end - i,
    {
        out.push(chars[i]);
        i += 1;
        assert(out@ =~= chars@.subrange(start as int, i as int));
    }
    out
}

/// The character of the decimal digit `d`.
pub open spec fn digit_char(d: nat) -> char
    recommends
        d < 10,
{
    (('0' as nat) + d) as char
}

/// The decimal digits of `n`, most significant first, without leading zeros.
pub open spec fn digits_text(n: nat) -> Seq<char>
    decreases n,
{
    if n < 10 {
        seq![digit_char(n)]
    } else {
        digits_text(n / 10).push(digit_char(n % 10))
    }
}

/// The decimal form of `i`: a minus sign if it is negative, then the digits
/// of its magnitude.
pub open spec fn decimal_text(i: int) -> Seq<char> {
    if i < 0 {
        seq!['-'] + digits_text((-i) as nat)
    } else {
        digits_text(i as nat)
    }
}

spec fn leading_digits(n: nat) -> Seq<char> {
    if n == 0 {
        Seq::empty()
    } else {
        digits_text(n)
    }
}

spec fn backwards(rev: Seq<char>) -> Seq<char> {
    Seq::new(rev.len(), |k: int| rev[rev.len() - 1 - k])
}

fn digit_of(d: u64) -> (c: char)
    requires
        d < 10,
    ensures
        c == digit_char(d as nat),
{
    let b: u8 = 48u8 + (d as u8);
    b as char
}

/// The decimal form of `i` as a string.
pub fn decimal_string(i: i64) -> (r: String)
    ensures
        r@ == decimal_text(i as int),
{
    let magnitude: u64 = if i < 0 {
        ((-(i + 1)) as u64) + 1
    } else {
        i as u64
    };
    let mut rev: Vec<char> = Vec::new();
    rev.push(digit_of(magnitude % 10));
    let mut n: u64 = magnitude / 10;
    assert(digits_text(magnitude as nat) =~= leading_digits(n as nat) + backwards(rev@));
    while n > 0
        invariant
            rev.len() > 0,
            digits_text(magnitude as nat) == leading_digits(n as nat) + backwards(rev@),
        decreases n,
    {
        let ghost before = rev@;
        rev.push(digit_of(n % 10));
        assert(leading_digits(n as nat) =~= leading_digits((n / 10) as nat).push(
            digit_char((n % 10) as nat),
        ));
        assert(backwards(rev@) =~= seq![digit_char((n % 10) as nat)] + backwards(before));
        assert(leading_digits(n as nat) + backwards(before) =~= leading_digits((n / 10) as nat)
            + backwards(rev@));
        n = n / 10;
    }
    let mut out = String::new();
    if i < 0 {
        out.push('-');
    }
    let ghost sign = out@;
    let mut k: usize = rev.len();
    while k > 0
        invariant
            k <= rev.len(),
            out@ == sign + backwards(rev@).take(rev.len() - k),
        decreases k,
    {
        k -= 1;
        out.push(rev[k]);
        assert(out@ =~= sign + backwards(rev@).take(rev.len() - k));
    }
    assert(backwards(rev@).take(rev.len() as int) =~= backwards(rev@));
    assert(leading_digits(0) + backwards(rev@) =~= backwards(rev@));
    out
}

} // verus!
