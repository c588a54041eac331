//! From characters to tokens.
//!
//! White space and `//` comments separate tokens. A name starts with a
//! letter or `_` and goes on with letters, digits and `_`; `true`, `false`,
//! `null` and `in` are no names. A number is decimal or, after `0x`,
//! hexadecimal, with `u` after it if it is unsigned; with a fraction or an
//! exponent it is a double. A string stands between two `"` or two `'`, or,
//! to go over several lines, between three of them on each side; `r` before
//! it switches escapes off, `b` makes it a bytes literal.
use vstd::prelude::*;
use crate::error::{LexProblem, ParseError};
use crate::token::{Token, TokenKind};

verus! {

/// The character at `i`, or NUL where the text has none.
pub open spec fn at(s: Seq<char>, i: int) -> char {
    if 0 <= i < s.len() {
        s[i]
    } else {
        '\0'
    }
}

pub open spec fn is_space(c: char) -> bool {
    c == ' ' || c == '\t' || c == '\n' || c == '\r' || c == '\x0c'
}

pub open spec fn is_digit(c: char) -> bool {
    '0' <= c && c <= '9'
}

pub open spec fn is_hex_digit(c: char) -> bool {
    is_digit(c) || ('a' <= c && c <= 'f') || ('A' <= c && c <= 'F')
}

pub open spec fn is_ident_start(c: char) -> bool {
    c == '_' || ('a' <= c && c <= 'z') || ('A' <= c && c <= 'Z')
}

pub open spec fn is_quote(c: char) -> bool {
    c == '"' || c == '\''
}

/// The kinds of character that a run is made of.
#[derive(Clone, Copy, Debug, PartialEq, Eq, Structural)]
pub enum CharClass {
    IdentPart,
    Digit,
    HexDigit,
}

pub open spec fn in_class(class: CharClass, c: char) -> bool {
    match class {
        CharClass::IdentPart => is_ident_start(c) || is_digit(c),
        CharClass::Digit => is_digit(c),
        CharClass::HexDigit => is_hex_digit(c),
    }
}

/// Where the run of characters of one class that starts at `i` ends.
pub open spec fn run_end(s: Seq<char>, i: int, class: CharClass) -> int
    decreases s.len() - i,
{
    if 0 <= i < s.len() && in_class(class, s[i]) {
        run_end(s, i + 1, class)
    } else {
        i
    }
}

/// Where the white space and comments that start at `i` end. Inside a
/// comment, everything up to the end of the line is passed over.
pub open spec fn trivia_end(s: Seq<char>, i: int, in_comment: bool) -> int
    decreases s.len() - i,
{
    if !(0 <= i < s.len()) {
        i
    } else if in_comment {
        trivia_end(s, i + 1, s[i] != '\n')
    } else if is_space(s[i]) {
        trivia_end(s, i + 1, false)
    } else if s[i] == '/' && at(s, i + 1) == '/' {
        trivia_end(s, i + 2, true)
    } else {
        i
    }
}

/// How a string or bytes literal is written: the number of letters before
/// the quote, what they say, the quote, and whether it stands three times.
pub struct StringShape {
    pub prefix: usize,
    pub raw: bool,
    pub bytes: bool,
    pub quote: char,
    pub triple: bool,
}

pub open spec fn shape_with(s: Seq<char>, i: int, prefix: usize, raw: bool, bytes: bool) -> StringShape {
    let quote = at(s, i + prefix);
    StringShape {
        prefix,
        raw,
        bytes,
        quote,
        triple: at(s, i + prefix + 1) == quote && at(s, i + prefix + 2) == quote,
    }
}

/// The shape of the literal that starts at `i`, if one starts there.
pub open spec fn string_shape(s: Seq<char>, i: int) -> Option<StringShape> {
    let c0 = at(s, i);
    let c1 = at(s, i + 1);
    let c2 = at(s, i + 2);
    if is_quote(c0) {
        Some(shape_with(s, i, 0, false, false))
    } else if (c0 == 'r' || c0 == 'R') && is_quote(c1) {
        Some(shape_with(s, i, 1, true, false))
    } else if (c0 == 'b' || c0 == 'B') && is_quote(c1) {
        Some(shape_with(s, i, 1, false, true))
    } else if (c0 == 'b' || c0 == 'B') && (c1 == 'r' || c1 == 'R') && is_quote(c2) {
        Some(shape_with(s, i, 2, true, true))
    } else {
        None
    }
}

/// Where the text of a literal starts that is written at `i` in this shape.
pub open spec fn body_start(i: int, shape: StringShape) -> int {
    i + shape.prefix + (if shape.triple {
        3int
    } else {
        1int
    })
}

/// How many characters close a literal of this shape.
pub open spec fn close_len(shape: StringShape) -> int {
    if shape.triple {
        3
    } else {
        1
    }
}

/// Whether the closing quotes of a literal of this shape stand at `i`.
pub open spec fn closes_at(s: Seq<char>, i: int, shape: StringShape) -> bool {
    0 <= i && i + close_len(shape) <= s.len() && s[i] == shape.quote && (!shape.triple || (s[i + 1]
        == shape.quote && s[i + 2] == shape.quote))
}

/// Where the literal ends whose text goes on at `i`: behind the closing
/// quotes, if they come. A backslash takes the next character with it,
/// unless the literal is raw; a literal between single quotes ends with its
/// line.
pub open spec fn string_close(s: Seq<char>, i: int, shape: StringShape) -> Option<int>
    decreases s.len() - i,
{
    if !(0 <= i < s.len()) {
        None
    } else if closes_at(s, i, shape) {
        Some(i + close_len(shape))
    } else if !shape.triple && (s[i] == '\n' || s[i] == '\r') {
        None
    } else if !shape.raw && s[i] == '\\' {
        if i + 1 < s.len() {
            string_close(s, i + 2, shape)
        } else {
            None
        }
    } else {
        string_close(s, i + 1, shape)
    }
}

pub open spec fn token(kind: TokenKind, start: int, end: int) -> Token {
    Token { kind, start: start as usize, end: end as usize }
}

/// The token of the literal written at `i` in this shape.
pub open spec fn string_token(s: Seq<char>, i: int, shape: StringShape) -> Result<Token, ParseError> {
    match string_close(s, body_start(i, shape), shape) {
        Some(end) => Ok(
            token(
                if shape.bytes {
                    TokenKind::Bytes
                } else {
                    TokenKind::Str
                },
                i,
                end,
            ),
        ),
        None => Err(
            ParseError::Lexical { position: i as usize, problem: LexProblem::UnterminatedString },
        ),
    }
}

/// What a word is: one of the four reserved words, or a name.
pub open spec fn word_kind(w: Seq<char>) -> TokenKind {
    if w == "true"@ {
        TokenKind::True
    } else if w == "false"@ {
        TokenKind::False
    } else if w == "null"@ {
        TokenKind::Null
    } else if w == "in"@ {
        TokenKind::In
    } else {
        TokenKind::Ident
    }
}

/// The token of the word that starts at `i`.
pub open spec fn word_token(s: Seq<char>, i: int) -> Token {
    let end = run_end(s, i, CharClass::IdentPart);
    token(word_kind(s.subrange(i, end)), i, end)
}

/// Where the exponent ends that starts at `k`; `k` itself where none
/// starts there.
pub open spec fn exponent_end(s: Seq<char>, k: int) -> int {
    if at(s, k) == 'e' || at(s, k) == 'E' {
        let m = if at(s, k + 1) == '+' || at(s, k + 1) == '-' {
            k + 2
        } else {
            k + 1
        };
        if is_digit(at(s, m)) {
            run_end(s, m, CharClass::Digit)
        } else {
            k
        }
    } else {
        k
    }
}

/// Where the fraction ends that starts at `j` with its point; `j` itself
/// where none starts there.
pub open spec fn fraction_end(s: Seq<char>, j: int) -> int {
    if at(s, j) == '.' && is_digit(at(s, j + 1)) {
        run_end(s, j + 1, CharClass::Digit)
    } else {
        j
    }
}

pub open spec fn is_unsigned_mark(c: char) -> bool {
    c == 'u' || c == 'U'
}

/// The token of the number that starts at `i` with a digit.
pub open spec fn number_token(s: Seq<char>, i: int) -> Token {
    if at(s, i) == '0' && (at(s, i + 1) == 'x' || at(s, i + 1) == 'X') && is_hex_digit(at(s, i + 2)) {
        let j = run_end(s, i + 2, CharClass::HexDigit);
        if is_unsigned_mark(at(s, j)) {
            token(TokenKind::UInt, i, j + 1)
        } else {
            token(TokenKind::Int, i, j)
        }
    } else {
        let j = run_end(s, i, CharClass::Digit);
        let e = exponent_end(s, fraction_end(s, j));
        if e > j {
            token(TokenKind::Float, i, e)
        } else if is_unsigned_mark(at(s, j)) {
            token(TokenKind::UInt, i, j + 1)
        } else {
            token(TokenKind::Int, i, j)
        }
    }
}

/// The operator or bracket that starts with `c`, followed by `next`, and
/// its length.
pub open spec fn punct(c: char, next: char) -> Option<(TokenKind, int)> {
    if c == '(' {
        Some((TokenKind::LParen, 1int))
    } else if c == ')' {
        Some((TokenKind::RParen, 1int))
    } else if c == '[' {
        Some((TokenKind::LBracket, 1int))
    } else if c == ']' {
        Some((TokenKind::RBracket, 1int))
    } else if c == '{' {
        Some((TokenKind::LBrace, 1int))
    } else if c == '}' {
        Some((TokenKind::RBrace, 1int))
    } else if c == '.' {
        Some((TokenKind::Dot, 1int))
    } else if c == ',' {
        Some((TokenKind::Comma, 1int))
    } else if c == ':' {
        Some((TokenKind::Colon, 1int))
    } else if c == '?' {
        Some((TokenKind::Question, 1int))
    } else if c == '+' {
        Some((TokenKind::Plus, 1int))
    } else if c == '-' {
        Some((TokenKind::Minus, 1int))
    } else if c == '*' {
        Some((TokenKind::Star, 1int))
    } else if c == '/' {
        Some((TokenKind::Slash, 1int))
    } else if c == '%' {
        Some((TokenKind::Percent, 1int))
    } else if c == '!' {
        if next == '=' {
            Some((TokenKind::NotEq, 2int))
        } else {
            Some((TokenKind::Bang, 1int))
        }
    } else if c == '<' {
        if next == '=' {
            Some((TokenKind::LessEq, 2int))
        } else {
            Some((TokenKind::Less, 1int))
        }
    } else if c == '>' {
        if next == '=' {
            Some((TokenKind::GreaterEq, 2int))
        } else {
            Some((TokenKind::Greater, 1int))
        }
    } else if c == '=' && next == '=' {
        Some((TokenKind::EqEq, 2int))
    } else if c == '&' && next == '&' {
        Some((TokenKind::AndAnd, 2int))
    } else if c == '|' && next == '|' {
        Some((TokenKind::OrOr, 2int))
    } else {
        None
    }
}

/// The token that starts at `i`, where a character stands that is neither
/// white space nor the start of a comment.
pub open spec fn token_at(s: Seq<char>, i: int) -> Result<Token, ParseError> {
    let c = at(s, i);
    if string_shape(s, i) is Some {
        string_token(s, i, string_shape(s, i)->0)
    } else if is_ident_start(c) {
        Ok(word_token(s, i))
    } else if is_digit(c) {
        Ok(number_token(s, i))
    } else if c == '.' && is_digit(at(s, i + 1)) {
        Ok(token(TokenKind::Float, i, exponent_end(s, run_end(s, i + 1, CharClass::Digit))))
    } else {
        match punct(c, at(s, i + 1)) {
            Some((kind, len)) => Ok(token(kind, i, i + len)),
            None => Err(
                ParseError::Lexical { position: i as usize, problem: LexProblem::UnexpectedCharacter },
            ),
        }
    }
}

/// The tokens of the text from `i` on, after those of `acc`: the last one
/// is the end of the text. (A token ends behind its start and within the
/// text; the case that one does not is there for texts longer than
/// `usize::MAX`, which no machine holds.)
pub open spec fn lex_from(s: Seq<char>, i: int, acc: Seq<Token>) -> Result<Seq<Token>, ParseError>
    decreases s.len() - i,
{
    let j = trivia_end(s, i, false);
    if !(0 <= i <= j < s.len()) {
        Ok(acc.push(token(TokenKind::Eof, s.len() as int, s.len() as int)))
    } else {
        match token_at(s, j) {
            Err(e) => Err(e),
            Ok(t) => if j < t.end <= s.len() {
                lex_from(s, t.end as int, acc.push(t))
            } else {
                Ok(acc.push(t))
            },
        }
    }
}

/// A text that has no tokens fails with a lexical error.
pub proof fn lemma_lex_errors_are_lexical(s: Seq<char>, i: int, acc: Seq<Token>)
    ensures
        lex_from(s, i, acc) matches Err(e) ==> e is Lexical,
    decreases s.len() - i,
{
    let j = trivia_end(s, i, false);
    if 0 <= i <= j < s.len() {
        if let Ok(t) = token_at(s, j) {
            if j < t.end <= s.len() {
                lemma_lex_errors_are_lexical(s, t.end as int, acc.push(t));
            }
        }
    }
}

/// The tokens of a text.
pub open spec fn lex(s: Seq<char>) -> Result<Seq<Token>, ParseError> {
    lex_from(s, 0, Seq::empty())
}

/// What holds of the tokens of a text: there is a token, only the last one
/// is the end of the text, every token lies within the text, and each
/// starts where those before it have ended or later.
#[verifier::opaque]
pub open spec fn tokens_wf(s: Seq<char>, tokens: Seq<Token>) -> bool {
    &&& tokens.len() > 0
    &&& forall|k: int|
        0 <= k < tokens.len() ==> (#[trigger] tokens[k]).start <= tokens[k].end <= s.len()
    &&& forall|k: int|
        0 <= k < tokens.len() ==> ((#[trigger] tokens[k]).kind == TokenKind::Eof <==> k == tokens.len()
            - 1)
    &&& forall|j: int, k: int|
        0 <= j < k < tokens.len() ==> (#[trigger] tokens[j]).end <= (#[trigger] tokens[k]).start
}

fn peek(chars: &Vec<char>, i: usize, k: usize) -> (c: char)
    requires
        i <= chars.len(),
    ensures
        c == at(chars@, i + k),
{
    if chars.len() - i > k {
        chars[i + k]
    } else {
        '\0'
    }
}

fn digit(c: char) -> (b: bool)
    ensures
        b == is_digit(c),
{
    '0' <= c && c <= '9'
}

fn hex_digit(c: char) -> (b: bool)
    ensures
        b == is_hex_digit(c),
{
    digit(c) || ('a' <= c && c <= 'f') || ('A' <= c && c <= 'F')
}

fn ident_start(c: char) -> (b: bool)
    ensures
        b == is_ident_start(c),
{
    c == '_' || ('a' <= c && c <= 'z') || ('A' <= c && c <= 'Z')
}

fn quote(c: char) -> (b: bool)
    ensures
        b == is_quote(c),
{
    c == '"' || c == '\''
}

fn belongs(class: CharClass, c: char) -> (b: bool)
    ensures
        b == in_class(class, c),
{
    match class {
        CharClass::IdentPart => ident_start(c) || digit(c),
        CharClass::Digit => digit(c),
        CharClass::HexDigit => hex_digit(c),
    }
}

fn scan_run(chars: &Vec<char>, start: usize, class: CharClass) -> (end: usize)
    requires
        start <= chars.len(),
    ensures
        end == run_end(chars@, start as int, class),
        start <= end <= chars.len(),
{
    let mut i = start;
    while i < chars.len() && belongs(class, chars[i])
        invariant
            start <= i <= chars.len(),
            run_end(chars@, start as int, class) == run_end(chars@, i as int, class),
        decreases chars.len() - i,
    {
        i += 1;
    }
    i
}

fn skip_trivia(chars: &Vec<char>, start: usize) -> (end: usize)
    requires
        start <= chars.len(),
    ensures
        end == trivia_end(chars@, start as int, false),
        start <= end <= chars.len(),
{
    let mut i = start;
    let mut in_comment = false;
    while i < chars.len()
        invariant
            start <= i <= chars.len(),
            trivia_end(chars@, start as int, false) == trivia_end(chars@, i as int, in_comment),
        decreases chars.len() - i,
    {
        let c = chars[i];
        if in_comment {
            in_comment = c != '\n';
            i += 1;
        } else if c == ' ' || c == '\t' || c == '\n' || c == '\r' || c == '\x0c' {
            i += 1;
        } else if c == '/' && peek(chars, i, 1) == '/' {
            in_comment = true;
            i += 2;
        } else {
            return i;
        }
    }
    i
}

fn shape_of(chars: &Vec<char>, i: usize, prefix: usize, raw: bool, bytes: bool) -> (shape: StringShape)
    requires
        i < chars.len(),
        prefix <= 2,
        is_quote(at(chars@, i + prefix)),
    ensures
        shape == shape_with(chars@, i as int, prefix, raw, bytes),
        i + prefix < chars.len(),
{
    let at_quote = i + prefix;
    let quote = chars[at_quote];
    StringShape {
        prefix,
        raw,
        bytes,
        quote,
        triple: peek(chars, at_quote, 1) == quote && peek(chars, at_quote, 2) == quote,
    }
}

/// The shape of the literal that starts at `i`, if one starts there.
pub fn shape_at(chars: &Vec<char>, i: usize) -> (r: Option<StringShape>)
    requires
        i < chars.len(),
    ensures
        r == string_shape(chars@, i as int),
        r matches Some(shape) ==> body_start(i as int, shape) <= chars.len(),
{
    let c0 = chars[i];
    let c1 = peek(chars, i, 1);
    let c2 = peek(chars, i, 2);
    if quote(c0) {
        Some(shape_of(chars, i, 0, false, false))
    } else if (c0 == 'r' || c0 == 'R') && quote(c1) {
        Some(shape_of(chars, i, 1, true, false))
    } else if (c0 == 'b' || c0 == 'B') && quote(c1) {
        Some(shape_of(chars, i, 1, false, true))
    } else if (c0 == 'b' || c0 == 'B') && (c1 == 'r' || c1 == 'R') && quote(c2) {
        Some(shape_of(chars, i, 2, true, true))
    } else {
        None
    }
}

fn scan_close(chars: &Vec<char>, start: usize, shape: &StringShape) -> (r: Option<usize>)
    requires
        start <= chars.len(),
    ensures
        match r {
            Some(end) => string_close(chars@, start as int, *shape) == Some(end as int) && start < end
                <= chars.len(),
            None => string_close(chars@, start as int, *shape) is None,
        },
{
    let mut i = start;
    while i < chars.len()
        invariant
            start <= i <= chars.len(),
            string_close(chars@, start as int, *shape) == string_close(chars@, i as int, *shape),
        decreases chars.len() - i,
    {
        let c = chars[i];
        if c == shape.quote && !shape.triple {
            return Some(i + 1);
        } else if c == shape.quote && chars.len() - i >= 3 && chars[i + 1] == shape.quote && chars[i + 2]
            == shape.quote {
            return Some(i + 3);
        } else if !shape.triple && (c == '\n' || c == '\r') {
            return None;
        } else if !shape.raw && c == '\\' {
            if chars.len() - i > 1 {
                i += 2;
            } else {
                return None;
            }
        } else {
            i += 1;
        }
    }
    None
}

/// Whether the characters `start..end` spell `word`.
pub fn same_text(chars: &Vec<char>, start: usize, end: usize, word: &str) -> (b: bool)
    requires
        start <= end <= chars.len(),
    ensures
        b == (chars@.subrange(start as int, end as int) == word@),
{
    let n = word.unicode_len();
    if end - start != n {
        return false;
    }
    let mut k: usize = 0;
    while k < n
        invariant
            k <= n,
            n == word@.len(),
            start <= end <= chars.len(),
            end - start == n,
            forall|j: int| 0 <= j < k ==> chars@[start + j] == word@[j],
        decreases n - k,
    {
        if chars[start + k] != word.get_char(k) {
            assert(chars@.subrange(start as int, end as int)[k as int] != word@[k as int]);
            return false;
        }
        k += 1;
    }
    assert(chars@.subrange(start as int, end as int) =~= word@);
    true
}

fn scan_word(chars: &Vec<char>, i: usize) -> (t: Token)
    requires
        i < chars.len(),
        is_ident_start(chars@[i as int]),
    ensures
        t == word_token(chars@, i as int),
        t.start == i,
        i < t.end <= chars.len(),
{
    let end = scan_run(chars, i + 1, CharClass::IdentPart);
    assert(run_end(chars@, i as int, CharClass::IdentPart) == end);
    let kind = if same_text(chars, i, end, "true") {
        TokenKind::True
    } else if same_text(chars, i, end, "false") {
        TokenKind::False
    } else if same_text(chars, i, end, "null") {
        TokenKind::Null
    } else if same_text(chars, i, end, "in") {
        TokenKind::In
    } else {
        TokenKind::Ident
    };
    Token { kind, start: i, end }
}

fn scan_exponent(chars: &Vec<char>, k: usize) -> (end: usize)
    requires
        k <= chars.len(),
    ensures
        end == exponent_end(chars@, k as int),
        k <= end <= chars.len(),
{
    let c = peek(chars, k, 0);
    if c == 'e' || c == 'E' {
        let sign = peek(chars, k, 1);
        let m = if sign == '+' || sign == '-' {
            k + 2
        } else {
            k + 1
        };
        if m <= chars.len() && digit(peek(chars, m, 0)) {
            scan_run(chars, m, CharClass::Digit)
        } else {
            k
        }
    } else {
        k
    }
}

fn scan_fraction(chars: &Vec<char>, j: usize) -> (end: usize)
    requires
        j <= chars.len(),
    ensures
        end == fraction_end(chars@, j as int),
        j <= end <= chars.len(),
{
    if peek(chars, j, 0) == '.' && digit(peek(chars, j, 1)) {
        scan_run(chars, j + 1, CharClass::Digit)
    } else {
        j
    }
}

fn unsigned_mark(c: char) -> (b: bool)
    ensures
        b == is_unsigned_mark(c),
{
    c == 'u' || c == 'U'
}

fn scan_number(chars: &Vec<char>, i: usize) -> (t: Token)
    requires
        i < chars.len(),
        is_digit(chars@[i as int]),
    ensures
        t == number_token(chars@, i as int),
        t.start == i,
        i < t.end <= chars.len(),
{
    let next = peek(chars, i, 1);
    if chars[i] == '0' && (next == 'x' || next == 'X') && hex_digit(peek(chars, i, 2)) {
        let j = scan_run(chars, i + 2, CharClass::HexDigit);
        if unsigned_mark(peek(chars, j, 0)) {
            Token { kind: TokenKind::UInt, start: i, end: j + 1 }
        } else {
            Token { kind: TokenKind::Int, start: i, end: j }
        }
    } else {
        let j = scan_run(chars, i + 1, CharClass::Digit);
        assert(run_end(chars@, i as int, CharClass::Digit) == j);
        let e = scan_exponent(chars, scan_fraction(chars, j));
        if e > j {
            Token { kind: TokenKind::Float, start: i, end: e }
        } else if unsigned_mark(peek(chars, j, 0)) {
            Token { kind: TokenKind::UInt, start: i, end: j + 1 }
        } else {
            Token { kind: TokenKind::Int, start: i, end: j }
        }
    }
}

fn scan_punct(c: char, next: char) -> (r: Option<(TokenKind, usize)>)
    ensures
        match r {
            Some((kind, len)) => punct(c, next) == Some((kind, len as int)) && 1 <= len <= 2 && (len == 2
                ==> next != '\0'),
            None => punct(c, next) is None,
        },
{
    if c == '(' {
        Some((TokenKind::LParen, 1))
    } else if c == ')' {
        Some((TokenKind::RParen, 1))
    } else if c == '[' {
        Some((TokenKind::LBracket, 1))
    } else if c == ']' {
        Some((TokenKind::RBracket, 1))
    } else if c == '{' {
        Some((TokenKind::LBrace, 1))
    } else if c == '}' {
        Some((TokenKind::RBrace, 1))
    } else if c == '.' {
        Some((TokenKind::Dot, 1))
    } else if c == ',' {
        Some((TokenKind::Comma, 1))
    } else if c == ':' {
        Some((TokenKind::Colon, 1))
    } else if c == '?' {
        Some((TokenKind::Question, 1))
    } else if c == '+' {
        Some((TokenKind::Plus, 1))
    } else if c == '-' {
        Some((TokenKind::Minus, 1))
    } else if c == '*' {
        Some((TokenKind::Star, 1))
    } else if c == '/' {
        Some((TokenKind::Slash, 1))
    } else if c == '%' {
        Some((TokenKind::Percent, 1))
    } else if c == '!' {
        if next == '=' {
            Some((TokenKind::NotEq, 2))
        } else {
            Some((TokenKind::Bang, 1))
        }
    } else if c == '<' {
        if next == '=' {
            Some((TokenKind::LessEq, 2))
        } else {
            Some((TokenKind::Less, 1))
        }
    } else if c == '>' {
        if next == '=' {
            Some((TokenKind::GreaterEq, 2))
        } else {
            Some((TokenKind::Greater, 1))
        }
    } else if c == '=' && next == '=' {
        Some((TokenKind::EqEq, 2))
    } else if c == '&' && next == '&' {
        Some((TokenKind::AndAnd, 2))
    } else if c == '|' && next == '|' {
        Some((TokenKind::OrOr, 2))
    } else {
        None
    }
}

fn scan_token(chars: &Vec<char>, i: usize) -> (r: Result<Token, ParseError>)
    requires
        i < chars.len(),
    ensures
        r == token_at(chars@, i as int),
        r matches Ok(t) ==> t.start == i && i < t.end <= chars.len() && t.kind != TokenKind::Eof,
        r matches Err(e) ==> e is Lexical,
{
    let c = chars[i];
    match shape_at(chars, i) {
        Some(shape) => {
            let body = i + shape.prefix + (if shape.triple {
                3
            } else {
                1
            });
            match scan_close(chars, body, &shape) {
                Some(end) => Ok(
                    Token {
                        kind: if shape.bytes {
                            TokenKind::Bytes
                        } else {
                            TokenKind::Str
                        },
                        start: i,
                        end,
                    },
                ),
                None => Err(
                    ParseError::Lexical { position: i, problem: LexProblem::UnterminatedString },
                ),
            }
        },
        None => {
            if ident_start(c) {
                Ok(scan_word(chars, i))
            } else if digit(c) {
                Ok(scan_number(chars, i))
            } else if c == '.' && digit(peek(chars, i, 1)) {
                let end = scan_exponent(chars, scan_run(chars, i + 1, CharClass::Digit));
                Ok(Token { kind: TokenKind::Float, start: i, end })
            } else {
                match scan_punct(c, peek(chars, i, 1)) {
                    Some((kind, len)) => Ok(Token { kind, start: i, end: i + len }),
                    None => Err(
                        ParseError::Lexical { position: i, problem: LexProblem::UnexpectedCharacter },
                    ),
                }
            }
        },
    }
}

/// The tokens of a text, the end of the text last.
pub fn tokenize(chars: &Vec<char>) -> (r: Result<Vec<Token>, ParseError>)
    ensures
        match r {
            Ok(tokens) => lex(chars@) == Ok::<Seq<Token>, ParseError>(tokens@) && tokens_wf(chars@, tokens@),
            Err(e) => lex(chars@) == Err::<Seq<Token>, ParseError>(e) && e is Lexical,
        },
{
    let mut tokens: Vec<Token> = Vec::new();
    let mut i: usize = 0;
    loop
        invariant
            i <= chars.len(),
            lex(chars@) == lex_from(chars@, i as int, tokens@),
            forall|k: int|
                0 <= k < tokens.len() ==> (#[trigger] tokens[k]).start <= tokens[k].end <= chars.len(),
            forall|k: int| 0 <= k < tokens.len() ==> (#[trigger] tokens[k]).kind != TokenKind::Eof,
            forall|j: int, k: int|
                0 <= j < k < tokens.len() ==> (#[trigger] tokens[j]).end <= (#[trigger] tokens[k]).start,
            forall|k: int| 0 <= k < tokens.len() ==> (#[trigger] tokens[k]).end <= i,
        decreases chars.len() - i,
    {
        let j = skip_trivia(chars, i);
        if j >= chars.len() {
            proof {
                reveal(tokens_wf);
            }
            tokens.push(Token { kind: TokenKind::Eof, start: chars.len(), end: chars.len() });
            return Ok(tokens);
        }
        match scan_token(chars, j) {
            Err(e) => {
                return Err(e);
            },
            Ok(t) => {
                tokens.push(t);
                i = t.end;
            },
        }
    }
}

} // verus!
