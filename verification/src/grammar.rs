//! From tokens to the tree.
//!
//! The grammar, from the loosest binding to the tightest:
//!
//! ```text
//! expr     = or [ "?" or ":" expr ]
//! or       = and { "||" and }
//! and      = rel { "&&" rel }
//! rel      = add { ("==" | "!=" | "<" | "<=" | ">" | ">=" | "in") add }
//! add      = mul { ("+" | "-") mul }
//! mul      = unary { ("*" | "/" | "%") unary }
//! unary    = ("!" | "-") unary | member
//! member   = primary { "." NAME [ "(" [ expr { "," expr } ] ")" ] | "[" expr "]" }
//! primary  = NAME "(" [ expr { "," expr } ] ")"
//!          | NAME { "." NAME } "{" [ NAME ":" expr { "," NAME ":" expr } [ "," ] ] "}"
//!          | NAME
//!          | "(" expr ")"
//!          | "[" [ expr { "," expr } [ "," ] ] "]"
//!          | "{" [ expr ":" expr { "," expr ":" expr } [ "," ] ] "}"
//!          | [ "-" ] NUMBER | STRING | BYTES | "true" | "false" | "null"
//! ```
//!
//! Every binary operator associates to the left. An operator becomes a call
//! of the function named after it (`_+_`, `!_`, `_?_:_`, `_[_]`, `@in`). A
//! node gets its identifier when it is complete, so after its children;
//! every call node is then handed to the macro rewriting.
use vstd::prelude::*;
use crate::ast::{EntryKeyView, EntryView, ExprView, NodeView};
use crate::error::{Expected, ParseError};
use crate::lexer::lex;
use crate::literal::{integer_value, quoted_value};
use crate::macros::expansion;
use crate::reference::ValView;
use crate::references::ReferenceView;
use crate::token::{Token, TokenKind};

verus! {

/// What is parsed: the characters, their tokens, and the bit patterns of the
/// double literals, in the order of the literals.
pub struct Source {
    pub chars: Seq<char>,
    pub tokens: Seq<Token>,
    pub doubles: Seq<u64>,
}

/// What a parse has used up and built so far, beside its place in the
/// tokens: the identifiers issued, the table, and the number of double
/// literals met.
pub struct State {
    pub issued: u64,
    pub refs: Map<u64, ReferenceView>,
    pub doubles_used: nat,
}

/// A node, the number of tokens it was made of, and the state after it.
pub struct Parsed {
    pub node: NodeView,
    pub used: nat,
    pub state: State,
}

/// Some nodes, the number of tokens they were made of, and the state after
/// them.
pub struct Listed {
    pub nodes: Seq<NodeView>,
    pub used: nat,
    pub state: State,
}

/// Some entries, the number of tokens they were made of, and the state
/// after them.
pub struct Entered {
    pub entries: Seq<EntryView>,
    pub used: nat,
    pub state: State,
}

/// The kind of the token at `pos`; beyond the tokens, the end of the text.
pub open spec fn kind_at(src: Source, pos: int) -> TokenKind {
    if 0 <= pos < src.tokens.len() {
        src.tokens[pos].kind
    } else {
        TokenKind::Eof
    }
}

/// Where in the text the token at `pos` starts.
pub open spec fn start_at(src: Source, pos: int) -> usize {
    if 0 <= pos < src.tokens.len() {
        src.tokens[pos].start
    } else {
        0
    }
}

/// The characters of the token at `pos`.
pub open spec fn text_at(src: Source, pos: int) -> Seq<char> {
    if 0 <= pos < src.tokens.len() {
        src.chars.subrange(src.tokens[pos].start as int, src.tokens[pos].end as int)
    } else {
        Seq::empty()
    }
}

/// How many tokens are left from `pos` on.
pub open spec fn left(src: Source, pos: int) -> nat {
    if pos <= src.tokens.len() {
        (src.tokens.len() - pos) as nat
    } else {
        0
    }
}

/// The error for the token at `pos`, where `expected` was needed.
pub open spec fn unexpected(src: Source, pos: int, expected: Expected) -> ParseError {
    ParseError::Syntax { position: start_at(src, pos), expected, found: kind_at(src, pos) }
}

/// A node of this shape under the next identifier.
pub open spec fn numbered(st: State, expr: ExprView) -> Result<(NodeView, State), ParseError> {
    if st.issued == u64::MAX {
        Err(ParseError::TooManyNodes)
    } else {
        let id = (st.issued + 1) as u64;
        Ok((NodeView { id, expr }, State { issued: id, ..st }))
    }
}

/// A call node under the next identifier, as the macro rewriting leaves
/// it.
#[verifier::opaque]
pub open spec fn called(st: State, target: Option<NodeView>, function: Seq<char>, args: Seq<NodeView>) -> Result<
    (NodeView, State),
    ParseError,
> {
    let boxed = match target {
        Some(t) => Some(Box::new(t)),
        None => None,
    };
    match numbered(st, ExprView::Call { target: boxed, function, args }) {
        Err(e) => Err(e),
        Ok((call, st1)) => match expansion(call, st1.issued, st1.refs) {
            Err(e) => Err(e),
            Ok((node, issued, refs)) => Ok((node, State { issued, refs, ..st1 })),
        },
    }
}

/// The binding strength of a binary operator, 1 for the loosest, and the
/// function it calls.
pub open spec fn operator(kind: TokenKind) -> Option<(int, Seq<char>)> {
    match kind {
        TokenKind::OrOr => Some((1int, "_||_"@)),
        TokenKind::AndAnd => Some((2int, "_&&_"@)),
        TokenKind::EqEq => Some((3int, "_==_"@)),
        TokenKind::NotEq => Some((3int, "_!=_"@)),
        TokenKind::Less => Some((3int, "_<_"@)),
        TokenKind::LessEq => Some((3int, "_<=_"@)),
        TokenKind::Greater => Some((3int, "_>_"@)),
        TokenKind::GreaterEq => Some((3int, "_>=_"@)),
        TokenKind::In => Some((3int, "@in"@)),
        TokenKind::Plus => Some((4int, "_+_"@)),
        TokenKind::Minus => Some((4int, "_-_"@)),
        TokenKind::Star => Some((5int, "_*_"@)),
        TokenKind::Slash => Some((5int, "_/_"@)),
        TokenKind::Percent => Some((5int, "_%_"@)),
        _ => None,
    }
}

/// Whether a minus sign before a token of this kind belongs to the literal.
pub open spec fn takes_sign(kind: TokenKind) -> bool {
    kind == TokenKind::Int || kind == TokenKind::Float
}

/// The bit that is the sign of a double.
pub open spec fn sign_bit() -> u64 {
    0x8000_0000_0000_0000
}

/// The value of the literal whose token is at `pos`, with a minus sign
/// before it if `negative`, and the state after it. A double takes the next
/// of the bit patterns that were handed in.
pub open spec fn literal_value(src: Source, pos: int, st: State, negative: bool) -> Result<
    (ValView, State),
    ParseError,
> {
    let t = src.tokens[pos];
    match kind_at(src, pos) {
        TokenKind::Int | TokenKind::UInt => match integer_value(src.chars, t, negative) {
            Ok(v) => Ok((v, st)),
            Err(e) => Err(e),
        },
        TokenKind::Float => if st.doubles_used < src.doubles.len() {
            let bits = src.doubles[st.doubles_used as int];
            Ok(
                (
                    ValView::Double(
                        if negative {
                            bits ^ sign_bit()
                        } else {
                            bits
                        },
                    ),
                    State { doubles_used: st.doubles_used + 1, ..st },
                ),
            )
        } else {
            Err(unexpected(src, pos, Expected::DoubleBits))
        },
        TokenKind::Str | TokenKind::Bytes => match quoted_value(src.chars, t) {
            Ok(v) => Ok((v, st)),
            Err(e) => Err(e),
        },
        TokenKind::True => Ok((ValView::Boolean(true), st)),
        TokenKind::False => Ok((ValView::Boolean(false), st)),
        TokenKind::Null => Ok((ValView::Null, st)),
        _ => Err(unexpected(src, pos, Expected::Expression)),
    }
}

/// The literal node whose value is in the token at `pos`, and the state
/// after it.
#[verifier::opaque]
pub open spec fn literal(src: Source, pos: int, st: State, negative: bool) -> Result<
    (NodeView, State),
    ParseError,
> {
    match literal_value(src, pos, st, negative) {
        Err(e) => Err(e),
        Ok((v, st1)) => numbered(st1, ExprView::Literal(v)),
    }
}

/// How many further names the dotted name has that starts with the name
/// at `pos`; each stands two tokens after the one before, behind a dot.
pub open spec fn qualified_parts(src: Source, pos: int) -> nat
    decreases left(src, pos),
{
    if kind_at(src, pos + 1) == TokenKind::Dot && kind_at(src, pos + 2) == TokenKind::Ident {
        1 + qualified_parts(src, pos + 2)
    } else {
        0
    }
}

/// The dotted name that starts with the name at `pos` and has `parts`
/// further names.
pub open spec fn qualified_name(src: Source, pos: int, parts: nat) -> Seq<char>
    decreases parts,
{
    if parts == 0 {
        text_at(src, pos)
    } else {
        qualified_name(src, pos, (parts - 1) as nat) + seq!['.'] + text_at(src, pos + parts + parts)
    }
}

/// Whether a message literal starts with the name at `pos`, that is, whether
/// an opening brace follows the dotted name; if so, how many tokens come
/// before its first field: the names, the dots between them, and the brace.
#[verifier::opaque]
pub open spec fn message_head(src: Source, pos: int) -> Option<nat> {
    let parts = qualified_parts(src, pos);
    if kind_at(src, pos + parts + parts + 1) == TokenKind::LBrace {
        Some(parts + parts + 2)
    } else {
        None
    }
}

/// The name of the message whose literal starts at `pos`.
#[verifier::opaque]
pub open spec fn dotted_text(src: Source, pos: int) -> Seq<char> {
    qualified_name(src, pos, qualified_parts(src, pos))
}

/// `expr`: a condition with its two branches, or what binds tighter.
#[verifier::opaque]
pub open spec fn expr(src: Source, pos: int, st: State) -> Result<Parsed, ParseError>
    decreases left(src, pos), 20int,
{
    match binary(src, pos, st, 1) {
        Err(e) => Err(e),
        Ok(c) => if kind_at(src, pos + c.used) != TokenKind::Question {
            Ok(c)
        } else {
            match binary(src, pos + c.used + 1, c.state, 1) {
                Err(e) => Err(e),
                Ok(t) => {
                    let colon = pos + c.used + 1 + t.used;
                    if kind_at(src, colon) != TokenKind::Colon {
                        Err(unexpected(src, colon, Expected::Token(TokenKind::Colon)))
                    } else {
                        match expr(src, colon + 1, t.state) {
                            Err(e) => Err(e),
                            Ok(o) => match called(o.state, None, "_?_:_"@, seq![c.node, t.node, o.node]) {
                                Err(e) => Err(e),
                                Ok((node, state)) => Ok(
                                    Parsed { node, used: c.used + 1 + t.used + 1 + o.used, state },
                                ),
                            },
                        }
                    }
                },
            }
        },
    }
}

/// The operands and operators of one binding strength, and of the tighter
/// ones within them.
#[verifier::opaque]
pub open spec fn binary(src: Source, pos: int, st: State, level: int) -> Result<Parsed, ParseError>
    decreases left(src, pos), (if 1 <= level <= 5 { 18 - 2 * level } else { 7 }),
{
    if 1 <= level <= 5 {
        match binary(src, pos, st, level + 1) {
            Err(e) => Err(e),
            Ok(lhs) => binary_rest(src, pos, lhs, level),
        }
    } else {
        unary(src, pos, st)
    }
}

/// What follows a left operand that started at `start`: the operators of
/// this binding strength, each with its right operand, taken in from the
/// left.
#[verifier::opaque]
pub open spec fn binary_rest(src: Source, start: int, lhs: Parsed, level: int) -> Result<
    Parsed,
    ParseError,
>
    decreases left(src, start + lhs.used), (if 1 <= level <= 5 { 17 - 2 * level } else { 0 }),
{
    let pos = start + lhs.used;
    match operator(kind_at(src, pos)) {
        Some((strength, function)) => if strength == level && 1 <= level <= 5 {
            match binary(src, pos + 1, lhs.state, level + 1) {
                Err(e) => Err(e),
                Ok(rhs) => match called(rhs.state, None, function, seq![lhs.node, rhs.node]) {
                    Err(e) => Err(e),
                    Ok((node, state)) => binary_rest(
                        src,
                        start,
                        Parsed { node, used: lhs.used + 1 + rhs.used, state },
                        level,
                    ),
                },
            }
        } else {
            Ok(lhs)
        },
        None => Ok(lhs),
    }
}

/// `unary`: a negation, or what binds tighter. A minus sign before a
/// number belongs to the number.
#[verifier::opaque]
pub open spec fn unary(src: Source, pos: int, st: State) -> Result<Parsed, ParseError>
    decreases left(src, pos), 6int,
{
    let kind = kind_at(src, pos);
    if kind == TokenKind::Bang || (kind == TokenKind::Minus && !takes_sign(kind_at(src, pos + 1))) {
        match unary(src, pos + 1, st) {
            Err(e) => Err(e),
            Ok(x) => match called(
                x.state,
                None,
                if kind == TokenKind::Bang {
                    "!_"@
                } else {
                    "-_"@
                },
                seq![x.node],
            ) {
                Err(e) => Err(e),
                Ok((node, state)) => Ok(Parsed { node, used: x.used + 1, state }),
            },
        }
    } else {
        member(src, pos, st)
    }
}

/// `member`: a primary and what is selected from it, called on it and
/// indexed in it.
#[verifier::opaque]
pub open spec fn member(src: Source, pos: int, st: State) -> Result<Parsed, ParseError>
    decreases left(src, pos), 5int,
{
    match primary(src, pos, st) {
        Err(e) => Err(e),
        Ok(p) => member_rest(src, pos, p),
    }
}

/// What follows an operand that started at `start`: selections, method
/// calls and indexings, taken in from the left.
#[verifier::opaque]
pub open spec fn member_rest(src: Source, start: int, operand: Parsed) -> Result<Parsed, ParseError>
    decreases left(src, start + operand.used), 4int,
{
    let pos = start + operand.used;
    if kind_at(src, pos) == TokenKind::Dot {
        if kind_at(src, pos + 1) != TokenKind::Ident {
            Err(unexpected(src, pos + 1, Expected::Token(TokenKind::Ident)))
        } else if kind_at(src, pos + 2) == TokenKind::LParen {
            match elements(src, pos + 3, operand.state, TokenKind::RParen, false) {
                Err(e) => Err(e),
                Ok(a) => match called(a.state, Some(operand.node), text_at(src, pos + 1), a.nodes) {
                    Err(e) => Err(e),
                    Ok((node, state)) => member_rest(
                        src,
                        start,
                        Parsed { node, used: operand.used + 3 + a.used, state },
                    ),
                },
            }
        } else {
            match numbered(
                operand.state,
                ExprView::Select {
                    operand: Box::new(operand.node),
                    field: text_at(src, pos + 1),
                    test_only: false,
                },
            ) {
                Err(e) => Err(e),
                Ok((node, state)) => member_rest(src, start, Parsed { node, used: operand.used + 2, state }),
            }
        }
    } else if kind_at(src, pos) == TokenKind::LBracket {
        match expr(src, pos + 1, operand.state) {
            Err(e) => Err(e),
            Ok(i) => if kind_at(src, pos + 1 + i.used) != TokenKind::RBracket {
                Err(unexpected(src, pos + 1 + i.used, Expected::Token(TokenKind::RBracket)))
            } else {
                match called(i.state, None, "_[_]"@, seq![operand.node, i.node]) {
                    Err(e) => Err(e),
                    Ok((node, state)) => member_rest(
                        src,
                        start,
                        Parsed { node, used: operand.used + 1 + i.used + 1, state },
                    ),
                }
            },
        }
    } else {
        Ok(operand)
    }
}

/// `primary`: a call, a literal of a message, a list or a map, a name, an
/// expression in brackets, or a literal value.
#[verifier::opaque]
pub open spec fn primary(src: Source, pos: int, st: State) -> Result<Parsed, ParseError>
    decreases left(src, pos), 3int,
{
    match kind_at(src, pos) {
        TokenKind::Ident => if kind_at(src, pos + 1) == TokenKind::LParen {
            match elements(src, pos + 2, st, TokenKind::RParen, false) {
                Err(e) => Err(e),
                Ok(a) => match called(a.state, None, text_at(src, pos), a.nodes) {
                    Err(e) => Err(e),
                    Ok((node, state)) => Ok(Parsed { node, used: 2 + a.used, state }),
                },
            }
        } else {
            proof {
                reveal(message_head);
            }
            match message_head(src, pos) {
                Some(head) => match entries(src, pos + head, st, true) {
                    Err(e) => Err(e),
                    Ok(f) => match numbered(
                        f.state,
                        ExprView::CreateStruct {
                            entries: f.entries,
                            message_name: Some(dotted_text(src, pos)),
                        },
                    ) {
                        Err(e) => Err(e),
                        Ok((node, state)) => Ok(Parsed { node, used: head + f.used, state }),
                    },
                },
                None => match numbered(st, ExprView::Ident(text_at(src, pos))) {
                    Err(e) => Err(e),
                    Ok((node, state)) => Ok(Parsed { node, used: 1, state }),
                },
            }
        },
        TokenKind::LParen => match expr(src, pos + 1, st) {
            Err(e) => Err(e),
            Ok(e) => if kind_at(src, pos + 1 + e.used) != TokenKind::RParen {
                Err(unexpected(src, pos + 1 + e.used, Expected::Token(TokenKind::RParen)))
            } else {
                Ok(Parsed { used: e.used + 2, ..e })
            },
        },
        TokenKind::LBracket => match elements(src, pos + 1, st, TokenKind::RBracket, true) {
            Err(e) => Err(e),
            Ok(l) => match numbered(l.state, ExprView::CreateList { elements: l.nodes }) {
                Err(e) => Err(e),
                Ok((node, state)) => Ok(Parsed { node, used: 1 + l.used, state }),
            },
        },
        TokenKind::LBrace => match entries(src, pos + 1, st, false) {
            Err(e) => Err(e),
            Ok(m) => match numbered(
                m.state,
                ExprView::CreateStruct { entries: m.entries, message_name: None },
            ) {
                Err(e) => Err(e),
                Ok((node, state)) => Ok(Parsed { node, used: 1 + m.used, state }),
            },
        },
        TokenKind::Minus => if takes_sign(kind_at(src, pos + 1)) {
            match literal(src, pos + 1, st, true) {
                Err(e) => Err(e),
                Ok((node, state)) => Ok(Parsed { node, used: 2, state }),
            }
        } else {
            Err(unexpected(src, pos, Expected::Expression))
        },
        _ => match literal(src, pos, st, false) {
            Err(e) => Err(e),
            Ok((node, state)) => Ok(Parsed { node, used: 1, state }),
        },
    }
}

/// The expressions from `pos` up to the closing token, which is taken too;
/// they are separated by commas, and where `trailing` allows it one more
/// comma may stand before the closing token.
#[verifier::opaque]
pub open spec fn elements(src: Source, pos: int, st: State, close: TokenKind, trailing: bool) -> Result<
    Listed,
    ParseError,
>
    decreases left(src, pos), 22int,
{
    if kind_at(src, pos) == close {
        Ok(Listed { nodes: Seq::empty(), used: 1, state: st })
    } else {
        more_elements(src, pos, Listed { nodes: Seq::empty(), used: 0, state: st }, close, trailing)
    }
}

/// The expressions that follow those of `acc`, which started at `start`, up
/// to the closing token.
#[verifier::opaque]
pub open spec fn more_elements(src: Source, start: int, acc: Listed, close: TokenKind, trailing: bool) -> Result<
    Listed,
    ParseError,
>
    decreases left(src, start + acc.used), 21int,
{
    match expr(src, start + acc.used, acc.state) {
        Err(e) => Err(e),
        Ok(e) => {
            let pos = start + acc.used + e.used;
            let nodes = acc.nodes.push(e.node);
            if kind_at(src, pos) == close {
                Ok(Listed { nodes, used: acc.used + e.used + 1, state: e.state })
            } else if kind_at(src, pos) != TokenKind::Comma {
                Err(unexpected(src, pos, Expected::Token(close)))
            } else if trailing && kind_at(src, pos + 1) == close {
                Ok(Listed { nodes, used: acc.used + e.used + 2, state: e.state })
            } else {
                more_elements(
                    src,
                    start,
                    Listed { nodes, used: acc.used + e.used + 1, state: e.state },
                    close,
                    trailing,
                )
            }
        },
    }
}

/// The entries from `pos` up to the closing brace, which is taken too. The
/// keys are field names if `fields`, else expressions.
#[verifier::opaque]
pub open spec fn entries(src: Source, pos: int, st: State, fields: bool) -> Result<Entered, ParseError>
    decreases left(src, pos), 23int,
{
    if kind_at(src, pos) == TokenKind::RBrace {
        Ok(Entered { entries: Seq::empty(), used: 1, state: st })
    } else {
        more_entries(src, pos, Entered { entries: Seq::empty(), used: 0, state: st }, fields)
    }
}

/// The entries that follow those of `acc`, which started at `start`, up to
/// the closing brace. Each is a key, a colon and a value; the key is a
/// field name if `fields`, else an expression.
#[verifier::opaque]
pub open spec fn more_entries(src: Source, start: int, acc: Entered, fields: bool) -> Result<
    Entered,
    ParseError,
>
    decreases left(src, start + acc.used), 22int,
{
    let first = start + acc.used;
    let keyed: Result<(EntryKeyView, nat, State), ParseError> = if fields {
        if kind_at(src, first) == TokenKind::Ident {
            Ok((EntryKeyView::Field(text_at(src, first)), 1nat, acc.state))
        } else {
            Err(unexpected(src, first, Expected::Token(TokenKind::Ident)))
        }
    } else {
        match expr(src, first, acc.state) {
            Err(e) => Err(e),
            Ok(k) => Ok((EntryKeyView::Expr(k.node), k.used, k.state)),
        }
    };
    match keyed {
        Err(e) => Err(e),
        Ok((key, key_used, st1)) => {
            let colon = start + acc.used + key_used;
            if kind_at(src, colon) != TokenKind::Colon {
                Err(unexpected(src, colon, Expected::Token(TokenKind::Colon)))
            } else {
                match expr(src, colon + 1, st1) {
                    Err(e) => Err(e),
                    Ok(v) => {
                        let used = acc.used + key_used + 1 + v.used;
                        let pos = start + used;
                        let all = acc.entries.push(EntryView { key, value: v.node });
                        if kind_at(src, pos) == TokenKind::RBrace {
                            Ok(Entered { entries: all, used: used + 1, state: v.state })
                        } else if kind_at(src, pos) != TokenKind::Comma {
                            Err(unexpected(src, pos, Expected::Token(TokenKind::RBrace)))
                        } else if kind_at(src, pos + 1) == TokenKind::RBrace {
                            Ok(Entered { entries: all, used: used + 2, state: v.state })
                        } else {
                            more_entries(src, start, Entered { entries: all, used: used + 1, state: v.state }, fields)
                        }
                    },
                }
            }
        },
    }
}

/// What a parse gives: the tree and the table.
pub struct ParseOutputView {
    pub expr: NodeView,
    pub references: Map<u64, ReferenceView>,
}

/// The state before the first token.
pub open spec fn initial() -> State {
    State { issued: 0, refs: Map::empty(), doubles_used: 0 }
}

/// The tree of the tokens: one expression, and after it the end of the text.
pub open spec fn parse_tokens(src: Source) -> Result<ParseOutputView, ParseError> {
    match expr(src, 0, initial()) {
        Err(e) => Err(e),
        Ok(p) => if kind_at(src, p.used as int) != TokenKind::Eof {
            Err(unexpected(src, p.used as int, Expected::Token(TokenKind::Eof)))
        } else {
            Ok(ParseOutputView { expr: p.node, references: p.state.refs })
        },
    }
}

/// The tree of a text, with `doubles` the bit patterns of its double
/// literals in their order.
pub open spec fn parse_text(chars: Seq<char>, doubles: Seq<u64>) -> Result<ParseOutputView, ParseError> {
    match lex(chars) {
        Err(e) => Err(e),
        Ok(tokens) => parse_tokens(Source { chars, tokens, doubles }),
    }
}

/// The texts of the double literals among the first `upto` tokens, in
/// order.
pub open spec fn double_texts(chars: Seq<char>, tokens: Seq<Token>, upto: int) -> Seq<Seq<char>>
    decreases upto,
{
    if upto <= 0 {
        Seq::empty()
    } else {
        let before = double_texts(chars, tokens, upto - 1);
        let t = tokens[upto - 1];
        if t.kind == TokenKind::Float {
            before.push(chars.subrange(t.start as int, t.end as int))
        } else {
            before
        }
    }
}

/// The texts of the double literals of a text, in order: what the bit
/// patterns handed to a parse stand for, one by one.
pub open spec fn double_literals(chars: Seq<char>) -> Result<Seq<Seq<char>>, ParseError> {
    match lex(chars) {
        Err(e) => Err(e),
        Ok(tokens) => Ok(double_texts(chars, tokens, tokens.len() as int)),
    }
}

/// How many of the tokens before `pos` are double literals.
#[verifier::opaque]
pub open spec fn floats_before(src: Source, pos: int) -> nat {
    double_texts(src.chars, src.tokens, pos).len()
}

/// Whether there is a bit pattern for every double literal.
pub open spec fn enough_doubles(src: Source) -> bool {
    floats_before(src, src.tokens.len() as int) <= src.doubles.len()
}

/// Whether an error says that the bit pattern of a double literal is
/// missing.
pub open spec fn double_missing(e: ParseError) -> bool {
    e matches ParseError::Syntax { expected: Expected::DoubleBits, .. }
}

/// A double literal at `pos` counts among those before `pos + 1`, and
/// nothing else does.
pub proof fn lemma_floats_step(src: Source, pos: int)
    requires
        0 <= pos < src.tokens.len(),
    ensures
        floats_before(src, pos + 1) == floats_before(src, pos) + (if kind_at(src, pos) == TokenKind::Float {
            1nat
        } else {
            0nat
        }),
{
    reveal(floats_before);
}

/// Further on there are at least as many double literals before.
pub proof fn lemma_floats_grow(src: Source, from: int, to: int)
    requires
        from <= to,
    ensures
        floats_before(src, from) <= floats_before(src, to),
    decreases to - from,
{
    reveal(floats_before);
    if from < to {
        lemma_floats_grow(src, from, to - 1);
    }
}

/// Whether `r` is what parsing gives for a text and its doubles.
pub open spec fn parse_gives(
    chars: Seq<char>,
    doubles: Seq<u64>,
    r: Result<ParseOutputView, ParseError>,
) -> bool {
    r == parse_text(chars, doubles)
}

/// Parsing is a function of the text and the doubles: two parses of the same
/// text with the same doubles give the same tree, with the same identifier
/// at every node, and the same table, or fail with the same error.
pub proof fn lemma_parse_is_deterministic(
    chars: Seq<char>,
    doubles: Seq<u64>,
    first: Result<ParseOutputView, ParseError>,
    second: Result<ParseOutputView, ParseError>,
)
    requires
        parse_gives(chars, doubles, first),
        parse_gives(chars, doubles, second),
    ensures
        first == second,
{
}

} // verus!
