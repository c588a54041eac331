//! Each function of the grammar, one step unfolded: the equations by
//! which the parser follows the grammar.
use vstd::prelude::*;
use crate::ast::{EntryKeyView, EntryView, ExprView};
use crate::error::{Expected, ParseError};
use crate::grammar::{
    binary, binary_rest, called, dotted_text, elements, entries, expr, kind_at, literal, member,
    member_rest, message_head, more_elements, more_entries, numbered, operator, primary,
    takes_sign, text_at, unary, unexpected, Entered, Listed, Parsed, Source, State,
};
use crate::token::TokenKind;

verus! {

/// What `expr` is, in terms of what it is made of.
pub proof fn lemma_expr(src: Source, pos: int, st: State)
    ensures
        expr(src, pos, st) == ({
            match binary(src, pos, st, 1) {
                Err(e) => Err(e),
                Ok(c) => if kind_at(src, pos + c.used) != TokenKind::Question {
                    Ok(c)
                } else {
                    match binary(src, pos + c.used + 1, c.state, 1) {
                        Err(e) => Err(e),
                        Ok(t) => {
                            let colon = pos + c.used + 1 + t.used;
                            if kind_at(src, colon) != TokenKind::Colon {
                                Err(unexpected(src, colon, Expected::Token(TokenKind::Colon)))
                            } else {
                                match expr(src, colon + 1, t.state) {
                                    Err(e) => Err(e),
                                    Ok(o) => match called(o.state, None, "_?_:_"@, seq![c.node, t.node, o.node]) {
                                        Err(e) => Err(e),
                                        Ok((node, state)) => Ok(
                                            Parsed { node, used: c.used + 1 + t.used + 1 + o.used, state },
                                        ),
                                    },
                                }
                            }
                        },
                    }
                },
            }
        }),
{
    reveal(expr);
    reveal(binary);
}

/// What `binary` is, in terms of what it is made of.
pub proof fn lemma_binary(src: Source, pos: int, st: State, level: int)
    ensures
        binary(src, pos, st, level) == ({
            if 1 <= level <= 5 {
                match binary(src, pos, st, level + 1) {
                    Err(e) => Err(e),
                    Ok(lhs) => binary_rest(src, pos, lhs, level),
                }
            } else {
                unary(src, pos, st)
            }
        }),
{
    reveal(binary);
    reveal(binary_rest);
    reveal(unary);
}

/// What `binary_rest` is, in terms of what it is made of.
pub proof fn lemma_binary_rest(src: Source, start: int, lhs: Parsed, level: int)
    ensures
        binary_rest(src, start, lhs, level) == ({
            let pos = start + lhs.used;
            match operator(kind_at(src, pos)) {
                Some((strength, function)) => if strength == level && 1 <= level <= 5 {
                    match binary(src, pos + 1, lhs.state, level + 1) {
                        Err(e) => Err(e),
                        Ok(rhs) => match called(rhs.state, None, function, seq![lhs.node, rhs.node]) {
                            Err(e) => Err(e),
                            Ok((node, state)) => binary_rest(
                                src,
                                start,
                                Parsed { node, used: lhs.used + 1 + rhs.used, state },
                                level,
                            ),
                        },
                    }
                } else {
                    Ok(lhs)
                },
                None => Ok(lhs),
            }
        }),
{
    reveal(binary_rest);
    reveal(binary);
}

/// What `unary` is, in terms of what it is made of.
pub proof fn lemma_unary(src: Source, pos: int, st: State)
    ensures
        unary(src, pos, st) == ({
            let kind = kind_at(src, pos);
            if kind == TokenKind::Bang || (kind == TokenKind::Minus && !takes_sign(kind_at(src, pos + 1))) {
                match unary(src, pos + 1, st) {
                    Err(e) => Err(e),
                    Ok(x) => match called(
                        x.state,
                        None,
                        if kind == TokenKind::Bang {
                            "!_"@
                        } else {
                            "-_"@
                        },
                        seq![x.node],
                    ) {
                        Err(e) => Err(e),
                        Ok((node, state)) => Ok(Parsed { node, used: x.used + 1, state }),
                    },
                }
            } else {
                member(src, pos, st)
            }
        }),
{
    reveal(unary);
    reveal(member);
}

/// What `member` is, in terms of what it is made of.
pub proof fn lemma_member(src: Source, pos: int, st: State)
    ensures
        member(src, pos, st) == ({
            match primary(src, pos, st) {
                Err(e) => Err(e),
                Ok(p) => member_rest(src, pos, p),
            }
        }),
{
    reveal(member);
    reveal(primary);
    reveal(member_rest);
}

/// What `member_rest` is, in terms of what it is made of.
pub proof fn lemma_member_rest(src: Source, start: int, operand: Parsed)
    ensures
        member_rest(src, start, operand) == ({
            let pos = start + operand.used;
            if kind_at(src, pos) == TokenKind::Dot {
                if kind_at(src, pos + 1) != TokenKind::Ident {
                    Err(unexpected(src, pos + 1, Expected::Token(TokenKind::Ident)))
                } else if kind_at(src, pos + 2) == TokenKind::LParen {
                    match elements(src, pos + 3, operand.state, TokenKind::RParen, false) {
                        Err(e) => Err(e),
                        Ok(a) => match called(a.state, Some(operand.node), text_at(src, pos + 1), a.nodes) {
                            Err(e) => Err(e),
                            Ok((node, state)) => member_rest(
                                src,
                                start,
                                Parsed { node, used: operand.used + 3 + a.used, state },
                            ),
                        },
                    }
                } else {
                    match numbered(
                        operand.state,
                        ExprView::Select {
                            operand: Box::new(operand.node),
                            field: text_at(src, pos + 1),
                            test_only: false,
                        },
                    ) {
                        Err(e) => Err(e),
                        Ok((node, state)) => member_rest(src, start, Parsed { node, used: operand.used + 2, state }),
                    }
                }
            } else if kind_at(src, pos) == TokenKind::LBracket {
                match expr(src, pos + 1, operand.state) {
                    Err(e) => Err(e),
                    Ok(i) => if kind_at(src, pos + 1 + i.used) != TokenKind::RBracket {
                        Err(unexpected(src, pos + 1 + i.used, Expected::Token(TokenKind::RBracket)))
                    } else {
                        match called(i.state, None, "_[_]"@, seq![operand.node, i.node]) {
                            Err(e) => Err(e),
                            Ok((node, state)) => member_rest(
                                src,
                                start,
                                Parsed { node, used: operand.used + 1 + i.used + 1, state },
                            ),
                        }
                    },
                }
            } else {
                Ok(operand)
            }
        }),
{
    reveal(member_rest);
    reveal(elements);
    reveal(expr);
}

/// What `elements` is, in terms of what it is made of.
pub proof fn lemma_elements(src: Source, pos: int, st: State, close: TokenKind, trailing: bool)
    ensures
        elements(src, pos, st, close, trailing) == ({
            if kind_at(src, pos) == close {
                Ok(Listed { nodes: Seq::empty(), used: 1, state: st })
            } else {
                more_elements(src, pos, Listed { nodes: Seq::empty(), used: 0, state: st }, close, trailing)
            }
        }),
{
    reveal(elements);
    reveal(more_elements);
}

/// What `more_elements` is, in terms of what it is made of.
pub proof fn lemma_more_elements(src: Source, start: int, acc: Listed, close: TokenKind, trailing: bool)
    ensures
        more_elements(src, start, acc, close, trailing) == ({
            match expr(src, start + acc.used, acc.state) {
                Err(e) => Err(e),
                Ok(e) => {
                    let pos = start + acc.used + e.used;
                    let nodes = acc.nodes.push(e.node);
                    if kind_at(src, pos) == close {
                        Ok(Listed { nodes, used: acc.used + e.used + 1, state: e.state })
                    } else if kind_at(src, pos) != TokenKind::Comma {
                        Err(unexpected(src, pos, Expected::Token(close)))
                    } else if trailing && kind_at(src, pos + 1) == close {
                        Ok(Listed { nodes, used: acc.used + e.used + 2, state: e.state })
                    } else {
                        more_elements(
                            src,
                            start,
                            Listed { nodes, used: acc.used + e.used + 1, state: e.state },
                            close,
                            trailing,
                        )
                    }
                },
            }
        }),
{
    reveal(more_elements);
    reveal(expr);
}

/// What `entries` is, in terms of what it is made of.
pub proof fn lemma_entries(src: Source, pos: int, st: State, fields: bool)
    ensures
        entries(src, pos, st, fields) == ({
            if kind_at(src, pos) == TokenKind::RBrace {
                Ok(Entered { entries: Seq::empty(), used: 1, state: st })
            } else {
                more_entries(src, pos, Entered { entries: Seq::empty(), used: 0, state: st }, fields)
            }
        }),
{
    reveal(entries);
    reveal(more_entries);
}

/// What `more_entries` is, in terms of what it is made of.
pub proof fn lemma_more_entries(src: Source, start: int, acc: Entered, fields: bool)
    ensures
        more_entries(src, start, acc, fields) == ({
            let first = start + acc.used;
            let keyed: Result<(EntryKeyView, nat, State), ParseError> = if fields {
                if kind_at(src, first) == TokenKind::Ident {
                    Ok((EntryKeyView::Field(text_at(src, first)), 1nat, acc.state))
                } else {
                    Err(unexpected(src, first, Expected::Token(TokenKind::Ident)))
                }
            } else {
                match expr(src, first, acc.state) {
                    Err(e) => Err(e),
                    Ok(k) => Ok((EntryKeyView::Expr(k.node), k.used, k.state)),
                }
            };
            match keyed {
                Err(e) => Err(e),
                Ok((key, key_used, st1)) => {
                    let colon = start + acc.used + key_used;
                    if kind_at(src, colon) != TokenKind::Colon {
                        Err(unexpected(src, colon, Expected::Token(TokenKind::Colon)))
                    } else {
                        match expr(src, colon + 1, st1) {
                            Err(e) => Err(e),
                            Ok(v) => {
                                let used = acc.used + key_used + 1 + v.used;
                                let pos = start + used;
                                let all = acc.entries.push(EntryView { key, value: v.node });
                                if kind_at(src, pos) == TokenKind::RBrace {
                                    Ok(Entered { entries: all, used: used + 1, state: v.state })
                                } else if kind_at(src, pos) != TokenKind::Comma {
                                    Err(unexpected(src, pos, Expected::Token(TokenKind::RBrace)))
                                } else if kind_at(src, pos + 1) == TokenKind::RBrace {
                                    Ok(Entered { entries: all, used: used + 2, state: v.state })
                                } else {
                                    more_entries(src, start, Entered { entries: all, used: used + 1, state: v.state }, fields)
                                }
                            },
                        }
                    }
                },
            }
        }),
{
    reveal(more_entries);
    reveal(expr);
}

/// At a name before an opening bracket, `primary` is a call without a
/// receiver.
pub proof fn lemma_primary_call(src: Source, pos: int, st: State)
    requires
        kind_at(src, pos) == TokenKind::Ident,
        kind_at(src, pos + 1) == TokenKind::LParen,
    ensures
        primary(src, pos, st) == (match elements(src, pos + 2, st, TokenKind::RParen, false) {
            Err(e) => Err(e),
            Ok(a) => match called(a.state, None, text_at(src, pos), a.nodes) {
                Err(e) => Err(e),
                Ok((node, state)) => Ok(Parsed { node, used: 2 + a.used, state }),
            },
        }),
{
    reveal(primary);
    reveal(elements);
}

/// At a dotted name before an opening brace, `primary` is a message
/// literal.
pub proof fn lemma_primary_message(src: Source, pos: int, st: State)
    requires
        kind_at(src, pos) == TokenKind::Ident,
        kind_at(src, pos + 1) != TokenKind::LParen,
        message_head(src, pos) is Some,
    ensures
        primary(src, pos, st) == (match entries(src, pos + message_head(src, pos)->0, st, true) {
            Err(e) => Err(e),
            Ok(f) => match numbered(
                f.state,
                ExprView::CreateStruct { entries: f.entries, message_name: Some(dotted_text(src, pos)) },
            ) {
                Err(e) => Err(e),
                Ok((node, state)) => Ok(Parsed { node, used: message_head(src, pos)->0 + f.used, state }),
            },
        }),
        message_head(src, pos)->0 >= 2,
{
    reveal(primary);
    reveal(entries);
    reveal(message_head);
}

/// At any other name, `primary` is the name.
pub proof fn lemma_primary_name(src: Source, pos: int, st: State)
    requires
        kind_at(src, pos) == TokenKind::Ident,
        kind_at(src, pos + 1) != TokenKind::LParen,
        message_head(src, pos) is None,
    ensures
        primary(src, pos, st) == (match numbered(st, ExprView::Ident(text_at(src, pos))) {
            Err(e) => Err(e),
            Ok((node, state)) => Ok(Parsed { node, used: 1, state }),
        }),
{
    reveal(primary);
}

/// At an opening round bracket, `primary` is the expression up to the
/// closing one.
pub proof fn lemma_primary_grouped(src: Source, pos: int, st: State)
    requires
        kind_at(src, pos) == TokenKind::LParen,
    ensures
        primary(src, pos, st) == (match expr(src, pos + 1, st) {
            Err(e) => Err(e),
            Ok(e) => if kind_at(src, pos + 1 + e.used) != TokenKind::RParen {
                Err(unexpected(src, pos + 1 + e.used, Expected::Token(TokenKind::RParen)))
            } else {
                Ok(Parsed { used: e.used + 2, ..e })
            },
        }),
{
    reveal(primary);
    reveal(expr);
}

/// At an opening square bracket, `primary` is a list literal.
pub proof fn lemma_primary_list(src: Source, pos: int, st: State)
    requires
        kind_at(src, pos) == TokenKind::LBracket,
    ensures
        primary(src, pos, st) == (match elements(src, pos + 1, st, TokenKind::RBracket, true) {
            Err(e) => Err(e),
            Ok(l) => match numbered(l.state, ExprView::CreateList { elements: l.nodes }) {
                Err(e) => Err(e),
                Ok((node, state)) => Ok(Parsed { node, used: 1 + l.used, state }),
            },
        }),
{
    reveal(primary);
    reveal(elements);
}

/// At an opening brace, `primary` is a map literal.
pub proof fn lemma_primary_map(src: Source, pos: int, st: State)
    requires
        kind_at(src, pos) == TokenKind::LBrace,
    ensures
        primary(src, pos, st) == (match entries(src, pos + 1, st, false) {
            Err(e) => Err(e),
            Ok(m) => match numbered(
                m.state,
                ExprView::CreateStruct { entries: m.entries, message_name: None },
            ) {
                Err(e) => Err(e),
                Ok((node, state)) => Ok(Parsed { node, used: 1 + m.used, state }),
            },
        }),
{
    reveal(primary);
    reveal(entries);
}

/// Anywhere else, `primary` is a literal, with its sign if it has one.
pub proof fn lemma_primary_literal(src: Source, pos: int, st: State)
    requires
        kind_at(src, pos) != TokenKind::Ident,
        kind_at(src, pos) != TokenKind::LParen,
        kind_at(src, pos) != TokenKind::LBracket,
        kind_at(src, pos) != TokenKind::LBrace,
    ensures
        primary(src, pos, st) == (if kind_at(src, pos) == TokenKind::Minus {
            if takes_sign(kind_at(src, pos + 1)) {
                match literal(src, pos + 1, st, true) {
                    Err(e) => Err(e),
                    Ok((node, state)) => Ok(Parsed { node, used: 2, state }),
                }
            } else {
                Err(unexpected(src, pos, Expected::Expression))
            }
        } else {
            match literal(src, pos, st, false) {
                Err(e) => Err(e),
                Ok((node, state)) => Ok(Parsed { node, used: 1, state }),
            }
        }),
{
    reveal(primary);
}

} // verus!
