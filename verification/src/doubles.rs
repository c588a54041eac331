//! The bit patterns of the double literals: with one for each literal of
//! the text, none is ever missing.
//!
//! A parse takes a bit pattern for each double literal it meets, so at any
//! token it has taken at most as many as there are double literals before
//! that token. At a double literal there is then one left to take.
use vstd::prelude::*;
use crate::ast::{EntryKeyView, EntryView, ExprView, NodeView};
use crate::error::ParseError;
use crate::grammar::{
    binary, binary_rest, called, double_literals, double_missing, elements, enough_doubles,
    entries, expr, floats_before, initial, kind_at, left, lemma_floats_grow, lemma_floats_step,
    literal,
    member, member_rest, message_head, more_elements, more_entries, numbered, operator,
    parse_text, primary, takes_sign, text_at, unary, Entered, Listed, Parsed, Source, State,
};
use crate::lexer::{lemma_lex_errors_are_lexical, lex};
use crate::literal::lemma_literal_errors_are_lexical;
use crate::steps::{
    lemma_binary, lemma_binary_rest, lemma_elements, lemma_entries, lemma_expr, lemma_member,
    lemma_member_rest, lemma_more_elements, lemma_more_entries, lemma_primary_call,
    lemma_primary_grouped, lemma_primary_list, lemma_primary_literal, lemma_primary_map,
    lemma_primary_message, lemma_primary_name, lemma_unary,
};
use crate::token::TokenKind;

verus! {

/// Whether a state has taken at most as many bit patterns as there are
/// double literals before `pos`.
pub open spec fn in_step(src: Source, pos: int, st: State) -> bool {
    st.doubles_used <= floats_before(src, pos)
}

/// Whether what a function of the grammar gives from `start` on is in step
/// again, or is an error that misses no bit pattern.
pub open spec fn kept_parsed(src: Source, start: int, r: Result<Parsed, ParseError>) -> bool {
    match r {
        Ok(p) => in_step(src, start + p.used, p.state),
        Err(e) => !double_missing(e),
    }
}

/// The same for a sequence of nodes.
pub open spec fn kept_listed(src: Source, start: int, r: Result<Listed, ParseError>) -> bool {
    match r {
        Ok(l) => in_step(src, start + l.used, l.state),
        Err(e) => !double_missing(e),
    }
}

/// The same for a sequence of entries.
pub open spec fn kept_entered(src: Source, start: int, r: Result<Entered, ParseError>) -> bool {
    match r {
        Ok(m) => in_step(src, start + m.used, m.state),
        Err(e) => !double_missing(e),
    }
}

/// A state that is in step at a token is in step at every later one.
pub proof fn lemma_in_step_later(src: Source, pos: int, later: int, st: State)
    requires
        in_step(src, pos, st),
        pos <= later,
    ensures
        in_step(src, later, st),
{
    lemma_floats_grow(src, pos, later);
}

/// Numbering a node takes no bit pattern and misses none.
pub proof fn lemma_numbered_takes_none(st: State, shape: ExprView)
    ensures
        match numbered(st, shape) {
            Ok((_, after)) => after.doubles_used == st.doubles_used,
            Err(e) => !double_missing(e),
        },
{
}

/// Making a call node takes no bit pattern and misses none.
pub proof fn lemma_called_takes_none(
    st: State,
    target: Option<NodeView>,
    function: Seq<char>,
    args: Seq<NodeView>,
)
    ensures
        match called(st, target, function, args) {
            Ok((_, after)) => after.doubles_used == st.doubles_used,
            Err(e) => !double_missing(e),
        },
{
    reveal(called);
}

/// A literal takes a bit pattern if it is a double; with enough of them it
/// misses none.
pub proof fn lemma_literal_kept(src: Source, pos: int, st: State, negative: bool)
    requires
        enough_doubles(src),
        in_step(src, pos, st),
    ensures
        match literal(src, pos, st, negative) {
            Ok((_, after)) => in_step(src, pos + 1, after),
            Err(e) => !double_missing(e),
        },
{
    reveal(literal);
    lemma_floats_grow(src, pos, pos + 1);
    if 0 <= pos < src.tokens.len() {
        lemma_floats_step(src, pos);
        lemma_floats_grow(src, pos + 1, src.tokens.len() as int);
        lemma_literal_errors_are_lexical(src.chars, src.tokens[pos], negative);
    }
}

/// `expr` keeps in step.
pub proof fn lemma_expr_kept(src: Source, pos: int, st: State)
    requires
        enough_doubles(src),
        in_step(src, pos, st),
    ensures
        kept_parsed(src, pos, expr(src, pos, st)),
    decreases left(src, pos), 20int,
{
    lemma_expr(src, pos, st);
    lemma_binary_kept(src, pos, st, 1);
    if let Ok(c) = binary(src, pos, st, 1) {
        if kind_at(src, pos + c.used) == TokenKind::Question {
            lemma_in_step_later(src, pos + c.used, pos + c.used + 1, c.state);
            lemma_binary_kept(src, pos + c.used + 1, c.state, 1);
            if let Ok(t) = binary(src, pos + c.used + 1, c.state, 1) {
                let colon = pos + c.used + 1 + t.used;
                if kind_at(src, colon) == TokenKind::Colon {
                    lemma_in_step_later(src, colon, colon + 1, t.state);
                    lemma_expr_kept(src, colon + 1, t.state);
                    if let Ok(o) = expr(src, colon + 1, t.state) {
                        lemma_called_takes_none(o.state, None, "_?_:_"@, seq![c.node, t.node, o.node]);
                    }
                }
            }
        }
    }
}

/// `binary` keeps in step.
pub proof fn lemma_binary_kept(src: Source, pos: int, st: State, level: int)
    requires
        enough_doubles(src),
        in_step(src, pos, st),
    ensures
        kept_parsed(src, pos, binary(src, pos, st, level)),
    decreases left(src, pos), (if 1 <= level <= 5 { 18 - 2 * level } else { 7 }),
{
    lemma_binary(src, pos, st, level);
    if 1 <= level <= 5 {
        lemma_binary_kept(src, pos, st, level + 1);
        if let Ok(lhs) = binary(src, pos, st, level + 1) {
            lemma_binary_rest_kept(src, pos, lhs, level);
        }
    } else {
        lemma_unary_kept(src, pos, st);
    }
}

/// `binary_rest` keeps in step.
pub proof fn lemma_binary_rest_kept(src: Source, start: int, lhs: Parsed, level: int)
    requires
        enough_doubles(src),
        in_step(src, start + lhs.used, lhs.state),
    ensures
        kept_parsed(src, start, binary_rest(src, start, lhs, level)),
    decreases left(src, start + lhs.used), (if 1 <= level <= 5 { 17 - 2 * level } else { 0 }),
{
    lemma_binary_rest(src, start, lhs, level);
    let pos = start + lhs.used;
    if let Some((strength, function)) = operator(kind_at(src, pos)) {
        if strength == level && 1 <= level <= 5 {
            lemma_in_step_later(src, pos, pos + 1, lhs.state);
            lemma_binary_kept(src, pos + 1, lhs.state, level + 1);
            if let Ok(rhs) = binary(src, pos + 1, lhs.state, level + 1) {
                let args = seq![lhs.node, rhs.node];
                lemma_called_takes_none(rhs.state, None, function, args);
                if let Ok((node, state)) = called(rhs.state, None, function, args) {
                    lemma_binary_rest_kept(
                        src,
                        start,
                        Parsed { node, used: lhs.used + 1 + rhs.used, state },
                        level,
                    );
                }
            }
        }
    }
}

/// `unary` keeps in step.
pub proof fn lemma_unary_kept(src: Source, pos: int, st: State)
    requires
        enough_doubles(src),
        in_step(src, pos, st),
    ensures
        kept_parsed(src, pos, unary(src, pos, st)),
    decreases left(src, pos), 6int,
{
    lemma_unary(src, pos, st);
    let kind = kind_at(src, pos);
    if kind == TokenKind::Bang || (kind == TokenKind::Minus && !takes_sign(kind_at(src, pos + 1))) {
        lemma_in_step_later(src, pos, pos + 1, st);
        lemma_unary_kept(src, pos + 1, st);
        if let Ok(x) = unary(src, pos + 1, st) {
            let function = if kind == TokenKind::Bang {
                "!_"@
            } else {
                "-_"@
            };
            lemma_called_takes_none(x.state, None, function, seq![x.node]);
        }
    } else {
        lemma_member_kept(src, pos, st);
    }
}

/// `member` keeps in step.
pub proof fn lemma_member_kept(src: Source, pos: int, st: State)
    requires
        enough_doubles(src),
        in_step(src, pos, st),
    ensures
        kept_parsed(src, pos, member(src, pos, st)),
    decreases left(src, pos), 5int,
{
    lemma_member(src, pos, st);
    lemma_primary_kept(src, pos, st);
    if let Ok(p) = primary(src, pos, st) {
        lemma_member_rest_kept(src, pos, p);
    }
}

/// `member_rest` keeps in step.
pub proof fn lemma_member_rest_kept(src: Source, start: int, operand: Parsed)
    requires
        enough_doubles(src),
        in_step(src, start + operand.used, operand.state),
    ensures
        kept_parsed(src, start, member_rest(src, start, operand)),
    decreases left(src, start + operand.used), 4int,
{
    lemma_member_rest(src, start, operand);
    let pos = start + operand.used;
    if kind_at(src, pos) == TokenKind::Dot {
        if kind_at(src, pos + 1) == TokenKind::Ident {
            if kind_at(src, pos + 2) == TokenKind::LParen {
                lemma_in_step_later(src, pos, pos + 3, operand.state);
                lemma_elements_kept(src, pos + 3, operand.state, TokenKind::RParen, false);
                if let Ok(a) = elements(src, pos + 3, operand.state, TokenKind::RParen, false) {
                    let function = text_at(src, pos + 1);
                    lemma_called_takes_none(a.state, Some(operand.node), function, a.nodes);
                    if let Ok((node, state)) = called(a.state, Some(operand.node), function, a.nodes) {
                        lemma_member_rest_kept(
                            src,
                            start,
                            Parsed { node, used: operand.used + 3 + a.used, state },
                        );
                    }
                }
            } else {
                let shape = ExprView::Select {
                    operand: Box::new(operand.node),
                    field: text_at(src, pos + 1),
                    test_only: false,
                };
                lemma_in_step_later(src, pos, pos + 2, operand.state);
                lemma_numbered_takes_none(operand.state, shape);
                if let Ok((node, state)) = numbered(operand.state, shape) {
                    lemma_member_rest_kept(src, start, Parsed { node, used: operand.used + 2, state });
                }
            }
        }
    } else if kind_at(src, pos) == TokenKind::LBracket {
        lemma_in_step_later(src, pos, pos + 1, operand.state);
        lemma_expr_kept(src, pos + 1, operand.state);
        if let Ok(i) = expr(src, pos + 1, operand.state) {
            if kind_at(src, pos + 1 + i.used) == TokenKind::RBracket {
                let args = seq![operand.node, i.node];
                lemma_in_step_later(src, pos + 1 + i.used, pos + 1 + i.used + 1, i.state);
                lemma_called_takes_none(i.state, None, "_[_]"@, args);
                if let Ok((node, state)) = called(i.state, None, "_[_]"@, args) {
                    lemma_member_rest_kept(
                        src,
                        start,
                        Parsed { node, used: operand.used + 1 + i.used + 1, state },
                    );
                }
            }
        }
    }
}

/// `primary` keeps in step.
pub proof fn lemma_primary_kept(src: Source, pos: int, st: State)
    requires
        enough_doubles(src),
        in_step(src, pos, st),
    ensures
        kept_parsed(src, pos, primary(src, pos, st)),
    decreases left(src, pos), 3int,
{
    let kind = kind_at(src, pos);
    if kind == TokenKind::Ident {
        if kind_at(src, pos + 1) == TokenKind::LParen {
            lemma_primary_call(src, pos, st);
            lemma_in_step_later(src, pos, pos + 2, st);
            lemma_elements_kept(src, pos + 2, st, TokenKind::RParen, false);
            if let Ok(a) = elements(src, pos + 2, st, TokenKind::RParen, false) {
                lemma_called_takes_none(a.state, None, text_at(src, pos), a.nodes);
            }
        } else if message_head(src, pos) is Some {
            lemma_primary_message(src, pos, st);
            let head = message_head(src, pos)->0;
            lemma_in_step_later(src, pos, pos + head, st);
            lemma_entries_kept(src, pos + head, st, true);
        } else {
            lemma_primary_name(src, pos, st);
            lemma_in_step_later(src, pos, pos + 1, st);
        }
    } else if kind == TokenKind::LParen {
        lemma_primary_grouped(src, pos, st);
        lemma_in_step_later(src, pos, pos + 1, st);
        lemma_expr_kept(src, pos + 1, st);
        if let Ok(e) = expr(src, pos + 1, st) {
            lemma_in_step_later(src, pos + 1 + e.used, pos + e.used + 2, e.state);
        }
    } else if kind == TokenKind::LBracket {
        lemma_primary_list(src, pos, st);
        lemma_in_step_later(src, pos, pos + 1, st);
        lemma_elements_kept(src, pos + 1, st, TokenKind::RBracket, true);
    } else if kind == TokenKind::LBrace {
        lemma_primary_map(src, pos, st);
        lemma_in_step_later(src, pos, pos + 1, st);
        lemma_entries_kept(src, pos + 1, st, false);
    } else {
        lemma_primary_literal(src, pos, st);
        lemma_literal_kept(src, pos, st, false);
        if kind == TokenKind::Minus {
            lemma_in_step_later(src, pos, pos + 1, st);
            lemma_literal_kept(src, pos + 1, st, true);
        }
    }
}

/// `elements` keeps in step.
pub proof fn lemma_elements_kept(src: Source, pos: int, st: State, close: TokenKind, trailing: bool)
    requires
        enough_doubles(src),
        in_step(src, pos, st),
    ensures
        kept_listed(src, pos, elements(src, pos, st, close, trailing)),
    decreases left(src, pos), 22int,
{
    lemma_elements(src, pos, st, close, trailing);
    lemma_in_step_later(src, pos, pos + 1, st);
    if kind_at(src, pos) != close {
        lemma_more_elements_kept(
            src,
            pos,
            Listed { nodes: Seq::empty(), used: 0, state: st },
            close,
            trailing,
        );
    }
}

/// `more_elements` keeps in step.
pub proof fn lemma_more_elements_kept(src: Source, start: int, acc: Listed, close: TokenKind, trailing: bool)
    requires
        enough_doubles(src),
        in_step(src, start + acc.used, acc.state),
    ensures
        kept_listed(src, start, more_elements(src, start, acc, close, trailing)),
    decreases left(src, start + acc.used), 21int,
{
    lemma_more_elements(src, start, acc, close, trailing);
    lemma_expr_kept(src, start + acc.used, acc.state);
    if let Ok(e) = expr(src, start + acc.used, acc.state) {
        let pos = start + acc.used + e.used;
        let nodes = acc.nodes.push(e.node);
        lemma_in_step_later(src, pos, pos + 1, e.state);
        lemma_in_step_later(src, pos, pos + 2, e.state);
        if kind_at(src, pos) != close && kind_at(src, pos) == TokenKind::Comma && !(trailing && kind_at(
            src,
            pos + 1,
        ) == close) {
            lemma_more_elements_kept(
                src,
                start,
                Listed { nodes, used: acc.used + e.used + 1, state: e.state },
                close,
                trailing,
            );
        }
    }
}

/// `entries` keeps in step.
pub proof fn lemma_entries_kept(src: Source, pos: int, st: State, fields: bool)
    requires
        enough_doubles(src),
        in_step(src, pos, st),
    ensures
        kept_entered(src, pos, entries(src, pos, st, fields)),
    decreases left(src, pos), 23int,
{
    lemma_entries(src, pos, st, fields);
    lemma_in_step_later(src, pos, pos + 1, st);
    if kind_at(src, pos) != TokenKind::RBrace {
        lemma_more_entries_kept(src, pos, Entered { entries: Seq::empty(), used: 0, state: st }, fields);
    }
}

/// `more_entries` keeps in step.
pub proof fn lemma_more_entries_kept(src: Source, start: int, acc: Entered, fields: bool)
    requires
        enough_doubles(src),
        in_step(src, start + acc.used, acc.state),
    ensures
        kept_entered(src, start, more_entries(src, start, acc, fields)),
    decreases left(src, start + acc.used), 22int,
{
    lemma_more_entries(src, start, acc, fields);
    let first = start + acc.used;
    if !fields {
        lemma_expr_kept(src, first, acc.state);
    }
    lemma_in_step_later(src, first, first + 1, acc.state);
    let keyed: Result<(EntryKeyView, nat, State), ParseError> = if fields {
        if kind_at(src, first) == TokenKind::Ident {
            Ok((EntryKeyView::Field(text_at(src, first)), 1nat, acc.state))
        } else {
            Err(ParseError::TooManyNodes)
        }
    } else {
        match expr(src, first, acc.state) {
            Err(e) => Err(e),
            Ok(k) => Ok((EntryKeyView::Expr(k.node), k.used, k.state)),
        }
    };
    if let Ok((key, key_used, st1)) = keyed {
        let colon = start + acc.used + key_used;
        if kind_at(src, colon) == TokenKind::Colon {
            lemma_in_step_later(src, colon, colon + 1, st1);
            lemma_expr_kept(src, colon + 1, st1);
            if let Ok(v) = expr(src, colon + 1, st1) {
                let used = acc.used + key_used + 1 + v.used;
                let pos = start + used;
                let all = acc.entries.push(EntryView { key, value: v.node });
                lemma_in_step_later(src, pos, pos + 1, v.state);
                lemma_in_step_later(src, pos, pos + 2, v.state);
                if kind_at(src, pos) != TokenKind::RBrace && kind_at(src, pos) == TokenKind::Comma && kind_at(
                    src,
                    pos + 1,
                ) != TokenKind::RBrace {
                    lemma_more_entries_kept(
                        src,
                        start,
                        Entered { entries: all, used: used + 1, state: v.state },
                        fields,
                    );
                }
            }
        }
    }
}

/// With a bit pattern for each double literal of the text, a parse does not
/// fail for want of one.
pub proof fn lemma_doubles_suffice(chars: Seq<char>, doubles: Seq<u64>)
    requires
        double_literals(chars) matches Ok(texts) && texts.len() <= doubles.len(),
    ensures
        parse_text(chars, doubles) matches Err(e) ==> !double_missing(e),
{
    lemma_lex_errors_are_lexical(chars, 0, Seq::empty());
    if let Ok(tokens) = lex(chars) {
        let src = Source { chars, tokens, doubles };
        assert(enough_doubles(src)) by {
            reveal(floats_before);
        }
        lemma_expr_kept(src, 0, initial());
    }
}

} // verus!
