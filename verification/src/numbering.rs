//! The identifiers of a parsed tree: no two nodes share one.
//!
//! Each function of the grammar numbers the nodes it makes with the
//! identifiers that follow those issued before it, so what it makes is
//! fresh: its identifiers are all different and lie above the ones issued
//! before. The macro rewriting keeps that, and the whole tree is the case
//! that starts from no identifier at all.
use vstd::prelude::*;
use crate::ast::{
    fresh_entries, fresh_expr, fresh_node, fresh_nodes, id_count, lemma_fresh_call,
    lemma_fresh_entries_push, lemma_fresh_is_unique, lemma_fresh_leaf, lemma_fresh_node,
    lemma_fresh_nodes_push, lemma_fresh_none, lemma_fresh_pair, lemma_fresh_single,
    lemma_fresh_triple, lemma_fresh_wrapped, unique_ids, EntryKeyView, EntryView, ExprView,
    NodeView,
};
use crate::error::ParseError;
use crate::grammar::{
    binary, binary_rest, called, dotted_text, elements, entries, expr, initial, kind_at, left,
    literal, literal_value, member, member_rest, message_head, more_elements, more_entries,
    numbered, operator, parse_text, primary, takes_sign, text_at, unary, Entered,
    Listed, Parsed, Source, State,
};
use crate::lexer::lex;
use crate::macros::lemma_expansion_fresh;
use crate::steps::{
    lemma_binary, lemma_binary_rest, lemma_elements, lemma_entries, lemma_expr, lemma_member,
    lemma_member_rest, lemma_more_elements, lemma_more_entries, lemma_primary_call,
    lemma_primary_grouped, lemma_primary_list, lemma_primary_literal, lemma_primary_map,
    lemma_primary_message, lemma_primary_name, lemma_unary,
};
use crate::token::TokenKind;

verus! {

/// Whether what a function of the grammar gives is fresh: beside what was
/// fresh above `lo` before it, it has only identifiers issued by it.
pub open spec fn fresh_parsed(r: Result<Parsed, ParseError>, lo: u64, before: State) -> bool {
    r matches Ok(p) ==> before.issued <= p.state.issued && fresh_node(p.node, lo, p.state.issued)
}

/// The same for a sequence of nodes.
pub open spec fn fresh_listed(r: Result<Listed, ParseError>, lo: u64, before: State) -> bool {
    r matches Ok(l) ==> before.issued <= l.state.issued && fresh_nodes(l.nodes, lo, l.state.issued)
}

/// The same for a sequence of entries.
pub open spec fn fresh_entered(r: Result<Entered, ParseError>, lo: u64, before: State) -> bool {
    r matches Ok(m) ==> before.issued <= m.state.issued && fresh_entries(m.entries, lo, m.state.issued)
}

/// A node over fresh parts is fresh under the next identifier.
pub proof fn lemma_numbered_fresh(st: State, shape: ExprView, lo: u64)
    requires
        fresh_expr(shape, lo, st.issued),
        lo <= st.issued,
    ensures
        numbered(st, shape) matches Ok((node, after)) ==> st.issued < after.issued && fresh_node(
            node,
            lo,
            after.issued,
        ),
{
    if st.issued < u64::MAX {
        lemma_fresh_node(shape, lo, st.issued, (st.issued + 1) as u64);
    }
}

/// A call over fresh parts is fresh, rewritten or not.
pub proof fn lemma_called_fresh(
    st: State,
    target: Option<NodeView>,
    function: Seq<char>,
    args: Seq<NodeView>,
    lo: u64,
)
    requires
        fresh_expr(
            ExprView::Call {
                target: match target {
                    Some(t) => Some(Box::new(t)),
                    None => None,
                },
                function,
                args,
            },
            lo,
            st.issued,
        ),
        lo <= st.issued,
    ensures
        called(st, target, function, args) matches Ok((node, after)) ==> st.issued < after.issued
            && fresh_node(node, lo, after.issued),
{
    reveal(called);
    let receiver = match target {
        Some(t) => Some(Box::new(t)),
        None => None,
    };
    let shape = ExprView::Call { target: receiver, function, args };
    lemma_numbered_fresh(st, shape, lo);
    if let Ok((call, st1)) = numbered(st, shape) {
        lemma_expansion_fresh(call, st1.issued, st1.refs, lo);
    }
}

/// A call node gets the next identifier whatever function it names: a
/// call that is rewritten as a macro has the identifier that it would have
/// as a plain call.
pub proof fn lemma_called_id(st: State, target: Option<NodeView>, function: Seq<char>, args: Seq<NodeView>)
    ensures
        called(st, target, function, args) matches Ok((node, _)) ==> node.id == st.issued + 1,
{
    reveal(called);
}

/// A literal is fresh.
pub proof fn lemma_literal_fresh(src: Source, pos: int, st: State, negative: bool)
    ensures
        literal(src, pos, st, negative) matches Ok((node, after)) ==> st.issued < after.issued
            && fresh_node(node, st.issued, after.issued),
{
    reveal(literal);
    if let Ok((v, st1)) = literal_value(src, pos, st, negative) {
        lemma_fresh_leaf(ExprView::Literal(v), st.issued, st.issued);
        lemma_numbered_fresh(st1, ExprView::Literal(v), st.issued);
    }
}

/// What `expr` gives is fresh.
pub proof fn lemma_expr_fresh(src: Source, pos: int, st: State)
    ensures
        fresh_parsed(expr(src, pos, st), st.issued, st),
    decreases left(src, pos), 20int,
{
    lemma_expr(src, pos, st);
    lemma_binary_fresh(src, pos, st, 1);
    if let Ok(c) = binary(src, pos, st, 1) {
        if kind_at(src, pos + c.used) == TokenKind::Question {
            lemma_binary_fresh(src, pos + c.used + 1, c.state, 1);
            if let Ok(t) = binary(src, pos + c.used + 1, c.state, 1) {
                let colon = pos + c.used + 1 + t.used;
                if kind_at(src, colon) == TokenKind::Colon {
                    lemma_expr_fresh(src, colon + 1, t.state);
                    if let Ok(o) = expr(src, colon + 1, t.state) {
                        let args = seq![c.node, t.node, o.node];
                        lemma_fresh_triple(
                            c.node,
                            t.node,
                            o.node,
                            st.issued,
                            c.state.issued,
                            t.state.issued,
                            o.state.issued,
                        );
                        lemma_fresh_call(None, "_?_:_"@, args, st.issued, st.issued, o.state.issued);
                        lemma_called_fresh(o.state, None, "_?_:_"@, args, st.issued);
                    }
                }
            }
        }
    }
}

/// What `binary` gives is fresh.
pub proof fn lemma_binary_fresh(src: Source, pos: int, st: State, level: int)
    ensures
        fresh_parsed(binary(src, pos, st, level), st.issued, st),
    decreases left(src, pos), (if 1 <= level <= 5 { 18 - 2 * level } else { 7 }),
{
    lemma_binary(src, pos, st, level);
    if 1 <= level <= 5 {
        lemma_binary_fresh(src, pos, st, level + 1);
        if let Ok(lhs) = binary(src, pos, st, level + 1) {
            lemma_binary_rest_fresh(src, pos, lhs, level, st.issued);
        }
    } else {
        lemma_unary_fresh(src, pos, st);
    }
}

/// What `binary_rest` makes of a fresh left operand is fresh.
pub proof fn lemma_binary_rest_fresh(src: Source, start: int, lhs: Parsed, level: int, lo: u64)
    requires
        fresh_node(lhs.node, lo, lhs.state.issued),
        lo <= lhs.state.issued,
    ensures
        fresh_parsed(binary_rest(src, start, lhs, level), lo, lhs.state),
    decreases left(src, start + lhs.used), (if 1 <= level <= 5 { 17 - 2 * level } else { 0 }),
{
    lemma_binary_rest(src, start, lhs, level);
    let pos = start + lhs.used;
    if let Some((strength, function)) = operator(kind_at(src, pos)) {
        if strength == level && 1 <= level <= 5 {
            lemma_binary_fresh(src, pos + 1, lhs.state, level + 1);
            if let Ok(rhs) = binary(src, pos + 1, lhs.state, level + 1) {
                let args = seq![lhs.node, rhs.node];
                lemma_fresh_pair(lhs.node, rhs.node, lo, lhs.state.issued, rhs.state.issued);
                lemma_fresh_call(None, function, args, lo, lo, rhs.state.issued);
                lemma_called_fresh(rhs.state, None, function, args, lo);
                if let Ok((node, state)) = called(rhs.state, None, function, args) {
                    lemma_binary_rest_fresh(
                        src,
                        start,
                        Parsed { node, used: lhs.used + 1 + rhs.used, state },
                        level,
                        lo,
                    );
                }
            }
        }
    }
}

/// What `unary` gives is fresh.
pub proof fn lemma_unary_fresh(src: Source, pos: int, st: State)
    ensures
        fresh_parsed(unary(src, pos, st), st.issued, st),
    decreases left(src, pos), 6int,
{
    lemma_unary(src, pos, st);
    let kind = kind_at(src, pos);
    if kind == TokenKind::Bang || (kind == TokenKind::Minus && !takes_sign(kind_at(src, pos + 1))) {
        lemma_unary_fresh(src, pos + 1, st);
        if let Ok(x) = unary(src, pos + 1, st) {
            let function = if kind == TokenKind::Bang {
                "!_"@
            } else {
                "-_"@
            };
            lemma_fresh_single(x.node, st.issued, x.state.issued);
            lemma_fresh_call(None, function, seq![x.node], st.issued, st.issued, x.state.issued);
            lemma_called_fresh(x.state, None, function, seq![x.node], st.issued);
        }
    } else {
        lemma_member_fresh(src, pos, st);
    }
}

/// What `member` gives is fresh.
pub proof fn lemma_member_fresh(src: Source, pos: int, st: State)
    ensures
        fresh_parsed(member(src, pos, st), st.issued, st),
    decreases left(src, pos), 5int,
{
    lemma_member(src, pos, st);
    lemma_primary_fresh(src, pos, st);
    if let Ok(p) = primary(src, pos, st) {
        lemma_member_rest_fresh(src, pos, p, st.issued);
    }
}

/// What `member_rest` makes of a fresh operand is fresh.
pub proof fn lemma_member_rest_fresh(src: Source, start: int, operand: Parsed, lo: u64)
    requires
        fresh_node(operand.node, lo, operand.state.issued),
        lo <= operand.state.issued,
    ensures
        fresh_parsed(member_rest(src, start, operand), lo, operand.state),
    decreases left(src, start + operand.used), 4int,
{
    lemma_member_rest(src, start, operand);
    let pos = start + operand.used;
    if kind_at(src, pos) == TokenKind::Dot {
        if kind_at(src, pos + 1) == TokenKind::Ident {
            if kind_at(src, pos + 2) == TokenKind::LParen {
                lemma_elements_fresh(src, pos + 3, operand.state, TokenKind::RParen, false);
                if let Ok(a) = elements(src, pos + 3, operand.state, TokenKind::RParen, false) {
                    let function = text_at(src, pos + 1);
                    lemma_fresh_call(
                        Some(Box::new(operand.node)),
                        function,
                        a.nodes,
                        lo,
                        operand.state.issued,
                        a.state.issued,
                    );
                    lemma_called_fresh(a.state, Some(operand.node), function, a.nodes, lo);
                    if let Ok((node, state)) = called(a.state, Some(operand.node), function, a.nodes) {
                        lemma_member_rest_fresh(
                            src,
                            start,
                            Parsed { node, used: operand.used + 3 + a.used, state },
                            lo,
                        );
                    }
                }
            } else {
                let shape = ExprView::Select {
                    operand: Box::new(operand.node),
                    field: text_at(src, pos + 1),
                    test_only: false,
                };
                lemma_fresh_wrapped(shape, lo, operand.state.issued);
                lemma_numbered_fresh(operand.state, shape, lo);
                if let Ok((node, state)) = numbered(operand.state, shape) {
                    lemma_member_rest_fresh(src, start, Parsed { node, used: operand.used + 2, state }, lo);
                }
            }
        }
    } else if kind_at(src, pos) == TokenKind::LBracket {
        lemma_expr_fresh(src, pos + 1, operand.state);
        if let Ok(i) = expr(src, pos + 1, operand.state) {
            if kind_at(src, pos + 1 + i.used) == TokenKind::RBracket {
                let args = seq![operand.node, i.node];
                lemma_fresh_pair(operand.node, i.node, lo, operand.state.issued, i.state.issued);
                lemma_fresh_call(None, "_[_]"@, args, lo, lo, i.state.issued);
                lemma_called_fresh(i.state, None, "_[_]"@, args, lo);
                if let Ok((node, state)) = called(i.state, None, "_[_]"@, args) {
                    lemma_member_rest_fresh(
                        src,
                        start,
                        Parsed { node, used: operand.used + 1 + i.used + 1, state },
                        lo,
                    );
                }
            }
        }
    }
}

/// What `primary` gives is fresh.
pub proof fn lemma_primary_fresh(src: Source, pos: int, st: State)
    ensures
        fresh_parsed(primary(src, pos, st), st.issued, st),
    decreases left(src, pos), 3int,
{
    let lo = st.issued;
    let kind = kind_at(src, pos);
    if kind == TokenKind::Ident {
        if kind_at(src, pos + 1) == TokenKind::LParen {
            lemma_primary_call(src, pos, st);
            lemma_elements_fresh(src, pos + 2, st, TokenKind::RParen, false);
            if let Ok(a) = elements(src, pos + 2, st, TokenKind::RParen, false) {
                lemma_fresh_call(None, text_at(src, pos), a.nodes, lo, lo, a.state.issued);
                lemma_called_fresh(a.state, None, text_at(src, pos), a.nodes, lo);
            }
        } else if message_head(src, pos) is Some {
            lemma_primary_message(src, pos, st);
            let head = message_head(src, pos)->0;
            lemma_entries_fresh(src, pos + head, st, true);
            if let Ok(f) = entries(src, pos + head, st, true) {
                let shape = ExprView::CreateStruct {
                    entries: f.entries,
                    message_name: Some(dotted_text(src, pos)),
                };
                lemma_fresh_wrapped(shape, lo, f.state.issued);
                lemma_numbered_fresh(f.state, shape, lo);
            }
        } else {
            lemma_primary_name(src, pos, st);
            lemma_fresh_leaf(ExprView::Ident(text_at(src, pos)), lo, lo);
            lemma_numbered_fresh(st, ExprView::Ident(text_at(src, pos)), lo);
        }
    } else if kind == TokenKind::LParen {
        lemma_primary_grouped(src, pos, st);
        lemma_expr_fresh(src, pos + 1, st);
    } else if kind == TokenKind::LBracket {
        lemma_primary_list(src, pos, st);
        lemma_elements_fresh(src, pos + 1, st, TokenKind::RBracket, true);
        if let Ok(l) = elements(src, pos + 1, st, TokenKind::RBracket, true) {
            let shape = ExprView::CreateList { elements: l.nodes };
            lemma_fresh_wrapped(shape, lo, l.state.issued);
            lemma_numbered_fresh(l.state, shape, lo);
        }
    } else if kind == TokenKind::LBrace {
        lemma_primary_map(src, pos, st);
        lemma_entries_fresh(src, pos + 1, st, false);
        if let Ok(m) = entries(src, pos + 1, st, false) {
            let shape = ExprView::CreateStruct { entries: m.entries, message_name: None };
            lemma_fresh_wrapped(shape, lo, m.state.issued);
            lemma_numbered_fresh(m.state, shape, lo);
        }
    } else {
        lemma_primary_literal(src, pos, st);
        lemma_literal_fresh(src, pos + 1, st, true);
        lemma_literal_fresh(src, pos, st, false);
    }
}

/// What `elements` gives is fresh.
pub proof fn lemma_elements_fresh(src: Source, pos: int, st: State, close: TokenKind, trailing: bool)
    ensures
        fresh_listed(elements(src, pos, st, close, trailing), st.issued, st),
    decreases left(src, pos), 22int,
{
    lemma_elements(src, pos, st, close, trailing);
    lemma_fresh_none(st.issued, st.issued);
    if kind_at(src, pos) != close {
        lemma_more_elements_fresh(
            src,
            pos,
            Listed { nodes: Seq::empty(), used: 0, state: st },
            close,
            trailing,
            st.issued,
        );
    }
}

/// What `more_elements` adds to fresh nodes is fresh with them.
pub proof fn lemma_more_elements_fresh(
    src: Source,
    start: int,
    acc: Listed,
    close: TokenKind,
    trailing: bool,
    lo: u64,
)
    requires
        fresh_nodes(acc.nodes, lo, acc.state.issued),
        lo <= acc.state.issued,
    ensures
        fresh_listed(more_elements(src, start, acc, close, trailing), lo, acc.state),
    decreases left(src, start + acc.used), 21int,
{
    lemma_more_elements(src, start, acc, close, trailing);
    lemma_expr_fresh(src, start + acc.used, acc.state);
    if let Ok(e) = expr(src, start + acc.used, acc.state) {
        let pos = start + acc.used + e.used;
        let nodes = acc.nodes.push(e.node);
        lemma_fresh_nodes_push(acc.nodes, e.node, lo, acc.state.issued, e.state.issued);
        if kind_at(src, pos) != close && kind_at(src, pos) == TokenKind::Comma && !(trailing && kind_at(
            src,
            pos + 1,
        ) == close) {
            lemma_more_elements_fresh(
                src,
                start,
                Listed { nodes, used: acc.used + e.used + 1, state: e.state },
                close,
                trailing,
                lo,
            );
        }
    }
}

/// What `entries` gives is fresh.
pub proof fn lemma_entries_fresh(src: Source, pos: int, st: State, fields: bool)
    ensures
        fresh_entered(entries(src, pos, st, fields), st.issued, st),
    decreases left(src, pos), 23int,
{
    lemma_entries(src, pos, st, fields);
    lemma_fresh_none(st.issued, st.issued);
    if kind_at(src, pos) != TokenKind::RBrace {
        lemma_more_entries_fresh(
            src,
            pos,
            Entered { entries: Seq::empty(), used: 0, state: st },
            fields,
            st.issued,
        );
    }
}

/// What `more_entries` adds to fresh entries is fresh with them.
pub proof fn lemma_more_entries_fresh(src: Source, start: int, acc: Entered, fields: bool, lo: u64)
    requires
        fresh_entries(acc.entries, lo, acc.state.issued),
        lo <= acc.state.issued,
    ensures
        fresh_entered(more_entries(src, start, acc, fields), lo, acc.state),
    decreases left(src, start + acc.used), 22int,
{
    lemma_more_entries(src, start, acc, fields);
    let first = start + acc.used;
    if !fields {
        lemma_expr_fresh(src, first, acc.state);
    }
    let keyed: Result<(EntryKeyView, nat, State), ParseError> = if fields {
        if kind_at(src, first) == TokenKind::Ident {
            Ok((EntryKeyView::Field(text_at(src, first)), 1nat, acc.state))
        } else {
            Err(ParseError::TooManyNodes)
        }
    } else {
        match expr(src, first, acc.state) {
            Err(e) => Err(e),
            Ok(k) => Ok((EntryKeyView::Expr(k.node), k.used, k.state)),
        }
    };
    if let Ok((key, key_used, st1)) = keyed {
        let colon = start + acc.used + key_used;
        if kind_at(src, colon) == TokenKind::Colon {
            lemma_expr_fresh(src, colon + 1, st1);
            if let Ok(v) = expr(src, colon + 1, st1) {
                let used = acc.used + key_used + 1 + v.used;
                let pos = start + used;
                let entry = EntryView { key, value: v.node };
                let all = acc.entries.push(entry);
                lemma_fresh_entries_push(
                    acc.entries,
                    entry,
                    lo,
                    acc.state.issued,
                    st1.issued,
                    v.state.issued,
                );
                if kind_at(src, pos) != TokenKind::RBrace && kind_at(src, pos) == TokenKind::Comma && kind_at(
                    src,
                    pos + 1,
                ) != TokenKind::RBrace {
                    lemma_more_entries_fresh(
                        src,
                        start,
                        Entered { entries: all, used: used + 1, state: v.state },
                        fields,
                        lo,
                    );
                }
            }
        }
    }
}

/// In the tree of a text no two nodes have the same identifier, and none
/// has the identifier zero.
pub proof fn lemma_parsed_ids_are_unique(chars: Seq<char>, doubles: Seq<u64>)
    ensures
        parse_text(chars, doubles) matches Ok(out) ==> unique_ids(out.expr) && id_count(out.expr, 0) == 0,
{
    if let Ok(tokens) = lex(chars) {
        let src = Source { chars, tokens, doubles };
        lemma_expr_fresh(src, 0, initial());
        if let Ok(p) = expr(src, 0, initial()) {
            lemma_fresh_is_unique(p.node, 0, p.state.issued);
        }
    }
}

} // verus!
