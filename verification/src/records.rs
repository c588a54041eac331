//! The table against the tree: each entry that a parse makes is the record
//! of a macro under the identifier of a comprehension of the tree.
//!
//! A record is made when a call is rewritten to a comprehension, under the
//! identifier that the comprehension keeps. Whatever is built over that
//! comprehension holds it, and rewriting an enclosing call loses no
//! comprehension, so it is still there in the finished tree.
use vstd::prelude::*;
use crate::ast::{
    entries_loop_count, expr_loop_count, lemma_entries_loop_count_push,
    lemma_seq_loop_count_push, lemma_seq_loop_count_small, loop_count, seq_loop_count,
    EntryKeyView, EntryView, ExprView, NodeView,
};
use crate::error::ParseError;
use crate::grammar::{
    binary, binary_rest, called, dotted_text, elements, entries, expr, initial, kind_at, left,
    literal, literal_value, member, member_rest, message_head, more_elements, more_entries,
    numbered, operator, parse_text, primary, takes_sign, text_at, unary, Entered, Listed, Parsed,
    Source, State,
};
use crate::lexer::lex;
use crate::macros::{expansion, lemma_expansion_loops};
use crate::references::ReferenceView;
use crate::steps::{
    lemma_binary, lemma_binary_rest, lemma_elements, lemma_entries, lemma_expr, lemma_member,
    lemma_member_rest, lemma_more_elements, lemma_more_entries, lemma_primary_call,
    lemma_primary_grouped, lemma_primary_list, lemma_primary_literal, lemma_primary_map,
    lemma_primary_message, lemma_primary_name, lemma_unary,
};
use crate::token::TokenKind;

verus! {

/// The tables of a parse.
pub type Table = Map<u64, ReferenceView>;

/// Every entry of the table is the record of a macro, under the identifier
/// that the record names.
#[verifier::opaque]
pub open spec fn records_only(refs: Table) -> bool {
    forall|k: u64| #[trigger]
        refs.contains_key(k) ==> (refs[k] matches ReferenceView::Macro(record) && record.id == k)
}

/// Every entry of `refs` is one of `base` or has a comprehension below the
/// expression, under its identifier; and `refs` has the entries of `base`.
#[verifier::opaque]
pub open spec fn held_by_expr(base: Table, refs: Table, e: ExprView) -> bool {
    &&& forall|k: u64| #[trigger] base.contains_key(k) ==> refs.contains_key(k)
    &&& forall|k: u64| #[trigger]
        refs.contains_key(k) ==> base.contains_key(k) || expr_loop_count(e, k) >= 1
}

/// The same for a tree.
#[verifier::opaque]
pub open spec fn held_by_node(base: Table, refs: Table, n: NodeView) -> bool {
    &&& forall|k: u64| #[trigger] base.contains_key(k) ==> refs.contains_key(k)
    &&& forall|k: u64| #[trigger] refs.contains_key(k) ==> base.contains_key(k) || loop_count(n, k) >= 1
}

/// The same for some trees.
#[verifier::opaque]
pub open spec fn held_by_nodes(base: Table, refs: Table, ns: Seq<NodeView>) -> bool {
    &&& forall|k: u64| #[trigger] base.contains_key(k) ==> refs.contains_key(k)
    &&& forall|k: u64| #[trigger]
        refs.contains_key(k) ==> base.contains_key(k) || seq_loop_count(ns, k) >= 1
}

/// The same for some entries.
#[verifier::opaque]
pub open spec fn held_by_entries(base: Table, refs: Table, es: Seq<EntryView>) -> bool {
    &&& forall|k: u64| #[trigger] base.contains_key(k) ==> refs.contains_key(k)
    &&& forall|k: u64| #[trigger]
        refs.contains_key(k) ==> base.contains_key(k) || entries_loop_count(es, k) >= 1
}

/// A table holds itself, whatever stands beside it.
pub proof fn lemma_held_trivially(base: Table, e: ExprView, ns: Seq<NodeView>, es: Seq<EntryView>)
    ensures
        held_by_expr(base, base, e),
        held_by_nodes(base, base, ns),
        held_by_entries(base, base, es),
{
    reveal(held_by_expr);
    reveal(held_by_nodes);
    reveal(held_by_entries);
}

/// Some trees and one more, which holds what came after them, hold it all.
pub proof fn lemma_held_push(base: Table, mid: Table, refs: Table, ns: Seq<NodeView>, n: NodeView)
    requires
        held_by_nodes(base, mid, ns),
        held_by_node(mid, refs, n),
    ensures
        held_by_nodes(base, refs, ns.push(n)),
{
    reveal(held_by_nodes);
    reveal(held_by_node);
    assert forall|k: u64| #[trigger] refs.contains_key(k) implies base.contains_key(k) || seq_loop_count(
        ns.push(n),
        k,
    ) >= 1 by {
        lemma_seq_loop_count_push(ns, n, k);
        if mid.contains_key(k) {
        }
    }
}

/// Two trees, the second of which holds what came after the first, hold it
/// all.
pub proof fn lemma_held_pair(base: Table, mid: Table, refs: Table, a: NodeView, b: NodeView)
    requires
        held_by_node(base, mid, a),
        held_by_node(mid, refs, b),
    ensures
        held_by_nodes(base, refs, seq![a, b]),
{
    reveal(held_by_nodes);
    reveal(held_by_node);
    assert forall|k: u64| #[trigger] refs.contains_key(k) implies base.contains_key(k) || seq_loop_count(
        seq![a, b],
        k,
    ) >= 1 by {
        lemma_seq_loop_count_small(a, b, b, k);
        if mid.contains_key(k) {
        }
    }
}

/// One tree holds as a sequence what it holds.
pub proof fn lemma_held_single(base: Table, refs: Table, a: NodeView)
    requires
        held_by_node(base, refs, a),
    ensures
        held_by_nodes(base, refs, seq![a]),
{
    reveal(held_by_nodes);
    reveal(held_by_node);
    assert forall|k: u64| #[trigger] refs.contains_key(k) implies base.contains_key(k) || seq_loop_count(
        seq![a],
        k,
    ) >= 1 by {
        lemma_seq_loop_count_small(a, a, a, k);
    }
}

/// Three trees, each of which holds what came after the one before, hold
/// it all.
pub proof fn lemma_held_triple(
    base: Table,
    m1: Table,
    m2: Table,
    refs: Table,
    a: NodeView,
    b: NodeView,
    c: NodeView,
)
    requires
        held_by_node(base, m1, a),
        held_by_node(m1, m2, b),
        held_by_node(m2, refs, c),
    ensures
        held_by_nodes(base, refs, seq![a, b, c]),
{
    reveal(held_by_nodes);
    reveal(held_by_node);
    assert forall|k: u64| #[trigger] refs.contains_key(k) implies base.contains_key(k) || seq_loop_count(
        seq![a, b, c],
        k,
    ) >= 1 by {
        lemma_seq_loop_count_small(a, b, c, k);
        if m2.contains_key(k) {
            if m1.contains_key(k) {
            }
        }
    }
    assert forall|k: u64| #[trigger] base.contains_key(k) implies refs.contains_key(k) by {
        assert(m1.contains_key(k));
        assert(m2.contains_key(k));
    }
}

/// Some entries and one more, whose key and value hold what came after
/// them, hold it all.
pub proof fn lemma_held_entry(
    base: Table,
    mid: Table,
    mid2: Table,
    refs: Table,
    es: Seq<EntryView>,
    e: EntryView,
)
    requires
        held_by_entries(base, mid, es),
        e.key matches EntryKeyView::Expr(k) ==> held_by_node(mid, mid2, k),
        e.key is Field ==> mid2 == mid,
        held_by_node(mid2, refs, e.value),
    ensures
        held_by_entries(base, refs, es.push(e)),
{
    reveal(held_by_entries);
    reveal(held_by_node);
    assert forall|k: u64| #[trigger] refs.contains_key(k) implies base.contains_key(k)
        || entries_loop_count(es.push(e), k) >= 1 by {
        lemma_entries_loop_count_push(es, e, k);
        if mid2.contains_key(k) {
            if mid.contains_key(k) {
            }
        }
    }
    assert forall|k: u64| #[trigger] base.contains_key(k) implies refs.contains_key(k) by {
        assert(mid.contains_key(k));
        assert(mid2.contains_key(k));
    }
}

/// A call holds what its receiver and its arguments hold.
pub proof fn lemma_held_call(
    base: Table,
    mid: Table,
    refs: Table,
    target: Option<Box<NodeView>>,
    function: Seq<char>,
    args: Seq<NodeView>,
)
    requires
        target matches Some(t) ==> held_by_node(base, mid, *t),
        target is None ==> mid == base,
        held_by_nodes(mid, refs, args),
    ensures
        held_by_expr(base, refs, ExprView::Call { target, function, args }),
{
    reveal(held_by_expr);
    reveal(held_by_node);
    reveal(held_by_nodes);
    assert forall|k: u64| #[trigger] refs.contains_key(k) implies base.contains_key(k) || expr_loop_count(
        ExprView::Call { target, function, args },
        k,
    ) >= 1 by {
        if mid.contains_key(k) {
        }
    }
    assert forall|k: u64| #[trigger] base.contains_key(k) implies refs.contains_key(k) by {
        assert(mid.contains_key(k));
    }
}

/// A selection, a list and a literal of entries hold what is in them holds.
pub proof fn lemma_held_wrapped(base: Table, refs: Table, e: ExprView)
    requires
        e matches ExprView::Select { operand, .. } ==> held_by_node(base, refs, *operand),
        e matches ExprView::CreateList { elements } ==> held_by_nodes(base, refs, elements),
        e matches ExprView::CreateStruct { entries, .. } ==> held_by_entries(base, refs, entries),
        e is Select || e is CreateList || e is CreateStruct,
    ensures
        held_by_expr(base, refs, e),
{
    reveal(held_by_expr);
    reveal(held_by_node);
    reveal(held_by_nodes);
    reveal(held_by_entries);
}

/// A node holds what its expression holds.
pub proof fn lemma_numbered_held(st: State, shape: ExprView, base: Table)
    requires
        held_by_expr(base, st.refs, shape),
    ensures
        numbered(st, shape) matches Ok((node, after)) ==> after.refs == st.refs && held_by_node(
            base,
            after.refs,
            node,
        ),
{
    reveal(held_by_expr);
    reveal(held_by_node);
}

/// A call node, rewritten or not, holds what its parts hold, and the
/// record that the rewriting makes.
pub proof fn lemma_called_held(
    st: State,
    target: Option<NodeView>,
    function: Seq<char>,
    args: Seq<NodeView>,
    base: Table,
)
    requires
        records_only(st.refs),
        held_by_expr(
            base,
            st.refs,
            ExprView::Call {
                target: match target {
                    Some(t) => Some(Box::new(t)),
                    None => None,
                },
                function,
                args,
            },
        ),
    ensures
        called(st, target, function, args) matches Ok((node, after)) ==> records_only(after.refs)
            && held_by_node(base, after.refs, node),
{
    reveal(called);
    reveal(records_only);
    reveal(held_by_expr);
    reveal(held_by_node);
    let receiver = match target {
        Some(t) => Some(Box::new(t)),
        None => None,
    };
    let shape = ExprView::Call { target: receiver, function, args };
    if let Ok((call, st1)) = numbered(st, shape) {
        if let Ok((node, _, table)) = expansion(call, st1.issued, st1.refs) {
            lemma_expansion_loops(call, st1.issued, st1.refs, 0);
            assert forall|k: u64| #[trigger] table.contains_key(k) implies base.contains_key(k)
                || loop_count(node, k) >= 1 by {
                lemma_expansion_loops(call, st1.issued, st1.refs, k);
            }
        }
    }
}

/// What `r` gives holds every entry made since `base`, and the table has
/// only records.
pub open spec fn held_parsed(r: Result<Parsed, ParseError>, base: Table) -> bool {
    r matches Ok(p) ==> records_only(p.state.refs) && held_by_node(base, p.state.refs, p.node)
}

/// The same for a sequence of nodes.
pub open spec fn held_listed(r: Result<Listed, ParseError>, base: Table) -> bool {
    r matches Ok(l) ==> records_only(l.state.refs) && held_by_nodes(base, l.state.refs, l.nodes)
}

/// The same for a sequence of entries.
pub open spec fn held_entered(r: Result<Entered, ParseError>, base: Table) -> bool {
    r matches Ok(m) ==> records_only(m.state.refs) && held_by_entries(base, m.state.refs, m.entries)
}

/// A literal changes nothing in the table.
pub proof fn lemma_literal_held(src: Source, pos: int, st: State, negative: bool)
    requires
        records_only(st.refs),
    ensures
        literal(src, pos, st, negative) matches Ok((node, after)) ==> records_only(after.refs)
            && held_by_node(st.refs, after.refs, node),
{
    reveal(literal);
    if let Ok((v, st1)) = literal_value(src, pos, st, negative) {
        lemma_held_trivially(st.refs, ExprView::Literal(v), Seq::empty(), Seq::empty());
        lemma_numbered_held(st1, ExprView::Literal(v), st.refs);
    }
}

/// `expr` holds the entries it makes.
pub proof fn lemma_expr_held(src: Source, pos: int, st: State)
    requires
        records_only(st.refs),
    ensures
        held_parsed(expr(src, pos, st), st.refs),
    decreases left(src, pos), 20int,
{
    lemma_expr(src, pos, st);
    lemma_binary_held(src, pos, st, 1);
    if let Ok(c) = binary(src, pos, st, 1) {
        if kind_at(src, pos + c.used) == TokenKind::Question {
            lemma_binary_held(src, pos + c.used + 1, c.state, 1);
            if let Ok(t) = binary(src, pos + c.used + 1, c.state, 1) {
                let colon = pos + c.used + 1 + t.used;
                if kind_at(src, colon) == TokenKind::Colon {
                    lemma_expr_held(src, colon + 1, t.state);
                    if let Ok(o) = expr(src, colon + 1, t.state) {
                        let args = seq![c.node, t.node, o.node];
                        lemma_held_triple(
                            st.refs,
                            c.state.refs,
                            t.state.refs,
                            o.state.refs,
                            c.node,
                            t.node,
                            o.node,
                        );
                        lemma_held_call(st.refs, st.refs, o.state.refs, None, "_?_:_"@, args);
                        lemma_called_held(o.state, None, "_?_:_"@, args, st.refs);
                    }
                }
            }
        }
    }
}

/// `binary` holds the entries it makes.
pub proof fn lemma_binary_held(src: Source, pos: int, st: State, level: int)
    requires
        records_only(st.refs),
    ensures
        held_parsed(binary(src, pos, st, level), st.refs),
    decreases left(src, pos), (if 1 <= level <= 5 { 18 - 2 * level } else { 7 }),
{
    lemma_binary(src, pos, st, level);
    if 1 <= level <= 5 {
        lemma_binary_held(src, pos, st, level + 1);
        if let Ok(lhs) = binary(src, pos, st, level + 1) {
            lemma_binary_rest_held(src, pos, lhs, level, st.refs);
        }
    } else {
        lemma_unary_held(src, pos, st);
    }
}

/// `binary_rest` holds the entries made since `base`, if its left operand
/// does.
pub proof fn lemma_binary_rest_held(src: Source, start: int, lhs: Parsed, level: int, base: Table)
    requires
        records_only(lhs.state.refs),
        held_by_node(base, lhs.state.refs, lhs.node),
    ensures
        held_parsed(binary_rest(src, start, lhs, level), base),
    decreases left(src, start + lhs.used), (if 1 <= level <= 5 { 17 - 2 * level } else { 0 }),
{
    lemma_binary_rest(src, start, lhs, level);
    let pos = start + lhs.used;
    if let Some((strength, function)) = operator(kind_at(src, pos)) {
        if strength == level && 1 <= level <= 5 {
            lemma_binary_held(src, pos + 1, lhs.state, level + 1);
            if let Ok(rhs) = binary(src, pos + 1, lhs.state, level + 1) {
                let args = seq![lhs.node, rhs.node];
                lemma_held_pair(base, lhs.state.refs, rhs.state.refs, lhs.node, rhs.node);
                lemma_held_call(base, base, rhs.state.refs, None, function, args);
                lemma_called_held(rhs.state, None, function, args, base);
                if let Ok((node, state)) = called(rhs.state, None, function, args) {
                    lemma_binary_rest_held(
                        src,
                        start,
                        Parsed { node, used: lhs.used + 1 + rhs.used, state },
                        level,
                        base,
                    );
                }
            }
        }
    }
}

/// `unary` holds the entries it makes.
pub proof fn lemma_unary_held(src: Source, pos: int, st: State)
    requires
        records_only(st.refs),
    ensures
        held_parsed(unary(src, pos, st), st.refs),
    decreases left(src, pos), 6int,
{
    lemma_unary(src, pos, st);
    let kind = kind_at(src, pos);
    if kind == TokenKind::Bang || (kind == TokenKind::Minus && !takes_sign(kind_at(src, pos + 1))) {
        lemma_unary_held(src, pos + 1, st);
        if let Ok(x) = unary(src, pos + 1, st) {
            let function = if kind == TokenKind::Bang {
                "!_"@
            } else {
                "-_"@
            };
            lemma_held_single(st.refs, x.state.refs, x.node);
            lemma_held_call(st.refs, st.refs, x.state.refs, None, function, seq![x.node]);
            lemma_called_held(x.state, None, function, seq![x.node], st.refs);
        }
    } else {
        lemma_member_held(src, pos, st);
    }
}

/// `member` holds the entries it makes.
pub proof fn lemma_member_held(src: Source, pos: int, st: State)
    requires
        records_only(st.refs),
    ensures
        held_parsed(member(src, pos, st), st.refs),
    decreases left(src, pos), 5int,
{
    lemma_member(src, pos, st);
    lemma_primary_held(src, pos, st);
    if let Ok(p) = primary(src, pos, st) {
        lemma_member_rest_held(src, pos, p, st.refs);
    }
}

/// `member_rest` holds the entries made since `base`, if its operand does.
pub proof fn lemma_member_rest_held(src: Source, start: int, operand: Parsed, base: Table)
    requires
        records_only(operand.state.refs),
        held_by_node(base, operand.state.refs, operand.node),
    ensures
        held_parsed(member_rest(src, start, operand), base),
    decreases left(src, start + operand.used), 4int,
{
    lemma_member_rest(src, start, operand);
    let pos = start + operand.used;
    if kind_at(src, pos) == TokenKind::Dot {
        if kind_at(src, pos + 1) == TokenKind::Ident {
            if kind_at(src, pos + 2) == TokenKind::LParen {
                lemma_elements_held(src, pos + 3, operand.state, TokenKind::RParen, false);
                if let Ok(a) = elements(src, pos + 3, operand.state, TokenKind::RParen, false) {
                    let function = text_at(src, pos + 1);
                    lemma_held_call(
                        base,
                        operand.state.refs,
                        a.state.refs,
                        Some(Box::new(operand.node)),
                        function,
                        a.nodes,
                    );
                    lemma_called_held(a.state, Some(operand.node), function, a.nodes, base);
                    if let Ok((node, state)) = called(a.state, Some(operand.node), function, a.nodes) {
                        lemma_member_rest_held(
                            src,
                            start,
                            Parsed { node, used: operand.used + 3 + a.used, state },
                            base,
                        );
                    }
                }
            } else {
                let shape = ExprView::Select {
                    operand: Box::new(operand.node),
                    field: text_at(src, pos + 1),
                    test_only: false,
                };
                lemma_held_wrapped(base, operand.state.refs, shape);
                lemma_numbered_held(operand.state, shape, base);
                if let Ok((node, state)) = numbered(operand.state, shape) {
                    lemma_member_rest_held(src, start, Parsed { node, used: operand.used + 2, state }, base);
                }
            }
        }
    } else if kind_at(src, pos) == TokenKind::LBracket {
        lemma_expr_held(src, pos + 1, operand.state);
        if let Ok(i) = expr(src, pos + 1, operand.state) {
            if kind_at(src, pos + 1 + i.used) == TokenKind::RBracket {
                let args = seq![operand.node, i.node];
                lemma_held_pair(base, operand.state.refs, i.state.refs, operand.node, i.node);
                lemma_held_call(base, base, i.state.refs, None, "_[_]"@, args);
                lemma_called_held(i.state, None, "_[_]"@, args, base);
                if let Ok((node, state)) = called(i.state, None, "_[_]"@, args) {
                    lemma_member_rest_held(
                        src,
                        start,
                        Parsed { node, used: operand.used + 1 + i.used + 1, state },
                        base,
                    );
                }
            }
        }
    }
}

/// `primary` holds the entries it makes.
pub proof fn lemma_primary_held(src: Source, pos: int, st: State)
    requires
        records_only(st.refs),
    ensures
        held_parsed(primary(src, pos, st), st.refs),
    decreases left(src, pos), 3int,
{
    let base = st.refs;
    let kind = kind_at(src, pos);
    if kind == TokenKind::Ident {
        if kind_at(src, pos + 1) == TokenKind::LParen {
            lemma_primary_call(src, pos, st);
            lemma_elements_held(src, pos + 2, st, TokenKind::RParen, false);
            if let Ok(a) = elements(src, pos + 2, st, TokenKind::RParen, false) {
                lemma_held_call(base, base, a.state.refs, None, text_at(src, pos), a.nodes);
                lemma_called_held(a.state, None, text_at(src, pos), a.nodes, base);
            }
        } else if message_head(src, pos) is Some {
            lemma_primary_message(src, pos, st);
            let head = message_head(src, pos)->0;
            lemma_entries_held(src, pos + head, st, true);
            if let Ok(f) = entries(src, pos + head, st, true) {
                let shape = ExprView::CreateStruct {
                    entries: f.entries,
                    message_name: Some(dotted_text(src, pos)),
                };
                lemma_held_wrapped(base, f.state.refs, shape);
                lemma_numbered_held(f.state, shape, base);
            }
        } else {
            lemma_primary_name(src, pos, st);
            lemma_held_trivially(base, ExprView::Ident(text_at(src, pos)), Seq::empty(), Seq::empty());
            lemma_numbered_held(st, ExprView::Ident(text_at(src, pos)), base);
        }
    } else if kind == TokenKind::LParen {
        lemma_primary_grouped(src, pos, st);
        lemma_expr_held(src, pos + 1, st);
    } else if kind == TokenKind::LBracket {
        lemma_primary_list(src, pos, st);
        lemma_elements_held(src, pos + 1, st, TokenKind::RBracket, true);
        if let Ok(l) = elements(src, pos + 1, st, TokenKind::RBracket, true) {
            let shape = ExprView::CreateList { elements: l.nodes };
            lemma_held_wrapped(base, l.state.refs, shape);
            lemma_numbered_held(l.state, shape, base);
        }
    } else if kind == TokenKind::LBrace {
        lemma_primary_map(src, pos, st);
        lemma_entries_held(src, pos + 1, st, false);
        if let Ok(m) = entries(src, pos + 1, st, false) {
            let shape = ExprView::CreateStruct { entries: m.entries, message_name: None };
            lemma_held_wrapped(base, m.state.refs, shape);
            lemma_numbered_held(m.state, shape, base);
        }
    } else {
        lemma_primary_literal(src, pos, st);
        lemma_literal_held(src, pos + 1, st, true);
        lemma_literal_held(src, pos, st, false);
    }
}

/// `elements` holds the entries it makes.
pub proof fn lemma_elements_held(src: Source, pos: int, st: State, close: TokenKind, trailing: bool)
    requires
        records_only(st.refs),
    ensures
        held_listed(elements(src, pos, st, close, trailing), st.refs),
    decreases left(src, pos), 22int,
{
    lemma_elements(src, pos, st, close, trailing);
    lemma_held_trivially(st.refs, ExprView::Ident(Seq::empty()), Seq::empty(), Seq::empty());
    if kind_at(src, pos) != close {
        lemma_more_elements_held(
            src,
            pos,
            Listed { nodes: Seq::empty(), used: 0, state: st },
            close,
            trailing,
            st.refs,
        );
    }
}

/// `more_elements` holds the entries made since `base`, if the nodes
/// before do.
pub proof fn lemma_more_elements_held(
    src: Source,
    start: int,
    acc: Listed,
    close: TokenKind,
    trailing: bool,
    base: Table,
)
    requires
        records_only(acc.state.refs),
        held_by_nodes(base, acc.state.refs, acc.nodes),
    ensures
        held_listed(more_elements(src, start, acc, close, trailing), base),
    decreases left(src, start + acc.used), 21int,
{
    lemma_more_elements(src, start, acc, close, trailing);
    lemma_expr_held(src, start + acc.used, acc.state);
    if let Ok(e) = expr(src, start + acc.used, acc.state) {
        let pos = start + acc.used + e.used;
        let nodes = acc.nodes.push(e.node);
        lemma_held_push(base, acc.state.refs, e.state.refs, acc.nodes, e.node);
        if kind_at(src, pos) != close && kind_at(src, pos) == TokenKind::Comma && !(trailing && kind_at(
            src,
            pos + 1,
        ) == close) {
            lemma_more_elements_held(
                src,
                start,
                Listed { nodes, used: acc.used + e.used + 1, state: e.state },
                close,
                trailing,
                base,
            );
        }
    }
}

/// `entries` holds the entries of the table that it makes.
pub proof fn lemma_entries_held(src: Source, pos: int, st: State, fields: bool)
    requires
        records_only(st.refs),
    ensures
        held_entered(entries(src, pos, st, fields), st.refs),
    decreases left(src, pos), 23int,
{
    lemma_entries(src, pos, st, fields);
    lemma_held_trivially(st.refs, ExprView::Ident(Seq::empty()), Seq::empty(), Seq::empty());
    if kind_at(src, pos) != TokenKind::RBrace {
        lemma_more_entries_held(
            src,
            pos,
            Entered { entries: Seq::empty(), used: 0, state: st },
            fields,
            st.refs,
        );
    }
}

/// `more_entries` holds the entries of the table made since `base`, if the
/// entries before do.
pub proof fn lemma_more_entries_held(src: Source, start: int, acc: Entered, fields: bool, base: Table)
    requires
        records_only(acc.state.refs),
        held_by_entries(base, acc.state.refs, acc.entries),
    ensures
        held_entered(more_entries(src, start, acc, fields), base),
    decreases left(src, start + acc.used), 22int,
{
    lemma_more_entries(src, start, acc, fields);
    let first = start + acc.used;
    if !fields {
        lemma_expr_held(src, first, acc.state);
    }
    let keyed: Result<(EntryKeyView, nat, State), ParseError> = if fields {
        if kind_at(src, first) == TokenKind::Ident {
            Ok((EntryKeyView::Field(text_at(src, first)), 1nat, acc.state))
        } else {
            Err(ParseError::TooManyNodes)
        }
    } else {
        match expr(src, first, acc.state) {
            Err(e) => Err(e),
            Ok(k) => Ok((EntryKeyView::Expr(k.node), k.used, k.state)),
        }
    };
    if let Ok((key, key_used, st1)) = keyed {
        let colon = start + acc.used + key_used;
        if kind_at(src, colon) == TokenKind::Colon {
            lemma_expr_held(src, colon + 1, st1);
            if let Ok(v) = expr(src, colon + 1, st1) {
                let used = acc.used + key_used + 1 + v.used;
                let pos = start + used;
                let entry = EntryView { key, value: v.node };
                let all = acc.entries.push(entry);
                lemma_held_entry(base, acc.state.refs, st1.refs, v.state.refs, acc.entries, entry);
                if kind_at(src, pos) != TokenKind::RBrace && kind_at(src, pos) == TokenKind::Comma && kind_at(
                    src,
                    pos + 1,
                ) != TokenKind::RBrace {
                    lemma_more_entries_held(
                        src,
                        start,
                        Entered { entries: all, used: used + 1, state: v.state },
                        fields,
                        base,
                    );
                }
            }
        }
    }
}

/// Every entry of the table of a parsed text is the record of a macro
/// under its own identifier, and the tree has a comprehension with that
/// identifier.
pub proof fn lemma_records_are_of_the_tree(chars: Seq<char>, doubles: Seq<u64>, id: u64)
    ensures
        parse_text(chars, doubles) matches Ok(out) ==> (out.references.contains_key(id) ==> {
            &&& out.references[id] matches ReferenceView::Macro(record)
            &&& record.id == id
            &&& loop_count(out.expr, id) >= 1
        }),
{
    if let Ok(tokens) = lex(chars) {
        let src = Source { chars, tokens, doubles };
        assert(records_only(initial().refs)) by {
            reveal(records_only);
        }
        lemma_expr_held(src, 0, initial());
        reveal(records_only);
        reveal(held_by_node);
    }
}

} // verus!
