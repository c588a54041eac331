//! The expression tree: a closed set of node shapes, each node paired with an
//! identifier, and the mathematical model (`*View`) that contracts speak of.
use vstd::prelude::*;
use crate::reference::{Val, ValView};

verus! {

/// One node shape of the expression tree. Children are owned by their parent.
#[derive(Debug, PartialEq)]
pub enum Expr {
    /// A constant value.
    Literal(Val),
    /// A bare identifier.
    Ident(String),
    /// Field access `operand.field`; `test_only` marks a presence test.
    Select { operand: Box<IdedExpr>, field: String, test_only: bool },
    /// A call; with a `target` it is a method-style call.
    Call { target: Option<Box<IdedExpr>>, function: String, args: Vec<IdedExpr> },
    /// A list literal.
    CreateList { elements: Vec<IdedExpr> },
    /// A map literal (no `message_name`) or a message literal.
    CreateStruct { entries: Vec<Entry>, message_name: Option<String> },
    /// The one looping construct, to which the macros are rewritten.
    Comprehension {
        iter_var: String,
        iter_range: Box<IdedExpr>,
        accu_var: String,
        accu_init: Box<IdedExpr>,
        loop_condition: Box<IdedExpr>,
        loop_step: Box<IdedExpr>,
        result: Box<IdedExpr>,
    },
}

/// An expression together with its identifier.
#[derive(Debug, PartialEq)]
pub struct IdedExpr {
    pub id: u64,
    pub expr: Expr,
}

/// The key of one entry of a map or message literal.
#[derive(Debug, PartialEq)]
pub enum EntryKey {
    /// A field name of a message literal.
    Field(String),
    /// A key expression of a map literal.
    Expr(IdedExpr),
}

/// One entry of a map or message literal.
#[derive(Debug, PartialEq)]
pub struct Entry {
    pub key: EntryKey,
    pub value: IdedExpr,
}

/// The model of an [`Expr`].
pub enum ExprView {
    Literal(ValView),
    Ident(Seq<char>),
    Select { operand: Box<NodeView>, field: Seq<char>, test_only: bool },
    Call { target: Option<Box<NodeView>>, function: Seq<char>, args: Seq<NodeView> },
    CreateList { elements: Seq<NodeView> },
    CreateStruct { entries: Seq<EntryView>, message_name: Option<Seq<char>> },
    Comprehension {
        iter_var: Seq<char>,
        iter_range: Box<NodeView>,
        accu_var: Seq<char>,
        accu_init: Box<NodeView>,
        loop_condition: Box<NodeView>,
        loop_step: Box<NodeView>,
        result: Box<NodeView>,
    },
}

/// The model of an [`IdedExpr`].
pub struct NodeView {
    pub id: u64,
    pub expr: ExprView,
}

/// The model of an [`EntryKey`].
pub enum EntryKeyView {
    Field(Seq<char>),
    Expr(NodeView),
}

/// The model of an [`Entry`].
pub struct EntryView {
    pub key: EntryKeyView,
    pub value: NodeView,
}

#[verifier::opaque]
pub open spec fn node_view(n: IdedExpr) -> NodeView
    decreases n, 1int,
{
    NodeView { id: n.id, expr: expr_view(n.expr) }
}

#[verifier::opaque]
pub open spec fn children_view(v: Seq<IdedExpr>) -> Seq<NodeView>
    decreases v, 0int,
{
    Seq::new(
        v.len(),
        |i: int|
            if 0 <= i < v.len() {
                node_view(v[i])
            } else {
                arbitrary()
            },
    )
}

#[verifier::opaque]
pub open spec fn entry_view(e: Entry) -> EntryView
    decreases e, 1int,
{
    EntryView {
        key: match e.key {
            EntryKey::Field(name) => EntryKeyView::Field(name@),
            EntryKey::Expr(k) => EntryKeyView::Expr(node_view(k)),
        },
        value: node_view(e.value),
    }
}

#[verifier::opaque]
pub open spec fn entry_views(v: Seq<Entry>) -> Seq<EntryView>
    decreases v, 0int,
{
    Seq::new(
        v.len(),
        |i: int|
            if 0 <= i < v.len() {
                entry_view(v[i])
            } else {
                arbitrary()
            },
    )
}

#[verifier::opaque]
pub open spec fn expr_view(e: Expr) -> ExprView
    decreases e, 0int,
{
    match e {
        Expr::Literal(v) => ExprView::Literal(v@),
        Expr::Ident(name) => ExprView::Ident(name@),
        Expr::Select { operand, field, test_only } => ExprView::Select {
            operand: Box::new(node_view(*operand)),
            field: field@,
            test_only,
        },
        Expr::Call { target, function, args } => ExprView::Call {
            target: match target {
                Some(t) => Some(Box::new(node_view(*t))),
                None => None,
            },
            function: function@,
            args: children_view(args@),
        },
        Expr::CreateList { elements } => ExprView::CreateList { elements: children_view(elements@) },
        Expr::CreateStruct { entries, message_name } => ExprView::CreateStruct {
            entries: entry_views(entries@),
            message_name: match message_name {
                Some(t) => Some(t@),
                None => None,
            },
        },
        Expr::Comprehension {
            iter_var,
            iter_range,
            accu_var,
            accu_init,
            loop_condition,
            loop_step,
            result,
        } => ExprView::Comprehension {
            iter_var: iter_var@,
            iter_range: Box::new(node_view(*iter_range)),
            accu_var: accu_var@,
            accu_init: Box::new(node_view(*accu_init)),
            loop_condition: Box::new(node_view(*loop_condition)),
            loop_step: Box::new(node_view(*loop_step)),
            result: Box::new(node_view(*result)),
        },
    }
}

/// The models of some nodes, in order.
#[verifier::opaque]
pub open spec fn nodes_view(v: Seq<IdedExpr>) -> Seq<NodeView> {
    children_view(v)
}

/// The models of some entries, in order.
#[verifier::opaque]
pub open spec fn entries_view(v: Seq<Entry>) -> Seq<EntryView> {
    entry_views(v)
}

impl View for Expr {
    type V = ExprView;

    open spec fn view(&self) -> ExprView {
        expr_view(*self)
    }
}

impl View for IdedExpr {
    type V = NodeView;

    open spec fn view(&self) -> NodeView {
        node_view(*self)
    }
}

impl View for Entry {
    type V = EntryView;

    open spec fn view(&self) -> EntryView {
        entry_view(*self)
    }
}

/// How many nodes of the tree `n` have the identifier `id`.
pub open spec fn id_count(n: NodeView, id: u64) -> nat
    decreases n, 1int,
{
    (if n.id == id {
        1nat
    } else {
        0nat
    }) + expr_id_count(n.expr, id)
}

/// How many nodes below an expression have the identifier `id`.
pub open spec fn expr_id_count(e: ExprView, id: u64) -> nat
    decreases e, 0int,
{
    match e {
        ExprView::Literal(_) => 0,
        ExprView::Ident(_) => 0,
        ExprView::Select { operand, .. } => id_count(*operand, id),
        ExprView::Call { target, args, .. } => (match target {
            Some(t) => id_count(*t, id),
            None => 0,
        }) + seq_id_count(args, id),
        ExprView::CreateList { elements } => seq_id_count(elements, id),
        ExprView::CreateStruct { entries, .. } => entries_id_count(entries, id),
        ExprView::Comprehension {
            iter_range,
            accu_init,
            loop_condition,
            loop_step,
            result,
            ..
        } => id_count(*iter_range, id) + id_count(*accu_init, id) + id_count(*loop_condition, id)
            + id_count(*loop_step, id) + id_count(*result, id),
    }
}

/// How many nodes of the trees `ns` have the identifier `id`.
pub open spec fn seq_id_count(ns: Seq<NodeView>, id: u64) -> nat
    decreases ns, 0int,
{
    if ns.len() == 0 {
        0
    } else {
        seq_id_count(ns.drop_last(), id) + id_count(ns.last(), id)
    }
}

/// How many nodes of one entry have the identifier `id`.
pub open spec fn entry_id_count(e: EntryView, id: u64) -> nat
    decreases e, 0int,
{
    (match e.key {
        EntryKeyView::Field(_) => 0,
        EntryKeyView::Expr(k) => id_count(k, id),
    }) + id_count(e.value, id)
}

/// How many nodes of the entries `es` have the identifier `id`.
pub open spec fn entries_id_count(es: Seq<EntryView>, id: u64) -> nat
    decreases es, 0int,
{
    if es.len() == 0 {
        0
    } else {
        entries_id_count(es.drop_last(), id) + entry_id_count(es.last(), id)
    }
}

/// How many comprehension nodes of the tree `n` have the identifier `id`.
pub open spec fn loop_count(n: NodeView, id: u64) -> nat
    decreases n, 1int,
{
    (if n.id == id && n.expr is Comprehension {
        1nat
    } else {
        0nat
    }) + expr_loop_count(n.expr, id)
}

/// How many comprehension nodes below an expression have the identifier
/// `id`.
pub open spec fn expr_loop_count(e: ExprView, id: u64) -> nat
    decreases e, 0int,
{
    match e {
        ExprView::Literal(_) => 0,
        ExprView::Ident(_) => 0,
        ExprView::Select { operand, .. } => loop_count(*operand, id),
        ExprView::Call { target, args, .. } => (match target {
            Some(t) => loop_count(*t, id),
            None => 0,
        }) + seq_loop_count(args, id),
        ExprView::CreateList { elements } => seq_loop_count(elements, id),
        ExprView::CreateStruct { entries, .. } => entries_loop_count(entries, id),
        ExprView::Comprehension {
            iter_range,
            accu_init,
            loop_condition,
            loop_step,
            result,
            ..
        } => loop_count(*iter_range, id) + loop_count(*accu_init, id) + loop_count(*loop_condition, id)
            + loop_count(*loop_step, id) + loop_count(*result, id),
    }
}

/// How many comprehension nodes of the trees `ns` have the identifier `id`.
pub open spec fn seq_loop_count(ns: Seq<NodeView>, id: u64) -> nat
    decreases ns, 0int,
{
    if ns.len() == 0 {
        0
    } else {
        seq_loop_count(ns.drop_last(), id) + loop_count(ns.last(), id)
    }
}

/// How many comprehension nodes of one entry have the identifier `id`.
pub open spec fn entry_loop_count(e: EntryView, id: u64) -> nat
    decreases e, 0int,
{
    (match e.key {
        EntryKeyView::Field(_) => 0,
        EntryKeyView::Expr(k) => loop_count(k, id),
    }) + loop_count(e.value, id)
}

/// How many comprehension nodes of the entries `es` have the identifier
/// `id`.
pub open spec fn entries_loop_count(es: Seq<EntryView>, id: u64) -> nat
    decreases es, 0int,
{
    if es.len() == 0 {
        0
    } else {
        entries_loop_count(es.drop_last(), id) + entry_loop_count(es.last(), id)
    }
}

/// The count of comprehension nodes over a sequence with one more tree.
pub proof fn lemma_seq_loop_count_push(ns: Seq<NodeView>, n: NodeView, id: u64)
    ensures
        seq_loop_count(ns.push(n), id) == seq_loop_count(ns, id) + loop_count(n, id),
{
    assert(ns.push(n).drop_last() =~= ns);
}

/// The count of comprehension nodes over the entries with one more entry.
pub proof fn lemma_entries_loop_count_push(es: Seq<EntryView>, e: EntryView, id: u64)
    ensures
        entries_loop_count(es.push(e), id) == entries_loop_count(es, id) + entry_loop_count(e, id),
{
    assert(es.push(e).drop_last() =~= es);
}

/// The counts of comprehension nodes over the sequences of one, two and
/// three trees.
pub proof fn lemma_seq_loop_count_small(a: NodeView, b: NodeView, c: NodeView, id: u64)
    ensures
        seq_loop_count(Seq::empty(), id) == 0,
        seq_loop_count(seq![a], id) == loop_count(a, id),
        seq_loop_count(seq![a, b], id) == loop_count(a, id) + loop_count(b, id),
        seq_loop_count(seq![a, b, c], id) == loop_count(a, id) + loop_count(b, id) + loop_count(c, id),
{
    assert(seq![a] =~= Seq::empty().push(a));
    assert(seq![a, b] =~= seq![a].push(b));
    assert(seq![a, b, c] =~= seq![a, b].push(c));
    lemma_seq_loop_count_push(Seq::empty(), a, id);
    lemma_seq_loop_count_push(seq![a], b, id);
    lemma_seq_loop_count_push(seq![a, b], c, id);
}

/// No two nodes of the tree have the same identifier.
pub open spec fn unique_ids(n: NodeView) -> bool {
    forall|id: u64| #[trigger] id_count(n, id) <= 1
}

/// Every identifier in the tree is above `lo` and at most `hi`.
pub open spec fn ids_within(n: NodeView, lo: u64, hi: u64) -> bool {
    forall|id: u64| #[trigger] id_count(n, id) > 0 ==> lo < id <= hi
}

/// The count over a sequence with one more tree is the count over the
/// sequence plus the count in that tree.
pub proof fn lemma_seq_id_count_push(ns: Seq<NodeView>, n: NodeView, id: u64)
    ensures
        seq_id_count(ns.push(n), id) == seq_id_count(ns, id) + id_count(n, id),
{
    assert(ns.push(n).drop_last() =~= ns);
}

/// The count over the entries with one more entry is the count over the
/// entries plus the count in that entry.
pub proof fn lemma_entries_id_count_push(es: Seq<EntryView>, e: EntryView, id: u64)
    ensures
        entries_id_count(es.push(e), id) == entries_id_count(es, id) + entry_id_count(e, id),
{
    assert(es.push(e).drop_last() =~= es);
}

/// The counts over the sequences of one, two and three trees.
pub proof fn lemma_seq_id_count_small(a: NodeView, b: NodeView, c: NodeView, id: u64)
    ensures
        seq_id_count(Seq::empty(), id) == 0,
        seq_id_count(seq![a], id) == id_count(a, id),
        seq_id_count(seq![a, b], id) == id_count(a, id) + id_count(b, id),
        seq_id_count(seq![a, b, c], id) == id_count(a, id) + id_count(b, id) + id_count(c, id),
{
    assert(seq![a] =~= Seq::empty().push(a));
    assert(seq![a, b] =~= seq![a].push(b));
    assert(seq![a, b, c] =~= seq![a, b].push(c));
    lemma_seq_id_count_push(Seq::empty(), a, id);
    lemma_seq_id_count_push(seq![a], b, id);
    lemma_seq_id_count_push(seq![a, b], c, id);
}

/// The identifiers below an expression are all different, above `lo` and
/// at most `hi`.
#[verifier::opaque]
pub open spec fn fresh_expr(e: ExprView, lo: u64, hi: u64) -> bool {
    forall|id: u64|
        #![trigger expr_id_count(e, id)]
        expr_id_count(e, id) <= 1 && (expr_id_count(e, id) > 0 ==> lo < id <= hi)
}

/// The identifiers of a tree are all different, above `lo` and at most `hi`.
#[verifier::opaque]
pub open spec fn fresh_node(n: NodeView, lo: u64, hi: u64) -> bool {
    forall|id: u64|
        #![trigger id_count(n, id)]
        id_count(n, id) <= 1 && (id_count(n, id) > 0 ==> lo < id <= hi)
}

/// The identifiers of some trees are all different, above `lo` and at most
/// `hi`.
#[verifier::opaque]
pub open spec fn fresh_nodes(ns: Seq<NodeView>, lo: u64, hi: u64) -> bool {
    forall|id: u64|
        #![trigger seq_id_count(ns, id)]
        seq_id_count(ns, id) <= 1 && (seq_id_count(ns, id) > 0 ==> lo < id <= hi)
}

/// The identifiers of some entries are all different, above `lo` and at
/// most `hi`.
#[verifier::opaque]
pub open spec fn fresh_entries(es: Seq<EntryView>, lo: u64, hi: u64) -> bool {
    forall|id: u64|
        #![trigger entries_id_count(es, id)]
        entries_id_count(es, id) <= 1 && (entries_id_count(es, id) > 0 ==> lo < id <= hi)
}

/// A tree whose identifiers are fresh has no identifier twice.
pub proof fn lemma_fresh_is_unique(n: NodeView, lo: u64, hi: u64)
    requires
        fresh_node(n, lo, hi),
    ensures
        unique_ids(n),
        ids_within(n, lo, hi),
{
    reveal(fresh_expr);
    reveal(fresh_node);
    reveal(fresh_nodes);
    reveal(fresh_entries);
    assert forall|id: u64| #[trigger] id_count(n, id) <= 1 by {}
    assert forall|id: u64| #[trigger] id_count(n, id) > 0 implies lo < id <= hi by {}
}

/// A node over fresh parts, under an identifier above theirs, is fresh.
pub proof fn lemma_fresh_node(e: ExprView, lo: u64, hi: u64, id: u64)
    requires
        fresh_expr(e, lo, hi),
        lo <= hi < id,
    ensures
        fresh_node(NodeView { id, expr: e }, lo, id),
{
    reveal(fresh_expr);
    reveal(fresh_node);
    reveal(fresh_nodes);
    reveal(fresh_entries);
    let n = NodeView { id, expr: e };
    assert forall|i: u64| #![trigger id_count(n, i)] id_count(n, i) <= 1 && (id_count(n, i) > 0 ==> lo < i <= id) by {
        assert(expr_id_count(e, i) <= 1);
    }
}

/// An expression without children is fresh in any range.
pub proof fn lemma_fresh_leaf(e: ExprView, lo: u64, hi: u64)
    requires
        e is Literal || e is Ident,
    ensures
        fresh_expr(e, lo, hi),
{
    reveal(fresh_expr);
    reveal(fresh_node);
    reveal(fresh_nodes);
    reveal(fresh_entries);
}

/// No trees are fresh in any range.
pub proof fn lemma_fresh_none(lo: u64, hi: u64)
    ensures
        fresh_nodes(Seq::empty(), lo, hi),
        fresh_entries(Seq::empty(), lo, hi),
{
    reveal(fresh_expr);
    reveal(fresh_node);
    reveal(fresh_nodes);
    reveal(fresh_entries);
}

/// Fresh trees with one more, whose identifiers are above theirs, are fresh.
pub proof fn lemma_fresh_nodes_push(ns: Seq<NodeView>, n: NodeView, lo: u64, mid: u64, hi: u64)
    requires
        fresh_nodes(ns, lo, mid),
        fresh_node(n, mid, hi),
        lo <= mid <= hi,
    ensures
        fresh_nodes(ns.push(n), lo, hi),
{
    reveal(fresh_expr);
    reveal(fresh_node);
    reveal(fresh_nodes);
    reveal(fresh_entries);
    assert forall|id: u64|
        #![trigger seq_id_count(ns.push(n), id)]
        seq_id_count(ns.push(n), id) <= 1 && (seq_id_count(ns.push(n), id) > 0 ==> lo < id <= hi) by {
        lemma_seq_id_count_push(ns, n, id);
        assert(seq_id_count(ns, id) <= 1);
        assert(id_count(n, id) <= 1);
    }
}

/// Fresh entries with one more, whose identifiers are above theirs and whose
/// value's are above its key's, are fresh.
pub proof fn lemma_fresh_entries_push(
    es: Seq<EntryView>,
    e: EntryView,
    lo: u64,
    mid: u64,
    mid2: u64,
    hi: u64,
)
    requires
        fresh_entries(es, lo, mid),
        e.key matches EntryKeyView::Expr(k) ==> fresh_node(k, mid, mid2),
        fresh_node(e.value, mid2, hi),
        lo <= mid <= mid2 <= hi,
    ensures
        fresh_entries(es.push(e), lo, hi),
{
    reveal(fresh_expr);
    reveal(fresh_node);
    reveal(fresh_nodes);
    reveal(fresh_entries);
    assert forall|id: u64|
        #![trigger entries_id_count(es.push(e), id)]
        entries_id_count(es.push(e), id) <= 1 && (entries_id_count(es.push(e), id) > 0 ==> lo < id <= hi) by {
        lemma_entries_id_count_push(es, e, id);
        assert(entries_id_count(es, id) <= 1);
        assert(id_count(e.value, id) <= 1);
        if let EntryKeyView::Expr(k) = e.key {
            assert(id_count(k, id) <= 1);
        }
    }
}

/// A call over a fresh receiver and fresh arguments, whose identifiers are
/// above the receiver's, is fresh.
pub proof fn lemma_fresh_call(
    target: Option<Box<NodeView>>,
    function: Seq<char>,
    args: Seq<NodeView>,
    lo: u64,
    mid: u64,
    hi: u64,
)
    requires
        target matches Some(t) ==> fresh_node(*t, lo, mid),
        fresh_nodes(args, mid, hi),
        lo <= mid <= hi,
    ensures
        fresh_expr(ExprView::Call { target, function, args }, lo, hi),
{
    reveal(fresh_expr);
    reveal(fresh_node);
    reveal(fresh_nodes);
    reveal(fresh_entries);
    let e = ExprView::Call { target, function, args };
    assert forall|id: u64|
        #![trigger expr_id_count(e, id)]
        expr_id_count(e, id) <= 1 && (expr_id_count(e, id) > 0 ==> lo < id <= hi) by {
        assert(seq_id_count(args, id) <= 1);
        if let Some(t) = target {
            assert(id_count(*t, id) <= 1);
        }
    }
}

/// Two fresh trees, the second's identifiers above the first's, are fresh
/// together.
pub proof fn lemma_fresh_pair(a: NodeView, b: NodeView, lo: u64, mid: u64, hi: u64)
    requires
        fresh_node(a, lo, mid),
        fresh_node(b, mid, hi),
        lo <= mid <= hi,
    ensures
        fresh_nodes(seq![a, b], lo, hi),
{
    lemma_fresh_none(lo, lo);
    assert(fresh_nodes(seq![a], lo, mid)) by {
        assert(seq![a] =~= Seq::empty().push(a));
        lemma_fresh_nodes_push(Seq::empty(), a, lo, lo, mid);
    }
    assert(seq![a, b] =~= seq![a].push(b));
    lemma_fresh_nodes_push(seq![a], b, lo, mid, hi);
}

/// One fresh tree is fresh as a sequence.
pub proof fn lemma_fresh_single(a: NodeView, lo: u64, hi: u64)
    requires
        fresh_node(a, lo, hi),
        lo <= hi,
    ensures
        fresh_nodes(seq![a], lo, hi),
{
    lemma_fresh_none(lo, lo);
    assert(seq![a] =~= Seq::empty().push(a));
    lemma_fresh_nodes_push(Seq::empty(), a, lo, lo, hi);
}

/// Three fresh trees, each one's identifiers above those before, are fresh
/// together.
pub proof fn lemma_fresh_triple(a: NodeView, b: NodeView, c: NodeView, lo: u64, m1: u64, m2: u64, hi: u64)
    requires
        fresh_node(a, lo, m1),
        fresh_node(b, m1, m2),
        fresh_node(c, m2, hi),
        lo <= m1 <= m2 <= hi,
    ensures
        fresh_nodes(seq![a, b, c], lo, hi),
{
    lemma_fresh_pair(a, b, lo, m1, m2);
    assert(seq![a, b, c] =~= seq![a, b].push(c));
    lemma_fresh_nodes_push(seq![a, b], c, lo, m2, hi);
}

/// A selection from a fresh tree, a list of fresh trees and a literal of
/// fresh entries are fresh.
pub proof fn lemma_fresh_wrapped(e: ExprView, lo: u64, hi: u64)
    requires
        e matches ExprView::Select { operand, .. } ==> fresh_node(*operand, lo, hi),
        e matches ExprView::CreateList { elements } ==> fresh_nodes(elements, lo, hi),
        e matches ExprView::CreateStruct { entries, .. } ==> fresh_entries(entries, lo, hi),
        e is Select || e is CreateList || e is CreateStruct,
    ensures
        fresh_expr(e, lo, hi),
{
    reveal(fresh_expr);
    reveal(fresh_node);
    reveal(fresh_nodes);
    reveal(fresh_entries);
    assert forall|id: u64|
        #![trigger expr_id_count(e, id)]
        expr_id_count(e, id) <= 1 && (expr_id_count(e, id) > 0 ==> lo < id <= hi) by {
        match e {
            ExprView::Select { operand, .. } => {
                assert(id_count(*operand, id) <= 1);
            },
            ExprView::CreateList { elements } => {
                assert(seq_id_count(elements, id) <= 1);
            },
            ExprView::CreateStruct { entries, .. } => {
                assert(entries_id_count(entries, id) <= 1);
            },
            _ => {},
        }
    }
}

/// The model of a vector of nodes has a model for each node, in order.
pub proof fn lemma_nodes_view_index(v: Seq<IdedExpr>)
    ensures
        nodes_view(v).len() == v.len(),
        forall|i: int| 0 <= i < v.len() ==> #[trigger] nodes_view(v)[i] == node_view(v[i]),
{
    reveal(node_view);
    reveal(expr_view);
    reveal(children_view);
    reveal(entry_view);
    reveal(entry_views);
    reveal(nodes_view);
    reveal(entries_view);
}

/// No nodes and no entries have no models.
pub proof fn lemma_views_of_none()
    ensures
        nodes_view(Seq::empty()) == Seq::<NodeView>::empty(),
        entries_view(Seq::empty()) == Seq::<EntryView>::empty(),
{
    reveal(nodes_view);
    reveal(children_view);
    reveal(entries_view);
    reveal(entry_views);
    assert(nodes_view(Seq::empty()) =~= Seq::<NodeView>::empty());
    assert(entries_view(Seq::empty()) =~= Seq::<EntryView>::empty());
}

/// Adding a node at the end of a vector adds its model at the end of the
/// vector's model.
pub proof fn lemma_nodes_view_push(v: Seq<IdedExpr>, n: IdedExpr)
    ensures
        nodes_view(v.push(n)) == nodes_view(v).push(node_view(n)),
{
    reveal(node_view);
    reveal(expr_view);
    reveal(children_view);
    reveal(entry_view);
    reveal(entry_views);
    reveal(nodes_view);
    reveal(entries_view);
    assert(nodes_view(v.push(n)) =~= nodes_view(v).push(node_view(n)));
}

/// Adding an entry at the end of a vector adds its model at the end of the
/// vector's model.
pub proof fn lemma_entries_view_push(v: Seq<Entry>, e: Entry)
    ensures
        entries_view(v.push(e)) == entries_view(v).push(entry_view(e)),
{
    reveal(node_view);
    reveal(expr_view);
    reveal(children_view);
    reveal(entry_view);
    reveal(entry_views);
    reveal(nodes_view);
    reveal(entries_view);
    assert(entries_view(v.push(e)) =~= entries_view(v).push(entry_view(e)));
}

/// A copy of each node of `v`, in order.
pub fn clone_nodes(v: &Vec<IdedExpr>) -> (r: Vec<IdedExpr>)
    ensures
        nodes_view(r@) == nodes_view(v@),
    decreases *v, 0int,
{
    let mut out: Vec<IdedExpr> = Vec::new();
    let mut i: usize = 0;
    assert(out@ =~= v@.take(0));
    while i < v.len()
        invariant
            i <= v.len(),
            nodes_view(out@) == nodes_view(v@.take(i as int)),
        decreases v.len() - i,
    {
        let c = clone_node(&v[i]);
        proof {
            lemma_nodes_view_push(out@, c);
            lemma_nodes_view_push(v@.take(i as int), v@[i as int]);
            assert(v@.take(i as int).push(v@[i as int]) == v@.take(i + 1));
        }
        out.push(c);
        i += 1;
    }
    assert(v@.take(v.len() as int) == v@);
    out
}

/// A copy of each entry of `v`, in order.
pub fn clone_entries(v: &Vec<Entry>) -> (r: Vec<Entry>)
    ensures
        entries_view(r@) == entries_view(v@),
    decreases *v, 0int,
{
    let mut out: Vec<Entry> = Vec::new();
    let mut i: usize = 0;
    assert(out@ =~= v@.take(0));
    while i < v.len()
        invariant
            i <= v.len(),
            entries_view(out@) == entries_view(v@.take(i as int)),
        decreases v.len() - i,
    {
        let e = &v[i];
        let key = match &e.key {
            EntryKey::Field(name) => EntryKey::Field(name.clone()),
            EntryKey::Expr(k) => EntryKey::Expr(clone_node(k)),
        };
        let c = Entry { key, value: clone_node(&e.value) };
        proof {
            reveal(entry_view);
            reveal(node_view);
            lemma_entries_view_push(out@, c);
            lemma_entries_view_push(v@.take(i as int), v@[i as int]);
            assert(v@.take(i as int).push(v@[i as int]) == v@.take(i + 1));
        }
        out.push(c);
        i += 1;
    }
    assert(v@.take(v.len() as int) == v@);
    out
}

/// A copy of the expression `e`.
pub fn clone_expr(e: &Expr) -> (r: Expr)
    ensures
        r@ == e@,
    decreases *e, 0int,
{
    proof {
        reveal(node_view);
        reveal(expr_view);
        reveal(children_view);
        reveal(entry_view);
        reveal(entry_views);
        reveal(nodes_view);
        reveal(entries_view);
    }
    match e {
        Expr::Literal(v) => Expr::Literal(v.clone()),
        Expr::Ident(name) => Expr::Ident(name.clone()),
        Expr::Select { operand, field, test_only } => Expr::Select {
            operand: Box::new(clone_node(operand)),
            field: field.clone(),
            test_only: *test_only,
        },
        Expr::Call { target, function, args } => Expr::Call {
            target: match target {
                Some(t) => Some(Box::new(clone_node(t))),
                None => None,
            },
            function: function.clone(),
            args: clone_nodes(args),
        },
        Expr::CreateList { elements } => Expr::CreateList { elements: clone_nodes(elements) },
        Expr::CreateStruct { entries, message_name } => Expr::CreateStruct {
            entries: clone_entries(entries),
            message_name: match message_name {
                Some(t) => Some(t.clone()),
                None => None,
            },
        },
        Expr::Comprehension {
            iter_var,
            iter_range,
            accu_var,
            accu_init,
            loop_condition,
            loop_step,
            result,
        } => Expr::Comprehension {
            iter_var: iter_var.clone(),
            iter_range: Box::new(clone_node(iter_range)),
            accu_var: accu_var.clone(),
            accu_init: Box::new(clone_node(accu_init)),
            loop_condition: Box::new(clone_node(loop_condition)),
            loop_step: Box::new(clone_node(loop_step)),
            result: Box::new(clone_node(result)),
        },
    }
}

/// A copy of the node `n`, identifiers included.
pub fn clone_node(n: &IdedExpr) -> (r: IdedExpr)
    ensures
        r@ == n@,
    decreases *n, 1int,
{
    proof {
        reveal(node_view);
        reveal(expr_view);
        reveal(children_view);
        reveal(entry_view);
        reveal(entry_views);
        reveal(nodes_view);
        reveal(entries_view);
    }
    IdedExpr { id: n.id, expr: clone_expr(&n.expr) }
}

/// The node of an expression under an identifier.
pub fn node_of(id: u64, expr: Expr) -> (n: IdedExpr)
    ensures
        n@ == (NodeView { id, expr: expr@ }),
        n.id == id,
{
    proof {
        reveal(node_view);
        reveal(expr_view);
        reveal(children_view);
        reveal(entry_view);
        reveal(entry_views);
        reveal(nodes_view);
        reveal(entries_view);
    }
    IdedExpr { id, expr }
}

/// A literal.
pub fn literal_of(v: Val) -> (e: Expr)
    ensures
        e@ == ExprView::Literal(v@),
{
    proof {
        reveal(node_view);
        reveal(expr_view);
        reveal(children_view);
        reveal(entry_view);
        reveal(entry_views);
        reveal(nodes_view);
        reveal(entries_view);
    }
    Expr::Literal(v)
}

/// A bare identifier.
pub fn ident_of(name: String) -> (e: Expr)
    ensures
        e@ == ExprView::Ident(name@),
{
    proof {
        reveal(node_view);
        reveal(expr_view);
        reveal(children_view);
        reveal(entry_view);
        reveal(entry_views);
        reveal(nodes_view);
        reveal(entries_view);
    }
    Expr::Ident(name)
}

/// The selection of a field.
pub fn select_of(operand: IdedExpr, field: String, test_only: bool) -> (e: Expr)
    ensures
        e@ == (ExprView::Select { operand: Box::new(operand@), field: field@, test_only }),
{
    proof {
        reveal(node_view);
        reveal(expr_view);
        reveal(children_view);
        reveal(entry_view);
        reveal(entry_views);
        reveal(nodes_view);
        reveal(entries_view);
    }
    Expr::Select { operand: Box::new(operand), field, test_only }
}

/// A call, on a receiver or without one.
pub fn call_of(target: Option<IdedExpr>, function: String, args: Vec<IdedExpr>) -> (e: Expr)
    ensures
        e@ == (ExprView::Call {
            target: match target {
                Some(t) => Some(Box::new(t@)),
                None => None,
            },
            function: function@,
            args: nodes_view(args@),
        }),
{
    proof {
        reveal(node_view);
        reveal(expr_view);
        reveal(children_view);
        reveal(entry_view);
        reveal(entry_views);
        reveal(nodes_view);
        reveal(entries_view);
    }
    Expr::Call {
        target: match target {
            Some(t) => Some(Box::new(t)),
            None => None,
        },
        function,
        args,
    }
}

/// A list literal.
pub fn list_of(elements: Vec<IdedExpr>) -> (e: Expr)
    ensures
        e@ == (ExprView::CreateList { elements: nodes_view(elements@) }),
{
    proof {
        reveal(node_view);
        reveal(expr_view);
        reveal(children_view);
        reveal(entry_view);
        reveal(entry_views);
        reveal(nodes_view);
        reveal(entries_view);
    }
    Expr::CreateList { elements }
}

/// A map literal, or with a name a message literal.
pub fn struct_of(entries: Vec<Entry>, message_name: Option<String>) -> (e: Expr)
    ensures
        e@ == (ExprView::CreateStruct {
            entries: entries_view(entries@),
            message_name: match message_name {
                Some(n) => Some(n@),
                None => None,
            },
        }),
{
    proof {
        reveal(node_view);
        reveal(expr_view);
        reveal(children_view);
        reveal(entry_view);
        reveal(entry_views);
        reveal(nodes_view);
        reveal(entries_view);
    }
    Expr::CreateStruct { entries, message_name }
}

/// A comprehension.
pub fn comprehension_of(
    iter_var: String,
    iter_range: IdedExpr,
    accu_var: String,
    accu_init: IdedExpr,
    loop_condition: IdedExpr,
    loop_step: IdedExpr,
    result: IdedExpr,
) -> (e: Expr)
    ensures
        e@ == (ExprView::Comprehension {
            iter_var: iter_var@,
            iter_range: Box::new(iter_range@),
            accu_var: accu_var@,
            accu_init: Box::new(accu_init@),
            loop_condition: Box::new(loop_condition@),
            loop_step: Box::new(loop_step@),
            result: Box::new(result@),
        }),
{
    proof {
        reveal(expr_view);
        reveal(node_view);
    }
    Expr::Comprehension {
        iter_var,
        iter_range: Box::new(iter_range),
        accu_var,
        accu_init: Box::new(accu_init),
        loop_condition: Box::new(loop_condition),
        loop_step: Box::new(loop_step),
        result: Box::new(result),
    }
}

/// An entry of a message literal.
pub fn field_entry(name: String, value: IdedExpr) -> (e: Entry)
    ensures
        e@ == (EntryView { key: EntryKeyView::Field(name@), value: value@ }),
{
    proof {
        reveal(node_view);
        reveal(expr_view);
        reveal(children_view);
        reveal(entry_view);
        reveal(entry_views);
        reveal(nodes_view);
        reveal(entries_view);
    }
    Entry { key: EntryKey::Field(name), value }
}

/// An entry of a map literal.
pub fn map_entry(key: IdedExpr, value: IdedExpr) -> (e: Entry)
    ensures
        e@ == (EntryView { key: EntryKeyView::Expr(key@), value: value@ }),
{
    proof {
        reveal(node_view);
        reveal(expr_view);
        reveal(children_view);
        reveal(entry_view);
        reveal(entry_views);
        reveal(nodes_view);
        reveal(entries_view);
    }
    Entry { key: EntryKey::Expr(key), value }
}

impl Clone for Expr {
    fn clone(&self) -> (r: Self)
        ensures
            r@ == self@,
    {
        clone_expr(self)
    }
}

impl Clone for IdedExpr {
    fn clone(&self) -> (r: Self)
        ensures
            r@ == self@,
    {
        clone_node(self)
    }
}

} // verus!
