//! The macros: call forms that are rewritten into the core constructs.
use vstd::prelude::*;
use crate::ast::{
    children_view, expr_view, fresh_node, lemma_seq_loop_count_small, loop_count, node_view,
    seq_loop_count, id_count, lemma_seq_id_count_small, nodes_view, seq_id_count, Expr, ExprView, IdedExpr,
    NodeView,
};
use crate::error::ParseError;
use crate::ids::IdAllocator;
use crate::reference::{Val, ValView};
use crate::ast::lemma_nodes_view_index;
use crate::references::{ExpressionReferences, MacroCall, MacroCallView, ReferenceView};

verus! {

/// The call forms that are rewritten.
#[derive(Clone, Copy, Debug, PartialEq, Eq, Structural)]
pub enum MacroKind {
    /// `has(e.f)`: whether the field is present.
    Has,
    /// `r.all(x, p)`: whether `p` holds of every element.
    All,
    /// `r.exists(x, p)`: whether `p` holds of some element.
    Exists,
    /// `r.exists_one(x, p)`: whether `p` holds of exactly one element.
    ExistsOne,
    /// `r.map(x, t)` and `r.map(x, p, t)`: the list of the `t`, of the
    /// elements of which `p` holds.
    MapEach,
    /// `r.filter(x, p)`: the list of the elements of which `p` holds.
    Filter,
}

impl MacroKind {
    /// The name a macro is called by.
    pub open spec fn spec_name(self) -> Seq<char> {
        match self {
            MacroKind::Has => "has"@,
            MacroKind::All => "all"@,
            MacroKind::Exists => "exists"@,
            MacroKind::ExistsOne => "exists_one"@,
            MacroKind::MapEach => "map"@,
            MacroKind::Filter => "filter"@,
        }
    }

    /// The name a macro is called by.
    pub fn name(self) -> (s: &'static str)
        ensures
            s@ == self.spec_name(),
    {
        match self {
            MacroKind::Has => "has",
            MacroKind::All => "all",
            MacroKind::Exists => "exists",
            MacroKind::ExistsOne => "exists_one",
            MacroKind::MapEach => "map",
            MacroKind::Filter => "filter",
        }
    }
}

/// The macro that a call names: `has` without a receiver, the others on
/// one.
pub open spec fn macro_called(function: Seq<char>, has_target: bool) -> Option<MacroKind> {
    if !has_target {
        if function == "has"@ {
            Some(MacroKind::Has)
        } else {
            None
        }
    } else if function == "all"@ {
        Some(MacroKind::All)
    } else if function == "exists"@ {
        Some(MacroKind::Exists)
    } else if function == "exists_one"@ {
        Some(MacroKind::ExistsOne)
    } else if function == "map"@ {
        Some(MacroKind::MapEach)
    } else if function == "filter"@ {
        Some(MacroKind::Filter)
    } else {
        None
    }
}

/// Whether a macro takes `actual` arguments.
pub open spec fn arity_fits(kind: MacroKind, actual: nat) -> bool {
    match kind {
        MacroKind::Has => actual == 1,
        MacroKind::MapEach => actual == 2 || actual == 3,
        _ => actual == 2,
    }
}

/// The number of arguments that a macro takes; for `map`, which takes two
/// or three, the one nearer to `actual`.
pub open spec fn arity_expected(kind: MacroKind, actual: nat) -> nat {
    match kind {
        MacroKind::Has => 1,
        MacroKind::MapEach => if actual < 2 {
            2
        } else {
            3
        },
        _ => 2,
    }
}

/// How many nodes the rewriting of a macro call adds.
pub open spec fn fresh_needed(kind: MacroKind, actual: nat) -> nat {
    match kind {
        MacroKind::Has => 0,
        MacroKind::All => 5,
        MacroKind::Exists => 6,
        MacroKind::ExistsOne => 10,
        MacroKind::MapEach => if actual == 2 {
            6
        } else {
            8
        },
        MacroKind::Filter => 8,
    }
}

/// The name of the accumulator variable of every rewritten macro.
pub open spec fn accu_name() -> Seq<char> {
    "@result"@
}

/// A literal node.
pub open spec fn literal_node(id: u64, v: ValView) -> NodeView {
    NodeView { id, expr: ExprView::Literal(v) }
}

/// An identifier node.
pub open spec fn ident_node(id: u64, name: Seq<char>) -> NodeView {
    NodeView { id, expr: ExprView::Ident(name) }
}

/// A call node without a receiver.
pub open spec fn call_node(id: u64, function: Seq<char>, args: Seq<NodeView>) -> NodeView {
    NodeView { id, expr: ExprView::Call { target: None, function, args } }
}

/// A list node.
pub open spec fn list_node(id: u64, elements: Seq<NodeView>) -> NodeView {
    NodeView { id, expr: ExprView::CreateList { elements } }
}

/// The `n`-th identifier after `issued`.
pub open spec fn nth_id(issued: u64, n: nat) -> u64 {
    (issued + n) as u64
}

/// What `range.all(var, p)` is rewritten to: the accumulator starts true,
/// the loop goes on while it is true, and each step takes `p` into it by
/// `&&`.
pub open spec fn all_expansion(id: u64, issued: u64, range: NodeView, var: Seq<char>, p: NodeView) -> NodeView {
    NodeView {
        id,
        expr: ExprView::Comprehension {
            iter_var: var,
            iter_range: Box::new(range),
            accu_var: accu_name(),
            accu_init: Box::new(literal_node(nth_id(issued, 1), ValView::Boolean(true))),
            loop_condition: Box::new(ident_node(nth_id(issued, 2), accu_name())),
            loop_step: Box::new(
                call_node(nth_id(issued, 4), "_&&_"@, seq![ident_node(nth_id(issued, 3), accu_name()), p]),
            ),
            result: Box::new(ident_node(nth_id(issued, 5), accu_name())),
        },
    }
}

/// What `range.exists(var, p)` is rewritten to: the accumulator starts
/// false, the loop goes on while it is not true, and each step takes `p`
/// into it by `||`.
pub open spec fn exists_expansion(id: u64, issued: u64, range: NodeView, var: Seq<char>, p: NodeView) -> NodeView {
    NodeView {
        id,
        expr: ExprView::Comprehension {
            iter_var: var,
            iter_range: Box::new(range),
            accu_var: accu_name(),
            accu_init: Box::new(literal_node(nth_id(issued, 1), ValView::Boolean(false))),
            loop_condition: Box::new(
                call_node(nth_id(issued, 3), "!_"@, seq![ident_node(nth_id(issued, 2), accu_name())]),
            ),
            loop_step: Box::new(
                call_node(nth_id(issued, 5), "_||_"@, seq![ident_node(nth_id(issued, 4), accu_name()), p]),
            ),
            result: Box::new(ident_node(nth_id(issued, 6), accu_name())),
        },
    }
}

/// What `range.exists_one(var, p)` is rewritten to: the accumulator counts
/// from zero, each step adds `p ? 1 : 0`, and the result is whether the
/// count is one.
pub open spec fn exists_one_expansion(id: u64, issued: u64, range: NodeView, var: Seq<char>, p: NodeView) -> NodeView {
    NodeView {
        id,
        expr: ExprView::Comprehension {
            iter_var: var,
            iter_range: Box::new(range),
            accu_var: accu_name(),
            accu_init: Box::new(literal_node(nth_id(issued, 1), ValView::Int(0))),
            loop_condition: Box::new(literal_node(nth_id(issued, 2), ValView::Boolean(true))),
            loop_step: Box::new(
                call_node(
                    nth_id(issued, 7),
                    "_+_"@,
                    seq![
                        ident_node(nth_id(issued, 3), accu_name()),
                        call_node(
                            nth_id(issued, 6),
                            "_?_:_"@,
                            seq![
                                p,
                                literal_node(nth_id(issued, 4), ValView::Int(1)),
                                literal_node(nth_id(issued, 5), ValView::Int(0)),
                            ],
                        ),
                    ],
                ),
            ),
            result: Box::new(
                call_node(
                    nth_id(issued, 10),
                    "_==_"@,
                    seq![
                        ident_node(nth_id(issued, 8), accu_name()),
                        literal_node(nth_id(issued, 9), ValView::Int(1)),
                    ],
                ),
            ),
        },
    }
}

/// What `range.map(var, t)` is rewritten to: the accumulator starts as the
/// empty list and each step appends `[t]`.
pub open spec fn map_expansion(id: u64, issued: u64, range: NodeView, var: Seq<char>, t: NodeView) -> NodeView {
    NodeView {
        id,
        expr: ExprView::Comprehension {
            iter_var: var,
            iter_range: Box::new(range),
            accu_var: accu_name(),
            accu_init: Box::new(list_node(nth_id(issued, 1), Seq::empty())),
            loop_condition: Box::new(literal_node(nth_id(issued, 2), ValView::Boolean(true))),
            loop_step: Box::new(
                call_node(
                    nth_id(issued, 5),
                    "_+_"@,
                    seq![ident_node(nth_id(issued, 3), accu_name()), list_node(nth_id(issued, 4), seq![t])],
                ),
            ),
            result: Box::new(ident_node(nth_id(issued, 6), accu_name())),
        },
    }
}

/// What `range.map(var, p, t)` is rewritten to, and `range.filter(var, p)`
/// with the variable itself for `t`: the accumulator starts as the empty
/// list and each step appends `[t]` if `p` holds.
pub open spec fn filter_map_expansion(
    id: u64,
    issued: u64,
    range: NodeView,
    var: Seq<char>,
    p: NodeView,
    t: NodeView,
) -> NodeView {
    NodeView {
        id,
        expr: ExprView::Comprehension {
            iter_var: var,
            iter_range: Box::new(range),
            accu_var: accu_name(),
            accu_init: Box::new(list_node(nth_id(issued, 1), Seq::empty())),
            loop_condition: Box::new(literal_node(nth_id(issued, 2), ValView::Boolean(true))),
            loop_step: Box::new(
                call_node(
                    nth_id(issued, 7),
                    "_?_:_"@,
                    seq![
                        p,
                        call_node(
                            nth_id(issued, 5),
                            "_+_"@,
                            seq![
                                ident_node(nth_id(issued, 3), accu_name()),
                                list_node(nth_id(issued, 4), seq![t]),
                            ],
                        ),
                        ident_node(nth_id(issued, 6), accu_name()),
                    ],
                ),
            ),
            result: Box::new(ident_node(nth_id(issued, 8), accu_name())),
        },
    }
}

/// The comprehension that a call of `kind` on `range`, binding `var`, is
/// rewritten to. `args` are the call's arguments, the variable first.
pub open spec fn comprehension_of(
    kind: MacroKind,
    id: u64,
    issued: u64,
    range: NodeView,
    var: Seq<char>,
    args: Seq<NodeView>,
) -> NodeView {
    match kind {
        MacroKind::All => all_expansion(id, issued, range, var, args[1]),
        MacroKind::Exists => exists_expansion(id, issued, range, var, args[1]),
        MacroKind::ExistsOne => exists_one_expansion(id, issued, range, var, args[1]),
        MacroKind::MapEach => if args.len() == 2 {
            map_expansion(id, issued, range, var, args[1])
        } else {
            filter_map_expansion(id, issued, range, var, args[1], args[2])
        },
        _ => filter_map_expansion(id, issued, range, var, args[1], args[0]),
    }
}

/// What becomes of a node that was just built, with `issued` identifiers
/// given out so far and the table `refs`: the node as rewritten, and the
/// two as they are afterwards.
///
/// Anything but a call that names a macro stays as it is. `has(e.f)` becomes
/// the presence test of `e.f` under the call's identifier, with no entry in
/// the table. The other macros become a comprehension under the call's
/// identifier; the nodes that this adds get the next identifiers, and the
/// table gets the macro and the arguments that the call had.
pub open spec fn expansion(call: NodeView, issued: u64, refs: Map<u64, ReferenceView>) -> Result<
    (NodeView, u64, Map<u64, ReferenceView>),
    ParseError,
> {
    match call.expr {
        ExprView::Call { target, function, args } => match macro_called(function, target is Some) {
            None => Ok((call, issued, refs)),
            Some(kind) => if !arity_fits(kind, args.len()) {
                Err(
                    ParseError::MacroArityError {
                        name: kind,
                        expected: arity_expected(kind, args.len()) as usize,
                        actual: args.len() as usize,
                    },
                )
            } else if kind == MacroKind::Has {
                match args[0].expr {
                    ExprView::Select { operand, field, .. } => Ok(
                        (
                            NodeView {
                                id: call.id,
                                expr: ExprView::Select { operand, field, test_only: true },
                            },
                            issued,
                            refs,
                        ),
                    ),
                    _ => Err(ParseError::MacroBindingError { name: kind }),
                }
            } else {
                match args[0].expr {
                    ExprView::Ident(var) => if issued > u64::MAX - fresh_needed(kind, args.len()) {
                        Err(ParseError::TooManyNodes)
                    } else {
                        Ok(
                            (
                                comprehension_of(kind, call.id, issued, *target->0, var, args),
                                nth_id(issued, fresh_needed(kind, args.len())),
                                refs.insert(
                                    call.id,
                                    ReferenceView::Macro(MacroCallView { id: call.id, kind, args }),
                                ),
                            ),
                        )
                    },
                    _ => Err(ParseError::MacroBindingError { name: kind }),
                }
            },
        },
        _ => Ok((call, issued, refs)),
    }
}

proof fn lemma_leaf_counts(at: u64, name: Seq<char>, v: ValView, id: u64)
    ensures
        id_count(ident_node(at, name), id) == (if at == id { 1nat } else { 0nat }),
        id_count(literal_node(at, v), id) == (if at == id { 1nat } else { 0nat }),
{
}

proof fn lemma_call_count(at: u64, function: Seq<char>, args: Seq<NodeView>, id: u64)
    ensures
        id_count(call_node(at, function, args), id) == (if at == id { 1nat } else { 0nat }) + seq_id_count(args, id),
        id_count(list_node(at, args), id) == (if at == id { 1nat } else { 0nat }) + seq_id_count(args, id),
{
}

proof fn lemma_all_count(at: u64, issued: u64, range: NodeView, var: Seq<char>, p: NodeView, id: u64)
    requires
        issued <= u64::MAX - 5,
    ensures
        id_count(all_expansion(at, issued, range, var, p), id) == (if at == id { 1nat } else { 0nat })
            + id_count(range, id) + id_count(p, id) + (if issued < id <= issued + 5 { 1nat } else { 0nat }),
{
    let a = accu_name();
    let x = ident_node(nth_id(issued, 3), a);
    lemma_leaf_counts(nth_id(issued, 1), a, ValView::Boolean(true), id);
    lemma_leaf_counts(nth_id(issued, 2), a, ValView::Null, id);
    lemma_leaf_counts(nth_id(issued, 3), a, ValView::Null, id);
    lemma_leaf_counts(nth_id(issued, 5), a, ValView::Null, id);
    lemma_call_count(nth_id(issued, 4), "_&&_"@, seq![x, p], id);
    lemma_seq_id_count_small(x, p, p, id);
}

proof fn lemma_exists_count(at: u64, issued: u64, range: NodeView, var: Seq<char>, p: NodeView, id: u64)
    requires
        issued <= u64::MAX - 6,
    ensures
        id_count(exists_expansion(at, issued, range, var, p), id) == (if at == id { 1nat } else { 0nat })
            + id_count(range, id) + id_count(p, id) + (if issued < id <= issued + 6 { 1nat } else { 0nat }),
{
    let a = accu_name();
    let x = ident_node(nth_id(issued, 2), a);
    let y = ident_node(nth_id(issued, 4), a);
    lemma_leaf_counts(nth_id(issued, 1), a, ValView::Boolean(false), id);
    lemma_leaf_counts(nth_id(issued, 2), a, ValView::Null, id);
    lemma_leaf_counts(nth_id(issued, 4), a, ValView::Null, id);
    lemma_leaf_counts(nth_id(issued, 6), a, ValView::Null, id);
    lemma_call_count(nth_id(issued, 3), "!_"@, seq![x], id);
    lemma_call_count(nth_id(issued, 5), "_||_"@, seq![y, p], id);
    lemma_seq_id_count_small(x, p, p, id);
    lemma_seq_id_count_small(y, p, p, id);
}

proof fn lemma_exists_one_count(at: u64, issued: u64, range: NodeView, var: Seq<char>, p: NodeView, id: u64)
    requires
        issued <= u64::MAX - 10,
    ensures
        id_count(exists_one_expansion(at, issued, range, var, p), id) == (if at == id { 1nat } else { 0nat })
            + id_count(range, id) + id_count(p, id) + (if issued < id <= issued + 10 { 1nat } else { 0nat }),
{
    let a = accu_name();
    let x = ident_node(nth_id(issued, 3), a);
    let one = literal_node(nth_id(issued, 4), ValView::Int(1));
    let zero = literal_node(nth_id(issued, 5), ValView::Int(0));
    let choice = call_node(nth_id(issued, 6), "_?_:_"@, seq![p, one, zero]);
    let y = ident_node(nth_id(issued, 8), a);
    let wanted = literal_node(nth_id(issued, 9), ValView::Int(1));
    lemma_leaf_counts(nth_id(issued, 1), a, ValView::Int(0), id);
    lemma_leaf_counts(nth_id(issued, 2), a, ValView::Boolean(true), id);
    lemma_leaf_counts(nth_id(issued, 3), a, ValView::Null, id);
    lemma_leaf_counts(nth_id(issued, 4), a, ValView::Int(1), id);
    lemma_leaf_counts(nth_id(issued, 5), a, ValView::Int(0), id);
    lemma_leaf_counts(nth_id(issued, 8), a, ValView::Null, id);
    lemma_leaf_counts(nth_id(issued, 9), a, ValView::Int(1), id);
    lemma_call_count(nth_id(issued, 6), "_?_:_"@, seq![p, one, zero], id);
    lemma_call_count(nth_id(issued, 7), "_+_"@, seq![x, choice], id);
    lemma_call_count(nth_id(issued, 10), "_==_"@, seq![y, wanted], id);
    lemma_seq_id_count_small(p, one, zero, id);
    lemma_seq_id_count_small(x, choice, p, id);
    lemma_seq_id_count_small(y, wanted, p, id);
}

proof fn lemma_map_count(at: u64, issued: u64, range: NodeView, var: Seq<char>, t: NodeView, id: u64)
    requires
        issued <= u64::MAX - 6,
    ensures
        id_count(map_expansion(at, issued, range, var, t), id) == (if at == id { 1nat } else { 0nat })
            + id_count(range, id) + id_count(t, id) + (if issued < id <= issued + 6 { 1nat } else { 0nat }),
{
    let a = accu_name();
    let x = ident_node(nth_id(issued, 3), a);
    let item = list_node(nth_id(issued, 4), seq![t]);
    lemma_leaf_counts(nth_id(issued, 2), a, ValView::Boolean(true), id);
    lemma_leaf_counts(nth_id(issued, 3), a, ValView::Null, id);
    lemma_leaf_counts(nth_id(issued, 6), a, ValView::Null, id);
    lemma_call_count(nth_id(issued, 1), a, Seq::empty(), id);
    lemma_call_count(nth_id(issued, 4), a, seq![t], id);
    lemma_call_count(nth_id(issued, 5), "_+_"@, seq![x, item], id);
    lemma_seq_id_count_small(t, t, t, id);
    lemma_seq_id_count_small(x, item, t, id);
}

proof fn lemma_filter_map_count(
    at: u64,
    issued: u64,
    range: NodeView,
    var: Seq<char>,
    p: NodeView,
    t: NodeView,
    id: u64,
)
    requires
        issued <= u64::MAX - 8,
    ensures
        id_count(filter_map_expansion(at, issued, range, var, p, t), id) == (if at == id { 1nat } else { 0nat })
            + id_count(range, id) + id_count(p, id) + id_count(t, id) + (if issued < id <= issued + 8 {
            1nat
        } else {
            0nat
        }),
{
    let a = accu_name();
    let x = ident_node(nth_id(issued, 3), a);
    let item = list_node(nth_id(issued, 4), seq![t]);
    let grown = call_node(nth_id(issued, 5), "_+_"@, seq![x, item]);
    let kept = ident_node(nth_id(issued, 6), a);
    lemma_leaf_counts(nth_id(issued, 2), a, ValView::Boolean(true), id);
    lemma_leaf_counts(nth_id(issued, 3), a, ValView::Null, id);
    lemma_leaf_counts(nth_id(issued, 6), a, ValView::Null, id);
    lemma_leaf_counts(nth_id(issued, 8), a, ValView::Null, id);
    lemma_call_count(nth_id(issued, 1), a, Seq::empty(), id);
    lemma_call_count(nth_id(issued, 4), a, seq![t], id);
    lemma_call_count(nth_id(issued, 5), "_+_"@, seq![x, item], id);
    lemma_call_count(nth_id(issued, 7), "_?_:_"@, seq![p, grown, kept], id);
    lemma_seq_id_count_small(t, t, t, id);
    lemma_seq_id_count_small(x, item, t, id);
    lemma_seq_id_count_small(p, grown, kept, id);
}

/// Rewriting adds no identifier twice: the node that a rewriting gives
/// holds each identifier at most as often as the call did, and each of the
/// identifiers issued for it at most once.
pub proof fn lemma_expansion_ids(call: NodeView, issued: u64, refs: Map<u64, ReferenceView>, id: u64)
    ensures
        expansion(call, issued, refs) matches Ok((node, next, _)) ==> {
            &&& issued <= next
            &&& id_count(node, id) <= id_count(call, id) + (if issued < id <= next {
                1nat
            } else {
                0nat
            })
        },
{
    match call.expr {
        ExprView::Call { target, function, args } => {
            match macro_called(function, target is Some) {
                None => {},
                Some(kind) => {
                    if arity_fits(kind, args.len()) {
                        if kind == MacroKind::Has {
                            assert(args =~= seq![args[0]]);
                            lemma_seq_id_count_small(args[0], args[0], args[0], id);
                        } else if args[0].expr is Ident && issued <= u64::MAX - fresh_needed(kind, args.len()) {
                            let range = *target->0;
                            let var = args[0].expr->Ident_0;
                            if args.len() == 2 {
                                assert(args =~= seq![args[0], args[1]]);
                                lemma_seq_id_count_small(args[0], args[1], args[1], id);
                            } else {
                                assert(args =~= seq![args[0], args[1], args[2]]);
                                lemma_seq_id_count_small(args[0], args[1], args[2], id);
                            }
                            match kind {
                                MacroKind::All => lemma_all_count(call.id, issued, range, var, args[1], id),
                                MacroKind::Exists => lemma_exists_count(call.id, issued, range, var, args[1], id),
                                MacroKind::ExistsOne => lemma_exists_one_count(
                                    call.id,
                                    issued,
                                    range,
                                    var,
                                    args[1],
                                    id,
                                ),
                                MacroKind::MapEach => if args.len() == 2 {
                                    lemma_map_count(call.id, issued, range, var, args[1], id)
                                } else {
                                    lemma_filter_map_count(call.id, issued, range, var, args[1], args[2], id)
                                },
                                _ => lemma_filter_map_count(call.id, issued, range, var, args[1], args[0], id),
                            }
                        }
                    }
                },
            }
        },
        _ => {},
    }
}

/// Rewriting keeps a tree fresh: if the identifiers of the call are all
/// different and among those issued, so are those of what it is rewritten
/// to.
pub proof fn lemma_expansion_fresh(call: NodeView, issued: u64, refs: Map<u64, ReferenceView>, lo: u64)
    requires
        fresh_node(call, lo, issued),
    ensures
        expansion(call, issued, refs) matches Ok((node, next, _)) ==> issued <= next && fresh_node(
            node,
            lo,
            next,
        ),
{
    reveal(fresh_node);
    if let Ok((node, next, _)) = expansion(call, issued, refs) {
        assert(id_count(call, call.id) > 0);
        assert forall|id: u64|
            #![trigger id_count(node, id)]
            id_count(node, id) <= 1 && (id_count(node, id) > 0 ==> lo < id <= next) by {
            lemma_expansion_ids(call, issued, refs, id);
            assert(id_count(call, id) <= 1);
        }
        lemma_expansion_ids(call, issued, refs, 0);
    }
}

proof fn lemma_leaf_loops(at: u64, name: Seq<char>, v: ValView, args: Seq<NodeView>, id: u64)
    ensures
        loop_count(ident_node(at, name), id) == 0,
        loop_count(literal_node(at, v), id) == 0,
        loop_count(call_node(at, name, args), id) == seq_loop_count(args, id),
        loop_count(list_node(at, args), id) == seq_loop_count(args, id),
{
}

proof fn lemma_comprehension_loops(kind: MacroKind, at: u64, issued: u64, range: NodeView, var: Seq<char>, args: Seq<NodeView>, id: u64)
    requires
        kind != MacroKind::Has,
        arity_fits(kind, args.len()),
    ensures
        loop_count(comprehension_of(kind, at, issued, range, var, args), id) == (if at == id {
            1nat
        } else {
            0nat
        }) + loop_count(range, id) + loop_count(args[1], id) + (if kind == MacroKind::MapEach {
            if args.len() == 3 {
                loop_count(args[2], id)
            } else {
                0nat
            }
        } else if kind == MacroKind::Filter {
            loop_count(args[0], id)
        } else {
            0nat
        }),
{
    let a = accu_name();
    let none = Seq::<NodeView>::empty();
    let p = args[1];
    let i = |n: nat| ident_node(nth_id(issued, n), a);
    let on = ValView::Boolean(true);
    lemma_seq_loop_count_small(p, p, p, id);
    match kind {
        MacroKind::All => {
            lemma_leaf_loops(nth_id(issued, 1), a, on, none, id);
            lemma_leaf_loops(nth_id(issued, 2), a, on, none, id);
            lemma_leaf_loops(nth_id(issued, 3), a, on, none, id);
            lemma_leaf_loops(nth_id(issued, 5), a, on, none, id);
            lemma_leaf_loops(nth_id(issued, 4), "_&&_"@, on, seq![i(3), p], id);
            lemma_seq_loop_count_small(i(3), p, p, id);
        },
        MacroKind::Exists => {
            lemma_leaf_loops(nth_id(issued, 1), a, ValView::Boolean(false), none, id);
            lemma_leaf_loops(nth_id(issued, 2), a, on, none, id);
            lemma_leaf_loops(nth_id(issued, 4), a, on, none, id);
            lemma_leaf_loops(nth_id(issued, 6), a, on, none, id);
            lemma_leaf_loops(nth_id(issued, 3), "!_"@, on, seq![i(2)], id);
            lemma_leaf_loops(nth_id(issued, 5), "_||_"@, on, seq![i(4), p], id);
            lemma_seq_loop_count_small(i(2), p, p, id);
            lemma_seq_loop_count_small(i(4), p, p, id);
        },
        MacroKind::ExistsOne => {
            let one = literal_node(nth_id(issued, 4), ValView::Int(1));
            let zero = literal_node(nth_id(issued, 5), ValView::Int(0));
            let choice = call_node(nth_id(issued, 6), "_?_:_"@, seq![p, one, zero]);
            let wanted = literal_node(nth_id(issued, 9), ValView::Int(1));
            lemma_leaf_loops(nth_id(issued, 1), a, ValView::Int(0), none, id);
            lemma_leaf_loops(nth_id(issued, 2), a, on, none, id);
            lemma_leaf_loops(nth_id(issued, 3), a, on, none, id);
            lemma_leaf_loops(nth_id(issued, 4), a, ValView::Int(1), none, id);
            lemma_leaf_loops(nth_id(issued, 5), a, ValView::Int(0), none, id);
            lemma_leaf_loops(nth_id(issued, 8), a, on, none, id);
            lemma_leaf_loops(nth_id(issued, 9), a, ValView::Int(1), none, id);
            lemma_leaf_loops(nth_id(issued, 6), "_?_:_"@, on, seq![p, one, zero], id);
            lemma_leaf_loops(nth_id(issued, 7), "_+_"@, on, seq![i(3), choice], id);
            lemma_leaf_loops(nth_id(issued, 10), "_==_"@, on, seq![i(8), wanted], id);
            lemma_seq_loop_count_small(p, one, zero, id);
            lemma_seq_loop_count_small(i(3), choice, p, id);
            lemma_seq_loop_count_small(i(8), wanted, p, id);
        },
        _ => {
            let t = if kind == MacroKind::Filter {
                args[0]
            } else if args.len() == 3 {
                args[2]
            } else {
                args[1]
            };
            let item = list_node(nth_id(issued, 4), seq![t]);
            let grown = call_node(nth_id(issued, 5), "_+_"@, seq![i(3), item]);
            lemma_leaf_loops(nth_id(issued, 1), a, on, none, id);
            lemma_leaf_loops(nth_id(issued, 2), a, on, none, id);
            lemma_leaf_loops(nth_id(issued, 3), a, on, none, id);
            lemma_leaf_loops(nth_id(issued, 6), a, on, none, id);
            lemma_leaf_loops(nth_id(issued, 8), a, on, none, id);
            lemma_leaf_loops(nth_id(issued, 4), a, on, seq![t], id);
            lemma_leaf_loops(nth_id(issued, 5), "_+_"@, on, seq![i(3), item], id);
            lemma_leaf_loops(nth_id(issued, 7), "_?_:_"@, on, seq![p, grown, i(6)], id);
            lemma_seq_loop_count_small(t, t, t, id);
            lemma_seq_loop_count_small(i(3), item, t, id);
            lemma_seq_loop_count_small(p, grown, i(6), id);
        },
    }
}

/// Rewriting loses no comprehension: what a node is rewritten to has each
/// comprehension that the node had. Where the table changes, it gets the
/// record of a macro under the node's identifier, and the node has become a
/// comprehension.
pub proof fn lemma_expansion_loops(call: NodeView, issued: u64, refs: Map<u64, ReferenceView>, id: u64)
    ensures
        expansion(call, issued, refs) matches Ok((node, _, table)) ==> {
            &&& loop_count(node, id) >= loop_count(call, id)
            &&& node.id == call.id
            &&& table == refs || (exists|record: MacroCallView| #[trigger]
                record.id == call.id && table == refs.insert(call.id, ReferenceView::Macro(record))
                    && loop_count(node, call.id) >= 1)
        },
{
    match call.expr {
        ExprView::Call { target, function, args } => {
            match macro_called(function, target is Some) {
                None => {},
                Some(kind) => {
                    if arity_fits(kind, args.len()) {
                        if kind == MacroKind::Has {
                            assert(args =~= seq![args[0]]);
                            lemma_seq_loop_count_small(args[0], args[0], args[0], id);
                        } else if args[0].expr is Ident && issued <= u64::MAX - fresh_needed(kind, args.len()) {
                            let range = *target->0;
                            let var = args[0].expr->Ident_0;
                            if args.len() == 2 {
                                assert(args =~= seq![args[0], args[1]]);
                                lemma_seq_loop_count_small(args[0], args[1], args[1], id);
                            } else {
                                assert(args =~= seq![args[0], args[1], args[2]]);
                                lemma_seq_loop_count_small(args[0], args[1], args[2], id);
                            }
                            lemma_comprehension_loops(kind, call.id, issued, range, var, args, id);
                            lemma_comprehension_loops(kind, call.id, issued, range, var, args, call.id);
                            let record = MacroCallView { id: call.id, kind, args };
                            assert(record.id == call.id);
                        }
                    }
                },
            }
        },
        _ => {},
    }
}

/// A call that names one of the looping macros and is rewritten becomes a
/// comprehension under the call's own identifier, and the table then holds,
/// under that identifier, the macro by its name and the arguments that the
/// call had.
pub proof fn lemma_macro_keeps_identity(call: NodeView, issued: u64, refs: Map<u64, ReferenceView>)
    requires
        call.expr is Call,
        macro_called(call.expr->function, call.expr->target is Some) matches Some(kind) && kind
            != MacroKind::Has,
        expansion(call, issued, refs) is Ok,
    ensures
        ({
            let kind = macro_called(call.expr->function, call.expr->target is Some)->0;
            let (node, next, table) = expansion(call, issued, refs)->Ok_0;
            &&& node.id == call.id
            &&& node.expr is Comprehension
            &&& kind.spec_name() == call.expr->function
            &&& table.contains_key(call.id)
            &&& table[call.id] == ReferenceView::Macro(
                MacroCallView { id: call.id, kind, args: call.expr->args },
            )
        }),
{
}

/// `range.exists(x, p)` is rewritten: the comprehension has the call's
/// identifier and the table names `exists` with the two arguments, unless
/// the identifiers run out.
pub proof fn lemma_exists_is_rewritten(
    id: u64,
    range: NodeView,
    x: NodeView,
    p: NodeView,
    issued: u64,
    refs: Map<u64, ReferenceView>,
)
    requires
        x.expr is Ident,
        issued <= u64::MAX - 6,
    ensures
        ({
            let call = NodeView {
                id,
                expr: ExprView::Call { target: Some(Box::new(range)), function: "exists"@, args: seq![x, p] },
            };
            &&& expansion(call, issued, refs) matches Ok((node, next, table))
            &&& node.id == id
            &&& node == exists_expansion(id, issued, range, x.expr->Ident_0, p)
            &&& table == refs.insert(
                id,
                ReferenceView::Macro(MacroCallView { id, kind: MacroKind::Exists, args: seq![x, p] }),
            )
        }),
{
    reveal_strlit("exists");
    reveal_strlit("all");
    assert("exists"@ != "all"@) by {
        assert("exists"@.len() != "all"@.len());
    }
}

/// `has(e.f)` is rewritten to the presence test of `e.f` under the call's
/// identifier: no identifier is issued for it and the table stays as it is.
pub proof fn lemma_has_is_presence_test(
    id: u64,
    selection: NodeView,
    issued: u64,
    refs: Map<u64, ReferenceView>,
)
    requires
        selection.expr is Select,
    ensures
        expansion(
            NodeView { id, expr: ExprView::Call { target: None, function: "has"@, args: seq![selection] } },
            issued,
            refs,
        ) == Ok::<(NodeView, u64, Map<u64, ReferenceView>), ParseError>(
            (
                NodeView {
                    id,
                    expr: ExprView::Select {
                        operand: selection.expr->operand,
                        field: selection.expr->field,
                        test_only: true,
                    },
                },
                issued,
                refs,
            ),
        ),
{
}

/// A call that names a macro with a number of arguments that the macro does
/// not take is refused, with the macro, the number it takes and the number
/// it got.
pub proof fn lemma_wrong_arity_is_refused(call: NodeView, issued: u64, refs: Map<u64, ReferenceView>)
    requires
        call.expr is Call,
        macro_called(call.expr->function, call.expr->target is Some) matches Some(kind) && !arity_fits(
            kind,
            call.expr->args.len(),
        ),
    ensures
        expansion(call, issued, refs) == Err::<(NodeView, u64, Map<u64, ReferenceView>), ParseError>(
            ParseError::MacroArityError {
                name: macro_called(call.expr->function, call.expr->target is Some)->0,
                expected: arity_expected(
                    macro_called(call.expr->function, call.expr->target is Some)->0,
                    call.expr->args.len(),
                ) as usize,
                actual: call.expr->args.len() as usize,
            },
        ),
{
}

fn is_name(function: &String, word: &str) -> (b: bool)
    ensures
        b == (function@ == word@),
{
    let w = String::from_str(word);
    *function == w
}

fn literal(id: u64, v: Val) -> (r: IdedExpr)
    ensures
        r@ == literal_node(id, v@),
{
    proof {
        reveal(node_view);
        reveal(expr_view);
        reveal(children_view);
        reveal(nodes_view);
    }
    IdedExpr { id, expr: Expr::Literal(v) }
}

fn accu(ids: &mut IdAllocator) -> (r: IdedExpr)
    requires
        old(ids).issued() < u64::MAX,
    ensures
        r@ == ident_node(nth_id(old(ids).issued(), 1), accu_name()),
        final(ids).issued() == old(ids).issued() + 1,
{
    proof {
        reveal(node_view);
        reveal(expr_view);
        reveal(children_view);
        reveal(nodes_view);
    }
    let id = ids.next_id();
    IdedExpr { id, expr: Expr::Ident(String::from_str("@result")) }
}

fn fresh_literal(ids: &mut IdAllocator, v: Val) -> (r: IdedExpr)
    requires
        old(ids).issued() < u64::MAX,
    ensures
        r@ == literal_node(nth_id(old(ids).issued(), 1), v@),
        final(ids).issued() == old(ids).issued() + 1,
{
    let id = ids.next_id();
    literal(id, v)
}

fn fresh_list(ids: &mut IdAllocator, elements: Vec<IdedExpr>) -> (r: IdedExpr)
    requires
        old(ids).issued() < u64::MAX,
    ensures
        r@ == list_node(nth_id(old(ids).issued(), 1), nodes_view(elements@)),
        final(ids).issued() == old(ids).issued() + 1,
{
    proof {
        reveal(node_view);
        reveal(expr_view);
        reveal(children_view);
        reveal(nodes_view);
    }
    let id = ids.next_id();
    IdedExpr { id, expr: Expr::CreateList { elements } }
}

fn fresh_call(ids: &mut IdAllocator, function: &str, args: Vec<IdedExpr>) -> (r: IdedExpr)
    requires
        old(ids).issued() < u64::MAX,
    ensures
        r@ == call_node(nth_id(old(ids).issued(), 1), function@, nodes_view(args@)),
        final(ids).issued() == old(ids).issued() + 1,
{
    proof {
        reveal(node_view);
        reveal(expr_view);
        reveal(children_view);
        reveal(nodes_view);
    }
    let id = ids.next_id();
    IdedExpr { id, expr: Expr::Call { target: None, function: String::from_str(function), args } }
}

pub(crate) fn no_nodes() -> (v: Vec<IdedExpr>)
    ensures
        nodes_view(v@) == Seq::<NodeView>::empty(),
{
    proof {
        reveal(node_view);
        reveal(expr_view);
        reveal(children_view);
        reveal(nodes_view);
    }
    let v: Vec<IdedExpr> = Vec::new();
    assert(nodes_view(v@) =~= Seq::<NodeView>::empty());
    v
}

pub(crate) fn one_node(a: IdedExpr) -> (v: Vec<IdedExpr>)
    ensures
        nodes_view(v@) == seq![a@],
{
    proof {
        reveal(node_view);
        reveal(expr_view);
        reveal(children_view);
        reveal(nodes_view);
    }
    let mut v: Vec<IdedExpr> = Vec::new();
    v.push(a);
    assert(nodes_view(v@) =~= seq![a@]);
    v
}

pub(crate) fn two_nodes(a: IdedExpr, b: IdedExpr) -> (v: Vec<IdedExpr>)
    ensures
        nodes_view(v@) == seq![a@, b@],
{
    proof {
        reveal(node_view);
        reveal(expr_view);
        reveal(children_view);
        reveal(nodes_view);
    }
    let mut v: Vec<IdedExpr> = Vec::new();
    v.push(a);
    v.push(b);
    assert(nodes_view(v@) =~= seq![a@, b@]);
    v
}

pub(crate) fn three_nodes(a: IdedExpr, b: IdedExpr, c: IdedExpr) -> (v: Vec<IdedExpr>)
    ensures
        nodes_view(v@) == seq![a@, b@, c@],
{
    proof {
        reveal(node_view);
        reveal(expr_view);
        reveal(children_view);
        reveal(nodes_view);
    }
    let mut v: Vec<IdedExpr> = Vec::new();
    v.push(a);
    v.push(b);
    v.push(c);
    assert(nodes_view(v@) =~= seq![a@, b@, c@]);
    v
}

fn comprehension(
    id: u64,
    var: String,
    range: IdedExpr,
    init: IdedExpr,
    condition: IdedExpr,
    step: IdedExpr,
    result: IdedExpr,
) -> (r: IdedExpr)
    ensures
        r@ == (NodeView {
            id,
            expr: ExprView::Comprehension {
                iter_var: var@,
                iter_range: Box::new(range@),
                accu_var: accu_name(),
                accu_init: Box::new(init@),
                loop_condition: Box::new(condition@),
                loop_step: Box::new(step@),
                result: Box::new(result@),
            },
        }),
{
    proof {
        reveal(node_view);
        reveal(expr_view);
        reveal(children_view);
        reveal(nodes_view);
    }
    IdedExpr {
        id,
        expr: Expr::Comprehension {
            iter_var: var,
            iter_range: Box::new(range),
            accu_var: String::from_str("@result"),
            accu_init: Box::new(init),
            loop_condition: Box::new(condition),
            loop_step: Box::new(step),
            result: Box::new(result),
        },
    }
}

fn expand_all(id: u64, ids: &mut IdAllocator, range: IdedExpr, var: String, p: IdedExpr) -> (r: IdedExpr)
    requires
        old(ids).issued() <= u64::MAX - 5,
    ensures
        r@ == all_expansion(id, old(ids).issued(), range@, var@, p@),
        final(ids).issued() == old(ids).issued() + 5,
{
    let init = fresh_literal(ids, Val::Boolean(true));
    let condition = accu(ids);
    let a = accu(ids);
    let step = fresh_call(ids, "_&&_", two_nodes(a, p));
    let result = accu(ids);
    comprehension(id, var, range, init, condition, step, result)
}

fn expand_exists(id: u64, ids: &mut IdAllocator, range: IdedExpr, var: String, p: IdedExpr) -> (r: IdedExpr)
    requires
        old(ids).issued() <= u64::MAX - 6,
    ensures
        r@ == exists_expansion(id, old(ids).issued(), range@, var@, p@),
        final(ids).issued() == old(ids).issued() + 6,
{
    let init = fresh_literal(ids, Val::Boolean(false));
    let a = accu(ids);
    let condition = fresh_call(ids, "!_", one_node(a));
    let b = accu(ids);
    let step = fresh_call(ids, "_||_", two_nodes(b, p));
    let result = accu(ids);
    comprehension(id, var, range, init, condition, step, result)
}

fn expand_exists_one(id: u64, ids: &mut IdAllocator, range: IdedExpr, var: String, p: IdedExpr) -> (r: IdedExpr)
    requires
        old(ids).issued() <= u64::MAX - 10,
    ensures
        r@ == exists_one_expansion(id, old(ids).issued(), range@, var@, p@),
        final(ids).issued() == old(ids).issued() + 10,
{
    let init = fresh_literal(ids, Val::Int(0));
    let condition = fresh_literal(ids, Val::Boolean(true));
    let a = accu(ids);
    let one = fresh_literal(ids, Val::Int(1));
    let zero = fresh_literal(ids, Val::Int(0));
    let choice = fresh_call(ids, "_?_:_", three_nodes(p, one, zero));
    let step = fresh_call(ids, "_+_", two_nodes(a, choice));
    let b = accu(ids);
    let wanted = fresh_literal(ids, Val::Int(1));
    let result = fresh_call(ids, "_==_", two_nodes(b, wanted));
    comprehension(id, var, range, init, condition, step, result)
}

fn expand_map(id: u64, ids: &mut IdAllocator, range: IdedExpr, var: String, t: IdedExpr) -> (r: IdedExpr)
    requires
        old(ids).issued() <= u64::MAX - 6,
    ensures
        r@ == map_expansion(id, old(ids).issued(), range@, var@, t@),
        final(ids).issued() == old(ids).issued() + 6,
{
    let init = fresh_list(ids, no_nodes());
    let condition = fresh_literal(ids, Val::Boolean(true));
    let a = accu(ids);
    let item = fresh_list(ids, one_node(t));
    let step = fresh_call(ids, "_+_", two_nodes(a, item));
    let result = accu(ids);
    comprehension(id, var, range, init, condition, step, result)
}

fn expand_filter_map(
    id: u64,
    ids: &mut IdAllocator,
    range: IdedExpr,
    var: String,
    p: IdedExpr,
    t: IdedExpr,
) -> (r: IdedExpr)
    requires
        old(ids).issued() <= u64::MAX - 8,
    ensures
        r@ == filter_map_expansion(id, old(ids).issued(), range@, var@, p@, t@),
        final(ids).issued() == old(ids).issued() + 8,
{
    let init = fresh_list(ids, no_nodes());
    let condition = fresh_literal(ids, Val::Boolean(true));
    let a = accu(ids);
    let item = fresh_list(ids, one_node(t));
    let grown = fresh_call(ids, "_+_", two_nodes(a, item));
    let kept = accu(ids);
    let step = fresh_call(ids, "_?_:_", three_nodes(p, grown, kept));
    let result = accu(ids);
    comprehension(id, var, range, init, condition, step, result)
}

fn expand_has(id: u64, args: Vec<IdedExpr>) -> (r: Result<IdedExpr, ParseError>)
    requires
        args.len() == 1,
    ensures
        match nodes_view(args@)[0].expr {
            ExprView::Select { operand, field, .. } => r matches Ok(e) && e@ == (NodeView {
                id,
                expr: ExprView::Select { operand, field, test_only: true },
            }),
            _ => r == Err::<IdedExpr, ParseError>(
                ParseError::MacroBindingError { name: MacroKind::Has },
            ),
        },
{
    proof {
        reveal(node_view);
        reveal(expr_view);
        reveal(children_view);
        reveal(nodes_view);
    }
    proof {
        lemma_nodes_view_index(args@);
    }
    let mut args = args;
    let arg = args.pop().unwrap();
    match arg.expr {
        Expr::Select { operand, field, test_only: _ } => Ok(
            IdedExpr { id, expr: Expr::Select { operand, field, test_only: true } },
        ),
        _ => Err(ParseError::MacroBindingError { name: MacroKind::Has }),
    }
}

fn expand_loop(
    kind: MacroKind,
    id: u64,
    range: IdedExpr,
    args: Vec<IdedExpr>,
    ids: &mut IdAllocator,
    refs: &mut ExpressionReferences,
) -> (r: Result<IdedExpr, ParseError>)
    requires
        kind != MacroKind::Has,
        arity_fits(kind, args.len() as nat),
    ensures
        match nodes_view(args@)[0].expr {
            ExprView::Ident(var) => if old(ids).issued() > u64::MAX - fresh_needed(
                kind,
                args.len() as nat,
            ) {
                &&& r == Err::<IdedExpr, ParseError>(ParseError::TooManyNodes)
                &&& final(ids).issued() == old(ids).issued()
                &&& final(refs)@ == old(refs)@
            } else {
                &&& r matches Ok(e)
                &&& e@ == comprehension_of(kind, id, old(ids).issued(), range@, var, nodes_view(args@))
                &&& final(ids).issued() == nth_id(old(ids).issued(), fresh_needed(kind, args.len() as nat))
                &&& final(refs)@ == old(refs)@.insert(
                    id,
                    ReferenceView::Macro(MacroCallView { id, kind, args: nodes_view(args@) }),
                )
            },
            _ => {
                &&& r == Err::<IdedExpr, ParseError>(ParseError::MacroBindingError { name: kind })
                &&& final(ids).issued() == old(ids).issued()
                &&& final(refs)@ == old(refs)@
            },
        },
{
    proof {
        reveal(node_view);
        reveal(expr_view);
        reveal(children_view);
        reveal(nodes_view);
    }
    let ghost written = nodes_view(args@);
    proof {
        lemma_nodes_view_index(args@);
    }
    let mut args = args;
    let last = args.pop().unwrap();
    let middle = if args.len() == 2 {
        Some(args.pop().unwrap())
    } else {
        None
    };
    let first = args.pop().unwrap();
    let IdedExpr { id: var_id, expr: binding } = first;
    match binding {
        Expr::Ident(var) => {
            let needed: u64 = match kind {
                MacroKind::All => 5,
                MacroKind::Exists => 6,
                MacroKind::ExistsOne => 10,
                MacroKind::MapEach => if middle.is_none() {
                    6
                } else {
                    8
                },
                _ => 8,
            };
            if ids.remaining() < needed {
                return Err(ParseError::TooManyNodes);
            }
            let bound = IdedExpr { id: var_id, expr: Expr::Ident(var.clone()) };
            let kept = match &middle {
                None => two_nodes(bound, last.clone()),
                Some(p) => three_nodes(bound, p.clone(), last.clone()),
            };
            assert(nodes_view(kept@) =~= written);
            assert(nodes_view(kept@) == written);
            refs.record_macro(MacroCall { id, kind, args: kept });
            let e = match kind {
                MacroKind::All => expand_all(id, ids, range, var, last),
                MacroKind::Exists => expand_exists(id, ids, range, var, last),
                MacroKind::ExistsOne => expand_exists_one(id, ids, range, var, last),
                MacroKind::MapEach => match middle {
                    None => expand_map(id, ids, range, var, last),
                    Some(p) => expand_filter_map(id, ids, range, var, p, last),
                },
                _ => {
                    let item = IdedExpr { id: var_id, expr: Expr::Ident(var.clone()) };
                    expand_filter_map(id, ids, range, var, last, item)
                },
            };
            Ok(e)
        },
        _ => Err(ParseError::MacroBindingError { name: kind }),
    }
}

/// Rewrites a node that was just built, if it is a call that names a
/// macro; see [`expansion`]. Where it fails, nothing has changed.
pub fn expand_macro(call: IdedExpr, ids: &mut IdAllocator, refs: &mut ExpressionReferences) -> (r: Result<
    IdedExpr,
    ParseError,
>)
    ensures
        match expansion(call@, old(ids).issued(), old(refs)@) {
            Ok((node, issued, table)) => {
                &&& r matches Ok(e)
                &&& e@ == node
                &&& final(ids).issued() == issued
                &&& final(refs)@ == table
            },
            Err(err) => {
                &&& r == Err::<IdedExpr, ParseError>(err)
                &&& final(ids).issued() == old(ids).issued()
                &&& final(refs)@ == old(refs)@
            },
        },
{
    proof {
        reveal(node_view);
        reveal(expr_view);
        reveal(children_view);
        reveal(nodes_view);
    }
    let IdedExpr { id, expr } = call;
    match expr {
        Expr::Call { target, function, args } => {
            let actual = args.len();
            proof {
                lemma_nodes_view_index(args@);
            }
            match target {
                None => {
                    if !is_name(&function, "has") {
                        return Ok(IdedExpr { id, expr: Expr::Call { target: None, function, args } });
                    }
                    if actual != 1 {
                        return Err(
                            ParseError::MacroArityError { name: MacroKind::Has, expected: 1, actual },
                        );
                    }
                    expand_has(id, args)
                },
                Some(range) => {
                    let kind = if is_name(&function, "all") {
                        MacroKind::All
                    } else if is_name(&function, "exists") {
                        MacroKind::Exists
                    } else if is_name(&function, "exists_one") {
                        MacroKind::ExistsOne
                    } else if is_name(&function, "map") {
                        MacroKind::MapEach
                    } else if is_name(&function, "filter") {
                        MacroKind::Filter
                    } else {
                        return Ok(
                            IdedExpr { id, expr: Expr::Call { target: Some(range), function, args } },
                        );
                    };
                    let fits = match kind {
                        MacroKind::MapEach => actual == 2 || actual == 3,
                        _ => actual == 2,
                    };
                    if !fits {
                        let expected: usize = match kind {
                            MacroKind::MapEach => if actual < 2 {
                                2
                            } else {
                                3
                            },
                            _ => 2,
                        };
                        return Err(ParseError::MacroArityError { name: kind, expected, actual });
                    }
                    expand_loop(kind, id, *range, args, ids, refs)
                },
            }
        },
        other => Ok(IdedExpr { id, expr: other }),
    }
}

} // verus!
