//! Conversion between the expression tree and its interchange form.
//!
//! Only identifier and literal nodes have an interchange form here; every
//! other node shape is refused in both directions.
use vstd::prelude::*;
use vstd::std_specs::convert::{FromSpecImpl, TryFromSpecImpl};
use crate::ast::{Expr as AstExpr, IdedExpr};
use crate::reference::Val;
use crate::text::{decimal_string, decimal_text};

pub mod types;

pub use types::{constant, expr, Constant, Expr, ParsedExpr, SourceInfo};

verus! {

/// Why a conversion failed.
#[derive(Debug, PartialEq)]
pub enum ConversionError {
    /// The interchange value lacks the named field.
    MissingField { field: String },
    /// The node shape has no counterpart on the other side.
    InvalidExpressionKind,
    /// The constant is of a legacy kind.
    InvalidConstantKind,
    /// The identifier is negative; the text is its decimal form.
    InvalidId(String),
}

/// The model of a [`ConversionError`].
pub enum ConversionErrorView {
    MissingField { field: Seq<char> },
    InvalidExpressionKind,
    InvalidConstantKind,
    InvalidId(Seq<char>),
}

impl View for ConversionError {
    type V = ConversionErrorView;

    open spec fn view(&self) -> ConversionErrorView {
        match *self {
            ConversionError::MissingField { field } => ConversionErrorView::MissingField {
                field: field@,
            },
            ConversionError::InvalidExpressionKind => ConversionErrorView::InvalidExpressionKind,
            ConversionError::InvalidConstantKind => ConversionErrorView::InvalidConstantKind,
            ConversionError::InvalidId(id) => ConversionErrorView::InvalidId(id@),
        }
    }
}

impl Clone for ConversionError {
    fn clone(&self) -> (r: Self)
        ensures
            r@ == self@,
    {
        match self {
            ConversionError::MissingField { field } => ConversionError::MissingField {
                field: field.clone(),
            },
            ConversionError::InvalidExpressionKind => ConversionError::InvalidExpressionKind,
            ConversionError::InvalidConstantKind => ConversionError::InvalidConstantKind,
            ConversionError::InvalidId(id) => ConversionError::InvalidId(id.clone()),
        }
    }
}

impl ConversionError {
    /// The text of the message for an error.
    pub open spec fn spec_message(e: ConversionErrorView) -> Seq<char> {
        match e {
            ConversionErrorView::MissingField { field } => "Missing required field: "@ + field,
            ConversionErrorView::InvalidExpressionKind => "Invalid expression kind"@,
            ConversionErrorView::InvalidConstantKind => "Invalid constant kind"@,
            ConversionErrorView::InvalidId(id) => "Invalid ID: "@ + id,
        }
    }

    /// The message that describes this error.
    pub fn message(&self) -> (r: String)
        ensures
            r@ == Self::spec_message(self@),
    {
        match self {
            ConversionError::MissingField { field } => {
                String::from_str("Missing required field: ").concat(field.as_str())
            },
            ConversionError::InvalidExpressionKind => String::from_str("Invalid expression kind"),
            ConversionError::InvalidConstantKind => String::from_str("Invalid constant kind"),
            ConversionError::InvalidId(id) => String::from_str("Invalid ID: ").concat(id.as_str()),
        }
    }
}

/// The constant that stands for a value.
pub open spec fn constant_of(val: Val) -> Constant {
    Constant {
        constant_kind: Some(
            match val {
                Val::Null => constant::ConstantKind::NullValue(0),
                Val::Boolean(b) => constant::ConstantKind::BoolValue(b),
                Val::Int(i) => constant::ConstantKind::Int64Value(i),
                Val::UInt(u) => constant::ConstantKind::Uint64Value(u),
                Val::Double(bits) => constant::ConstantKind::DoubleValue(bits),
                Val::String(s) => constant::ConstantKind::StringValue(s),
                Val::Bytes(b) => constant::ConstantKind::BytesValue(b),
            },
        ),
    }
}

/// The value that a constant stands for, or why it stands for none.
pub open spec fn val_of(constant: Constant) -> Result<Val, ConversionErrorView> {
    match constant.constant_kind {
        None => Err(ConversionErrorView::MissingField { field: "constant_kind"@ }),
        Some(constant::ConstantKind::NullValue(_)) => Ok(Val::Null),
        Some(constant::ConstantKind::BoolValue(b)) => Ok(Val::Boolean(b)),
        Some(constant::ConstantKind::Int64Value(i)) => Ok(Val::Int(i)),
        Some(constant::ConstantKind::Uint64Value(u)) => Ok(Val::UInt(u)),
        Some(constant::ConstantKind::DoubleValue(bits)) => Ok(Val::Double(bits)),
        Some(constant::ConstantKind::StringValue(s)) => Ok(Val::String(s)),
        Some(constant::ConstantKind::BytesValue(b)) => Ok(Val::Bytes(b)),
        Some(constant::ConstantKind::DurationValue(_)) => Err(
            ConversionErrorView::InvalidConstantKind,
        ),
        Some(constant::ConstantKind::TimestampValue(_)) => Err(
            ConversionErrorView::InvalidConstantKind,
        ),
    }
}

/// Whether an outcome is the one that the model gives: the same value, or an
/// error with the same model.
pub open spec fn agrees<T>(r: Result<T, ConversionError>, model: Result<T, ConversionErrorView>) -> bool {
    match r {
        Ok(v) => model == Ok::<T, ConversionErrorView>(v),
        Err(e) => model == Err::<T, ConversionErrorView>(e@),
    }
}

impl From<Val> for Constant {
    /// Every value has a constant.
    fn from(val: Val) -> (c: Constant) {
        let constant_kind = match val {
            Val::Null => Some(constant::ConstantKind::NullValue(0)),
            Val::Boolean(b) => Some(constant::ConstantKind::BoolValue(b)),
            Val::Int(i) => Some(constant::ConstantKind::Int64Value(i)),
            Val::UInt(i) => Some(constant::ConstantKind::Uint64Value(i)),
            Val::Double(d) => Some(constant::ConstantKind::DoubleValue(d)),
            Val::String(s) => Some(constant::ConstantKind::StringValue(s)),
            Val::Bytes(b) => Some(constant::ConstantKind::BytesValue(b)),
        };
        Constant { constant_kind }
    }
}

impl FromSpecImpl<Val> for Constant {
    open spec fn obeys_from_spec() -> bool {
        true
    }

    open spec fn from_spec(val: Val) -> Constant {
        constant_of(val)
    }
}

impl TryFrom<Constant> for Val {
    type Error = ConversionError;

    /// The value of a constant; a constant without a kind, or of a legacy
    /// kind, has none.
    fn try_from(constant: Constant) -> (r: Result<Val, ConversionError>)
        ensures
            agrees(r, val_of(constant)),
    {
        match constant.constant_kind {
            None => Err(ConversionError::MissingField { field: String::from_str("constant_kind") }),
            Some(constant::ConstantKind::NullValue(_)) => Ok(Val::Null),
            Some(constant::ConstantKind::BoolValue(b)) => Ok(Val::Boolean(b)),
            Some(constant::ConstantKind::Int64Value(i)) => Ok(Val::Int(i)),
            Some(constant::ConstantKind::Uint64Value(u)) => Ok(Val::UInt(u)),
            Some(constant::ConstantKind::DoubleValue(d)) => Ok(Val::Double(d)),
            Some(constant::ConstantKind::StringValue(s)) => Ok(Val::String(s)),
            Some(constant::ConstantKind::BytesValue(b)) => Ok(Val::Bytes(b)),
            Some(constant::ConstantKind::DurationValue(_)) => Err(
                ConversionError::InvalidConstantKind,
            ),
            Some(constant::ConstantKind::TimestampValue(_)) => Err(
                ConversionError::InvalidConstantKind,
            ),
        }
    }
}

impl TryFromSpecImpl<Constant> for Val {
    /// An error's text is a string known only by its model, so the outcome is
    /// stated by `try_from` itself, over [`val_of`].
    open spec fn obeys_try_from_spec() -> bool {
        false
    }

    open spec fn try_from_spec(constant: Constant) -> Result<Val, ConversionError> {
        match val_of(constant) {
            Ok(v) => Ok(v),
            Err(e) => Err(choose|err: ConversionError| err@ == e),
        }
    }
}

/// A value that is turned into a constant and back is the value itself.
pub proof fn lemma_constant_round_trip(val: Val)
    ensures
        val_of(constant_of(val)) == Ok::<Val, ConversionErrorView>(val),
{
}

/// The interchange kind of an expression: identifiers and literals have
/// one, the other node shapes have none.
pub open spec fn expr_kind_of(e: AstExpr) -> Result<expr::ExprKind, ConversionErrorView> {
    match e {
        AstExpr::Ident(name) => Ok(expr::ExprKind::IdentExpr(expr::Ident { name })),
        AstExpr::Literal(val) => Ok(expr::ExprKind::ConstExpr(constant_of(val))),
        _ => Err(ConversionErrorView::InvalidExpressionKind),
    }
}

/// The expression that an interchange kind stands for, or why it stands for
/// none.
pub open spec fn ast_expr_of(kind: expr::ExprKind) -> Result<AstExpr, ConversionErrorView> {
    match kind {
        expr::ExprKind::IdentExpr(ident) => Ok(AstExpr::Ident(ident.name)),
        expr::ExprKind::ConstExpr(constant) => match val_of(constant) {
            Ok(val) => Ok(AstExpr::Literal(val)),
            Err(e) => Err(e),
        },
        _ => Err(ConversionErrorView::InvalidExpressionKind),
    }
}

/// The signed identifier that carries the same 64 bits as `id`.
pub open spec fn wire_id(id: u64) -> i64 {
    if id <= i64::MAX {
        id as i64
    } else {
        (id - 0x1_0000_0000_0000_0000) as i64
    }
}

/// The interchange form of a node.
pub open spec fn wire_expr_of(node: IdedExpr) -> Result<Expr, ConversionErrorView> {
    match expr_kind_of(node.expr) {
        Ok(kind) => Ok(Expr { id: wire_id(node.id), expr_kind: Some(kind) }),
        Err(e) => Err(e),
    }
}

/// The node that an interchange expression stands for, or why it stands for
/// none: its kind is looked at first, its identifier last.
pub open spec fn ided_expr_of(e: Expr) -> Result<IdedExpr, ConversionErrorView> {
    match e.expr_kind {
        None => Err(ConversionErrorView::MissingField { field: "expr_kind"@ }),
        Some(kind) => match ast_expr_of(kind) {
            Err(err) => Err(err),
            Ok(expr) => if e.id < 0 {
                Err(ConversionErrorView::InvalidId(decimal_text(e.id as int)))
            } else {
                Ok(IdedExpr { id: e.id as u64, expr })
            },
        },
    }
}

impl TryFrom<AstExpr> for expr::ExprKind {
    type Error = ConversionError;

    /// The interchange kind of an identifier or a literal; any other node
    /// shape is an `InvalidExpressionKind`.
    fn try_from(e: AstExpr) -> (r: Result<expr::ExprKind, ConversionError>)
        ensures
            agrees(r, expr_kind_of(e)),
    {
        match e {
            AstExpr::Ident(name) => Ok(expr::ExprKind::IdentExpr(expr::Ident { name })),
            AstExpr::Literal(val) => Ok(expr::ExprKind::ConstExpr(Constant::from(val))),
            _ => Err(ConversionError::InvalidExpressionKind),
        }
    }
}

impl TryFromSpecImpl<AstExpr> for expr::ExprKind {
    open spec fn obeys_try_from_spec() -> bool {
        true
    }

    open spec fn try_from_spec(e: AstExpr) -> Result<expr::ExprKind, ConversionError> {
        match expr_kind_of(e) {
            Ok(kind) => Ok(kind),
            Err(_) => Err(ConversionError::InvalidExpressionKind),
        }
    }
}

impl TryFrom<expr::ExprKind> for AstExpr {
    type Error = ConversionError;

    /// The expression of an identifier or constant kind; any other kind is
    /// an `InvalidExpressionKind`, and a constant without a value gives the
    /// constant's own error.
    fn try_from(kind: expr::ExprKind) -> (r: Result<AstExpr, ConversionError>)
        ensures
            agrees(r, ast_expr_of(kind)),
    {
        match kind {
            expr::ExprKind::IdentExpr(ident) => Ok(AstExpr::Ident(ident.name)),
            expr::ExprKind::ConstExpr(constant) => match Val::try_from(constant) {
                Ok(val) => Ok(AstExpr::Literal(val)),
                Err(e) => Err(e),
            },
            _ => Err(ConversionError::InvalidExpressionKind),
        }
    }
}

impl TryFromSpecImpl<expr::ExprKind> for AstExpr {
    /// As for constants, the outcome is stated by `try_from` itself, over
    /// [`ast_expr_of`].
    open spec fn obeys_try_from_spec() -> bool {
        false
    }

    open spec fn try_from_spec(kind: expr::ExprKind) -> Result<AstExpr, ConversionError> {
        match ast_expr_of(kind) {
            Ok(e) => Ok(e),
            Err(e) => Err(choose|err: ConversionError| err@ == e),
        }
    }
}

fn wire_id_of(id: u64) -> (r: i64)
    ensures
        r == wire_id(id),
{
    if id <= 0x7fff_ffff_ffff_ffff {
        id as i64
    } else {
        ((id - 0x8000_0000_0000_0000) as i64) + i64::MIN
    }
}

impl TryFrom<IdedExpr> for Expr {
    type Error = ConversionError;

    /// The interchange form of an identifier or literal node. The identifier
    /// keeps its 64 bits, so one above `i64::MAX` comes out negative.
    fn try_from(node: IdedExpr) -> (r: Result<Expr, ConversionError>)
        ensures
            agrees(r, wire_expr_of(node)),
    {
        let id = wire_id_of(node.id);
        match expr::ExprKind::try_from(node.expr) {
            Ok(kind) => Ok(Expr { id, expr_kind: Some(kind) }),
            Err(e) => Err(e),
        }
    }
}

impl TryFromSpecImpl<IdedExpr> for Expr {
    open spec fn obeys_try_from_spec() -> bool {
        true
    }

    open spec fn try_from_spec(node: IdedExpr) -> Result<Expr, ConversionError> {
        match wire_expr_of(node) {
            Ok(e) => Ok(e),
            Err(_) => Err(ConversionError::InvalidExpressionKind),
        }
    }
}

impl TryFrom<Expr> for IdedExpr {
    type Error = ConversionError;

    /// The node of an interchange expression: `MissingField` without a kind,
    /// the kind's own error where it has no expression, and `InvalidId` with
    /// the identifier's decimal form where the identifier is negative.
    fn try_from(e: Expr) -> (r: Result<IdedExpr, ConversionError>)
        ensures
            agrees(r, ided_expr_of(e)),
    {
        let kind = match e.expr_kind {
            Some(kind) => kind,
            None => {
                return Err(ConversionError::MissingField { field: String::from_str("expr_kind") });
            },
        };
        let expr = match AstExpr::try_from(kind) {
            Ok(expr) => expr,
            Err(err) => {
                return Err(err);
            },
        };
        if e.id < 0 {
            return Err(ConversionError::InvalidId(decimal_string(e.id)));
        }
        Ok(IdedExpr { id: e.id as u64, expr })
    }
}

impl TryFromSpecImpl<Expr> for IdedExpr {
    /// As for constants, the outcome is stated by `try_from` itself, over
    /// [`ided_expr_of`].
    open spec fn obeys_try_from_spec() -> bool {
        false
    }

    open spec fn try_from_spec(e: Expr) -> Result<IdedExpr, ConversionError> {
        match ided_expr_of(e) {
            Ok(node) => Ok(node),
            Err(e) => Err(choose|err: ConversionError| err@ == e),
        }
    }
}

/// An expression that has an interchange kind is what that kind stands for.
pub proof fn lemma_expr_round_trip(e: AstExpr)
    ensures
        expr_kind_of(e) matches Ok(kind) ==> ast_expr_of(kind) == Ok::<AstExpr, ConversionErrorView>(e),
{
}

/// A node that has an interchange form, and whose identifier fits the signed
/// range, is what that form stands for.
pub proof fn lemma_node_round_trip(node: IdedExpr)
    requires
        node.id <= i64::MAX,
    ensures
        wire_expr_of(node) matches Ok(e) ==> ided_expr_of(e) == Ok::<IdedExpr, ConversionErrorView>(node),
{
}

/// An expression without a kind, and a constant without one, stand for
/// nothing: the field that is missing is named.
pub proof fn lemma_missing_kind_rejected(id: i64)
    ensures
        ided_expr_of(Expr { id, expr_kind: None }) == Err::<IdedExpr, ConversionErrorView>(
            ConversionErrorView::MissingField { field: "expr_kind"@ },
        ),
        val_of(Constant { constant_kind: None }) == Err::<Val, ConversionErrorView>(
            ConversionErrorView::MissingField { field: "constant_kind"@ },
        ),
{
}

/// A constant of a legacy kind stands for no value.
pub proof fn lemma_legacy_kinds_rejected(constant: Constant)
    requires
        constant.constant_kind matches Some(kind) && (kind is DurationValue || kind is TimestampValue),
    ensures
        val_of(constant) == Err::<Val, ConversionErrorView>(ConversionErrorView::InvalidConstantKind),
{
}

} // verus!
