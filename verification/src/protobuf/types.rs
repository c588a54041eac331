//! The messages of the interchange schema, as plain values.
use vstd::prelude::*;

pub mod constant;
pub mod expr;

verus! {

/// A wire-level expression: a signed id and, when populated, its kind.
#[derive(Debug, PartialEq)]
pub struct Expr {
    pub id: i64,
    pub expr_kind: Option<expr::ExprKind>,
}

/// A wire-level constant.
#[derive(Debug, PartialEq)]
pub struct Constant {
    pub constant_kind: Option<constant::ConstantKind>,
}

/// Where a parsed expression came from.
#[derive(Debug, PartialEq)]
pub struct SourceInfo {
    pub syntax_version: String,
    pub location: String,
    pub line_offsets: Vec<i32>,
}

/// A parsed expression with its source information.
#[derive(Debug, PartialEq)]
pub struct ParsedExpr {
    pub expr: Option<Expr>,
    pub source_info: Option<SourceInfo>,
}

} // verus!
