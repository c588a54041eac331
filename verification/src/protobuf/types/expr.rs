//! The kinds of a wire-level expression and their payloads.
use vstd::prelude::*;
use super::{Constant, Expr};

verus! {

/// The populated kind of an [`Expr`].
#[derive(Debug, PartialEq)]
pub enum ExprKind {
    ConstExpr(Constant),
    IdentExpr(Ident),
    SelectExpr(Box<Select>),
    CallExpr(Box<Call>),
    ListExpr(CreateList),
    StructExpr(CreateStruct),
    ComprehensionExpr(Box<Comprehension>),
}

/// `ident_expr`: a bare identifier.
#[derive(Debug, PartialEq)]
pub struct Ident {
    pub name: String,
}

/// `select_expr`: field access or presence test.
#[derive(Debug, PartialEq)]
pub struct Select {
    pub operand: Option<Box<Expr>>,
    pub field: String,
    pub test_only: bool,
}

/// `call_expr`: a free or method-style call.
#[derive(Debug, PartialEq)]
pub struct Call {
    pub target: Option<Box<Expr>>,
    pub function: String,
    pub args: Vec<Expr>,
}

/// `list_expr`: a list literal.
#[derive(Debug, PartialEq)]
pub struct CreateList {
    pub elements: Vec<Expr>,
}

/// `struct_expr`: a map or message literal.
#[derive(Debug, PartialEq)]
pub struct CreateStruct {
    pub message_name: String,
    pub entries: Vec<Entry>,
}

/// One entry of a [`CreateStruct`].
#[derive(Debug, PartialEq)]
pub struct Entry {
    pub id: i64,
    pub key_kind: Option<KeyKind>,
    pub value: Option<Expr>,
}

/// The key of an [`Entry`]: a field name or a map key.
#[derive(Debug, PartialEq)]
pub enum KeyKind {
    FieldKey(String),
    MapKey(Expr),
}

/// `comprehension_expr`: the looping construct.
#[derive(Debug, PartialEq)]
pub struct Comprehension {
    pub iter_var: String,
    pub iter_range: Option<Box<Expr>>,
    pub accu_var: String,
    pub accu_init: Option<Box<Expr>>,
    pub loop_condition: Option<Box<Expr>>,
    pub loop_step: Option<Box<Expr>>,
    pub result: Option<Box<Expr>>,
}

} // verus!
