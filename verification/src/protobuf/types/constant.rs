//! The kinds of a wire-level constant.
use vstd::prelude::*;

verus! {

/// `prost_types::Duration`, carried through and never looked into.
#[verifier::external_type_specification]
#[verifier::external_body]
pub struct ExDuration(prost_types::Duration);

/// `prost_types::Timestamp`, carried through and never looked into.
#[verifier::external_type_specification]
#[verifier::external_body]
pub struct ExTimestamp(prost_types::Timestamp);

/// The populated kind of a [`Constant`](super::Constant).
///
/// A double is held as its IEEE 754 binary64 bit pattern. The last two kinds
/// are legacy ones: they are accepted on the wire and never produced.
#[derive(Debug, PartialEq)]
pub enum ConstantKind {
    NullValue(i32),
    BoolValue(bool),
    Int64Value(i64),
    Uint64Value(u64),
    DoubleValue(u64),
    StringValue(String),
    BytesValue(Vec<u8>),
    DurationValue(prost_types::Duration),
    TimestampValue(prost_types::Timestamp),
}

} // verus!
