//! The literal values that a constant node can hold.
use vstd::prelude::*;

verus! {

/// A literal value.
///
/// A double is held as its IEEE 754 binary64 bit pattern, so that values
/// compare and copy exactly (a NaN keeps its payload, and the two zeros stay
/// apart).
#[derive(Debug, PartialEq)]
pub enum Val {
    Null,
    Boolean(bool),
    Int(i64),
    UInt(u64),
    Double(u64),
    String(String),
    Bytes(Vec<u8>),
}

/// The mathematical model of a [`Val`].
pub enum ValView {
    Null,
    Boolean(bool),
    Int(i64),
    UInt(u64),
    Double(u64),
    String(Seq<char>),
    Bytes(Seq<u8>),
}

impl View for Val {
    type V = ValView;

    open spec fn view(&self) -> ValView {
        match *self {
            Val::Null => ValView::Null,
            Val::Boolean(b) => ValView::Boolean(b),
            Val::Int(i) => ValView::Int(i),
            Val::UInt(u) => ValView::UInt(u),
            Val::Double(bits) => ValView::Double(bits),
            Val::String(s) => ValView::String(s@),
            Val::Bytes(b) => ValView::Bytes(b@),
        }
    }
}

impl Clone for Val {
    fn clone(&self) -> (r: Self)
        ensures
            r@ == self@,
    {
        match self {
            Val::Null => Val::Null,
            Val::Boolean(b) => Val::Boolean(*b),
            Val::Int(i) => Val::Int(*i),
            Val::UInt(u) => Val::UInt(*u),
            Val::Double(bits) => Val::Double(*bits),
            Val::String(s) => Val::String(s.clone()),
            Val::Bytes(b) => {
                let mut out: Vec<u8> = Vec::new();
                let mut i: usize = 0;
                while i < b.len()
                    invariant
                        i <= b.len(),
                        out@ == b@.take(i as int),
                    decreases b.len() - i,
                {
                    out.push(b[i]);
                    i += 1;
                    assert(out@ =~= b@.take(i as int));
                }
                assert(b@.take(b.len() as int) =~= b@);
                Val::Bytes(out)
            },
        }
    }
}

} // verus!
