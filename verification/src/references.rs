//! The side table that is handed out with a tree: what is known of a node
//! beyond its shape, by the node's identifier.
use vstd::prelude::*;
use std::collections::HashMap;
use crate::ast::{nodes_view, IdedExpr, NodeView};
use crate::macros::MacroKind;

verus! {

/// What a macro call was before it was rewritten: the identifier of the
/// call, which macro it named, and its arguments as they were handed to the
/// rewriting (a macro call among them has been rewritten by then).
#[derive(Debug, PartialEq)]
pub struct MacroCall {
    pub id: u64,
    pub kind: MacroKind,
    pub args: Vec<IdedExpr>,
}

/// The model of a [`MacroCall`].
pub struct MacroCallView {
    pub id: u64,
    pub kind: MacroKind,
    pub args: Seq<NodeView>,
}

impl View for MacroCall {
    type V = MacroCallView;

    open spec fn view(&self) -> MacroCallView {
        MacroCallView { id: self.id, kind: self.kind, args: nodes_view(self.args@) }
    }
}

impl MacroCall {
    /// The name that the macro was called by.
    pub fn name(&self) -> (s: &'static str)
        ensures
            s@ == self.kind.spec_name(),
    {
        self.kind.name()
    }
}

/// What the table holds for one node.
#[derive(Debug, PartialEq)]
pub enum Reference {
    /// The node stands where a macro call stood.
    Macro(MacroCall),
    /// A slot kept for a later pass to fill; parsing makes none.
    Reserved,
}

/// The model of a [`Reference`].
pub enum ReferenceView {
    Macro(MacroCallView),
    Reserved,
}

impl View for Reference {
    type V = ReferenceView;

    open spec fn view(&self) -> ReferenceView {
        match *self {
            Reference::Macro(call) => ReferenceView::Macro(call@),
            Reference::Reserved => ReferenceView::Reserved,
        }
    }
}

/// The table: at most one entry per node identifier.
pub struct ExpressionReferences {
    entries: HashMap<u64, Reference>,
}

impl View for ExpressionReferences {
    type V = Map<u64, ReferenceView>;

    closed spec fn view(&self) -> Map<u64, ReferenceView> {
        Map::new(|id: u64| self.entries@.contains_key(id), |id: u64| self.entries@[id]@)
    }
}

impl ExpressionReferences {
    /// A table without entries.
    pub fn new() -> (t: Self)
        ensures
            t@ == Map::<u64, ReferenceView>::empty(),
    {
        let t = ExpressionReferences { entries: HashMap::new() };
        assert(t@ =~= Map::<u64, ReferenceView>::empty());
        t
    }

    /// Records a macro call under its identifier, in place of what was
    /// there.
    pub fn record_macro(&mut self, call: MacroCall)
        ensures
            final(self)@ == old(self)@.insert(call.id, ReferenceView::Macro(call@)),
    {
        let ghost id = call.id;
        let ghost entry = Reference::Macro(call);
        self.entries.insert(call.id, Reference::Macro(call));
        assert(self@ =~= old(self)@.insert(id, entry@));
    }

    /// Keeps a slot for `id`, unless the table has an entry for it already.
    /// Returns whether the slot was made.
    pub fn reserve(&mut self, id: u64) -> (made: bool)
        ensures
            made == !old(self)@.contains_key(id),
            made ==> final(self)@ == old(self)@.insert(id, ReferenceView::Reserved),
            !made ==> final(self)@ == old(self)@,
    {
        if self.entries.contains_key(&id) {
            false
        } else {
            self.entries.insert(id, Reference::Reserved);
            assert(self@ =~= old(self)@.insert(id, ReferenceView::Reserved));
            true
        }
    }

    /// Whether the table has an entry for `id`.
    pub fn contains(&self, id: u64) -> (b: bool)
        ensures
            b == self@.contains_key(id),
    {
        self.entries.contains_key(&id)
    }

    /// The entry for `id`, if there is one.
    pub fn get(&self, id: u64) -> (r: Option<&Reference>)
        ensures
            match r {
                Some(entry) => self@.contains_key(id) && self@[id] == entry@,
                None => !self@.contains_key(id),
            },
    {
        self.entries.get(&id)
    }

    /// The macro call that the node `id` stands for, if it stands for one.
    pub fn macro_call(&self, id: u64) -> (r: Option<&MacroCall>)
        ensures
            match r {
                Some(call) => self@.contains_key(id) && self@[id] == ReferenceView::Macro(call@),
                None => !self@.contains_key(id) || self@[id] is Reserved,
            },
    {
        match self.entries.get(&id) {
            Some(Reference::Macro(call)) => Some(call),
            _ => None,
        }
    }

    /// The number of entries.
    pub fn len(&self) -> (n: usize)
        ensures
            n == self@.dom().len(),
    {
        assert(self@.dom() =~= self.entries@.dom());
        self.entries.len()
    }
}

} // verus!
