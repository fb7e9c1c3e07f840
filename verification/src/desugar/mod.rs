use crate::lang::Span;
use vstd::prelude::*;

pub mod display;
pub mod from_action_result;

verus! {

/// The arena of source expressions, with the span each was parsed from.
pub struct ParseEnv {
    values: Vec<SourceExpr>,
    value_spans: Vec<Span>,
}

/// An index into the arena of source expressions.
#[derive(Copy, Clone, Hash, Eq, PartialEq, Structural, Debug)]
pub struct ParseIndex(usize);

impl ParseIndex {
    /// The position in the arena.
    pub closed spec fn pos(self) -> usize {
        self.0
    }

    /// The position in the arena.
    pub fn index(self) -> (r: usize)
        ensures
            r == self.pos(),
    {
        self.0
    }
}

/// An expression as it was written, with named variables.
#[derive(Debug)]
pub enum SourceExpr {
    Type,
    Let(String, ParseIndex, ParseIndex),
    Variable(String),
    FnType(String, ParseIndex, ParseIndex),
    FnConstruct(String, ParseIndex, ParseIndex),
    FnDestruct(ParseIndex, ParseIndex),
    ScopeDefine(ParseIndex, Guid),
    ScopeEnter(ParseIndex, Guid),
    ScopeExit(ParseIndex),
}

/// The identity of a scope that a grammar defines.
#[derive(Default, Clone, Copy, Eq, PartialEq, Structural, Ord, PartialOrd, Debug)]
pub struct Guid(pub usize);

impl ParseEnv {
    /// The source expressions, in the order they were stored.
    pub closed spec fn spec_values(&self) -> Seq<SourceExpr> {
        self.values@
    }

    /// The spans of the source expressions, in the order they were stored.
    pub closed spec fn spec_spans(&self) -> Seq<Span> {
        self.value_spans@
    }

    /// Each source expression has its span.
    pub closed spec fn wf(&self) -> bool {
        self.values@.len() == self.value_spans@.len()
    }

    /// A well-formed arena has a span for each source expression.
    pub proof fn lemma_wf_lengths(&self)
        requires
            self.wf(),
        ensures
            self.spec_values().len() == self.spec_spans().len(),
    {
    }

    /// An empty arena.
    pub fn new() -> (r: ParseEnv)
        ensures
            r.wf(),
            r.spec_values().len() == 0,
    {
        ParseEnv { values: Vec::new(), value_spans: Vec::new() }
    }

    /// Stores a source expression with its span, and returns its index.
    pub fn store(&mut self, e: SourceExpr, span: Span) -> (r: ParseIndex)
        requires
            old(self).wf(),
        ensures
            final(self).wf(),
            final(self).spec_values() == old(self).spec_values().push(e),
            final(self).spec_spans() == old(self).spec_spans().push(span),
            r.pos() == old(self).spec_values().len(),
    {
        self.values.push(e);
        self.value_spans.push(span);
        ParseIndex(self.values.len() - 1)
    }

    /// The source expressions.
    pub fn values(&self) -> (r: &[SourceExpr])
        ensures
            r@ == self.spec_values(),
    {
        self.values.as_slice()
    }

    /// The spans of the source expressions.
    pub fn value_spans(&self) -> (r: &[Span])
        ensures
            r@ == self.spec_spans(),
    {
        self.value_spans.as_slice()
    }
}

} // verus!
