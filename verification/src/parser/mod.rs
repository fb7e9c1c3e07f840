use crate::lang::{CoreIndex, GrammarId, PrismEnv, Span};
use vstd::prelude::*;

pub mod named_env;
pub mod parse_env;
pub mod parse_expr;
pub mod parsed_to_checked;

verus! {

/// An index into the arena of parsed expressions.
#[derive(Copy, Clone, Hash, Eq, PartialEq, Structural, Debug)]
pub struct ParsedIndex(pub usize);

/// A value that a grammar captured: an expression, or a name.
#[derive(Debug)]
pub enum ParsedValue {
    Expr(ParsedIndex),
    Name(String),
}

/// An expression as the parser produced it, with names still to be resolved.
#[derive(Debug)]
pub enum ParsedPrismExpr {
    // Real expressions
    Free,
    Type,
    Let(String, ParsedIndex, ParsedIndex),
    FnType(String, ParsedIndex, ParsedIndex),
    FnConstruct(String, ParsedIndex),
    FnDestruct(ParsedIndex, ParsedIndex),
    TypeAssert(ParsedIndex, ParsedIndex),
    // Temporary expressions after parsing
    Name(String),
    /// An expression written in the grammar `grammar`, evaluated in the scope that was
    /// current where that grammar was defined, with the captured values in scope.
    ShiftTo {
        expr: ParsedIndex,
        captured_env: Vec<(String, ParsedValue)>,
        adapt_env_len: usize,
        grammar: GrammarId,
    },
    GrammarValue(GrammarId),
    GrammarType,
    Include(String, CoreIndex),
}

impl PrismEnv {
    /// The parsed arena and its spans have one entry per value.
    pub open spec fn parsed_wf(&self) -> bool {
        self.parsed_values@.len() == self.parsed_spans@.len()
    }

    /// Stores a parsed expression with the span it was parsed from, and returns its index.
    pub fn store_from_source(&mut self, e: ParsedPrismExpr, span: Span) -> (r: ParsedIndex)
        requires
            old(self).parsed_wf(),
        ensures
            final(self).parsed_wf(),
            final(self).parsed_values@ == old(self).parsed_values@.push(e),
            final(self).parsed_spans@ == old(self).parsed_spans@.push(span),
            final(self).checked_values == old(self).checked_values,
            final(self).checked_origins == old(self).checked_origins,
            final(self).errors == old(self).errors,
            r.0 == old(self).parsed_values@.len(),
    {
        self.parsed_values.push(e);
        self.parsed_spans.push(span);
        ParsedIndex(self.parsed_values.len() - 1)
    }
}

} // verus!
