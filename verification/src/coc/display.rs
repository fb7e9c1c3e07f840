use crate::coc::PartialExpr;
use vstd::prelude::*;

verus! {

/// How tightly a partial expression binds, loosest first.
#[derive(Ord, PartialOrd, Eq, PartialEq, Structural, Copy, Clone, Default, Debug)]
pub enum PrecedenceLevel {
    #[default]
    Let,
    Construct,
    Destruct,
    Base,
}

/// The precedence level of a partial expression.
pub open spec fn partial_level(e: PartialExpr) -> PrecedenceLevel {
    match e {
        PartialExpr::Let(_, _) => PrecedenceLevel::Let,
        PartialExpr::FnType(_, _) => PrecedenceLevel::Construct,
        PartialExpr::FnConstruct(_, _) => PrecedenceLevel::Construct,
        PartialExpr::FnDestruct(_, _) => PrecedenceLevel::Destruct,
        _ => PrecedenceLevel::Base,
    }
}

impl PartialExpr {
    /// The precedence level of the expression; a shift is never displayed.
    pub fn precendence_level(&self) -> (r: PrecedenceLevel)
        requires
            !(*self is Shift),
        ensures
            r == partial_level(*self),
    {
        match self {
            PartialExpr::Type => PrecedenceLevel::Base,
            PartialExpr::Let(_, _) => PrecedenceLevel::Let,
            PartialExpr::Var(_) => PrecedenceLevel::Base,
            PartialExpr::FnType(_, _) => PrecedenceLevel::Construct,
            PartialExpr::FnConstruct(_, _) => PrecedenceLevel::Construct,
            PartialExpr::FnDestruct(_, _) => PrecedenceLevel::Destruct,
            PartialExpr::Free => PrecedenceLevel::Base,
            PartialExpr::Shift(_, _) => PrecedenceLevel::Base,
        }
    }
}

} // verus!
