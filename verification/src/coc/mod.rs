use vstd::prelude::*;

pub mod display;
pub mod env;
pub mod error;
pub mod from_action_result;
pub mod from_parse_env;

verus! {

/// An index into the arena of partial expressions.
#[derive(Copy, Clone, Hash, Eq, PartialEq, Structural, Debug)]
pub struct UnionIndex(pub usize);

/// An expression of the calculus of constructions in which parts may still be unknown.
#[derive(Copy, Clone, Eq, PartialEq, Structural, Debug)]
pub enum PartialExpr {
    Type,
    Let(UnionIndex, UnionIndex),
    Var(usize),
    FnType(UnionIndex, UnionIndex),
    FnConstruct(UnionIndex, UnionIndex),
    FnDestruct(UnionIndex, UnionIndex),
    Free,
    Shift(UnionIndex, usize),
}

} // verus!

verus! {

/// The arena of partial expressions, with the origin of each and the errors found.
pub struct TcEnv {
    pub values: Vec<PartialExpr>,
    pub value_origins: Vec<crate::lang::ValueOrigin>,
    pub errors: Vec<crate::lang::error::TypeError>,
}

impl TcEnv {
    /// An empty arena.
    pub fn new() -> (r: TcEnv)
        ensures
            r.values@.len() == 0,
            r.value_origins@.len() == 0,
            r.errors@.len() == 0,
    {
        TcEnv { values: Vec::new(), value_origins: Vec::new(), errors: Vec::new() }
    }
}

} // verus!
