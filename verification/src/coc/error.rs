use crate::coc::UnionIndex;
use vstd::prelude::*;

verus! {

/// A type error of the calculus of constructions.
#[derive(Copy, Clone, Debug, PartialEq, Eq, Structural)]
pub enum TcError {
    ExpectEq(UnionIndex, UnionIndex),
    IndexOutOfBound(UnionIndex),
    InfiniteType(UnionIndex),
    BadInfer { free_var: UnionIndex, inferred_var: UnionIndex },
}

} // verus!
