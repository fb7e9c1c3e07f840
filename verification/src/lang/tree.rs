use crate::lang::{CoreIndex, CorePrismExpr, GrammarId};
use vstd::prelude::*;

verus! {

/// A core expression as a tree, read back from the arena.
pub enum CTree {
    /// A child that does not stand below its parent in the arena.
    Bad,
    Free,
    Type,
    Let(Box<CTree>, Box<CTree>),
    DeBruijnIndex(usize),
    FnType(Box<CTree>, Box<CTree>),
    FnConstruct(Box<CTree>),
    FnDestruct(Box<CTree>, Box<CTree>),
    Shift(Box<CTree>, usize),
    TypeAssert(Box<CTree>, Box<CTree>),
    GrammarValue(GrammarId),
    GrammarType,
}

/// The tree at `i`, following only children stored before their parent.
pub open spec fn read_back(values: Seq<CorePrismExpr>, i: int) -> CTree
    decreases i,
{
    if i < 0 || i >= values.len() {
        CTree::Bad
    } else {
        match values[i] {
            CorePrismExpr::Free => CTree::Free,
            CorePrismExpr::Type => CTree::Type,
            CorePrismExpr::Let(a, b) => if a.0 < i && b.0 < i {
                CTree::Let(
                    Box::new(read_back(values, a.0 as int)),
                    Box::new(read_back(values, b.0 as int)),
                )
            } else {
                CTree::Bad
            },
            CorePrismExpr::DeBruijnIndex(n) => CTree::DeBruijnIndex(n),
            CorePrismExpr::FnType(a, b) => if a.0 < i && b.0 < i {
                CTree::FnType(
                    Box::new(read_back(values, a.0 as int)),
                    Box::new(read_back(values, b.0 as int)),
                )
            } else {
                CTree::Bad
            },
            CorePrismExpr::FnConstruct(b) => if b.0 < i {
                CTree::FnConstruct(Box::new(read_back(values, b.0 as int)))
            } else {
                CTree::Bad
            },
            CorePrismExpr::FnDestruct(a, b) => if a.0 < i && b.0 < i {
                CTree::FnDestruct(
                    Box::new(read_back(values, a.0 as int)),
                    Box::new(read_back(values, b.0 as int)),
                )
            } else {
                CTree::Bad
            },
            CorePrismExpr::Shift(a, n) => if a.0 < i {
                CTree::Shift(Box::new(read_back(values, a.0 as int)), n)
            } else {
                CTree::Bad
            },
            CorePrismExpr::TypeAssert(a, b) => if a.0 < i && b.0 < i {
                CTree::TypeAssert(
                    Box::new(read_back(values, a.0 as int)),
                    Box::new(read_back(values, b.0 as int)),
                )
            } else {
                CTree::Bad
            },
            CorePrismExpr::GrammarValue(g) => CTree::GrammarValue(g),
            CorePrismExpr::GrammarType => CTree::GrammarType,
        }
    }
}

/// `small` is the start of `big`: the arena has only grown.
pub open spec fn is_prefix<A>(small: Seq<A>, big: Seq<A>) -> bool {
    small.len() <= big.len() && big.subrange(0, small.len() as int) == small
}

/// Growing the arena does not change the trees already in it.
pub proof fn lemma_read_back_prefix(small: Seq<CorePrismExpr>, big: Seq<CorePrismExpr>, i: int)
    requires
        is_prefix(small, big),
        0 <= i < small.len(),
    ensures
        read_back(big, i) == read_back(small, i),
    decreases i,
{
    assert(big[i] == small[i]);
    match small[i] {
        CorePrismExpr::Let(a, b) | CorePrismExpr::FnType(a, b) | CorePrismExpr::FnDestruct(a, b)
        | CorePrismExpr::TypeAssert(a, b) => {
            if a.0 < i && b.0 < i {
                lemma_read_back_prefix(small, big, a.0 as int);
                lemma_read_back_prefix(small, big, b.0 as int);
            }
        },
        CorePrismExpr::FnConstruct(a) | CorePrismExpr::Shift(a, _) => {
            if a.0 < i {
                lemma_read_back_prefix(small, big, a.0 as int);
            }
        },
        _ => {},
    }
}

/// Prefixes compose.
pub proof fn lemma_prefix_trans<A>(a: Seq<A>, b: Seq<A>, c: Seq<A>)
    requires
        is_prefix(a, b),
        is_prefix(b, c),
    ensures
        is_prefix(a, c),
{
    assert(c.subrange(0, a.len() as int) =~= b.subrange(0, a.len() as int));
}

} // verus!

verus! {

/// The tree has no child out of place.
pub open spec fn good(t: CTree) -> bool
    decreases t,
{
    match t {
        CTree::Bad => false,
        CTree::Let(a, b) => good(*a) && good(*b),
        CTree::FnType(a, b) => good(*a) && good(*b),
        CTree::FnDestruct(a, b) => good(*a) && good(*b),
        CTree::TypeAssert(a, b) => good(*a) && good(*b),
        CTree::FnConstruct(a) => good(*a),
        CTree::Shift(a, _) => good(*a),
        _ => true,
    }
}

} // verus!

verus! {

/// The tree has no free value and no child out of place.
pub open spec fn no_holes(t: CTree) -> bool
    decreases t,
{
    match t {
        CTree::Bad => false,
        CTree::Free => false,
        CTree::Let(a, b) => no_holes(*a) && no_holes(*b),
        CTree::FnType(a, b) => no_holes(*a) && no_holes(*b),
        CTree::FnConstruct(b) => no_holes(*b),
        CTree::FnDestruct(a, b) => no_holes(*a) && no_holes(*b),
        CTree::Shift(a, _) => no_holes(*a),
        CTree::TypeAssert(a, b) => no_holes(*a) && no_holes(*b),
        _ => true,
    }
}

/// Filling in free values, and adding values, does not change a tree without free values.
pub proof fn lemma_read_back_filled(small: Seq<CorePrismExpr>, big: Seq<CorePrismExpr>, i: int)
    requires
        small.len() <= big.len(),
        forall|j: int|
            0 <= j < small.len() && small[j] != CorePrismExpr::Free ==> #[trigger] big[j] == small[j],
        no_holes(read_back(small, i)),
    ensures
        read_back(big, i) == read_back(small, i),
    decreases i,
{
    assert(big[i] == small[i]);
    match small[i] {
        CorePrismExpr::Let(a, b) | CorePrismExpr::FnType(a, b) | CorePrismExpr::FnDestruct(a, b)
        | CorePrismExpr::TypeAssert(a, b) => {
            lemma_read_back_filled(small, big, a.0 as int);
            lemma_read_back_filled(small, big, b.0 as int);
        },
        CorePrismExpr::FnConstruct(a) | CorePrismExpr::Shift(a, _) => {
            lemma_read_back_filled(small, big, a.0 as int);
        },
        _ => {},
    }
}

/// No shift is left in the tree.
pub open spec fn shift_free(t: CTree) -> bool
    decreases t,
{
    match t {
        CTree::Shift(..) => false,
        CTree::Let(a, b) => shift_free(*a) && shift_free(*b),
        CTree::FnType(a, b) => shift_free(*a) && shift_free(*b),
        CTree::FnConstruct(b) => shift_free(*b),
        CTree::FnDestruct(a, b) => shift_free(*a) && shift_free(*b),
        CTree::TypeAssert(a, b) => shift_free(*a) && shift_free(*b),
        _ => true,
    }
}

/// No `let`, shift or type assertion is left in the tree: it is made of types, variables,
/// functions, applications, free values and grammars.
pub open spec fn reduced_shape(t: CTree) -> bool
    decreases t,
{
    match t {
        CTree::Let(..) => false,
        CTree::Shift(..) => false,
        CTree::TypeAssert(..) => false,
        CTree::FnType(a, b) => reduced_shape(*a) && reduced_shape(*b),
        CTree::FnConstruct(b) => reduced_shape(*b),
        CTree::FnDestruct(a, b) => reduced_shape(*a) && reduced_shape(*b),
        _ => true,
    }
}

/// Every variable of `t` lies under more binders than its index, counting `n` binders
/// around `t`.
pub open spec fn scoped(t: CTree, n: nat) -> bool
    decreases t,
{
    match t {
        CTree::DeBruijnIndex(k) => k < n,
        CTree::Let(v, b) => scoped(*v, n) && scoped(*b, n + 1),
        CTree::FnType(a, b) => scoped(*a, n) && scoped(*b, n + 1),
        CTree::FnConstruct(b) => scoped(*b, n + 1),
        CTree::FnDestruct(a, b) => scoped(*a, n) && scoped(*b, n),
        CTree::TypeAssert(a, b) => scoped(*a, n) && scoped(*b, n),
        CTree::Shift(b, k) => k <= n && scoped(*b, (n - k) as nat),
        _ => true,
    }
}

/// More binders around a tree keep it scoped.
pub proof fn lemma_scoped_mono(t: CTree, n: nat, m: nat)
    requires
        scoped(t, n),
        n <= m,
    ensures
        scoped(t, m),
    decreases t,
{
    match t {
        CTree::Let(v, b) => {
            lemma_scoped_mono(*v, n, m);
            lemma_scoped_mono(*b, n + 1, m + 1);
        },
        CTree::FnType(a, b) => {
            lemma_scoped_mono(*a, n, m);
            lemma_scoped_mono(*b, n + 1, m + 1);
        },
        CTree::FnConstruct(b) => {
            lemma_scoped_mono(*b, n + 1, m + 1);
        },
        CTree::FnDestruct(a, b) => {
            lemma_scoped_mono(*a, n, m);
            lemma_scoped_mono(*b, n, m);
        },
        CTree::TypeAssert(a, b) => {
            lemma_scoped_mono(*a, n, m);
            lemma_scoped_mono(*b, n, m);
        },
        CTree::Shift(b, k) => {
            lemma_scoped_mono(*b, (n - k) as nat, (m - k) as nat);
        },
        _ => {},
    }
}

/// No function in `t` is applied to an argument as it stands: no beta step is left at
/// any application.
pub open spec fn no_redex(t: CTree) -> bool
    decreases t,
{
    match t {
        CTree::FnDestruct(f, a) => !(*f is FnConstruct) && no_redex(*f) && no_redex(*a),
        CTree::Let(v, b) => no_redex(*v) && no_redex(*b),
        CTree::FnType(a, b) => no_redex(*a) && no_redex(*b),
        CTree::FnConstruct(b) => no_redex(*b),
        CTree::TypeAssert(a, b) => no_redex(*a) && no_redex(*b),
        CTree::Shift(b, _) => no_redex(*b),
        _ => true,
    }
}

} // verus!
