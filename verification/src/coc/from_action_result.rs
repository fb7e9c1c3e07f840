use crate::coc::{PartialExpr, TcEnv, UnionIndex};
use crate::desugar::from_action_result::{ActionResult, ACTION_DEPTH_LIMIT};
use crate::lang::tree::is_prefix;
use crate::lang::{Span, ValueOrigin};
use crate::text::{parse_decimal, parse_usize, str_eq};
use vstd::prelude::*;

verus! {

/// A partial expression as a tree, each node with the span of the action result it was
/// built from.
pub enum PTree {
    Type(Span),
    Let(Span, Box<PTree>, Box<PTree>),
    Var(Span, usize),
    FnType(Span, Box<PTree>, Box<PTree>),
    FnConstruct(Span, Box<PTree>, Box<PTree>),
    FnDestruct(Span, Box<PTree>, Box<PTree>),
    Free(Span),
}

/// The tree at `i` of expressions built from source code: `None` when a node below it
/// came from elsewhere, is a shift, or does not stand below its parent in the arena.
pub open spec fn source_tree(values: Seq<PartialExpr>, origins: Seq<ValueOrigin>, i: int) -> Option<
    PTree,
>
    decreases i,
{
    if i < 0 || i >= values.len() || i >= origins.len() {
        None
    } else {
        match origins[i] {
            ValueOrigin::SourceCode(span) => match values[i] {
                PartialExpr::Type => Some(PTree::Type(span)),
                PartialExpr::Var(v) => Some(PTree::Var(span, v)),
                PartialExpr::Free => Some(PTree::Free(span)),
                PartialExpr::Shift(..) => None,
                PartialExpr::Let(a, b) | PartialExpr::FnType(a, b) | PartialExpr::FnConstruct(a, b)
                | PartialExpr::FnDestruct(a, b) => if a.0 < i && b.0 < i {
                    match (
                        source_tree(values, origins, a.0 as int),
                        source_tree(values, origins, b.0 as int),
                    ) {
                        (Some(ta), Some(tb)) => Some(
                            match values[i] {
                                PartialExpr::Let(..) => PTree::Let(span, Box::new(ta), Box::new(tb)),
                                PartialExpr::FnType(..) => PTree::FnType(
                                    span,
                                    Box::new(ta),
                                    Box::new(tb),
                                ),
                                PartialExpr::FnConstruct(..) => PTree::FnConstruct(
                                    span,
                                    Box::new(ta),
                                    Box::new(tb),
                                ),
                                _ => PTree::FnDestruct(span, Box::new(ta), Box::new(tb)),
                            },
                        ),
                        _ => None,
                    }
                } else {
                    None
                },
            },
            _ => None,
        }
    }
}

/// The tree that an action result of the core grammar stands for: `Type`, `Free`, `Var`
/// with the variable's number written as its argument, and `Let`, `FnType`,
/// `FnConstruct` and `FnDestruct` of two expressions. `None` for anything else, and when
/// the results are nested deeper than `ACTION_DEPTH_LIMIT`.
pub open spec fn action_tree(value: ActionResult, depth: nat) -> Option<PTree>
    decreases ACTION_DEPTH_LIMIT - depth,
{
    if depth >= ACTION_DEPTH_LIMIT {
        None
    } else {
        match value {
            ActionResult::Construct(span, c, args) => {
                let n = args@.len();
                if c@ == "Type"@ && n == 0 {
                    Some(PTree::Type(span))
                } else if c@ == "Free"@ && n == 0 {
                    Some(PTree::Free(span))
                } else if c@ == "Var"@ && n == 1 {
                    match args@[0] {
                        ActionResult::Value(_, text) => match parse_decimal(text@) {
                            Some(v) => Some(PTree::Var(span, v as usize)),
                            None => None,
                        },
                        _ => None,
                    }
                } else if (c@ == "Let"@ || c@ == "FnType"@ || c@ == "FnConstruct"@ || c@
                    == "FnDestruct"@) && n == 2 {
                    match (action_tree(args@[0], depth + 1), action_tree(args@[1], depth + 1)) {
                        (Some(a), Some(b)) => Some(
                            if c@ == "Let"@ {
                                PTree::Let(span, Box::new(a), Box::new(b))
                            } else if c@ == "FnType"@ {
                                PTree::FnType(span, Box::new(a), Box::new(b))
                            } else if c@ == "FnConstruct"@ {
                                PTree::FnConstruct(span, Box::new(a), Box::new(b))
                            } else {
                                PTree::FnDestruct(span, Box::new(a), Box::new(b))
                            },
                        ),
                        _ => None,
                    }
                } else {
                    None
                }
            },
            _ => None,
        }
    }
}

/// Growing the arena does not change the source trees already in it.
pub proof fn lemma_source_tree_prefix(
    sv: Seq<PartialExpr>,
    so: Seq<ValueOrigin>,
    bv: Seq<PartialExpr>,
    bo: Seq<ValueOrigin>,
    i: int,
)
    requires
        is_prefix(sv, bv),
        is_prefix(so, bo),
        source_tree(sv, so, i) is Some,
    ensures
        source_tree(bv, bo, i) == source_tree(sv, so, i),
    decreases i,
{
    assert(bv[i] == sv[i]);
    assert(bo[i] == so[i]);
    match sv[i] {
        PartialExpr::Let(a, b) | PartialExpr::FnType(a, b) | PartialExpr::FnConstruct(a, b)
        | PartialExpr::FnDestruct(a, b) => {
            lemma_source_tree_prefix(sv, so, bv, bo, a.0 as int);
            lemma_source_tree_prefix(sv, so, bv, bo, b.0 as int);
        },
        _ => {},
    }
}

impl TcEnv {
    /// Stores a partial expression with its origin, and returns its index.
    pub fn insert_union_index(&mut self, e: PartialExpr, origin: ValueOrigin) -> (r: UnionIndex)
        requires
            old(self).values@.len() == old(self).value_origins@.len(),
        ensures
            final(self).values@ == old(self).values@.push(e),
            final(self).value_origins@ == old(self).value_origins@.push(origin),
            final(self).errors == old(self).errors,
            r.0 == old(self).values@.len(),
    {
        self.values.push(e);
        self.value_origins.push(origin);
        UnionIndex(self.values.len() - 1)
    }

    /// Turns an action result of the core grammar into partial expressions, stored with
    /// the spans they were built from; the result reads back as `action_tree`. `None`,
    /// exactly where `action_tree` is `None`; what was stored before the failure stays.
    #[verifier::rlimit(40)]
    pub fn insert_from_action_result(&mut self, value: &ActionResult, depth: usize) -> (r: Option<
        UnionIndex,
    >)
        requires
            old(self).values@.len() == old(self).value_origins@.len(),
        ensures
            final(self).values@.len() == final(self).value_origins@.len(),
            is_prefix(old(self).values@, final(self).values@),
            is_prefix(old(self).value_origins@, final(self).value_origins@),
            final(self).errors == old(self).errors,
            match action_tree(*value, depth as nat) {
                Some(t) => r matches Some(i) && i.0 + 1 == final(self).values@.len()
                    && source_tree(final(self).values@, final(self).value_origins@, i.0 as int)
                    == Some(t),
                None => r is None,
            },
        decreases ACTION_DEPTH_LIMIT - depth,
    {
        let ghost v0 = self.values@;
        let ghost o0 = self.value_origins@;
        assert(v0.subrange(0, v0.len() as int) =~= v0);
        assert(o0.subrange(0, o0.len() as int) =~= o0);
        if depth >= ACTION_DEPTH_LIMIT {
            return None;
        }
        let (span, constructor, args) = match value {
            ActionResult::Construct(span, constructor, args) => (*span, constructor.as_str(), args),
            _ => return None,
        };
        proof {
            reveal_strlit("Type");
            reveal_strlit("Free");
            reveal_strlit("Var");
            reveal_strlit("Let");
            reveal_strlit("FnType");
            reveal_strlit("FnConstruct");
            reveal_strlit("FnDestruct");
        }
        let n = args.len();
        let ghost sub: Option<(PTree, PTree)> = None;
        let inner = if str_eq(constructor, "Type") && n == 0 {
            PartialExpr::Type
        } else if str_eq(constructor, "Free") && n == 0 {
            PartialExpr::Free
        } else if str_eq(constructor, "Var") && n == 1 {
            match &args[0] {
                ActionResult::Value(_, text) => match parse_usize(text.as_str()) {
                    Some(v) => PartialExpr::Var(v),
                    None => return None,
                },
                _ => return None,
            }
        } else if (str_eq(constructor, "Let") || str_eq(constructor, "FnType") || str_eq(
            constructor,
            "FnConstruct",
        ) || str_eq(constructor, "FnDestruct")) && n == 2 {
            let a = match self.insert_from_action_result(&args[0], depth + 1) {
                Some(a) => a,
                None => return None,
            };
            let ghost v1 = self.values@;
            let ghost o1 = self.value_origins@;
            let b = match self.insert_from_action_result(&args[1], depth + 1) {
                Some(b) => b,
                None => {
                    proof {
                        crate::lang::tree::lemma_prefix_trans(v0, v1, self.values@);
                        crate::lang::tree::lemma_prefix_trans(o0, o1, self.value_origins@);
                    }
                    return None;
                },
            };
            proof {
                crate::lang::tree::lemma_prefix_trans(v0, v1, self.values@);
                crate::lang::tree::lemma_prefix_trans(o0, o1, self.value_origins@);
                lemma_source_tree_prefix(v1, o1, self.values@, self.value_origins@, a.0 as int);
                sub = Some(
                    (
                        action_tree(args@[0], (depth + 1) as nat)->0,
                        action_tree(args@[1], (depth + 1) as nat)->0,
                    ),
                );
            }
            if str_eq(constructor, "Let") {
                PartialExpr::Let(a, b)
            } else if str_eq(constructor, "FnType") {
                PartialExpr::FnType(a, b)
            } else if str_eq(constructor, "FnConstruct") {
                PartialExpr::FnConstruct(a, b)
            } else {
                PartialExpr::FnDestruct(a, b)
            }
        } else {
            return None;
        };
        let ghost v2 = self.values@;
        let ghost o2 = self.value_origins@;
        let r = self.insert_union_index(inner, ValueOrigin::SourceCode(span));
        proof {
            assert(self.values@.subrange(0, v2.len() as int) =~= v2);
            assert(self.value_origins@.subrange(0, o2.len() as int) =~= o2);
            crate::lang::tree::lemma_prefix_trans(v0, v2, self.values@);
            crate::lang::tree::lemma_prefix_trans(o0, o2, self.value_origins@);
            match inner {
                PartialExpr::Let(a, b) | PartialExpr::FnType(a, b) | PartialExpr::FnConstruct(a, b)
                | PartialExpr::FnDestruct(a, b) => {
                    lemma_source_tree_prefix(v2, o2, self.values@, self.value_origins@, a.0 as int);
                    lemma_source_tree_prefix(v2, o2, self.values@, self.value_origins@, b.0 as int);
                },
                _ => {},
            }
        }
        Some(r)
    }
}

} // verus!
