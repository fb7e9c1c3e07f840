use crate::lang::env::{DbEnv, EnvEntry, SEntry};
use crate::lang::error::{PrismError, TypeError};
use crate::lang::tree::is_prefix;
use crate::lang::expect_beq::{copied_tree, plain_tree};
use crate::lang::{CoreIndex, CorePrismExpr, PrismEnv, QueuedConstraint, ValueOrigin};
use vstd::prelude::*;

verus! {

broadcast use vstd::std_specs::hash::group_hash_axioms;

/// The most nested checks and constraints that type checking follows before it reports
/// `TypeError::RecursionLimit`.
pub const RECURSION_LIMIT: usize = 4096;

/// The most steps of one head reduction during type checking before it reports
/// `TypeError::RecursionLimit`.
pub const BRH_STEP_LIMIT: usize = 1000000;

/// What type checking keeps from `old` to `new`: the arena, the origins and the errors
/// only grow, and every value that was not free keeps its value, except the one at `except`.
pub open spec fn keeps(old: &PrismEnv, new: &PrismEnv, except: Option<usize>) -> bool {
    &&& new.arena_wf()
    &&& old.checked_values@.len() <= new.checked_values@.len()
    &&& is_prefix(old.checked_origins@, new.checked_origins@)
    &&& is_prefix(old.errors@, new.errors@)
    &&& forall|j: int|
        0 <= j < old.checked_values@.len() && old.checked_values@[j] != CorePrismExpr::Free
            && (except is None || except->0 != j) ==> #[trigger] new.checked_values@[j]
            == old.checked_values@[j]
}

pub proof fn lemma_keeps_refl(a: &PrismEnv)
    requires
        a.arena_wf(),
    ensures
        keeps(a, a, None),
{
    assert(a.checked_origins@.subrange(0, a.checked_origins@.len() as int) =~= a.checked_origins@);
    assert(a.errors@.subrange(0, a.errors@.len() as int) =~= a.errors@);
}

pub proof fn lemma_keeps_trans(a: &PrismEnv, b: &PrismEnv, c: &PrismEnv, x: Option<usize>, y: Option<usize>)
    requires
        keeps(a, b, x),
        keeps(b, c, y),
        y is None || y == x || y->0 >= a.checked_values@.len(),
    ensures
        keeps(a, c, x),
{
    crate::lang::tree::lemma_prefix_trans(a.checked_origins@, b.checked_origins@, c.checked_origins@);
    crate::lang::tree::lemma_prefix_trans(a.errors@, b.errors@, c.errors@);
    assert forall|j: int|
        0 <= j < a.checked_values@.len() && a.checked_values@[j] != CorePrismExpr::Free
            && (x is None || x->0 != j) implies #[trigger] c.checked_values@[j]
        == a.checked_values@[j] by {
        assert(b.checked_values@[j] == a.checked_values@[j]);
    }
}

/// A change at a value that was free, or new, changes no value that was set.
pub proof fn lemma_keeps_free_target(a: &PrismEnv, b: &PrismEnv, t: usize)
    requires
        keeps(a, b, Some(t)),
        t >= a.checked_values@.len() || a.checked_values@[t as int] == CorePrismExpr::Free,
    ensures
        keeps(a, b, None),
{
    assert forall|j: int|
        0 <= j < a.checked_values@.len() && a.checked_values@[j] != CorePrismExpr::Free implies
        #[trigger] b.checked_values@[j] == a.checked_values@[j] by {
        assert(t != j);
    }
}

/// The type that type checking gives a value that needs no checking of its parts: `Type`
/// for `Type` and for the grammar type, the grammar type for a grammar, and a free value
/// for a free value.
pub open spec fn leaf_type(e: CorePrismExpr) -> Option<CorePrismExpr> {
    match e {
        CorePrismExpr::Type => Some(CorePrismExpr::Type),
        CorePrismExpr::GrammarType => Some(CorePrismExpr::Type),
        CorePrismExpr::GrammarValue(_) => Some(CorePrismExpr::GrammarType),
        CorePrismExpr::Free => Some(CorePrismExpr::Free),
        _ => None,
    }
}

/// Checking the leaf value at `i` stores its type as a new value and changes nothing else.
pub open spec fn leaf_checked(old: &PrismEnv, new: &PrismEnv, i: CoreIndex, r: CoreIndex) -> bool {
    i.0 < old.checked_values@.len() && leaf_type(old.checked_values@[i.0 as int]) is Some ==> {
        &&& new.checked_values@ == old.checked_values@.push(
            leaf_type(old.checked_values@[i.0 as int])->0,
        )
        &&& r.0 == old.checked_values@.len()
        &&& new.errors == old.errors
        &&& new.queued_beq_free == old.queued_beq_free
    }
}

/// Checking the variable at `i`, which has an entry in the scope `s`, stores its type (the
/// type of the entry, shifted out of the scope in between) as a new value and changes
/// nothing else.
pub open spec fn var_checked(
    old: &PrismEnv,
    new: &PrismEnv,
    i: CoreIndex,
    s: Seq<SEntry>,
    r: CoreIndex,
) -> bool {
    i.0 < old.checked_values@.len() ==> (old.checked_values@[i.0 as int] matches CorePrismExpr::DeBruijnIndex(
        k,
    ) ==> (k < s.len() ==> {
        &&& new.checked_values@ == old.checked_values@.push(
            CorePrismExpr::Shift(
                entry_type(crate::lang::env::env_at(s, k as int))->0,
                (k + 1) as usize,
            ),
        )
        &&& r.0 == old.checked_values@.len()
        &&& new.errors == old.errors
        &&& new.queued_beq_free == old.queued_beq_free
    }))
}

/// A leaf whose type is `Type`: `Type` itself or the grammar type.
pub open spec fn type_leaf(e: CorePrismExpr) -> bool {
    e is Type || e is GrammarType
}

/// `i` is a function type from a leaf whose type is `Type` to another such leaf.
pub open spec fn leaf_fn_type(values: Seq<CorePrismExpr>, i: CoreIndex) -> bool {
    &&& i.0 < values.len()
    &&& values[i.0 as int] is FnType
    &&& values[i.0 as int]->FnType_0.0 < values.len()
    &&& values[i.0 as int]->FnType_1.0 < values.len()
    &&& type_leaf(values[values[i.0 as int]->FnType_0.0 as int])
    &&& type_leaf(values[values[i.0 as int]->FnType_1.0 as int])
}

/// `i` is a function type whose argument type is a function type to `Type` from a leaf
/// whose type is `Type` (`leaf_fn_type`), and whose body applies the argument to a leaf of
/// that type; no constraint of `queue` waits for anything outside the arena.
pub open spec fn binder_application(
    values: Seq<CorePrismExpr>,
    queue: Map<usize, Vec<QueuedConstraint>>,
    i: CoreIndex,
) -> bool {
    &&& i.0 < values.len()
    &&& values[i.0 as int] is FnType
    &&& leaf_fn_type(values, values[i.0 as int]->FnType_0)
    &&& values[values[values[i.0 as int]->FnType_0.0 as int]->FnType_1.0 as int] is Type
    &&& values[i.0 as int]->FnType_1.0 < values.len()
    &&& values[values[i.0 as int]->FnType_1.0 as int] is FnDestruct
    &&& values[values[i.0 as int]->FnType_1.0 as int]->FnDestruct_0.0 < values.len()
    &&& values[values[i.0 as int]->FnType_1.0 as int]->FnDestruct_1.0 < values.len()
    &&& values[values[values[i.0 as int]->FnType_1.0 as int]->FnDestruct_0.0 as int]
        == CorePrismExpr::DeBruijnIndex(0)
    &&& leaf_type(values[values[values[i.0 as int]->FnType_1.0 as int]->FnDestruct_1.0 as int])
        == Some(values[values[values[i.0 as int]->FnType_0.0 as int]->FnType_0.0 as int])
    &&& forall|k: usize| queue.contains_key(k) ==> k < values.len()
}

/// The return type of the application `i` in scope `s` where it applies a variable whose
/// type is a function type from `Type` or the grammar type to a tree that unification
/// copies (`plain_tree`), to a leaf whose type is that argument type, and no constraint of
/// `queue` waits for anything outside the arena: the return type of that function type.
pub open spec fn applied_var_return(
    values: Seq<CorePrismExpr>,
    queue: Map<usize, Vec<QueuedConstraint>>,
    i: CoreIndex,
    s: Seq<SEntry>,
) -> Option<CoreIndex> {
    if i.0 < values.len() {
        match values[i.0 as int] {
            CorePrismExpr::FnDestruct(f, a) => if f.0 < values.len() && a.0 < values.len() {
                match values[f.0 as int] {
                    CorePrismExpr::DeBruijnIndex(k) => if k < s.len() {
                        match entry_type(crate::lang::env::env_at(s, k as int)) {
                            Some(t) => if t.0 < values.len() {
                                match values[t.0 as int] {
                                    CorePrismExpr::FnType(p, q) => if p.0 < values.len() && (
                                    values[p.0 as int] is Type || values[p.0 as int] is GrammarType)
                                        && leaf_type(values[a.0 as int]) == Some(values[p.0 as int])
                                        && plain_tree(
                                        values,
                                        Set::empty(),
                                        q,
                                        (RECURSION_LIMIT - 1) as nat,
                                    ) && (forall|k2: usize| queue.contains_key(k2) ==> k2 < values.len()) {
                                        Some(q)
                                    } else {
                                        None
                                    },
                                    _ => None,
                                }
                            } else {
                                None
                            },
                            None => None,
                        }
                    } else {
                        None
                    },
                    _ => None,
                }
            } else {
                None
            },
            _ => None,
        }
    } else {
        None
    }
}

/// Whether type checking the value `e` in a scope of `n` entries records a type for it:
/// not for a type assertion, which has the type of its expression, nor for a variable or
/// shift that reaches outside the scope, which is an error.
pub open spec fn records_type(e: CorePrismExpr, n: nat) -> bool {
    match e {
        CorePrismExpr::TypeAssert(..) => false,
        CorePrismExpr::DeBruijnIndex(index) => index < n,
        CorePrismExpr::Shift(_, k) => k <= n,
        _ => true,
    }
}

/// The type of the variable that a scope entry of type checking stands for.
pub open spec fn entry_type(e: SEntry) -> Option<CoreIndex> {
    match e {
        SEntry::CType(_, t) => Some(t),
        SEntry::CSubst(_, t) => Some(t),
        _ => None,
    }
}

/// The form of the type that type checking gives the value `e` in a scope `s`, where it
/// does not depend on the types of the parts: a variable has the type of its entry,
/// shifted out of the scope in between; a function type is a type; a function has a
/// function type; an application and a `let` have a `let` type; a shift has the shifted
/// type of its value.
pub open spec fn type_form(e: CorePrismExpr, s: Seq<SEntry>, t: CorePrismExpr) -> bool {
    match e {
        CorePrismExpr::DeBruijnIndex(index) => index < s.len() ==> (entry_type(
            crate::lang::env::env_at(s, index as int),
        ) matches Some(et) && t == CorePrismExpr::Shift(et, (index + 1) as usize)),
        CorePrismExpr::FnType(..) => t == CorePrismExpr::Type,
        CorePrismExpr::FnConstruct(..) => t is FnType,
        CorePrismExpr::FnDestruct(..) => t is Let,
        CorePrismExpr::Let(..) => t is Let,
        CorePrismExpr::Shift(_, k) => k <= s.len() ==> (t matches CorePrismExpr::Shift(_, k2) && k2
            == k),
        _ => true,
    }
}

/// Where the parts of the type `t` of the value `e` at `i` come from, when type checking
/// started with `old_len` values: a function's argument type is a new free value made for
/// it, an application's result type a new free value that is the type of the application,
/// and the value of a `let` or the argument of an application is the original one, or a
/// new free value standing in for it after it failed to type check.
pub open spec fn type_parts(
    e: CorePrismExpr,
    i: CoreIndex,
    old_len: nat,
    origins: Seq<ValueOrigin>,
    t: CorePrismExpr,
) -> bool {
    match e {
        CorePrismExpr::FnConstruct(_) => t matches CorePrismExpr::FnType(a, _) && a.0 >= old_len
            && origins[a.0 as int] == ValueOrigin::FreeSub(i),
        CorePrismExpr::FnDestruct(_, a) => t matches CorePrismExpr::Let(a2, rt) && rt.0 >= old_len
            && origins[rt.0 as int] == ValueOrigin::TypeOf(i) && (a2 == a || (a2.0 >= old_len
            && origins[a2.0 as int] == ValueOrigin::Failure)),
        CorePrismExpr::Let(v, _) => t matches CorePrismExpr::Let(v2, _) && (v2 == v || (v2.0
            >= old_len && origins[v2.0 as int] == ValueOrigin::Failure)),
        _ => true,
    }
}

/// A value stored in `small` is still there in `big`.
pub proof fn lemma_prefix_at<A>(small: Seq<A>, big: Seq<A>, k: int)
    requires
        is_prefix(small, big),
        0 <= k < small.len(),
    ensures
        big[k] == small[k],
{
    assert(big.subrange(0, small.len() as int)[k] == big[k]);
}

/// The new values that `type_parts` speaks of lie below `len`.
pub open spec fn parts_within(e: CorePrismExpr, len: nat, t: CorePrismExpr) -> bool {
    match e {
        CorePrismExpr::FnConstruct(_) => t matches CorePrismExpr::FnType(a, _) && a.0 < len,
        CorePrismExpr::FnDestruct(_, a) => t matches CorePrismExpr::Let(a2, rt) && rt.0 < len && (
        a2 == a || a2.0 < len),
        CorePrismExpr::Let(v, _) => t matches CorePrismExpr::Let(v2, _) && (v2 == v || v2.0 < len),
        _ => true,
    }
}

/// Origins that only grow keep what `type_parts` says of them.
pub proof fn lemma_type_parts_prefix(
    e: CorePrismExpr,
    i: CoreIndex,
    n: nat,
    small: Seq<ValueOrigin>,
    big: Seq<ValueOrigin>,
    t: CorePrismExpr,
)
    requires
        type_parts(e, i, n, small, t),
        parts_within(e, small.len(), t),
        is_prefix(small, big),
    ensures
        type_parts(e, i, n, big, t),
{
    match (e, t) {
        (CorePrismExpr::FnConstruct(_), CorePrismExpr::FnType(a, _)) => {
            lemma_prefix_at(small, big, a.0 as int);
        },
        (CorePrismExpr::FnDestruct(_, a), CorePrismExpr::Let(a2, rt)) => {
            lemma_prefix_at(small, big, rt.0 as int);
            if a2 != a {
                lemma_prefix_at(small, big, a2.0 as int);
            }
        },
        (CorePrismExpr::Let(v, _), CorePrismExpr::Let(v2, _)) => {
            if v2 != v {
                lemma_prefix_at(small, big, v2.0 as int);
            }
        },
        _ => {},
    }
}

/// The type of the function or `let` at `i`, checked in a scope of `n` entries, has as
/// its body part the type recorded for the body, which is checked one binder deeper.
pub open spec fn body_typed(old: &PrismEnv, new: &PrismEnv, i: CoreIndex, n: nat, r: CoreIndex) -> bool {
    i.0 < old.checked_values@.len() ==> match old.checked_values@[i.0 as int] {
        CorePrismExpr::FnConstruct(b) => b.0 < old.checked_values@.len() && b != i && records_type(
            old.checked_values@[b.0 as int],
            n + 1,
        ) ==> (new.checked_values@[r.0 as int] matches CorePrismExpr::FnType(_, bt)
            && new.checked_types@.contains_key(b.0) && new.checked_types@[b.0] == bt),
        CorePrismExpr::Let(_, b) => b.0 < old.checked_values@.len() && b != i && !(
        old.checked_values@[b.0 as int] is Free) && records_type(
            old.checked_values@[b.0 as int],
            n + 1,
        ) ==> (new.checked_values@[r.0 as int] matches CorePrismExpr::Let(_, bt)
            && new.checked_types@.contains_key(b.0) && new.checked_types@[b.0] == bt),
        _ => true,
    }
}

/// The number of `ExpectFnArg` errors in `errors`: the applications whose argument type
/// was found to differ from the function's.
pub open spec fn fn_arg_count(errors: Seq<PrismError>) -> nat
    decreases errors.len(),
{
    if errors.len() == 0 {
        0
    } else {
        fn_arg_count(errors.drop_last()) + if errors.last() is TypeError && errors.last()->TypeError_0 is ExpectFnArg {
            1nat
        } else {
            0nat
        }
    }
}

/// At the application `i` in scope `s` of a variable whose type is a function type, to a
/// leaf that is not free: whether the type of the leaf equals the function type's argument
/// type `p` as `known_beq` decides it (with `p`), where that needs no free value filled in:
/// `p`, head reduced in the scope of the function type, is `Type` or the grammar type as
/// the leaf's type is (equal), or another value that cannot be filled in (unequal).
pub open spec fn fn_arg_outcome(values: Seq<CorePrismExpr>, i: CoreIndex, s: Seq<SEntry>) -> Option<
    (bool, CoreIndex),
> {
    if i.0 < values.len() && values[i.0 as int] is FnDestruct {
        let f = values[i.0 as int]->FnDestruct_0;
        let a = values[i.0 as int]->FnDestruct_1;
        if f.0 < values.len() && a.0 < values.len() && values[f.0 as int] is DeBruijnIndex {
            let k = values[f.0 as int]->DeBruijnIndex_0;
            if k < s.len() && entry_type(crate::lang::env::env_at(s, k as int)) is Some {
                let t = entry_type(crate::lang::env::env_at(s, k as int))->0;
                if t.0 < values.len() && values[t.0 as int] is FnType && leaf_type(values[a.0 as int]) is Some
                    && !(leaf_type(values[a.0 as int])->0 is Free) {
                    let p = values[t.0 as int]->FnType_0;
                    let lt = leaf_type(values[a.0 as int])->0;
                    let sr = crate::lang::env::env_shift(s, ((k + 1) as usize) as int);
                    match crate::lang::expect_beq::tc_head(values, p, sr) {
                        Some((hp, _)) => if hp.0 < values.len() {
                            if values[hp.0 as int] == lt {
                                Some((true, p))
                            } else if crate::lang::expect_beq::rigid(values[hp.0 as int]) {
                                Some((false, p))
                            } else {
                                None
                            }
                        } else {
                            None
                        },
                        None => None,
                    }
                } else {
                    None
                }
            } else {
                None
            }
        } else {
            None
        }
    } else {
        None
    }
}

/// `i` is a function type whose argument type is a function type between leaves whose
/// type is `Type` (`leaf_fn_type`), and whose body applies the argument to a leaf that is
/// not free: whether the leaf has the argument type of that function type.
pub open spec fn binder_arg_outcome(values: Seq<CorePrismExpr>, i: CoreIndex) -> Option<bool> {
    if i.0 < values.len() && values[i.0 as int] is FnType && leaf_fn_type(values, values[i.0 as int]->FnType_0)
        && values[i.0 as int]->FnType_1.0 < values.len() && values[values[i.0 as int]->FnType_1.0 as int] is FnDestruct {
        let fa = values[i.0 as int]->FnType_0;
        let app = values[values[i.0 as int]->FnType_1.0 as int];
        let f = app->FnDestruct_0;
        let x = app->FnDestruct_1;
        if f.0 < values.len() && x.0 < values.len() && values[f.0 as int] == CorePrismExpr::DeBruijnIndex(0)
            && leaf_type(values[x.0 as int]) is Some && !(leaf_type(values[x.0 as int])->0 is Free) {
            Some(leaf_type(values[x.0 as int])->0 == values[values[fa.0 as int]->FnType_0.0 as int])
        } else {
            None
        }
    } else {
        None
    }
}

/// Whether the value `e` reaches outside a scope of `n` entries: a variable with no entry,
/// or a shift past the scope.
pub open spec fn out_of_scope(e: CorePrismExpr, n: nat) -> bool {
    match e {
        CorePrismExpr::DeBruijnIndex(index) => index >= n,
        CorePrismExpr::Shift(_, k) => k > n,
        _ => false,
    }
}

/// Whether applying the value `e` is an error in every scope: its type is `Type`.
pub open spec fn applies_no_function(e: CorePrismExpr) -> bool {
    e is Type || e is GrammarType || e is FnType
}

/// The entries that type checking puts in scope: types of variables and substitutions.
pub open spec fn tc_env(s: Seq<SEntry>) -> bool {
    forall|k: int| 0 <= k < s.len() ==> (#[trigger] s[k] is CType || s[k] is CSubst)
}

impl PrismEnv {
    /// Records a type error.
    pub fn push_type_error(&mut self, error: TypeError)
        requires
            old(self).arena_wf(),
        ensures
            keeps(old(self), final(self), None),
            final(self).errors@ == old(self).errors@.push(PrismError::TypeError(error)),
            fn_arg_count(final(self).errors@) == fn_arg_count(old(self).errors@) + if error is ExpectFnArg {
                1nat
            } else {
                0nat
            },
            final(self).checked_values == old(self).checked_values,
            final(self).checked_origins == old(self).checked_origins,
            final(self).tc_id == old(self).tc_id,
            final(self).queued_beq_free == old(self).queued_beq_free,
            final(self).toxic_values == old(self).toxic_values,
            final(self).checked_types == old(self).checked_types,
    {
        self.errors.push(PrismError::TypeError(error));
        proof {
            assert(self.errors@.drop_last() =~= old(self).errors@);
            assert(self.errors@.subrange(0, old(self).errors@.len() as int) =~= old(self).errors@);
            assert(self.checked_origins@.subrange(0, old(self).checked_origins@.len() as int)
                =~= old(self).checked_origins@);
        }
    }

    /// Stores a new value, as type checking does.
    pub(crate) fn store_tc(&mut self, e: CorePrismExpr, origin: ValueOrigin) -> (r: CoreIndex)
        requires
            old(self).arena_wf(),
        ensures
            keeps(old(self), final(self), None),
            final(self).checked_values@ == old(self).checked_values@.push(e),
            final(self).checked_origins@ == old(self).checked_origins@.push(origin),
            final(self).tc_id == old(self).tc_id,
            final(self).errors == old(self).errors,
            final(self).queued_beq_free == old(self).queued_beq_free,
            final(self).toxic_values == old(self).toxic_values,
            final(self).checked_types == old(self).checked_types,
            r.0 == old(self).checked_values@.len(),
    {
        let r = self.store_checked(e, origin);
        proof {
            assert(self.errors@.subrange(0, old(self).errors@.len() as int) =~= old(self).errors@);
            assert(self.checked_origins@.subrange(0, old(self).checked_origins@.len() as int)
                =~= old(self).checked_origins@);
        }
        r
    }

    /// Overwrites the value at `i`.
    pub(crate) fn set_value(&mut self, i: CoreIndex, e: CorePrismExpr)
        requires
            old(self).arena_wf(),
            i.0 < old(self).checked_values@.len(),
        ensures
            keeps(old(self), final(self), Some(i.0)),
            final(self).checked_values@ == old(self).checked_values@.update(i.0 as int, e),
            final(self).tc_id == old(self).tc_id,
            final(self).errors == old(self).errors,
            final(self).checked_origins == old(self).checked_origins,
            final(self).queued_beq_free == old(self).queued_beq_free,
            final(self).toxic_values == old(self).toxic_values,
    {
        self.checked_values.set(i.0, e);
        proof {
            assert(self.errors@.subrange(0, old(self).errors@.len() as int) =~= old(self).errors@);
            assert(self.checked_origins@.subrange(0, old(self).checked_origins@.len() as int)
                =~= old(self).checked_origins@);
        }
    }

    /// Type checks the expression at `root` in the empty scope, and returns its type: a
    /// new value that is recorded as the type of `root`, of the form `type_form` gives,
    /// with the parts `type_parts` gives. The errors that come up are added to `errors`.
    /// Type checking only fills in free values: every value that was not free keeps its
    /// value. The type of a function or a `let` has the type recorded for its body as its
    /// body part (`body_typed`). A function type whose body applies its argument, of a
    /// function type from a leaf whose type is `Type` to `Type`, to a leaf of that argument
    /// type checks with no error (`binder_application`); to a leaf of another type, with
    /// one `ExpectFnArg` error more (`binder_arg_outcome`).
    pub fn type_check(&mut self, root: CoreIndex) -> (r: CoreIndex)
        requires
            old(self).arena_wf(),
        ensures
            keeps(old(self), final(self), None),
            r.0 < final(self).checked_values@.len(),
            root.0 < old(self).checked_values@.len() && records_type(
                old(self).checked_values@[root.0 as int],
                0,
            ) ==> final(self).checked_types@.contains_key(root.0) && final(self).checked_types@[root.0]
                == r,
            leaf_checked(old(self), final(self), root, r),
            body_typed(old(self), final(self), root, 0, r),
            binder_arg_outcome(old(self).checked_values@, root) matches Some(same) ==> fn_arg_count(
                final(self).errors@,
            ) == fn_arg_count(old(self).errors@) + if same {
                0nat
            } else {
                1nat
            },
            root.0 < old(self).checked_values@.len() && !(old(
                self,
            ).checked_values@[root.0 as int] is TypeAssert) ==> type_form(
                old(self).checked_values@[root.0 as int],
                Seq::empty(),
                final(self).checked_values@[r.0 as int],
            ),
            root.0 < old(self).checked_values@.len() && records_type(
                old(self).checked_values@[root.0 as int],
                0,
            ) ==> r.0 >= old(self).checked_values@.len() && final(self).checked_origins@[r.0 as int]
                == ValueOrigin::TypeOf(root) && type_parts(
                old(self).checked_values@[root.0 as int],
                root,
                old(self).checked_values@.len() as nat,
                final(self).checked_origins@,
                final(self).checked_values@[r.0 as int],
            ),
            root.0 < old(self).checked_values@.len() && out_of_scope(
                old(self).checked_values@[root.0 as int],
                0,
            ) ==> final(self).errors@ == old(self).errors@.push(
                PrismError::TypeError(TypeError::IndexOutOfBound(root)),
            ) && final(self).checked_values@ == old(self).checked_values@.push(CorePrismExpr::Free)
                && final(self).checked_origins@ == old(self).checked_origins@.push(
                ValueOrigin::Failure,
            ) && r.0 == old(self).checked_values@.len(),
            root.0 < old(self).checked_values@.len() && (old(
                self,
            ).checked_values@[root.0 as int] matches CorePrismExpr::FnDestruct(f, _) && f.0 < old(
                self,
            ).checked_values@.len() && applies_no_function(old(self).checked_values@[f.0 as int]))
                ==> old(self).errors@.len() < final(self).errors@.len(),
            root.0 < old(self).checked_values@.len() && (old(
                self,
            ).checked_values@[root.0 as int] matches CorePrismExpr::FnType(a, _) && a.0 < old(
                self,
            ).checked_values@.len() && old(self).checked_values@[a.0 as int] is FnConstruct)
                ==> old(self).errors@.len() < final(self).errors@.len(),
            root.0 < old(self).checked_values@.len() && (old(
                self,
            ).checked_values@[root.0 as int] matches CorePrismExpr::TypeAssert(e, typ) && e.0 < old(
                self,
            ).checked_values@.len() && typ.0 < old(self).checked_values@.len() && old(
                self,
            ).checked_values@[e.0 as int] is Type && old(self).checked_values@[typ.0 as int] is FnType)
                ==> old(self).errors@.len() < final(self).errors@.len(),
            binder_application(old(self).checked_values@, old(self).queued_beq_free@, root) ==> {
                &&& final(self).errors == old(self).errors
                &&& final(self).checked_values@[r.0 as int] == CorePrismExpr::Type
            },
    {
        let env = DbEnv::new();
        self.type_check_in(root, &env, 0)
    }

    /// Type checks `i` in scope `env`. Returns the type.
    #[verifier::rlimit(100)]
    #[verifier::spinoff_prover]
    fn type_check_in(&mut self, i: CoreIndex, env: &DbEnv, depth: usize) -> (r: CoreIndex)
        requires
            old(self).arena_wf(),
            tc_env(env@),
        ensures
            keeps(old(self), final(self), None),
            r.0 < final(self).checked_values@.len(),
            depth < RECURSION_LIMIT && i.0 < old(self).checked_values@.len()
                && records_type(old(self).checked_values@[i.0 as int], env@.len())
                ==> final(self).checked_types@.contains_key(i.0)
                && final(self).checked_types@[i.0] == r,
            depth < RECURSION_LIMIT ==> leaf_checked(old(self), final(self), i, r),
            depth < RECURSION_LIMIT ==> var_checked(old(self), final(self), i, env@, r),
            depth + 1 < RECURSION_LIMIT ==> body_typed(old(self), final(self), i, env@.len(), r),
            depth + 2 < RECURSION_LIMIT ==> (binder_arg_outcome(old(self).checked_values@, i) matches Some(
                same,
            ) ==> fn_arg_count(final(self).errors@) == fn_arg_count(old(self).errors@) + if same {
                0nat
            } else {
                1nat
            }),
            depth + 1 < RECURSION_LIMIT ==> (fn_arg_outcome(old(self).checked_values@, i, env@) matches Some(
                (same, p),
            ) ==> {
                &&& fn_arg_count(final(self).errors@) == fn_arg_count(old(self).errors@) + if same {
                    0nat
                } else {
                    1nat
                }
                &&& !same ==> final(self).errors@[old(self).errors@.len() as int] == PrismError::TypeError(
                    TypeError::ExpectFnArg {
                        function_type: CoreIndex((old(self).checked_values@.len() + 2) as usize),
                        function_arg_type: p,
                        arg_type: CoreIndex(old(self).checked_values@.len() as usize),
                    },
                )
            }),
            depth + 1 < RECURSION_LIMIT && leaf_fn_type(old(self).checked_values@, i) ==> {
                &&& final(self).errors == old(self).errors
                &&& final(self).checked_values@[r.0 as int] == CorePrismExpr::Type
                &&& final(self).queued_beq_free == old(self).queued_beq_free
            },
            depth + 2 < RECURSION_LIMIT && binder_application(
                old(self).checked_values@,
                old(self).queued_beq_free@,
                i,
            ) ==> final(self).errors == old(self).errors && final(self).checked_values@[r.0 as int]
                == CorePrismExpr::Type,
            depth + 1 < RECURSION_LIMIT ==> (applied_var_return(
                old(self).checked_values@,
                old(self).queued_beq_free@,
                i,
                env@,
            ) matches Some(q) ==> final(self).errors == old(self).errors && (
                final(self).checked_values@[r.0 as int] matches CorePrismExpr::Let(_, rt)
                && copied_tree(
                old(self).checked_values@,
                q,
                final(self).checked_values@,
                rt,
                (RECURSION_LIMIT - 1) as nat,
            ))),
            depth < RECURSION_LIMIT && i.0 < old(self).checked_values@.len() && !(old(
                self,
            ).checked_values@[i.0 as int] is TypeAssert) ==> type_form(
                old(self).checked_values@[i.0 as int],
                env@,
                final(self).checked_values@[r.0 as int],
            ),
            depth < RECURSION_LIMIT && i.0 < old(self).checked_values@.len() && records_type(
                old(self).checked_values@[i.0 as int],
                env@.len(),
            ) ==> r.0 >= old(self).checked_values@.len() && final(self).checked_origins@[r.0 as int]
                == ValueOrigin::TypeOf(i) && type_parts(
                old(self).checked_values@[i.0 as int],
                i,
                old(self).checked_values@.len() as nat,
                final(self).checked_origins@,
                final(self).checked_values@[r.0 as int],
            ),
            depth < RECURSION_LIMIT && i.0 < old(self).checked_values@.len() && out_of_scope(
                old(self).checked_values@[i.0 as int],
                env@.len(),
            ) ==> final(self).errors@ == old(self).errors@.push(
                PrismError::TypeError(TypeError::IndexOutOfBound(i)),
            ) && final(self).checked_values@ == old(self).checked_values@.push(CorePrismExpr::Free)
                && final(self).checked_origins@ == old(self).checked_origins@.push(
                ValueOrigin::Failure,
            ) && r.0 == old(self).checked_values@.len(),
            depth + 1 < RECURSION_LIMIT && i.0 < old(self).checked_values@.len() && (old(
                self,
            ).checked_values@[i.0 as int] matches CorePrismExpr::FnDestruct(f, _) && f.0 < old(
                self,
            ).checked_values@.len() && applies_no_function(old(self).checked_values@[f.0 as int]))
                ==> old(self).errors@.len() < final(self).errors@.len(),
            depth + 1 < RECURSION_LIMIT && i.0 < old(self).checked_values@.len() && (old(
                self,
            ).checked_values@[i.0 as int] matches CorePrismExpr::FnType(a, _) && a.0 < old(
                self,
            ).checked_values@.len() && old(self).checked_values@[a.0 as int] is FnConstruct)
                ==> old(self).errors@.len() < final(self).errors@.len(),
            depth + 1 < RECURSION_LIMIT && i.0 < old(self).checked_values@.len() && (old(
                self,
            ).checked_values@[i.0 as int] matches CorePrismExpr::TypeAssert(e, typ) && e.0 < old(
                self,
            ).checked_values@.len() && typ.0 < old(self).checked_values@.len() && old(
                self,
            ).checked_values@[e.0 as int] is Type && old(self).checked_values@[typ.0 as int] is FnType)
                ==> old(self).errors@.len() < final(self).errors@.len(),
        decreases RECURSION_LIMIT - depth,
    {
        let ghost s0 = *self;
        proof {
            lemma_keeps_refl(&s0);
        }
        if depth >= RECURSION_LIMIT {
            self.push_type_error(TypeError::RecursionLimit(i, i));
            let ghost s1 = *self;
            proof {
                lemma_keeps_refl(&s1);
            }
            let r = self.store_tc(CorePrismExpr::Free, ValueOrigin::Failure);
            proof {
                lemma_keeps_trans(&s0, &s1, self, None, None);
            }
            return r;
        }
        if i.0 >= self.checked_values.len() {
            self.push_type_error(TypeError::IndexOutOfBound(i));
            let ghost s1 = *self;
            proof {
                lemma_keeps_refl(&s1);
            }
            let r = self.store_tc(CorePrismExpr::Free, ValueOrigin::Failure);
            proof {
                lemma_keeps_trans(&s0, &s1, self, None, None);
            }
            return r;
        }
        let t = match self.checked_values[i.0] {
            CorePrismExpr::Type => CorePrismExpr::Type,
            CorePrismExpr::Let(v, b) => {
                // Check `v`
                let ghost v_orig = v;
                let mut v = v;
                let err_count = self.errors.len();
                let vt = self.type_check_in(v, env, depth + 1);
                let ghost s1 = *self;
                proof {
                    lemma_keeps_refl(&s1);
                }
                if self.errors.len() > err_count {
                    v = self.store_tc(CorePrismExpr::Free, ValueOrigin::Failure);
                }
                let ghost s2 = *self;
                proof {
                    lemma_keeps_refl(&s2);
                }
                proof {
                    lemma_keeps_trans(&s0, &s1, &s2, None, None);
                    assert(tc_env(env@.push(SEntry::CSubst(v, vt))));
                }
                proof {
                    if b.0 < s0.checked_values@.len() && !(s0.checked_values@[b.0 as int] is Free) {
                        assert(s2.checked_values@[b.0 as int] == s0.checked_values@[b.0 as int]);
                    }
                }
                let bt = self.type_check_in(b, &env.cons(EnvEntry::CSubst(v, vt)), depth + 1);
                proof {
                    lemma_keeps_trans(&s0, &s2, self, None, None);
                    if v != v_orig {
                        lemma_prefix_at(s2.checked_origins@, self.checked_origins@, v.0 as int);
                    }
                }
                CorePrismExpr::Let(v, bt)
            },
            CorePrismExpr::DeBruijnIndex(index) => match {
                let _n = env.len();
                env.get_idx(index)
            } {
                Some(EnvEntry::CType(_, t)) => CorePrismExpr::Shift(*t, index + 1),
                Some(EnvEntry::CSubst(_, t)) => CorePrismExpr::Shift(*t, index + 1),
                Some(_) => {
                    proof {
                        assert(env@[env@.len() - 1 - index] is CType || env@[env@.len() - 1 - index] is CSubst);
                    }
                    CorePrismExpr::Free
                },
                None => {
                    self.push_type_error(TypeError::IndexOutOfBound(i));
                    let ghost s1 = *self;
                    proof {
                        lemma_keeps_refl(&s1);
                    }
                    let r = self.store_tc(CorePrismExpr::Free, ValueOrigin::Failure);
                    proof {
                        lemma_keeps_trans(&s0, &s1, self, None, None);
                    }
                    return r;
                },
            },
            CorePrismExpr::FnType(a, b) => {
                let ghost a_orig = a;
                let mut a = a;
                let err_count = self.errors.len();
                let at = self.type_check_in(a, env, depth + 1);
                let ghost s1 = *self;
                proof {
                    lemma_keeps_refl(&s1);
                    if depth + 1 < RECURSION_LIMIT && a.0 < s0.checked_values@.len()
                        && s0.checked_values@[a.0 as int] is FnConstruct {
                        assert(s1.checked_values@[at.0 as int] is FnType);
                        assert(crate::lang::expect_beq::tc_head(s1.checked_values@, at, env@)
                            == Some((at, env@)));
                    }
                }
                self.expect_beq_type(at, env);
                let ghost s2 = *self;
                proof {
                    lemma_keeps_refl(&s2);
                }
                if self.errors.len() > err_count {
                    a = self.store_tc(CorePrismExpr::Free, ValueOrigin::Failure);
                }
                let ghost s3 = *self;
                proof {
                    lemma_keeps_refl(&s3);
                }
                let err_count = self.errors.len();
                let id = self.new_tc_id();
                let bs = env.cons(EnvEntry::CType(id, a));
                let ghost s4 = *self;
                proof {
                    lemma_keeps_refl(&s4);
                }
                proof {
                    lemma_keeps_trans(&s0, &s1, &s2, None, None);
                    lemma_keeps_trans(&s0, &s2, &s3, None, None);
                    assert(keeps(&s3, &s4, None)) by {
                        lemma_keeps_refl(&s3);
                    }
                    lemma_keeps_trans(&s0, &s3, &s4, None, None);
                    assert(tc_env(bs@));
                }
                let bt = self.type_check_in(b, &bs, depth + 1);
                let ghost s5 = *self;
                proof {
                    lemma_keeps_refl(&s5);
                }
                proof {
                    lemma_keeps_trans(&s0, &s4, &s5, None, None);
                }
                // Check if `b` typechecked without errors.
                proof {
                    if depth + 1 < RECURSION_LIMIT && leaf_fn_type(s0.checked_values@, i) {
                        assert(s1.checked_values@[at.0 as int] == CorePrismExpr::Type);
                        assert(crate::lang::expect_beq::tc_head(s1.checked_values@, at, env@)
                            == Some((at, env@)));
                        assert(s5.checked_values@[bt.0 as int] == CorePrismExpr::Type);
                        assert(crate::lang::expect_beq::tc_head(s5.checked_values@, bt, bs@)
                            == Some((bt, bs@)));
                    }
                    if depth + 2 < RECURSION_LIMIT && binder_application(
                        s0.checked_values@,
                        s0.queued_beq_free@,
                        i,
                    ) {
                        let o = s0.checked_values@;
                        let q = o[a_orig.0 as int]->FnType_1;
                        assert(leaf_fn_type(o, a_orig));
                        assert(s1.checked_values@[at.0 as int] == CorePrismExpr::Type);
                        assert(crate::lang::expect_beq::tc_head(s1.checked_values@, at, env@)
                            == Some((at, env@)));
                        assert(a == a_orig);
                        assert(crate::lang::env::env_at(bs@, 0) == SEntry::CType(id, a));
                        assert(applied_var_return(s4.checked_values@, s4.queued_beq_free@, b, bs@)
                            == Some(q));
                        let rt = s5.checked_values@[bt.0 as int]->Let_1;
                        let x = s5.checked_values@[bt.0 as int]->Let_0;
                        assert(s5.checked_values@[rt.0 as int] == CorePrismExpr::Type);
                        let st1 = crate::lang::beta_reduce_head::BrhState {
                            e: rt,
                            s: bs@.push(SEntry::RSubst(x, bs@)),
                            ..crate::lang::beta_reduce_head::brh_init(bt, bs@)
                        };
                        assert(crate::lang::beta_reduce_head::brh_run(
                            s5.checked_values@,
                            st1,
                            (BRH_STEP_LIMIT - 1) as nat,
                        ) == Some((rt, bs@.push(SEntry::RSubst(x, bs@)))));
                        assert(crate::lang::expect_beq::tc_head(s5.checked_values@, bt, bs@)
                            == Some((rt, bs@.push(SEntry::RSubst(x, bs@)))));
                    }
                }
                proof {
                    if depth + 2 < RECURSION_LIMIT && binder_arg_outcome(s0.checked_values@, i) is Some {
                        let o = s0.checked_values@;
                        let p = o[a_orig.0 as int]->FnType_0;
                        assert(leaf_fn_type(o, a_orig));
                        assert(s1.checked_values@[at.0 as int] == CorePrismExpr::Type);
                        assert(crate::lang::expect_beq::tc_head(s1.checked_values@, at, env@)
                            == Some((at, env@)));
                        assert(a == a_orig);
                        assert(crate::lang::env::env_at(bs@, 0) == SEntry::CType(id, a));
                        let sr = crate::lang::env::env_shift(bs@, ((0 + 1) as usize) as int);
                        assert(crate::lang::expect_beq::tc_head(o, p, sr) == Some((p, sr)));
                        assert(fn_arg_outcome(s4.checked_values@, b, bs@) is Some);
                    }
                }
                if self.errors.len() == err_count {
                    self.expect_beq_type(bt, &bs);
                }
                proof {
                    lemma_keeps_trans(&s0, &s5, self, None, None);
                }
                CorePrismExpr::Type
            },
            CorePrismExpr::FnConstruct(b) => {
                let a = self.store_tc(CorePrismExpr::Free, ValueOrigin::FreeSub(i));
                let ghost s1 = *self;
                proof {
                    lemma_keeps_refl(&s1);
                }
                let id = self.new_tc_id();
                let bs = env.cons(EnvEntry::CType(id, a));
                proof {
                    assert(keeps(&s1, self, None)) by {
                        lemma_keeps_refl(&s1);
                    }
                    lemma_keeps_trans(&s0, &s1, self, None, None);
                    assert(tc_env(bs@));
                }
                let ghost s2 = *self;
                proof {
                    lemma_keeps_refl(&s2);
                }
                let bt = self.type_check_in(b, &bs, depth + 1);
                proof {
                    lemma_keeps_trans(&s0, &s2, self, None, None);
                    lemma_keeps_trans(&s1, &s2, self, None, None);
                    lemma_prefix_at(s1.checked_origins@, self.checked_origins@, a.0 as int);
                    if b.0 < s0.checked_values@.len() {
                        assert(s2.checked_values@[b.0 as int] == s0.checked_values@[b.0 as int]);
                    }
                }
                CorePrismExpr::FnType(a, bt)
            },
            CorePrismExpr::FnDestruct(f, a) => {
                let ghost a_orig = a;
                let mut a = a;
                let err_count = self.errors.len();
                let at = self.type_check_in(a, env, depth + 1);
                let ghost s1 = *self;
                proof {
                    lemma_keeps_refl(&s1);
                }
                if self.errors.len() > err_count {
                    a = self.store_tc(CorePrismExpr::Free, ValueOrigin::Failure);
                }
                let ghost s2 = *self;
                proof {
                    lemma_keeps_refl(&s2);
                }
                let rt = self.store_tc(CorePrismExpr::Free, ValueOrigin::TypeOf(i));
                let ghost s3 = *self;
                proof {
                    lemma_keeps_refl(&s3);
                }
                let err_count = self.errors.len();
                let ft = self.type_check_in(f, env, depth + 1);
                let ghost s4 = *self;
                proof {
                    lemma_keeps_refl(&s4);
                }
                proof {
                    lemma_keeps_trans(&s0, &s1, &s2, None, None);
                    lemma_keeps_trans(&s0, &s2, &s3, None, None);
                    lemma_keeps_trans(&s0, &s3, &s4, None, None);
                }
                proof {
                    if depth + 1 < RECURSION_LIMIT && f.0 < s0.checked_values@.len()
                        && applies_no_function(s0.checked_values@[f.0 as int]) {
                        assert(s3.checked_values@[f.0 as int] == s0.checked_values@[f.0 as int]);
                        assert(s4.checked_values@[ft.0 as int] == CorePrismExpr::Type);
                        assert(crate::lang::expect_beq::tc_head(s4.checked_values@, ft, env@)
                            == Some((ft, env@)));
                    }
                }
                proof {
                    if depth + 1 < RECURSION_LIMIT && applied_var_return(
                        s0.checked_values@,
                        s0.queued_beq_free@,
                        i,
                        env@,
                    ) is Some {
                        let o = s0.checked_values@;
                        let v4 = s4.checked_values@;
                        let k = o[f.0 as int]->DeBruijnIndex_0;
                        let t = entry_type(crate::lang::env::env_at(env@, k as int))->0;
                        let p = o[t.0 as int]->FnType_0;
                        let q = o[t.0 as int]->FnType_1;
                        let sr = crate::lang::env::env_shift(env@, ((k + 1) as usize) as int);
                        assert(a == a_orig);
                        assert(v4[ft.0 as int] == CorePrismExpr::Shift(t, (k + 1) as usize));
                        assert(v4[t.0 as int] == o[t.0 as int]);
                        assert(v4[p.0 as int] == o[p.0 as int]);
                        assert(v4[at.0 as int] == o[p.0 as int]);
                        assert(v4[rt.0 as int] == CorePrismExpr::Free);
                        let st0 = crate::lang::beta_reduce_head::brh_init(ft, env@);
                        let st1 = crate::lang::beta_reduce_head::BrhState { e: t, s: sr, ..st0 };
                        assert(crate::lang::beta_reduce_head::brh_run(v4, st1, (BRH_STEP_LIMIT - 1) as nat)
                            == Some((t, sr)));
                        assert(crate::lang::expect_beq::tc_head(v4, ft, env@) == Some((t, sr)));
                        assert(crate::lang::expect_beq::tc_head(v4, p, sr) == Some((p, sr)));
                        assert(crate::lang::expect_beq::tc_head(v4, at, env@) == Some((at, env@)));
                        assert(crate::lang::expect_beq::known_beq(
                            v4,
                            p,
                            sr,
                            at,
                            env@,
                            s4.tc_id,
                            RECURSION_LIMIT as nat,
                        ) == Some((true, s4.tc_id)));
                        crate::lang::expect_beq::lemma_keeps_grows(&s0, &s4);
                        crate::lang::expect_beq::lemma_plain_tree_transfer(
                            o,
                            Set::empty(),
                            v4,
                            Set::empty(),
                            q,
                            (RECURSION_LIMIT - 1) as nat,
                        );
                        assert(crate::lang::expect_beq::plain_unification_in(
                            v4,
                            s4.queued_beq_free@,
                            Set::empty(),
                            q,
                            rt,
                            (RECURSION_LIMIT - 1) as nat,
                        ));
                    }
                }
                proof {
                    if depth + 1 < RECURSION_LIMIT && fn_arg_outcome(s0.checked_values@, i, env@) is Some {
                        let o = s0.checked_values@;
                        let v4 = s4.checked_values@;
                        let k = o[f.0 as int]->DeBruijnIndex_0;
                        let t = entry_type(crate::lang::env::env_at(env@, k as int))->0;
                        let p = o[t.0 as int]->FnType_0;
                        let sr = crate::lang::env::env_shift(env@, ((k + 1) as usize) as int);
                        assert(a == a_orig);
                        assert(v4.subrange(0, o.len() as int) =~= o);
                        assert(v4[ft.0 as int] == CorePrismExpr::Shift(t, (k + 1) as usize));
                        assert(v4[t.0 as int] == o[t.0 as int]);
                        let st0 = crate::lang::beta_reduce_head::brh_init(ft, env@);
                        let st1 = crate::lang::beta_reduce_head::BrhState { e: t, s: sr, ..st0 };
                        assert(crate::lang::beta_reduce_head::brh_run(v4, st1, (BRH_STEP_LIMIT - 1) as nat)
                            == Some((t, sr)));
                        assert(crate::lang::expect_beq::tc_head(v4, ft, env@) == Some((t, sr)));
                        crate::lang::beta_reduce_head::lemma_brh_prefix(
                            o,
                            v4,
                            crate::lang::beta_reduce_head::brh_init(p, sr),
                            BRH_STEP_LIMIT as nat,
                        );
                        assert(crate::lang::expect_beq::tc_head(v4, p, sr)
                            == crate::lang::expect_beq::tc_head(o, p, sr));
                        let hp = (crate::lang::expect_beq::tc_head(o, p, sr)->0).0;
                        assert(v4[hp.0 as int] == o[hp.0 as int]);
                        assert(crate::lang::expect_beq::tc_head(v4, at, env@) == Some((at, env@)));
                        assert(crate::lang::expect_beq::known_beq(
                            v4,
                            p,
                            sr,
                            at,
                            env@,
                            s4.tc_id,
                            RECURSION_LIMIT as nat,
                        ) == Some(((fn_arg_outcome(o, i, env@)->0).0, s4.tc_id)));
                    }
                }
                if self.errors.len() == err_count {
                    self.expect_beq_fn_type(ft, at, rt, env);
                }
                let ghost s5 = *self;
                proof {
                    if depth + 1 < RECURSION_LIMIT && applied_var_return(
                        s0.checked_values@,
                        s0.queued_beq_free@,
                        i,
                        env@,
                    ) is Some {
                        let q = applied_var_return(s0.checked_values@, s0.queued_beq_free@, i, env@)->0;
                        crate::lang::expect_beq::lemma_keeps_grows(&s0, &s4);
                        lemma_keeps_refl(&s5);
                        crate::lang::expect_beq::lemma_keeps_grows(&s5, &s5);
                        crate::lang::expect_beq::lemma_copied_tree_transfer(
                            s0.checked_values@,
                            Set::empty(),
                            s4.checked_values@,
                            q,
                            s5.checked_values@,
                            s5.checked_values@,
                            rt,
                            (RECURSION_LIMIT - 1) as nat,
                        );
                    }
                }
                proof {
                    lemma_keeps_trans(&s0, &s4, self, None, None);
                    lemma_keeps_trans(&s3, &s4, self, None, None);
                    lemma_keeps_trans(&s2, &s3, self, None, None);
                    lemma_prefix_at(s3.checked_origins@, self.checked_origins@, rt.0 as int);
                    if a != a_orig {
                        lemma_prefix_at(s2.checked_origins@, self.checked_origins@, a.0 as int);
                    }
                }
                CorePrismExpr::Let(a, rt)
            },
            CorePrismExpr::TypeAssert(e, typ) => {
                let err_count1 = self.errors.len();
                let et = self.type_check_in(e, env, depth + 1);
                let ghost s1 = *self;
                proof {
                    lemma_keeps_refl(&s1);
                }
                let err_count2 = self.errors.len();
                let typt = self.type_check_in(typ, env, depth + 1);
                let ghost s2 = *self;
                proof {
                    lemma_keeps_refl(&s2);
                }
                if self.errors.len() == err_count2 {
                    self.expect_beq_type(typt, env);
                }
                let ghost s3 = *self;
                proof {
                    lemma_keeps_refl(&s3);
                }
                proof {
                    if depth + 1 < RECURSION_LIMIT && e.0 < s0.checked_values@.len() && typ.0
                        < s0.checked_values@.len() && s0.checked_values@[e.0 as int] is Type
                        && s0.checked_values@[typ.0 as int] is FnType {
                        lemma_keeps_trans(&s1, &s2, &s3, None, None);
                        assert(s1.checked_values@[et.0 as int] == CorePrismExpr::Type);
                        assert(s3.checked_values@[et.0 as int] == CorePrismExpr::Type);
                        assert(s3.checked_values@[typ.0 as int] == s0.checked_values@[typ.0 as int]);
                        assert(crate::lang::expect_beq::tc_head(s3.checked_values@, et, env@)
                            == Some((et, env@)));
                        assert(crate::lang::expect_beq::tc_head(s3.checked_values@, typ, env@)
                            == Some((typ, env@)));
                    }
                }
                if self.errors.len() == err_count1 {
                    self.expect_beq_assert(e, et, typ, env);
                }
                proof {
                    lemma_keeps_trans(&s0, &s1, &s2, None, None);
                    lemma_keeps_trans(&s0, &s2, &s3, None, None);
                    lemma_keeps_trans(&s0, &s3, self, None, None);
                }
                return et;
            },
            CorePrismExpr::Free => CorePrismExpr::Free,
            CorePrismExpr::Shift(v, shift) => {
                if shift > env.len() {
                    self.push_type_error(TypeError::IndexOutOfBound(i));
                    let ghost s1 = *self;
                    proof {
                        lemma_keeps_refl(&s1);
                    }
                    let r = self.store_tc(CorePrismExpr::Free, ValueOrigin::Failure);
                    proof {
                        lemma_keeps_trans(&s0, &s1, self, None, None);
                    }
                    return r;
                }
                let shifted = env.shift(shift);
                proof {
                    assert(tc_env(shifted@));
                }
                let vt = self.type_check_in(v, &shifted, depth + 1);
                CorePrismExpr::Shift(vt, shift)
            },
            CorePrismExpr::GrammarValue(_) => CorePrismExpr::GrammarType,
            CorePrismExpr::GrammarType => CorePrismExpr::Type,
        };
        let ghost s9 = *self;
        proof {
            lemma_keeps_refl(&s9);
            assert(type_parts(
                s0.checked_values@[i.0 as int],
                i,
                s0.checked_values@.len() as nat,
                s9.checked_origins@,
                t,
            ));
            assert(parts_within(s0.checked_values@[i.0 as int], s9.checked_origins@.len(), t));
        }
        let tid = self.store_tc(t, ValueOrigin::TypeOf(i));
        self.checked_types.insert(i.0, tid);
        proof {
            assert forall|k: usize| k != i.0 && s9.checked_types@.contains_key(k) implies self.checked_types@.contains_key(k)
                && #[trigger] self.checked_types@[k] == s9.checked_types@[k] by {}
            assert(self.checked_values@[tid.0 as int] == t);
            if depth + 1 < RECURSION_LIMIT && applied_var_return(
                s0.checked_values@,
                s0.queued_beq_free@,
                i,
                env@,
            ) is Some {
                let q = applied_var_return(s0.checked_values@, s0.queued_beq_free@, i, env@)->0;
                lemma_keeps_trans(&s0, &s9, self, None, None);
                crate::lang::expect_beq::lemma_keeps_grows(&s9, self);
                crate::lang::expect_beq::lemma_keeps_grows(&s0, &s0);
                crate::lang::expect_beq::lemma_copied_tree_transfer(
                    s0.checked_values@,
                    Set::empty(),
                    s0.checked_values@,
                    q,
                    s9.checked_values@,
                    self.checked_values@,
                    t->Let_1,
                    (RECURSION_LIMIT - 1) as nat,
                );
            }
            lemma_keeps_trans(&s0, &s9, self, None, None);
            assert(self.checked_origins@.subrange(0, s9.checked_origins@.len() as int)
                =~= s9.checked_origins@);
            lemma_type_parts_prefix(
                s0.checked_values@[i.0 as int],
                i,
                s0.checked_values@.len() as nat,
                s9.checked_origins@,
                self.checked_origins@,
                t,
            );
        }
        tid
    }
}

} // verus!
