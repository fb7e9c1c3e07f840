use crate::lang::beta_reduce_head::{brh_init, brh_run};
use crate::lang::env::{DbEnv, EnvEntry, SEntry, UniqueVariableId};
use crate::lang::error::{PrismError, TypeError};
use crate::lang::type_check::{fn_arg_count, keeps, lemma_keeps_free_target, lemma_keeps_refl, lemma_keeps_trans, BRH_STEP_LIMIT, RECURSION_LIMIT};
use crate::lang::{CoreIndex, CorePrismExpr, PrismEnv, QueuedConstraint, ValueOrigin};
use std::collections::HashMap;
use vstd::prelude::*;

verus! {

broadcast use vstd::std_specs::hash::group_hash_axioms;

/// `keeps` from `a` to `c` through `b`, with no exception.
proof fn chain(a: &PrismEnv, b: &PrismEnv, c: &PrismEnv)
    requires
        keeps(a, b, None),
        keeps(b, c, None),
    ensures
        keeps(a, c, None),
{
    lemma_keeps_trans(a, b, c, None, None);
}

/// Head reduction of `i` in `s` as type checking runs it: at most `BRH_STEP_LIMIT` steps.
pub open spec fn tc_head(values: Seq<CorePrismExpr>, i: CoreIndex, s: Seq<SEntry>) -> Option<
    (CoreIndex, Seq<SEntry>),
> {
    brh_run(values, brh_init(i, s), BRH_STEP_LIMIT as nat)
}

/// Two head normal forms of the same kind that are compared part by part.
pub open spec fn same_kind(a: CorePrismExpr, b: CorePrismExpr) -> bool {
    ||| (a is Type && b is Type)
    ||| (a is GrammarType && b is GrammarType)
    ||| (a is DeBruijnIndex && b is DeBruijnIndex)
    ||| (a is FnType && b is FnType)
    ||| (a is FnConstruct && b is FnConstruct)
}

/// A head normal form that can be neither filled in nor taken apart as an application.
pub open spec fn rigid(a: CorePrismExpr) -> bool {
    !(a is Free) && !(a is FnDestruct)
}

/// Nothing that type checking keeps track of has changed.
pub open spec fn unchanged(old: &PrismEnv, new: &PrismEnv) -> bool {
    &&& new.checked_values == old.checked_values
    &&& new.checked_origins == old.checked_origins
    &&& new.errors == old.errors
}

/// The only change is the error `e`.
pub open spec fn one_error(old: &PrismEnv, new: &PrismEnv, e: TypeError) -> bool {
    &&& new.checked_values == old.checked_values
    &&& new.checked_origins == old.checked_origins
    &&& new.errors@ == old.errors@.push(PrismError::TypeError(e))
}

/// The outcome of comparing `i1` in `s1` with `i2` in `s2` when both head normal forms
/// are known and neither can be filled in: equal when both are `Type` (or both the
/// grammar type), unequal when their kinds differ; nothing changes.
pub open spec fn rigid_outcome(
    values: Seq<CorePrismExpr>,
    i1: CoreIndex,
    s1: Seq<SEntry>,
    i2: CoreIndex,
    s2: Seq<SEntry>,
) -> Option<bool> {
    match (tc_head(values, i1, s1), tc_head(values, i2, s2)) {
        (Some((h1, _)), Some((h2, _))) => if h1.0 < values.len() && h2.0 < values.len() {
            let e1 = values[h1.0 as int];
            let e2 = values[h2.0 as int];
            if (e1 is Type && e2 is Type) || (e1 is GrammarType && e2 is GrammarType) {
                Some(true)
            } else if rigid(e1) && rigid(e2) && !same_kind(e1, e2) {
                Some(false)
            } else {
                None
            }
        } else {
            None
        },
        _ => None,
    }
}

/// The identity of the variable at de Bruijn index `j` of `s`, when `s` has an entry
/// there that stands for a variable.
pub open spec fn var_id(s: Seq<SEntry>, j: usize) -> Option<UniqueVariableId> {
    if j < s.len() {
        match crate::lang::env::env_at(s, j as int) {
            SEntry::CType(id, _) => Some(id),
            SEntry::RType(id) => Some(id),
            _ => None,
        }
    } else {
        None
    }
}

/// The outcome of comparing `i1` in `s1` with `i2` in `s2` where it needs no free value
/// filled in, with the identity counter afterwards, starting from `id`: after head
/// reduction, `Type` equals `Type` and the grammar type itself; two variables are equal
/// when they stand for the same variable; two function types, two functions and two
/// applications are equal when their parts are, the bodies compared under a common fresh
/// variable; heads of different kinds that cannot be filled in are unequal. `None` where
/// a free value is met, a reduction does not end, or `fuel` runs out.
pub open spec fn known_beq(
    values: Seq<CorePrismExpr>,
    i1: CoreIndex,
    s1: Seq<SEntry>,
    i2: CoreIndex,
    s2: Seq<SEntry>,
    id: usize,
    fuel: nat,
) -> Option<(bool, usize)>
    decreases fuel,
{
    if fuel == 0 {
        None
    } else {
        let f = (fuel - 1) as nat;
        match (tc_head(values, i1, s1), tc_head(values, i2, s2)) {
            (Some((h1, hs1)), Some((h2, hs2))) => if h1.0 < values.len() && h2.0 < values.len() {
                let e1 = values[h1.0 as int];
                let e2 = values[h2.0 as int];
                match (e1, e2) {
                    (CorePrismExpr::Type, CorePrismExpr::Type) => Some((true, id)),
                    (CorePrismExpr::GrammarType, CorePrismExpr::GrammarType) => Some((true, id)),
                    (CorePrismExpr::DeBruijnIndex(j1), CorePrismExpr::DeBruijnIndex(j2)) => Some(
                        (var_id(hs1, j1) is Some && var_id(hs1, j1) == var_id(hs2, j2), id),
                    ),
                    (CorePrismExpr::FnType(a1, b1), CorePrismExpr::FnType(a2, b2)) => match known_beq(
                        values,
                        a1,
                        hs1,
                        a2,
                        hs2,
                        id,
                        f,
                    ) {
                        Some((ra, id1)) => match known_beq(
                            values,
                            b1,
                            hs1.push(SEntry::RType(UniqueVariableId(id1))),
                            b2,
                            hs2.push(SEntry::RType(UniqueVariableId(id1))),
                            crate::lang::next_id(id1),
                            f,
                        ) {
                            Some((rb, id2)) => Some((ra && rb, id2)),
                            None => None,
                        },
                        None => None,
                    },
                    (CorePrismExpr::FnConstruct(b1), CorePrismExpr::FnConstruct(b2)) => known_beq(
                        values,
                        b1,
                        hs1.push(SEntry::RType(UniqueVariableId(id))),
                        b2,
                        hs2.push(SEntry::RType(UniqueVariableId(id))),
                        crate::lang::next_id(id),
                        f,
                    ),
                    (CorePrismExpr::FnDestruct(f1, a1), CorePrismExpr::FnDestruct(f2, a2)) => match known_beq(
                        values,
                        f1,
                        hs1,
                        f2,
                        hs2,
                        id,
                        f,
                    ) {
                        Some((rf, id1)) => match known_beq(values, a1, hs1, a2, hs2, id1, f) {
                            Some((ra, id2)) => Some((rf && ra, id2)),
                            None => None,
                        },
                        None => None,
                    },
                    _ => if rigid(e1) && rigid(e2) && !same_kind(e1, e2) {
                        Some((false, id))
                    } else {
                        None
                    },
                }
            } else {
                None
            },
            _ => None,
        }
    }
}

/// Where the variable at de Bruijn index `v1` of `s1`, a typed or substituted variable of
/// type checking, is found in `s2`: the entry at the same place counted from the oldest,
/// when `s2` reaches that far and holds an entry of the same kind there.
pub open spec fn moved_index(s1: Seq<SEntry>, s2: Seq<SEntry>, v1: usize) -> Option<usize> {
    if v1 >= s1.len() || s2.len() < s1.len() - v1 {
        None
    } else {
        let v2 = (s2.len() - (s1.len() - v1)) as usize;
        match (crate::lang::env::env_at(s1, v1 as int), crate::lang::env::env_at(s2, v2 as int)) {
            (SEntry::CType(..), SEntry::CType(..)) => Some(v2),
            (SEntry::CSubst(..), SEntry::CSubst(..)) => Some(v2),
            _ => None,
        }
    }
}

/// A value that unification fills in as it is: `Type`, the grammar type or a grammar.
pub open spec fn leaf_value(e: CorePrismExpr) -> bool {
    e is Type || e is GrammarType || e is GrammarValue
}

/// The parts of a value that unification fills in part by part, in order.
pub open spec fn unified_parts(e: CorePrismExpr) -> Seq<CoreIndex> {
    match e {
        CorePrismExpr::Let(v, b) => seq![v, b],
        CorePrismExpr::FnType(a, b) => seq![a, b],
        CorePrismExpr::FnConstruct(b) => seq![b],
        CorePrismExpr::FnDestruct(f, a) => seq![f, a],
        _ => Seq::empty(),
    }
}

/// A value whose kind unification copies: a leaf, a `let`, a function type, a function
/// or an application.
pub open spec fn copied_kind(e: CorePrismExpr) -> bool {
    leaf_value(e) || e is Let || e is FnType || e is FnConstruct || e is FnDestruct
}

/// `i` heads a tree of the arena `values` that unification copies node by node: within
/// `fuel` levels, every node is a leaf, a `let`, a function type, a function or an
/// application, and none is among the values being solved, `toxic`.
pub open spec fn plain_tree(values: Seq<CorePrismExpr>, toxic: Set<usize>, i: CoreIndex, fuel: nat) -> bool
    decreases fuel,
{
    if fuel == 0 {
        false
    } else {
        &&& i.0 < values.len()
        &&& copied_kind(values[i.0 as int])
        &&& !toxic.contains(i.0)
        &&& forall|k: int|
            0 <= k < unified_parts(values[i.0 as int]).len() ==> plain_tree(
                values,
                toxic,
                #[trigger] unified_parts(values[i.0 as int])[k],
                (fuel - 1) as nat,
            )
    }
}

/// Unifying the free value `i2` with `i1` needs nothing but filling in: `i1` heads a tree
/// of `values` that unification copies within `fuel` levels (`plain_tree`), and no
/// constraint of `queue` waits for `i2`, nor for anything outside the arena.
pub open spec fn plain_unification_in(
    values: Seq<CorePrismExpr>,
    queue: Map<usize, Vec<QueuedConstraint>>,
    toxic: Set<usize>,
    i1: CoreIndex,
    i2: CoreIndex,
    fuel: nat,
) -> bool {
    &&& i2.0 < values.len()
    &&& values[i2.0 as int] is Free
    &&& !queue.contains_key(i2.0)
    &&& forall|k: usize| queue.contains_key(k) ==> k < values.len()
    &&& plain_tree(values, toxic, i1, fuel)
}

/// `plain_unification_in` for the state of `env`.
pub open spec fn plain_unification(env: &PrismEnv, i1: CoreIndex, i2: CoreIndex, fuel: nat) -> bool {
    plain_unification_in(
        env.checked_values@,
        env.queued_beq_free@,
        env.toxic_values@,
        i1,
        i2,
        fuel,
    )
}

/// The tree at `i2` in `new` is a copy of the tree at `i1` in `old`, `fuel` levels deep:
/// every node has the kind of its original, a leaf is its very value, and the parts of a
/// node are new values that copy the parts of the original, in order.
pub open spec fn copied_tree(
    old: Seq<CorePrismExpr>,
    i1: CoreIndex,
    new: Seq<CorePrismExpr>,
    i2: CoreIndex,
    fuel: nat,
) -> bool
    decreases fuel,
{
    if fuel == 0 {
        false
    } else {
        &&& i2.0 < new.len()
        &&& inferred(old[i1.0 as int], old.len(), new[i2.0 as int])
        &&& leaf_value(old[i1.0 as int]) ==> new[i2.0 as int] == old[i1.0 as int]
        &&& unified_parts(new[i2.0 as int]).len() == unified_parts(old[i1.0 as int]).len()
        &&& forall|k: int|
            0 <= k < unified_parts(old[i1.0 as int]).len() ==> copied_tree(
                old,
                #[trigger] unified_parts(old[i1.0 as int])[k],
                new,
                unified_parts(new[i2.0 as int])[k],
                (fuel - 1) as nat,
            )
    }
}

/// From `a` to `b` the arena only grows, and every value of `a` that was set stays.
pub open spec fn grows(a: Seq<CorePrismExpr>, b: Seq<CorePrismExpr>) -> bool {
    &&& a.len() <= b.len()
    &&& forall|j: int| 0 <= j < a.len() && a[j] != CorePrismExpr::Free ==> #[trigger] b[j] == a[j]
}

/// A tree that unification copies in `old` still is one in a grown arena, where the values
/// being solved that were set in `old` were already being solved then.
pub proof fn lemma_plain_tree_transfer(
    old: Seq<CorePrismExpr>,
    toxic: Set<usize>,
    new: Seq<CorePrismExpr>,
    toxic2: Set<usize>,
    i: CoreIndex,
    fuel: nat,
)
    requires
        plain_tree(old, toxic, i, fuel),
        grows(old, new),
        forall|x: usize|
            toxic2.contains(x) && x < old.len() && old[x as int] != CorePrismExpr::Free
                ==> toxic.contains(x),
    ensures
        plain_tree(new, toxic2, i, fuel),
    decreases fuel,
{
    assert(new[i.0 as int] == old[i.0 as int]);
    assert forall|k: int|
        0 <= k < unified_parts(new[i.0 as int]).len() implies plain_tree(
        new,
        toxic2,
        #[trigger] unified_parts(new[i.0 as int])[k],
        (fuel - 1) as nat,
    ) by {
        lemma_plain_tree_transfer(
            old,
            toxic,
            new,
            toxic2,
            unified_parts(old[i.0 as int])[k],
            (fuel - 1) as nat,
        );
    }
}

/// A copy made in a grown arena `a` of a tree of `old` is a copy of the tree of `old`, and
/// stays one as the arena grows on from `b` to `c`.
pub proof fn lemma_copied_tree_transfer(
    old: Seq<CorePrismExpr>,
    toxic: Set<usize>,
    a: Seq<CorePrismExpr>,
    i1: CoreIndex,
    b: Seq<CorePrismExpr>,
    c: Seq<CorePrismExpr>,
    i2: CoreIndex,
    fuel: nat,
)
    requires
        plain_tree(old, toxic, i1, fuel),
        grows(old, a),
        copied_tree(a, i1, b, i2, fuel),
        grows(b, c),
    ensures
        copied_tree(old, i1, c, i2, fuel),
    decreases fuel,
{
    assert(a[i1.0 as int] == old[i1.0 as int]);
    assert(b[i2.0 as int] != CorePrismExpr::Free);
    assert(c[i2.0 as int] == b[i2.0 as int]);
    assert forall|k: int|
        0 <= k < unified_parts(old[i1.0 as int]).len() implies copied_tree(
        old,
        #[trigger] unified_parts(old[i1.0 as int])[k],
        c,
        unified_parts(c[i2.0 as int])[k],
        (fuel - 1) as nat,
    ) by {
        lemma_copied_tree_transfer(
            old,
            toxic,
            a,
            unified_parts(old[i1.0 as int])[k],
            b,
            c,
            unified_parts(b[i2.0 as int])[k],
            (fuel - 1) as nat,
        );
    }
}

/// What type checking keeps from one state to the next keeps the arena growing.
pub proof fn lemma_keeps_grows(a: &PrismEnv, b: &PrismEnv)
    requires
        keeps(a, b, None),
    ensures
        grows(a.checked_values@, b.checked_values@),
{
    assert forall|j: int|
        0 <= j < a.checked_values@.len() && a.checked_values@[j] != CorePrismExpr::Free implies #[trigger] b.checked_values@[j]
        == a.checked_values@[j] by {}
}

/// What inferring the free value `i2` from `e1`, the value of `i1`, fills in, where that
/// does not depend on the scopes: the same constant, or a node of the same kind whose
/// parts are new free values.
pub open spec fn inferred(e1: CorePrismExpr, old_len: nat, filled: CorePrismExpr) -> bool {
    match e1 {
        CorePrismExpr::Type => filled == CorePrismExpr::Type,
        CorePrismExpr::GrammarType => filled == CorePrismExpr::GrammarType,
        CorePrismExpr::GrammarValue(g) => filled == CorePrismExpr::GrammarValue(g),
        CorePrismExpr::Let(..) => filled matches CorePrismExpr::Let(v, b) && v.0 >= old_len && b.0
            >= old_len,
        CorePrismExpr::FnType(..) => filled matches CorePrismExpr::FnType(a, b) && a.0 >= old_len
            && b.0 >= old_len,
        CorePrismExpr::FnConstruct(..) => filled matches CorePrismExpr::FnConstruct(b) && b.0
            >= old_len,
        CorePrismExpr::FnDestruct(..) => filled matches CorePrismExpr::FnDestruct(f, a) && f.0
            >= old_len && a.0 >= old_len,
        _ => true,
    }
}

/// The identity of the variable an entry stands for, if it stands for one.
fn entry_var_id(e: &EnvEntry) -> (r: Option<UniqueVariableId>)
    ensures
        match e {
            EnvEntry::CType(id, _) => r == Some(*id),
            EnvEntry::RType(id) => r == Some(*id),
            _ => r is None,
        },
{
    match e {
        EnvEntry::CType(id, _) => Some(*id),
        EnvEntry::RType(id) => Some(*id),
        _ => None,
    }
}

impl PrismEnv {
    /// Sets the free value at `i` to `e`.
    fn fill_free(&mut self, i: CoreIndex, e: CorePrismExpr)
        requires
            old(self).arena_wf(),
            i.0 < old(self).checked_values@.len(),
            old(self).checked_values@[i.0 as int] == CorePrismExpr::Free,
        ensures
            keeps(old(self), final(self), None),
            final(self).checked_values@ == old(self).checked_values@.update(i.0 as int, e),
            final(self).errors == old(self).errors,
            final(self).tc_id == old(self).tc_id,
            final(self).checked_origins == old(self).checked_origins,
            final(self).queued_beq_free == old(self).queued_beq_free,
            final(self).toxic_values == old(self).toxic_values,
    {
        let ghost s0 = *self;
        self.set_value(i, e);
        proof {
            lemma_keeps_free_target(&s0, self, i.0);
        }
    }

    /// Whether `i` is a value of the arena that is free.
    fn is_free_value(&self, i: CoreIndex) -> (r: bool)
        ensures
            r == (i.0 < self.checked_values@.len() && self.checked_values@[i.0 as int]
                == CorePrismExpr::Free),
    {
        i.0 < self.checked_values.len() && match self.checked_values[i.0] {
            CorePrismExpr::Free => true,
            _ => false,
        }
    }

    /// Records that the free value `k` must equal the constraint's value once it is known:
    /// the constraint goes last in the queue of `k`, and nothing else changes.
    fn queue_constraint(&mut self, k: CoreIndex, c: QueuedConstraint)
        ensures
            final(self).checked_values == old(self).checked_values,
            final(self).checked_origins == old(self).checked_origins,
            final(self).errors == old(self).errors,
            final(self).tc_id == old(self).tc_id,
            final(self).parsed_values == old(self).parsed_values,
            final(self).parsed_spans == old(self).parsed_spans,
            final(self).checked_types == old(self).checked_types,
            final(self).toxic_values == old(self).toxic_values,
            final(self).files == old(self).files,
            final(self).queued_beq_free@.dom() == old(self).queued_beq_free@.dom().insert(k.0),
            final(self).queued_beq_free@.remove(k.0) == old(self).queued_beq_free@.remove(k.0),
            final(self).queued_beq_free@[k.0]@ == (if old(self).queued_beq_free@.contains_key(k.0) {
                old(self).queued_beq_free@[k.0]@
            } else {
                Seq::<QueuedConstraint>::empty()
            }).push(c),
    {
        match self.queued_beq_free.remove(&k.0) {
            Some(mut queued) => {
                queued.push(c);
                self.queued_beq_free.insert(k.0, queued);
            },
            None => {
                let mut queued: Vec<QueuedConstraint> = Vec::new();
                queued.push(c);
                self.queued_beq_free.insert(k.0, queued);
            },
        }
    }

    /// Records the error for a check that went deeper than `RECURSION_LIMIT`, or a head
    /// reduction that took more than `BRH_STEP_LIMIT` steps.
    fn recursion_limit(&mut self, i1: CoreIndex, i2: CoreIndex)
        requires
            old(self).arena_wf(),
        ensures
            keeps(old(self), final(self), None),
            fn_arg_count(final(self).errors@) == fn_arg_count(old(self).errors@),
            one_error(old(self), final(self), TypeError::RecursionLimit(i1, i2)),
    {
        self.push_type_error(TypeError::RecursionLimit(i1, i2));
    }

    /// Records that the value inferred for `free_var` could not be expressed in its scope.
    fn bad_infer(&mut self, free_var: CoreIndex, inferred_var: CoreIndex)
        requires
            old(self).arena_wf(),
        ensures
            keeps(old(self), final(self), None),
            fn_arg_count(final(self).errors@) == fn_arg_count(old(self).errors@),
            one_error(old(self), final(self), TypeError::BadInfer { free_var, inferred_var }),
    {
        self.push_type_error(TypeError::BadInfer { free_var, inferred_var });
    }

    /// Expects `expr_type` to be equal to `expected_type`, both in `s`; records
    /// `TypeError::ExpectTypeAssert` when they are not.
    pub fn expect_beq_assert(
        &mut self,
        expr: CoreIndex,
        expr_type: CoreIndex,
        expected_type: CoreIndex,
        s: &DbEnv,
    )
        requires
            old(self).arena_wf(),
        ensures
            keeps(old(self), final(self), None),
            rigid_outcome(old(self).checked_values@, expr_type, s@, expected_type, s@) == Some(
                true,
            ) ==> unchanged(old(self), final(self)),
            rigid_outcome(old(self).checked_values@, expr_type, s@, expected_type, s@) == Some(
                false,
            ) ==> one_error(
                old(self),
                final(self),
                TypeError::ExpectTypeAssert { expr, expr_type, expected_type },
            ),
    {
        let mut vm1: HashMap<usize, usize> = HashMap::new();
        let mut vm2: HashMap<usize, usize> = HashMap::new();
        let ghost s0 = *self;
        if !self.expect_beq_internal(expr_type, s, &mut vm1, expected_type, s, &mut vm2, 0) {
            let ghost s1 = *self;
            self.push_type_error(TypeError::ExpectTypeAssert { expr, expr_type, expected_type });
            proof {
                chain(&s0, &s1, self);
            }
        }
    }

    /// Expects `io` to be equal to `Type` in `s`; records `TypeError::ExpectType` when it
    /// is not.
    pub fn expect_beq_type(&mut self, io: CoreIndex, s: &DbEnv)
        requires
            old(self).arena_wf(),
        ensures
            keeps(old(self), final(self), None),
            fn_arg_count(final(self).errors@) == fn_arg_count(old(self).errors@),
            final(self).toxic_values@ == Set::<usize>::empty(),
            match tc_head(old(self).checked_values@, io, s@) {
                None => one_error(old(self), final(self), TypeError::RecursionLimit(io, io)),
                Some((i, _)) => if i.0 >= old(self).checked_values@.len() {
                    one_error(old(self), final(self), TypeError::IndexOutOfBound(i))
                } else {
                    match old(self).checked_values@[i.0 as int] {
                        CorePrismExpr::Type => unchanged(old(self), final(self))
                            && final(self).queued_beq_free == old(self).queued_beq_free,
                        CorePrismExpr::Free => final(self).checked_values@[i.0 as int]
                            == CorePrismExpr::Type,
                        _ => one_error(old(self), final(self), TypeError::ExpectType(io)),
                    }
                },
            },
    {
        let ghost s0 = *self;
        proof {
            lemma_keeps_refl(&s0);
        }
        match self.beta_reduce_head_bounded(io, s, BRH_STEP_LIMIT) {
            None => {
                self.recursion_limit(io, io);
            },
            Some((i, si)) => {
                if i.0 >= self.checked_values.len() {
                    self.push_type_error(TypeError::IndexOutOfBound(i));
                } else {
                    match self.checked_values[i.0] {
                        CorePrismExpr::Type => {},
                        CorePrismExpr::Free => {
                            self.fill_free(i, CorePrismExpr::Type);
                            let ghost s1 = *self;
                            let ok = self.handle_constraints(i, &si, 0);
                            proof {
                                chain(&s0, &s1, self);
                            }
                            if !ok {
                                let ghost s2 = *self;
                                self.push_type_error(TypeError::ExpectType(io));
                                proof {
                                    chain(&s0, &s2, self);
                                    chain(&s1, &s2, self);
                                }
                            }
                            proof {
                                assert(keeps(&s1, self, None));
                                assert(s1.checked_values@[i.0 as int] == CorePrismExpr::Type);
                            }
                        },
                        _ => {
                            self.push_type_error(TypeError::ExpectType(io));
                        },
                    }
                }
            },
        }
        self.toxic_values.clear();
    }

    /// Expects `ft` in `s` to be a function type whose argument type equals `at` and whose
    /// return type is `rt`, which should be free. Records `TypeError::ExpectFn` when `ft`
    /// is no function type, and `TypeError::ExpectFnArg` when the argument types differ.
    /// The free `rt` becomes a copy of the function type's return type where that is a
    /// tree that unification copies.
    pub fn expect_beq_fn_type(&mut self, ft: CoreIndex, at: CoreIndex, rt: CoreIndex, s: &DbEnv)
        requires
            old(self).arena_wf(),
        ensures
            keeps(old(self), final(self), None),
            final(self).toxic_values@ == Set::<usize>::empty(),
            match tc_head(old(self).checked_values@, ft, s@) {
                None => one_error(old(self), final(self), TypeError::RecursionLimit(ft, ft)),
                Some((fr, _)) => if fr.0 >= old(self).checked_values@.len() {
                    one_error(old(self), final(self), TypeError::IndexOutOfBound(fr))
                } else {
                    match old(self).checked_values@[fr.0 as int] {
                        CorePrismExpr::FnType(f_at, _) => (known_beq(
                            old(self).checked_values@,
                            f_at,
                            (tc_head(old(self).checked_values@, ft, s@)->0).1,
                            at,
                            s@,
                            old(self).tc_id,
                            RECURSION_LIMIT as nat,
                        ) matches Some((b, _)) ==> fn_arg_count(final(self).errors@) == fn_arg_count(
                            old(self).errors@,
                        ) + if b {
                            0nat
                        } else {
                            1nat
                        }) && (known_beq(
                            old(self).checked_values@,
                            f_at,
                            (tc_head(old(self).checked_values@, ft, s@)->0).1,
                            at,
                            s@,
                            old(self).tc_id,
                            RECURSION_LIMIT as nat,
                        ) matches Some((b, _)) ==> (!b ==> old(self).errors@.len()
                            < final(self).errors@.len() && final(self).errors@[old(
                            self,
                        ).errors@.len() as int] == PrismError::TypeError(
                            TypeError::ExpectFnArg {
                                function_type: ft,
                                function_arg_type: f_at,
                                arg_type: at,
                            },
                        ))) && (known_beq(
                            old(self).checked_values@,
                            f_at,
                            (tc_head(old(self).checked_values@, ft, s@)->0).1,
                            at,
                            s@,
                            old(self).tc_id,
                            RECURSION_LIMIT as nat,
                        ) is Some && rt.0 < old(self).checked_values@.len() && old(
                            self,
                        ).checked_values@[rt.0 as int] is Free && old(self).checked_values@[fr.0 as int]->FnType_1.0
                            < old(self).checked_values@.len() ==> inferred(
                            old(self).checked_values@[old(self).checked_values@[fr.0 as int]->FnType_1.0 as int],
                            old(self).checked_values@.len(),
                            final(self).checked_values@[rt.0 as int],
                        )) && (known_beq(
                            old(self).checked_values@,
                            f_at,
                            (tc_head(old(self).checked_values@, ft, s@)->0).1,
                            at,
                            s@,
                            old(self).tc_id,
                            RECURSION_LIMIT as nat,
                        ) matches Some((b, _)) ==> (plain_unification_in(
                            old(self).checked_values@,
                            old(self).queued_beq_free@,
                            Set::empty(),
                            old(self).checked_values@[fr.0 as int]->FnType_1,
                            rt,
                            (RECURSION_LIMIT - 1) as nat,
                        ) ==> copied_tree(
                            old(self).checked_values@,
                            old(self).checked_values@[fr.0 as int]->FnType_1,
                            final(self).checked_values@,
                            rt,
                            (RECURSION_LIMIT - 1) as nat,
                        ) && (b ==> final(self).errors == old(self).errors))),
                        CorePrismExpr::Free => final(self).checked_values@[fr.0 as int] is FnType,
                        _ => one_error(old(self), final(self), TypeError::ExpectFn(ft)),
                    }
                },
            },
    {
        let ghost s0 = *self;
        proof {
            lemma_keeps_refl(&s0);
        }
        match self.beta_reduce_head_bounded(ft, s, BRH_STEP_LIMIT) {
            None => {
                self.recursion_limit(ft, ft);
            },
            Some((fr, sr)) => {
                if fr.0 >= self.checked_values.len() {
                    self.push_type_error(TypeError::IndexOutOfBound(fr));
                } else {
                    match self.checked_values[fr.0] {
                        CorePrismExpr::FnType(f_at, f_rt) => {
                            let mut vm1: HashMap<usize, usize> = HashMap::new();
                            let mut vm2: HashMap<usize, usize> = HashMap::new();
                            if !self.expect_beq_internal(f_at, &sr, &mut vm1, at, s, &mut vm2, 0) {
                                let ghost s1 = *self;
                                self.push_type_error(
                                    TypeError::ExpectFnArg {
                                        function_type: ft,
                                        function_arg_type: f_at,
                                        arg_type: at,
                                    },
                                );
                                proof {
                                    chain(&s0, &s1, self);
                                    assert(s1.errors@.len() == s0.errors@.len() ==> self.errors@[s0.errors@.len() as int] == PrismError::TypeError(
                                        TypeError::ExpectFnArg {
                                            function_type: ft,
                                            function_arg_type: f_at,
                                            arg_type: at,
                                        },
                                    ));
                                }
                            }
                            self.toxic_values.clear();
                            let ghost s2 = *self;
                            self.expect_return_type(f_rt, &sr, rt, s);
                            proof {
                                chain(&s0, &s2, self);
                                if s0.errors@.len() < s2.errors@.len() {
                                    crate::lang::type_check::lemma_prefix_at(
                                        s2.errors@,
                                        self.errors@,
                                        s0.errors@.len() as int,
                                    );
                                }
                            }
                        },
                        CorePrismExpr::Free => {
                            let f_at = self.store_tc(CorePrismExpr::Free, ValueOrigin::FreeSub(fr));
                            let ghost s1 = *self;
                            let f_rt = self.store_tc(CorePrismExpr::Free, ValueOrigin::FreeSub(fr));
                            let ghost s2 = *self;
                            self.fill_free(fr, CorePrismExpr::FnType(f_at, f_rt));
                            let ghost s3 = *self;
                            proof {
                                chain(&s0, &s1, &s2);
                                chain(&s0, &s2, &s3);
                            }
                            if !self.handle_constraints(fr, &sr, 0) {
                                let ghost s4 = *self;
                                self.push_type_error(
                                    TypeError::ExpectFnArg {
                                        function_type: ft,
                                        function_arg_type: f_at,
                                        arg_type: at,
                                    },
                                );
                                proof {
                                    chain(&s3, &s4, self);
                                }
                            }
                            let ghost s5 = *self;
                            proof {
                                chain(&s0, &s3, &s5);
                            }
                            let mut vm1: HashMap<usize, usize> = HashMap::new();
                            let mut vm2: HashMap<usize, usize> = HashMap::new();
                            if self.is_free_value(f_at) {
                                if !self.expect_beq_free(at, s, &mut vm1, f_at, &sr, &mut vm2, 0) {
                                    let ghost s6 = *self;
                                    self.bad_infer(f_at, at);
                                    proof {
                                        chain(&s5, &s6, self);
                                    }
                                }
                            } else {
                                if !self.expect_beq_internal(at, s, &mut vm1, f_at, &sr, &mut vm2, 0) {
                                    let ghost s6 = *self;
                                    self.bad_infer(f_at, at);
                                    proof {
                                        chain(&s5, &s6, self);
                                    }
                                }
                            }
                            self.toxic_values.clear();
                            let ghost s7 = *self;
                            proof {
                                chain(&s0, &s5, &s7);
                            }
                            self.expect_return_type(f_rt, &sr, rt, s);
                            proof {
                                chain(&s0, &s7, self);
                                chain(&s3, &s5, &s7);
                                chain(&s3, &s7, self);
                                assert(s3.checked_values@[fr.0 as int] is FnType);
                            }
                        },
                        _ => {
                            self.push_type_error(TypeError::ExpectFn(ft));
                        },
                    }
                }
            },
        }
        self.toxic_values.clear();
    }

    /// Infers the free return type `rt` in `s` from `f_rt` in `sr`, both under a fresh
    /// argument. When `rt` is no longer free, the two are compared instead.
    fn expect_return_type(&mut self, f_rt: CoreIndex, sr: &DbEnv, rt: CoreIndex, s: &DbEnv)
        requires
            old(self).arena_wf(),
        ensures
            keeps(old(self), final(self), None),
            fn_arg_count(final(self).errors@) == fn_arg_count(old(self).errors@),
            rt.0 < old(self).checked_values@.len() && old(self).checked_values@[rt.0 as int] is Free
                && f_rt.0 < old(self).checked_values@.len() && !old(self).toxic_values@.contains(
                f_rt.0,
            ) ==> inferred(
                old(self).checked_values@[f_rt.0 as int],
                old(self).checked_values@.len(),
                final(self).checked_values@[rt.0 as int],
            ),
            plain_unification(old(self), f_rt, rt, (RECURSION_LIMIT - 1) as nat) ==> copied_tree(
                old(self).checked_values@,
                f_rt,
                final(self).checked_values@,
                rt,
                (RECURSION_LIMIT - 1) as nat,
            ) && final(self).errors == old(self).errors,
    {
        let ghost s0 = *self;
        let id = self.new_tc_id();
        let ghost s1 = *self;
        proof {
            lemma_keeps_refl(&s1);
            assert(keeps(&s0, &s1, None));
        }
        let mut vm1: HashMap<usize, usize> = HashMap::new();
        let mut vm2: HashMap<usize, usize> = HashMap::new();
        vm1.insert(id.0, sr.len());
        vm2.insert(id.0, s.len());
        let sr1 = sr.cons(EnvEntry::RType(id));
        let s1e = s.cons(EnvEntry::RType(id));
        let ok = if self.is_free_value(rt) {
            self.expect_beq_free(f_rt, &sr1, &mut vm1, rt, &s1e, &mut vm2, 0)
        } else {
            self.expect_beq_internal(f_rt, &sr1, &mut vm1, rt, &s1e, &mut vm2, 0)
        };
        let ghost s2 = *self;
        proof {
            chain(&s0, &s1, &s2);
        }
        if !ok {
            self.bad_infer(rt, f_rt);
            proof {
                chain(&s0, &s2, self);
            }
        }
    }

    /// Decides whether `i1o` in `s1` equals `i2o` in `s2`, filling in free values on either
    /// side where that makes them equal. `vm1` and `vm2` give, for each variable introduced
    /// during the comparison, its depth in the scope. Where no free value needs filling
    /// in, the result is `known_beq`; where the head of `i2o` is a free value and that of
    /// `i1o` a tree that unification copies, the free value becomes a copy of it.
    #[verifier::rlimit(80)]
    #[verifier::spinoff_prover]
    pub fn expect_beq_internal(
        &mut self,
        i1o: CoreIndex,
        s1: &DbEnv,
        vm1: &mut HashMap<usize, usize>,
        i2o: CoreIndex,
        s2: &DbEnv,
        vm2: &mut HashMap<usize, usize>,
        depth: usize,
    ) -> (r: bool)
        requires
            old(self).arena_wf(),
        ensures
            keeps(old(self), final(self), None),
            fn_arg_count(final(self).errors@) == fn_arg_count(old(self).errors@),
            depth < RECURSION_LIMIT ==> match rigid_outcome(
                old(self).checked_values@,
                i1o,
                s1@,
                i2o,
                s2@,
            ) {
                Some(b) => r == b && unchanged(old(self), final(self)),
                None => true,
            },
            depth + 1 < RECURSION_LIMIT ==> match (
                tc_head(old(self).checked_values@, i1o, s1@),
                tc_head(old(self).checked_values@, i2o, s2@),
            ) {
                (Some((h1, _)), Some((h2, _))) => h1.0 < old(self).checked_values@.len() && h2.0
                    < old(self).checked_values@.len() ==> {
                    let e1 = old(self).checked_values@[h1.0 as int];
                    let e2 = old(self).checked_values@[h2.0 as int];
                    let n = old(self).checked_values@.len();
                    &&& e2 is Free && !old(self).toxic_values@.contains(h1.0) ==> inferred(
                        e1,
                        n,
                        final(self).checked_values@[h2.0 as int],
                    )
                    &&& e1 is Free && !(e2 is Free) && !old(self).toxic_values@.contains(h2.0)
                        ==> inferred(e2, n, final(self).checked_values@[h1.0 as int])
                    &&& depth + 2 < RECURSION_LIMIT && plain_unification(
                        old(self),
                        h1,
                        h2,
                        (RECURSION_LIMIT - depth - 2) as nat,
                    ) ==> r && final(self).errors == old(self).errors && copied_tree(
                        old(self).checked_values@,
                        h1,
                        final(self).checked_values@,
                        h2,
                        (RECURSION_LIMIT - depth - 2) as nat,
                    )
                },
                _ => true,
            },
            depth <= RECURSION_LIMIT ==> (known_beq(
                old(self).checked_values@,
                i1o,
                s1@,
                i2o,
                s2@,
                old(self).tc_id,
                (RECURSION_LIMIT - depth) as nat,
            ) matches Some((b, id2)) ==> r == b && unchanged(old(self), final(self))
                && final(self).tc_id == id2 && final(self).queued_beq_free@ == old(
                self,
            ).queued_beq_free@),
        decreases RECURSION_LIMIT - depth, 0nat,
    {
        let ghost s0 = *self;
        proof {
            lemma_keeps_refl(&s0);
        }
        if depth >= RECURSION_LIMIT {
            self.recursion_limit(i1o, i2o);
            return true;
        }
        let (i1, s1) = match self.beta_reduce_head_bounded(i1o, s1, BRH_STEP_LIMIT) {
            Some(x) => x,
            None => {
                self.recursion_limit(i1o, i2o);
                return true;
            },
        };
        let (i2, s2) = match self.beta_reduce_head_bounded(i2o, s2, BRH_STEP_LIMIT) {
            Some(x) => x,
            None => {
                self.recursion_limit(i1o, i2o);
                return true;
            },
        };
        if i1.0 >= self.checked_values.len() {
            self.push_type_error(TypeError::IndexOutOfBound(i1));
            return true;
        }
        if i2.0 >= self.checked_values.len() {
            self.push_type_error(TypeError::IndexOutOfBound(i2));
            return true;
        }
        let e1 = self.checked_values[i1.0];
        let e2 = self.checked_values[i2.0];
        match (e1, e2) {
            // Type is always equal to Type
            (CorePrismExpr::Type, CorePrismExpr::Type) => true,
            (CorePrismExpr::GrammarType, CorePrismExpr::GrammarType) => true,
            // Two de Bruijn indices are equal if they refer to the same variable; as `i1`
            // and `i2` live in different scopes, the variable is looked up in each
            (CorePrismExpr::DeBruijnIndex(index1), CorePrismExpr::DeBruijnIndex(index2)) => {
                let id1 = match s1.get_idx(index1) {
                    Some(e) => entry_var_id(e),
                    None => None,
                };
                let id2 = match s2.get_idx(index2) {
                    Some(e) => entry_var_id(e),
                    None => None,
                };
                match (id1, id2) {
                    (Some(a), Some(b)) => a.0 == b.0,
                    _ => false,
                }
            },
            // Two function types are equal if their argument types and body types are equal
            (CorePrismExpr::FnType(a1, b1), CorePrismExpr::FnType(a2, b2)) => {
                let a_equal = self.expect_beq_internal(a1, &s1, vm1, a2, &s2, vm2, depth + 1);
                let ghost s1g = *self;
                let id = self.new_tc_id();
                let ghost s2g = *self;
                proof {
                    lemma_keeps_refl(&s2g);
                    assert(keeps(&s1g, &s2g, None));
                    chain(&s0, &s1g, &s2g);
                }
                vm1.insert(id.0, s1.len());
                vm2.insert(id.0, s2.len());
                let b_equal = self.expect_beq_internal(
                    b1,
                    &s1.cons(EnvEntry::RType(id)),
                    vm1,
                    b2,
                    &s2.cons(EnvEntry::RType(id)),
                    vm2,
                    depth + 1,
                );
                proof {
                    chain(&s0, &s2g, self);
                }
                a_equal && b_equal
            },
            // Function construct works the same as above
            (CorePrismExpr::FnConstruct(b1), CorePrismExpr::FnConstruct(b2)) => {
                let id = self.new_tc_id();
                let ghost s1g = *self;
                proof {
                    lemma_keeps_refl(&s1g);
                    assert(keeps(&s0, &s1g, None));
                }
                vm1.insert(id.0, s1.len());
                vm2.insert(id.0, s2.len());
                let b_equal = self.expect_beq_internal(
                    b1,
                    &s1.cons(EnvEntry::RType(id)),
                    vm1,
                    b2,
                    &s2.cons(EnvEntry::RType(id)),
                    vm2,
                    depth + 1,
                );
                proof {
                    chain(&s0, &s1g, self);
                }
                b_equal
            },
            // Applications are equal if the functions and the arguments are equal
            (CorePrismExpr::FnDestruct(f1, a1), CorePrismExpr::FnDestruct(f2, a2)) => {
                let f_equal = self.expect_beq_internal(f1, &s1, vm1, f2, &s2, vm2, depth + 1);
                let ghost s1g = *self;
                let a_equal = self.expect_beq_internal(a1, &s1, vm1, a2, &s2, vm2, depth + 1);
                proof {
                    chain(&s0, &s1g, self);
                }
                f_equal && a_equal
            },
            (_, CorePrismExpr::Free) => self.expect_beq_free(i1, &s1, vm1, i2, &s2, vm2, depth + 1),
            (CorePrismExpr::Free, _) => self.expect_beq_free(i2, &s2, vm2, i1, &s1, vm1, depth + 1),
            (CorePrismExpr::FnDestruct(f, _), _) => self.expect_beq_in_destruct(
                f,
                &s1,
                vm1,
                i2,
                &s2,
                vm2,
                depth + 1,
            ),
            (_, CorePrismExpr::FnDestruct(f, _)) => self.expect_beq_in_destruct(
                f,
                &s2,
                vm2,
                i1,
                &s1,
                vm1,
                depth + 1,
            ),
            _ => false,
        }
    }

    /// The case `f1 a1 = i2`: the return value of `f1` must be `i2`, so `f1` ignores its
    /// argument. A function that returns `i2` is built in scope 2 and compared with `f1`.
    pub fn expect_beq_in_destruct(
        &mut self,
        f1: CoreIndex,
        s1: &DbEnv,
        vm1: &mut HashMap<usize, usize>,
        i2: CoreIndex,
        s2: &DbEnv,
        vm2: &mut HashMap<usize, usize>,
        depth: usize,
    ) -> (r: bool)
        requires
            old(self).arena_wf(),
        ensures
            keeps(old(self), final(self), None),
            fn_arg_count(final(self).errors@) == fn_arg_count(old(self).errors@),
            depth < RECURSION_LIMIT ==> {
                let n = old(self).checked_values@.len() as int;
                &&& final(self).checked_values@[n] == CorePrismExpr::Shift(i2, 1)
                &&& final(self).checked_values@[n + 1] == CorePrismExpr::FnConstruct(
                    CoreIndex(n as usize),
                )
            },
        decreases RECURSION_LIMIT - depth, 1nat,
    {
        let ghost s0 = *self;
        proof {
            lemma_keeps_refl(&s0);
        }
        if depth >= RECURSION_LIMIT {
            self.recursion_limit(f1, i2);
            return true;
        }
        let b = self.store_tc(CorePrismExpr::Shift(i2, 1), ValueOrigin::FreeSub(i2));
        let ghost s1g = *self;
        let f = self.store_tc(CorePrismExpr::FnConstruct(b), ValueOrigin::FreeSub(i2));
        let ghost s2g = *self;
        proof {
            chain(&s0, &s1g, &s2g);
        }
        let r = self.expect_beq_internal(f1, s1, vm1, f, s2, vm2, depth + 1);
        proof {
            chain(&s0, &s2g, self);
        }
        r
    }

    /// Makes the free value `i2` in `s2` equal to `i1` in `s1`, by giving it the shape of
    /// `i1` with fresh free values for its parts, which are unified with the parts of `i1`
    /// in turn: where `i1` heads a tree that unification copies (`plain_unification`),
    /// `i2` ends up holding a copy of that tree (`copied_tree`) and the result is `true`.
    /// Two free values are made equal by a constraint on each, kept until one is filled.
    #[verifier::rlimit(80)]
    #[verifier::spinoff_prover]
    pub fn expect_beq_free(
        &mut self,
        i1: CoreIndex,
        s1: &DbEnv,
        vm1: &mut HashMap<usize, usize>,
        i2: CoreIndex,
        s2: &DbEnv,
        vm2: &mut HashMap<usize, usize>,
        depth: usize,
    ) -> (r: bool)
        requires
            old(self).arena_wf(),
        ensures
            keeps(old(self), final(self), None),
            fn_arg_count(final(self).errors@) == fn_arg_count(old(self).errors@),
            depth < RECURSION_LIMIT && i2.0 < old(self).checked_values@.len()
                && old(self).checked_values@[i2.0 as int] is Free && !old(
                self,
            ).toxic_values@.contains(i1.0) && i1.0 < old(self).checked_values@.len() ==> inferred(
                old(self).checked_values@[i1.0 as int],
                old(self).checked_values@.len(),
                final(self).checked_values@[i2.0 as int],
            ),
            depth < RECURSION_LIMIT && i2.0 < old(self).checked_values@.len()
                && old(self).checked_values@[i2.0 as int] is Free && old(
                self,
            ).toxic_values@.contains(i1.0) ==> r && one_error(
                old(self),
                final(self),
                TypeError::InfiniteType(i1, i2),
            ),
            depth < RECURSION_LIMIT && i2.0 < old(self).checked_values@.len()
                && old(self).checked_values@[i2.0 as int] is Free && !old(
                self,
            ).toxic_values@.contains(i1.0) && i1.0 < old(self).checked_values@.len() && (old(
                self,
            ).checked_values@[i1.0 as int] matches CorePrismExpr::DeBruijnIndex(v1) && v1 < s1@.len()
                && (crate::lang::env::env_at(s1@, v1 as int) is CType || crate::lang::env::env_at(
                s1@,
                v1 as int,
            ) is CSubst)) ==> match moved_index(
                s1@,
                s2@,
                old(self).checked_values@[i1.0 as int]->DeBruijnIndex_0,
            ) {
                Some(v2) => final(self).checked_values@[i2.0 as int] == CorePrismExpr::DeBruijnIndex(
                    v2,
                ) && (depth + 1 < RECURSION_LIMIT && !old(self).queued_beq_free@.contains_key(i2.0)
                    ==> r && final(self).errors == old(self).errors),
                None => r && one_error(
                    old(self),
                    final(self),
                    TypeError::BadInfer { free_var: i2, inferred_var: i1 },
                ),
            },
            depth < RECURSION_LIMIT && i2.0 < old(self).checked_values@.len() && old(
                self,
            ).checked_values@[i2.0 as int] is Free && !old(self).toxic_values@.contains(i1.0) && i1.0
                < old(self).checked_values@.len() && old(self).checked_values@[i1.0 as int] is Free
                ==> {
                &&& r
                &&& unchanged(old(self), final(self))
                &&& final(self).toxic_values == old(self).toxic_values
                &&& final(self).queued_beq_free@.dom() == old(self).queued_beq_free@.dom().insert(
                    i1.0,
                ).insert(i2.0)
            },
            depth + 1 < RECURSION_LIMIT && plain_unification(
                old(self),
                i1,
                i2,
                (RECURSION_LIMIT - depth - 1) as nat,
            ) ==> {
                &&& r
                &&& final(self).errors == old(self).errors
                &&& final(self).queued_beq_free@ == old(self).queued_beq_free@
                &&& forall|x: usize|
                    final(self).toxic_values@.contains(x) && x < old(self).checked_values@.len()
                        && old(self).checked_values@[x as int] != CorePrismExpr::Free ==> old(
                        self,
                    ).toxic_values@.contains(x)
                &&& forall|j: int|
                    #![trigger final(self).checked_values@[j]]
                    0 <= j < old(self).checked_values@.len() && j != i2.0 ==> final(self).checked_values@[j]
                        == old(self).checked_values@[j]
                &&& leaf_value(old(self).checked_values@[i1.0 as int]) ==> final(self).checked_values@
                    == old(self).checked_values@.update(
                    i2.0 as int,
                    old(self).checked_values@[i1.0 as int],
                ) && final(self).toxic_values == old(self).toxic_values
                &&& copied_tree(
                    old(self).checked_values@,
                    i1,
                    final(self).checked_values@,
                    i2,
                    (RECURSION_LIMIT - depth - 1) as nat,
                )
            },
        decreases RECURSION_LIMIT - depth, 1nat,
    {
        let ghost s0 = *self;
        proof {
            lemma_keeps_refl(&s0);
        }
        if depth >= RECURSION_LIMIT {
            self.recursion_limit(i1, i2);
            return true;
        }
        if !self.is_free_value(i2) {
            // `i2` was filled in meanwhile: compare the two instead
            return self.expect_beq_internal(i1, s1, vm1, i2, s2, vm2, depth + 1);
        }
        if self.toxic_values.contains(&i1.0) {
            self.push_type_error(TypeError::InfiniteType(i1, i2));
            return true;
        }
        if i1.0 >= self.checked_values.len() {
            self.push_type_error(TypeError::IndexOutOfBound(i1));
            return true;
        }
        // `i1` is deliberately not reduced here, to keep the inferred value small
        match self.checked_values[i1.0] {
            CorePrismExpr::Type => {
                self.fill_free(i2, CorePrismExpr::Type);
                let ghost s1g = *self;
                let r = self.handle_constraints(i2, s2, depth + 1);
                proof {
                    chain(&s0, &s1g, self);
                }
                r
            },
            CorePrismExpr::GrammarType => {
                self.fill_free(i2, CorePrismExpr::GrammarType);
                let ghost s1g = *self;
                let r = self.handle_constraints(i2, s2, depth + 1);
                proof {
                    chain(&s0, &s1g, self);
                }
                r
            },
            CorePrismExpr::GrammarValue(g) => {
                self.fill_free(i2, CorePrismExpr::GrammarValue(g));
                let ghost s1g = *self;
                let r = self.handle_constraints(i2, s2, depth + 1);
                proof {
                    chain(&s0, &s1g, self);
                }
                r
            },
            CorePrismExpr::Let(v1, b1) => {
                let v2 = self.store_tc(CorePrismExpr::Free, ValueOrigin::FreeSub(i2));
                let ghost s1g = *self;
                let b2 = self.store_tc(CorePrismExpr::Free, ValueOrigin::FreeSub(i2));
                let ghost s2g = *self;
                self.fill_free(i2, CorePrismExpr::Let(v2, b2));
                let ghost s3g = *self;
                proof {
                    chain(&s0, &s1g, &s2g);
                    chain(&s0, &s2g, &s3g);
                }
                let constraints_eq = self.handle_constraints(i2, s2, depth + 1);
                let ghost shc = *self;
                self.toxic_values.insert(i2.0);
                let ghost s4g = *self;
                proof {
                    chain(&s0, &s3g, &s4g);
                }
                let a_eq = self.expect_beq_free(v1, s1, vm1, v2, s2, vm2, depth + 1);
                let ghost s5g = *self;
                let id = self.new_tc_id();
                let ghost s6g = *self;
                proof {
                    chain(&s0, &s4g, &s5g);
                    lemma_keeps_refl(&s6g);
                    assert(keeps(&s5g, &s6g, None));
                    chain(&s0, &s5g, &s6g);
                }
                vm1.insert(id.0, s1.len());
                vm2.insert(id.0, s2.len());
                let b_eq = self.expect_beq_free(
                    b1,
                    &s1.cons(EnvEntry::RType(id)),
                    vm1,
                    b2,
                    &s2.cons(EnvEntry::RType(id)),
                    vm2,
                    depth + 1,
                );
                proof {
                    chain(&s0, &s6g, self);
                    let fuel = (RECURSION_LIMIT - depth - 1) as nat;
                    if depth + 1 < RECURSION_LIMIT && plain_unification(&s0, i1, i2, fuel) {
                        let o = s0.checked_values@;
                        let fp = (fuel - 1) as nat;
                        assert(unified_parts(o[i1.0 as int]) == seq![v1, b1]);
                        assert(plain_tree(o, s0.toxic_values@, unified_parts(o[i1.0 as int])[0], fp));
                        assert(plain_tree(o, s0.toxic_values@, unified_parts(o[i1.0 as int])[1], fp));
                        assert(shc.checked_values == s3g.checked_values);
                        assert(s4g.toxic_values@ == s0.toxic_values@.insert(i2.0));
                        lemma_keeps_grows(&s0, &s4g);
                        lemma_plain_tree_transfer(o, s0.toxic_values@, s4g.checked_values@, s4g.toxic_values@, v1, fp);
                        assert(plain_unification(&s4g, v1, v2, fp));
                        assert(s5g.checked_values@[b2.0 as int] == s4g.checked_values@[b2.0 as int]);
                        lemma_keeps_grows(&s0, &s6g);
                        assert forall|x: usize|
                            s6g.toxic_values@.contains(x) && x < o.len() && o[x as int] != CorePrismExpr::Free
                                implies s0.toxic_values@.contains(x) by {
                            assert(s4g.checked_values@[x as int] == o[x as int]);
                        }
                        lemma_plain_tree_transfer(o, s0.toxic_values@, s6g.checked_values@, s6g.toxic_values@, b1, fp);
                        assert(plain_unification(&s6g, b1, b2, fp));
                        lemma_keeps_grows(&s5g, self);
                        lemma_copied_tree_transfer(o, s0.toxic_values@, s4g.checked_values@, v1, s5g.checked_values@, self.checked_values@, v2, fp);
                        lemma_keeps_refl(self);
                        lemma_keeps_grows(self, self);
                        lemma_copied_tree_transfer(o, s0.toxic_values@, s6g.checked_values@, b1, self.checked_values@, self.checked_values@, b2, fp);
                        chain(&s4g, &s5g, &s6g);
                        chain(&s4g, &s6g, self);
                        lemma_keeps_grows(&s4g, self);
                        assert(self.checked_values@[i2.0 as int] == CorePrismExpr::Let(v2, b2));
                        assert(unified_parts(self.checked_values@[i2.0 as int]) == seq![v2, b2]);
                        assert forall|x: usize|
                            self.toxic_values@.contains(x) && x < o.len() && o[x as int] != CorePrismExpr::Free
                                implies s0.toxic_values@.contains(x) by {
                            assert(s4g.checked_values@[x as int] == o[x as int]);
                            assert(s6g.checked_values@[x as int] == o[x as int]);
                        }
                        assert forall|j: int| 0 <= j < o.len() && j != i2.0 implies #[trigger] self.checked_values@[j] == o[j] by {
                            assert(s4g.checked_values@[j] == o[j]);
                            assert(s5g.checked_values@[j] == o[j]);
                            assert(s6g.checked_values@[j] == o[j]);
                        }
                        assert(copied_tree(o, i1, self.checked_values@, i2, fuel));
                    }
                }
                constraints_eq && a_eq && b_eq
            },
            CorePrismExpr::DeBruijnIndex(v1) => {
                let subst_equal = match s1.get_idx(v1) {
                    None => {
                        self.bad_infer(i2, i1);
                        return true;
                    },
                    Some(EnvEntry::CType(id, _)) => {
                        // Part of the scope that is needed here may have been shifted away
                        let len1 = s1.len();
                        let len2 = s2.len();
                        if len2 < len1 - v1 {
                            self.bad_infer(i2, i1);
                            return true;
                        }
                        let v2 = len2 - (len1 - v1);
                        match s2.get_idx(v2) {
                            Some(EnvEntry::CType(_, _)) => {},
                            _ => {
                                self.bad_infer(i2, i1);
                                return true;
                            },
                        }
                        self.fill_free(i2, CorePrismExpr::DeBruijnIndex(v2));
                        true
                    },
                    Some(EnvEntry::CSubst(_, _)) => {
                        // Same as above, without the identity to check against
                        let len1 = s1.len();
                        let len2 = s2.len();
                        if len2 < len1 - v1 {
                            self.bad_infer(i2, i1);
                            return true;
                        }
                        let v2 = len2 - (len1 - v1);
                        match s2.get_idx(v2) {
                            Some(EnvEntry::CSubst(_, _)) => {},
                            _ => {
                                self.bad_infer(i2, i1);
                                return true;
                            },
                        }
                        self.fill_free(i2, CorePrismExpr::DeBruijnIndex(v2));
                        true
                    },
                    Some(EnvEntry::RType(id)) => {
                        // If `id` still exists in s2, it is found here
                        let d = match vm2.get(&id.0) {
                            Some(d) => *d,
                            None => {
                                self.bad_infer(i2, i1);
                                return true;
                            },
                        };
                        let len2 = s2.len();
                        if d >= len2 {
                            self.bad_infer(i2, i1);
                            return true;
                        }
                        let v2 = len2 - (d + 1);
                        // Check that it still exists; else it was shifted out and another
                        // entry came in its place
                        let same = match s2.get_idx(v2) {
                            Some(EnvEntry::RType(id2)) => id2.0 == id.0,
                            _ => false,
                        };
                        if !same {
                            self.bad_infer(i2, i1);
                            return true;
                        }
                        self.fill_free(i2, CorePrismExpr::DeBruijnIndex(v2));
                        true
                    },
                    Some(EnvEntry::RSubst(v, vs)) => self.expect_beq_free(*v, vs, vm1, i2, s2, vm2, depth + 1),
                };
                let ghost s1g = *self;
                let constraints_eq = self.handle_constraints(i2, s2, depth + 1);
                proof {
                    chain(&s0, &s1g, self);
                }
                subst_equal && constraints_eq
            },
            CorePrismExpr::FnType(a1, b1) => {
                let a2 = self.store_tc(CorePrismExpr::Free, ValueOrigin::FreeSub(i2));
                let ghost s1g = *self;
                let b2 = self.store_tc(CorePrismExpr::Free, ValueOrigin::FreeSub(i2));
                let ghost s2g = *self;
                self.fill_free(i2, CorePrismExpr::FnType(a2, b2));
                let ghost s3g = *self;
                proof {
                    chain(&s0, &s1g, &s2g);
                    chain(&s0, &s2g, &s3g);
                }
                let constraints_eq = self.handle_constraints(i2, s2, depth + 1);
                let ghost shc = *self;
                self.toxic_values.insert(i2.0);
                let ghost s4g = *self;
                proof {
                    chain(&s0, &s3g, &s4g);
                }
                let a_eq = self.expect_beq_free(a1, s1, vm1, a2, s2, vm2, depth + 1);
                let ghost s5g = *self;
                let id = self.new_tc_id();
                let ghost s6g = *self;
                proof {
                    chain(&s0, &s4g, &s5g);
                    lemma_keeps_refl(&s6g);
                    assert(keeps(&s5g, &s6g, None));
                    chain(&s0, &s5g, &s6g);
                }
                vm1.insert(id.0, s1.len());
                vm2.insert(id.0, s2.len());
                let b_eq = self.expect_beq_free(
                    b1,
                    &s1.cons(EnvEntry::RType(id)),
                    vm1,
                    b2,
                    &s2.cons(EnvEntry::RType(id)),
                    vm2,
                    depth + 1,
                );
                proof {
                    chain(&s0, &s6g, self);
                    let fuel = (RECURSION_LIMIT - depth - 1) as nat;
                    if depth + 1 < RECURSION_LIMIT && plain_unification(&s0, i1, i2, fuel) {
                        let o = s0.checked_values@;
                        let fp = (fuel - 1) as nat;
                        assert(unified_parts(o[i1.0 as int]) == seq![a1, b1]);
                        assert(plain_tree(o, s0.toxic_values@, unified_parts(o[i1.0 as int])[0], fp));
                        assert(plain_tree(o, s0.toxic_values@, unified_parts(o[i1.0 as int])[1], fp));
                        assert(shc.checked_values == s3g.checked_values);
                        assert(s4g.toxic_values@ == s0.toxic_values@.insert(i2.0));
                        lemma_keeps_grows(&s0, &s4g);
                        lemma_plain_tree_transfer(o, s0.toxic_values@, s4g.checked_values@, s4g.toxic_values@, a1, fp);
                        assert(plain_unification(&s4g, a1, a2, fp));
                        assert(s5g.checked_values@[b2.0 as int] == s4g.checked_values@[b2.0 as int]);
                        lemma_keeps_grows(&s0, &s6g);
                        assert forall|x: usize|
                            s6g.toxic_values@.contains(x) && x < o.len() && o[x as int] != CorePrismExpr::Free
                                implies s0.toxic_values@.contains(x) by {
                            assert(s4g.checked_values@[x as int] == o[x as int]);
                        }
                        lemma_plain_tree_transfer(o, s0.toxic_values@, s6g.checked_values@, s6g.toxic_values@, b1, fp);
                        assert(plain_unification(&s6g, b1, b2, fp));
                        lemma_keeps_grows(&s5g, self);
                        lemma_copied_tree_transfer(o, s0.toxic_values@, s4g.checked_values@, a1, s5g.checked_values@, self.checked_values@, a2, fp);
                        lemma_keeps_refl(self);
                        lemma_keeps_grows(self, self);
                        lemma_copied_tree_transfer(o, s0.toxic_values@, s6g.checked_values@, b1, self.checked_values@, self.checked_values@, b2, fp);
                        chain(&s4g, &s5g, &s6g);
                        chain(&s4g, &s6g, self);
                        lemma_keeps_grows(&s4g, self);
                        assert(self.checked_values@[i2.0 as int] == CorePrismExpr::FnType(a2, b2));
                        assert(unified_parts(self.checked_values@[i2.0 as int]) == seq![a2, b2]);
                        assert forall|x: usize|
                            self.toxic_values@.contains(x) && x < o.len() && o[x as int] != CorePrismExpr::Free
                                implies s0.toxic_values@.contains(x) by {
                            assert(s4g.checked_values@[x as int] == o[x as int]);
                            assert(s6g.checked_values@[x as int] == o[x as int]);
                        }
                        assert forall|j: int| 0 <= j < o.len() && j != i2.0 implies #[trigger] self.checked_values@[j] == o[j] by {
                            assert(s4g.checked_values@[j] == o[j]);
                            assert(s5g.checked_values@[j] == o[j]);
                            assert(s6g.checked_values@[j] == o[j]);
                        }
                        assert(copied_tree(o, i1, self.checked_values@, i2, fuel));
                    }
                }
                constraints_eq && a_eq && b_eq
            },
            CorePrismExpr::FnConstruct(b1) => {
                let b2 = self.store_tc(CorePrismExpr::Free, ValueOrigin::FreeSub(i2));
                let ghost s1g = *self;
                self.fill_free(i2, CorePrismExpr::FnConstruct(b2));
                let ghost s2g = *self;
                proof {
                    chain(&s0, &s1g, &s2g);
                }
                let constraints_eq = self.handle_constraints(i2, s2, depth + 1);
                let ghost shc = *self;
                self.toxic_values.insert(i2.0);
                let id = self.new_tc_id();
                let ghost s3g = *self;
                proof {
                    chain(&s0, &s2g, &s3g);
                }
                vm1.insert(id.0, s1.len());
                vm2.insert(id.0, s2.len());
                let b_eq = self.expect_beq_free(
                    b1,
                    &s1.cons(EnvEntry::RType(id)),
                    vm1,
                    b2,
                    &s2.cons(EnvEntry::RType(id)),
                    vm2,
                    depth + 1,
                );
                proof {
                    chain(&s0, &s3g, self);
                    let fuel = (RECURSION_LIMIT - depth - 1) as nat;
                    if depth + 1 < RECURSION_LIMIT && plain_unification(&s0, i1, i2, fuel) {
                        let o = s0.checked_values@;
                        let fp = (fuel - 1) as nat;
                        assert(unified_parts(o[i1.0 as int]) == seq![b1]);
                        assert(plain_tree(o, s0.toxic_values@, unified_parts(o[i1.0 as int])[0], fp));
                        assert(shc.checked_values == s2g.checked_values);
                        assert(s3g.toxic_values@ == s0.toxic_values@.insert(i2.0));
                        lemma_keeps_grows(&s0, &s3g);
                        lemma_plain_tree_transfer(o, s0.toxic_values@, s3g.checked_values@, s3g.toxic_values@, b1, fp);
                        assert(plain_unification(&s3g, b1, b2, fp));
                        lemma_keeps_refl(self);
                        lemma_keeps_grows(self, self);
                        lemma_copied_tree_transfer(o, s0.toxic_values@, s3g.checked_values@, b1, self.checked_values@, self.checked_values@, b2, fp);
                        lemma_keeps_grows(&s3g, self);
                        assert(self.checked_values@[i2.0 as int] == CorePrismExpr::FnConstruct(b2));
                        assert(unified_parts(self.checked_values@[i2.0 as int]) == seq![b2]);
                        assert forall|x: usize|
                            self.toxic_values@.contains(x) && x < o.len() && o[x as int] != CorePrismExpr::Free
                                implies s0.toxic_values@.contains(x) by {
                            assert(s3g.checked_values@[x as int] == o[x as int]);
                        }
                        assert forall|j: int| 0 <= j < o.len() && j != i2.0 implies #[trigger] self.checked_values@[j] == o[j] by {
                            assert(s3g.checked_values@[j] == o[j]);
                        }
                        assert(copied_tree(o, i1, self.checked_values@, i2, fuel));
                    }
                }
                constraints_eq && b_eq
            },
            CorePrismExpr::FnDestruct(f1, a1) => {
                let f2 = self.store_tc(CorePrismExpr::Free, ValueOrigin::FreeSub(i2));
                let ghost s1g = *self;
                let a2 = self.store_tc(CorePrismExpr::Free, ValueOrigin::FreeSub(i2));
                let ghost s2g = *self;
                self.fill_free(i2, CorePrismExpr::FnDestruct(f2, a2));
                let ghost s3g = *self;
                proof {
                    chain(&s0, &s1g, &s2g);
                    chain(&s0, &s2g, &s3g);
                }
                let constraints_eq = self.handle_constraints(i2, s2, depth + 1);
                let ghost shc = *self;
                self.toxic_values.insert(i2.0);
                let ghost s4g = *self;
                proof {
                    chain(&s0, &s3g, &s4g);
                }
                let f_eq = self.expect_beq_free(f1, s1, vm1, f2, s2, vm2, depth + 1);
                let ghost s5g = *self;
                let a_eq = self.expect_beq_free(a1, s1, vm1, a2, s2, vm2, depth + 1);
                proof {
                    chain(&s0, &s4g, &s5g);
                }
                proof {
                    chain(&s0, &s5g, self);
                    let fuel = (RECURSION_LIMIT - depth - 1) as nat;
                    if depth + 1 < RECURSION_LIMIT && plain_unification(&s0, i1, i2, fuel) {
                        let o = s0.checked_values@;
                        let fp = (fuel - 1) as nat;
                        assert(unified_parts(o[i1.0 as int]) == seq![f1, a1]);
                        assert(plain_tree(o, s0.toxic_values@, unified_parts(o[i1.0 as int])[0], fp));
                        assert(plain_tree(o, s0.toxic_values@, unified_parts(o[i1.0 as int])[1], fp));
                        assert(shc.checked_values == s3g.checked_values);
                        assert(s4g.toxic_values@ == s0.toxic_values@.insert(i2.0));
                        lemma_keeps_grows(&s0, &s4g);
                        lemma_plain_tree_transfer(o, s0.toxic_values@, s4g.checked_values@, s4g.toxic_values@, f1, fp);
                        assert(plain_unification(&s4g, f1, f2, fp));
                        assert(s5g.checked_values@[a2.0 as int] == s4g.checked_values@[a2.0 as int]);
                        lemma_keeps_grows(&s0, &s5g);
                        assert forall|x: usize|
                            s5g.toxic_values@.contains(x) && x < o.len() && o[x as int] != CorePrismExpr::Free
                                implies s0.toxic_values@.contains(x) by {
                            assert(s4g.checked_values@[x as int] == o[x as int]);
                        }
                        lemma_plain_tree_transfer(o, s0.toxic_values@, s5g.checked_values@, s5g.toxic_values@, a1, fp);
                        assert(plain_unification(&s5g, a1, a2, fp));
                        lemma_keeps_grows(&s5g, self);
                        lemma_copied_tree_transfer(o, s0.toxic_values@, s4g.checked_values@, f1, s5g.checked_values@, self.checked_values@, f2, fp);
                        lemma_keeps_refl(self);
                        lemma_keeps_grows(self, self);
                        lemma_copied_tree_transfer(o, s0.toxic_values@, s5g.checked_values@, a1, self.checked_values@, self.checked_values@, a2, fp);
                        chain(&s4g, &s5g, self);
                        lemma_keeps_grows(&s4g, self);
                        assert(self.checked_values@[i2.0 as int] == CorePrismExpr::FnDestruct(f2, a2));
                        assert(unified_parts(self.checked_values@[i2.0 as int]) == seq![f2, a2]);
                        assert forall|x: usize|
                            self.toxic_values@.contains(x) && x < o.len() && o[x as int] != CorePrismExpr::Free
                                implies s0.toxic_values@.contains(x) by {
                            assert(s4g.checked_values@[x as int] == o[x as int]);
                            assert(s5g.checked_values@[x as int] == o[x as int]);
                        }
                        assert forall|j: int| 0 <= j < o.len() && j != i2.0 implies #[trigger] self.checked_values@[j] == o[j] by {
                            assert(s4g.checked_values@[j] == o[j]);
                            assert(s5g.checked_values@[j] == o[j]);
                            assert(s5g.checked_values@[j] == o[j]);
                        }
                        assert(copied_tree(o, i1, self.checked_values@, i2, fuel));
                    }
                }
                constraints_eq && f_eq && a_eq
            },
            CorePrismExpr::Free => {
                let c1: QueuedConstraint = ((s1.copy(), (*vm1).clone()), (i2, s2.copy(), (*vm2).clone()));
                self.queue_constraint(i1, c1);
                let c2: QueuedConstraint = ((s2.copy(), (*vm2).clone()), (i1, s1.copy(), (*vm1).clone()));
                self.queue_constraint(i2, c2);
                proof {
                    lemma_keeps_refl(self);
                    assert(self.queued_beq_free@.dom() =~= s0.queued_beq_free@.dom().insert(i1.0).insert(i2.0));
                }
                true
            },
            CorePrismExpr::Shift(v1, i) => {
                if i > s1.len() {
                    self.push_type_error(TypeError::IndexOutOfBound(i1));
                    return true;
                }
                self.expect_beq_free(v1, &s1.shift(i), vm1, i2, s2, vm2, depth + 1)
            },
            CorePrismExpr::TypeAssert(e1, _) => self.expect_beq_free(e1, s1, vm1, i2, s2, vm2, depth + 1),
        }
    }

    /// Checks the constraints that waited for the free value `i2` in `s2`, now that it has
    /// a value.
    pub fn handle_constraints(&mut self, i2: CoreIndex, s2: &DbEnv, depth: usize) -> (r: bool)
        requires
            old(self).arena_wf(),
        ensures
            keeps(old(self), final(self), None),
            fn_arg_count(final(self).errors@) == fn_arg_count(old(self).errors@),
            depth < RECURSION_LIMIT && !old(self).queued_beq_free@.contains_key(i2.0) ==> r
                && unchanged(old(self), final(self)) && final(self).queued_beq_free@
                == old(self).queued_beq_free@ && final(self).toxic_values == old(self).toxic_values
                && final(self).checked_types == old(self).checked_types,
            depth < RECURSION_LIMIT ==> !final(self).queued_beq_free@.contains_key(i2.0)
                || old(self).queued_beq_free@.contains_key(i2.0),
        decreases RECURSION_LIMIT - depth, 2nat,
    {
        let ghost s0 = *self;
        proof {
            lemma_keeps_refl(&s0);
        }
        if depth >= RECURSION_LIMIT {
            self.recursion_limit(i2, i2);
            return true;
        }
        let mut eq = true;
        // Check queued constraints
        match self.queued_beq_free.remove(&i2.0) {
            None => {
                proof {
                    assert(self.queued_beq_free@ =~= s0.queued_beq_free@);
                }
            },
            Some(queued) => {
                let ghost s1 = *self;
                proof {
                    lemma_keeps_refl(&s1);
                    assert(keeps(&s0, &s1, None));
                }
                let mut k: usize = 0;
                while k < queued.len()
                    invariant
                        keeps(&s0, self, None),
                        fn_arg_count(self.errors@) == fn_arg_count(s0.errors@),
                        depth < RECURSION_LIMIT,
                    decreases queued.len() - k,
                {
                    let ghost sk = *self;
                    let c = &queued[k];
                    let mut vm2n = (c.0).1.clone();
                    let mut vm3 = (c.1).2.clone();
                    let e = self.expect_beq_internal(i2, &(c.0).0, &mut vm2n, (c.1).0, &(c.1).1, &mut vm3, depth + 1);
                    proof {
                        chain(&s0, &sk, self);
                    }
                    eq = eq && e;
                    k += 1;
                }
            },
        }
        eq
    }
}

} // verus!
