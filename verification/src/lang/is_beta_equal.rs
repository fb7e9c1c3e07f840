use crate::lang::beta_reduce_head::{brh_init, brh_run};
use crate::lang::env::{env_at, DbEnv, EnvEntry, SEntry, UniqueVariableId};
use crate::lang::{next_id, CoreIndex, CorePrismExpr, PrismEnv};
use vstd::prelude::*;

verus! {

/// The variable identity that a `CType` or `RType` entry stands for.
pub open spec fn entry_id(e: SEntry) -> Option<UniqueVariableId> {
    match e {
        SEntry::CType(id, _) => Some(id),
        SEntry::RType(id) => Some(id),
        _ => None,
    }
}

/// Beta equality of `i1` in `s1` and `i2` in `s2`, with at most `fuel` nested steps:
/// the verdict and the identity counter afterwards. Both sides are head reduced and
/// compared structurally; variables are equal when they stand for the same identity, and
/// the bound variables of two binders get one fresh identity. `None` where the fuel runs
/// out or the computation is stuck (an index outside the arena or the scope).
pub open spec fn beq_fuel(
    base: Seq<CorePrismExpr>,
    i1: CoreIndex,
    s1: Seq<SEntry>,
    i2: CoreIndex,
    s2: Seq<SEntry>,
    id: usize,
    fuel: nat,
) -> Option<(bool, usize)>
    decreases fuel,
{
    if fuel == 0 {
        None
    } else {
        let f = (fuel - 1) as nat;
        match (brh_run(base, brh_init(i1, s1), fuel), brh_run(base, brh_init(i2, s2), fuel)) {
            (Some((h1, hs1)), Some((h2, hs2))) => if h1.0 >= base.len() || h2.0 >= base.len() {
                None
            } else {
                match (base[h1.0 as int], base[h2.0 as int]) {
                    (CorePrismExpr::Type, CorePrismExpr::Type) => Some((true, id)),
                    (CorePrismExpr::GrammarType, CorePrismExpr::GrammarType) => Some((true, id)),
                    (CorePrismExpr::DeBruijnIndex(a), CorePrismExpr::DeBruijnIndex(b)) => if a
                        < hs1.len() && b < hs2.len() && entry_id(env_at(hs1, a as int)) is Some
                        && entry_id(env_at(hs2, b as int)) is Some {
                        Some(
                            (
                                entry_id(env_at(hs1, a as int)) == entry_id(env_at(hs2, b as int)),
                                id,
                            ),
                        )
                    } else {
                        None
                    },
                    (CorePrismExpr::FnType(a1, b1), CorePrismExpr::FnType(a2, b2)) => match beq_fuel(
                        base,
                        a1,
                        hs1,
                        a2,
                        hs2,
                        id,
                        f,
                    ) {
                        None => None,
                        Some((false, id1)) => Some((false, id1)),
                        Some((true, id1)) => beq_fuel(
                            base,
                            b1,
                            hs1.push(SEntry::RType(UniqueVariableId(id1))),
                            b2,
                            hs2.push(SEntry::RType(UniqueVariableId(id1))),
                            next_id(id1),
                            f,
                        ),
                    },
                    (CorePrismExpr::FnConstruct(b1), CorePrismExpr::FnConstruct(b2)) => beq_fuel(
                        base,
                        b1,
                        hs1.push(SEntry::RType(UniqueVariableId(id))),
                        b2,
                        hs2.push(SEntry::RType(UniqueVariableId(id))),
                        next_id(id),
                        f,
                    ),
                    (CorePrismExpr::FnDestruct(f1, a1), CorePrismExpr::FnDestruct(f2, a2)) => match beq_fuel(
                        base,
                        f1,
                        hs1,
                        f2,
                        hs2,
                        id,
                        f,
                    ) {
                        None => None,
                        Some((false, id1)) => Some((false, id1)),
                        Some((true, id1)) => beq_fuel(base, a1, hs1, a2, hs2, id1, f),
                    },
                    (CorePrismExpr::Free, CorePrismExpr::Free) => Some((true, id)),
                    _ => Some((false, id)),
                }
            },
            _ => None,
        }
    }
}

/// Deciding the beta equality ends without a panic.
pub open spec fn beq_halts(
    base: Seq<CorePrismExpr>,
    i1: CoreIndex,
    s1: Seq<SEntry>,
    i2: CoreIndex,
    s2: Seq<SEntry>,
    id: usize,
) -> bool {
    exists|fuel: nat| #[trigger] beq_fuel(base, i1, s1, i2, s2, id, fuel) is Some
}

/// The verdict and the identity counter afterwards (meaningful when `beq_halts`).
pub open spec fn spec_is_beta_equal(
    base: Seq<CorePrismExpr>,
    i1: CoreIndex,
    s1: Seq<SEntry>,
    i2: CoreIndex,
    s2: Seq<SEntry>,
    id: usize,
) -> (bool, usize) {
    beq_fuel(
        base,
        i1,
        s1,
        i2,
        s2,
        id,
        choose|fuel: nat| #[trigger] beq_fuel(base, i1, s1, i2, s2, id, fuel) is Some,
    ).unwrap()
}

impl PrismEnv {
    fn var_id(e: &EnvEntry) -> (r: UniqueVariableId)
        requires
            entry_id(e@) is Some,
        ensures
            entry_id(e@) == Some(r),
    {
        match e {
            EnvEntry::CType(id, _) => *id,
            EnvEntry::RType(id) => *id,
            _ => UniqueVariableId(0),
        }
    }

    #[verifier::rlimit(60)]
    #[verifier::spinoff_prover]
    fn is_beta_equal_fuel(
        &mut self,
        i1: CoreIndex,
        s1: DbEnv,
        i2: CoreIndex,
        s2: DbEnv,
        Ghost(fuel): Ghost<nat>,
    ) -> (r: bool)
        requires
            beq_fuel(old(self).checked_values@, i1, s1@, i2, s2@, old(self).tc_id, fuel) is Some,
        ensures
            final(self).checked_values == old(self).checked_values,
            final(self).checked_origins == old(self).checked_origins,
            beq_fuel(old(self).checked_values@, i1, s1@, i2, s2@, old(self).tc_id, fuel) == Some(
                (r, final(self).tc_id),
            ),
        decreases fuel,
    {
        let ghost f = (fuel - 1) as nat;
        // Brh and reduce i1 and i2
        let (i1, s1) = self.beta_reduce_head_fuel(i1, s1, Ghost(fuel));
        let (i2, s2) = self.beta_reduce_head_fuel(i2, s2, Ghost(fuel));
        let e1 = self.checked_values[i1.0];
        let e2 = self.checked_values[i2.0];
        match (e1, e2) {
            (CorePrismExpr::Type, CorePrismExpr::Type) => true,
            (CorePrismExpr::GrammarType, CorePrismExpr::GrammarType) => true,
            (CorePrismExpr::DeBruijnIndex(a), CorePrismExpr::DeBruijnIndex(b)) => {
                let id1 = Self::var_id(s1.index(a));
                let id2 = Self::var_id(s2.index(b));
                id1.0 == id2.0
            },
            (CorePrismExpr::FnType(a1, b1), CorePrismExpr::FnType(a2, b2)) => {
                if !self.is_beta_equal_fuel(a1, s1.copy(), a2, s2.copy(), Ghost(f)) {
                    return false;
                }
                let id = self.new_tc_id();
                self.is_beta_equal_fuel(
                    b1,
                    s1.cons(EnvEntry::RType(id)),
                    b2,
                    s2.cons(EnvEntry::RType(id)),
                    Ghost(f),
                )
            },
            (CorePrismExpr::FnConstruct(b1), CorePrismExpr::FnConstruct(b2)) => {
                let id = self.new_tc_id();
                self.is_beta_equal_fuel(
                    b1,
                    s1.cons(EnvEntry::RType(id)),
                    b2,
                    s2.cons(EnvEntry::RType(id)),
                    Ghost(f),
                )
            },
            (CorePrismExpr::FnDestruct(f1, a1), CorePrismExpr::FnDestruct(f2, a2)) => {
                if !self.is_beta_equal_fuel(f1, s1.copy(), f2, s2.copy(), Ghost(f)) {
                    return false;
                }
                self.is_beta_equal_fuel(a1, s1, a2, s2, Ghost(f))
            },
            (CorePrismExpr::Free, CorePrismExpr::Free) => true,
            _ => false,
        }
    }

    /// Decides whether `i1` in `s1` and `i2` in `s2` are beta equal. Only the identity
    /// counter changes.
    pub fn is_beta_equal(&mut self, i1: CoreIndex, s1: DbEnv, i2: CoreIndex, s2: DbEnv) -> (r: bool)
        requires
            beq_halts(old(self).checked_values@, i1, s1@, i2, s2@, old(self).tc_id),
        ensures
            final(self).checked_values == old(self).checked_values,
            final(self).checked_origins == old(self).checked_origins,
            (r, final(self).tc_id) == spec_is_beta_equal(
                old(self).checked_values@,
                i1,
                s1@,
                i2,
                s2@,
                old(self).tc_id,
            ),
    {
        let ghost fuel = choose|fuel: nat| #[trigger]
            beq_fuel(self.checked_values@, i1, s1@, i2, s2@, self.tc_id, fuel) is Some;
        self.is_beta_equal_fuel(i1, s1, i2, s2, Ghost(fuel))
    }
}

} // verus!

verus! {

/// While arguments wait, the state to fall back to is an application.
pub open spec fn brh_inv(values: Seq<CorePrismExpr>, st: crate::lang::beta_reduce_head::BrhState) -> bool {
    st.args.len() > 0 ==> st.start_e.0 < values.len() && values[st.start_e.0 as int] is FnDestruct
}

/// Head reduction ends at a value of the arena that is neither a `let`, a shift nor a
/// type assertion.
proof fn lemma_brh_result_kind(
    values: Seq<CorePrismExpr>,
    st: crate::lang::beta_reduce_head::BrhState,
    fuel: nat,
)
    requires
        brh_inv(values, st),
    ensures
        brh_run(values, st, fuel) matches Some((e, _)) ==> e.0 < values.len() && !(
        values[e.0 as int] is Let) && !(values[e.0 as int] is Shift) && !(
        values[e.0 as int] is TypeAssert),
        brh_run(values, st, fuel) matches Some((e, es)) ==> (values[e.0 as int] matches CorePrismExpr::DeBruijnIndex(
            k,
        ) ==> k < es.len() && (env_at(es, k as int) is CType || env_at(es, k as int) is RType)),
    decreases fuel,
{
    if fuel > 0 {
        match crate::lang::beta_reduce_head::brh_step(values, st) {
            crate::lang::beta_reduce_head::BrhStep::Next(st2) => {
                assert(brh_inv(values, st2));
                lemma_brh_result_kind(values, st2, (fuel - 1) as nat);
            },
            _ => {},
        }
    }
}

/// Head reduction ends at a value of the arena that is in head normal form as far as
/// the arena goes: no `let`, shift or type assertion is left at the head, and a variable
/// at the head stands for a variable of its scope, not for a substitution.
pub proof fn lemma_head_normal_form(values: Seq<CorePrismExpr>, e: CoreIndex, s: Seq<SEntry>, fuel: nat)
    ensures
        brh_run(values, brh_init(e, s), fuel) matches Some((h, _)) ==> h.0 < values.len() && !(
        values[h.0 as int] is Let) && !(values[h.0 as int] is Shift) && !(
        values[h.0 as int] is TypeAssert),
        brh_run(values, brh_init(e, s), fuel) matches Some((h, hs)) ==> (values[h.0 as int] matches CorePrismExpr::DeBruijnIndex(
            k,
        ) ==> k < hs.len() && (env_at(hs, k as int) is CType || env_at(hs, k as int) is RType)),
{
    lemma_brh_result_kind(values, brh_init(e, s), fuel);
}

/// The parts of the value `e` that head reduction and comparison may go on to are in `r`.
pub open spec fn parts_in(e: CorePrismExpr, r: Set<usize>) -> bool {
    match e {
        CorePrismExpr::Let(v, b) => r.contains(v.0) && r.contains(b.0),
        CorePrismExpr::FnType(a, b) => r.contains(a.0) && r.contains(b.0),
        CorePrismExpr::FnConstruct(b) => r.contains(b.0),
        CorePrismExpr::FnDestruct(f, a) => r.contains(f.0) && r.contains(a.0),
        CorePrismExpr::Shift(b, _) => r.contains(b.0),
        CorePrismExpr::TypeAssert(e, t) => r.contains(e.0) && r.contains(t.0),
        _ => true,
    }
}

/// `r` is a set of values of the arena that holds the parts of each of its values, and no
/// grammar value.
pub open spec fn grammar_free_closed(base: Seq<CorePrismExpr>, r: Set<usize>) -> bool {
    forall|k: usize|
        #[trigger] r.contains(k) ==> k < base.len() && !(base[k as int] is GrammarValue) && parts_in(
            base[k as int],
            r,
        )
}

/// Every value that the scope `s` substitutes, down to `depth` levels of the scopes kept
/// in its entries, is in `r`.
pub open spec fn env_within(r: Set<usize>, s: Seq<SEntry>, depth: nat) -> bool
    decreases depth,
{
    if depth == 0 {
        forall|k: int|
            0 <= k < s.len() ==> match #[trigger] s[k] {
                SEntry::RSubst(v, _) => r.contains(v.0),
                SEntry::CSubst(v, _) => r.contains(v.0),
                _ => true,
            }
    } else {
        forall|k: int|
            0 <= k < s.len() ==> match #[trigger] s[k] {
                SEntry::RSubst(v, vs) => r.contains(v.0) && env_within(r, vs, (depth - 1) as nat),
                SEntry::CSubst(v, _) => r.contains(v.0),
                _ => true,
            }
    }
}

/// Every value that the scope `s` substitutes, at any depth, is in `r`.
pub open spec fn scope_within(r: Set<usize>, s: Seq<SEntry>) -> bool {
    forall|d: nat| #[trigger] env_within(r, s, d)
}

/// A scope that substitutes values of `r` still does so without its newest entries.
proof fn lemma_scope_within_prefix(r: Set<usize>, s: Seq<SEntry>, n: int)
    requires
        scope_within(r, s),
        0 <= n <= s.len(),
    ensures
        scope_within(r, s.subrange(0, n)),
{
    assert forall|d: nat| #[trigger] env_within(r, s.subrange(0, n), d) by {
        assert(env_within(r, s, d));
        assert forall|k: int| 0 <= k < n implies s.subrange(0, n)[k] == s[k] by {}
    }
}

/// A scope that substitutes values of `r`, with one more entry that does too.
proof fn lemma_scope_within_push(r: Set<usize>, s: Seq<SEntry>, e: SEntry)
    requires
        scope_within(r, s),
        match e {
            SEntry::RSubst(v, vs) => r.contains(v.0) && scope_within(r, vs),
            SEntry::CSubst(v, _) => r.contains(v.0),
            _ => true,
        },
    ensures
        scope_within(r, s.push(e)),
{
    assert forall|d: nat| #[trigger] env_within(r, s.push(e), d) by {
        assert(env_within(r, s, d));
        if let SEntry::RSubst(_, vs) = e {
            if d > 0 {
                assert(env_within(r, vs, (d - 1) as nat));
            }
        }
        assert forall|k: int| 0 <= k < s.len() implies s.push(e)[k] == s[k] by {}
    }
}

/// A substitution entry of a scope within `r` keeps a scope within `r`.
proof fn lemma_scope_within_entry(r: Set<usize>, s: Seq<SEntry>, k: int)
    requires
        scope_within(r, s),
        0 <= k < s.len(),
        s[k] is RSubst,
    ensures
        r.contains(s[k]->RSubst_0.0),
        scope_within(r, s[k]->RSubst_1),
{
    assert(env_within(r, s, 0));
    assert forall|d: nat| #[trigger] env_within(r, s[k]->RSubst_1, d) by {
        assert(env_within(r, s, d + 1));
    }
}

/// A head reduction state within `r`: its value, its scope, its waiting arguments and the
/// state to fall back to.
pub open spec fn state_within(r: Set<usize>, st: crate::lang::beta_reduce_head::BrhState) -> bool {
    &&& r.contains(st.e.0)
    &&& scope_within(r, st.s)
    &&& st.args.len() > 0 ==> r.contains(st.start_e.0) && scope_within(r, st.start_s)
    &&& args_within(r, st.args)
}

/// The arguments of `args` and their scopes are within `r`.
pub open spec fn args_within(r: Set<usize>, args: Seq<(CoreIndex, Seq<SEntry>)>) -> bool {
    forall|k: int| 0 <= k < args.len() ==> #[trigger] arg_within(r, args[k])
}

/// An argument and its scope within `r`.
pub open spec fn arg_within(r: Set<usize>, a: (CoreIndex, Seq<SEntry>)) -> bool {
    r.contains(a.0.0) && scope_within(r, a.1)
}

/// One step of head reduction from a state within a closed set without grammar values
/// stays within it.
#[verifier::spinoff_prover]
proof fn lemma_brh_step_within(
    base: Seq<CorePrismExpr>,
    r: Set<usize>,
    st: crate::lang::beta_reduce_head::BrhState,
)
    requires
        grammar_free_closed(base, r),
        state_within(r, st),
    ensures
        crate::lang::beta_reduce_head::brh_step(base, st) matches crate::lang::beta_reduce_head::BrhStep::Next(st2)
            ==> state_within(r, st2),
        crate::lang::beta_reduce_head::brh_step(base, st) matches crate::lang::beta_reduce_head::BrhStep::Done(h, hs)
            ==> r.contains(h.0) && scope_within(r, hs),
{
    assert(r.contains(st.e.0));
    let e = base[st.e.0 as int];
    assert(parts_in(e, r));
    match e {
        CorePrismExpr::Let(v, b) => {
            lemma_scope_within_push(r, st.s, SEntry::RSubst(v, st.s));
        },
        CorePrismExpr::DeBruijnIndex(i) => {
            if i < st.s.len() {
                let k = st.s.len() - 1 - i;
                assert(env_at(st.s, i as int) == st.s[k]);
                match st.s[k] {
                    SEntry::CSubst(v, _) => {
                        assert(env_within(r, st.s, 0));
                        lemma_scope_within_prefix(r, st.s, st.s.len() - (i + 1));
                    },
                    SEntry::RSubst(v, vs) => {
                        lemma_scope_within_entry(r, st.s, k);
                    },
                    _ => {},
                }
            }
        },
        CorePrismExpr::FnConstruct(b) => {
            if st.args.len() > 0 {
                let last = st.args.last();
                assert(arg_within(r, st.args[st.args.len() - 1]));
                lemma_scope_within_push(r, st.s, SEntry::RSubst(last.0, last.1));
                let rest = st.args.drop_last();
                assert forall|k: int| 0 <= k < rest.len() implies #[trigger] arg_within(r, rest[k]) by {
                    assert(rest[k] == st.args[k]);
                    assert(arg_within(r, st.args[k]));
                }
                assert(args_within(r, rest));
            }
        },
        CorePrismExpr::FnDestruct(f, a) => {
            let more = st.args.push((a, st.s));
            assert forall|k: int| 0 <= k < more.len() implies #[trigger] arg_within(r, more[k]) by {
                if k < st.args.len() {
                    assert(more[k] == st.args[k]);
                    assert(arg_within(r, st.args[k]));
                }
            }
            assert(args_within(r, more));
        },
        CorePrismExpr::Shift(b, n) => {
            if n <= st.s.len() {
                lemma_scope_within_prefix(r, st.s, st.s.len() - n);
            }
        },
        _ => {},
    }
}

/// Head reduction from a state within a closed set without grammar values ends at a value
/// of the set, in a scope within it.
proof fn lemma_brh_within(
    base: Seq<CorePrismExpr>,
    r: Set<usize>,
    st: crate::lang::beta_reduce_head::BrhState,
    fuel: nat,
)
    requires
        grammar_free_closed(base, r),
        state_within(r, st),
    ensures
        brh_run(base, st, fuel) matches Some((h, hs)) ==> r.contains(h.0) && scope_within(r, hs),
    decreases fuel,
{
    if fuel > 0 {
        lemma_brh_step_within(base, r, st);
        if let crate::lang::beta_reduce_head::BrhStep::Next(st2) = crate::lang::beta_reduce_head::brh_step(base, st) {
            lemma_brh_within(base, r, st2, (fuel - 1) as nat);
        }
    }
}

/// Comparing a value with itself in its own scope finds them equal whenever the comparison
/// ends, where the value and the scope lie within a closed set without grammar values.
proof fn lemma_beq_fuel_reflexive_within(
    base: Seq<CorePrismExpr>,
    r: Set<usize>,
    i: CoreIndex,
    s: Seq<SEntry>,
    id: usize,
    fuel: nat,
)
    requires
        grammar_free_closed(base, r),
        r.contains(i.0),
        scope_within(r, s),
    ensures
        beq_fuel(base, i, s, i, s, id, fuel) matches Some((b, _)) ==> b,
    decreases fuel,
{
    if fuel > 0 {
        let f = (fuel - 1) as nat;
        assert(state_within(r, brh_init(i, s)));
        lemma_brh_within(base, r, brh_init(i, s), fuel);
        lemma_brh_result_kind(base, brh_init(i, s), fuel);
        if let Some((h, hs)) = brh_run(base, brh_init(i, s), fuel) {
            if h.0 < base.len() {
                assert(r.contains(h.0));
                match base[h.0 as int] {
                    CorePrismExpr::FnType(a, b) => {
                        lemma_beq_fuel_reflexive_within(base, r, a, hs, id, f);
                        if let Some((true, id1)) = beq_fuel(base, a, hs, a, hs, id, f) {
                            lemma_scope_within_push(r, hs, SEntry::RType(UniqueVariableId(id1)));
                            lemma_beq_fuel_reflexive_within(
                                base,
                                r,
                                b,
                                hs.push(SEntry::RType(UniqueVariableId(id1))),
                                next_id(id1),
                                f,
                            );
                        }
                    },
                    CorePrismExpr::FnConstruct(b) => {
                        lemma_scope_within_push(r, hs, SEntry::RType(UniqueVariableId(id)));
                        lemma_beq_fuel_reflexive_within(
                            base,
                            r,
                            b,
                            hs.push(SEntry::RType(UniqueVariableId(id))),
                            next_id(id),
                            f,
                        );
                    },
                    CorePrismExpr::FnDestruct(fu, a) => {
                        lemma_beq_fuel_reflexive_within(base, r, fu, hs, id, f);
                        if let Some((true, id1)) = beq_fuel(base, fu, hs, fu, hs, id, f) {
                            lemma_beq_fuel_reflexive_within(base, r, a, hs, id1, f);
                        }
                    },
                    _ => {},
                }
            }
        }
    }
}

/// Beta equality is reflexive: a value compared with itself in the same scope is equal,
/// whenever the comparison ends, where no grammar value can be reached from the value or
/// from the values its scope substitutes: they lie within a set of values `r` that holds
/// the parts of its values and no grammar value.
pub proof fn lemma_beta_equal_reflexive(
    base: Seq<CorePrismExpr>,
    r: Set<usize>,
    i: CoreIndex,
    s: Seq<SEntry>,
    id: usize,
)
    requires
        grammar_free_closed(base, r),
        r.contains(i.0),
        scope_within(r, s),
        beq_halts(base, i, s, i, s, id),
    ensures
        spec_is_beta_equal(base, i, s, i, s, id).0,
{
    let fuel = choose|fuel: nat| #[trigger] beq_fuel(base, i, s, i, s, id, fuel) is Some;
    lemma_beq_fuel_reflexive_within(base, r, i, s, id, fuel);
}

/// Comparing the other way round gives the same verdict and counter, with any fuel.
pub proof fn lemma_beq_fuel_symmetric(
    base: Seq<CorePrismExpr>,
    i1: CoreIndex,
    s1: Seq<SEntry>,
    i2: CoreIndex,
    s2: Seq<SEntry>,
    id: usize,
    fuel: nat,
)
    ensures
        beq_fuel(base, i1, s1, i2, s2, id, fuel) == beq_fuel(base, i2, s2, i1, s1, id, fuel),
    decreases fuel,
{
    if fuel > 0 {
        let f = (fuel - 1) as nat;
        if let (Some((h1, hs1)), Some((h2, hs2))) = (
            brh_run(base, brh_init(i1, s1), fuel),
            brh_run(base, brh_init(i2, s2), fuel),
        ) {
            if h1.0 < base.len() && h2.0 < base.len() {
                match (base[h1.0 as int], base[h2.0 as int]) {
                    (CorePrismExpr::FnType(a1, b1), CorePrismExpr::FnType(a2, b2)) => {
                        lemma_beq_fuel_symmetric(base, a1, hs1, a2, hs2, id, f);
                        if let Some((true, id1)) = beq_fuel(base, a1, hs1, a2, hs2, id, f) {
                            lemma_beq_fuel_symmetric(
                                base,
                                b1,
                                hs1.push(SEntry::RType(UniqueVariableId(id1))),
                                b2,
                                hs2.push(SEntry::RType(UniqueVariableId(id1))),
                                next_id(id1),
                                f,
                            );
                        }
                    },
                    (CorePrismExpr::FnConstruct(b1), CorePrismExpr::FnConstruct(b2)) => {
                        lemma_beq_fuel_symmetric(
                            base,
                            b1,
                            hs1.push(SEntry::RType(UniqueVariableId(id))),
                            b2,
                            hs2.push(SEntry::RType(UniqueVariableId(id))),
                            next_id(id),
                            f,
                        );
                    },
                    (CorePrismExpr::FnDestruct(f1, a1), CorePrismExpr::FnDestruct(f2, a2)) => {
                        lemma_beq_fuel_symmetric(base, f1, hs1, f2, hs2, id, f);
                        if let Some((true, id1)) = beq_fuel(base, f1, hs1, f2, hs2, id, f) {
                            lemma_beq_fuel_symmetric(base, a1, hs1, a2, hs2, id1, f);
                        }
                    },
                    _ => {},
                }
            }
        }
    }
}

/// More fuel does not change a head reduction that already ended.
pub proof fn lemma_brh_run_mono(
    values: Seq<CorePrismExpr>,
    st: crate::lang::beta_reduce_head::BrhState,
    f: nat,
    g: nat,
)
    requires
        brh_run(values, st, f) is Some,
        f <= g,
    ensures
        brh_run(values, st, g) == brh_run(values, st, f),
    decreases f,
{
    if let crate::lang::beta_reduce_head::BrhStep::Next(st2) = crate::lang::beta_reduce_head::brh_step(
        values,
        st,
    ) {
        lemma_brh_run_mono(values, st2, (f - 1) as nat, (g - 1) as nat);
    }
}

/// More fuel does not change a comparison that already ended.
pub proof fn lemma_beq_fuel_mono(
    base: Seq<CorePrismExpr>,
    i1: CoreIndex,
    s1: Seq<SEntry>,
    i2: CoreIndex,
    s2: Seq<SEntry>,
    id: usize,
    f: nat,
    g: nat,
)
    requires
        beq_fuel(base, i1, s1, i2, s2, id, f) is Some,
        f <= g,
    ensures
        beq_fuel(base, i1, s1, i2, s2, id, g) == beq_fuel(base, i1, s1, i2, s2, id, f),
    decreases f,
{
    let f1 = (f - 1) as nat;
    let g1 = (g - 1) as nat;
    lemma_brh_run_mono(base, brh_init(i1, s1), f, g);
    lemma_brh_run_mono(base, brh_init(i2, s2), f, g);
    if let (Some((h1, hs1)), Some((h2, hs2))) = (
        brh_run(base, brh_init(i1, s1), f),
        brh_run(base, brh_init(i2, s2), f),
    ) {
        if h1.0 < base.len() && h2.0 < base.len() {
            match (base[h1.0 as int], base[h2.0 as int]) {
                (CorePrismExpr::FnType(a1, b1), CorePrismExpr::FnType(a2, b2)) => {
                    lemma_beq_fuel_mono(base, a1, hs1, a2, hs2, id, f1, g1);
                    if let Some((true, id1)) = beq_fuel(base, a1, hs1, a2, hs2, id, f1) {
                        lemma_beq_fuel_mono(
                            base,
                            b1,
                            hs1.push(SEntry::RType(UniqueVariableId(id1))),
                            b2,
                            hs2.push(SEntry::RType(UniqueVariableId(id1))),
                            next_id(id1),
                            f1,
                            g1,
                        );
                    }
                },
                (CorePrismExpr::FnConstruct(b1), CorePrismExpr::FnConstruct(b2)) => {
                    lemma_beq_fuel_mono(
                        base,
                        b1,
                        hs1.push(SEntry::RType(UniqueVariableId(id))),
                        b2,
                        hs2.push(SEntry::RType(UniqueVariableId(id))),
                        next_id(id),
                        f1,
                        g1,
                    );
                },
                (CorePrismExpr::FnDestruct(fa, a1), CorePrismExpr::FnDestruct(fb, a2)) => {
                    lemma_beq_fuel_mono(base, fa, hs1, fb, hs2, id, f1, g1);
                    if let Some((true, id1)) = beq_fuel(base, fa, hs1, fb, hs2, id, f1) {
                        lemma_beq_fuel_mono(base, a1, hs1, a2, hs2, id1, f1, g1);
                    }
                },
                _ => {},
            }
        }
    }
}

/// Beta equality is symmetric: comparing the other way round ends exactly when comparing
/// this way ends, with the same verdict.
pub proof fn lemma_beta_equal_symmetric(
    base: Seq<CorePrismExpr>,
    i1: CoreIndex,
    s1: Seq<SEntry>,
    i2: CoreIndex,
    s2: Seq<SEntry>,
    id: usize,
)
    ensures
        beq_halts(base, i1, s1, i2, s2, id) == beq_halts(base, i2, s2, i1, s1, id),
        beq_halts(base, i1, s1, i2, s2, id) ==> spec_is_beta_equal(base, i1, s1, i2, s2, id)
            == spec_is_beta_equal(base, i2, s2, i1, s1, id),
{
    if beq_halts(base, i1, s1, i2, s2, id) {
        let f1 = choose|fuel: nat| #[trigger] beq_fuel(base, i1, s1, i2, s2, id, fuel) is Some;
        lemma_beq_fuel_symmetric(base, i1, s1, i2, s2, id, f1);
        assert(beq_fuel(base, i2, s2, i1, s1, id, f1) is Some);
        let f2 = choose|fuel: nat| #[trigger] beq_fuel(base, i2, s2, i1, s1, id, fuel) is Some;
        lemma_beq_fuel_symmetric(base, i1, s1, i2, s2, id, f2);
        if f1 <= f2 {
            lemma_beq_fuel_mono(base, i1, s1, i2, s2, id, f1, f2);
        } else {
            lemma_beq_fuel_mono(base, i1, s1, i2, s2, id, f2, f1);
        }
    }
    if beq_halts(base, i2, s2, i1, s1, id) {
        let f2 = choose|fuel: nat| #[trigger] beq_fuel(base, i2, s2, i1, s1, id, fuel) is Some;
        lemma_beq_fuel_symmetric(base, i1, s1, i2, s2, id, f2);
        assert(beq_fuel(base, i1, s1, i2, s2, id, f2) is Some);
    }
}

} // verus!
