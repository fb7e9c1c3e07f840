use crate::lang::env::{env_at, env_shift, DbEnv, EnvEntry, SEntry, UniqueVariableId};
use crate::lang::tree::{is_prefix, lemma_prefix_trans, lemma_read_back_prefix, read_back, CTree};
use crate::lang::{next_id, CoreIndex, CorePrismExpr, PrismEnv};
use std::collections::HashMap;
use vstd::prelude::*;

verus! {

broadcast use vstd::std_specs::hash::group_hash_axioms;

/// The outcome of simplifying: the tree, the variable depths and the identity counter afterwards.
pub type SimpOut = Option<(CTree, Map<usize, usize>, usize)>;

/// Simplifies a binder body: a fresh identity `id` stands for the bound variable at
/// depth `vm.len()` while `b` is simplified, and is dropped afterwards.
pub open spec fn simp_binder(
    base: Seq<CorePrismExpr>,
    b: CoreIndex,
    s: Seq<SEntry>,
    vm: Map<usize, usize>,
    id: usize,
    fuel: nat,
) -> SimpOut
    decreases fuel, 2nat,
{
    match simp_fuel(
        base,
        b,
        s.push(SEntry::RType(UniqueVariableId(id))),
        vm.insert(id, vm.len() as usize),
        next_id(id),
        fuel,
    ) {
        None => None,
        Some((t, vm2, id2)) => Some((t, vm2.remove(id), id2)),
    }
}

/// Simplifying the expression at `i` in environment `s`, with at most `fuel` nested
/// steps: substitutions are carried out and shifts applied, the rest is rebuilt with
/// de Bruijn indices counted from the variable depths in `vm`. `None` where the fuel runs
/// out or the computation is stuck (an index outside the arena or the scope).
pub open spec fn simp_fuel(
    base: Seq<CorePrismExpr>,
    i: CoreIndex,
    s: Seq<SEntry>,
    vm: Map<usize, usize>,
    id: usize,
    fuel: nat,
) -> SimpOut
    decreases fuel, 1nat,
{
    if fuel == 0 || i.0 >= base.len() {
        None
    } else {
        let f = (fuel - 1) as nat;
        match base[i.0 as int] {
            CorePrismExpr::Type => Some((CTree::Type, vm, id)),
            CorePrismExpr::Let(v, b) => match simp_fuel(base, v, s, vm, id, f) {
                None => None,
                Some((tv, vm1, id1)) => match simp_binder(base, b, s, vm1, id1, f) {
                    None => None,
                    Some((tb, vm2, id2)) => Some(
                        (CTree::Let(Box::new(tv), Box::new(tb)), vm2, id2),
                    ),
                },
            },
            CorePrismExpr::DeBruijnIndex(v) => if v < s.len() {
                match env_at(s, v as int) {
                    SEntry::RType(uid) => if vm.contains_key(uid.0) && vm[uid.0] < vm.len() {
                        Some(
                            (
                                CTree::DeBruijnIndex((vm.len() - vm[uid.0] - 1) as usize),
                                vm,
                                id,
                            ),
                        )
                    } else {
                        None
                    },
                    SEntry::RSubst(sub, sub_env) => simp_fuel(base, sub, sub_env, vm, id, f),
                    _ => None,
                }
            } else {
                Some((CTree::DeBruijnIndex(v), vm, id))
            },
            CorePrismExpr::FnType(a, b) => match simp_fuel(base, a, s, vm, id, f) {
                None => None,
                Some((ta, vm1, id1)) => match simp_binder(base, b, s, vm1, id1, f) {
                    None => None,
                    Some((tb, vm2, id2)) => Some(
                        (CTree::FnType(Box::new(ta), Box::new(tb)), vm2, id2),
                    ),
                },
            },
            CorePrismExpr::FnConstruct(b) => match simp_binder(base, b, s, vm, id, f) {
                None => None,
                Some((tb, vm2, id2)) => Some((CTree::FnConstruct(Box::new(tb)), vm2, id2)),
            },
            CorePrismExpr::FnDestruct(a, b) => match simp_fuel(base, a, s, vm, id, f) {
                None => None,
                Some((ta, vm1, id1)) => match simp_fuel(base, b, s, vm1, id1, f) {
                    None => None,
                    Some((tb, vm2, id2)) => Some(
                        (CTree::FnDestruct(Box::new(ta), Box::new(tb)), vm2, id2),
                    ),
                },
            },
            CorePrismExpr::Free => Some((CTree::Free, vm, id)),
            CorePrismExpr::Shift(b, n) => simp_fuel(
                base,
                b,
                env_shift(s, if n <= s.len() { n as int } else { s.len() as int }),
                vm,
                id,
                f,
            ),
            CorePrismExpr::TypeAssert(e, t) => match simp_fuel(base, e, s, vm, id, f) {
                None => None,
                Some((te, vm1, id1)) => match simp_fuel(base, t, s, vm1, id1, f) {
                    None => None,
                    Some((tt, vm2, id2)) => Some(
                        (CTree::TypeAssert(Box::new(te), Box::new(tt)), vm2, id2),
                    ),
                },
            },
            CorePrismExpr::GrammarValue(g) => Some((CTree::GrammarValue(g), vm, id)),
            CorePrismExpr::GrammarType => Some((CTree::GrammarType, vm, id)),
        }
    }
}

/// Simplifying the expression at `i` ends without a panic.
pub open spec fn simplify_halts(values: Seq<CorePrismExpr>, i: CoreIndex, id: usize) -> bool {
    exists|fuel: nat| #[trigger] simp_fuel(values, i, Seq::empty(), Map::empty(), id, fuel) is Some
}

/// The simplified tree of the expression at `i` (meaningful when `simplify_halts`).
pub open spec fn spec_simplify(values: Seq<CorePrismExpr>, i: CoreIndex, id: usize) -> (
    CTree,
    Map<usize, usize>,
    usize,
) {
    simp_fuel(
        values,
        i,
        Seq::empty(),
        Map::empty(),
        id,
        choose|fuel: nat| #[trigger] simp_fuel(values, i, Seq::empty(), Map::empty(), id, fuel) is Some,
    ).unwrap()
}

/// What every rewrite of the arena keeps: it only appends, the origins stay in step, and
/// the recorded types stay as they are.
pub open spec fn grows(old_env: &PrismEnv, new_env: &PrismEnv) -> bool {
    &&& new_env.arena_wf()
    &&& new_env.checked_types == old_env.checked_types
    &&& is_prefix(old_env.checked_values@, new_env.checked_values@)
    &&& is_prefix(old_env.checked_origins@, new_env.checked_origins@)
}

pub proof fn lemma_grows_trans(a: &PrismEnv, b: &PrismEnv, c: &PrismEnv)
    requires
        grows(a, b),
        grows(b, c),
    ensures
        grows(a, c),
{
    lemma_prefix_trans(a.checked_values@, b.checked_values@, c.checked_values@);
    lemma_prefix_trans(a.checked_origins@, b.checked_origins@, c.checked_origins@);
}

impl PrismEnv {
    /// Stores `e` with the origin of `i`; a node of the rewritten tree.
    fn store_like(&mut self, e: CorePrismExpr, i: CoreIndex) -> (r: CoreIndex)
        requires
            old(self).arena_wf(),
            i.0 < old(self).checked_values@.len(),
        ensures
            grows(old(self), final(self)),
            final(self).checked_values@ == old(self).checked_values@.push(e),
            final(self).tc_id == old(self).tc_id,
            final(self).errors == old(self).errors,
            r.0 == old(self).checked_values@.len(),
    {
        let origin = self.checked_origins[i.0];
        let r = self.store_checked(e, origin);
        assert(self.checked_values@.subrange(0, old(self).checked_values@.len() as int)
            =~= old(self).checked_values@);
        assert(self.checked_origins@.subrange(0, old(self).checked_origins@.len() as int)
            =~= old(self).checked_origins@);
        r
    }

    fn simplify_binder(
        &mut self,
        b: CoreIndex,
        s: &DbEnv,
        var_map: &mut HashMap<usize, usize>,
        Ghost(base): Ghost<Seq<CorePrismExpr>>,
        Ghost(fuel): Ghost<nat>,
    ) -> (r: CoreIndex)
        requires
            old(self).arena_wf(),
            is_prefix(base, old(self).checked_values@),
            simp_binder(base, b, s@, old(var_map)@, old(self).tc_id, fuel) is Some,
        ensures
            grows(old(self), final(self)),
            old(self).checked_values@.len() <= r.0 < final(self).checked_values@.len(),
            simp_binder(base, b, s@, old(var_map)@, old(self).tc_id, fuel) == Some(
                (
                    read_back(final(self).checked_values@, r.0 as int),
                    final(var_map)@,
                    final(self).tc_id,
                ),
            ),
        decreases fuel, 2nat,
    {
        let id = self.new_tc_id();
        let depth = var_map.len();
        var_map.insert(id.0, depth);
        let sub_env = s.cons(EnvEntry::RType(id));
        let r = self.simplify_inner(b, &sub_env, var_map, Ghost(base), Ghost(fuel));
        var_map.remove(&id.0);
        r
    }

    #[verifier::rlimit(60)]
    #[verifier::spinoff_prover]
    fn simplify_inner(
        &mut self,
        i: CoreIndex,
        s: &DbEnv,
        var_map: &mut HashMap<usize, usize>,
        Ghost(base): Ghost<Seq<CorePrismExpr>>,
        Ghost(fuel): Ghost<nat>,
    ) -> (r: CoreIndex)
        requires
            old(self).arena_wf(),
            is_prefix(base, old(self).checked_values@),
            simp_fuel(base, i, s@, old(var_map)@, old(self).tc_id, fuel) is Some,
        ensures
            grows(old(self), final(self)),
            old(self).checked_values@.len() <= r.0 < final(self).checked_values@.len(),
            simp_fuel(base, i, s@, old(var_map)@, old(self).tc_id, fuel) == Some(
                (
                    read_back(final(self).checked_values@, r.0 as int),
                    final(var_map)@,
                    final(self).tc_id,
                ),
            ),
        decreases fuel, 1nat,
    {
        let ghost f = (fuel - 1) as nat;
        let ghost s0 = *self;
        proof {
            assert(self.checked_values@[i.0 as int] == base[i.0 as int]);
        }
        let ev = self.checked_values[i.0];
        match ev {
            CorePrismExpr::Type => self.store_like(CorePrismExpr::Type, i),
            CorePrismExpr::Let(v, b) => {
                let v2 = self.simplify_inner(v, s, var_map, Ghost(base), Ghost(f));
                let ghost s1 = *self;
                proof {
                    lemma_prefix_trans(base, s0.checked_values@, s1.checked_values@);
                }
                let b2 = self.simplify_binder(b, s, var_map, Ghost(base), Ghost(f));
                let ghost s2 = *self;
                let r = self.store_like(CorePrismExpr::Let(v2, b2), i);
                proof {
                    lemma_grows_trans(&s0, &s1, &s2);
                    lemma_grows_trans(&s0, &s2, self);
                    lemma_grows_trans(&s1, &s2, self);
                    lemma_read_back_prefix(s1.checked_values@, s2.checked_values@, v2.0 as int);
                    lemma_read_back_prefix(s1.checked_values@, self.checked_values@, v2.0 as int);
                    lemma_read_back_prefix(s2.checked_values@, self.checked_values@, b2.0 as int);
                }
                r
            },
            CorePrismExpr::DeBruijnIndex(v) => match s.get_idx(v) {
                Some(EnvEntry::RType(id)) => {
                    let d = match var_map.get(&id.0) {
                        Some(d) => *d,
                        None => 0,
                    };
                    let e = CorePrismExpr::DeBruijnIndex(var_map.len() - d - 1);
                    self.store_like(e, i)
                },
                Some(EnvEntry::RSubst(subst, subst_env)) => {
                    self.simplify_inner(*subst, subst_env, var_map, Ghost(base), Ghost(f))
                },
                Some(_) => {
                    proof {
                        assert(false);
                    }
                    self.store_like(CorePrismExpr::Free, i)
                },
                None => self.store_like(CorePrismExpr::DeBruijnIndex(v), i),
            },
            CorePrismExpr::FnType(a, b) => {
                let a2 = self.simplify_inner(a, s, var_map, Ghost(base), Ghost(f));
                let ghost s1 = *self;
                proof {
                    lemma_prefix_trans(base, s0.checked_values@, s1.checked_values@);
                }
                let b2 = self.simplify_binder(b, s, var_map, Ghost(base), Ghost(f));
                let ghost s2 = *self;
                let r = self.store_like(CorePrismExpr::FnType(a2, b2), i);
                proof {
                    lemma_grows_trans(&s0, &s1, &s2);
                    lemma_grows_trans(&s0, &s2, self);
                    lemma_grows_trans(&s1, &s2, self);
                    lemma_read_back_prefix(s1.checked_values@, s2.checked_values@, a2.0 as int);
                    lemma_read_back_prefix(s1.checked_values@, self.checked_values@, a2.0 as int);
                    lemma_read_back_prefix(s2.checked_values@, self.checked_values@, b2.0 as int);
                }
                r
            },
            CorePrismExpr::FnConstruct(b) => {
                let b2 = self.simplify_binder(b, s, var_map, Ghost(base), Ghost(f));
                let ghost s2 = *self;
                let r = self.store_like(CorePrismExpr::FnConstruct(b2), i);
                proof {
                    lemma_grows_trans(&s0, &s2, self);
                    lemma_read_back_prefix(s2.checked_values@, self.checked_values@, b2.0 as int);
                }
                r
            },
            CorePrismExpr::FnDestruct(a, b) => {
                let a2 = self.simplify_inner(a, s, var_map, Ghost(base), Ghost(f));
                let ghost s1 = *self;
                proof {
                    lemma_prefix_trans(base, s0.checked_values@, s1.checked_values@);
                }
                let b2 = self.simplify_inner(b, s, var_map, Ghost(base), Ghost(f));
                let ghost s2 = *self;
                let r = self.store_like(CorePrismExpr::FnDestruct(a2, b2), i);
                proof {
                    lemma_grows_trans(&s0, &s1, &s2);
                    lemma_grows_trans(&s0, &s2, self);
                    lemma_grows_trans(&s1, &s2, self);
                    lemma_read_back_prefix(s1.checked_values@, s2.checked_values@, a2.0 as int);
                    lemma_read_back_prefix(s1.checked_values@, self.checked_values@, a2.0 as int);
                    lemma_read_back_prefix(s2.checked_values@, self.checked_values@, b2.0 as int);
                }
                r
            },
            CorePrismExpr::Free => self.store_like(CorePrismExpr::Free, i),
            CorePrismExpr::Shift(b, n) => {
                let len = s.len();
                let k = if n <= len {
                    n
                } else {
                    len
                };
                let shifted = s.shift(k);
                self.simplify_inner(b, &shifted, var_map, Ghost(base), Ghost(f))
            },
            CorePrismExpr::TypeAssert(e, typ) => {
                let e2 = self.simplify_inner(e, s, var_map, Ghost(base), Ghost(f));
                let ghost s1 = *self;
                proof {
                    lemma_prefix_trans(base, s0.checked_values@, s1.checked_values@);
                }
                let t2 = self.simplify_inner(typ, s, var_map, Ghost(base), Ghost(f));
                let ghost s2 = *self;
                let r = self.store_like(CorePrismExpr::TypeAssert(e2, t2), i);
                proof {
                    lemma_grows_trans(&s0, &s1, &s2);
                    lemma_grows_trans(&s0, &s2, self);
                    lemma_grows_trans(&s1, &s2, self);
                    lemma_read_back_prefix(s1.checked_values@, s2.checked_values@, e2.0 as int);
                    lemma_read_back_prefix(s1.checked_values@, self.checked_values@, e2.0 as int);
                    lemma_read_back_prefix(s2.checked_values@, self.checked_values@, t2.0 as int);
                }
                r
            },
            CorePrismExpr::GrammarValue(g) => self.store_like(CorePrismExpr::GrammarValue(g), i),
            CorePrismExpr::GrammarType => self.store_like(CorePrismExpr::GrammarType, i),
        }
    }

    /// Simplifies the expression at `i`: carries out its substitutions and shifts, and
    /// stores the result as a new tree of expressions. The arena only grows. No shift is
    /// left, no beta step is done (the root keeps its kind), and a tree with no shift and
    /// no free value comes back as it is.
    pub fn simplify(&mut self, i: CoreIndex) -> (r: CoreIndex)
        requires
            old(self).arena_wf(),
            simplify_halts(old(self).checked_values@, i, old(self).tc_id),
        ensures
            grows(old(self), final(self)),
            old(self).checked_values@.len() <= r.0 < final(self).checked_values@.len(),
            read_back(final(self).checked_values@, r.0 as int) == spec_simplify(
                old(self).checked_values@,
                i,
                old(self).tc_id,
            ).0,
            final(self).tc_id == spec_simplify(old(self).checked_values@, i, old(self).tc_id).2,
            crate::lang::tree::shift_free(read_back(final(self).checked_values@, r.0 as int)),
            i.0 < old(self).checked_values@.len() && kept_kind(
                old(self).checked_values@[i.0 as int],
                read_back(final(self).checked_values@, r.0 as int),
            ),
            plain_text_tree(read_back(old(self).checked_values@, i.0 as int)) && old(self).tc_id
                + binders(read_back(old(self).checked_values@, i.0 as int)) <= usize::MAX ==> read_back(
                final(self).checked_values@,
                r.0 as int,
            ) == read_back(old(self).checked_values@, i.0 as int),
    {
        let ghost base = self.checked_values@;
        let ghost fuel = choose|fuel: nat| #[trigger]
            simp_fuel(base, i, Seq::empty(), Map::empty(), self.tc_id, fuel) is Some;
        let mut var_map: HashMap<usize, usize> = HashMap::new();
        let env = DbEnv::new();
        proof {
            assert(base.subrange(0, base.len() as int) =~= base);
            assert(var_map@ =~= Map::<usize, usize>::empty());
            lemma_simplify_shift_free(base, i, self.tc_id);
            lemma_simplify_keeps_kind(base, i, self.tc_id);
            if plain_text_tree(read_back(base, i.0 as int)) && self.tc_id + binders(read_back(base, i.0 as int)) <= usize::MAX {
                lemma_simplify_keeps_plain(base, i, self.tc_id);
            }
        }
        self.simplify_inner(i, &env, &mut var_map, Ghost(base), Ghost(fuel))
    }
}

} // verus!

verus! {

/// Simplified trees have every child in place.
pub proof fn lemma_simp_good(
    base: Seq<CorePrismExpr>,
    i: CoreIndex,
    s: Seq<SEntry>,
    vm: Map<usize, usize>,
    id: usize,
    fuel: nat,
)
    ensures
        simp_fuel(base, i, s, vm, id, fuel) matches Some((t, _, _)) ==> crate::lang::tree::good(t)
            && crate::lang::tree::shift_free(t),
    decreases fuel, 1nat,
{
    if fuel > 0 && i.0 < base.len() {
        let f = (fuel - 1) as nat;
        match base[i.0 as int] {
            CorePrismExpr::Let(v, b) | CorePrismExpr::FnType(v, b) => {
                lemma_simp_good(base, v, s, vm, id, f);
                if let Some((_, vm1, id1)) = simp_fuel(base, v, s, vm, id, f) {
                    lemma_simp_binder_good(base, b, s, vm1, id1, f);
                }
            },
            CorePrismExpr::FnConstruct(b) => {
                lemma_simp_binder_good(base, b, s, vm, id, f);
            },
            CorePrismExpr::FnDestruct(a, b) | CorePrismExpr::TypeAssert(a, b) => {
                lemma_simp_good(base, a, s, vm, id, f);
                if let Some((_, vm1, id1)) = simp_fuel(base, a, s, vm, id, f) {
                    lemma_simp_good(base, b, s, vm1, id1, f);
                }
            },
            CorePrismExpr::DeBruijnIndex(v) => {
                if v < s.len() {
                    if let SEntry::RSubst(sub, sub_env) = env_at(s, v as int) {
                        lemma_simp_good(base, sub, sub_env, vm, id, f);
                    }
                }
            },
            CorePrismExpr::Shift(b, n) => {
                lemma_simp_good(
                    base,
                    b,
                    env_shift(s, if n <= s.len() { n as int } else { s.len() as int }),
                    vm,
                    id,
                    f,
                );
            },
            _ => {},
        }
    }
}

pub proof fn lemma_simp_binder_good(
    base: Seq<CorePrismExpr>,
    b: CoreIndex,
    s: Seq<SEntry>,
    vm: Map<usize, usize>,
    id: usize,
    fuel: nat,
)
    ensures
        simp_binder(base, b, s, vm, id, fuel) matches Some((t, _, _)) ==> crate::lang::tree::good(t)
            && crate::lang::tree::shift_free(t),
    decreases fuel, 2nat,
{
    lemma_simp_good(
        base,
        b,
        s.push(SEntry::RType(UniqueVariableId(id))),
        vm.insert(id, vm.len() as usize),
        next_id(id),
        fuel,
    );
}

impl PrismEnv {
    /// The text of the simplified expression at `i`.
    pub fn index_to_sm_string(&mut self, i: CoreIndex) -> (r: String)
        requires
            old(self).arena_wf(),
            simplify_halts(old(self).checked_values@, i, old(self).tc_id),
        ensures
            grows(old(self), final(self)),
            exists|j: usize|
                old(self).checked_values@.len() <= j < final(self).checked_values@.len()
                    && read_back(final(self).checked_values@, j as int) == spec_simplify(
                    old(self).checked_values@,
                    i,
                    old(self).tc_id,
                ).0 && r@ == crate::lang::display::core_text(
                    final(self).checked_values@,
                    CoreIndex(j),
                ),
    {
        let ghost v0 = self.checked_values@;
        let ghost id0 = self.tc_id;
        let j = self.simplify(i);
        let _n = self.checked_values.len();
        proof {
            let fuel = choose|fuel: nat| #[trigger]
                simp_fuel(v0, i, Seq::empty(), Map::empty(), id0, fuel) is Some;
            lemma_simp_good(v0, i, Seq::empty(), Map::empty(), id0, fuel);
            crate::lang::display::lemma_display_good(
                self.checked_values@,
                j.0 as int,
                crate::lang::display::PrecedenceLevel::Let,
            );
        }
        self.index_to_string(j)
    }
}

} // verus!

verus! {

impl PrismEnv {
    fn simplify_binder_bounded(
        &mut self,
        b: CoreIndex,
        s: &DbEnv,
        var_map: &mut HashMap<usize, usize>,
        Ghost(base): Ghost<Seq<CorePrismExpr>>,
        base_len: usize,
        fuel: usize,
    ) -> (r: Option<CoreIndex>)
        requires
            old(self).arena_wf(),
            is_prefix(base, old(self).checked_values@),
            base_len == base.len(),
        ensures
            grows(old(self), final(self)),
            final(self).errors == old(self).errors,
            match r {
                Some(r) => old(self).checked_values@.len() <= r.0 < final(self).checked_values@.len()
                    && simp_binder(base, b, s@, old(var_map)@, old(self).tc_id, fuel as nat) == Some(
                    (
                        read_back(final(self).checked_values@, r.0 as int),
                        final(var_map)@,
                        final(self).tc_id,
                    ),
                ),
                None => simp_binder(base, b, s@, old(var_map)@, old(self).tc_id, fuel as nat) is None,
            },
        decreases fuel, 2nat,
    {
        let id = self.new_tc_id();
        let depth = var_map.len();
        var_map.insert(id.0, depth);
        let sub_env = s.cons(EnvEntry::RType(id));
        let r = self.simplify_inner_bounded(b, &sub_env, var_map, Ghost(base), base_len, fuel);
        var_map.remove(&id.0);
        r
    }

    #[verifier::rlimit(80)]
    #[verifier::spinoff_prover]
    fn simplify_inner_bounded(
        &mut self,
        i: CoreIndex,
        s: &DbEnv,
        var_map: &mut HashMap<usize, usize>,
        Ghost(base): Ghost<Seq<CorePrismExpr>>,
        base_len: usize,
        fuel: usize,
    ) -> (r: Option<CoreIndex>)
        requires
            old(self).arena_wf(),
            is_prefix(base, old(self).checked_values@),
            base_len == base.len(),
        ensures
            grows(old(self), final(self)),
            final(self).errors == old(self).errors,
            match r {
                Some(r) => old(self).checked_values@.len() <= r.0 < final(self).checked_values@.len()
                    && simp_fuel(base, i, s@, old(var_map)@, old(self).tc_id, fuel as nat) == Some(
                    (
                        read_back(final(self).checked_values@, r.0 as int),
                        final(var_map)@,
                        final(self).tc_id,
                    ),
                ),
                None => simp_fuel(base, i, s@, old(var_map)@, old(self).tc_id, fuel as nat) is None,
            },
        decreases fuel, 1nat,
    {
        let ghost s0 = *self;
        proof {
            assert(s0.checked_values@.subrange(0, s0.checked_values@.len() as int)
                =~= s0.checked_values@);
            assert(s0.checked_origins@.subrange(0, s0.checked_origins@.len() as int)
                =~= s0.checked_origins@);
        }
        if fuel == 0 || i.0 >= base_len {
            return None;
        }
        let f = fuel - 1;
        proof {
            assert(self.checked_values@[i.0 as int] == base[i.0 as int]);
        }
        let ev = self.checked_values[i.0];
        match ev {
            CorePrismExpr::Type => Some(self.store_like(CorePrismExpr::Type, i)),
            CorePrismExpr::Let(v, b) => {
                let v2 = match self.simplify_inner_bounded(v, s, var_map, Ghost(base), base_len, f) {
                    Some(x) => x,
                    None => return None,
                };
                let ghost s1 = *self;
                proof {
                    lemma_prefix_trans(base, s0.checked_values@, s1.checked_values@);
                }
                let b2 = match self.simplify_binder_bounded(b, s, var_map, Ghost(base), base_len, f) {
                    Some(x) => x,
                    None => {
                        proof {
                            lemma_grows_trans(&s0, &s1, self);
                        }
                        return None;
                    },
                };
                let ghost s2 = *self;
                let r = self.store_like(CorePrismExpr::Let(v2, b2), i);
                proof {
                    lemma_grows_trans(&s0, &s1, &s2);
                    lemma_grows_trans(&s0, &s2, self);
                    lemma_grows_trans(&s1, &s2, self);
                    lemma_read_back_prefix(s1.checked_values@, s2.checked_values@, v2.0 as int);
                    lemma_read_back_prefix(s1.checked_values@, self.checked_values@, v2.0 as int);
                    lemma_read_back_prefix(s2.checked_values@, self.checked_values@, b2.0 as int);
                }
                Some(r)
            },
            CorePrismExpr::DeBruijnIndex(v) => match s.get_idx(v) {
                Some(EnvEntry::RType(id)) => {
                    let d = match var_map.get(&id.0) {
                        Some(d) => *d,
                        None => return None,
                    };
                    let n = var_map.len();
                    if d >= n {
                        return None;
                    }
                    let e = CorePrismExpr::DeBruijnIndex(n - d - 1);
                    Some(self.store_like(e, i))
                },
                Some(EnvEntry::RSubst(subst, subst_env)) => {
                    self.simplify_inner_bounded(*subst, subst_env, var_map, Ghost(base), base_len, f)
                },
                Some(_) => None,
                None => Some(self.store_like(CorePrismExpr::DeBruijnIndex(v), i)),
            },
            CorePrismExpr::FnType(a, b) => {
                let a2 = match self.simplify_inner_bounded(a, s, var_map, Ghost(base), base_len, f) {
                    Some(x) => x,
                    None => return None,
                };
                let ghost s1 = *self;
                proof {
                    lemma_prefix_trans(base, s0.checked_values@, s1.checked_values@);
                }
                let b2 = match self.simplify_binder_bounded(b, s, var_map, Ghost(base), base_len, f) {
                    Some(x) => x,
                    None => {
                        proof {
                            lemma_grows_trans(&s0, &s1, self);
                        }
                        return None;
                    },
                };
                let ghost s2 = *self;
                let r = self.store_like(CorePrismExpr::FnType(a2, b2), i);
                proof {
                    lemma_grows_trans(&s0, &s1, &s2);
                    lemma_grows_trans(&s0, &s2, self);
                    lemma_grows_trans(&s1, &s2, self);
                    lemma_read_back_prefix(s1.checked_values@, s2.checked_values@, a2.0 as int);
                    lemma_read_back_prefix(s1.checked_values@, self.checked_values@, a2.0 as int);
                    lemma_read_back_prefix(s2.checked_values@, self.checked_values@, b2.0 as int);
                }
                Some(r)
            },
            CorePrismExpr::FnConstruct(b) => {
                let b2 = match self.simplify_binder_bounded(b, s, var_map, Ghost(base), base_len, f) {
                    Some(x) => x,
                    None => return None,
                };
                let ghost s2 = *self;
                let r = self.store_like(CorePrismExpr::FnConstruct(b2), i);
                proof {
                    lemma_grows_trans(&s0, &s2, self);
                    lemma_read_back_prefix(s2.checked_values@, self.checked_values@, b2.0 as int);
                }
                Some(r)
            },
            CorePrismExpr::FnDestruct(a, b) => {
                let a2 = match self.simplify_inner_bounded(a, s, var_map, Ghost(base), base_len, f) {
                    Some(x) => x,
                    None => return None,
                };
                let ghost s1 = *self;
                proof {
                    lemma_prefix_trans(base, s0.checked_values@, s1.checked_values@);
                }
                let b2 = match self.simplify_inner_bounded(b, s, var_map, Ghost(base), base_len, f) {
                    Some(x) => x,
                    None => {
                        proof {
                            lemma_grows_trans(&s0, &s1, self);
                        }
                        return None;
                    },
                };
                let ghost s2 = *self;
                let r = self.store_like(CorePrismExpr::FnDestruct(a2, b2), i);
                proof {
                    lemma_grows_trans(&s0, &s1, &s2);
                    lemma_grows_trans(&s0, &s2, self);
                    lemma_grows_trans(&s1, &s2, self);
                    lemma_read_back_prefix(s1.checked_values@, s2.checked_values@, a2.0 as int);
                    lemma_read_back_prefix(s1.checked_values@, self.checked_values@, a2.0 as int);
                    lemma_read_back_prefix(s2.checked_values@, self.checked_values@, b2.0 as int);
                }
                Some(r)
            },
            CorePrismExpr::Free => Some(self.store_like(CorePrismExpr::Free, i)),
            CorePrismExpr::Shift(b, n) => {
                let len = s.len();
                let k = if n <= len {
                    n
                } else {
                    len
                };
                let shifted = s.shift(k);
                self.simplify_inner_bounded(b, &shifted, var_map, Ghost(base), base_len, f)
            },
            CorePrismExpr::TypeAssert(e, typ) => {
                let e2 = match self.simplify_inner_bounded(e, s, var_map, Ghost(base), base_len, f) {
                    Some(x) => x,
                    None => return None,
                };
                let ghost s1 = *self;
                proof {
                    lemma_prefix_trans(base, s0.checked_values@, s1.checked_values@);
                }
                let t2 = match self.simplify_inner_bounded(typ, s, var_map, Ghost(base), base_len, f) {
                    Some(x) => x,
                    None => {
                        proof {
                            lemma_grows_trans(&s0, &s1, self);
                        }
                        return None;
                    },
                };
                let ghost s2 = *self;
                let r = self.store_like(CorePrismExpr::TypeAssert(e2, t2), i);
                proof {
                    lemma_grows_trans(&s0, &s1, &s2);
                    lemma_grows_trans(&s0, &s2, self);
                    lemma_grows_trans(&s1, &s2, self);
                    lemma_read_back_prefix(s1.checked_values@, s2.checked_values@, e2.0 as int);
                    lemma_read_back_prefix(s1.checked_values@, self.checked_values@, e2.0 as int);
                    lemma_read_back_prefix(s2.checked_values@, self.checked_values@, t2.0 as int);
                }
                Some(r)
            },
            CorePrismExpr::GrammarValue(g) => Some(self.store_like(CorePrismExpr::GrammarValue(g), i)),
            CorePrismExpr::GrammarType => Some(self.store_like(CorePrismExpr::GrammarType, i)),
        }
    }

    /// The text of the simplified expression at `i`, when simplifying it takes at most
    /// `limit` nested steps; `None` when it takes more or cannot be carried out.
    pub fn index_to_sm_string_bounded(&mut self, i: CoreIndex, limit: usize) -> (r: Option<String>)
        requires
            old(self).arena_wf(),
        ensures
            grows(old(self), final(self)),
            final(self).errors == old(self).errors,
            match simp_fuel(old(self).checked_values@, i, Seq::empty(), Map::empty(), old(self).tc_id, limit as nat) {
                None => r is None,
                Some((t, _, _)) => r matches Some(text) && exists|j: usize|
                    old(self).checked_values@.len() <= j < final(self).checked_values@.len()
                        && read_back(final(self).checked_values@, j as int) == t
                        && text@ == crate::lang::display::core_text(final(self).checked_values@, CoreIndex(j)),
            },
    {
        let ghost base = self.checked_values@;
        let ghost id0 = self.tc_id;
        let base_len = self.checked_values.len();
        let mut var_map: HashMap<usize, usize> = HashMap::new();
        let env = DbEnv::new();
        proof {
            assert(base.subrange(0, base.len() as int) =~= base);
            assert(var_map@ =~= Map::<usize, usize>::empty());
        }
        match self.simplify_inner_bounded(i, &env, &mut var_map, Ghost(base), base_len, limit) {
            None => None,
            Some(j) => {
                let _n = self.checked_values.len();
                proof {
                    lemma_simp_good(base, i, Seq::empty(), Map::empty(), id0, limit as nat);
                    crate::lang::display::lemma_display_good(
                        self.checked_values@,
                        j.0 as int,
                        crate::lang::display::PrecedenceLevel::Let,
                    );
                }
                Some(self.index_to_string(j))
            },
        }
    }
}

/// The node kind that simplification keeps: a value that is no variable or shift keeps
/// its constructor, so that simplifying does no beta step.
pub open spec fn kept_kind(e: CorePrismExpr, t: CTree) -> bool {
    match e {
        CorePrismExpr::Type => t == CTree::Type,
        CorePrismExpr::GrammarType => t == CTree::GrammarType,
        CorePrismExpr::GrammarValue(g) => t == CTree::GrammarValue(g),
        CorePrismExpr::Free => t == CTree::Free,
        CorePrismExpr::Let(..) => t is Let,
        CorePrismExpr::FnType(..) => t is FnType,
        CorePrismExpr::FnConstruct(..) => t is FnConstruct,
        CorePrismExpr::FnDestruct(..) => t is FnDestruct,
        CorePrismExpr::TypeAssert(..) => t is TypeAssert,
        _ => true,
    }
}

/// Simplifying keeps the kind of the value at the root: an application stays an
/// application, a `let` a `let`, a type assertion a type assertion; no beta step is done.
pub proof fn lemma_simplify_keeps_kind(values: Seq<CorePrismExpr>, i: CoreIndex, id: usize)
    requires
        simplify_halts(values, i, id),
    ensures
        i.0 < values.len(),
        kept_kind(values[i.0 as int], spec_simplify(values, i, id).0),
{
    let fuel = choose|fuel: nat| #[trigger] simp_fuel(values, i, Seq::empty(), Map::empty(), id, fuel) is Some;
    assert(simp_fuel(values, i, Seq::empty(), Map::empty(), id, fuel) is Some);
}

/// The simplified tree has no shift left: every shift has been carried out.
pub proof fn lemma_simplify_shift_free(values: Seq<CorePrismExpr>, i: CoreIndex, id: usize)
    requires
        simplify_halts(values, i, id),
    ensures
        crate::lang::tree::shift_free(spec_simplify(values, i, id).0),
{
    let fuel = choose|fuel: nat| #[trigger] simp_fuel(values, i, Seq::empty(), Map::empty(), id, fuel) is Some;
    lemma_simp_good(values, i, Seq::empty(), Map::empty(), id, fuel);
}

/// Simplifying with more fuel gives what it gave with less, once it gave something.
proof fn lemma_simp_mono(
    base: Seq<CorePrismExpr>,
    i: CoreIndex,
    s: Seq<SEntry>,
    vm: Map<usize, usize>,
    id: usize,
    f: nat,
    g: nat,
)
    requires
        simp_fuel(base, i, s, vm, id, f) is Some,
        f <= g,
    ensures
        simp_fuel(base, i, s, vm, id, g) == simp_fuel(base, i, s, vm, id, f),
    decreases f, 1nat,
{
    let f1 = (f - 1) as nat;
    let g1 = (g - 1) as nat;
    match base[i.0 as int] {
        CorePrismExpr::Let(v, b) => {
            lemma_simp_mono(base, v, s, vm, id, f1, g1);
            let (_, vm1, id1) = simp_fuel(base, v, s, vm, id, f1)->0;
            lemma_simp_binder_mono(base, b, s, vm1, id1, f1, g1);
        },
        CorePrismExpr::DeBruijnIndex(v) => {
            if v < s.len() {
                if let SEntry::RSubst(sub, sub_env) = env_at(s, v as int) {
                    lemma_simp_mono(base, sub, sub_env, vm, id, f1, g1);
                }
            }
        },
        CorePrismExpr::FnType(a, b) => {
            lemma_simp_mono(base, a, s, vm, id, f1, g1);
            let (_, vm1, id1) = simp_fuel(base, a, s, vm, id, f1)->0;
            lemma_simp_binder_mono(base, b, s, vm1, id1, f1, g1);
        },
        CorePrismExpr::FnConstruct(b) => {
            lemma_simp_binder_mono(base, b, s, vm, id, f1, g1);
        },
        CorePrismExpr::FnDestruct(a, b) => {
            lemma_simp_mono(base, a, s, vm, id, f1, g1);
            let (_, vm1, id1) = simp_fuel(base, a, s, vm, id, f1)->0;
            lemma_simp_mono(base, b, s, vm1, id1, f1, g1);
        },
        CorePrismExpr::Shift(b, n) => {
            lemma_simp_mono(
                base,
                b,
                env_shift(s, if n <= s.len() { n as int } else { s.len() as int }),
                vm,
                id,
                f1,
                g1,
            );
        },
        CorePrismExpr::TypeAssert(e, t) => {
            lemma_simp_mono(base, e, s, vm, id, f1, g1);
            let (_, vm1, id1) = simp_fuel(base, e, s, vm, id, f1)->0;
            lemma_simp_mono(base, t, s, vm1, id1, f1, g1);
        },
        _ => {},
    }
}

/// The same for a binder body.
proof fn lemma_simp_binder_mono(
    base: Seq<CorePrismExpr>,
    b: CoreIndex,
    s: Seq<SEntry>,
    vm: Map<usize, usize>,
    id: usize,
    f: nat,
    g: nat,
)
    requires
        simp_binder(base, b, s, vm, id, f) is Some,
        f <= g,
    ensures
        simp_binder(base, b, s, vm, id, g) == simp_binder(base, b, s, vm, id, f),
    decreases f, 2nat,
{
    lemma_simp_mono(
        base,
        b,
        s.push(SEntry::RType(UniqueVariableId(id))),
        vm.insert(id, vm.len() as usize),
        next_id(id),
        f,
        g,
    );
}

/// A tree that simplification gives back as it is: no shift, no free value (whose text
/// would name a new value), and every child in place.
pub open spec fn plain_text_tree(t: CTree) -> bool
    decreases t,
{
    match t {
        CTree::Bad => false,
        CTree::Free => false,
        CTree::Shift(..) => false,
        CTree::Let(a, b) => plain_text_tree(*a) && plain_text_tree(*b),
        CTree::FnType(a, b) => plain_text_tree(*a) && plain_text_tree(*b),
        CTree::FnConstruct(b) => plain_text_tree(*b),
        CTree::FnDestruct(a, b) => plain_text_tree(*a) && plain_text_tree(*b),
        CTree::TypeAssert(a, b) => plain_text_tree(*a) && plain_text_tree(*b),
        _ => true,
    }
}

/// The number of binders in `t`.
pub open spec fn binders(t: CTree) -> nat
    decreases t,
{
    match t {
        CTree::Let(a, b) => 1 + binders(*a) + binders(*b),
        CTree::FnType(a, b) => 1 + binders(*a) + binders(*b),
        CTree::FnConstruct(b) => 1 + binders(*b),
        CTree::FnDestruct(a, b) => binders(*a) + binders(*b),
        CTree::TypeAssert(a, b) => binders(*a) + binders(*b),
        CTree::Shift(b, _) => binders(*b),
        _ => 0,
    }
}

/// The height of `t`, a leaf counting one.
pub open spec fn height(t: CTree) -> nat
    decreases t,
{
    match t {
        CTree::Let(a, b) => 1 + vstd::math::max(height(*a) as int, height(*b) as int) as nat,
        CTree::FnType(a, b) => 1 + vstd::math::max(height(*a) as int, height(*b) as int) as nat,
        CTree::FnConstruct(b) => 1 + height(*b),
        CTree::FnDestruct(a, b) => 1 + vstd::math::max(height(*a) as int, height(*b) as int) as nat,
        CTree::TypeAssert(a, b) => 1 + vstd::math::max(height(*a) as int, height(*b) as int) as nat,
        CTree::Shift(b, _) => 1 + height(*b),
        _ => 1,
    }
}

/// The scope `s` binds only variables, and `vm` gives each its depth: the identity at
/// each entry is below `id`, and maps to the entry's place; there are no more entries
/// than identities below `id`.
pub open spec fn bound_scope(s: Seq<SEntry>, vm: Map<usize, usize>, id: usize) -> bool {
    &&& vm.dom().finite()
    &&& vm.dom().len() == s.len()
    &&& s.len() <= id
    &&& forall|j: int|
        0 <= j < s.len() ==> (#[trigger] s[j] is RType) && vm.contains_key(s[j]->RType_0.0)
            && vm[s[j]->RType_0.0] == j
    &&& forall|k: usize| #[trigger] vm.contains_key(k) ==> k < id
}

/// Simplifying a tree with no shift or free value, its variables bound as `bound_scope`
/// says, gives the tree back and the depths as they were.
proof fn lemma_simp_plain(
    base: Seq<CorePrismExpr>,
    i: CoreIndex,
    s: Seq<SEntry>,
    vm: Map<usize, usize>,
    id: usize,
    fuel: nat,
)
    requires
        plain_text_tree(read_back(base, i.0 as int)),
        bound_scope(s, vm, id),
        id + binders(read_back(base, i.0 as int)) <= usize::MAX,
        height(read_back(base, i.0 as int)) <= fuel,
    ensures
        simp_fuel(base, i, s, vm, id, fuel) == Some(
            (
                read_back(base, i.0 as int),
                vm,
                (id + binders(read_back(base, i.0 as int))) as usize,
            ),
        ),
    decreases fuel, 1nat,
{
    let f = (fuel - 1) as nat;
    match base[i.0 as int] {
        CorePrismExpr::Let(v, b) => {
            lemma_simp_plain(base, v, s, vm, id, f);
            let id1 = (id + binders(read_back(base, v.0 as int))) as usize;
            lemma_simp_binder_plain(base, b, s, vm, id1, f);
        },
        CorePrismExpr::DeBruijnIndex(v) => {
            if v < s.len() {
                let j = s.len() - 1 - v;
                assert(s[j] is RType);
            }
        },
        CorePrismExpr::FnType(a, b) => {
            lemma_simp_plain(base, a, s, vm, id, f);
            let id1 = (id + binders(read_back(base, a.0 as int))) as usize;
            lemma_simp_binder_plain(base, b, s, vm, id1, f);
        },
        CorePrismExpr::FnConstruct(b) => {
            lemma_simp_binder_plain(base, b, s, vm, id, f);
        },
        CorePrismExpr::FnDestruct(a, b) => {
            lemma_simp_plain(base, a, s, vm, id, f);
            let id1 = (id + binders(read_back(base, a.0 as int))) as usize;
            lemma_simp_plain(base, b, s, vm, id1, f);
        },
        CorePrismExpr::TypeAssert(a, b) => {
            lemma_simp_plain(base, a, s, vm, id, f);
            let id1 = (id + binders(read_back(base, a.0 as int))) as usize;
            lemma_simp_plain(base, b, s, vm, id1, f);
        },
        _ => {},
    }
}

/// The same for a binder body, which binds one more variable.
proof fn lemma_simp_binder_plain(
    base: Seq<CorePrismExpr>,
    b: CoreIndex,
    s: Seq<SEntry>,
    vm: Map<usize, usize>,
    id: usize,
    fuel: nat,
)
    requires
        plain_text_tree(read_back(base, b.0 as int)),
        bound_scope(s, vm, id),
        id + 1 + binders(read_back(base, b.0 as int)) <= usize::MAX,
        height(read_back(base, b.0 as int)) <= fuel,
    ensures
        simp_binder(base, b, s, vm, id, fuel) == Some(
            (
                read_back(base, b.0 as int),
                vm,
                (id + 1 + binders(read_back(base, b.0 as int))) as usize,
            ),
        ),
    decreases fuel, 2nat,
{
    let s2 = s.push(SEntry::RType(UniqueVariableId(id)));
    let vm2 = vm.insert(id, vm.len() as usize);
    assert(!vm.contains_key(id));
    assert(vm2.dom() =~= vm.dom().insert(id));
    assert forall|j: int| 0 <= j < s2.len() implies (#[trigger] s2[j] is RType) && vm2.contains_key(
        s2[j]->RType_0.0,
    ) && vm2[s2[j]->RType_0.0] == j by {
        if j == s.len() {
            assert(vm.len() == s.len());
            assert(s2[j] == SEntry::RType(UniqueVariableId(id)));
        } else {
            assert(s2[j] == s[j]);
            assert(s[j] is RType && vm.contains_key(s[j]->RType_0.0) && vm[s[j]->RType_0.0] == j);
            assert(s[j]->RType_0.0 < id);
        }
    }
    assert(bound_scope(s2, vm2, next_id(id)));
    lemma_simp_plain(base, b, s2, vm2, next_id(id), fuel);
    assert(vm2.remove(id) =~= vm);
}

/// Simplifying a value whose tree has no shift and no free value, and every child in
/// place, gives that tree back: simplification only carries out shifts and
/// substitutions, and changes nothing else. (The identities it hands out must not run past
/// `usize::MAX`.)
pub proof fn lemma_simplify_keeps_plain(values: Seq<CorePrismExpr>, i: CoreIndex, id: usize)
    requires
        plain_text_tree(read_back(values, i.0 as int)),
        id + binders(read_back(values, i.0 as int)) <= usize::MAX,
    ensures
        simplify_halts(values, i, id),
        spec_simplify(values, i, id).0 == read_back(values, i.0 as int),
{
    let t = read_back(values, i.0 as int);
    let fuel = height(t);
    assert(Map::<usize, usize>::empty().dom() =~= Set::<usize>::empty());
    lemma_simp_plain(values, i, Seq::empty(), Map::empty(), id, fuel);
    assert(simp_fuel(values, i, Seq::empty(), Map::empty(), id, fuel) is Some);
    let g = choose|g: nat| #[trigger] simp_fuel(values, i, Seq::empty(), Map::empty(), id, g) is Some;
    if g <= fuel {
        lemma_simp_mono(values, i, Seq::empty(), Map::empty(), id, g, fuel);
    } else {
        lemma_simp_mono(values, i, Seq::empty(), Map::empty(), id, fuel, g);
    }
}

/// The variables of a binder body: the bound variable is 0, and each variable `v` of the
/// scope around it is `r[v] + 1`.
pub open spec fn lift_vars(r: Seq<nat>) -> Seq<nat> {
    seq![0nat] + r.map_values(|x: nat| x + 1)
}

/// What the tree `t` stands for when each of its variables `v` (counted from the
/// innermost binder out) stands for the variable `r[v]`: binders bind one more variable,
/// and a shift by `k` makes its body see the scope without its `k` innermost variables.
pub open spec fn denote(t: CTree, r: Seq<nat>) -> CTree
    decreases t,
{
    match t {
        CTree::DeBruijnIndex(v) => CTree::DeBruijnIndex(r[v as int] as usize),
        CTree::Let(a, b) => CTree::Let(Box::new(denote(*a, r)), Box::new(denote(*b, lift_vars(r)))),
        CTree::FnType(a, b) => CTree::FnType(
            Box::new(denote(*a, r)),
            Box::new(denote(*b, lift_vars(r))),
        ),
        CTree::FnConstruct(b) => CTree::FnConstruct(Box::new(denote(*b, lift_vars(r)))),
        CTree::FnDestruct(a, b) => CTree::FnDestruct(Box::new(denote(*a, r)), Box::new(denote(*b, r))),
        CTree::TypeAssert(a, b) => CTree::TypeAssert(
            Box::new(denote(*a, r)),
            Box::new(denote(*b, r)),
        ),
        CTree::Shift(b, k) => denote(*b, r.subrange(k as int, r.len() as int)),
        _ => t,
    }
}

/// The scope `s` binds only variables, `vm` gives each a depth below its size, the
/// identities handed out so far (as many as `vm` holds, at least) are below `id`, and the variable `v` of the scope is the
/// variable `r[v]` counted from the innermost depth of `vm`.
pub open spec fn renames(s: Seq<SEntry>, vm: Map<usize, usize>, id: usize, r: Seq<nat>) -> bool {
    &&& vm.dom().finite()
    &&& vm.len() <= id
    &&& r.len() == s.len()
    &&& forall|k: usize| #[trigger] vm.contains_key(k) ==> k < id
    &&& forall|j: int|
        0 <= j < s.len() ==> (#[trigger] s[j] is RType) && vm.contains_key(s[j]->RType_0.0)
            && vm[s[j]->RType_0.0] < vm.len() && r[s.len() - 1 - j] == vm.len()
            - vm[s[j]->RType_0.0] - 1
}

/// Simplifying a closed-in-its-scope tree whose variables are renamed as `renames` says
/// gives what the tree stands for, the depths as they were, and one identity per binder.
proof fn lemma_simp_denote(
    base: Seq<CorePrismExpr>,
    i: CoreIndex,
    s: Seq<SEntry>,
    vm: Map<usize, usize>,
    id: usize,
    r: Seq<nat>,
    fuel: nat,
)
    requires
        crate::lang::tree::good(read_back(base, i.0 as int)),
        crate::lang::tree::scoped(read_back(base, i.0 as int), s.len()),
        renames(s, vm, id, r),
        id + binders(read_back(base, i.0 as int)) <= usize::MAX,
        height(read_back(base, i.0 as int)) <= fuel,
    ensures
        simp_fuel(base, i, s, vm, id, fuel) == Some(
            (
                denote(read_back(base, i.0 as int), r),
                vm,
                (id + binders(read_back(base, i.0 as int))) as usize,
            ),
        ),
    decreases fuel, 1nat,
{
    let f = (fuel - 1) as nat;
    match base[i.0 as int] {
        CorePrismExpr::Let(v, b) => {
            lemma_simp_denote(base, v, s, vm, id, r, f);
            let id1 = (id + binders(read_back(base, v.0 as int))) as usize;
            lemma_simp_binder_denote(base, b, s, vm, id1, r, f);
        },
        CorePrismExpr::DeBruijnIndex(v) => {
            let j = s.len() - 1 - v;
            assert(s[j] is RType);
        },
        CorePrismExpr::FnType(a, b) => {
            lemma_simp_denote(base, a, s, vm, id, r, f);
            let id1 = (id + binders(read_back(base, a.0 as int))) as usize;
            lemma_simp_binder_denote(base, b, s, vm, id1, r, f);
        },
        CorePrismExpr::FnConstruct(b) => {
            lemma_simp_binder_denote(base, b, s, vm, id, r, f);
        },
        CorePrismExpr::FnDestruct(a, b) => {
            lemma_simp_denote(base, a, s, vm, id, r, f);
            let id1 = (id + binders(read_back(base, a.0 as int))) as usize;
            lemma_simp_denote(base, b, s, vm, id1, r, f);
        },
        CorePrismExpr::TypeAssert(a, b) => {
            lemma_simp_denote(base, a, s, vm, id, r, f);
            let id1 = (id + binders(read_back(base, a.0 as int))) as usize;
            lemma_simp_denote(base, b, s, vm, id1, r, f);
        },
        CorePrismExpr::Shift(b, n) => {
            let s2 = env_shift(s, n as int);
            let r2 = r.subrange(n as int, r.len() as int);
            assert forall|j: int| 0 <= j < s2.len() implies (#[trigger] s2[j] is RType)
                && vm.contains_key(s2[j]->RType_0.0) && vm[s2[j]->RType_0.0] < vm.len() && r2[s2.len()
                - 1 - j] == vm.len() - vm[s2[j]->RType_0.0] - 1 by {
                assert(s2[j] == s[j]);
                assert(s[j] is RType);
            }
            lemma_simp_denote(base, b, s2, vm, id, r2, f);
        },
        _ => {},
    }
}

/// The same for a binder body, which binds one more variable.
proof fn lemma_simp_binder_denote(
    base: Seq<CorePrismExpr>,
    b: CoreIndex,
    s: Seq<SEntry>,
    vm: Map<usize, usize>,
    id: usize,
    r: Seq<nat>,
    fuel: nat,
)
    requires
        crate::lang::tree::good(read_back(base, b.0 as int)),
        crate::lang::tree::scoped(read_back(base, b.0 as int), s.len() + 1),
        renames(s, vm, id, r),
        id + 1 + binders(read_back(base, b.0 as int)) <= usize::MAX,
        height(read_back(base, b.0 as int)) <= fuel,
    ensures
        simp_binder(base, b, s, vm, id, fuel) == Some(
            (
                denote(read_back(base, b.0 as int), lift_vars(r)),
                vm,
                (id + 1 + binders(read_back(base, b.0 as int))) as usize,
            ),
        ),
    decreases fuel, 2nat,
{
    let s2 = s.push(SEntry::RType(UniqueVariableId(id)));
    let vm2 = vm.insert(id, vm.len() as usize);
    let r2 = lift_vars(r);
    assert(!vm.contains_key(id));
    assert(vm2.dom() =~= vm.dom().insert(id));
    assert(vm2.len() == vm.len() + 1);
    assert forall|j: int| 0 <= j < s2.len() implies (#[trigger] s2[j] is RType) && vm2.contains_key(
        s2[j]->RType_0.0,
    ) && vm2[s2[j]->RType_0.0] < vm2.len() && r2[s2.len() - 1 - j] == vm2.len()
        - vm2[s2[j]->RType_0.0] - 1 by {
        if j == s.len() {
            assert(s2[j] == SEntry::RType(UniqueVariableId(id)));
        } else {
            assert(s2[j] == s[j]);
            assert(s[j] is RType && vm.contains_key(s[j]->RType_0.0));
            assert(s[j]->RType_0.0 < id);
            assert(r2[s2.len() - 1 - j] == r[s.len() - 1 - j] + 1);
        }
    }
    assert forall|k: usize| #[trigger] vm2.contains_key(k) implies k < next_id(id) by {
        if k != id {
            assert(vm.contains_key(k));
        }
    }
    assert(renames(s2, vm2, next_id(id), r2));
    lemma_simp_denote(base, b, s2, vm2, next_id(id), r2, fuel);
    assert(vm2.remove(id) =~= vm);
}

/// Simplifying carries out every shift: for a closed value with every child in place,
/// the simplified tree is what the value stands for, each shift `Shift(e, k)` read as
/// `e` seen from the scope without its `k` innermost variables. (The identities it hands
/// out must not run past `usize::MAX`.)
pub proof fn lemma_simplify_denotes(values: Seq<CorePrismExpr>, i: CoreIndex, id: usize)
    requires
        crate::lang::tree::good(read_back(values, i.0 as int)),
        crate::lang::tree::scoped(read_back(values, i.0 as int), 0),
        id + binders(read_back(values, i.0 as int)) <= usize::MAX,
    ensures
        simplify_halts(values, i, id),
        spec_simplify(values, i, id).0 == denote(read_back(values, i.0 as int), Seq::empty()),
{
    let t = read_back(values, i.0 as int);
    let fuel = height(t);
    assert(Map::<usize, usize>::empty().dom() =~= Set::<usize>::empty());
    lemma_simp_denote(values, i, Seq::empty(), Map::empty(), id, Seq::empty(), fuel);
    assert(simp_fuel(values, i, Seq::empty(), Map::empty(), id, fuel) is Some);
    let g = choose|g: nat| #[trigger] simp_fuel(values, i, Seq::empty(), Map::empty(), id, g) is Some;
    if g <= fuel {
        lemma_simp_mono(values, i, Seq::empty(), Map::empty(), id, g, fuel);
    } else {
        lemma_simp_mono(values, i, Seq::empty(), Map::empty(), id, fuel, g);
    }
}

} // verus!
