use crate::lang::beta_reduce_head::{brh_init, brh_run, lemma_brh_prefix};
use crate::lang::env::{env_at, DbEnv, EnvEntry, SEntry, UniqueVariableId};
use crate::lang::simplify::{grows, lemma_grows_trans};
use crate::lang::tree::{is_prefix, lemma_prefix_trans, lemma_read_back_prefix, read_back, CTree};
use crate::lang::{next_id, CoreIndex, CorePrismExpr, PrismEnv};
use std::collections::HashMap;
use vstd::prelude::*;

verus! {

broadcast use vstd::std_specs::hash::group_hash_axioms;

/// Reduces a binder body: a fresh identity `id` stands for the bound variable at
/// depth `vm.len()` while `b` is reduced, and is dropped afterwards.
pub open spec fn br_binder(
    base: Seq<CorePrismExpr>,
    b: CoreIndex,
    s: Seq<SEntry>,
    vm: Map<usize, usize>,
    id: usize,
    fuel: nat,
) -> Option<(CTree, Map<usize, usize>, usize)>
    decreases fuel, 2nat,
{
    match br_fuel(
        base,
        b,
        s.push(SEntry::RType(UniqueVariableId(id))),
        vm.insert(id, vm.len() as usize),
        next_id(id),
        fuel,
    ) {
        None => None,
        Some((t, vm2, id2)) => Some((t, vm2.remove(id), id2)),
    }
}

/// Beta reducing the expression at `i` in environment `s` to its normal form, with at
/// most `fuel` nested steps: the head is reduced, then the parts of the head normal form.
/// `None` where the fuel runs out or the computation is stuck (an index outside the arena or the scope).
pub open spec fn br_fuel(
    base: Seq<CorePrismExpr>,
    i: CoreIndex,
    s: Seq<SEntry>,
    vm: Map<usize, usize>,
    id: usize,
    fuel: nat,
) -> Option<(CTree, Map<usize, usize>, usize)>
    decreases fuel, 1nat,
{
    if fuel == 0 {
        None
    } else {
        let f = (fuel - 1) as nat;
        match brh_run(base, brh_init(i, s), fuel) {
            None => None,
            Some((h, hs)) => if h.0 >= base.len() {
                None
            } else {
                match base[h.0 as int] {
                    CorePrismExpr::Type => Some((CTree::Type, vm, id)),
                    CorePrismExpr::GrammarValue(g) => Some((CTree::GrammarValue(g), vm, id)),
                    CorePrismExpr::GrammarType => Some((CTree::GrammarType, vm, id)),
                    CorePrismExpr::DeBruijnIndex(v) => if v < hs.len() {
                        match env_at(hs, v as int) {
                            SEntry::RType(uid) => if vm.contains_key(uid.0) && vm[uid.0]
                                < vm.len() {
                                Some(
                                    (
                                        CTree::DeBruijnIndex(
                                            (vm.len() - vm[uid.0] - 1) as usize,
                                        ),
                                        vm,
                                        id,
                                    ),
                                )
                            } else {
                                None
                            },
                            _ => None,
                        }
                    } else {
                        None
                    },
                    CorePrismExpr::FnType(a, b) => match br_fuel(base, a, hs, vm, id, f) {
                        None => None,
                        Some((ta, vm1, id1)) => match br_binder(base, b, hs, vm1, id1, f) {
                            None => None,
                            Some((tb, vm2, id2)) => Some(
                                (CTree::FnType(Box::new(ta), Box::new(tb)), vm2, id2),
                            ),
                        },
                    },
                    CorePrismExpr::FnConstruct(b) => match br_binder(base, b, hs, vm, id, f) {
                        None => None,
                        Some((tb, vm2, id2)) => Some(
                            (CTree::FnConstruct(Box::new(tb)), vm2, id2),
                        ),
                    },
                    CorePrismExpr::FnDestruct(a, b) => match br_fuel(base, a, hs, vm, id, f) {
                        None => None,
                        Some((ta, vm1, id1)) => match br_fuel(base, b, hs, vm1, id1, f) {
                            None => None,
                            Some((tb, vm2, id2)) => Some(
                                (CTree::FnDestruct(Box::new(ta), Box::new(tb)), vm2, id2),
                            ),
                        },
                    },
                    CorePrismExpr::Free => Some((CTree::Free, vm, id)),
                    _ => None,
                }
            },
        }
    }
}

/// Beta reducing the expression at `i` ends without a panic.
pub open spec fn beta_reduce_halts(values: Seq<CorePrismExpr>, i: CoreIndex, id: usize) -> bool {
    exists|fuel: nat| #[trigger] br_fuel(values, i, Seq::empty(), Map::empty(), id, fuel) is Some
}

/// The normal form tree of the expression at `i` (meaningful when `beta_reduce_halts`).
pub open spec fn spec_beta_reduce(values: Seq<CorePrismExpr>, i: CoreIndex, id: usize) -> (
    CTree,
    Map<usize, usize>,
    usize,
) {
    br_fuel(
        values,
        i,
        Seq::empty(),
        Map::empty(),
        id,
        choose|fuel: nat| #[trigger] br_fuel(values, i, Seq::empty(), Map::empty(), id, fuel) is Some,
    ).unwrap()
}

impl PrismEnv {
    fn beta_reduce_binder(
        &mut self,
        b: CoreIndex,
        s: &DbEnv,
        var_map: &mut HashMap<usize, usize>,
        Ghost(base): Ghost<Seq<CorePrismExpr>>,
        Ghost(fuel): Ghost<nat>,
    ) -> (r: CoreIndex)
        requires
            old(self).arena_wf(),
            is_prefix(base, old(self).checked_values@),
            br_binder(base, b, s@, old(var_map)@, old(self).tc_id, fuel) is Some,
        ensures
            grows(old(self), final(self)),
            old(self).checked_values@.len() <= r.0 < final(self).checked_values@.len(),
            br_binder(base, b, s@, old(var_map)@, old(self).tc_id, fuel) == Some(
                (
                    read_back(final(self).checked_values@, r.0 as int),
                    final(var_map)@,
                    final(self).tc_id,
                ),
            ),
        decreases fuel, 2nat,
    {
        let id = self.new_tc_id();
        let depth = var_map.len();
        var_map.insert(id.0, depth);
        let sub_env = s.cons(EnvEntry::RType(id));
        let r = self.beta_reduce_inner(b, &sub_env, var_map, Ghost(base), Ghost(fuel));
        var_map.remove(&id.0);
        r
    }

    #[verifier::rlimit(60)]
    #[verifier::spinoff_prover]
    fn beta_reduce_inner(
        &mut self,
        i: CoreIndex,
        s: &DbEnv,
        var_map: &mut HashMap<usize, usize>,
        Ghost(base): Ghost<Seq<CorePrismExpr>>,
        Ghost(fuel): Ghost<nat>,
    ) -> (r: CoreIndex)
        requires
            old(self).arena_wf(),
            is_prefix(base, old(self).checked_values@),
            br_fuel(base, i, s@, old(var_map)@, old(self).tc_id, fuel) is Some,
        ensures
            grows(old(self), final(self)),
            old(self).checked_values@.len() <= r.0 < final(self).checked_values@.len(),
            br_fuel(base, i, s@, old(var_map)@, old(self).tc_id, fuel) == Some(
                (
                    read_back(final(self).checked_values@, r.0 as int),
                    final(var_map)@,
                    final(self).tc_id,
                ),
            ),
        decreases fuel, 1nat,
    {
        let ghost f = (fuel - 1) as nat;
        let ghost s0 = *self;
        proof {
            assert(s0.checked_values@.subrange(0, s0.checked_values@.len() as int)
                =~= s0.checked_values@);
            assert(s0.checked_origins@.subrange(0, s0.checked_origins@.len() as int)
                =~= s0.checked_origins@);
            assert(grows(&s0, &s0));
            lemma_brh_prefix(base, self.checked_values@, brh_init(i, s@), fuel);
        }
        let (i, s) = self.beta_reduce_head_fuel(i, s.copy(), Ghost(fuel));
        proof {
            assert(self.checked_values@[i.0 as int] == base[i.0 as int]);
        }
        let origin = self.checked_origins[i.0];
        let ev = self.checked_values[i.0];
        let e_new = match ev {
            CorePrismExpr::Type => CorePrismExpr::Type,
            CorePrismExpr::GrammarValue(g) => CorePrismExpr::GrammarValue(g),
            CorePrismExpr::GrammarType => CorePrismExpr::GrammarType,
            CorePrismExpr::DeBruijnIndex(v) => {
                let d = match s.index(v) {
                    EnvEntry::RType(id) => match var_map.get(&id.0) {
                        Some(d) => *d,
                        None => 0,
                    },
                    _ => 0,
                };
                CorePrismExpr::DeBruijnIndex(var_map.len() - d - 1)
            },
            CorePrismExpr::FnType(a, b) => {
                let a2 = self.beta_reduce_inner(a, &s, var_map, Ghost(base), Ghost(f));
                let ghost s1 = *self;
                proof {
                    lemma_prefix_trans(base, s0.checked_values@, s1.checked_values@);
                }
                let b2 = self.beta_reduce_binder(b, &s, var_map, Ghost(base), Ghost(f));
                let ghost s2 = *self;
                proof {
                    lemma_grows_trans(&s0, &s1, &s2);
                    lemma_read_back_prefix(s1.checked_values@, s2.checked_values@, a2.0 as int);
                }
                CorePrismExpr::FnType(a2, b2)
            },
            CorePrismExpr::FnConstruct(b) => {
                let b2 = self.beta_reduce_binder(b, &s, var_map, Ghost(base), Ghost(f));
                CorePrismExpr::FnConstruct(b2)
            },
            CorePrismExpr::FnDestruct(a, b) => {
                let a2 = self.beta_reduce_inner(a, &s, var_map, Ghost(base), Ghost(f));
                let ghost s1 = *self;
                proof {
                    lemma_prefix_trans(base, s0.checked_values@, s1.checked_values@);
                }
                let b2 = self.beta_reduce_inner(b, &s, var_map, Ghost(base), Ghost(f));
                let ghost s2 = *self;
                proof {
                    lemma_grows_trans(&s0, &s1, &s2);
                    lemma_read_back_prefix(s1.checked_values@, s2.checked_values@, a2.0 as int);
                }
                CorePrismExpr::FnDestruct(a2, b2)
            },
            CorePrismExpr::Free => CorePrismExpr::Free,
            _ => {
                proof {
                    assert(false);
                }
                CorePrismExpr::Free
            },
        };
        let ghost s3 = *self;
        let r = self.store_checked(e_new, origin);
        proof {
            assert(self.checked_values@.subrange(0, s3.checked_values@.len() as int)
                =~= s3.checked_values@);
            assert(self.checked_origins@.subrange(0, s3.checked_origins@.len() as int)
                =~= s3.checked_origins@);
            assert(grows(&s3, self));
            lemma_grows_trans(&s0, &s3, self);
            match e_new {
                CorePrismExpr::FnType(a2, b2) | CorePrismExpr::FnDestruct(a2, b2) => {
                    lemma_read_back_prefix(s3.checked_values@, self.checked_values@, a2.0 as int);
                    lemma_read_back_prefix(s3.checked_values@, self.checked_values@, b2.0 as int);
                },
                CorePrismExpr::FnConstruct(b2) => {
                    lemma_read_back_prefix(s3.checked_values@, self.checked_values@, b2.0 as int);
                },
                _ => {},
            }
        }
        r
    }

    /// Beta reduces the expression at `i` to its normal form, stored as a new tree of
    /// expressions. The arena only grows. The normal form has no `let`, shift or type
    /// assertion, applies no function to an argument, and is closed.
    pub fn beta_reduce(&mut self, i: CoreIndex) -> (r: CoreIndex)
        requires
            old(self).arena_wf(),
            beta_reduce_halts(old(self).checked_values@, i, old(self).tc_id),
        ensures
            grows(old(self), final(self)),
            old(self).checked_values@.len() <= r.0 < final(self).checked_values@.len(),
            read_back(final(self).checked_values@, r.0 as int) == spec_beta_reduce(
                old(self).checked_values@,
                i,
                old(self).tc_id,
            ).0,
            final(self).tc_id == spec_beta_reduce(old(self).checked_values@, i, old(self).tc_id).2,
            crate::lang::tree::reduced_shape(read_back(final(self).checked_values@, r.0 as int)),
            crate::lang::tree::no_redex(read_back(final(self).checked_values@, r.0 as int)),
            crate::lang::tree::scoped(read_back(final(self).checked_values@, r.0 as int), 0),
    {
        let ghost base = self.checked_values@;
        let ghost fuel = choose|fuel: nat| #[trigger]
            br_fuel(base, i, Seq::empty(), Map::empty(), self.tc_id, fuel) is Some;
        let mut var_map: HashMap<usize, usize> = HashMap::new();
        let env = DbEnv::new();
        proof {
            assert(base.subrange(0, base.len() as int) =~= base);
            assert(var_map@ =~= Map::<usize, usize>::empty());
            lemma_beta_reduce_normal(base, i, self.tc_id);
            lemma_beta_reduce_scoped(base, i, self.tc_id);
        }
        self.beta_reduce_inner(i, &env, &mut var_map, Ghost(base), Ghost(fuel))
    }
}

} // verus!

verus! {

/// Normal form trees have every child in place.
pub proof fn lemma_br_good(
    base: Seq<CorePrismExpr>,
    i: CoreIndex,
    s: Seq<SEntry>,
    vm: Map<usize, usize>,
    id: usize,
    fuel: nat,
)
    ensures
        br_fuel(base, i, s, vm, id, fuel) matches Some((t, _, _)) ==> crate::lang::tree::good(t)
            && crate::lang::tree::reduced_shape(t),
    decreases fuel, 1nat,
{
    if fuel > 0 {
        let f = (fuel - 1) as nat;
        if let Some((h, hs)) = brh_run(base, brh_init(i, s), fuel) {
            if h.0 < base.len() {
                match base[h.0 as int] {
                    CorePrismExpr::FnType(a, b) => {
                        lemma_br_good(base, a, hs, vm, id, f);
                        if let Some((_, vm1, id1)) = br_fuel(base, a, hs, vm, id, f) {
                            lemma_br_binder_good(base, b, hs, vm1, id1, f);
                        }
                    },
                    CorePrismExpr::FnConstruct(b) => {
                        lemma_br_binder_good(base, b, hs, vm, id, f);
                    },
                    CorePrismExpr::FnDestruct(a, b) => {
                        lemma_br_good(base, a, hs, vm, id, f);
                        if let Some((_, vm1, id1)) = br_fuel(base, a, hs, vm, id, f) {
                            lemma_br_good(base, b, hs, vm1, id1, f);
                        }
                    },
                    _ => {},
                }
            }
        }
    }
}

pub proof fn lemma_br_binder_good(
    base: Seq<CorePrismExpr>,
    b: CoreIndex,
    s: Seq<SEntry>,
    vm: Map<usize, usize>,
    id: usize,
    fuel: nat,
)
    ensures
        br_binder(base, b, s, vm, id, fuel) matches Some((t, _, _)) ==> crate::lang::tree::good(t)
            && crate::lang::tree::reduced_shape(t),
    decreases fuel, 2nat,
{
    lemma_br_good(
        base,
        b,
        s.push(SEntry::RType(UniqueVariableId(id))),
        vm.insert(id, vm.len() as usize),
        next_id(id),
        fuel,
    );
}

impl PrismEnv {
    /// The text of the normal form of the expression at `i`.
    pub fn index_to_br_string(&mut self, i: CoreIndex) -> (r: String)
        requires
            old(self).arena_wf(),
            beta_reduce_halts(old(self).checked_values@, i, old(self).tc_id),
        ensures
            grows(old(self), final(self)),
            exists|j: usize|
                old(self).checked_values@.len() <= j < final(self).checked_values@.len()
                    && read_back(final(self).checked_values@, j as int) == spec_beta_reduce(
                    old(self).checked_values@,
                    i,
                    old(self).tc_id,
                ).0 && r@ == crate::lang::display::core_text(
                    final(self).checked_values@,
                    CoreIndex(j),
                ),
    {
        let ghost v0 = self.checked_values@;
        let ghost id0 = self.tc_id;
        let j = self.beta_reduce(i);
        let _n = self.checked_values.len();
        proof {
            let fuel = choose|fuel: nat| #[trigger]
                br_fuel(v0, i, Seq::empty(), Map::empty(), id0, fuel) is Some;
            lemma_br_good(v0, i, Seq::empty(), Map::empty(), id0, fuel);
            crate::lang::display::lemma_display_good(
                self.checked_values@,
                j.0 as int,
                crate::lang::display::PrecedenceLevel::Let,
            );
        }
        self.index_to_string(j)
    }
}

} // verus!

verus! {

impl PrismEnv {
    fn beta_reduce_binder_bounded(
        &mut self,
        b: CoreIndex,
        s: &DbEnv,
        var_map: &mut HashMap<usize, usize>,
        Ghost(base): Ghost<Seq<CorePrismExpr>>,
        base_len: usize,
        fuel: usize,
    ) -> (r: Option<CoreIndex>)
        requires
            old(self).arena_wf(),
            is_prefix(base, old(self).checked_values@),
            base_len == base.len(),
        ensures
            grows(old(self), final(self)),
            match r {
                Some(r) => old(self).checked_values@.len() <= r.0 < final(self).checked_values@.len()
                    && br_binder(base, b, s@, old(var_map)@, old(self).tc_id, fuel as nat) == Some(
                    (
                        read_back(final(self).checked_values@, r.0 as int),
                        final(var_map)@,
                        final(self).tc_id,
                    ),
                ),
                None => br_binder(base, b, s@, old(var_map)@, old(self).tc_id, fuel as nat) is None,
            },
        decreases fuel, 2nat,
    {
        let id = self.new_tc_id();
        let depth = var_map.len();
        var_map.insert(id.0, depth);
        let sub_env = s.cons(EnvEntry::RType(id));
        let r = self.beta_reduce_inner_bounded(b, &sub_env, var_map, Ghost(base), base_len, fuel);
        var_map.remove(&id.0);
        r
    }

    #[verifier::rlimit(80)]
    #[verifier::spinoff_prover]
    fn beta_reduce_inner_bounded(
        &mut self,
        i: CoreIndex,
        s: &DbEnv,
        var_map: &mut HashMap<usize, usize>,
        Ghost(base): Ghost<Seq<CorePrismExpr>>,
        base_len: usize,
        fuel: usize,
    ) -> (r: Option<CoreIndex>)
        requires
            old(self).arena_wf(),
            is_prefix(base, old(self).checked_values@),
            base_len == base.len(),
        ensures
            grows(old(self), final(self)),
            match r {
                Some(r) => old(self).checked_values@.len() <= r.0 < final(self).checked_values@.len()
                    && br_fuel(base, i, s@, old(var_map)@, old(self).tc_id, fuel as nat) == Some(
                    (
                        read_back(final(self).checked_values@, r.0 as int),
                        final(var_map)@,
                        final(self).tc_id,
                    ),
                ),
                None => br_fuel(base, i, s@, old(var_map)@, old(self).tc_id, fuel as nat) is None,
            },
        decreases fuel, 1nat,
    {
        let ghost s0 = *self;
        proof {
            assert(s0.checked_values@.subrange(0, s0.checked_values@.len() as int)
                =~= s0.checked_values@);
            assert(s0.checked_origins@.subrange(0, s0.checked_origins@.len() as int)
                =~= s0.checked_origins@);
            assert(grows(&s0, &s0));
        }
        if fuel == 0 {
            return None;
        }
        let f = fuel - 1;
        let (i, s) = match self.beta_reduce_head_within(i, s, fuel, Ghost(base), base_len) {
            Some(x) => x,
            None => return None,
        };
        if i.0 >= base_len {
            return None;
        }
        proof {
            assert(self.checked_values@[i.0 as int] == base[i.0 as int]);
        }
        let origin = self.checked_origins[i.0];
        let ev = self.checked_values[i.0];
        let e_new = match ev {
            CorePrismExpr::Type => CorePrismExpr::Type,
            CorePrismExpr::GrammarValue(g) => CorePrismExpr::GrammarValue(g),
            CorePrismExpr::GrammarType => CorePrismExpr::GrammarType,
            CorePrismExpr::Free => CorePrismExpr::Free,
            CorePrismExpr::DeBruijnIndex(v) => match s.get_idx(v) {
                Some(EnvEntry::RType(id)) => {
                    let d = match var_map.get(&id.0) {
                        Some(d) => *d,
                        None => return None,
                    };
                    let n = var_map.len();
                    if d >= n {
                        return None;
                    }
                    CorePrismExpr::DeBruijnIndex(n - d - 1)
                },
                _ => return None,
            },
            CorePrismExpr::FnType(a, b) => {
                let a2 = match self.beta_reduce_inner_bounded(a, &s, var_map, Ghost(base), base_len, f) {
                    Some(x) => x,
                    None => return None,
                };
                let ghost s1 = *self;
                proof {
                    lemma_prefix_trans(base, s0.checked_values@, s1.checked_values@);
                }
                let b2 = match self.beta_reduce_binder_bounded(b, &s, var_map, Ghost(base), base_len, f) {
                    Some(x) => x,
                    None => {
                        proof {
                            lemma_grows_trans(&s0, &s1, self);
                        }
                        return None;
                    },
                };
                let ghost s2 = *self;
                proof {
                    lemma_grows_trans(&s0, &s1, &s2);
                    lemma_read_back_prefix(s1.checked_values@, s2.checked_values@, a2.0 as int);
                }
                CorePrismExpr::FnType(a2, b2)
            },
            CorePrismExpr::FnConstruct(b) => {
                let b2 = match self.beta_reduce_binder_bounded(b, &s, var_map, Ghost(base), base_len, f) {
                    Some(x) => x,
                    None => return None,
                };
                CorePrismExpr::FnConstruct(b2)
            },
            CorePrismExpr::FnDestruct(a, b) => {
                let a2 = match self.beta_reduce_inner_bounded(a, &s, var_map, Ghost(base), base_len, f) {
                    Some(x) => x,
                    None => return None,
                };
                let ghost s1 = *self;
                proof {
                    lemma_prefix_trans(base, s0.checked_values@, s1.checked_values@);
                }
                let b2 = match self.beta_reduce_inner_bounded(b, &s, var_map, Ghost(base), base_len, f) {
                    Some(x) => x,
                    None => {
                        proof {
                            lemma_grows_trans(&s0, &s1, self);
                        }
                        return None;
                    },
                };
                let ghost s2 = *self;
                proof {
                    lemma_grows_trans(&s0, &s1, &s2);
                    lemma_read_back_prefix(s1.checked_values@, s2.checked_values@, a2.0 as int);
                }
                CorePrismExpr::FnDestruct(a2, b2)
            },
            _ => return None,
        };
        let ghost s3 = *self;
        let r = self.store_checked(e_new, origin);
        proof {
            assert(self.checked_values@.subrange(0, s3.checked_values@.len() as int)
                =~= s3.checked_values@);
            assert(self.checked_origins@.subrange(0, s3.checked_origins@.len() as int)
                =~= s3.checked_origins@);
            assert(grows(&s3, self));
            lemma_grows_trans(&s0, &s3, self);
            match e_new {
                CorePrismExpr::FnType(a2, b2) | CorePrismExpr::FnDestruct(a2, b2) => {
                    lemma_read_back_prefix(s3.checked_values@, self.checked_values@, a2.0 as int);
                    lemma_read_back_prefix(s3.checked_values@, self.checked_values@, b2.0 as int);
                },
                CorePrismExpr::FnConstruct(b2) => {
                    lemma_read_back_prefix(s3.checked_values@, self.checked_values@, b2.0 as int);
                },
                _ => {},
            }
        }
        Some(r)
    }

    /// The text of the normal form of the expression at `i`, when reducing it takes at
    /// most `limit` nested steps; `None` when it takes more or cannot be carried out.
    pub fn index_to_br_string_bounded(&mut self, i: CoreIndex, limit: usize) -> (r: Option<String>)
        requires
            old(self).arena_wf(),
        ensures
            grows(old(self), final(self)),
            match br_fuel(old(self).checked_values@, i, Seq::empty(), Map::empty(), old(self).tc_id, limit as nat) {
                None => r is None,
                Some((t, _, _)) => r matches Some(text) && exists|j: usize|
                    old(self).checked_values@.len() <= j < final(self).checked_values@.len()
                        && read_back(final(self).checked_values@, j as int) == t
                        && text@ == crate::lang::display::core_text(final(self).checked_values@, CoreIndex(j)),
            },
    {
        let ghost base = self.checked_values@;
        let ghost id0 = self.tc_id;
        let base_len = self.checked_values.len();
        let mut var_map: HashMap<usize, usize> = HashMap::new();
        let env = DbEnv::new();
        proof {
            assert(base.subrange(0, base.len() as int) =~= base);
            assert(var_map@ =~= Map::<usize, usize>::empty());
        }
        match self.beta_reduce_inner_bounded(i, &env, &mut var_map, Ghost(base), base_len, limit) {
            None => None,
            Some(j) => {
                let _n = self.checked_values.len();
                proof {
                    lemma_br_good(base, i, Seq::empty(), Map::empty(), id0, limit as nat);
                    crate::lang::display::lemma_display_good(
                        self.checked_values@,
                        j.0 as int,
                        crate::lang::display::PrecedenceLevel::Let,
                    );
                }
                Some(self.index_to_string(j))
            },
        }
    }
}


/// The variables of a normal form lie under more binders than their index, counting one
/// binder around the tree for each variable that `vm` gives a depth; the variable depths
/// left afterwards are among those of `vm`.
proof fn lemma_br_scoped(
    base: Seq<CorePrismExpr>,
    i: CoreIndex,
    s: Seq<SEntry>,
    vm: Map<usize, usize>,
    id: usize,
    fuel: nat,
)
    requires
        vm.dom().finite(),
    ensures
        br_fuel(base, i, s, vm, id, fuel) matches Some((t, vm2, _)) ==> crate::lang::tree::scoped(
            t,
            vm.len(),
        ) && vm2.dom().subset_of(vm.dom()),
    decreases fuel, 1nat,
{
    if fuel > 0 {
        let f = (fuel - 1) as nat;
        if let Some((h, hs)) = brh_run(base, brh_init(i, s), fuel) {
            if h.0 < base.len() {
                match base[h.0 as int] {
                    CorePrismExpr::FnType(a, b) => {
                        lemma_br_scoped(base, a, hs, vm, id, f);
                        if let Some((ta, vm1, id1)) = br_fuel(base, a, hs, vm, id, f) {
                            vstd::set_lib::lemma_len_subset(vm1.dom(), vm.dom());
                            lemma_br_binder_scoped(base, b, hs, vm1, id1, f);
                            if let Some((tb, vm2, _)) = br_binder(base, b, hs, vm1, id1, f) {
                                crate::lang::tree::lemma_scoped_mono(tb, vm1.len() + 1, vm.len() + 1);
                            }
                        }
                    },
                    CorePrismExpr::FnConstruct(b) => {
                        lemma_br_binder_scoped(base, b, hs, vm, id, f);
                    },
                    CorePrismExpr::FnDestruct(a, b) => {
                        lemma_br_scoped(base, a, hs, vm, id, f);
                        if let Some((ta, vm1, id1)) = br_fuel(base, a, hs, vm, id, f) {
                            vstd::set_lib::lemma_len_subset(vm1.dom(), vm.dom());
                            lemma_br_scoped(base, b, hs, vm1, id1, f);
                            if let Some((tb, vm2, _)) = br_fuel(base, b, hs, vm1, id1, f) {
                                crate::lang::tree::lemma_scoped_mono(tb, vm1.len(), vm.len());
                            }
                        }
                    },
                    _ => {},
                }
            }
        }
    }
}

/// A binder body's normal form is scoped with one more binder around it.
proof fn lemma_br_binder_scoped(
    base: Seq<CorePrismExpr>,
    b: CoreIndex,
    s: Seq<SEntry>,
    vm: Map<usize, usize>,
    id: usize,
    fuel: nat,
)
    requires
        vm.dom().finite(),
    ensures
        br_binder(base, b, s, vm, id, fuel) matches Some((t, vm2, _)) ==> crate::lang::tree::scoped(
            t,
            vm.len() + 1,
        ) && vm2.dom().subset_of(vm.dom()),
    decreases fuel, 2nat,
{
    let vmi = vm.insert(id, vm.len() as usize);
    lemma_br_scoped(base, b, s.push(SEntry::RType(UniqueVariableId(id))), vmi, next_id(id), fuel);
    assert(vmi.dom() =~= vm.dom().insert(id));
    if let Some((t, vm2, _)) = br_fuel(base, b, s.push(SEntry::RType(UniqueVariableId(id))), vmi, next_id(id), fuel) {
        assert(vmi.len() <= vm.len() + 1);
        crate::lang::tree::lemma_scoped_mono(t, vmi.len(), vm.len() + 1);
        assert(vm2.remove(id).dom() =~= vm2.dom().remove(id));
    }
}

/// Every variable of the normal form that beta reduction gives lies under more binders
/// than its index: the normal form is closed.
pub proof fn lemma_beta_reduce_scoped(values: Seq<CorePrismExpr>, i: CoreIndex, id: usize)
    requires
        beta_reduce_halts(values, i, id),
    ensures
        crate::lang::tree::scoped(spec_beta_reduce(values, i, id).0, 0),
{
    let fuel = choose|fuel: nat| #[trigger] br_fuel(values, i, Seq::empty(), Map::empty(), id, fuel) is Some;
    lemma_br_scoped(values, i, Seq::empty(), Map::empty(), id, fuel);
    assert(Map::<usize, usize>::empty().dom() =~= Set::<usize>::empty());
}

/// A normal form applies no function to an argument.
proof fn lemma_br_no_redex(
    base: Seq<CorePrismExpr>,
    i: CoreIndex,
    s: Seq<SEntry>,
    vm: Map<usize, usize>,
    id: usize,
    fuel: nat,
)
    ensures
        br_fuel(base, i, s, vm, id, fuel) matches Some((t, _, _)) ==> crate::lang::tree::no_redex(t),
    decreases fuel, 1nat,
{
    if fuel > 0 {
        let f = (fuel - 1) as nat;
        if let Some((h, hs)) = brh_run(base, brh_init(i, s), fuel) {
            if h.0 < base.len() {
                match base[h.0 as int] {
                    CorePrismExpr::FnType(a, b) => {
                        lemma_br_no_redex(base, a, hs, vm, id, f);
                        if let Some((_, vm1, id1)) = br_fuel(base, a, hs, vm, id, f) {
                            lemma_br_binder_no_redex(base, b, hs, vm1, id1, f);
                        }
                    },
                    CorePrismExpr::FnConstruct(b) => {
                        lemma_br_binder_no_redex(base, b, hs, vm, id, f);
                    },
                    CorePrismExpr::FnDestruct(a, b) => {
                        lemma_br_no_redex(base, a, hs, vm, id, f);
                        if let Some((_, vm1, id1)) = br_fuel(base, a, hs, vm, id, f) {
                            lemma_br_no_redex(base, b, hs, vm1, id1, f);
                        }
                        crate::lang::beta_reduce_head::lemma_app_head_no_function(base, i, s, fuel);
                        assert(br_fuel(base, a, hs, vm, id, f) matches Some((ta, _, _)) ==> !(ta is FnConstruct));
                    },
                    _ => {},
                }
            }
        }
    }
}

/// A binder body's normal form applies no function to an argument.
proof fn lemma_br_binder_no_redex(
    base: Seq<CorePrismExpr>,
    b: CoreIndex,
    s: Seq<SEntry>,
    vm: Map<usize, usize>,
    id: usize,
    fuel: nat,
)
    ensures
        br_binder(base, b, s, vm, id, fuel) matches Some((t, _, _)) ==> crate::lang::tree::no_redex(t),
    decreases fuel, 2nat,
{
    lemma_br_no_redex(
        base,
        b,
        s.push(SEntry::RType(UniqueVariableId(id))),
        vm.insert(id, vm.len() as usize),
        next_id(id),
        fuel,
    );
}

/// The normal form that beta reduction gives is in beta normal form: no `let`, shift or
/// type assertion is left, and no function is applied to an argument.
pub proof fn lemma_beta_reduce_normal(values: Seq<CorePrismExpr>, i: CoreIndex, id: usize)
    requires
        beta_reduce_halts(values, i, id),
    ensures
        crate::lang::tree::reduced_shape(spec_beta_reduce(values, i, id).0),
        crate::lang::tree::no_redex(spec_beta_reduce(values, i, id).0),
{
    let fuel = choose|fuel: nat| #[trigger] br_fuel(values, i, Seq::empty(), Map::empty(), id, fuel) is Some;
    lemma_br_good(values, i, Seq::empty(), Map::empty(), id, fuel);
    lemma_br_no_redex(values, i, Seq::empty(), Map::empty(), id, fuel);
}

/// A tree in beta normal form: types, grammars, functions and function types whose parts
/// are in normal form, and neutral terms.
pub open spec fn normal_tree(t: CTree) -> bool
    decreases t,
{
    match t {
        CTree::Type => true,
        CTree::GrammarType => true,
        CTree::GrammarValue(_) => true,
        CTree::Free => true,
        CTree::DeBruijnIndex(_) => true,
        CTree::FnType(a, b) => normal_tree(*a) && normal_tree(*b),
        CTree::FnConstruct(b) => normal_tree(*b),
        CTree::FnDestruct(f, a) => neutral_tree(*f) && normal_tree(*a),
        _ => false,
    }
}

/// A neutral term: a variable or a free value, applied to arguments in normal form.
pub open spec fn neutral_tree(t: CTree) -> bool
    decreases t,
{
    match t {
        CTree::Free => true,
        CTree::DeBruijnIndex(_) => true,
        CTree::FnDestruct(f, a) => neutral_tree(*f) && normal_tree(*a),
        _ => false,
    }
}

/// Head reduction stops at once on a neutral spine whose variables are bound to plain
/// variables: it comes back to where the spine started.
proof fn lemma_brh_neutral(base: Seq<CorePrismExpr>, st: crate::lang::beta_reduce_head::BrhState, fuel: nat)
    requires
        neutral_tree(read_back(base, st.e.0 as int)),
        crate::lang::tree::scoped(read_back(base, st.e.0 as int), st.s.len()),
        forall|j: int| 0 <= j < st.s.len() ==> #[trigger] st.s[j] is RType,
    ensures
        crate::lang::simplify::height(read_back(base, st.e.0 as int)) <= fuel ==> brh_run(
            base,
            st,
            fuel,
        ) is Some,
        brh_run(base, st, fuel) is Some ==> brh_run(base, st, fuel) == Some(
            if st.args.len() == 0 {
                (st.e, st.s)
            } else {
                (st.start_e, st.start_s)
            },
        ),
    decreases fuel,
{
    if fuel > 0 {
        match base[st.e.0 as int] {
            CorePrismExpr::DeBruijnIndex(v) => {
                assert(st.s[st.s.len() - 1 - v] is RType);
            },
            CorePrismExpr::FnDestruct(f, a) => {
                if let crate::lang::beta_reduce_head::BrhStep::Next(st2) = crate::lang::beta_reduce_head::brh_step(base, st) {
                    lemma_brh_neutral(base, st2, (fuel - 1) as nat);
                }
            },
            _ => {},
        }
    }
}

/// Beta reducing a tree in normal form whose variables are bound as `bound_scope` says
/// gives the tree back, the depths as they were, and one identity used per binder.
proof fn lemma_br_normal(
    base: Seq<CorePrismExpr>,
    i: CoreIndex,
    s: Seq<SEntry>,
    vm: Map<usize, usize>,
    id: usize,
    fuel: nat,
)
    requires
        normal_tree(read_back(base, i.0 as int)),
        crate::lang::tree::scoped(read_back(base, i.0 as int), s.len()),
        crate::lang::simplify::bound_scope(s, vm, id),
        id + crate::lang::simplify::binders(read_back(base, i.0 as int)) <= usize::MAX,
    ensures
        crate::lang::simplify::height(read_back(base, i.0 as int)) <= fuel ==> br_fuel(
            base,
            i,
            s,
            vm,
            id,
            fuel,
        ) is Some,
        br_fuel(base, i, s, vm, id, fuel) is Some ==> br_fuel(base, i, s, vm, id, fuel) == Some(
            (
                read_back(base, i.0 as int),
                vm,
                (id + crate::lang::simplify::binders(read_back(base, i.0 as int))) as usize,
            ),
        ),
    decreases fuel, 1nat,
{
    if fuel > 0 {
        let f = (fuel - 1) as nat;
        let t = read_back(base, i.0 as int);
        assert forall|j: int| 0 <= j < s.len() implies #[trigger] s[j] is RType by {
            assert(s[j] is RType);
        }
        if neutral_tree(t) {
            lemma_brh_neutral(base, brh_init(i, s), fuel);
        }
        match base[i.0 as int] {
            CorePrismExpr::DeBruijnIndex(v) => {
                let j = s.len() - 1 - v;
                assert(s[j] is RType && vm[s[j]->RType_0.0] == j);
            },
            CorePrismExpr::FnType(a, b) => {
                lemma_br_normal(base, a, s, vm, id, f);
                let id1 = (id + crate::lang::simplify::binders(read_back(base, a.0 as int))) as usize;
                lemma_bound_scope_later(s, vm, id, id1);
                lemma_br_binder_normal(base, b, s, vm, id1, f);
            },
            CorePrismExpr::FnConstruct(b) => {
                lemma_br_binder_normal(base, b, s, vm, id, f);
            },
            CorePrismExpr::FnDestruct(a, b) => {
                lemma_neutral_normal(read_back(base, a.0 as int));
                lemma_br_normal(base, a, s, vm, id, f);
                let id1 = (id + crate::lang::simplify::binders(read_back(base, a.0 as int))) as usize;
                lemma_bound_scope_later(s, vm, id, id1);
                lemma_br_normal(base, b, s, vm, id1, f);
            },
            _ => {},
        }
    }
}

/// A neutral term is in normal form.
proof fn lemma_neutral_normal(t: CTree)
    requires
        neutral_tree(t),
    ensures
        normal_tree(t),
{
}

/// A scope stays bound as `bound_scope` says when more identities have been handed out.
proof fn lemma_bound_scope_later(s: Seq<SEntry>, vm: Map<usize, usize>, id: usize, id1: usize)
    requires
        crate::lang::simplify::bound_scope(s, vm, id),
        id <= id1,
    ensures
        crate::lang::simplify::bound_scope(s, vm, id1),
{
}

/// The same for a binder body, which binds one more variable.
proof fn lemma_br_binder_normal(
    base: Seq<CorePrismExpr>,
    b: CoreIndex,
    s: Seq<SEntry>,
    vm: Map<usize, usize>,
    id: usize,
    fuel: nat,
)
    requires
        normal_tree(read_back(base, b.0 as int)),
        crate::lang::tree::scoped(read_back(base, b.0 as int), s.len() + 1),
        crate::lang::simplify::bound_scope(s, vm, id),
        id + 1 + crate::lang::simplify::binders(read_back(base, b.0 as int)) <= usize::MAX,
    ensures
        crate::lang::simplify::height(read_back(base, b.0 as int)) <= fuel ==> br_binder(
            base,
            b,
            s,
            vm,
            id,
            fuel,
        ) is Some,
        br_binder(base, b, s, vm, id, fuel) is Some ==> br_binder(base, b, s, vm, id, fuel) == Some(
            (
                read_back(base, b.0 as int),
                vm,
                (id + 1 + crate::lang::simplify::binders(read_back(base, b.0 as int))) as usize,
            ),
        ),
    decreases fuel, 2nat,
{
    let s2 = s.push(SEntry::RType(UniqueVariableId(id)));
    let vm2 = vm.insert(id, vm.len() as usize);
    assert(!vm.contains_key(id));
    assert(vm2.dom() =~= vm.dom().insert(id));
    assert forall|j: int| 0 <= j < s2.len() implies (#[trigger] s2[j] is RType) && vm2.contains_key(
        s2[j]->RType_0.0,
    ) && vm2[s2[j]->RType_0.0] == j by {
        if j == s.len() {
            assert(s2[j] == SEntry::RType(UniqueVariableId(id)));
        } else {
            assert(s2[j] == s[j]);
            assert(s[j] is RType && vm.contains_key(s[j]->RType_0.0) && vm[s[j]->RType_0.0] == j);
        }
    }
    assert(crate::lang::simplify::bound_scope(s2, vm2, next_id(id)));
    lemma_br_normal(base, b, s2, vm2, next_id(id), fuel);
    assert(vm2.remove(id) =~= vm);
}

/// A closed tree already in beta normal form is its own normal form: beta reduction
/// gives it back as it is. In particular the normal form of a stuck application is the
/// application of the normal forms of its parts. (The identities it hands out must not
/// run past `usize::MAX`.)
pub proof fn lemma_beta_reduce_keeps_normal_forms(values: Seq<CorePrismExpr>, i: CoreIndex, id: usize)
    requires
        normal_tree(read_back(values, i.0 as int)),
        crate::lang::tree::scoped(read_back(values, i.0 as int), 0),
        id + crate::lang::simplify::binders(read_back(values, i.0 as int)) <= usize::MAX,
    ensures
        beta_reduce_halts(values, i, id),
        spec_beta_reduce(values, i, id).0 == read_back(values, i.0 as int),
{
    let t = read_back(values, i.0 as int);
    assert(Map::<usize, usize>::empty().dom() =~= Set::<usize>::empty());
    lemma_br_normal(values, i, Seq::empty(), Map::empty(), id, crate::lang::simplify::height(t));
    let g = choose|g: nat| #[trigger] br_fuel(values, i, Seq::empty(), Map::empty(), id, g) is Some;
    lemma_br_normal(values, i, Seq::empty(), Map::empty(), id, g);
}

} // verus!
