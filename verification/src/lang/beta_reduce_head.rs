use crate::lang::env::{env_at, env_shift, DbEnv, EnvEntry, SEntry};
use crate::lang::{CoreIndex, CorePrismExpr, PrismEnv};
use vstd::prelude::*;

verus! {

/// The state of head reduction: the expression and environment under focus, the
/// arguments waiting to be applied (last is next), and the state to fall back to when
/// an application turns out to be stuck.
pub struct BrhState {
    pub e: CoreIndex,
    pub s: Seq<SEntry>,
    pub args: Seq<(CoreIndex, Seq<SEntry>)>,
    pub start_e: CoreIndex,
    pub start_s: Seq<SEntry>,
}

/// One step of head reduction.
pub enum BrhStep {
    Done(CoreIndex, Seq<SEntry>),
    Next(BrhState),
    /// The reduction is stuck: an index out of range, or a value applied to arguments.
    Stuck,
}

/// The result when a variable or free value is reached: itself if no arguments wait, else
/// the last state with no waiting arguments.
pub open spec fn brh_stop(st: BrhState) -> BrhStep {
    if st.args.len() == 0 {
        BrhStep::Done(st.e, st.s)
    } else {
        BrhStep::Done(st.start_e, st.start_s)
    }
}

/// The result when a value is reached: itself; waiting arguments leave the reduction stuck.
pub open spec fn brh_value(st: BrhState) -> BrhStep {
    if st.args.len() == 0 {
        BrhStep::Done(st.e, st.s)
    } else {
        BrhStep::Stuck
    }
}

pub open spec fn brh_step(values: Seq<CorePrismExpr>, st: BrhState) -> BrhStep {
    if st.e.0 >= values.len() {
        BrhStep::Stuck
    } else {
        match values[st.e.0 as int] {
            CorePrismExpr::Type => brh_value(st),
            CorePrismExpr::FnType(..) => brh_value(st),
            CorePrismExpr::GrammarValue(..) => brh_value(st),
            CorePrismExpr::GrammarType => brh_value(st),
            CorePrismExpr::Let(v, b) => BrhStep::Next(
                BrhState { e: b, s: st.s.push(SEntry::RSubst(v, st.s)), ..st },
            ),
            CorePrismExpr::DeBruijnIndex(i) => if i >= st.s.len() {
                BrhStep::Stuck
            } else {
                match env_at(st.s, i as int) {
                    SEntry::CType(..) => brh_stop(st),
                    SEntry::RType(..) => brh_stop(st),
                    SEntry::CSubst(v, _) => BrhStep::Next(
                        BrhState { e: v, s: env_shift(st.s, i + 1), ..st },
                    ),
                    SEntry::RSubst(v, vs) => BrhStep::Next(BrhState { e: v, s: vs, ..st }),
                }
            },
            CorePrismExpr::FnConstruct(b) => if st.args.len() == 0 {
                BrhStep::Done(st.e, st.s)
            } else {
                let (arg, arg_env) = st.args.last();
                BrhStep::Next(
                    BrhState {
                        e: b,
                        s: st.s.push(SEntry::RSubst(arg, arg_env)),
                        args: st.args.drop_last(),
                        ..st
                    },
                )
            },
            CorePrismExpr::FnDestruct(f, a) => {
                let (se, ss) = if st.args.len() == 0 {
                    (st.e, st.s)
                } else {
                    (st.start_e, st.start_s)
                };
                BrhStep::Next(
                    BrhState {
                        e: f,
                        s: st.s,
                        args: st.args.push((a, st.s)),
                        start_e: se,
                        start_s: ss,
                    },
                )
            },
            CorePrismExpr::Free => brh_stop(st),
            CorePrismExpr::Shift(b, i) => if i > st.s.len() {
                BrhStep::Stuck
            } else {
                BrhStep::Next(BrhState { e: b, s: env_shift(st.s, i as int), ..st })
            },
            CorePrismExpr::TypeAssert(new_e, _) => BrhStep::Next(BrhState { e: new_e, ..st }),
        }
    }
}

/// Runs head reduction for at most `fuel` steps.
pub open spec fn brh_run(values: Seq<CorePrismExpr>, st: BrhState, fuel: nat) -> Option<
    (CoreIndex, Seq<SEntry>),
>
    decreases fuel,
{
    if fuel == 0 {
        None
    } else {
        match brh_step(values, st) {
            BrhStep::Done(e, s) => Some((e, s)),
            BrhStep::Stuck => None,
            BrhStep::Next(st2) => brh_run(values, st2, (fuel - 1) as nat),
        }
    }
}

pub open spec fn brh_init(e: CoreIndex, s: Seq<SEntry>) -> BrhState {
    BrhState { e, s, args: Seq::empty(), start_e: e, start_s: s }
}

/// Head reduction of `e` in `s` ends without a panic.
pub open spec fn brh_halts(values: Seq<CorePrismExpr>, e: CoreIndex, s: Seq<SEntry>) -> bool {
    exists|fuel: nat| #[trigger] brh_run(values, brh_init(e, s), fuel) is Some
}

/// The head normal form of `e` in `s` (meaningful when `brh_halts`).
pub open spec fn spec_brh(values: Seq<CorePrismExpr>, e: CoreIndex, s: Seq<SEntry>) -> (
    CoreIndex,
    Seq<SEntry>,
) {
    brh_run(
        values,
        brh_init(e, s),
        choose|fuel: nat| #[trigger] brh_run(values, brh_init(e, s), fuel) is Some,
    ).unwrap()
}

proof fn lemma_brh_done(
    values: Seq<CorePrismExpr>,
    st: BrhState,
    fuel: nat,
    e: CoreIndex,
    s: Seq<SEntry>,
)
    requires
        fuel > 0,
        brh_step(values, st) == BrhStep::Done(e, s),
    ensures
        brh_run(values, st, fuel) == Some((e, s)),
{
}

pub open spec fn args_view(args: Seq<(CoreIndex, DbEnv)>) -> Seq<(CoreIndex, Seq<SEntry>)> {
    args.map_values(|p: (CoreIndex, DbEnv)| (p.0, p.1@))
}

impl PrismEnv {
    /// Head reduction that runs for at most `fuel` steps.
    pub(crate) fn beta_reduce_head_fuel(
        &self,
        start_expr: CoreIndex,
        start_env: DbEnv,
        Ghost(fuel): Ghost<nat>,
    ) -> (r: (CoreIndex, DbEnv))
        requires
            brh_run(self.checked_values@, brh_init(start_expr, start_env@), fuel) is Some,
        ensures
            brh_run(self.checked_values@, brh_init(start_expr, start_env@), fuel) == Some(
                (r.0, r.1@),
            ),
    {
        let ghost values = self.checked_values@;
        let ghost init_env = start_env@;
        let ghost target = brh_run(values, brh_init(start_expr, start_env@), fuel);
        let mut args: Vec<(CoreIndex, DbEnv)> = Vec::new();
        let mut e = start_expr;
        let mut s = start_env.copy();
        let mut start_e = start_expr;
        let mut start_s = start_env.copy();
        let mut f: Ghost<nat> = Ghost(fuel);
        assert(args_view(args@) =~= Seq::<(CoreIndex, Seq<SEntry>)>::empty());
        loop
            invariant
                values == self.checked_values@,
                target is Some,
                target == brh_run(values, brh_init(start_expr, init_env), fuel),
                init_env == start_env@,
                brh_run(
                    values,
                    BrhState { e, s: s@, args: args_view(args@), start_e, start_s: start_s@ },
                    f@,
                ) == target,
            decreases f@,
        {
            let ghost st = BrhState {
                e,
                s: s@,
                args: args_view(args@),
                start_e,
                start_s: start_s@,
            };
            let ghost fo = f@;
            assert(st.args.len() == args@.len());
            assert(brh_step(values, st) !is Stuck);
            assert(fo > 0);
            assert(brh_run(values, st, fo) == match brh_step(values, st) {
                BrhStep::Done(a, b) => Some((a, b)),
                BrhStep::Stuck => None,
                BrhStep::Next(st2) => brh_run(values, st2, (fo - 1) as nat),
            });
            f = Ghost((f@ - 1) as nat);
            let ev = self.checked_values[e.0];
            assert(ev == values[e.0 as int]);
            match ev {
                CorePrismExpr::Type => {
                    assert(brh_step(values, st) == brh_value(st));
                    assert(st.args.len() == 0);
                    proof { lemma_brh_done(values, st, fo, e, s@); }
                    return (e, s);
                },
                CorePrismExpr::FnType(..) => {
                    assert(brh_step(values, st) == brh_value(st));
                    assert(st.args.len() == 0);
                    proof { lemma_brh_done(values, st, fo, e, s@); }
                    return (e, s);
                },
                CorePrismExpr::GrammarValue(..) => {
                    assert(brh_step(values, st) == brh_value(st));
                    assert(st.args.len() == 0);
                    proof { lemma_brh_done(values, st, fo, e, s@); }
                    return (e, s);
                },
                CorePrismExpr::GrammarType => {
                    assert(brh_step(values, st) == brh_value(st));
                    assert(st.args.len() == 0);
                    proof { lemma_brh_done(values, st, fo, e, s@); }
                    return (e, s);
                },
                CorePrismExpr::Let(v, b) => {
                    let entry = EnvEntry::RSubst(v, s.copy());
                    s = s.cons(entry);
                    e = b;
                },
                CorePrismExpr::DeBruijnIndex(i) => {
                    assert(i < st.s.len());
                    let slen = s.len();
                    let is_type = match s.index(i) {
                        EnvEntry::CType(..) => true,
                        EnvEntry::RType(..) => true,
                        _ => false,
                    };
                    if is_type {
                        assert(brh_step(values, st) == brh_stop(st));
                        if args.len() == 0 {
                            proof { lemma_brh_done(values, st, fo, e, s@); }
                            return (e, s);
                        } else {
                            proof { lemma_brh_done(values, st, fo, start_e, start_s@); }
                            return (start_e, start_s);
                        }
                    }
                    let (ne, ns) = match s.index(i) {
                        EnvEntry::CType(..) => (e, s.copy()),
                        EnvEntry::RType(..) => (e, s.copy()),
                        EnvEntry::CSubst(v, _) => (*v, s.shift(i + 1)),
                        EnvEntry::RSubst(v, vs) => (*v, vs.copy()),
                    };
                    e = ne;
                    s = ns;
                },
                CorePrismExpr::FnConstruct(b) => {
                    match args.pop() {
                        None => {
                            return (e, s);
                        },
                        Some((arg, arg_env)) => {
                            assert(args_view(args@) =~= st.args.drop_last());
                            e = b;
                            s = s.cons(EnvEntry::RSubst(arg, arg_env));
                        },
                    }
                },
                CorePrismExpr::FnDestruct(fu, a) => {
                    // If we're in a state where the stack is empty, we may want to revert to this state later, so save it.
                    if args.len() == 0 {
                        start_e = e;
                        start_s = s.copy();
                    }
                    // Push new argument to stack
                    args.push((a, s.copy()));
                    assert(args_view(args@) =~= st.args.push((a, st.s)));
                    e = fu;
                },
                CorePrismExpr::Free => {
                    assert(brh_step(values, st) == brh_stop(st));
                    let r = if args.len() == 0 {
                        (e, s)
                    } else {
                        (start_e, start_s)
                    };
                    proof { lemma_brh_done(values, st, fo, r.0, r.1@); }
                    return r;
                },
                CorePrismExpr::Shift(b, i) => {
                    e = b;
                    s = s.shift(i);
                },
                CorePrismExpr::TypeAssert(new_e, _) => {
                    e = new_e;
                },
            }
        }
    }

    /// Beta reduces the head of `start_expr` in `start_env`: unfolds lets, substitutions and
    /// shifts, and applies functions to waiting arguments, until a value, a variable or a
    /// free value is reached. A stuck application gives back the application, whose head
    /// is stuck on a variable or a free value (`lemma_beta_reduce_head_shape`).
    pub fn beta_reduce_head(&self, start_expr: CoreIndex, start_env: DbEnv) -> (r: (
        CoreIndex,
        DbEnv,
    ))
        requires
            brh_halts(self.checked_values@, start_expr, start_env@),
        ensures
            (r.0, r.1@) == spec_brh(self.checked_values@, start_expr, start_env@),
            r.0.0 < self.checked_values@.len(),
            !(self.checked_values@[r.0.0 as int] is Let),
            !(self.checked_values@[r.0.0 as int] is Shift),
            !(self.checked_values@[r.0.0 as int] is TypeAssert),
            self.checked_values@[r.0.0 as int] matches CorePrismExpr::DeBruijnIndex(k) ==> k
                < r.1@.len() && (env_at(r.1@, k as int) is CType || env_at(r.1@, k as int) is RType),
            self.checked_values@[r.0.0 as int] matches CorePrismExpr::FnDestruct(f, _) ==> {
                &&& brh_halts(self.checked_values@, f, r.1@)
                &&& spec_brh(self.checked_values@, f, r.1@).0.0 < self.checked_values@.len()
                &&& self.checked_values@[spec_brh(self.checked_values@, f, r.1@).0.0 as int] is DeBruijnIndex
                    || self.checked_values@[spec_brh(self.checked_values@, f, r.1@).0.0 as int] is Free
                    || self.checked_values@[spec_brh(self.checked_values@, f, r.1@).0.0 as int] is FnDestruct
            },
    {
        let ghost fuel = choose|fuel: nat| #[trigger]
            brh_run(self.checked_values@, brh_init(start_expr, start_env@), fuel) is Some;
        proof {
            lemma_beta_reduce_head_shape(self.checked_values@, start_expr, start_env@);
        }
        self.beta_reduce_head_fuel(start_expr, start_env, Ghost(fuel))
    }
}

} // verus!

verus! {

/// The head normal form that head reduction gives is a value of the arena that is no
/// `let`, shift or type assertion, and a variable there stands for a variable of its
/// scope (a typed or a bound one), not for a substitution. An application comes back
/// only when its function, head reduced in its scope, is a variable, a free value or an
/// application again: its head is stuck on a variable or a free value.
pub proof fn lemma_beta_reduce_head_shape(values: Seq<CorePrismExpr>, e: CoreIndex, s: Seq<SEntry>)
    requires
        brh_halts(values, e, s),
    ensures
        spec_brh(values, e, s).0.0 < values.len(),
        !(values[spec_brh(values, e, s).0.0 as int] is Let),
        !(values[spec_brh(values, e, s).0.0 as int] is Shift),
        !(values[spec_brh(values, e, s).0.0 as int] is TypeAssert),
        values[spec_brh(values, e, s).0.0 as int] matches CorePrismExpr::DeBruijnIndex(k) ==> k
            < spec_brh(values, e, s).1.len() && (env_at(spec_brh(values, e, s).1, k as int) is CType
            || env_at(spec_brh(values, e, s).1, k as int) is RType),
        values[spec_brh(values, e, s).0.0 as int] matches CorePrismExpr::FnDestruct(f, _) ==> {
            &&& brh_halts(values, f, spec_brh(values, e, s).1)
            &&& spec_brh(values, f, spec_brh(values, e, s).1).0.0 < values.len()
            &&& values[spec_brh(values, f, spec_brh(values, e, s).1).0.0 as int] is DeBruijnIndex
                || values[spec_brh(values, f, spec_brh(values, e, s).1).0.0 as int] is Free
                || values[spec_brh(values, f, spec_brh(values, e, s).1).0.0 as int] is FnDestruct
        },
{
    let fuel = choose|fuel: nat| #[trigger] brh_run(values, brh_init(e, s), fuel) is Some;
    crate::lang::is_beta_equal::lemma_head_normal_form(values, e, s, fuel);
    let (h, hs) = spec_brh(values, e, s);
    if values[h.0 as int] is FnDestruct {
        let f = values[h.0 as int]->FnDestruct_0;
        lemma_app_head_no_function(values, e, s, fuel);
        let k = (fuel - 1) as nat;
        assert(brh_run(values, brh_init(f, hs), k) is Some);
        let g = choose|g: nat| #[trigger] brh_run(values, brh_init(f, hs), g) is Some;
        if g <= k {
            crate::lang::is_beta_equal::lemma_brh_run_mono(values, brh_init(f, hs), g, k);
        } else {
            crate::lang::is_beta_equal::lemma_brh_run_mono(values, brh_init(f, hs), k, g);
        }
    }
}

/// Head reduction in a grown arena ends where it ended before.
pub proof fn lemma_brh_prefix(
    small: Seq<CorePrismExpr>,
    big: Seq<CorePrismExpr>,
    st: BrhState,
    fuel: nat,
)
    requires
        crate::lang::tree::is_prefix(small, big),
        brh_run(small, st, fuel) is Some,
    ensures
        brh_run(big, st, fuel) == brh_run(small, st, fuel),
    decreases fuel,
{
    assert(big[st.e.0 as int] == small[st.e.0 as int]);
    assert(brh_step(big, st) == brh_step(small, st));
    match brh_step(small, st) {
        BrhStep::Next(st2) => lemma_brh_prefix(small, big, st2, (fuel - 1) as nat),
        _ => {},
    }
}

} // verus!

verus! {

impl PrismEnv {
    /// Head reduction for at most `limit` steps: `None` when it does not end within them
    /// (or reaches a state in which the unbounded reduction panics).
    pub fn beta_reduce_head_bounded(&self, start_expr: CoreIndex, start_env: &DbEnv, limit: usize) -> (r:
        Option<(CoreIndex, DbEnv)>)
        ensures
            match r {
                Some(x) => brh_run(self.checked_values@, brh_init(start_expr, start_env@), limit as nat)
                    == Some((x.0, x.1@)),
                None => brh_run(self.checked_values@, brh_init(start_expr, start_env@), limit as nat) is None,
            },
    {
        proof {
            assert(self.checked_values@.subrange(0, self.checked_values@.len() as int)
                =~= self.checked_values@);
        }
        self.beta_reduce_head_within(
            start_expr,
            start_env,
            limit,
            Ghost(self.checked_values@),
            self.checked_values.len(),
        )
    }

    /// Head reduction for at most `limit` steps in the first `base_len` values of the
    /// arena, `base`: a value stored after them counts as out of range.
    #[verifier::rlimit(60)]
    pub(crate) fn beta_reduce_head_within(
        &self,
        start_expr: CoreIndex,
        start_env: &DbEnv,
        limit: usize,
        Ghost(values): Ghost<Seq<CorePrismExpr>>,
        base_len: usize,
    ) -> (r: Option<(CoreIndex, DbEnv)>)
        requires
            crate::lang::tree::is_prefix(values, self.checked_values@),
            base_len == values.len(),
        ensures
            match r {
                Some(x) => brh_run(values, brh_init(start_expr, start_env@), limit as nat)
                    == Some((x.0, x.1@)),
                None => brh_run(values, brh_init(start_expr, start_env@), limit as nat) is None,
            },
    {
        let ghost init_env = start_env@;
        let ghost target = brh_run(values, brh_init(start_expr, init_env), limit as nat);
        let mut args: Vec<(CoreIndex, DbEnv)> = Vec::new();
        let mut e = start_expr;
        let mut s = start_env.copy();
        let mut start_e = start_expr;
        let mut start_s = start_env.copy();
        let mut k: usize = limit;
        assert(args_view(args@) =~= Seq::<(CoreIndex, Seq<SEntry>)>::empty());
        loop
            invariant
                crate::lang::tree::is_prefix(values, self.checked_values@),
                base_len == values.len(),
                target == brh_run(values, brh_init(start_expr, init_env), limit as nat),
                init_env == start_env@,
                brh_run(
                    values,
                    BrhState { e, s: s@, args: args_view(args@), start_e, start_s: start_s@ },
                    k as nat,
                ) == target,
            decreases k,
        {
            let ghost st = BrhState {
                e,
                s: s@,
                args: args_view(args@),
                start_e,
                start_s: start_s@,
            };
            let ghost fo = k as nat;
            assert(st.args.len() == args@.len());
            if k == 0 {
                return None;
            }
            assert(brh_run(values, st, fo) == match brh_step(values, st) {
                BrhStep::Done(a, b) => Some((a, b)),
                BrhStep::Stuck => None,
                BrhStep::Next(st2) => brh_run(values, st2, (fo - 1) as nat),
            });
            k = k - 1;
            if e.0 >= base_len {
                return None;
            }
            let ev = self.checked_values[e.0];
            assert(ev == values[e.0 as int]) by {
                assert(self.checked_values@.subrange(0, values.len() as int)[e.0 as int]
                    == self.checked_values@[e.0 as int]);
            }
            match ev {
                CorePrismExpr::Type => {
                    assert(brh_step(values, st) == brh_value(st));
                    if args.len() != 0 {
                        return None;
                    }
                    proof { lemma_brh_done(values, st, fo, e, s@); }
                    return Some((e, s));
                },
                CorePrismExpr::FnType(..) => {
                    assert(brh_step(values, st) == brh_value(st));
                    if args.len() != 0 {
                        return None;
                    }
                    proof { lemma_brh_done(values, st, fo, e, s@); }
                    return Some((e, s));
                },
                CorePrismExpr::GrammarValue(..) => {
                    assert(brh_step(values, st) == brh_value(st));
                    if args.len() != 0 {
                        return None;
                    }
                    proof { lemma_brh_done(values, st, fo, e, s@); }
                    return Some((e, s));
                },
                CorePrismExpr::GrammarType => {
                    assert(brh_step(values, st) == brh_value(st));
                    if args.len() != 0 {
                        return None;
                    }
                    proof { lemma_brh_done(values, st, fo, e, s@); }
                    return Some((e, s));
                },
                CorePrismExpr::Let(v, b) => {
                    let entry = EnvEntry::RSubst(v, s.copy());
                    s = s.cons(entry);
                    e = b;
                },
                CorePrismExpr::DeBruijnIndex(i) => {
                    let slen = s.len();
                    if i >= slen {
                        return None;
                    }
                    let is_type = match s.index(i) {
                        EnvEntry::CType(..) => true,
                        EnvEntry::RType(..) => true,
                        _ => false,
                    };
                    if is_type {
                        assert(brh_step(values, st) == brh_stop(st));
                        if args.len() == 0 {
                            proof { lemma_brh_done(values, st, fo, e, s@); }
                            return Some((e, s));
                        } else {
                            proof { lemma_brh_done(values, st, fo, start_e, start_s@); }
                            return Some((start_e, start_s));
                        }
                    }
                    let (ne, ns) = match s.index(i) {
                        EnvEntry::CType(..) => (e, s.copy()),
                        EnvEntry::RType(..) => (e, s.copy()),
                        EnvEntry::CSubst(v, _) => (*v, s.shift(i + 1)),
                        EnvEntry::RSubst(v, vs) => (*v, vs.copy()),
                    };
                    e = ne;
                    s = ns;
                },
                CorePrismExpr::FnConstruct(b) => {
                    match args.pop() {
                        None => {
                            proof { lemma_brh_done(values, st, fo, e, s@); }
                            return Some((e, s));
                        },
                        Some((arg, arg_env)) => {
                            assert(args_view(args@) =~= st.args.drop_last());
                            e = b;
                            s = s.cons(EnvEntry::RSubst(arg, arg_env));
                        },
                    }
                },
                CorePrismExpr::FnDestruct(fu, a) => {
                    if args.len() == 0 {
                        start_e = e;
                        start_s = s.copy();
                    }
                    args.push((a, s.copy()));
                    assert(args_view(args@) =~= st.args.push((a, st.s)));
                    e = fu;
                },
                CorePrismExpr::Free => {
                    assert(brh_step(values, st) == brh_stop(st));
                    if args.len() == 0 {
                        proof { lemma_brh_done(values, st, fo, e, s@); }
                        return Some((e, s));
                    } else {
                        proof { lemma_brh_done(values, st, fo, start_e, start_s@); }
                        return Some((start_e, start_s));
                    }
                },
                CorePrismExpr::Shift(b, i) => {
                    if i > s.len() {
                        return None;
                    }
                    e = b;
                    s = s.shift(i);
                },
                CorePrismExpr::TypeAssert(new_e, _) => {
                    e = new_e;
                },
            }
        }
    }
}

/// The state after `n` steps of head reduction from `st`, when none of them ends it.
pub open spec fn brh_steps(values: Seq<CorePrismExpr>, st: BrhState, n: nat) -> Option<BrhState>
    decreases n,
{
    if n == 0 {
        Some(st)
    } else {
        match brh_step(values, st) {
            BrhStep::Next(st2) => brh_steps(values, st2, (n - 1) as nat),
            _ => None,
        }
    }
}

/// Running from `x` for `k` steps is running from where `m` steps lead, for the rest.
proof fn lemma_steps_run(values: Seq<CorePrismExpr>, x: BrhState, m: nat, k: nat)
    requires
        m <= k,
        brh_steps(values, x, m) is Some,
    ensures
        brh_run(values, x, k) == brh_run(values, brh_steps(values, x, m)->0, (k - m) as nat),
    decreases m,
{
    if m > 0 {
        if let BrhStep::Next(x2) = brh_step(values, x) {
            lemma_steps_run(values, x2, (m - 1) as nat, (k - 1) as nat);
        }
    }
}

/// Fewer steps than some that all continue continue too.
proof fn lemma_steps_prefix(values: Seq<CorePrismExpr>, x: BrhState, n: nat, m: nat)
    requires
        m <= n,
        brh_steps(values, x, n) is Some,
    ensures
        brh_steps(values, x, m) is Some,
    decreases m,
{
    if m > 0 {
        if let BrhStep::Next(x2) = brh_step(values, x) {
            lemma_steps_prefix(values, x2, (n - 1) as nat, (m - 1) as nat);
        }
    }
}

/// Steps one after the other.
proof fn lemma_steps_concat(values: Seq<CorePrismExpr>, x: BrhState, m: nat, y: BrhState, n: nat)
    requires
        brh_steps(values, x, m) == Some(y),
    ensures
        brh_steps(values, x, m + n) == brh_steps(values, y, n),
    decreases m,
{
    if m > 0 {
        if let BrhStep::Next(x2) = brh_step(values, x) {
            lemma_steps_concat(values, x2, (m - 1) as nat, y, n);
        }
    }
}

/// Head reduction that comes back to the state it started from never ends.
proof fn lemma_loop_never_ends(values: Seq<CorePrismExpr>, x: BrhState, n: nat, k: nat)
    requires
        n >= 1,
        brh_steps(values, x, n) == Some(x),
    ensures
        brh_run(values, x, k) is None,
    decreases k,
{
    if k <= n {
        lemma_steps_prefix(values, x, n, k);
        lemma_steps_run(values, x, k, k);
    } else {
        lemma_steps_run(values, x, n, k);
        lemma_loop_never_ends(values, x, n, (k - n) as nat);
    }
}

/// The state right after head reduction enters the application `h`, `a` applied to `b`,
/// in scope `hs` with no argument waiting.
pub open spec fn app_state(h: CoreIndex, a: CoreIndex, b: CoreIndex, hs: Seq<SEntry>) -> BrhState {
    BrhState { e: a, s: hs, args: seq![(b, hs)], start_e: h, start_s: hs }
}

/// Head reduction that ends at the application `h` in `hs`, from a state that falls back
/// elsewhere or to nothing, enters `h` in `hs` with no argument waiting on the way.
proof fn lemma_reach_app(
    values: Seq<CorePrismExpr>,
    st: BrhState,
    k: nat,
    h: CoreIndex,
    hs: Seq<SEntry>,
) -> (n: nat)
    requires
        h.0 < values.len(),
        values[h.0 as int] is FnDestruct,
        brh_run(values, st, k) == Some((h, hs)),
        st.args.len() == 0 || st.start_e != h || st.start_s != hs,
    ensures
        n < k,
        brh_steps(values, st, n) == Some(
            app_state(h, values[h.0 as int]->FnDestruct_0, values[h.0 as int]->FnDestruct_1, hs),
        ),
    decreases k,
{
    match brh_step(values, st) {
        BrhStep::Next(st2) => {
            assert(brh_run(values, st2, (k - 1) as nat) == Some((h, hs)));
            if st.args.len() == 0 && st.e == h && st.s == hs {
                assert(st2.args =~= seq![(values[h.0 as int]->FnDestruct_1, hs)]);
                assert(st2 == app_state(
                    h,
                    values[h.0 as int]->FnDestruct_0,
                    values[h.0 as int]->FnDestruct_1,
                    hs,
                ));
                assert(brh_steps(values, st2, 0) == Some(st2));
                1
            } else {
                let n2 = lemma_reach_app(values, st2, (k - 1) as nat, h, hs);
                n2 + 1
            }
        },
        _ => {
            assert(false);
            0
        },
    }
}

/// `mt` runs as `st` does with the argument `b` in `hs` taken from the bottom of the
/// waiting arguments: `st` falls back to the application `h` in `hs`, and `mt` to an
/// application whenever arguments wait.
pub open spec fn mirrors(
    values: Seq<CorePrismExpr>,
    st: BrhState,
    mt: BrhState,
    h: CoreIndex,
    b: CoreIndex,
    hs: Seq<SEntry>,
) -> bool {
    &&& st.e == mt.e
    &&& st.s == mt.s
    &&& st.args == seq![(b, hs)] + mt.args
    &&& st.start_e == h
    &&& st.start_s == hs
    &&& crate::lang::is_beta_equal::brh_inv(values, mt)
}

/// While head reduction that entered the application `h` in `hs` runs on to fall back to
/// it, the reduction of the applied function alone runs alongside and ends at a value
/// that is no function.
#[verifier::spinoff_prover]
proof fn lemma_mirror(
    values: Seq<CorePrismExpr>,
    h: CoreIndex,
    hs: Seq<SEntry>,
    t: nat,
    st: BrhState,
    mt: BrhState,
    k: nat,
)
    requires
        h.0 < values.len(),
        values[h.0 as int] is FnDestruct,
        brh_steps(
            values,
            app_state(h, values[h.0 as int]->FnDestruct_0, values[h.0 as int]->FnDestruct_1, hs),
            t,
        ) == Some(st),
        mirrors(values, st, mt, h, values[h.0 as int]->FnDestruct_1, hs),
        brh_run(values, st, k) == Some((h, hs)),
        brh_run(
            values,
            app_state(h, values[h.0 as int]->FnDestruct_0, values[h.0 as int]->FnDestruct_1, hs),
            t + k,
        ) is Some,
    ensures
        brh_run(values, mt, k) is Some,
        (brh_run(values, mt, k)->0).0.0 < values.len(),
        values[(brh_run(values, mt, k)->0).0.0 as int] is DeBruijnIndex || values[(brh_run(
            values,
            mt,
            k,
        )->0).0.0 as int] is Free || values[(brh_run(values, mt, k)->0).0.0 as int] is FnDestruct,
    decreases k,
{
    let b = values[h.0 as int]->FnDestruct_1;
    let s1 = app_state(h, values[h.0 as int]->FnDestruct_0, b, hs);
    assert(st.args.len() >= 1);
    assert(st.e.0 < values.len());
    match brh_step(values, st) {
        BrhStep::Next(st2) => {
            lemma_steps_concat(values, s1, t, st, 1);
            assert(brh_steps(values, st2, 0) == Some(st2));
            assert(brh_steps(values, st, 1) == Some(st2));
            assert(brh_run(values, st2, (k - 1) as nat) == Some((h, hs)));
            if values[st.e.0 as int] is FnConstruct && mt.args.len() == 0 {
                assert(st.args =~= seq![(b, hs)]);
                assert(st2.args.len() == 0);
                let n = lemma_reach_app(values, st2, (k - 1) as nat, h, hs);
                lemma_steps_concat(values, s1, t + 1, st2, n);
                lemma_loop_never_ends(values, s1, t + 1 + n, t + k);
                assert(false);
            } else {
                match values[st.e.0 as int] {
                    CorePrismExpr::FnConstruct(_) => {
                        assert(mt.args.last() == st.args.last());
                        assert(st2.args =~= seq![(b, hs)] + mt.args.drop_last());
                    },
                    CorePrismExpr::FnDestruct(_, x) => {
                        assert(st2.args =~= seq![(b, hs)] + mt.args.push((x, mt.s)));
                    },
                    _ => {},
                }
                match brh_step(values, mt) {
                    BrhStep::Next(mt2) => {
                        assert(mirrors(values, st2, mt2, h, b, hs));
                        lemma_mirror(values, h, hs, t + 1, st2, mt2, (k - 1) as nat);
                    },
                    _ => {
                        assert(false);
                    },
                }
            }
        },
        _ => {},
    }
}

/// Head reduction that ends at an application ends there because the applied function,
/// reduced in the application's scope with one step less, is no function: it ends at a
/// variable, a free value or an application.
pub proof fn lemma_app_head_no_function(
    values: Seq<CorePrismExpr>,
    e: CoreIndex,
    s: Seq<SEntry>,
    fuel: nat,
)
    requires
        brh_run(values, brh_init(e, s), fuel) is Some,
        (brh_run(values, brh_init(e, s), fuel)->0).0.0 < values.len(),
        values[(brh_run(values, brh_init(e, s), fuel)->0).0.0 as int] is FnDestruct,
    ensures
        ({
            let (h, hs) = brh_run(values, brh_init(e, s), fuel)->0;
            let r = brh_run(values, brh_init(values[h.0 as int]->FnDestruct_0, hs), (fuel - 1) as nat);
            &&& r is Some
            &&& (r->0).0.0 < values.len()
            &&& values[(r->0).0.0 as int] is DeBruijnIndex || values[(r->0).0.0 as int] is Free
                || values[(r->0).0.0 as int] is FnDestruct
        }),
{
    let (h, hs) = brh_run(values, brh_init(e, s), fuel)->0;
    let a = values[h.0 as int]->FnDestruct_0;
    let b = values[h.0 as int]->FnDestruct_1;
    let s1 = app_state(h, a, b, hs);
    let n = lemma_reach_app(values, brh_init(e, s), fuel, h, hs);
    lemma_steps_run(values, brh_init(e, s), n, fuel);
    assert(n >= 1);
    let k = (fuel - n) as nat;
    assert(brh_steps(values, s1, 0) == Some(s1));
    let m0 = brh_init(a, hs);
    assert(s1.args =~= seq![(b, hs)] + m0.args);
    lemma_mirror(values, h, hs, 0, s1, m0, k);
    crate::lang::is_beta_equal::lemma_brh_run_mono(values, m0, k, (fuel - 1) as nat);
}

} // verus!
