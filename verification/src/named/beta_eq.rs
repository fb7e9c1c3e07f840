use crate::named::term::{spec_subst, STerm, Term};
use crate::text::str_eq;
use vstd::prelude::*;

verus! {

/// Head reduction with at most `fuel` nested steps; `None` when the fuel runs out.
/// A `let` is unfolded by substitution; an application whose head reduces to a
/// function construct is reduced by substitution; an application whose head reduces
/// to anything else is stuck, and stays an application of that head to its argument.
pub open spec fn brh_fuel(t: STerm, fuel: nat) -> Option<STerm>
    decreases fuel,
{
    if fuel == 0 {
        None
    } else {
        let f = (fuel - 1) as nat;
        match t {
            STerm::Let(n, _, v, b) => brh_fuel(spec_subst(*b, n, *v), f),
            STerm::FunDestruct(fu, a) => match brh_fuel(*fu, f) {
                None => None,
                Some(STerm::FunConstruct(n, _, b)) => brh_fuel(spec_subst(*b, n, *a), f),
                Some(r) => Some(STerm::FunDestruct(Box::new(r), a)),
            },
            _ => Some(t),
        }
    }
}

/// Head reduction of `t` terminates.
pub open spec fn brh_halts(t: STerm) -> bool {
    exists|fuel: nat| #[trigger] brh_fuel(t, fuel) is Some
}

/// The head normal form of `t` (meaningful when `brh_halts(t)`).
pub open spec fn reduce_head(t: STerm) -> STerm {
    brh_fuel(t, choose|fuel: nat| #[trigger] brh_fuel(t, fuel) is Some).unwrap()
}

/// The name that stands for the bound variables of two binders while their bodies are compared.
pub open spec fn fresh_name(n1: Seq<char>, n2: Seq<char>) -> Seq<char> {
    "%"@ + n1 + "%"@ + n2 + "%"@
}

/// Beta equality with at most `fuel` nested steps; `None` when the fuel runs out.
pub open spec fn beq_fuel(t1: STerm, t2: STerm, fuel: nat) -> Option<bool>
    decreases fuel,
{
    if fuel == 0 {
        None
    } else {
        let f = (fuel - 1) as nat;
        match (brh_fuel(t1, fuel), brh_fuel(t2, fuel)) {
            (Some(r1), Some(r2)) => match (r1, r2) {
                (STerm::Type, STerm::Type) => Some(true),
                (STerm::Var(n1), STerm::Var(n2)) => Some(n1 == n2),
                (STerm::FunType(n1, at1, bt1), STerm::FunType(n2, at2, bt2)) => {
                    let x = STerm::Var(fresh_name(n1, n2));
                    match beq_fuel(*at1, *at2, f) {
                        None => None,
                        Some(false) => Some(false),
                        Some(true) => beq_fuel(spec_subst(*bt1, n1, x), spec_subst(*bt2, n2, x), f),
                    }
                },
                (STerm::FunConstruct(n1, at1, b1), STerm::FunConstruct(n2, at2, b2)) => {
                    let x = STerm::Var(fresh_name(n1, n2));
                    match beq_fuel(*at1, *at2, f) {
                        None => None,
                        Some(false) => Some(false),
                        Some(true) => beq_fuel(spec_subst(*b1, n1, x), spec_subst(*b2, n2, x), f),
                    }
                },
                (STerm::FunDestruct(f1, a1), STerm::FunDestruct(f2, a2)) => match beq_fuel(
                    *f1,
                    *f2,
                    f,
                ) {
                    None => None,
                    Some(false) => Some(false),
                    Some(true) => beq_fuel(*a1, *a2, f),
                },
                _ => Some(false),
            },
            _ => None,
        }
    }
}

/// Deciding the beta equality of `t1` and `t2` terminates.
pub open spec fn beq_halts(t1: STerm, t2: STerm) -> bool {
    exists|fuel: nat| #[trigger] beq_fuel(t1, t2, fuel) is Some
}

/// Whether `t1` and `t2` are beta equal (meaningful when `beq_halts(t1, t2)`).
pub open spec fn spec_is_beta_eq(t1: STerm, t2: STerm) -> bool {
    beq_fuel(t1, t2, choose|fuel: nat| #[trigger] beq_fuel(t1, t2, fuel) is Some).unwrap()
}

pub(crate) fn beta_reduce_head_fuel<'src>(term: Term<'src>, Ghost(fuel): Ghost<nat>) -> (r: Term<'src>)
    requires
        brh_fuel(term@, fuel) is Some,
    ensures
        brh_fuel(term@, fuel) == Some(r@),
    decreases fuel,
{
    let ghost f = (fuel - 1) as nat;
    match term {
        Term::Let { n, v, b, .. } => beta_reduce_head_fuel(b.subst_self(n, &*v), Ghost(f)),
        Term::FunDestruct { f: fu, a } => {
            let fr = beta_reduce_head_fuel(*fu, Ghost(f));
            match fr {
                Term::FunConstruct { n, b, .. } => beta_reduce_head_fuel(
                    b.subst_self(n, &*a),
                    Ghost(f),
                ),
                t => Term::FunDestruct { f: Box::new(t), a },
            }
        },
        t => t,
    }
}

/// Beta reduce the head of the term. The result is in head normal form: no `let`, and an
/// application only of a head that is itself in head normal form and no function; it
/// reduces to itself. A `let` reduces as its body with the value substituted.
pub fn beta_reduce_head<'src>(term: Term<'src>) -> (r: Term<'src>)
    requires
        brh_halts(term@),
    ensures
        r@ == reduce_head(term@),
        head_normal(r@),
        brh_halts(r@) && reduce_head(r@) == r@,
        r@ matches STerm::FunDestruct(g, _) ==> brh_halts(*g) && reduce_head(*g) == *g && !(
        *g is FunConstruct),
        term@ matches STerm::Let(n, _, v, b) ==> brh_halts(spec_subst(*b, n, *v)) && r@
            == reduce_head(spec_subst(*b, n, *v)),
{
    let ghost fuel = choose|fuel: nat| #[trigger] brh_fuel(term@, fuel) is Some;
    let ghost t = term@;
    let r = beta_reduce_head_fuel(term, Ghost(fuel));
    proof {
        lemma_reduce_head_idempotent(t);
        if let STerm::FunDestruct(g, _) = r@ {
            lemma_brh_head_normal(*g, spine_len(*g) + 1);
            let f2 = choose|f2: nat| #[trigger] brh_fuel(*g, f2) is Some;
            if f2 <= spine_len(*g) + 1 {
                lemma_brh_fuel_mono(*g, f2, spine_len(*g) + 1);
            } else {
                lemma_brh_fuel_mono(*g, spine_len(*g) + 1, f2);
            }
        }
        if let STerm::Let(n, _, v, b) = t {
            let sb = spec_subst(*b, n, *v);
            assert(brh_fuel(sb, (fuel - 1) as nat) is Some);
            let f2 = choose|f2: nat| #[trigger] brh_fuel(sb, f2) is Some;
            if f2 <= (fuel - 1) as nat {
                lemma_brh_fuel_mono(sb, f2, (fuel - 1) as nat);
            } else {
                lemma_brh_fuel_mono(sb, (fuel - 1) as nat, f2);
            }
        }
    }
    r
}

fn fresh_string(n1: &str, n2: &str) -> (r: String)
    ensures
        r@ == fresh_name(n1@, n2@),
{
    let mut s = String::new();
    s.append("%");
    s.append(n1);
    s.append("%");
    s.append(n2);
    s.append("%");
    s
}

pub(crate) fn is_beta_eq_fuel(t1: Term, t2: Term, Ghost(fuel): Ghost<nat>) -> (r: bool)
    requires
        beq_fuel(t1@, t2@, fuel) is Some,
    ensures
        beq_fuel(t1@, t2@, fuel) == Some(r),
    decreases fuel,
{
    let ghost f = (fuel - 1) as nat;
    let t1 = beta_reduce_head_fuel(t1, Ghost(fuel));
    let t2 = beta_reduce_head_fuel(t2, Ghost(fuel));
    match (t1, t2) {
        (Term::Type, Term::Type) => true,
        (Term::Var { n: n1 }, Term::Var { n: n2 }) => str_eq(n1, n2),
        (Term::FunType { n: n1, at: at1, bt: bt1 }, Term::FunType { n: n2, at: at2, bt: bt2 }) => {
            let fresh = fresh_string(n1, n2);
            let fresh_var = Term::Var { n: fresh.as_str() };
            is_beta_eq_fuel(*at1, *at2, Ghost(f)) && is_beta_eq_fuel(
                bt1.subst_self(n1, &fresh_var),
                bt2.subst_self(n2, &fresh_var),
                Ghost(f),
            )
        },
        (
            Term::FunConstruct { n: n1, at: at1, b: b1 },
            Term::FunConstruct { n: n2, at: at2, b: b2 },
        ) => {
            let fresh = fresh_string(n1, n2);
            let fresh_var = Term::Var { n: fresh.as_str() };
            is_beta_eq_fuel(*at1, *at2, Ghost(f)) && is_beta_eq_fuel(
                b1.subst_self(n1, &fresh_var),
                b2.subst_self(n2, &fresh_var),
                Ghost(f),
            )
        },
        (Term::FunDestruct { f: f1, a: a1 }, Term::FunDestruct { f: f2, a: a2 }) => {
            is_beta_eq_fuel(*f1, *f2, Ghost(f)) && is_beta_eq_fuel(*a1, *a2, Ghost(f))
        },
        _ => false,
    }
}

/// Decides whether two terms are beta equal: both are head reduced, then compared
/// structurally, the bound names of binders renamed to a common fresh name.
pub fn is_beta_eq(t1: Term, t2: Term) -> (r: bool)
    requires
        beq_halts(t1@, t2@),
    ensures
        r == spec_is_beta_eq(t1@, t2@),
{
    let ghost fuel = choose|fuel: nat| #[trigger] beq_fuel(t1@, t2@, fuel) is Some;
    is_beta_eq_fuel(t1, t2, Ghost(fuel))
}

} // verus!

verus! {

/// Head reduction ends at a head normal form: neither a `let` nor an application.
pub proof fn lemma_brh_shape(t: STerm, fuel: nat)
    ensures
        brh_fuel(t, fuel) matches Some(r) ==> head_normal(r),
    decreases fuel,
{
    if fuel > 0 {
        let f = (fuel - 1) as nat;
        match t {
            STerm::Let(n, _, v, b) => lemma_brh_shape(spec_subst(*b, n, *v), f),
            STerm::FunDestruct(fu, a) => {
                lemma_brh_shape(*fu, f);
                if let Some(STerm::FunConstruct(n, _, b)) = brh_fuel(*fu, f) {
                    lemma_brh_shape(spec_subst(*b, n, *a), f);
                }
            },
            _ => {},
        }
    }
}

/// A term in head normal form: no `let` at the head, and an application only of a head
/// in head normal form that is not a function.
pub open spec fn head_normal(t: STerm) -> bool
    decreases t,
{
    match t {
        STerm::Let(..) => false,
        STerm::FunDestruct(g, _) => !(*g is FunConstruct) && head_normal(*g),
        _ => true,
    }
}

/// The number of applications along the head of `t`.
pub open spec fn spine_len(t: STerm) -> nat
    decreases t,
{
    match t {
        STerm::FunDestruct(g, _) => spine_len(*g) + 1,
        _ => 0,
    }
}

/// More fuel does not change a head reduction that already ended.
pub proof fn lemma_brh_fuel_mono(t: STerm, f: nat, g: nat)
    requires
        brh_fuel(t, f) is Some,
        f <= g,
    ensures
        brh_fuel(t, g) == brh_fuel(t, f),
    decreases f,
{
    let f1 = (f - 1) as nat;
    let g1 = (g - 1) as nat;
    match t {
        STerm::Let(n, _, v, b) => lemma_brh_fuel_mono(spec_subst(*b, n, *v), f1, g1),
        STerm::FunDestruct(fu, a) => {
            lemma_brh_fuel_mono(*fu, f1, g1);
            if let Some(STerm::FunConstruct(n, _, b)) = brh_fuel(*fu, f1) {
                lemma_brh_fuel_mono(spec_subst(*b, n, *a), f1, g1);
            }
        },
        _ => {},
    }
}

/// A term in head normal form reduces to itself.
pub proof fn lemma_brh_head_normal(t: STerm, fuel: nat)
    requires
        head_normal(t),
        fuel > spine_len(t),
    ensures
        brh_fuel(t, fuel) == Some(t),
    decreases t,
{
    if let STerm::FunDestruct(g, a) = t {
        lemma_brh_head_normal(*g, (fuel - 1) as nat);
    }
}

/// Head reduction is idempotent: the head normal form of a term reduces to itself.
pub proof fn lemma_reduce_head_idempotent(t: STerm)
    requires
        brh_halts(t),
    ensures
        head_normal(reduce_head(t)),
        brh_halts(reduce_head(t)),
        reduce_head(reduce_head(t)) == reduce_head(t),
{
    let fuel = choose|fuel: nat| #[trigger] brh_fuel(t, fuel) is Some;
    let r = reduce_head(t);
    lemma_brh_shape(t, fuel);
    lemma_brh_head_normal(r, spine_len(r) + 1);
    assert(brh_fuel(r, spine_len(r) + 1) is Some);
    let f2 = choose|fuel: nat| #[trigger] brh_fuel(r, fuel) is Some;
    if f2 <= spine_len(r) + 1 {
        lemma_brh_fuel_mono(r, f2, spine_len(r) + 1);
    } else {
        lemma_brh_fuel_mono(r, spine_len(r) + 1, f2);
    }
}

/// Comparing a term with itself, with any fuel that suffices, finds them equal.
pub proof fn lemma_beq_fuel_reflexive(t: STerm, fuel: nat)
    ensures
        beq_fuel(t, t, fuel) matches Some(b) ==> b,
    decreases fuel,
{
    if fuel > 0 {
        let f = (fuel - 1) as nat;
        lemma_brh_shape(t, fuel);
        if let Some(r) = brh_fuel(t, fuel) {
            match r {
                STerm::FunType(n, at, bt) => {
                    let x = STerm::Var(fresh_name(n, n));
                    lemma_beq_fuel_reflexive(*at, f);
                    lemma_beq_fuel_reflexive(spec_subst(*bt, n, x), f);
                },
                STerm::FunConstruct(n, at, b) => {
                    let x = STerm::Var(fresh_name(n, n));
                    lemma_beq_fuel_reflexive(*at, f);
                    lemma_beq_fuel_reflexive(spec_subst(*b, n, x), f);
                },
                STerm::FunDestruct(g, a) => {
                    lemma_beq_fuel_reflexive(*g, f);
                    lemma_beq_fuel_reflexive(*a, f);
                },
                _ => {},
            }
        }
    }
}

/// Beta equality is reflexive: every term whose comparison with itself ends is beta
/// equal to itself.
pub proof fn lemma_beta_eq_reflexive(t: STerm)
    requires
        beq_halts(t, t),
    ensures
        spec_is_beta_eq(t, t),
{
    let fuel = choose|fuel: nat| #[trigger] beq_fuel(t, t, fuel) is Some;
    lemma_beq_fuel_reflexive(t, fuel);
}

/// More fuel does not change a comparison that already ended.
pub proof fn lemma_beq_fuel_mono(t1: STerm, t2: STerm, f: nat, g: nat)
    requires
        beq_fuel(t1, t2, f) is Some,
        f <= g,
    ensures
        beq_fuel(t1, t2, g) == beq_fuel(t1, t2, f),
    decreases f,
{
    let f1 = (f - 1) as nat;
    let g1 = (g - 1) as nat;
    lemma_brh_fuel_mono(t1, f, g);
    lemma_brh_fuel_mono(t2, f, g);
    match (brh_fuel(t1, f)->0, brh_fuel(t2, f)->0) {
        (STerm::FunType(n1, at1, bt1), STerm::FunType(n2, at2, bt2)) => {
            let x = STerm::Var(fresh_name(n1, n2));
            lemma_beq_fuel_mono(*at1, *at2, f1, g1);
            if beq_fuel(*at1, *at2, f1) == Some(true) {
                lemma_beq_fuel_mono(spec_subst(*bt1, n1, x), spec_subst(*bt2, n2, x), f1, g1);
            }
        },
        (STerm::FunConstruct(n1, at1, b1), STerm::FunConstruct(n2, at2, b2)) => {
            let x = STerm::Var(fresh_name(n1, n2));
            lemma_beq_fuel_mono(*at1, *at2, f1, g1);
            if beq_fuel(*at1, *at2, f1) == Some(true) {
                lemma_beq_fuel_mono(spec_subst(*b1, n1, x), spec_subst(*b2, n2, x), f1, g1);
            }
        },
        (STerm::FunDestruct(fa, a1), STerm::FunDestruct(fb, a2)) => {
            lemma_beq_fuel_mono(*fa, *fb, f1, g1);
            if beq_fuel(*fa, *fb, f1) == Some(true) {
                lemma_beq_fuel_mono(*a1, *a2, f1, g1);
            }
        },
        _ => {},
    }
}

/// Where a comparison ends, it gives what any other fuel with which it ends gives.
pub(crate) proof fn lemma_beq_fuel_same(t1: STerm, t2: STerm, f: nat, g: nat)
    requires
        beq_fuel(t1, t2, f) is Some,
        beq_fuel(t1, t2, g) is Some,
    ensures
        beq_fuel(t1, t2, g) == beq_fuel(t1, t2, f),
{
    if f <= g {
        lemma_beq_fuel_mono(t1, t2, f, g);
    } else {
        lemma_beq_fuel_mono(t1, t2, g, f);
    }
}

/// Beta equality separates function types by their argument types and by their bodies,
/// and functions likewise: two function types (or two functions) are beta equal only if
/// their argument types are, and then their bodies are, with both bound names standing
/// for one common fresh name.
pub proof fn lemma_beta_eq_binder_parts(t1: STerm, t2: STerm)
    requires
        beq_halts(t1, t2),
        spec_is_beta_eq(t1, t2),
    ensures
        (t1, t2) matches (STerm::FunType(n1, a1, b1), STerm::FunType(n2, a2, b2)) ==> {
            &&& beq_halts(*a1, *a2)
            &&& spec_is_beta_eq(*a1, *a2)
            &&& beq_halts(
                spec_subst(*b1, n1, STerm::Var(fresh_name(n1, n2))),
                spec_subst(*b2, n2, STerm::Var(fresh_name(n1, n2))),
            )
            &&& spec_is_beta_eq(
                spec_subst(*b1, n1, STerm::Var(fresh_name(n1, n2))),
                spec_subst(*b2, n2, STerm::Var(fresh_name(n1, n2))),
            )
        },
        (t1, t2) matches (STerm::FunConstruct(n1, a1, b1), STerm::FunConstruct(n2, a2, b2)) ==> {
            &&& beq_halts(*a1, *a2)
            &&& spec_is_beta_eq(*a1, *a2)
        },
{
    let fuel = choose|fuel: nat| #[trigger] beq_fuel(t1, t2, fuel) is Some;
    let f = (fuel - 1) as nat;
    match (t1, t2) {
        (STerm::FunType(n1, a1, b1), STerm::FunType(n2, a2, b2)) => {
            let x = STerm::Var(fresh_name(n1, n2));
            assert(beq_fuel(*a1, *a2, f) == Some(true));
            let g = choose|g: nat| #[trigger] beq_fuel(*a1, *a2, g) is Some;
            lemma_beq_fuel_same(*a1, *a2, f, g);
            let c1 = spec_subst(*b1, n1, x);
            let c2 = spec_subst(*b2, n2, x);
            assert(beq_fuel(c1, c2, f) == Some(true));
            let h = choose|h: nat| #[trigger] beq_fuel(c1, c2, h) is Some;
            lemma_beq_fuel_same(c1, c2, f, h);
        },
        (STerm::FunConstruct(n1, a1, b1), STerm::FunConstruct(n2, a2, b2)) => {
            assert(beq_fuel(*a1, *a2, f) == Some(true));
            let g = choose|g: nat| #[trigger] beq_fuel(*a1, *a2, g) is Some;
            lemma_beq_fuel_same(*a1, *a2, f, g);
        },
        _ => {},
    }
}

/// Beta equality separates the kinds of head normal terms: for two terms that are each
/// `Type`, a variable, a function type or a function, and are not two function types or
/// two functions (whose parts would be compared), beta equality is equality: a variable
/// is beta equal only to itself, and terms of different kinds are never beta equal.
pub proof fn lemma_beta_eq_separates_kinds(t1: STerm, t2: STerm)
    requires
        !(t1 is Let) && !(t1 is FunDestruct),
        !(t2 is Let) && !(t2 is FunDestruct),
        !(t1 is FunType && t2 is FunType),
        !(t1 is FunConstruct && t2 is FunConstruct),
    ensures
        beq_halts(t1, t2),
        spec_is_beta_eq(t1, t2) == (t1 == t2),
{
    assert(beq_fuel(t1, t2, 1) is Some);
    let g = choose|g: nat| #[trigger] beq_fuel(t1, t2, g) is Some;
    lemma_beq_fuel_same(t1, t2, 1, g);
}

} // verus!
