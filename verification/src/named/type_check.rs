use crate::named::beta_eq::{
    beq_fuel, beq_halts, brh_fuel, brh_halts, beta_reduce_head_fuel, is_beta_eq_fuel,
    lemma_beq_fuel_mono, lemma_beq_fuel_same, lemma_brh_fuel_mono, reduce_head, spec_is_beta_eq,
};
use crate::named::term::{spec_subst, STerm, Term};
use crate::text::str_eq;
use vstd::prelude::*;

verus! {

/// The types of the variables in scope, by name.
pub struct Vars<'src> {
    entries: Vec<(&'src str, Term<'src>)>,
}

/// The model of the entries of a [`Vars`]: name and type of each.
pub open spec fn entries_view<'src>(e: Seq<(&'src str, Term<'src>)>) -> Seq<(Seq<char>, STerm)> {
    e.map_values(|p: (&'src str, Term<'src>)| (p.0@, p.1@))
}

/// The map that a sequence of distinct names with their types stands for.
pub open spec fn assoc_map(s: Seq<(Seq<char>, STerm)>) -> Map<Seq<char>, STerm> {
    Map::new(
        |k: Seq<char>| exists|i: int| 0 <= i < s.len() && #[trigger] s[i].0 == k,
        |k: Seq<char>| s[choose|i: int| 0 <= i < s.len() && #[trigger] s[i].0 == k].1,
    )
}

pub open spec fn distinct_names(s: Seq<(Seq<char>, STerm)>) -> bool {
    forall|i: int, j: int| 0 <= i < s.len() && 0 <= j < s.len() && i != j ==> s[i].0 != s[j].0
}

proof fn lemma_assoc_lookup(s: Seq<(Seq<char>, STerm)>, i: int)
    requires
        distinct_names(s),
        0 <= i < s.len(),
    ensures
        assoc_map(s).contains_key(s[i].0),
        assoc_map(s)[s[i].0] == s[i].1,
{
    let k = s[i].0;
    assert(assoc_map(s).dom().contains(k));
    let j = choose|j: int| 0 <= j < s.len() && #[trigger] s[j].0 == k;
    assert(j == i);
}

proof fn lemma_assoc_absent(s: Seq<(Seq<char>, STerm)>, k: Seq<char>)
    requires
        forall|i: int| 0 <= i < s.len() ==> s[i].0 != k,
    ensures
        !assoc_map(s).contains_key(k),
{
}

proof fn lemma_assoc_push(s: Seq<(Seq<char>, STerm)>, k: Seq<char>, v: STerm)
    requires
        distinct_names(s),
        !assoc_map(s).contains_key(k),
    ensures
        distinct_names(s.push((k, v))),
        assoc_map(s.push((k, v))) == assoc_map(s).insert(k, v),
{
    let t = s.push((k, v));
    assert forall|i: int| 0 <= i < s.len() implies s[i].0 != k by {
        if s[i].0 == k {
            assert(assoc_map(s).dom().contains(k));
        }
    }
    assert forall|k2: Seq<char>| #[trigger] assoc_map(t).contains_key(k2) == assoc_map(s).insert(
        k,
        v,
    ).contains_key(k2) by {
        if assoc_map(t).contains_key(k2) {
            let i = choose|i: int| 0 <= i < t.len() && #[trigger] t[i].0 == k2;
            if i < s.len() {
                assert(s[i].0 == k2);
            }
        }
        if assoc_map(s).contains_key(k2) {
            let i = choose|i: int| 0 <= i < s.len() && #[trigger] s[i].0 == k2;
            assert(t[i].0 == k2);
        }
        if k2 == k {
            assert(t[s.len() as int].0 == k2);
        }
    }
    assert forall|k2: Seq<char>| #[trigger] assoc_map(t).contains_key(k2) implies assoc_map(t)[k2]
        == assoc_map(s).insert(k, v)[k2] by {
        let i = choose|i: int| 0 <= i < t.len() && #[trigger] t[i].0 == k2;
        lemma_assoc_lookup(t, i);
        if i < s.len() {
            assert(s[i] == t[i]);
            lemma_assoc_lookup(s, i);
        }
    }
    assert(assoc_map(t) =~= assoc_map(s).insert(k, v));
}

proof fn lemma_assoc_update(s: Seq<(Seq<char>, STerm)>, i: int, v: STerm)
    requires
        distinct_names(s),
        0 <= i < s.len(),
    ensures
        distinct_names(s.update(i, (s[i].0, v))),
        assoc_map(s.update(i, (s[i].0, v))) == assoc_map(s).insert(s[i].0, v),
{
    let k = s[i].0;
    let t = s.update(i, (k, v));
    lemma_assoc_lookup(s, i);
    assert forall|k2: Seq<char>| #[trigger] assoc_map(t).contains_key(k2) == assoc_map(s).insert(
        k,
        v,
    ).contains_key(k2) by {
        if assoc_map(t).contains_key(k2) {
            let j = choose|j: int| 0 <= j < t.len() && #[trigger] t[j].0 == k2;
            assert(s[j].0 == k2);
        }
        if assoc_map(s).contains_key(k2) {
            let j = choose|j: int| 0 <= j < s.len() && #[trigger] s[j].0 == k2;
            assert(t[j].0 == k2);
        }
    }
    assert forall|k2: Seq<char>| #[trigger] assoc_map(t).contains_key(k2) implies assoc_map(t)[k2]
        == assoc_map(s).insert(k, v)[k2] by {
        let j = choose|j: int| 0 <= j < t.len() && #[trigger] t[j].0 == k2;
        lemma_assoc_lookup(t, j);
        if j != i {
            lemma_assoc_lookup(s, j);
        }
    }
    assert(assoc_map(t) =~= assoc_map(s).insert(k, v));
}

proof fn lemma_assoc_remove(s: Seq<(Seq<char>, STerm)>, i: int)
    requires
        distinct_names(s),
        0 <= i < s.len(),
    ensures
        distinct_names(s.remove(i)),
        assoc_map(s.remove(i)) == assoc_map(s).remove(s[i].0),
{
    let k = s[i].0;
    let t = s.remove(i);
    assert forall|a: int, b: int| 0 <= a < t.len() && 0 <= b < t.len() && a != b implies t[a].0
        != t[b].0 by {
        let a2 = if a < i { a } else { a + 1 };
        let b2 = if b < i { b } else { b + 1 };
        assert(t[a] == s[a2]);
        assert(t[b] == s[b2]);
    }
    assert forall|k2: Seq<char>| #[trigger] assoc_map(t).contains_key(k2) == assoc_map(s).remove(
        k,
    ).contains_key(k2) by {
        if assoc_map(t).contains_key(k2) {
            let j = choose|j: int| 0 <= j < t.len() && #[trigger] t[j].0 == k2;
            let j2 = if j < i { j } else { j + 1 };
            assert(s[j2].0 == k2);
            assert(j2 != i);
        }
        if assoc_map(s).contains_key(k2) && k2 != k {
            let j = choose|j: int| 0 <= j < s.len() && #[trigger] s[j].0 == k2;
            let j2 = if j < i { j } else { j - 1 };
            assert(t[j2].0 == k2);
        }
    }
    assert forall|k2: Seq<char>| #[trigger] assoc_map(t).contains_key(k2) implies assoc_map(t)[k2]
        == assoc_map(s).remove(k)[k2] by {
        let j = choose|j: int| 0 <= j < t.len() && #[trigger] t[j].0 == k2;
        let j2 = if j < i { j } else { j + 1 };
        assert(t[j] == s[j2]);
        lemma_assoc_lookup(t, j);
        lemma_assoc_lookup(s, j2);
    }
    assert(assoc_map(t) =~= assoc_map(s).remove(k));
}

impl<'src> View for Vars<'src> {
    type V = Map<Seq<char>, STerm>;

    closed spec fn view(&self) -> Map<Seq<char>, STerm> {
        assoc_map(entries_view(self.entries@))
    }
}

impl<'src> Vars<'src> {
    /// No name occurs twice.
    pub closed spec fn wf(&self) -> bool {
        distinct_names(entries_view(self.entries@))
    }

    /// No variables in scope.
    pub fn new() -> (r: Vars<'src>)
        ensures
            r.wf(),
            r@ == Map::<Seq<char>, STerm>::empty(),
    {
        let r = Vars { entries: Vec::new() };
        assert(r@ =~= Map::<Seq<char>, STerm>::empty());
        r
    }

    fn find(&self, n: &str) -> (r: Option<usize>)
        requires
            self.wf(),
        ensures
            match r {
                Some(i) => i < self.entries@.len() && self.entries@[i as int].0@ == n@,
                None => !self@.contains_key(n@),
            },
    {
        let ghost ev = entries_view(self.entries@);
        let mut i: usize = 0;
        while i < self.entries.len()
            invariant
                i <= self.entries@.len(),
                ev == entries_view(self.entries@),
                forall|j: int| 0 <= j < i ==> ev[j].0 != n@,
            decreases self.entries@.len() - i,
        {
            if str_eq(self.entries[i].0, n) {
                return Some(i);
            }
            i += 1;
        }
        proof {
            lemma_assoc_absent(ev, n@);
        }
        None
    }

    /// The type of `n`, if it is in scope.
    pub fn get(&self, n: &str) -> (r: Option<Term<'src>>)
        requires
            self.wf(),
        ensures
            match r {
                Some(t) => self@.contains_key(n@) && t@ == self@[n@],
                None => !self@.contains_key(n@),
            },
    {
        match self.find(n) {
            Some(i) => {
                proof {
                    lemma_assoc_lookup(entries_view(self.entries@), i as int);
                }
                Some(self.entries[i].1.copy())
            },
            None => None,
        }
    }

    /// Gives `n` the type `t`, returning the type it had before.
    pub fn insert(&mut self, n: &'src str, t: Term<'src>) -> (r: Option<Term<'src>>)
        requires
            old(self).wf(),
        ensures
            final(self).wf(),
            final(self)@ == old(self)@.insert(n@, t@),
            match r {
                Some(o) => old(self)@.contains_key(n@) && o@ == old(self)@[n@],
                None => !old(self)@.contains_key(n@),
            },
    {
        let ghost ev = entries_view(self.entries@);
        match self.find(n) {
            Some(i) => {
                proof {
                    lemma_assoc_lookup(ev, i as int);
                    lemma_assoc_update(ev, i as int, t@);
                }
                let mut entry = (n, t);
                std::mem::swap(&mut self.entries[i], &mut entry);
                assert(entries_view(self.entries@) =~= ev.update(i as int, (ev[i as int].0, t@)));
                Some(entry.1)
            },
            None => {
                proof {
                    lemma_assoc_push(ev, n@, t@);
                }
                self.entries.push((n, t));
                assert(entries_view(self.entries@) =~= ev.push((n@, t@)));
                None
            },
        }
    }

    /// Takes `n` out of scope, returning the type it had.
    pub fn remove(&mut self, n: &str) -> (r: Option<Term<'src>>)
        requires
            old(self).wf(),
        ensures
            final(self).wf(),
            final(self)@ == old(self)@.remove(n@),
            match r {
                Some(o) => old(self)@.contains_key(n@) && o@ == old(self)@[n@],
                None => !old(self)@.contains_key(n@),
            },
    {
        let ghost ev = entries_view(self.entries@);
        match self.find(n) {
            Some(i) => {
                proof {
                    lemma_assoc_lookup(ev, i as int);
                    lemma_assoc_remove(ev, i as int);
                }
                let entry = self.entries.remove(i);
                assert(entries_view(self.entries@) =~= ev.remove(i as int));
                Some(entry.1)
            },
            None => {
                assert(old(self)@.remove(n@) =~= old(self)@);
                None
            },
        }
    }
}

} // verus!

verus! {

/// An error of the named type checker.
#[derive(Debug)]
pub enum TypeCheckError<'src> {
    NameNotFound(&'src str),
    ExpectEqual(Term<'src>, Term<'src>),
    ExpectFunction(Term<'src>),
}

/// The model of a [`TypeCheckError`].
pub enum TcErr {
    NameNotFound(Seq<char>),
    ExpectEqual(STerm, STerm),
    ExpectFunction(STerm),
}

impl<'src> View for TypeCheckError<'src> {
    type V = TcErr;

    open spec fn view(&self) -> TcErr {
        match self {
            TypeCheckError::NameNotFound(n) => TcErr::NameNotFound(n@),
            TypeCheckError::ExpectEqual(a, b) => TcErr::ExpectEqual(a@, b@),
            TypeCheckError::ExpectFunction(f) => TcErr::ExpectFunction(f@),
        }
    }
}

/// The model of a type checking result.
pub open spec fn result_view<'src>(r: Result<Term<'src>, TypeCheckError<'src>>) -> Result<
    STerm,
    TcErr,
> {
    match r {
        Ok(t) => Ok(t@),
        Err(e) => Err(e@),
    }
}

/// Expecting `t1` and `t2` to be beta equal, with the given fuel.
pub open spec fn expect_fuel(t1: STerm, t2: STerm, fuel: nat) -> Option<Result<(), TcErr>> {
    match beq_fuel(t1, t2, fuel) {
        None => None,
        Some(true) => Some(Ok(())),
        Some(false) => Some(Err(TcErr::ExpectEqual(t1, t2))),
    }
}

/// Puts the earlier binding of `n` back: `prev` is what `n` was bound to before.
pub open spec fn restore(
    vars: Map<Seq<char>, STerm>,
    n: Seq<char>,
    prev: Map<Seq<char>, STerm>,
) -> Map<Seq<char>, STerm> {
    if prev.contains_key(n) {
        vars.insert(n, prev[n])
    } else {
        vars.remove(n)
    }
}

/// Type checking with at most `fuel` nested steps: the type (or error) together with the
/// variables in scope afterwards; `None` when the fuel runs out. On an error the
/// variables are left as they stood when the error came up.
pub open spec fn tc_fuel(t: STerm, vars: Map<Seq<char>, STerm>, fuel: nat) -> Option<
    (Result<STerm, TcErr>, Map<Seq<char>, STerm>),
>
    decreases fuel,
{
    if fuel == 0 {
        None
    } else {
        let f = (fuel - 1) as nat;
        match t {
            STerm::Type => Some((Ok(STerm::Type), vars)),
            STerm::Var(n) => Some(
                (
                    if vars.contains_key(n) {
                        Ok(vars[n])
                    } else {
                        Err(TcErr::NameNotFound(n))
                    },
                    vars,
                ),
            ),
            STerm::Let(n, ty, v, b) => match tc_fuel(*ty, vars, f) {
                None => None,
                Some((Err(e), vs)) => Some((Err(e), vs)),
                Some((Ok(tt), vs)) => match expect_fuel(tt, STerm::Type, f) {
                    None => None,
                    Some(Err(e)) => Some((Err(e), vs)),
                    Some(Ok(_)) => match tc_fuel(*v, vs, f) {
                        None => None,
                        Some((Err(e), vs2)) => Some((Err(e), vs2)),
                        Some((Ok(vt), vs2)) => match expect_fuel(vt, *ty, f) {
                            None => None,
                            Some(Err(e)) => Some((Err(e), vs2)),
                            Some(Ok(_)) => tc_fuel(spec_subst(*b, n, *v), vs2, f),
                        },
                    },
                },
            },
            STerm::FunType(n, at, bt) => match tc_fuel(*at, vars, f) {
                None => None,
                Some((Err(e), vs)) => Some((Err(e), vs)),
                Some((Ok(att), vs)) => match expect_fuel(att, STerm::Type, f) {
                    None => None,
                    Some(Err(e)) => Some((Err(e), vs)),
                    Some(Ok(_)) => match tc_fuel(*bt, vs.insert(n, *at), f) {
                        None => None,
                        Some((Err(e), vs2)) => Some((Err(e), vs2)),
                        Some((Ok(btt), vs2)) => match expect_fuel(btt, STerm::Type, f) {
                            None => None,
                            Some(Err(e)) => Some((Err(e), vs2)),
                            Some(Ok(_)) => Some((Ok(STerm::Type), restore(vs2, n, vs))),
                        },
                    },
                },
            },
            STerm::FunConstruct(n, at, b) => match tc_fuel(*at, vars, f) {
                None => None,
                Some((Err(e), vs)) => Some((Err(e), vs)),
                Some((Ok(att), vs)) => match expect_fuel(att, STerm::Type, f) {
                    None => None,
                    Some(Err(e)) => Some((Err(e), vs)),
                    Some(Ok(_)) => match tc_fuel(*b, vs.insert(n, *at), f) {
                        None => None,
                        Some((Err(e), vs2)) => Some((Err(e), vs2)),
                        Some((Ok(bty), vs2)) => Some(
                            (Ok(STerm::FunType(n, at, Box::new(bty))), restore(vs2, n, vs)),
                        ),
                    },
                },
            },
            STerm::FunDestruct(fu, a) => match tc_fuel(*fu, vars, f) {
                None => None,
                Some((Err(e), vs)) => Some((Err(e), vs)),
                Some((Ok(ft0), vs)) => match brh_fuel(ft0, f) {
                    None => None,
                    Some(ft) => match tc_fuel(*a, vs, f) {
                        None => None,
                        Some((Err(e), vs2)) => Some((Err(e), vs2)),
                        Some((Ok(at_given), vs2)) => match ft {
                            STerm::FunType(n, at_declared, bt) => match expect_fuel(
                                at_given,
                                *at_declared,
                                f,
                            ) {
                                None => None,
                                Some(Err(e)) => Some((Err(e), vs2)),
                                Some(Ok(_)) => Some((Ok(spec_subst(*bt, n, *a)), vs2)),
                            },
                            _ => Some((Err(TcErr::ExpectFunction(*fu)), vs2)),
                        },
                    },
                },
            },
        }
    }
}

/// Type checking `t` with the variables `vars` terminates.
pub open spec fn tc_halts(t: STerm, vars: Map<Seq<char>, STerm>) -> bool {
    exists|fuel: nat| #[trigger] tc_fuel(t, vars, fuel) is Some
}

/// The outcome of type checking `t` with `vars` (meaningful when `tc_halts(t, vars)`).
pub open spec fn spec_type_check(t: STerm, vars: Map<Seq<char>, STerm>) -> (
    Result<STerm, TcErr>,
    Map<Seq<char>, STerm>,
) {
    tc_fuel(t, vars, choose|fuel: nat| #[trigger] tc_fuel(t, vars, fuel) is Some).unwrap()
}

fn expect_beta_eq<'src>(t1: Term<'src>, t2: Term<'src>, Ghost(fuel): Ghost<nat>) -> (r: Result<
    (),
    TypeCheckError<'src>,
>)
    requires
        expect_fuel(t1@, t2@, fuel) is Some,
    ensures
        expect_fuel(t1@, t2@, fuel) == Some(
            match r {
                Ok(_) => Ok::<(), TcErr>(()),
                Err(e) => Err(e@),
            },
        ),
{
    if is_beta_eq_fuel(t1.copy(), t2.copy(), Ghost(fuel)) {
        Ok(())
    } else {
        Err(TypeCheckError::ExpectEqual(t1, t2))
    }
}

fn type_check_fuel<'src>(
    term: &Term<'src>,
    vars: &mut Vars<'src>,
    Ghost(fuel): Ghost<nat>,
) -> (r: Result<Term<'src>, TypeCheckError<'src>>)
    requires
        old(vars).wf(),
        tc_fuel(term@, old(vars)@, fuel) is Some,
    ensures
        final(vars).wf(),
        tc_fuel(term@, old(vars)@, fuel) == Some((result_view(r), final(vars)@)),
    decreases fuel,
{
    let ghost f = (fuel - 1) as nat;
    match term {
        Term::Type => Ok(Term::Type),
        Term::Var { n } => match vars.get(n) {
            Some(t) => Ok(t),
            None => Err(TypeCheckError::NameNotFound(*n)),
        },
        Term::Let { n, t, v, b } => {
            let tt = type_check_fuel(t, vars, Ghost(f))?;
            expect_beta_eq(tt, Term::Type, Ghost(f))?;
            let vt = type_check_fuel(v, vars, Ghost(f))?;
            expect_beta_eq(vt, t.copy(), Ghost(f))?;
            type_check_fuel(&b.copy().subst_self(n, v), vars, Ghost(f))
        },
        Term::FunType { n, at, bt } => {
            let att = type_check_fuel(at, vars, Ghost(f))?;
            expect_beta_eq(att, Term::Type, Ghost(f))?;
            let ghost vs = vars@;
            let n_oldv = vars.insert(n, at.copy());
            let btt = type_check_fuel(bt, vars, Ghost(f))?;
            expect_beta_eq(btt, Term::Type, Ghost(f))?;
            if let Some(n_oldv) = n_oldv {
                vars.insert(n, n_oldv);
            } else {
                vars.remove(n);
            }
            Ok(Term::Type)
        },
        Term::FunConstruct { n, at, b } => {
            let att = type_check_fuel(at, vars, Ghost(f))?;
            expect_beta_eq(att, Term::Type, Ghost(f))?;
            let n_oldv = vars.insert(n, at.copy());
            let bt = type_check_fuel(b, vars, Ghost(f))?;
            if let Some(n_oldv) = n_oldv {
                vars.insert(n, n_oldv);
            } else {
                vars.remove(n);
            }
            Ok(Term::FunType { n: *n, at: Box::new(at.copy()), bt: Box::new(bt) })
        },
        Term::FunDestruct { f: fu, a } => {
            let ft = beta_reduce_head_fuel(type_check_fuel(fu, vars, Ghost(f))?, Ghost(f));
            let at_given = type_check_fuel(a, vars, Ghost(f))?;
            match ft {
                Term::FunType { n, at: at_declared, bt } => {
                    expect_beta_eq(at_given, *at_declared, Ghost(f))?;
                    Ok(bt.subst_self(n, a))
                },
                _ => Err(TypeCheckError::ExpectFunction(fu.copy())),
            }
        },
    }
}

/// Type checks `term` with the variables in `vars`: returns its type, or the first error.
/// The binders of function types and functions are in scope for their bodies only; a
/// `let` is checked by substituting its value into its body.
pub fn type_check<'src>(term: &Term<'src>, vars: &mut Vars<'src>) -> (r: Result<
    Term<'src>,
    TypeCheckError<'src>,
>)
    requires
        old(vars).wf(),
        tc_halts(term@, old(vars)@),
    ensures
        final(vars).wf(),
        (result_view(r), final(vars)@) == spec_type_check(term@, old(vars)@),
        r is Ok ==> final(vars)@ == old(vars)@,
{
    let ghost fuel = choose|fuel: nat| #[trigger] tc_fuel(term@, old(vars)@, fuel) is Some;
    let r = type_check_fuel(term, vars, Ghost(fuel));
    proof {
        lemma_tc_fuel_restores_vars(term@, old(vars)@, fuel);
    }
    r
}

} // verus!

verus! {

/// Putting back the earlier binding of `n` after binding it undoes the binding.
proof fn lemma_restore_insert(vars: Map<Seq<char>, STerm>, n: Seq<char>, t: STerm)
    ensures
        restore(vars.insert(n, t), n, vars) == vars,
{
    if vars.contains_key(n) {
        assert(vars.insert(n, t).insert(n, vars[n]) =~= vars);
    } else {
        assert(vars.insert(n, t).remove(n) =~= vars);
    }
}

/// Type checking with any fuel that succeeds leaves the variables as it found them.
pub proof fn lemma_tc_fuel_restores_vars(t: STerm, vars: Map<Seq<char>, STerm>, fuel: nat)
    ensures
        tc_fuel(t, vars, fuel) matches Some((Ok(_), vs)) ==> vs == vars,
    decreases fuel,
{
    if fuel > 0 {
        let f = (fuel - 1) as nat;
        match t {
            STerm::Let(n, ty, v, b) => {
                lemma_tc_fuel_restores_vars(*ty, vars, f);
                if let Some((Ok(_), vs)) = tc_fuel(*ty, vars, f) {
                    lemma_tc_fuel_restores_vars(*v, vs, f);
                    if let Some((Ok(_), vs2)) = tc_fuel(*v, vs, f) {
                        lemma_tc_fuel_restores_vars(spec_subst(*b, n, *v), vs2, f);
                    }
                }
            },
            STerm::FunType(n, at, bt) => {
                lemma_tc_fuel_restores_vars(*at, vars, f);
                if let Some((Ok(_), vs)) = tc_fuel(*at, vars, f) {
                    lemma_tc_fuel_restores_vars(*bt, vs.insert(n, *at), f);
                    lemma_restore_insert(vs, n, *at);
                }
            },
            STerm::FunConstruct(n, at, b) => {
                lemma_tc_fuel_restores_vars(*at, vars, f);
                if let Some((Ok(_), vs)) = tc_fuel(*at, vars, f) {
                    lemma_tc_fuel_restores_vars(*b, vs.insert(n, *at), f);
                    lemma_restore_insert(vs, n, *at);
                }
            },
            STerm::FunDestruct(fu, a) => {
                lemma_tc_fuel_restores_vars(*fu, vars, f);
                if let Some((Ok(_), vs)) = tc_fuel(*fu, vars, f) {
                    lemma_tc_fuel_restores_vars(*a, vs, f);
                }
            },
            _ => {},
        }
    }
}

/// A successful type check leaves the variables in scope as it found them: the binders
/// it enters go out of scope again.
pub proof fn lemma_type_check_restores_vars(t: STerm, vars: Map<Seq<char>, STerm>)
    requires
        tc_halts(t, vars),
        spec_type_check(t, vars).0 is Ok,
    ensures
        spec_type_check(t, vars).1 == vars,
{
    let fuel = choose|fuel: nat| #[trigger] tc_fuel(t, vars, fuel) is Some;
    lemma_tc_fuel_restores_vars(t, vars, fuel);
}

/// More fuel does not change a comparison that already ended.
proof fn lemma_expect_fuel_mono(t1: STerm, t2: STerm, f: nat, g: nat)
    requires
        expect_fuel(t1, t2, f) is Some,
        f <= g,
    ensures
        expect_fuel(t1, t2, g) == expect_fuel(t1, t2, f),
{
    lemma_beq_fuel_mono(t1, t2, f, g);
}

/// More fuel does not change a type check that already ended.
pub proof fn lemma_tc_fuel_mono(t: STerm, vars: Map<Seq<char>, STerm>, f: nat, g: nat)
    requires
        tc_fuel(t, vars, f) is Some,
        f <= g,
    ensures
        tc_fuel(t, vars, g) == tc_fuel(t, vars, f),
    decreases f,
{
    let f1 = (f - 1) as nat;
    let g1 = (g - 1) as nat;
    match t {
        STerm::Let(n, ty, v, b) => {
            lemma_tc_fuel_mono(*ty, vars, f1, g1);
            if let Some((Ok(tt), vs)) = tc_fuel(*ty, vars, f1) {
                lemma_expect_fuel_mono(tt, STerm::Type, f1, g1);
                if let Some(Ok(_)) = expect_fuel(tt, STerm::Type, f1) {
                    lemma_tc_fuel_mono(*v, vs, f1, g1);
                    if let Some((Ok(vt), vs2)) = tc_fuel(*v, vs, f1) {
                        lemma_expect_fuel_mono(vt, *ty, f1, g1);
                        if let Some(Ok(_)) = expect_fuel(vt, *ty, f1) {
                            lemma_tc_fuel_mono(spec_subst(*b, n, *v), vs2, f1, g1);
                        }
                    }
                }
            }
        },
        STerm::FunType(n, at, bt) => {
            lemma_tc_fuel_mono(*at, vars, f1, g1);
            if let Some((Ok(att), vs)) = tc_fuel(*at, vars, f1) {
                lemma_expect_fuel_mono(att, STerm::Type, f1, g1);
                if let Some(Ok(_)) = expect_fuel(att, STerm::Type, f1) {
                    lemma_tc_fuel_mono(*bt, vs.insert(n, *at), f1, g1);
                    if let Some((Ok(btt), vs2)) = tc_fuel(*bt, vs.insert(n, *at), f1) {
                        lemma_expect_fuel_mono(btt, STerm::Type, f1, g1);
                    }
                }
            }
        },
        STerm::FunConstruct(n, at, b) => {
            lemma_tc_fuel_mono(*at, vars, f1, g1);
            if let Some((Ok(att), vs)) = tc_fuel(*at, vars, f1) {
                lemma_expect_fuel_mono(att, STerm::Type, f1, g1);
                if let Some(Ok(_)) = expect_fuel(att, STerm::Type, f1) {
                    lemma_tc_fuel_mono(*b, vs.insert(n, *at), f1, g1);
                }
            }
        },
        STerm::FunDestruct(fu, a) => {
            lemma_tc_fuel_mono(*fu, vars, f1, g1);
            if let Some((Ok(ft0), vs)) = tc_fuel(*fu, vars, f1) {
                lemma_brh_fuel_mono(ft0, f1, g1);
                if let Some(ft) = brh_fuel(ft0, f1) {
                    lemma_tc_fuel_mono(*a, vs, f1, g1);
                    if let Some((Ok(at_given), vs2)) = tc_fuel(*a, vs, f1) {
                        if let STerm::FunType(n, at_declared, bt) = ft {
                            lemma_expect_fuel_mono(at_given, *at_declared, f1, g1);
                        }
                    }
                }
            }
        },
        _ => {},
    }
}

/// Where a type check ends, it gives what any other fuel with which it ends gives.
proof fn lemma_tc_fuel_same(t: STerm, vars: Map<Seq<char>, STerm>, f: nat, g: nat)
    requires
        tc_fuel(t, vars, f) is Some,
        tc_fuel(t, vars, g) is Some,
    ensures
        tc_fuel(t, vars, g) == tc_fuel(t, vars, f),
{
    if f <= g {
        lemma_tc_fuel_mono(t, vars, f, g);
    } else {
        lemma_tc_fuel_mono(t, vars, g, f);
    }
}

/// An application is typed only as a function applied to an argument of its argument
/// type: where `f a` type checks, `f` has a type whose head normal form is a function
/// type `(x: A) -> B`, the type of `a` is beta equal to `A`, and `f a` has the type `B`
/// with `a` for `x`.
pub proof fn lemma_application_typing(fu: STerm, a: STerm, vars: Map<Seq<char>, STerm>)
    requires
        tc_halts(STerm::FunDestruct(Box::new(fu), Box::new(a)), vars),
        spec_type_check(STerm::FunDestruct(Box::new(fu), Box::new(a)), vars).0 is Ok,
    ensures
        tc_halts(fu, vars),
        tc_halts(a, vars),
        ({
            &&& spec_type_check(fu, vars).0 matches Ok(ft)
            &&& brh_halts(ft)
            &&& reduce_head(ft) matches STerm::FunType(n, at_declared, bt)
            &&& spec_type_check(a, vars).0 matches Ok(at_given)
            &&& beq_halts(at_given, *at_declared)
            &&& spec_is_beta_eq(at_given, *at_declared)
            &&& spec_type_check(STerm::FunDestruct(Box::new(fu), Box::new(a)), vars).0 == Ok::<
                STerm,
                TcErr,
            >(spec_subst(*bt, n, a))
        }),
{
    let t = STerm::FunDestruct(Box::new(fu), Box::new(a));
    let fuel = choose|fuel: nat| #[trigger] tc_fuel(t, vars, fuel) is Some;
    let f = (fuel - 1) as nat;
    lemma_tc_fuel_restores_vars(fu, vars, f);
    let ft0 = (tc_fuel(fu, vars, f)->0).0->Ok_0;
    let ft = brh_fuel(ft0, f)->0;
    let at_given = (tc_fuel(a, vars, f)->0).0->Ok_0;
    assert(tc_fuel(fu, vars, f) is Some);
    let g1 = choose|g: nat| #[trigger] tc_fuel(fu, vars, g) is Some;
    lemma_tc_fuel_same(fu, vars, f, g1);
    assert(tc_fuel(a, vars, f) is Some);
    let g2 = choose|g: nat| #[trigger] tc_fuel(a, vars, g) is Some;
    lemma_tc_fuel_same(a, vars, f, g2);
    assert(brh_fuel(ft0, f) is Some);
    let g3 = choose|g: nat| #[trigger] brh_fuel(ft0, g) is Some;
    if f <= g3 {
        lemma_brh_fuel_mono(ft0, f, g3);
    } else {
        lemma_brh_fuel_mono(ft0, g3, f);
    }
    if let STerm::FunType(n, at_declared, bt) = ft {
        assert(beq_fuel(at_given, *at_declared, f) == Some(true));
        let g4 = choose|g: nat| #[trigger] beq_fuel(at_given, *at_declared, g) is Some;
        lemma_beq_fuel_same(at_given, *at_declared, f, g4);
    }
}

/// Where type checking ends with some fuel, it ends with the fuel that
/// `spec_type_check` picks, and gives the same.
proof fn lemma_tc_at(t: STerm, vars: Map<Seq<char>, STerm>, f: nat)
    requires
        tc_fuel(t, vars, f) is Some,
    ensures
        tc_halts(t, vars),
        spec_type_check(t, vars) == tc_fuel(t, vars, f)->0,
{
    let g = choose|g: nat| #[trigger] tc_fuel(t, vars, g) is Some;
    lemma_tc_fuel_same(t, vars, f, g);
}

/// Where a comparison ends with some fuel, `spec_is_beta_eq` gives what it gave.
proof fn lemma_expect_at(t1: STerm, t2: STerm, f: nat)
    requires
        expect_fuel(t1, t2, f) == Some(Ok::<(), TcErr>(())),
    ensures
        beq_halts(t1, t2),
        spec_is_beta_eq(t1, t2),
{
    let g = choose|g: nat| #[trigger] beq_fuel(t1, t2, g) is Some;
    lemma_beq_fuel_same(t1, t2, f, g);
}

/// What a successful type check says of each kind of term: a variable has the type it is
/// bound to; a `let` has a type argument that is a type and a value of that type, and
/// has the type of its body with the value substituted; a function type has an argument
/// type and a body (with the argument bound) whose types are `Type`, and is itself of
/// type `Type`; a function `(x: A) => b` has an argument type `A` whose type is `Type` and
/// has the type `(x: A) -> B`, with `B` the type of `b` where `x` has type `A`.
pub proof fn lemma_typing_inversion(t: STerm, vars: Map<Seq<char>, STerm>)
    requires
        tc_halts(t, vars),
        spec_type_check(t, vars).0 is Ok,
    ensures
        t matches STerm::Var(n) ==> vars.contains_key(n) && spec_type_check(t, vars).0 == Ok::<
            STerm,
            TcErr,
        >(vars[n]),
        t == STerm::Type ==> spec_type_check(t, vars).0 == Ok::<STerm, TcErr>(STerm::Type),
        t matches STerm::Let(n, ty, v, b) ==> {
            &&& tc_halts(*ty, vars)
            &&& spec_type_check(*ty, vars).0 matches Ok(tt)
            &&& beq_halts(tt, STerm::Type) && spec_is_beta_eq(tt, STerm::Type)
            &&& tc_halts(*v, vars)
            &&& spec_type_check(*v, vars).0 matches Ok(vt)
            &&& beq_halts(vt, *ty) && spec_is_beta_eq(vt, *ty)
            &&& tc_halts(spec_subst(*b, n, *v), vars)
            &&& spec_type_check(t, vars).0 == spec_type_check(spec_subst(*b, n, *v), vars).0
        },
        t matches STerm::FunType(n, at, bt) ==> {
            &&& tc_halts(*at, vars)
            &&& spec_type_check(*at, vars).0 matches Ok(att)
            &&& beq_halts(att, STerm::Type) && spec_is_beta_eq(att, STerm::Type)
            &&& tc_halts(*bt, vars.insert(n, *at))
            &&& spec_type_check(*bt, vars.insert(n, *at)).0 matches Ok(btt)
            &&& beq_halts(btt, STerm::Type) && spec_is_beta_eq(btt, STerm::Type)
            &&& spec_type_check(t, vars).0 == Ok::<STerm, TcErr>(STerm::Type)
        },
        t matches STerm::FunConstruct(n, at, b) ==> {
            &&& tc_halts(*at, vars)
            &&& spec_type_check(*at, vars).0 matches Ok(att)
            &&& beq_halts(att, STerm::Type) && spec_is_beta_eq(att, STerm::Type)
            &&& tc_halts(*b, vars.insert(n, *at))
            &&& spec_type_check(*b, vars.insert(n, *at)).0 matches Ok(bty)
            &&& spec_type_check(t, vars).0 == Ok::<STerm, TcErr>(
                STerm::FunType(n, at, Box::new(bty)),
            )
        },
{
    let fuel = choose|fuel: nat| #[trigger] tc_fuel(t, vars, fuel) is Some;
    let f = (fuel - 1) as nat;
    match t {
        STerm::Let(n, ty, v, b) => {
            lemma_tc_fuel_restores_vars(*ty, vars, f);
            lemma_tc_at(*ty, vars, f);
            let tt = (tc_fuel(*ty, vars, f)->0).0->Ok_0;
            lemma_expect_at(tt, STerm::Type, f);
            lemma_tc_fuel_restores_vars(*v, vars, f);
            lemma_tc_at(*v, vars, f);
            let vt = (tc_fuel(*v, vars, f)->0).0->Ok_0;
            lemma_expect_at(vt, *ty, f);
            lemma_tc_at(spec_subst(*b, n, *v), vars, f);
        },
        STerm::FunType(n, at, bt) => {
            lemma_tc_fuel_restores_vars(*at, vars, f);
            lemma_tc_at(*at, vars, f);
            let att = (tc_fuel(*at, vars, f)->0).0->Ok_0;
            lemma_expect_at(att, STerm::Type, f);
            lemma_tc_at(*bt, vars.insert(n, *at), f);
            let btt = (tc_fuel(*bt, vars.insert(n, *at), f)->0).0->Ok_0;
            lemma_expect_at(btt, STerm::Type, f);
        },
        STerm::FunConstruct(n, at, b) => {
            lemma_tc_fuel_restores_vars(*at, vars, f);
            lemma_tc_at(*at, vars, f);
            let att = (tc_fuel(*at, vars, f)->0).0->Ok_0;
            lemma_expect_at(att, STerm::Type, f);
            lemma_tc_at(*b, vars.insert(n, *at), f);
        },
        _ => {},
    }
}

} // verus!
