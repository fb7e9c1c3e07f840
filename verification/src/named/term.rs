use crate::text::str_eq;
use vstd::prelude::*;

verus! {

/// A term of the named calculus of constructions.
#[derive(Debug)]
pub enum Term<'src> {
    Type,
    Var { n: &'src str },
    Let { n: &'src str, t: Box<Term<'src>>, v: Box<Term<'src>>, b: Box<Term<'src>> },
    FunType { n: &'src str, at: Box<Term<'src>>, bt: Box<Term<'src>> },
    FunConstruct { n: &'src str, at: Box<Term<'src>>, b: Box<Term<'src>> },
    FunDestruct { f: Box<Term<'src>>, a: Box<Term<'src>> },
}

/// The mathematical model of a [`Term`]: names are character sequences.
pub enum STerm {
    Type,
    Var(Seq<char>),
    Let(Seq<char>, Box<STerm>, Box<STerm>, Box<STerm>),
    FunType(Seq<char>, Box<STerm>, Box<STerm>),
    FunConstruct(Seq<char>, Box<STerm>, Box<STerm>),
    FunDestruct(Box<STerm>, Box<STerm>),
}

pub open spec fn term_view(t: Term) -> STerm
    decreases t,
{
    match t {
        Term::Type => STerm::Type,
        Term::Var { n } => STerm::Var(n@),
        Term::Let { n, t, v, b } => STerm::Let(
            n@,
            Box::new(term_view(*t)),
            Box::new(term_view(*v)),
            Box::new(term_view(*b)),
        ),
        Term::FunType { n, at, bt } => STerm::FunType(
            n@,
            Box::new(term_view(*at)),
            Box::new(term_view(*bt)),
        ),
        Term::FunConstruct { n, at, b } => STerm::FunConstruct(
            n@,
            Box::new(term_view(*at)),
            Box::new(term_view(*b)),
        ),
        Term::FunDestruct { f, a } => STerm::FunDestruct(
            Box::new(term_view(*f)),
            Box::new(term_view(*a)),
        ),
    }
}

impl<'src> View for Term<'src> {
    type V = STerm;

    open spec fn view(&self) -> STerm {
        term_view(*self)
    }
}

/// Substitutes `vr` for the free occurrences of the name `nr` in `t`. A binder of
/// `nr` stops the substitution in its scope (but not in its type or value).
pub open spec fn spec_subst(t: STerm, nr: Seq<char>, vr: STerm) -> STerm
    decreases t,
{
    match t {
        STerm::Type => STerm::Type,
        STerm::Var(n) => if n == nr {
            vr
        } else {
            STerm::Var(n)
        },
        STerm::Let(n, ty, v, b) => STerm::Let(
            n,
            Box::new(spec_subst(*ty, nr, vr)),
            Box::new(spec_subst(*v, nr, vr)),
            if n == nr {
                b
            } else {
                Box::new(spec_subst(*b, nr, vr))
            },
        ),
        STerm::FunType(n, at, bt) => STerm::FunType(
            n,
            Box::new(spec_subst(*at, nr, vr)),
            if n == nr {
                bt
            } else {
                Box::new(spec_subst(*bt, nr, vr))
            },
        ),
        STerm::FunConstruct(n, at, b) => STerm::FunConstruct(
            n,
            Box::new(spec_subst(*at, nr, vr)),
            if n == nr {
                b
            } else {
                Box::new(spec_subst(*b, nr, vr))
            },
        ),
        STerm::FunDestruct(f, a) => STerm::FunDestruct(
            Box::new(spec_subst(*f, nr, vr)),
            Box::new(spec_subst(*a, nr, vr)),
        ),
    }
}

/// The debug text of a term: binders with their types and bodies in parentheses, and applications in parentheses.
pub open spec fn debug_str(t: STerm) -> Seq<char>
    decreases t,
{
    match t {
        STerm::Type => "Type"@,
        STerm::Var(n) => n,
        STerm::Let(n, ty, v, b) => "let "@ + n + " : "@ + debug_str(*ty) + " = "@ + debug_str(*v)
            + "\n"@ + debug_str(*b),
        STerm::FunType(n, at, bt) => "("@ + n + ":"@ + debug_str(*at) + ")->("@ + debug_str(*bt)
            + ")"@,
        STerm::FunConstruct(n, at, b) => "/"@ + n + ":("@ + debug_str(*at) + ").("@ + debug_str(
            *b,
        ) + ")"@,
        STerm::FunDestruct(f, a) => "("@ + debug_str(*f) + " "@ + debug_str(*a) + ")"@,
    }
}

impl<'src> Term<'src> {
    /// Appends the debug text of this term to `out`.
    pub fn write_debug(&self, out: &mut String)
        ensures
            final(out)@ == old(out)@ + debug_str(self@),
        decreases self,
    {
        match self {
            Term::Type => out.append("Type"),
            Term::Var { n } => out.append(n),
            Term::Let { n, t, v, b } => {
                out.append("let ");
                out.append(n);
                out.append(" : ");
                t.write_debug(out);
                out.append(" = ");
                v.write_debug(out);
                out.append("\n");
                b.write_debug(out);
            },
            Term::FunType { n, at, bt } => {
                out.append("(");
                out.append(n);
                out.append(":");
                at.write_debug(out);
                out.append(")->(");
                bt.write_debug(out);
                out.append(")");
            },
            Term::FunConstruct { n, at, b } => {
                out.append("/");
                out.append(n);
                out.append(":(");
                at.write_debug(out);
                out.append(").(");
                b.write_debug(out);
                out.append(")");
            },
            Term::FunDestruct { f, a } => {
                out.append("(");
                f.write_debug(out);
                out.append(" ");
                a.write_debug(out);
                out.append(")");
            },
        }
    }

    /// The debug text of this term.
    pub fn to_debug_string(&self) -> (r: String)
        ensures
            r@ == debug_str(self@),
    {
        let mut s = String::new();
        self.write_debug(&mut s);
        s
    }

    /// A deep copy of the term.
    pub fn copy(&self) -> (r: Term<'src>)
        ensures
            r@ == self@,
        decreases self,
    {
        match self {
            Term::Type => Term::Type,
            Term::Var { n } => Term::Var { n: *n },
            Term::Let { n, t, v, b } => Term::Let {
                n: *n,
                t: Box::new(t.copy()),
                v: Box::new(v.copy()),
                b: Box::new(b.copy()),
            },
            Term::FunType { n, at, bt } => Term::FunType {
                n: *n,
                at: Box::new(at.copy()),
                bt: Box::new(bt.copy()),
            },
            Term::FunConstruct { n, at, b } => Term::FunConstruct {
                n: *n,
                at: Box::new(at.copy()),
                b: Box::new(b.copy()),
            },
            Term::FunDestruct { f, a } => Term::FunDestruct {
                f: Box::new(f.copy()),
                a: Box::new(a.copy()),
            },
        }
    }

    /// Substitutes `vr` for the free occurrences of `nr` in place.
    pub fn subst(&mut self, nr: &'src str, vr: &Term<'src>)
        ensures
            final(self)@ == spec_subst(old(self)@, nr@, vr@),
        decreases *old(self),
    {
        let hit = match self {
            Term::Var { n } => str_eq(n, nr),
            _ => false,
        };
        if hit {
            *self = vr.copy();
            return ;
        }
        match self {
            Term::Type => {},
            Term::Var { .. } => {},
            Term::Let { n, t, v, b } => {
                (&mut **t).subst(nr, vr);
                (&mut **v).subst(nr, vr);
                if str_eq(n, nr) {
                    return ;
                }
                (&mut **b).subst(nr, vr);
            },
            Term::FunType { n, at, bt } => {
                (&mut **at).subst(nr, vr);
                if str_eq(n, nr) {
                    return ;
                }
                (&mut **bt).subst(nr, vr);
            },
            Term::FunConstruct { n, at, b } => {
                (&mut **at).subst(nr, vr);
                if str_eq(n, nr) {
                    return ;
                }
                (&mut **b).subst(nr, vr);
            },
            Term::FunDestruct { f, a } => {
                (&mut **f).subst(nr, vr);
                (&mut **a).subst(nr, vr);
            },
        }
    }

    /// Substitutes `vr` for the free occurrences of `nr`, returning the result.
    pub fn subst_self(self, nr: &'src str, vr: &Term<'src>) -> (r: Term<'src>)
        ensures
            r@ == spec_subst(self@, nr@, vr@),
    {
        let mut s = self;
        s.subst(nr, vr);
        s
    }
}

} // verus!
