use crate::desugar::{ParseEnv, ParseIndex, SourceExpr};
use crate::lang::display::{level_rank, opt_cat, PrecedenceLevel};
use crate::text::{decimal, write_usize};
use vstd::prelude::*;

verus! {

/// The precedence level of a source expression.
pub open spec fn source_level(e: SourceExpr) -> PrecedenceLevel {
    match e {
        SourceExpr::Let(..) => PrecedenceLevel::Let,
        SourceExpr::FnType(..) => PrecedenceLevel::FnType,
        SourceExpr::FnConstruct(..) => PrecedenceLevel::Construct,
        SourceExpr::FnDestruct(..) => PrecedenceLevel::Destruct,
        _ => PrecedenceLevel::Base,
    }
}

impl SourceExpr {
    /// The precedence level of the expression.
    pub fn precendence_level(&self) -> (r: PrecedenceLevel)
        ensures
            r == source_level(*self),
    {
        match self {
            SourceExpr::Type => PrecedenceLevel::Base,
            SourceExpr::Let(_, _, _) => PrecedenceLevel::Let,
            SourceExpr::Variable(_) => PrecedenceLevel::Base,
            SourceExpr::FnType(_, _, _) => PrecedenceLevel::FnType,
            SourceExpr::FnConstruct(_, _, _) => PrecedenceLevel::Construct,
            SourceExpr::FnDestruct(_, _) => PrecedenceLevel::Destruct,
            SourceExpr::ScopeDefine(_, _) => PrecedenceLevel::Base,
            SourceExpr::ScopeEnter(_, _) => PrecedenceLevel::Base,
            SourceExpr::ScopeExit(_) => PrecedenceLevel::Base,
        }
    }
}

/// The text of the source expression at `i` without parentheses around it, with at most
/// `fuel` nested steps.
pub open spec fn source_inner(values: Seq<SourceExpr>, i: ParseIndex, fuel: nat) -> Option<
    Seq<char>,
>
    decreases fuel, 0nat,
{
    if fuel == 0 || i.pos() >= values.len() {
        None
    } else {
        let f = (fuel - 1) as nat;
        match values[i.pos() as int] {
            SourceExpr::Type => Some("Type"@),
            SourceExpr::Let(n, v, b) => opt_cat(
                opt_cat(
                    Some("let "@ + n@ + " = "@),
                    source_fuel(values, v, PrecedenceLevel::Construct, f),
                ),
                opt_cat(Some(";\n"@), source_fuel(values, b, PrecedenceLevel::Let, f)),
            ),
            SourceExpr::Variable(n) => Some("#"@ + n@),
            SourceExpr::FnType(n, a, b) => opt_cat(
                opt_cat(Some("("@ + n@ + ": "@), source_fuel(values, a, PrecedenceLevel::Destruct, f)),
                opt_cat(Some(") -> "@), source_fuel(values, b, PrecedenceLevel::FnType, f)),
            ),
            SourceExpr::FnConstruct(n, a, b) => opt_cat(
                opt_cat(Some("("@ + n@ + ": "@), source_fuel(values, a, PrecedenceLevel::FnType, f)),
                opt_cat(Some(") => "@), source_fuel(values, b, PrecedenceLevel::Construct, f)),
            ),
            SourceExpr::FnDestruct(a, b) => opt_cat(
                source_fuel(values, a, PrecedenceLevel::Destruct, f),
                opt_cat(Some(" "@), source_fuel(values, b, PrecedenceLevel::Base, f)),
            ),
            SourceExpr::ScopeDefine(v, g) => opt_cat(
                Some("([DEFINE "@ + decimal(g.0 as nat) + "] "@),
                opt_cat(source_fuel(values, v, PrecedenceLevel::Let, f), Some(")"@)),
            ),
            SourceExpr::ScopeEnter(v, g) => opt_cat(
                Some("([ENTER "@ + decimal(g.0 as nat) + "] "@),
                opt_cat(source_fuel(values, v, PrecedenceLevel::Let, f), Some(")"@)),
            ),
            SourceExpr::ScopeExit(v) => opt_cat(
                Some("([EXIT] "@),
                opt_cat(source_fuel(values, v, PrecedenceLevel::Let, f), Some(")"@)),
            ),
        }
    }
}

/// The text of the source expression at `i` where the level `max` is expected, with at
/// most `fuel` nested steps.
pub open spec fn source_fuel(
    values: Seq<SourceExpr>,
    i: ParseIndex,
    max: PrecedenceLevel,
    fuel: nat,
) -> Option<Seq<char>>
    decreases fuel, 1nat,
{
    if fuel == 0 || i.pos() >= values.len() {
        None
    } else if level_rank(source_level(values[i.pos() as int])) < level_rank(max) {
        opt_cat(opt_cat(Some("("@), source_inner(values, i, fuel)), Some(")"@))
    } else {
        source_inner(values, i, fuel)
    }
}

/// Displaying the source expression at `i` ends.
pub open spec fn source_halts(values: Seq<SourceExpr>, i: ParseIndex) -> bool {
    exists|fuel: nat| #[trigger] source_fuel(values, i, PrecedenceLevel::Let, fuel) is Some
}

/// The text of the source expression at `i` (meaningful when `source_halts`).
pub open spec fn source_text(values: Seq<SourceExpr>, i: ParseIndex) -> Seq<char> {
    source_fuel(
        values,
        i,
        PrecedenceLevel::Let,
        choose|fuel: nat| #[trigger] source_fuel(values, i, PrecedenceLevel::Let, fuel) is Some,
    ).unwrap()
}

impl ParseEnv {
    #[verifier::rlimit(60)]
    #[verifier::spinoff_prover]
    fn display_inner(&self, i: ParseIndex, w: &mut String, Ghost(fuel): Ghost<nat>)
        requires
            source_inner(self.spec_values(), i, fuel) is Some,
        ensures
            final(w)@ == old(w)@ + source_inner(self.spec_values(), i, fuel).unwrap(),
        decreases fuel, 0nat,
    {
        let ghost f = (fuel - 1) as nat;
        match &self.values[i.index()] {
            SourceExpr::Type => w.append("Type"),
            SourceExpr::Let(n, v, b) => {
                w.append("let ");
                w.append(n.as_str());
                w.append(" = ");
                self.display(*v, w, PrecedenceLevel::Construct, Ghost(f));
                w.append(";\n");
                self.display(*b, w, PrecedenceLevel::Let, Ghost(f));
            },
            SourceExpr::Variable(n) => {
                w.append("#");
                w.append(n.as_str());
            },
            SourceExpr::FnType(n, a, b) => {
                w.append("(");
                w.append(n.as_str());
                w.append(": ");
                self.display(*a, w, PrecedenceLevel::Destruct, Ghost(f));
                w.append(") -> ");
                self.display(*b, w, PrecedenceLevel::FnType, Ghost(f));
            },
            SourceExpr::FnConstruct(n, a, b) => {
                w.append("(");
                w.append(n.as_str());
                w.append(": ");
                self.display(*a, w, PrecedenceLevel::FnType, Ghost(f));
                w.append(") => ");
                self.display(*b, w, PrecedenceLevel::Construct, Ghost(f));
            },
            SourceExpr::FnDestruct(a, b) => {
                self.display(*a, w, PrecedenceLevel::Destruct, Ghost(f));
                w.append(" ");
                self.display(*b, w, PrecedenceLevel::Base, Ghost(f));
            },
            SourceExpr::ScopeDefine(v, g) => {
                w.append("([DEFINE ");
                write_usize(w, g.0);
                w.append("] ");
                self.display(*v, w, PrecedenceLevel::Let, Ghost(f));
                w.append(")");
            },
            SourceExpr::ScopeEnter(v, g) => {
                w.append("([ENTER ");
                write_usize(w, g.0);
                w.append("] ");
                self.display(*v, w, PrecedenceLevel::Let, Ghost(f));
                w.append(")");
            },
            SourceExpr::ScopeExit(v) => {
                w.append("([EXIT] ");
                self.display(*v, w, PrecedenceLevel::Let, Ghost(f));
                w.append(")");
            },
        }
    }

    fn display(
        &self,
        i: ParseIndex,
        w: &mut String,
        max_precedence: PrecedenceLevel,
        Ghost(fuel): Ghost<nat>,
    )
        requires
            source_fuel(self.spec_values(), i, max_precedence, fuel) is Some,
        ensures
            final(w)@ == old(w)@ + source_fuel(self.spec_values(), i, max_precedence, fuel).unwrap(),
        decreases fuel, 1nat,
    {
        let paren = self.values[i.index()].precendence_level().rank() < max_precedence.rank();
        if paren {
            w.append("(");
        }
        self.display_inner(i, w, Ghost(fuel));
        if paren {
            w.append(")");
        }
    }

    /// The text of the source expression at `i`.
    pub fn index_to_string(&self, i: ParseIndex) -> (r: String)
        requires
            source_halts(self.spec_values(), i),
        ensures
            r@ == source_text(self.spec_values(), i),
    {
        let ghost fuel = choose|fuel: nat| #[trigger]
            source_fuel(self.spec_values(), i, PrecedenceLevel::Let, fuel) is Some;
        let mut s = String::new();
        self.display(i, &mut s, PrecedenceLevel::Let, Ghost(fuel));
        s
    }
}

} // verus!
