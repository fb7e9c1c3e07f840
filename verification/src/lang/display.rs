use crate::lang::{CoreIndex, CorePrismExpr, PrismEnv};
use crate::text::{decimal, write_usize};
use vstd::prelude::*;

verus! {

/// How tightly an expression binds; a lower level is put in parentheses where a higher
/// one is expected.
#[derive(Ord, PartialOrd, Eq, PartialEq, Structural, Copy, Clone, Default, Debug)]
pub enum PrecedenceLevel {
    #[default]
    Let,
    Construct,
    FnType,
    TypeAssert,
    Destruct,
    Base,
}

/// The position of a level in the order `Let < Construct < FnType < TypeAssert < Destruct < Base`.
pub open spec fn level_rank(p: PrecedenceLevel) -> nat {
    match p {
        PrecedenceLevel::Let => 0,
        PrecedenceLevel::Construct => 1,
        PrecedenceLevel::FnType => 2,
        PrecedenceLevel::TypeAssert => 3,
        PrecedenceLevel::Destruct => 4,
        PrecedenceLevel::Base => 5,
    }
}

impl PrecedenceLevel {
    /// The position of this level in the order of levels.
    pub fn rank(&self) -> (r: u8)
        ensures
            r == level_rank(*self),
    {
        match self {
            PrecedenceLevel::Let => 0,
            PrecedenceLevel::Construct => 1,
            PrecedenceLevel::FnType => 2,
            PrecedenceLevel::TypeAssert => 3,
            PrecedenceLevel::Destruct => 4,
            PrecedenceLevel::Base => 5,
        }
    }
}

/// The precedence level of a core expression.
pub open spec fn core_level(e: CorePrismExpr) -> PrecedenceLevel {
    match e {
        CorePrismExpr::Let(_, _) => PrecedenceLevel::Let,
        CorePrismExpr::FnConstruct(_) => PrecedenceLevel::Construct,
        CorePrismExpr::FnType(_, _) => PrecedenceLevel::FnType,
        CorePrismExpr::TypeAssert(_, _) => PrecedenceLevel::TypeAssert,
        CorePrismExpr::FnDestruct(_, _) => PrecedenceLevel::Destruct,
        _ => PrecedenceLevel::Base,
    }
}

impl CorePrismExpr {
    /// Returns the precedence level of a `CorePrismExpr`
    pub fn precedence_level(&self) -> (r: PrecedenceLevel)
        ensures
            r == core_level(*self),
    {
        match self {
            CorePrismExpr::Let(_, _) => PrecedenceLevel::Let,
            CorePrismExpr::FnConstruct(_) => PrecedenceLevel::Construct,
            CorePrismExpr::FnType(_, _) => PrecedenceLevel::FnType,
            CorePrismExpr::TypeAssert(_, _) => PrecedenceLevel::TypeAssert,
            CorePrismExpr::FnDestruct(_, _) => PrecedenceLevel::Destruct,
            CorePrismExpr::Free => PrecedenceLevel::Base,
            CorePrismExpr::Shift(_, _) => PrecedenceLevel::Base,
            CorePrismExpr::Type => PrecedenceLevel::Base,
            CorePrismExpr::DeBruijnIndex(_) => PrecedenceLevel::Base,
            CorePrismExpr::GrammarValue(_) => PrecedenceLevel::Base,
            CorePrismExpr::GrammarType => PrecedenceLevel::Base,
        }
    }
}

/// Joins two optional texts.
pub open spec fn opt_cat(a: Option<Seq<char>>, b: Option<Seq<char>>) -> Option<Seq<char>> {
    match (a, b) {
        (Some(x), Some(y)) => Some(x + y),
        _ => None,
    }
}

/// The text of the expression at `i` without the parentheses around it, with at most
/// `fuel` nested steps.
pub open spec fn display_inner(
    values: Seq<CorePrismExpr>,
    i: CoreIndex,
    fuel: nat,
) -> Option<Seq<char>>
    decreases fuel, 0nat,
{
    if fuel == 0 || i.0 >= values.len() {
        None
    } else {
        let f = (fuel - 1) as nat;
        match values[i.0 as int] {
            CorePrismExpr::Type => Some("Type"@),
            CorePrismExpr::Let(v, b) => opt_cat(
                opt_cat(
                    Some("let "@),
                    display_fuel(values, v, PrecedenceLevel::Construct, f),
                ),
                opt_cat(Some(";\n"@), display_fuel(values, b, PrecedenceLevel::Let, f)),
            ),
            CorePrismExpr::DeBruijnIndex(n) => Some("#"@ + decimal(n as nat)),
            CorePrismExpr::FnType(a, b) => opt_cat(
                display_fuel(values, a, PrecedenceLevel::TypeAssert, f),
                opt_cat(Some(" -> "@), display_fuel(values, b, PrecedenceLevel::FnType, f)),
            ),
            CorePrismExpr::FnConstruct(b) => opt_cat(
                Some("=> "@),
                display_fuel(values, b, PrecedenceLevel::Construct, f),
            ),
            CorePrismExpr::FnDestruct(a, b) => opt_cat(
                display_fuel(values, a, PrecedenceLevel::Destruct, f),
                opt_cat(Some(" "@), display_fuel(values, b, PrecedenceLevel::Base, f)),
            ),
            CorePrismExpr::Free => Some("{"@ + decimal(i.0 as nat) + "}"@),
            CorePrismExpr::Shift(v, n) => opt_cat(
                Some("([SHIFT "@ + decimal(n as nat) + "] "@),
                opt_cat(display_fuel(values, v, PrecedenceLevel::Let, f), Some(")"@)),
            ),
            CorePrismExpr::TypeAssert(e, t) => opt_cat(
                display_fuel(values, e, PrecedenceLevel::Destruct, f),
                opt_cat(Some(": "@), display_fuel(values, t, PrecedenceLevel::Destruct, f)),
            ),
            CorePrismExpr::GrammarValue(_) => Some("[GRAMMAR]"@),
            CorePrismExpr::GrammarType => Some("Grammar"@),
        }
    }
}

/// The text of the expression at `i` where the level `max` is expected, with at most
/// `fuel` nested steps: in parentheses when the expression binds less tightly.
pub open spec fn display_fuel(
    values: Seq<CorePrismExpr>,
    i: CoreIndex,
    max: PrecedenceLevel,
    fuel: nat,
) -> Option<Seq<char>>
    decreases fuel, 1nat,
{
    if fuel == 0 || i.0 >= values.len() {
        None
    } else if level_rank(core_level(values[i.0 as int])) < level_rank(max) {
        opt_cat(opt_cat(Some("("@), display_inner(values, i, fuel)), Some(")"@))
    } else {
        display_inner(values, i, fuel)
    }
}

/// Displaying the expression at `i` ends: the expressions it refers to form no cycle.
pub open spec fn display_halts(values: Seq<CorePrismExpr>, i: CoreIndex) -> bool {
    exists|fuel: nat| #[trigger] display_fuel(values, i, PrecedenceLevel::Let, fuel) is Some
}

/// The text of the expression at `i` (meaningful when `display_halts`).
pub open spec fn core_text(values: Seq<CorePrismExpr>, i: CoreIndex) -> Seq<char> {
    display_fuel(
        values,
        i,
        PrecedenceLevel::Let,
        choose|fuel: nat| #[trigger] display_fuel(values, i, PrecedenceLevel::Let, fuel) is Some,
    ).unwrap()
}

impl PrismEnv {
    fn display_inner(&self, i: CoreIndex, w: &mut String, Ghost(fuel): Ghost<nat>)
        requires
            display_inner(self.checked_values@, i, fuel) is Some,
        ensures
            final(w)@ == old(w)@ + display_inner(self.checked_values@, i, fuel).unwrap(),
        decreases fuel, 0nat,
    {
        let ghost f = (fuel - 1) as nat;
        let e = self.checked_values[i.0];
        match e {
            CorePrismExpr::Type => w.append("Type"),
            CorePrismExpr::Let(v, b) => {
                w.append("let ");
                self.display(v, w, PrecedenceLevel::Construct, Ghost(f));
                w.append(";\n");
                self.display(b, w, PrecedenceLevel::Let, Ghost(f));
            },
            CorePrismExpr::DeBruijnIndex(n) => {
                w.append("#");
                write_usize(w, n);
            },
            CorePrismExpr::FnType(a, b) => {
                self.display(a, w, PrecedenceLevel::TypeAssert, Ghost(f));
                w.append(" -> ");
                self.display(b, w, PrecedenceLevel::FnType, Ghost(f));
            },
            CorePrismExpr::FnConstruct(b) => {
                w.append("=> ");
                self.display(b, w, PrecedenceLevel::Construct, Ghost(f));
            },
            CorePrismExpr::FnDestruct(a, b) => {
                self.display(a, w, PrecedenceLevel::Destruct, Ghost(f));
                w.append(" ");
                self.display(b, w, PrecedenceLevel::Base, Ghost(f));
            },
            CorePrismExpr::Free => {
                w.append("{");
                write_usize(w, i.0);
                w.append("}");
            },
            CorePrismExpr::Shift(v, n) => {
                w.append("([SHIFT ");
                write_usize(w, n);
                w.append("] ");
                self.display(v, w, PrecedenceLevel::Let, Ghost(f));
                w.append(")");
            },
            CorePrismExpr::TypeAssert(e, typ) => {
                self.display(e, w, PrecedenceLevel::Destruct, Ghost(f));
                w.append(": ");
                self.display(typ, w, PrecedenceLevel::Destruct, Ghost(f));
            },
            CorePrismExpr::GrammarValue(_) => w.append("[GRAMMAR]"),
            CorePrismExpr::GrammarType => w.append("Grammar"),
        }
    }

    fn display(
        &self,
        i: CoreIndex,
        w: &mut String,
        max_precedence: PrecedenceLevel,
        Ghost(fuel): Ghost<nat>,
    )
        requires
            display_fuel(self.checked_values@, i, max_precedence, fuel) is Some,
        ensures
            final(w)@ == old(w)@ + display_fuel(
                self.checked_values@,
                i,
                max_precedence,
                fuel,
            ).unwrap(),
        decreases fuel, 1nat,
    {
        let e = self.checked_values[i.0];
        let paren = e.precedence_level().rank() < max_precedence.rank();
        if paren {
            w.append("(");
        }
        self.display_inner(i, w, Ghost(fuel));
        if paren {
            w.append(")");
        }
    }

    /// The text of the core expression at `i`.
    pub fn index_to_string(&self, i: CoreIndex) -> (r: String)
        requires
            display_halts(self.checked_values@, i),
        ensures
            r@ == core_text(self.checked_values@, i),
    {
        let ghost fuel = choose|fuel: nat| #[trigger]
            display_fuel(self.checked_values@, i, PrecedenceLevel::Let, fuel) is Some;
        let mut s = String::new();
        self.display(i, &mut s, PrecedenceLevel::Let, Ghost(fuel));
        s
    }
}

} // verus!

verus! {

/// More fuel does not change a text that was already complete.
pub proof fn lemma_display_mono(
    values: Seq<CorePrismExpr>,
    i: CoreIndex,
    p: PrecedenceLevel,
    f: nat,
    g: nat,
)
    requires
        display_fuel(values, i, p, f) is Some,
        f <= g,
    ensures
        display_fuel(values, i, p, g) == display_fuel(values, i, p, f),
    decreases f, 1nat,
{
    lemma_display_inner_mono(values, i, f, g);
}

pub proof fn lemma_display_inner_mono(values: Seq<CorePrismExpr>, i: CoreIndex, f: nat, g: nat)
    requires
        display_inner(values, i, f) is Some,
        f <= g,
    ensures
        display_inner(values, i, g) == display_inner(values, i, f),
    decreases f, 0nat,
{
    let f1 = (f - 1) as nat;
    let g1 = (g - 1) as nat;
    match values[i.0 as int] {
        CorePrismExpr::Let(a, b) => {
            lemma_display_mono(values, a, PrecedenceLevel::Construct, f1, g1);
            lemma_display_mono(values, b, PrecedenceLevel::Let, f1, g1);
        },
        CorePrismExpr::FnType(a, b) => {
            lemma_display_mono(values, a, PrecedenceLevel::TypeAssert, f1, g1);
            lemma_display_mono(values, b, PrecedenceLevel::FnType, f1, g1);
        },
        CorePrismExpr::FnConstruct(b) => {
            lemma_display_mono(values, b, PrecedenceLevel::Construct, f1, g1);
        },
        CorePrismExpr::FnDestruct(a, b) => {
            lemma_display_mono(values, a, PrecedenceLevel::Destruct, f1, g1);
            lemma_display_mono(values, b, PrecedenceLevel::Base, f1, g1);
        },
        CorePrismExpr::Shift(v, _) => {
            lemma_display_mono(values, v, PrecedenceLevel::Let, f1, g1);
        },
        CorePrismExpr::TypeAssert(a, b) => {
            lemma_display_mono(values, a, PrecedenceLevel::Destruct, f1, g1);
            lemma_display_mono(values, b, PrecedenceLevel::Destruct, f1, g1);
        },
        _ => {},
    }
}

/// A tree read back without a child out of place can be displayed.
pub proof fn lemma_display_good(values: Seq<CorePrismExpr>, i: int, p: PrecedenceLevel)
    requires
        crate::lang::tree::good(crate::lang::tree::read_back(values, i)),
        values.len() <= usize::MAX,
    ensures
        0 <= i < values.len(),
        display_fuel(values, CoreIndex(i as usize), p, (i + 1) as nat) is Some,
    decreases i,
{
    let f = i as nat;
    let ci = CoreIndex(i as usize);
    match values[i] {
        CorePrismExpr::Let(a, b) => {
            lemma_display_good(values, a.0 as int, PrecedenceLevel::Construct);
            lemma_display_good(values, b.0 as int, PrecedenceLevel::Let);
            lemma_display_mono(values, a, PrecedenceLevel::Construct, (a.0 + 1) as nat, f);
            lemma_display_mono(values, b, PrecedenceLevel::Let, (b.0 + 1) as nat, f);
        },
        CorePrismExpr::FnType(a, b) => {
            lemma_display_good(values, a.0 as int, PrecedenceLevel::TypeAssert);
            lemma_display_good(values, b.0 as int, PrecedenceLevel::FnType);
            lemma_display_mono(values, a, PrecedenceLevel::TypeAssert, (a.0 + 1) as nat, f);
            lemma_display_mono(values, b, PrecedenceLevel::FnType, (b.0 + 1) as nat, f);
        },
        CorePrismExpr::FnConstruct(b) => {
            lemma_display_good(values, b.0 as int, PrecedenceLevel::Construct);
            lemma_display_mono(values, b, PrecedenceLevel::Construct, (b.0 + 1) as nat, f);
        },
        CorePrismExpr::FnDestruct(a, b) => {
            lemma_display_good(values, a.0 as int, PrecedenceLevel::Destruct);
            lemma_display_good(values, b.0 as int, PrecedenceLevel::Base);
            lemma_display_mono(values, a, PrecedenceLevel::Destruct, (a.0 + 1) as nat, f);
            lemma_display_mono(values, b, PrecedenceLevel::Base, (b.0 + 1) as nat, f);
        },
        CorePrismExpr::Shift(v, _) => {
            lemma_display_good(values, v.0 as int, PrecedenceLevel::Let);
            lemma_display_mono(values, v, PrecedenceLevel::Let, (v.0 + 1) as nat, f);
        },
        CorePrismExpr::TypeAssert(a, b) => {
            lemma_display_good(values, a.0 as int, PrecedenceLevel::Destruct);
            lemma_display_good(values, b.0 as int, PrecedenceLevel::Destruct);
            lemma_display_mono(values, a, PrecedenceLevel::Destruct, (a.0 + 1) as nat, f);
            lemma_display_mono(values, b, PrecedenceLevel::Destruct, (b.0 + 1) as nat, f);
        },
        _ => {},
    }
    assert(display_inner(values, ci, (i + 1) as nat) is Some);
}

} // verus!

verus! {

impl PrismEnv {
    /// Whether the expression at `i` can be displayed within `fuel` nested steps.
    fn displays_within(&self, i: CoreIndex, fuel: usize) -> (r: bool)
        ensures
            r == display_inner(self.checked_values@, i, fuel as nat) is Some,
        decreases fuel,
    {
        if fuel == 0 || i.0 >= self.checked_values.len() {
            return false;
        }
        let f = fuel - 1;
        match self.checked_values[i.0] {
            CorePrismExpr::Let(a, b) | CorePrismExpr::FnType(a, b) | CorePrismExpr::FnDestruct(a, b)
            | CorePrismExpr::TypeAssert(a, b) => self.displays_within(a, f) && self.displays_within(
                b,
                f,
            ),
            CorePrismExpr::FnConstruct(b) => self.displays_within(b, f),
            CorePrismExpr::Shift(v, _) => self.displays_within(v, f),
            _ => true,
        }
    }

    /// The text of the core expression at `i`, when displaying it takes at most `limit`
    /// nested steps; `None` when it takes more, or the expression refers outside the arena.
    pub fn index_to_string_bounded(&self, i: CoreIndex, limit: usize) -> (r: Option<String>)
        ensures
            match display_fuel(self.checked_values@, i, PrecedenceLevel::Let, limit as nat) {
                Some(t) => r matches Some(s) && s@ == t,
                None => r is None,
            },
    {
        if self.displays_within(i, limit) {
            let mut s = String::new();
            self.display(i, &mut s, PrecedenceLevel::Let, Ghost(limit as nat));
            Some(s)
        } else {
            None
        }
    }
}

} // verus!
