use crate::lang::beta_reduce_head::{brh_init, brh_run};
use crate::lang::env::{DbEnv, EnvEntry, SEntry};
use crate::lang::type_check::{BRH_STEP_LIMIT, RECURSION_LIMIT};
use crate::lang::{CoreIndex, CorePrismExpr, GrammarId, PrismEnv, Span, ValueOrigin};
use crate::parser::named_env::{NamedEnv, NamesEnv};
use crate::lang::tree::{is_prefix, lemma_prefix_trans, lemma_read_back_prefix, read_back};
use crate::parser::named_env::SNamedEnv;
use crate::parser::parsed_to_checked::{
    appends, labels_view, lemma_appends_refl, lemma_appends_trans, lemma_p2c_base, p2c, spec_insert_name,
    SNames,
};
use crate::parser::{ParsedIndex, ParsedPrismExpr, ParsedValue};
use crate::text::str_eq;
use std::collections::HashMap;
use vstd::prelude::*;

verus! {

broadcast use vstd::std_specs::hash::group_hash_axioms;

/// A value that the parser hands to a constructor of the grammar.
#[derive(Debug)]
pub enum ParsedArg {
    /// A name as written.
    Name(String),
    /// An expression parsed before.
    Expr(ParsedIndex),
    /// A grammar.
    Grammar(GrammarId),
    /// An expression written in a user grammar, with the length of the scope where that
    /// grammar was defined.
    EnvCapture { value: ParsedIndex, adapt_env_len: usize, grammar: GrammarId },
    /// The values a user grammar captured, by name.
    Captured(Vec<(String, ParsedValue)>),
    /// The core value of a file that was included.
    Included(CoreIndex),
}

/// The parsed expression that the grammar's constructor `constructor` builds from `args`;
/// `None` for a constructor the grammar does not have, or arguments it does not take.
pub open spec fn construct(constructor: Seq<char>, args: Seq<ParsedArg>) -> Option<ParsedPrismExpr> {
    if constructor == "Type"@ {
        if args.len() == 0 {
            Some(ParsedPrismExpr::Type)
        } else {
            None
        }
    } else if constructor == "Name"@ {
        if args.len() == 1 {
            match args[0] {
                ParsedArg::Name(n) => Some(
                    if n@ == "_"@ {
                        ParsedPrismExpr::Free
                    } else {
                        ParsedPrismExpr::Name(n)
                    },
                ),
                _ => None,
            }
        } else {
            None
        }
    } else if constructor == "Let"@ || constructor == "FnType"@ {
        if args.len() == 3 {
            match (args[0], args[1], args[2]) {
                (ParsedArg::Name(n), ParsedArg::Expr(v), ParsedArg::Expr(b)) => Some(
                    if constructor == "Let"@ {
                        ParsedPrismExpr::Let(n, v, b)
                    } else {
                        ParsedPrismExpr::FnType(n, v, b)
                    },
                ),
                _ => None,
            }
        } else {
            None
        }
    } else if constructor == "FnConstruct"@ {
        if args.len() == 2 {
            match (args[0], args[1]) {
                (ParsedArg::Name(n), ParsedArg::Expr(b)) => Some(ParsedPrismExpr::FnConstruct(n, b)),
                _ => None,
            }
        } else {
            None
        }
    } else if constructor == "FnDestruct"@ || constructor == "TypeAssert"@ {
        if args.len() == 2 {
            match (args[0], args[1]) {
                (ParsedArg::Expr(a), ParsedArg::Expr(b)) => Some(
                    if constructor == "FnDestruct"@ {
                        ParsedPrismExpr::FnDestruct(a, b)
                    } else {
                        ParsedPrismExpr::TypeAssert(a, b)
                    },
                ),
                _ => None,
            }
        } else {
            None
        }
    } else if constructor == "GrammarValue"@ {
        if args.len() == 1 {
            match args[0] {
                ParsedArg::Grammar(g) => Some(ParsedPrismExpr::GrammarValue(g)),
                _ => None,
            }
        } else {
            None
        }
    } else if constructor == "GrammarType"@ {
        if args.len() == 0 {
            Some(ParsedPrismExpr::GrammarType)
        } else {
            None
        }
    } else if constructor == "EnvCapture"@ {
        if args.len() == 2 {
            match (args[0], args[1]) {
                (
                    ParsedArg::EnvCapture { value, adapt_env_len, grammar },
                    ParsedArg::Captured(c),
                ) => Some(
                    ParsedPrismExpr::ShiftTo { expr: value, captured_env: c, adapt_env_len, grammar },
                ),
                _ => None,
            }
        } else {
            None
        }
    } else if constructor == "Include"@ {
        if args.len() == 2 {
            match (args[0], args[1]) {
                (ParsedArg::Name(n), ParsedArg::Included(c)) => Some(ParsedPrismExpr::Include(n, c)),
                _ => None,
            }
        } else {
            None
        }
    } else {
        None
    }
}

/// Which scope each argument of a constructor is evaluated in.
#[derive(Copy, Clone, Debug, PartialEq, Eq, Structural)]
pub enum ArgScope {
    /// The argument is no expression and needs no scope.
    NoScope,
    /// The scope of the constructor.
    Parent,
    /// The scope of the constructor with the first argument bound to the second.
    ParentWithBinding,
}

/// The scopes of the arguments of `constructor`, when it takes `n` arguments.
pub open spec fn arg_scopes(constructor: Seq<char>, n: nat) -> Option<Seq<ArgScope>> {
    if constructor == "Type"@ && n == 0 {
        Some(seq![])
    } else if constructor == "Name"@ && n == 1 {
        Some(seq![ArgScope::NoScope])
    } else if constructor == "Let"@ && n == 3 {
        Some(seq![ArgScope::NoScope, ArgScope::Parent, ArgScope::ParentWithBinding])
    } else if constructor == "FnType"@ && n == 3 {
        Some(seq![ArgScope::NoScope, ArgScope::Parent, ArgScope::Parent])
    } else if constructor == "FnConstruct"@ && n == 2 {
        Some(seq![ArgScope::NoScope, ArgScope::Parent])
    } else if (constructor == "FnDestruct"@ || constructor == "TypeAssert"@) && n == 2 {
        Some(seq![ArgScope::Parent, ArgScope::Parent])
    } else if constructor == "GrammarValue"@ && n == 1 {
        Some(seq![ArgScope::NoScope])
    } else if constructor == "GrammarType"@ && n == 0 {
        Some(seq![])
    } else if constructor == "Include"@ && n == 1 {
        Some(seq![ArgScope::NoScope])
    } else {
        None
    }
}

/// An entry of the scope in which the parser evaluates a grammar: the name, if it is
/// known, and the expression bound to it, if it is known.
pub type EvalEntry = (Option<String>, Option<ParsedIndex>);

/// Whether an entry of the parser's scope binds a known name to a known expression.
pub open spec fn entry_known(e: EvalEntry) -> bool {
    e.0 is Some && e.1 is Some
}

impl ParsedIndex {
    /// Builds the parsed expression of the grammar's constructor `constructor` from its
    /// arguments, and stores it with `span`. `None`, with nothing stored, for a constructor
    /// the grammar does not have or arguments it does not take.
    #[verifier::rlimit(40)]
    pub fn from_construct(
        span: Span,
        constructor: &str,
        args: Vec<ParsedArg>,
        env: &mut PrismEnv,
    ) -> (r: Option<ParsedIndex>)
        requires
            old(env).parsed_wf(),
        ensures
            match construct(constructor@, args@) {
                Some(e) => r matches Some(p) && p.0 == old(env).parsed_values@.len()
                    && final(env).parsed_values@ == old(env).parsed_values@.push(e)
                    && final(env).parsed_spans@ == old(env).parsed_spans@.push(span)
                    && final(env).parsed_wf(),
                None => r is None && final(env).parsed_values == old(env).parsed_values
                    && final(env).parsed_spans == old(env).parsed_spans,
            },
            final(env).checked_values == old(env).checked_values,
            final(env).checked_origins == old(env).checked_origins,
            final(env).errors == old(env).errors,
    {
        let ghost a = args@;
        let n = args.len();
        let mut args = args;
        proof {
            reveal_strlit("Type");
            reveal_strlit("Name");
            reveal_strlit("Let");
            reveal_strlit("FnType");
            reveal_strlit("FnConstruct");
            reveal_strlit("FnDestruct");
            reveal_strlit("TypeAssert");
            reveal_strlit("GrammarValue");
            reveal_strlit("GrammarType");
            reveal_strlit("EnvCapture");
            reveal_strlit("Include");
            reveal_strlit("_");
        }
        let expr = if str_eq(constructor, "Type") {
            if n != 0 {
                return None;
            }
            ParsedPrismExpr::Type
        } else if str_eq(constructor, "Name") {
            if n != 1 {
                return None;
            }
            match args.pop() {
                Some(ParsedArg::Name(name)) => {
                    if str_eq(name.as_str(), "_") {
                        ParsedPrismExpr::Free
                    } else {
                        ParsedPrismExpr::Name(name)
                    }
                },
                _ => return None,
            }
        } else if str_eq(constructor, "Let") || str_eq(constructor, "FnType") {
            if n != 3 {
                return None;
            }
            let b = args.pop();
            let v = args.pop();
            let name = args.pop();
            assert(a[2] == b->0 && a[1] == v->0 && a[0] == name->0);
            match (name, v, b) {
                (Some(ParsedArg::Name(name)), Some(ParsedArg::Expr(v)), Some(ParsedArg::Expr(b))) => {
                    if str_eq(constructor, "Let") {
                        ParsedPrismExpr::Let(name, v, b)
                    } else {
                        ParsedPrismExpr::FnType(name, v, b)
                    }
                },
                _ => return None,
            }
        } else if str_eq(constructor, "FnConstruct") {
            if n != 2 {
                return None;
            }
            let b = args.pop();
            let name = args.pop();
            assert(a[1] == b->0 && a[0] == name->0);
            match (name, b) {
                (Some(ParsedArg::Name(name)), Some(ParsedArg::Expr(b))) => ParsedPrismExpr::FnConstruct(name, b),
                _ => return None,
            }
        } else if str_eq(constructor, "FnDestruct") || str_eq(constructor, "TypeAssert") {
            if n != 2 {
                return None;
            }
            let y = args.pop();
            let x = args.pop();
            assert(a[1] == y->0 && a[0] == x->0);
            match (x, y) {
                (Some(ParsedArg::Expr(x)), Some(ParsedArg::Expr(y))) => {
                    if str_eq(constructor, "FnDestruct") {
                        ParsedPrismExpr::FnDestruct(x, y)
                    } else {
                        ParsedPrismExpr::TypeAssert(x, y)
                    }
                },
                _ => return None,
            }
        } else if str_eq(constructor, "GrammarValue") {
            if n != 1 {
                return None;
            }
            match args.pop() {
                Some(ParsedArg::Grammar(g)) => ParsedPrismExpr::GrammarValue(g),
                _ => return None,
            }
        } else if str_eq(constructor, "GrammarType") {
            if n != 0 {
                return None;
            }
            ParsedPrismExpr::GrammarType
        } else if str_eq(constructor, "EnvCapture") {
            if n != 2 {
                return None;
            }
            let c = args.pop();
            let w = args.pop();
            assert(a[1] == c->0 && a[0] == w->0);
            match (w, c) {
                (
                    Some(ParsedArg::EnvCapture { value, adapt_env_len, grammar }),
                    Some(ParsedArg::Captured(c)),
                ) => ParsedPrismExpr::ShiftTo { expr: value, captured_env: c, adapt_env_len, grammar },
                _ => return None,
            }
        } else if str_eq(constructor, "Include") {
            if n != 2 {
                return None;
            }
            let c = args.pop();
            let name = args.pop();
            assert(a[1] == c->0 && a[0] == name->0);
            match (name, c) {
                (Some(ParsedArg::Name(name)), Some(ParsedArg::Included(c))) => ParsedPrismExpr::Include(name, c),
                _ => return None,
            }
        } else {
            return None;
        };
        Some(env.store_from_source(expr, span))
    }

    /// The scopes in which the arguments of `constructor` are evaluated, when it takes
    /// `arg_count` arguments; `None` for a constructor the grammar does not have.
    pub fn create_eval_ctx(constructor: &str, arg_count: usize) -> (r: Option<Vec<ArgScope>>)
        ensures
            match r {
                Some(v) => arg_scopes(constructor@, arg_count as nat) == Some(v@),
                None => arg_scopes(constructor@, arg_count as nat) is None,
            },
    {
        proof {
            reveal_strlit("Type");
            reveal_strlit("Name");
            reveal_strlit("Let");
            reveal_strlit("FnType");
            reveal_strlit("FnConstruct");
            reveal_strlit("FnDestruct");
            reveal_strlit("TypeAssert");
            reveal_strlit("GrammarValue");
            reveal_strlit("GrammarType");
            reveal_strlit("Include");
        }
        let mut v: Vec<ArgScope> = Vec::new();
        if str_eq(constructor, "Type") && arg_count == 0 {
        } else if str_eq(constructor, "Name") && arg_count == 1 {
            v.push(ArgScope::NoScope);
        } else if str_eq(constructor, "Let") && arg_count == 3 {
            v.push(ArgScope::NoScope);
            v.push(ArgScope::Parent);
            v.push(ArgScope::ParentWithBinding);
        } else if str_eq(constructor, "FnType") && arg_count == 3 {
            v.push(ArgScope::NoScope);
            v.push(ArgScope::Parent);
            v.push(ArgScope::Parent);
        } else if str_eq(constructor, "FnConstruct") && arg_count == 2 {
            v.push(ArgScope::NoScope);
            v.push(ArgScope::Parent);
        } else if (str_eq(constructor, "FnDestruct") || str_eq(constructor, "TypeAssert"))
            && arg_count == 2 {
            v.push(ArgScope::Parent);
            v.push(ArgScope::Parent);
        } else if str_eq(constructor, "GrammarValue") && arg_count == 1 {
            v.push(ArgScope::NoScope);
        } else if str_eq(constructor, "GrammarType") && arg_count == 0 {
        } else if str_eq(constructor, "Include") && arg_count == 1 {
            v.push(ArgScope::NoScope);
        } else {
            return None;
        }
        assert(v@ =~= arg_scopes(constructor@, arg_count as nat)->0);
        Some(v)
    }
}

/// The name that an entry of the parser's scope binds: its own where the entry is known,
/// `_` otherwise.
pub open spec fn entry_name(e: EvalEntry) -> Seq<char> {
    if entry_known(e) {
        e.0->0@
    } else {
        "_"@
    }
}

/// The named scope of the first `k` entries of the parser's scope.
pub open spec fn entries_scope(entries: Seq<EvalEntry>, k: nat) -> SNamedEnv
    decreases k,
{
    if k == 0 {
        SNamedEnv { env_len: 0, names: Seq::empty(), hygienic_names: Seq::empty() }
    } else {
        spec_insert_name(entries_scope(entries, (k - 1) as nat), entry_name(entries[k - 1]))
    }
}

/// The arena from `mid` on holds the grammar function `v`, whose head normal form has a
/// scope of `k` entries, applied to a free return type and to a function of `k + 1`
/// arguments that gives back its first one: at `mid` the variable, then the `k + 1`
/// functions around it, the free value, and the two applications, the last value last.
pub open spec fn applies_grammar_fn(values: Seq<CorePrismExpr>, mid: int, v: CoreIndex, k: nat) -> bool {
    &&& values.len() == mid + k + 5
    &&& values[mid] == CorePrismExpr::DeBruijnIndex(0)
    &&& forall|j: int|
        0 <= j <= k ==> #[trigger] values[mid + 1 + j] == CorePrismExpr::FnConstruct(
            CoreIndex((mid + j) as usize),
        )
    &&& values[mid + k + 2] == CorePrismExpr::Free
    &&& values[mid + k + 3] == CorePrismExpr::FnDestruct(v, CoreIndex((mid + k + 2) as usize))
    &&& values[mid + k + 4] == CorePrismExpr::FnDestruct(
        CoreIndex((mid + k + 3) as usize),
        CoreIndex((mid + k + 1) as usize),
    )
}

/// The grammar that the grammar function at `gf`, in the core scope `db`, gives: its head
/// normal form among the first `mid` values, applied as `applies_grammar_fn` lays out,
/// reduces in its head to a grammar. `None` where a reduction does not end within
/// `BRH_STEP_LIMIT` steps or ends in anything else.
pub open spec fn grammar_outcome(
    values: Seq<CorePrismExpr>,
    mid: nat,
    gf: CoreIndex,
    db: Seq<SEntry>,
) -> Option<GrammarId> {
    if gf.0 >= mid || mid > values.len() {
        None
    } else {
        match brh_run(values.subrange(0, mid as int), brh_init(gf, db), BRH_STEP_LIMIT as nat) {
            None => None,
            Some((_, sv)) => match brh_run(
                values,
                brh_init(CoreIndex((mid + sv.len() + 4) as usize), db),
                BRH_STEP_LIMIT as nat,
            ) {
                Some((red, _)) => if red.0 < values.len() {
                    match values[red.0 as int] {
                        CorePrismExpr::GrammarValue(g) => Some(g),
                        _ => None,
                    }
                } else {
                    None
                },
                None => None,
            },
        }
    }
}

/// How evaluating `expr` to a grammar in the parser's scope `entries` went from `old` to
/// `new` with the result `r`: the scope became the core scope `db`, `expr` became the
/// grammar function at `gf` among the first `mid` values (adding its errors), the
/// function was applied after them, and `r` is the grammar that gives.
pub open spec fn evaluated_grammar(
    old: &PrismEnv,
    new: &PrismEnv,
    expr: ParsedIndex,
    entries: Seq<EvalEntry>,
    r: Option<GrammarId>,
    mid: nat,
    gf: CoreIndex,
    db: Seq<SEntry>,
) -> bool {
    let fn_p2c = p2c(
        old.parsed_values@,
        old.parsed_spans@,
        old.checked_values@,
        entries_scope(entries, entries.len()),
        Map::empty(),
        expr,
        (RECURSION_LIMIT - entries.len()) as nat,
    );
    &&& old.checked_values@.len() <= mid <= new.checked_values@.len()
    &&& db.len() == entries.len()
    &&& scope_values(
        old.parsed_values@,
        old.parsed_spans@,
        old.checked_values@,
        new.checked_values@,
        entries,
        db,
    )
    &&& (fn_p2c matches Some(o) ==> gf.0 < mid && read_back(new.checked_values@, gf.0 as int)
        == o.tree && new.errors@ == old.errors@ + o.errors)
    &&& gf.0 < mid ==> (brh_run(
        new.checked_values@.subrange(0, mid as int),
        brh_init(gf, db),
        BRH_STEP_LIMIT as nat,
    ) matches Some((v, sv)) ==> applies_grammar_fn(new.checked_values@, mid as int, v, sv.len()))
    &&& r == grammar_outcome(new.checked_values@, mid, gf, db)
}

/// Each entry of the core scope `s` stands for the entry of the parser's scope at the same
/// place: a known entry for its core value, which reads back in `values` as its parsed
/// value turned into a core one (in the arena `base`, the scope of the entries before it,
/// and the fuel left at its depth) where that succeeds, in the core scope before it; an
/// unknown one for an unnamed variable.
#[verifier::opaque]
pub open spec fn scope_values(
    pv: Seq<ParsedPrismExpr>,
    spans: Seq<Span>,
    base: Seq<CorePrismExpr>,
    values: Seq<CorePrismExpr>,
    entries: Seq<EvalEntry>,
    s: Seq<SEntry>,
) -> bool {
    forall|k: int|
        0 <= k < entries.len() ==> if entry_known(#[trigger] entries[k]) {
            &&& s[k] matches SEntry::RSubst(v, sk) && sk == s.subrange(0, k) && (p2c(
                pv,
                spans,
                base,
                entries_scope(entries, k as nat),
                Map::empty(),
                entries[k].1->0,
                (RECURSION_LIMIT - k) as nat,
            ) matches Some(o) ==> v.0 < values.len() && read_back(values, v.0 as int) == o.tree)
        } else {
            s[k] is RType
        }
}

/// The core values of a scope keep reading back the same in a grown arena.
pub proof fn lemma_scope_values_prefix(
    pv: Seq<ParsedPrismExpr>,
    spans: Seq<Span>,
    base: Seq<CorePrismExpr>,
    small: Seq<CorePrismExpr>,
    big: Seq<CorePrismExpr>,
    entries: Seq<EvalEntry>,
    s: Seq<SEntry>,
)
    requires
        scope_values(pv, spans, base, small, entries, s),
        is_prefix(small, big),
    ensures
        scope_values(pv, spans, base, big, entries, s),
{
    reveal(scope_values);
    assert forall|k: int| 0 <= k < entries.len() && entry_known(#[trigger] entries[k]) implies (p2c(
        pv,
        spans,
        base,
        entries_scope(entries, k as nat),
        Map::empty(),
        entries[k].1->0,
        (RECURSION_LIMIT - k) as nat,
    ) matches Some(o) ==> s[k]->RSubst_0.0 < big.len() && read_back(big, s[k]->RSubst_0.0 as int)
        == o.tree) by {
        if let Some(o) = p2c(
            pv,
            spans,
            base,
            entries_scope(entries, k as nat),
            Map::empty(),
            entries[k].1->0,
            (RECURSION_LIMIT - k) as nat,
        ) {
            lemma_read_back_prefix(small, big, s[k]->RSubst_0.0 as int);
        }
    }
}

impl PrismEnv {
    /// The named scope and the core scope of the parser's scope `entries`, oldest first.
    /// Each entry binds its name to its core value, turned from its parsed value in the
    /// scope of the entries before it, where both are known, and stands for an unnamed
    /// variable otherwise.
    #[verifier::rlimit(60)]
    pub fn eval_ctx_to_envs(&mut self, entries: &Vec<EvalEntry>) -> (r: (NamedEnv, DbEnv))
        requires
            old(self).arena_wf(),
            old(self).parsed_wf(),
            entries@.len() < RECURSION_LIMIT,
        ensures
            appends(old(self), final(self)),
            r.0@ == entries_scope(entries@, entries@.len()),
            r.0@.env_len == entries@.len(),
            r.1@.len() == entries@.len(),
            scope_values(
                old(self).parsed_values@,
                old(self).parsed_spans@,
                old(self).checked_values@,
                final(self).checked_values@,
                entries@,
                r.1@,
            ),
    {
        let mut named_env = NamedEnv::new();
        let mut db_env = DbEnv::new();
        let ghost s0 = *self;
        proof {
            lemma_appends_refl(&s0);
            assert(named_env@ == entries_scope(entries@, 0));
        }
        let mut k: usize = 0;
        while k < entries.len()
            invariant
                k <= entries@.len(),
                entries@.len() < RECURSION_LIMIT,
                appends(&s0, self),
                named_env@ == entries_scope(entries@, k as nat),
                named_env@.env_len == k,
                db_env@.len() == k,
                forall|j: int|
                    0 <= j < k ==> if entry_known(#[trigger] entries@[j]) {
                        &&& db_env@[j] matches SEntry::RSubst(v, s) && s == db_env@.subrange(0, j)
                            && (p2c(
                            s0.parsed_values@,
                            s0.parsed_spans@,
                            s0.checked_values@,
                            entries_scope(entries@, j as nat),
                            Map::empty(),
                            entries@[j].1->0,
                            (RECURSION_LIMIT - j) as nat,
                        ) matches Some(o) ==> v.0 < self.checked_values@.len() && read_back(
                            self.checked_values@,
                            v.0 as int,
                        ) == o.tree)
                    } else {
                        db_env@[j] is RType
                    },
            decreases entries@.len() - k,
        {
            let ghost sk = *self;
            let ghost dk = db_env@;
            let id = self.new_tc_id();
            proof {
                lemma_appends_refl(self);
                lemma_appends_trans(&s0, &sk, self);
            }
            let ghost sv = *self;
            let (new_named, new_db) = match (&entries[k].0, entries[k].1) {
                (Some(key), Some(value)) => {
                    let mut labels: HashMap<usize, NamesEnv> = HashMap::new();
                    proof {
                        assert(labels_view(labels@) =~= Map::<usize, SNames>::empty());
                    }
                    let v = self.parsed_to_checked_with_env(value, &named_env, &mut labels, k);
                    proof {
                        lemma_appends_trans(&s0, &sv, self);
                        let pk = p2c(
                            s0.parsed_values@,
                            s0.parsed_spans@,
                            s0.checked_values@,
                            entries_scope(entries@, k as nat),
                            Map::empty(),
                            value,
                            (RECURSION_LIMIT - k) as nat,
                        );
                        if pk is Some {
                            lemma_p2c_base(
                                s0.parsed_values@,
                                s0.parsed_spans@,
                                s0.checked_values@,
                                sv.checked_values@,
                                entries_scope(entries@, k as nat),
                                Map::empty(),
                                value,
                                (RECURSION_LIMIT - k) as nat,
                            );
                        }
                    }
                    (named_env.insert_name(key.as_str()), db_env.cons(EnvEntry::RSubst(v, db_env.copy())))
                },
                _ => {
                    proof {
                        reveal_strlit("_");
                    }
                    (named_env.insert_name("_"), db_env.cons(EnvEntry::RType(id)))
                },
            };
            proof {
                assert(new_db@.subrange(0, k as int) =~= dk);
                assert forall|j: int| 0 <= j < k && entry_known(#[trigger] entries@[j]) implies (
                p2c(
                    s0.parsed_values@,
                    s0.parsed_spans@,
                    s0.checked_values@,
                    entries_scope(entries@, j as nat),
                    Map::empty(),
                    entries@[j].1->0,
                    (RECURSION_LIMIT - j) as nat,
                ) matches Some(o) ==> read_back(self.checked_values@, dk[j]->RSubst_0.0 as int)
                    == o.tree) by {
                    if let Some(o) = p2c(
                        s0.parsed_values@,
                        s0.parsed_spans@,
                        s0.checked_values@,
                        entries_scope(entries@, j as nat),
                        Map::empty(),
                        entries@[j].1->0,
                        (RECURSION_LIMIT - j) as nat,
                    ) {
                        lemma_read_back_prefix(sk.checked_values@, self.checked_values@, dk[j]->RSubst_0.0 as int);
                    }
                }
            }
            named_env = new_named;
            db_env = new_db;
            k += 1;
        }
        proof {
            reveal(scope_values);
        }
        (named_env, db_env)
    }

    /// The grammar that the parsed expression `expr` evaluates to in the parser's scope
    /// `entries`, by applying the grammar function to the variables of its scope, as
    /// `evaluated_grammar` lays out. `None` when it evaluates to no grammar. Errors that
    /// come up while building the scope are dropped.
    #[verifier::rlimit(80)]
    pub fn eval_to_grammar(&mut self, expr: ParsedIndex, entries: &Vec<EvalEntry>) -> (r: Option<
        GrammarId,
    >)
        requires
            old(self).arena_wf(),
            old(self).parsed_wf(),
            entries@.len() < RECURSION_LIMIT,
        ensures
            final(self).arena_wf(),
            final(self).parsed_wf(),
            final(self).parsed_values == old(self).parsed_values,
            final(self).parsed_spans == old(self).parsed_spans,
            crate::lang::tree::is_prefix(old(self).checked_values@, final(self).checked_values@),
            exists|mid: nat, gf: CoreIndex, db: Seq<SEntry>| #[trigger]
                evaluated_grammar(old(self), final(self), expr, entries@, r, mid, gf, db),
    {
        // Create the scope, ignoring any errors that occur in this process
        let error_count = self.errors.len();
        let ghost s0 = *self;
        let (named_env, db_env) = self.eval_ctx_to_envs(entries);
        let ghost sa = *self;
        self.errors.truncate(error_count);
        let ghost s1 = *self;
        proof {
            assert(s1.errors@ =~= s0.errors@);
            assert(s1.errors@.subrange(0, s0.errors@.len() as int) =~= s0.errors@);
            assert(appends(&s0, &s1));
        }
        // The grammar function itself
        let mut labels: HashMap<usize, NamesEnv> = HashMap::new();
        proof {
            assert(labels_view(labels@) =~= Map::<usize, SNames>::empty());
        }
        let grammar_fn = self.parsed_to_checked_with_env(expr, &named_env, &mut labels, entries.len());
        let ghost s2 = *self;
        let ghost mid = s2.checked_values@.len();
        let ghost db = db_env@;
        proof {
            lemma_appends_trans(&s0, &s1, &s2);
            let fn_p2c = p2c(
                s0.parsed_values@,
                s0.parsed_spans@,
                s0.checked_values@,
                entries_scope(entries@, entries@.len()),
                Map::empty(),
                expr,
                (RECURSION_LIMIT - entries@.len()) as nat,
            );
            if fn_p2c is Some {
                lemma_p2c_base(
                    s0.parsed_values@,
                    s0.parsed_spans@,
                    s0.checked_values@,
                    s1.checked_values@,
                    entries_scope(entries@, entries@.len()),
                    Map::empty(),
                    expr,
                    (RECURSION_LIMIT - entries@.len()) as nat,
                );
            }
            assert(s2.checked_values@.subrange(0, mid as int) =~= s2.checked_values@);
            lemma_scope_values_prefix(
                s0.parsed_values@,
                s0.parsed_spans@,
                s0.checked_values@,
                sa.checked_values@,
                s2.checked_values@,
                entries@,
                db,
            );
        }
        if grammar_fn.0 >= self.checked_origins.len() {
            proof {
                assert(evaluated_grammar(&s0, self, expr, entries@, None, mid, grammar_fn, db));
            }
            return None;
        }
        let origin = self.checked_origins[grammar_fn.0];
        // Evaluate this to the grammar function
        let (grammar_fn_value, grammar_fn_env) = match self.beta_reduce_head_bounded(
            grammar_fn,
            &db_env,
            BRH_STEP_LIMIT,
        ) {
            Some(x) => x,
            None => {
                proof {
                    assert(evaluated_grammar(&s0, self, expr, entries@, None, mid, grammar_fn, db));
                }
                return None;
            },
        };
        let ghost k = grammar_fn_env@.len();
        // An expression that takes the first element from this function
        let e0 = self.store_checked(CorePrismExpr::DeBruijnIndex(0), origin);
        let mut e = self.store_checked(CorePrismExpr::FnConstruct(e0), origin);
        let mut j: usize = 0;
        while j < grammar_fn_env.len()
            invariant
                self.arena_wf(),
                self.parsed_wf(),
                self.parsed_values == s2.parsed_values,
                self.parsed_spans == s2.parsed_spans,
                self.errors == s2.errors,
                j <= grammar_fn_env@.len(),
                k == grammar_fn_env@.len(),
                self.checked_values@.len() == mid + 2 + j,
                e.0 == mid + 1 + j,
                self.checked_values@.subrange(0, mid as int) == s2.checked_values@,
                self.checked_values@[mid as int] == CorePrismExpr::DeBruijnIndex(0),
                forall|i: int|
                    0 <= i <= j ==> #[trigger] self.checked_values@[mid + 1 + i]
                        == CorePrismExpr::FnConstruct(CoreIndex((mid + i) as usize)),
            decreases grammar_fn_env@.len() - j,
        {
            e = self.store_checked(CorePrismExpr::FnConstruct(e), origin);
            j += 1;
        }
        let free_return_type = self.store_checked(CorePrismExpr::Free, origin);
        let grammar_fn_applied = self.store_checked(
            CorePrismExpr::FnDestruct(grammar_fn_value, free_return_type),
            origin,
        );
        let e = self.store_checked(CorePrismExpr::FnDestruct(grammar_fn_applied, e), origin);
        let ghost s3 = *self;
        proof {
            assert(s3.checked_values@.subrange(0, mid as int) =~= s2.checked_values@);
            assert(applies_grammar_fn(s3.checked_values@, mid as int, grammar_fn_value, k));
            assert(e.0 == mid + k + 4);
            assert(is_prefix(s2.checked_values@, s3.checked_values@));
            lemma_prefix_trans(s0.checked_values@, s2.checked_values@, s3.checked_values@);
            lemma_scope_values_prefix(
                s0.parsed_values@,
                s0.parsed_spans@,
                s0.checked_values@,
                s2.checked_values@,
                s3.checked_values@,
                entries@,
                db,
            );
            if let Some(o) = p2c(
                s0.parsed_values@,
                s0.parsed_spans@,
                s0.checked_values@,
                entries_scope(entries@, entries@.len()),
                Map::empty(),
                expr,
                (RECURSION_LIMIT - entries@.len()) as nat,
            ) {
                lemma_read_back_prefix(s2.checked_values@, s3.checked_values@, grammar_fn.0 as int);
            }
        }
        // Evaluate this further
        let reduced = match self.beta_reduce_head_bounded(e, &db_env, BRH_STEP_LIMIT) {
            Some((v, _)) => v,
            None => {
                proof {
                    assert(evaluated_grammar(&s0, self, expr, entries@, None, mid, grammar_fn, db));
                }
                return None;
            },
        };
        let r = if reduced.0 >= self.checked_values.len() {
            None
        } else {
            match self.checked_values[reduced.0] {
                CorePrismExpr::GrammarValue(g) => Some(g),
                _ => None,
            }
        };
        proof {
            assert(evaluated_grammar(&s0, self, expr, entries@, r, mid, grammar_fn, db));
        }
        r
    }
}

} // verus!
