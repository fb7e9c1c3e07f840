use crate::lang::error::{PrismError, TypeError};
use crate::lang::tree::{is_prefix, lemma_prefix_trans, lemma_read_back_prefix, read_back, CTree};
use crate::lang::type_check::RECURSION_LIMIT;
use crate::lang::{CoreIndex, CorePrismExpr, PrismEnv, Span, ValueOrigin};
use crate::parser::named_env::{
    last_named, lookup, parsed_value_view, spec_insert_name_at, spec_rebind, NamedEnv, NamesEntry, NamesEnv,
    SNamedEnv, SNamesEntry, SParsedValue,
};
use crate::parser::{ParsedIndex, ParsedPrismExpr, ParsedValue};
use crate::text::str_eq;
use std::collections::HashMap;
use vstd::prelude::*;

verus! {

broadcast use vstd::std_specs::hash::group_hash_axioms;

/// The names of a scope as the model sees them.
pub type SNames = Seq<(Seq<char>, SNamesEntry)>;

/// The outcome of turning a parsed expression into a core expression: the tree it reads
/// back as, the names in scope where each grammar was defined, and the errors found.
pub struct P2c {
    pub tree: CTree,
    pub labels: Map<usize, SNames>,
    pub errors: Seq<PrismError>,
}

/// The model of the jump labels.
pub open spec fn labels_view(m: Map<usize, NamesEnv>) -> Map<usize, SNames> {
    m.map_values(|n: NamesEnv| n@)
}

/// The model of captured values.
pub open spec fn captured_view(c: Seq<(String, ParsedValue)>) -> Seq<(Seq<char>, SParsedValue)> {
    c.map_values(|p: (String, ParsedValue)| (p.0@, parsed_value_view(p.1)))
}

/// The scope with `n` bound to a new variable.
pub open spec fn spec_insert_name(e: SNamedEnv, n: Seq<char>) -> SNamedEnv {
    SNamedEnv { env_len: (e.env_len + 1) as usize, ..spec_insert_name_at(e, n, e.env_len) }
}

/// `k` function constructs around `t`.
pub open spec fn constructs(k: nat, t: CTree) -> CTree
    decreases k,
{
    if k == 0 {
        t
    } else {
        CTree::FnConstruct(Box::new(constructs((k - 1) as nat, t)))
    }
}

/// The variable `f` applied to the `k` variables of the scope, skipping `T` and `f`.
pub open spec fn scope_apps(k: nat) -> CTree
    decreases k,
{
    if k == 0 {
        CTree::DeBruijnIndex(0)
    } else {
        CTree::FnDestruct(
            Box::new(scope_apps((k - 1) as nat)),
            Box::new(CTree::DeBruijnIndex((k + 1) as usize)),
        )
    }
}

/// The meaning of a grammar defined in a scope of `env_len` variables: a function of a
/// type `T` and a function `f` that applies `f` to the variables and the grammar, as a `T`.
pub open spec fn grammar_tree(env_len: nat, g: crate::lang::GrammarId) -> CTree {
    CTree::FnConstruct(
        Box::new(
            CTree::FnConstruct(
                Box::new(
                    CTree::TypeAssert(
                        Box::new(
                            CTree::FnDestruct(
                                Box::new(scope_apps(env_len)),
                                Box::new(CTree::GrammarValue(g)),
                            ),
                        ),
                        Box::new(CTree::DeBruijnIndex(1)),
                    ),
                ),
            ),
        ),
    )
}

/// A variable of the scope of a grammar, reached from an expression in that grammar: the
/// grammar's function, applied to a free return type and to a function that picks the
/// variable out of the grammar's scope.
pub open spec fn grammar_ref_tree(env_len: usize, gl: usize, adapt: usize, prev: usize) -> CTree {
    CTree::FnDestruct(
        Box::new(
            CTree::FnDestruct(
                Box::new(CTree::DeBruijnIndex((env_len - adapt) as usize)),
                Box::new(CTree::Free),
            ),
        ),
        Box::new(constructs((gl + 1) as nat, CTree::DeBruijnIndex((prev + 1) as usize))),
    )
}

/// The variables of the scope where a grammar was defined, as its expressions see them.
pub open spec fn grammar_names(old: SNames, adapt: usize, k: nat) -> SNames
    decreases k,
{
    if k == 0 {
        Seq::empty()
    } else {
        let prev = grammar_names(old, adapt, (k - 1) as nat);
        match old[k - 1].1 {
            SNamesEntry::FromEnv(p) => prev.push(
                (
                    old[k - 1].0,
                    SNamesEntry::FromGrammarEnv {
                        grammar_env_len: old.len() as usize,
                        adapt_env_len: adapt,
                        prev_env_len: p,
                    },
                ),
            ),
            _ => prev,
        }
    }
}

/// `names` with the first `k` captured values bound, the first of them last.
pub open spec fn captured_names(
    names: SNames,
    c: Seq<(Seq<char>, SParsedValue)>,
    outer: SNames,
    k: nat,
) -> SNames
    decreases k,
{
    if k == 0 {
        names
    } else {
        captured_names(
            names.push((c[k - 1].0, SNamesEntry::FromParsed(c[k - 1].1, outer))),
            c,
            outer,
            (k - 1) as nat,
        )
    }
}

/// The scope of an expression written in a grammar: the grammar's variables, and the
/// values it captured with the names of `env`.
pub open spec fn shifted_env(
    env: SNamedEnv,
    old: SNames,
    c: Seq<(Seq<char>, SParsedValue)>,
    adapt: usize,
) -> SNamedEnv {
    SNamedEnv {
        env_len: env.env_len,
        names: captured_names(grammar_names(old, adapt, old.len()), c, env.names, c.len()),
        hygienic_names: Seq::empty(),
    }
}

/// A leaf of the core expression.
pub open spec fn leaf_out(t: CTree, labels: Map<usize, SNames>) -> Option<P2c> {
    Some(P2c { tree: t, labels, errors: Seq::empty() })
}

/// A name that refers to nothing.
pub open spec fn unknown_out(labels: Map<usize, SNames>, span: Span) -> Option<P2c> {
    Some(
        P2c {
            tree: CTree::Free,
            labels,
            errors: seq![PrismError::TypeError(TypeError::UnknownName(span))],
        },
    )
}

/// Two parts turned into core expressions one after the other, joined by `join`.
pub open spec fn p2c_pair(
    o1: Option<P2c>,
    second: spec_fn(Map<usize, SNames>) -> Option<P2c>,
    join: spec_fn(CTree, CTree) -> CTree,
) -> Option<P2c> {
    match o1 {
        None => None,
        Some(a) => match second(a.labels) {
            None => None,
            Some(b) => Some(P2c { tree: join(a.tree, b.tree), labels: b.labels, errors: a.errors + b.errors }),
        },
    }
}

/// Turning the parsed expression at `i` into a core expression in scope `env`, with at
/// most `fuel` nested steps. `None` where the fuel runs out, where an index is outside
/// the parsed arena, and for an included value outside `base`.
pub open spec fn p2c(
    pv: Seq<ParsedPrismExpr>,
    spans: Seq<Span>,
    base: Seq<CorePrismExpr>,
    env: SNamedEnv,
    labels: Map<usize, SNames>,
    i: ParsedIndex,
    fuel: nat,
) -> Option<P2c>
    decreases fuel,
{
    if fuel == 0 || i.0 >= pv.len() {
        None
    } else {
        let f = (fuel - 1) as nat;
        let span = spans[i.0 as int];
        match pv[i.0 as int] {
            ParsedPrismExpr::Free => leaf_out(CTree::Free, labels),
            ParsedPrismExpr::Type => leaf_out(CTree::Type, labels),
            ParsedPrismExpr::GrammarType => leaf_out(CTree::GrammarType, labels),
            ParsedPrismExpr::Let(n, v, b) => p2c_pair(
                p2c(pv, spans, base, env, labels, v, f),
                |l: Map<usize, SNames>| p2c(pv, spans, base, spec_insert_name(env, n@), l, b, f),
                |x: CTree, y: CTree| CTree::Let(Box::new(x), Box::new(y)),
            ),
            ParsedPrismExpr::FnType(n, a, b) => p2c_pair(
                p2c(pv, spans, base, env, labels, a, f),
                |l: Map<usize, SNames>| p2c(pv, spans, base, spec_insert_name(env, n@), l, b, f),
                |x: CTree, y: CTree| CTree::FnType(Box::new(x), Box::new(y)),
            ),
            ParsedPrismExpr::FnConstruct(n, b) => match p2c(
                pv,
                spans,
                base,
                spec_insert_name(env, n@),
                labels,
                b,
                f,
            ) {
                None => None,
                Some(o) => Some(
                    P2c { tree: CTree::FnConstruct(Box::new(o.tree)), labels: o.labels, errors: o.errors },
                ),
            },
            ParsedPrismExpr::FnDestruct(a, b) => p2c_pair(
                p2c(pv, spans, base, env, labels, a, f),
                |l: Map<usize, SNames>| p2c(pv, spans, base, env, l, b, f),
                |x: CTree, y: CTree| CTree::FnDestruct(Box::new(x), Box::new(y)),
            ),
            ParsedPrismExpr::TypeAssert(a, b) => p2c_pair(
                p2c(pv, spans, base, env, labels, a, f),
                |l: Map<usize, SNames>| p2c(pv, spans, base, env, l, b, f),
                |x: CTree, y: CTree| CTree::TypeAssert(Box::new(x), Box::new(y)),
            ),
            ParsedPrismExpr::Name(n) => if n@ == wildcard() {
                unknown_out(labels, span)
            } else {
                match lookup(env.names, n@) {
                    None => unknown_out(labels, span),
                    Some(SNamesEntry::FromEnv(p)) => if p < env.env_len {
                        leaf_out(CTree::DeBruijnIndex((env.env_len - p - 1) as usize), labels)
                    } else {
                        unknown_out(labels, span)
                    },
                    Some(SNamesEntry::FromGrammarEnv { grammar_env_len, adapt_env_len, prev_env_len }) =>
                        if adapt_env_len == 0 || adapt_env_len > env.env_len || prev_env_len
                        == usize::MAX {
                        unknown_out(labels, span)
                    } else {
                        leaf_out(
                            grammar_ref_tree(env.env_len, grammar_env_len, adapt_env_len, prev_env_len),
                            labels,
                        )
                    },
                    Some(SNamesEntry::FromParsed(SParsedValue::Expr(p), old)) => p2c(
                        pv,
                        spans,
                        base,
                        spec_rebind(
                            SNamedEnv { env_len: env.env_len, names: old, hygienic_names: Seq::empty() },
                            env.hygienic_names,
                        ),
                        labels,
                        p,
                        f,
                    ),
                    Some(SNamesEntry::FromParsed(SParsedValue::Name(_), _)) => unknown_out(labels, span),
                }
            },
            ParsedPrismExpr::GrammarValue(g) => leaf_out(
                grammar_tree(env.env_len as nat, g),
                labels.insert(g.0, env.names),
            ),
            ParsedPrismExpr::ShiftTo { expr, captured_env, adapt_env_len, grammar } => if labels.contains_key(
                grammar.0,
            ) {
                p2c(
                    pv,
                    spans,
                    base,
                    shifted_env(env, labels[grammar.0], captured_view(captured_env@), adapt_env_len),
                    labels,
                    expr,
                    f,
                )
            } else {
                unknown_out(labels, span)
            },
            ParsedPrismExpr::Include(_, v) => if v.0 < base.len() {
                Some(P2c { tree: read_back(base, v.0 as int), labels, errors: Seq::empty() })
            } else {
                None
            },
        }
    }
}

/// The source span recorded as the origin of the value that turning the parsed
/// expression at `i` into a core expression returns: that of `i` itself, or of the
/// expression a name or a grammar's expression stands for. `None` for an included value,
/// which is no new value, and where `p2c` gives `None` for running out of fuel or
/// leaving the parsed arena.
pub open spec fn p2c_span(
    pv: Seq<ParsedPrismExpr>,
    spans: Seq<Span>,
    env: SNamedEnv,
    labels: Map<usize, SNames>,
    i: ParsedIndex,
    fuel: nat,
) -> Option<Span>
    decreases fuel,
{
    if fuel == 0 || i.0 >= pv.len() {
        None
    } else {
        let f = (fuel - 1) as nat;
        match pv[i.0 as int] {
            ParsedPrismExpr::Name(n) => if n@ != wildcard() && lookup(env.names, n@) is Some
                && lookup(env.names, n@)->0 is FromParsed && lookup(env.names, n@)->0->FromParsed_0 is Expr {
                p2c_span(
                    pv,
                    spans,
                    spec_rebind(
                        SNamedEnv {
                            env_len: env.env_len,
                            names: lookup(env.names, n@)->0->FromParsed_1,
                            hygienic_names: Seq::empty(),
                        },
                        env.hygienic_names,
                    ),
                    labels,
                    lookup(env.names, n@)->0->FromParsed_0->Expr_0,
                    f,
                )
            } else {
                Some(spans[i.0 as int])
            },
            ParsedPrismExpr::ShiftTo { expr, captured_env, adapt_env_len, grammar } => if labels.contains_key(
                grammar.0,
            ) {
                p2c_span(
                    pv,
                    spans,
                    shifted_env(env, labels[grammar.0], captured_view(captured_env@), adapt_env_len),
                    labels,
                    expr,
                    f,
                )
            } else {
                Some(spans[i.0 as int])
            },
            ParsedPrismExpr::Include(..) => None,
            _ => Some(spans[i.0 as int]),
        }
    }
}

/// Turning parsed expressions into core ones reads the core arena only for included values, which a grown arena
/// still holds.
pub proof fn lemma_p2c_base(
    pv: Seq<ParsedPrismExpr>,
    spans: Seq<Span>,
    small: Seq<CorePrismExpr>,
    big: Seq<CorePrismExpr>,
    env: SNamedEnv,
    labels: Map<usize, SNames>,
    i: ParsedIndex,
    fuel: nat,
)
    requires
        is_prefix(small, big),
        p2c(pv, spans, small, env, labels, i, fuel) is Some,
    ensures
        p2c(pv, spans, big, env, labels, i, fuel) == p2c(pv, spans, small, env, labels, i, fuel),
    decreases fuel,
{
    let f = (fuel - 1) as nat;
    match pv[i.0 as int] {
        ParsedPrismExpr::Let(n, a, b) => {
            lemma_p2c_base(pv, spans, small, big, env, labels, a, f);
            let l = p2c(pv, spans, small, env, labels, a, f)->0.labels;
            lemma_p2c_base(pv, spans, small, big, spec_insert_name(env, n@), l, b, f);
        },
        ParsedPrismExpr::FnType(n, a, b) => {
            lemma_p2c_base(pv, spans, small, big, env, labels, a, f);
            let l = p2c(pv, spans, small, env, labels, a, f)->0.labels;
            lemma_p2c_base(pv, spans, small, big, spec_insert_name(env, n@), l, b, f);
        },
        ParsedPrismExpr::FnConstruct(n, b) => {
            lemma_p2c_base(pv, spans, small, big, spec_insert_name(env, n@), labels, b, f);
        },
        ParsedPrismExpr::FnDestruct(a, b) => {
            lemma_p2c_base(pv, spans, small, big, env, labels, a, f);
            let l = p2c(pv, spans, small, env, labels, a, f)->0.labels;
            lemma_p2c_base(pv, spans, small, big, env, l, b, f);
        },
        ParsedPrismExpr::TypeAssert(a, b) => {
            lemma_p2c_base(pv, spans, small, big, env, labels, a, f);
            let l = p2c(pv, spans, small, env, labels, a, f)->0.labels;
            lemma_p2c_base(pv, spans, small, big, env, l, b, f);
        },
        ParsedPrismExpr::Name(n) => {
            if n@ != wildcard() {
                if let Some(SNamesEntry::FromParsed(SParsedValue::Expr(p), old)) = lookup(env.names, n@) {
                    lemma_p2c_base(
                        pv,
                        spans,
                        small,
                        big,
                        spec_rebind(
                            SNamedEnv { env_len: env.env_len, names: old, hygienic_names: Seq::empty() },
                            env.hygienic_names,
                        ),
                        labels,
                        p,
                        f,
                    );
                }
            }
        },
        ParsedPrismExpr::ShiftTo { expr, captured_env, adapt_env_len, grammar } => {
            if labels.contains_key(grammar.0) {
                lemma_p2c_base(
                    pv,
                    spans,
                    small,
                    big,
                    shifted_env(env, labels[grammar.0], captured_view(captured_env@), adapt_env_len),
                    labels,
                    expr,
                    f,
                );
            }
        },
        ParsedPrismExpr::Include(_, v) => {
            lemma_read_back_prefix(small, big, v.0 as int);
        },
        _ => {},
    }
}

/// What turning parsed expressions into core expressions keeps from `old` to `new`: the
/// parsed arena, and everything already in the core arena and in the errors.
pub open spec fn appends(old: &PrismEnv, new: &PrismEnv) -> bool {
    &&& new.arena_wf()
    &&& new.parsed_wf()
    &&& new.parsed_values == old.parsed_values
    &&& new.parsed_spans == old.parsed_spans
    &&& is_prefix(old.checked_values@, new.checked_values@)
    &&& is_prefix(old.checked_origins@, new.checked_origins@)
    &&& is_prefix(old.errors@, new.errors@)
}

pub(crate) proof fn lemma_appends_refl(a: &PrismEnv)
    requires
        a.arena_wf(),
        a.parsed_wf(),
    ensures
        appends(a, a),
{
    assert(a.checked_values@.subrange(0, a.checked_values@.len() as int) =~= a.checked_values@);
    assert(a.checked_origins@.subrange(0, a.checked_origins@.len() as int) =~= a.checked_origins@);
    assert(a.errors@.subrange(0, a.errors@.len() as int) =~= a.errors@);
}

pub(crate) proof fn lemma_appends_trans(a: &PrismEnv, b: &PrismEnv, c: &PrismEnv)
    requires
        appends(a, b),
        appends(b, c),
    ensures
        appends(a, c),
{
    lemma_prefix_trans(a.checked_values@, b.checked_values@, c.checked_values@);
    lemma_prefix_trans(a.checked_origins@, b.checked_origins@, c.checked_origins@);
    lemma_prefix_trans(a.errors@, b.errors@, c.errors@);
}

/// The name that stands for no variable.
pub open spec fn wildcard() -> Seq<char> {
    seq!['_']
}

/// The only change is the new value `e`, stored at the end and returned as `r`.
pub open spec fn stored(old: &PrismEnv, new: &PrismEnv, e: CorePrismExpr, r: CoreIndex) -> bool {
    &&& new.checked_values@ == old.checked_values@.push(e)
    &&& new.errors == old.errors
    &&& r.0 == old.checked_values@.len()
}

/// A free value stands at `r`, the end of the arena, in place of a name that refers to
/// nothing; the error `UnknownName` of the name's span is recorded.
pub open spec fn unknown(old: &PrismEnv, new: &PrismEnv, span: Span, r: CoreIndex) -> bool {
    &&& new.checked_values@ == old.checked_values@.push(CorePrismExpr::Free)
    &&& new.errors@ == old.errors@.push(PrismError::TypeError(TypeError::UnknownName(span)))
    &&& r.0 == old.checked_values@.len()
}

/// A copy of the values a grammar captured.
fn copy_captured(v: &Vec<(String, ParsedValue)>) -> (r: Vec<(String, ParsedValue)>)
    ensures
        captured_view(r@) == captured_view(v@),
{
    let mut out: Vec<(String, ParsedValue)> = Vec::new();
    let mut i: usize = 0;
    while i < v.len()
        invariant
            i <= v@.len(),
            captured_view(out@) == captured_view(v@).take(i as int),
        decreases v@.len() - i,
    {
        let value = match &v[i].1 {
            ParsedValue::Expr(p) => ParsedValue::Expr(*p),
            ParsedValue::Name(n) => ParsedValue::Name(n.clone()),
        };
        let ghost before = out@;
        out.push((v[i].0.clone(), value));
        assert(captured_view(out@) =~= captured_view(v@).take(i + 1)) by {
            assert(out@ == before.push(out@.last()));
            assert(captured_view(out@) =~= captured_view(before).push(captured_view(out@).last()));
        }
        i += 1;
    }
    assert(captured_view(v@).take(i as int) =~= captured_view(v@));
    out
}

/// The scope of an expression written in a grammar, built from the names in scope where
/// the grammar was defined and the values the grammar captured.
fn shift_env(
    env: &NamedEnv,
    old_names: &NamesEnv,
    captured_env: &Vec<(String, ParsedValue)>,
    adapt_env_len: usize,
) -> (r: NamedEnv)
    ensures
        r@ == shifted_env(env@, old_names@, captured_view(captured_env@), adapt_env_len),
{
    let ghost old = old_names@;
    let mut names = NamesEnv::new();
    let mut k: usize = 0;
    while k < old_names.entries.len()
        invariant
            k <= old_names.entries@.len(),
            old == old_names@,
            old.len() == old_names.entries@.len(),
            names@ == grammar_names(old, adapt_env_len, k as nat),
        decreases old_names.entries@.len() - k,
    {
        assert(old[k as int] == (old_names.entries@[k as int].0@, old_names.entries@[k as int].1@));
        match &old_names.entries[k].1 {
            NamesEntry::FromEnv(p) => {
                names = names.insert(
                    old_names.entries[k].0.clone(),
                    NamesEntry::FromGrammarEnv {
                        grammar_env_len: old_names.entries.len(),
                        adapt_env_len,
                        prev_env_len: *p,
                    },
                );
            },
            // Only variables of the scope can be reached from a grammar
            _ => {},
        }
        k += 1;
    }
    let ghost c = captured_view(captured_env@);
    let ghost target = captured_names(names@, c, env@.names, c.len());
    let mut k: usize = captured_env.len();
    while k > 0
        invariant
            k <= captured_env@.len(),
            c == captured_view(captured_env@),
            c.len() == captured_env@.len(),
            captured_names(names@, c, env@.names, k as nat) == target,
        decreases k,
    {
        let value = match &captured_env[k - 1].1 {
            ParsedValue::Expr(p) => ParsedValue::Expr(*p),
            ParsedValue::Name(n) => ParsedValue::Name(n.clone()),
        };
        assert(c[k - 1] == (captured_env@[k - 1].0@, parsed_value_view(captured_env@[k - 1].1)));
        names = names.insert(
            captured_env[k - 1].0.clone(),
            NamesEntry::FromParsed(value, env.names.copy()),
        );
        k -= 1;
    }
    let r = NamedEnv { env_len: env.env_len, names, hygienic_names: Vec::new() };
    assert(r@.hygienic_names =~= Seq::<(Seq<char>, usize)>::empty());
    r
}

impl PrismEnv {
    /// Stores a core value built from the parsed value at a source span.
    fn store_at(&mut self, e: CorePrismExpr, span: Span) -> (r: CoreIndex)
        requires
            old(self).arena_wf(),
            old(self).parsed_wf(),
        ensures
            appends(old(self), final(self)),
            stored(old(self), final(self), e, r),
            final(self).checked_origins@ == old(self).checked_origins@.push(ValueOrigin::SourceCode(span)),
    {
        let r = self.store_checked(e, ValueOrigin::SourceCode(span));
        proof {
            assert(self.checked_values@.subrange(0, old(self).checked_values@.len() as int)
                =~= old(self).checked_values@);
            assert(self.checked_origins@.subrange(0, old(self).checked_origins@.len() as int)
                =~= old(self).checked_origins@);
            assert(self.errors@.subrange(0, old(self).errors@.len() as int) =~= old(self).errors@);
        }
        r
    }

    /// Records an error.
    fn push_error(&mut self, e: PrismError)
        requires
            old(self).arena_wf(),
            old(self).parsed_wf(),
        ensures
            appends(old(self), final(self)),
            final(self).checked_values == old(self).checked_values,
            final(self).checked_origins == old(self).checked_origins,
            final(self).errors@ == old(self).errors@.push(e),
    {
        self.errors.push(e);
        proof {
            assert(self.checked_values@.subrange(0, old(self).checked_values@.len() as int)
                =~= old(self).checked_values@);
            assert(self.checked_origins@.subrange(0, old(self).checked_origins@.len() as int)
                =~= old(self).checked_origins@);
            assert(self.errors@.subrange(0, old(self).errors@.len() as int) =~= old(self).errors@);
        }
    }

    /// Records that the name at `span` refers to nothing, and stands a free value in its place.
    fn unknown_name(&mut self, span: Span) -> (r: CoreIndex)
        requires
            old(self).arena_wf(),
            old(self).parsed_wf(),
        ensures
            appends(old(self), final(self)),
            final(self).checked_values@ == old(self).checked_values@.push(CorePrismExpr::Free),
            final(self).errors@ == old(self).errors@.push(
                PrismError::TypeError(TypeError::UnknownName(span)),
            ),
            r.0 == old(self).checked_values@.len(),
            final(self).checked_origins@ == old(self).checked_origins@.push(ValueOrigin::SourceCode(span)),
    {
        let ghost s0 = *self;
        self.push_error(PrismError::TypeError(TypeError::UnknownName(span)));
        let ghost s1 = *self;
        let r = self.store_checked(CorePrismExpr::Free, ValueOrigin::SourceCode(span));
        proof {
            assert(self.checked_values@.subrange(0, s1.checked_values@.len() as int)
                =~= s1.checked_values@);
            assert(self.checked_origins@.subrange(0, s1.checked_origins@.len() as int)
                =~= s1.checked_origins@);
            assert(self.errors@.subrange(0, s1.errors@.len() as int) =~= s1.errors@);
            lemma_appends_trans(&s0, &s1, self);
        }
        r
    }

    /// Builds the body of a grammar defined in a scope of `env_len` variables: a function
    /// of `f` that applies `f` to the variables and the grammar, as a `T`.
    fn build_grammar_body(&mut self, env_len: usize, g: crate::lang::GrammarId, span: Span) -> (r: CoreIndex)
        requires
            old(self).arena_wf(),
            old(self).parsed_wf(),
            env_len < RECURSION_LIMIT,
        ensures
            appends(old(self), final(self)),
            final(self).errors == old(self).errors,
            old(self).checked_values@.len() <= r.0 < final(self).checked_values@.len(),
            read_back(final(self).checked_values@, r.0 as int) == CTree::FnConstruct(
                Box::new(
                    CTree::TypeAssert(
                        Box::new(
                            CTree::FnDestruct(
                                Box::new(scope_apps(env_len as nat)),
                                Box::new(CTree::GrammarValue(g)),
                            ),
                        ),
                        Box::new(CTree::DeBruijnIndex(1)),
                    ),
                ),
            ),
    {
        let ghost s0 = *self;
        let mut e = self.store_at(CorePrismExpr::DeBruijnIndex(0), span);
        let mut k: usize = 0;
        while k < env_len
            invariant
                k <= env_len,
                env_len < RECURSION_LIMIT,
                appends(&s0, self),
                self.errors == s0.errors,
                s0.checked_values@.len() <= e.0 < self.checked_values@.len(),
                read_back(self.checked_values@, e.0 as int) == scope_apps(k as nat),
            decreases env_len - k,
        {
            let ghost sk = *self;
            // +2 to skip `T` and `f`
            let v = self.store_at(CorePrismExpr::DeBruijnIndex(k + 2), span);
            let ghost sv = *self;
            let e2 = self.store_at(CorePrismExpr::FnDestruct(e, v), span);
            proof {
                lemma_appends_trans(&sk, &sv, self);
                lemma_appends_trans(&s0, &sk, self);
                lemma_read_back_prefix(sk.checked_values@, self.checked_values@, e.0 as int);
                lemma_read_back_prefix(sv.checked_values@, self.checked_values@, v.0 as int);
            }
            e = e2;
            k += 1;
        }
        let ghost s2 = *self;
        let g2 = self.store_at(CorePrismExpr::GrammarValue(g), span);
        let ghost s3 = *self;
        let e3 = self.store_at(CorePrismExpr::FnDestruct(e, g2), span);
        let ghost s4 = *self;
        let body_type = self.store_at(CorePrismExpr::DeBruijnIndex(1), span);
        let ghost s5 = *self;
        let e5 = self.store_at(CorePrismExpr::TypeAssert(e3, body_type), span);
        let ghost s6 = *self;
        let f = self.store_at(CorePrismExpr::FnConstruct(e5), span);
        proof {
            lemma_appends_trans(&s0, &s2, &s3);
            lemma_appends_trans(&s0, &s3, &s4);
            lemma_appends_trans(&s0, &s4, &s5);
            lemma_appends_trans(&s0, &s5, &s6);
            lemma_appends_trans(&s0, &s6, self);
            lemma_appends_trans(&s2, &s3, &s4);
            lemma_appends_trans(&s4, &s5, &s6);
            lemma_read_back_prefix(s2.checked_values@, s4.checked_values@, e.0 as int);
            lemma_read_back_prefix(s3.checked_values@, s4.checked_values@, g2.0 as int);
            lemma_read_back_prefix(s4.checked_values@, s6.checked_values@, e3.0 as int);
            lemma_read_back_prefix(s5.checked_values@, s6.checked_values@, body_type.0 as int);
            lemma_read_back_prefix(s6.checked_values@, self.checked_values@, e5.0 as int);
        }
        f
    }

    /// Builds the parts of a reference to a variable of the scope where a grammar was
    /// defined: the grammar's function applied to a free return type, and the function
    /// that picks the variable out of the grammar's scope.
    fn build_grammar_ref(
        &mut self,
        env_len: usize,
        gl: usize,
        adapt: usize,
        prev: usize,
        span: Span,
    ) -> (r: (CoreIndex, CoreIndex))
        requires
            old(self).arena_wf(),
            old(self).parsed_wf(),
            1 <= adapt <= env_len,
            prev < usize::MAX,
        ensures
            appends(old(self), final(self)),
            final(self).errors == old(self).errors,
            r.0.0 < final(self).checked_values@.len(),
            r.1.0 < final(self).checked_values@.len(),
            read_back(final(self).checked_values@, r.0.0 as int) == CTree::FnDestruct(
                Box::new(CTree::DeBruijnIndex((env_len - adapt) as usize)),
                Box::new(CTree::Free),
            ),
            read_back(final(self).checked_values@, r.1.0 as int) == constructs(
                (gl + 1) as nat,
                CTree::DeBruijnIndex((prev + 1) as usize),
            ),
    {
        let ghost s0 = *self;
        let adapt_env_len = adapt - 1;
        let grammar_expr = self.store_at(CorePrismExpr::DeBruijnIndex(env_len - adapt_env_len - 1), span);
        let ghost s1 = *self;
        let e = self.store_at(CorePrismExpr::DeBruijnIndex(prev + 1), span);
        let ghost s2 = *self;
        let mut e = self.store_at(CorePrismExpr::FnConstruct(e), span);
        proof {
            lemma_appends_trans(&s0, &s1, &s2);
            lemma_appends_trans(&s0, &s2, self);
            lemma_appends_trans(&s1, &s2, self);
            lemma_read_back_prefix(s1.checked_values@, self.checked_values@, grammar_expr.0 as int);
            lemma_read_back_prefix(s2.checked_values@, self.checked_values@, (e.0 - 1) as int);
            assert(constructs(1, CTree::DeBruijnIndex((prev + 1) as usize)) == CTree::FnConstruct(
                Box::new(constructs(0, CTree::DeBruijnIndex((prev + 1) as usize))),
            ));
        }
        let mut k: usize = 0;
        while k < gl
            invariant
                k <= gl,
                appends(&s0, self),
                self.errors == s0.errors,
                grammar_expr.0 < e.0 < self.checked_values@.len(),
                read_back(self.checked_values@, grammar_expr.0 as int) == CTree::DeBruijnIndex(
                    (env_len - adapt) as usize,
                ),
                read_back(self.checked_values@, e.0 as int) == constructs(
                    (k + 1) as nat,
                    CTree::DeBruijnIndex((prev + 1) as usize),
                ),
            decreases gl - k,
        {
            let ghost sk = *self;
            let e2 = self.store_at(CorePrismExpr::FnConstruct(e), span);
            proof {
                lemma_appends_trans(&s0, &sk, self);
                lemma_read_back_prefix(sk.checked_values@, self.checked_values@, e.0 as int);
                lemma_read_back_prefix(sk.checked_values@, self.checked_values@, grammar_expr.0 as int);
            }
            e = e2;
            k += 1;
        }
        let ghost s3 = *self;
        let free_return_type = self.store_at(CorePrismExpr::Free, span);
        let ghost s4 = *self;
        let ge = self.store_at(CorePrismExpr::FnDestruct(grammar_expr, free_return_type), span);
        proof {
            lemma_appends_trans(&s0, &s3, &s4);
            lemma_appends_trans(&s0, &s4, self);
            lemma_appends_trans(&s3, &s4, self);
            lemma_read_back_prefix(s3.checked_values@, self.checked_values@, grammar_expr.0 as int);
            lemma_read_back_prefix(s3.checked_values@, self.checked_values@, e.0 as int);
            lemma_read_back_prefix(s4.checked_values@, self.checked_values@, free_return_type.0 as int);
        }
        (ge, e)
    }

    /// Turns the parsed expression at `i` into a core expression: names are resolved to de
    /// Bruijn indices, and the expressions of user grammars are given their meaning. Errors
    /// are recorded in `errors`.
    pub fn parsed_to_checked(&mut self, i: ParsedIndex) -> (r: CoreIndex)
        requires
            old(self).arena_wf(),
            old(self).parsed_wf(),
        ensures
            appends(old(self), final(self)),
            match p2c(
                old(self).parsed_values@,
                old(self).parsed_spans@,
                old(self).checked_values@,
                SNamedEnv { env_len: 0, names: Seq::empty(), hygienic_names: Seq::empty() },
                Map::empty(),
                i,
                RECURSION_LIMIT as nat,
            ) {
                Some(o) => r.0 < final(self).checked_values@.len() && read_back(
                    final(self).checked_values@,
                    r.0 as int,
                ) == o.tree && final(self).errors@ == old(self).errors@ + o.errors,
                None => true,
            },
            p2c_span(
                old(self).parsed_values@,
                old(self).parsed_spans@,
                SNamedEnv { env_len: 0, names: Seq::empty(), hygienic_names: Seq::empty() },
                Map::empty(),
                i,
                RECURSION_LIMIT as nat,
            ) matches Some(sp) ==> old(self).checked_values@.len() <= r.0
                && r.0 < final(self).checked_origins@.len()
                && final(self).checked_origins@[r.0 as int] == ValueOrigin::SourceCode(sp),
    {
        let env = NamedEnv::new();
        let mut jump_labels: HashMap<usize, NamesEnv> = HashMap::new();
        proof {
            assert(env@ == SNamedEnv { env_len: 0, names: Seq::empty(), hygienic_names: Seq::empty() });
            assert(labels_view(jump_labels@) =~= Map::<usize, SNames>::empty());
        }
        self.parsed_to_checked_with_env(i, &env, &mut jump_labels, 0)
    }

    /// Turns the parsed expression at `i` into a core expression in the scope `env`.
    /// `jump_labels` holds, for each grammar defined so far, the names in scope where it
    /// was defined.
    #[verifier::rlimit(100)]
    #[verifier::spinoff_prover]
    pub(crate) fn parsed_to_checked_with_env(
        &mut self,
        i: ParsedIndex,
        env: &NamedEnv,
        jump_labels: &mut HashMap<usize, NamesEnv>,
        depth: usize,
    ) -> (r: CoreIndex)
        requires
            old(self).arena_wf(),
            old(self).parsed_wf(),
            env@.env_len <= depth,
            depth <= RECURSION_LIMIT,
        ensures
            appends(old(self), final(self)),
            match p2c(
                old(self).parsed_values@,
                old(self).parsed_spans@,
                old(self).checked_values@,
                env@,
                labels_view(old(jump_labels)@),
                i,
                (RECURSION_LIMIT - depth) as nat,
            ) {
                Some(o) => r.0 < final(self).checked_values@.len() && read_back(
                    final(self).checked_values@,
                    r.0 as int,
                ) == o.tree && final(self).errors@ == old(self).errors@ + o.errors && labels_view(
                    final(jump_labels)@,
                ) == o.labels,
                None => true,
            },
            p2c_span(
                old(self).parsed_values@,
                old(self).parsed_spans@,
                env@,
                labels_view(old(jump_labels)@),
                i,
                (RECURSION_LIMIT - depth) as nat,
            ) matches Some(sp) ==> old(self).checked_values@.len() <= r.0
                && r.0 < final(self).checked_origins@.len()
                && final(self).checked_origins@[r.0 as int] == ValueOrigin::SourceCode(sp),
        decreases RECURSION_LIMIT - depth,
    {
        let ghost s0 = *self;
        let ghost l0 = labels_view(jump_labels@);
        let ghost pv = self.parsed_values@;
        let ghost spans = self.parsed_spans@;
        let ghost base = self.checked_values@;
        let ghost fuel = (RECURSION_LIMIT - depth) as nat;
        proof {
            lemma_appends_refl(&s0);
        }
        if i.0 >= self.parsed_values.len() || depth >= RECURSION_LIMIT {
            let span = Span { file: 0, start: 0, end: 0 };
            let f = self.store_at(CorePrismExpr::Free, span);
            let ghost s1 = *self;
            if depth >= RECURSION_LIMIT {
                self.push_error(PrismError::TypeError(TypeError::RecursionLimit(f, f)));
            } else {
                self.push_error(PrismError::TypeError(TypeError::IndexOutOfBound(f)));
            }
            proof {
                lemma_appends_trans(&s0, &s1, self);
            }
            return f;
        }
        let ghost f = (fuel - 1) as nat;
        let span = self.parsed_spans[i.0];
        match &self.parsed_values[i.0] {
            ParsedPrismExpr::Free => {
                let r = self.store_at(CorePrismExpr::Free, span);
                proof {
                    assert(self.errors@ =~= s0.errors@ + Seq::<PrismError>::empty());
                }
                r
            },
            ParsedPrismExpr::Type => {
                let r = self.store_at(CorePrismExpr::Type, span);
                proof {
                    assert(self.errors@ =~= s0.errors@ + Seq::<PrismError>::empty());
                }
                r
            },
            ParsedPrismExpr::GrammarType => {
                let r = self.store_at(CorePrismExpr::GrammarType, span);
                proof {
                    assert(self.errors@ =~= s0.errors@ + Seq::<PrismError>::empty());
                }
                r
            },
            ParsedPrismExpr::Let(n, v, b) => {
                let n = n.clone();
                let (v, b) = (*v, *b);
                let ghost en = spec_insert_name(env@, n@);
                let vc = self.parsed_to_checked_with_env(v, env, jump_labels, depth + 1);
                let ghost s1 = *self;
                let benv = env.insert_name(n.as_str());
                let bc = self.parsed_to_checked_with_env(b, &benv, jump_labels, depth + 1);
                let ghost s2 = *self;
                let r = self.store_at(CorePrismExpr::Let(vc, bc), span);
                proof {
                    lemma_appends_trans(&s0, &s1, &s2);
                    lemma_appends_trans(&s0, &s2, self);
                    lemma_appends_trans(&s1, &s2, self);
                    if let Some(o1) = p2c(pv, spans, base, env@, l0, v, f) {
                        if p2c(pv, spans, base, en, o1.labels, b, f) is Some {
                            lemma_p2c_base(pv, spans, base, s1.checked_values@, en, o1.labels, b, f);
                            lemma_read_back_prefix(s1.checked_values@, self.checked_values@, vc.0 as int);
                            lemma_read_back_prefix(s2.checked_values@, self.checked_values@, bc.0 as int);
                            let o2 = p2c(pv, spans, base, en, o1.labels, b, f)->0;
                            assert(self.errors@ =~= s0.errors@ + (o1.errors + o2.errors));
                        }
                    }
                }
                r
            },
            ParsedPrismExpr::FnType(n, a, b) => {
                let n = n.clone();
                let (a, b) = (*a, *b);
                let ghost en = spec_insert_name(env@, n@);
                let ac = self.parsed_to_checked_with_env(a, env, jump_labels, depth + 1);
                let ghost s1 = *self;
                let benv = env.insert_name(n.as_str());
                let bc = self.parsed_to_checked_with_env(b, &benv, jump_labels, depth + 1);
                let ghost s2 = *self;
                let r = self.store_at(CorePrismExpr::FnType(ac, bc), span);
                proof {
                    lemma_appends_trans(&s0, &s1, &s2);
                    lemma_appends_trans(&s0, &s2, self);
                    lemma_appends_trans(&s1, &s2, self);
                    if let Some(o1) = p2c(pv, spans, base, env@, l0, a, f) {
                        if p2c(pv, spans, base, en, o1.labels, b, f) is Some {
                            lemma_p2c_base(pv, spans, base, s1.checked_values@, en, o1.labels, b, f);
                            lemma_read_back_prefix(s1.checked_values@, self.checked_values@, ac.0 as int);
                            lemma_read_back_prefix(s2.checked_values@, self.checked_values@, bc.0 as int);
                            let o2 = p2c(pv, spans, base, en, o1.labels, b, f)->0;
                            assert(self.errors@ =~= s0.errors@ + (o1.errors + o2.errors));
                        }
                    }
                }
                r
            },
            ParsedPrismExpr::FnConstruct(n, b) => {
                let n = n.clone();
                let b = *b;
                let benv = env.insert_name(n.as_str());
                let bc = self.parsed_to_checked_with_env(b, &benv, jump_labels, depth + 1);
                let ghost s1 = *self;
                let r = self.store_at(CorePrismExpr::FnConstruct(bc), span);
                proof {
                    lemma_appends_trans(&s0, &s1, self);
                    if p2c(pv, spans, base, spec_insert_name(env@, n@), l0, b, f) is Some {
                        lemma_read_back_prefix(s1.checked_values@, self.checked_values@, bc.0 as int);
                    }
                }
                r
            },
            ParsedPrismExpr::FnDestruct(a, b) => {
                let (a, b) = (*a, *b);
                let ac = self.parsed_to_checked_with_env(a, env, jump_labels, depth + 1);
                let ghost s1 = *self;
                let bc = self.parsed_to_checked_with_env(b, env, jump_labels, depth + 1);
                let ghost s2 = *self;
                let r = self.store_at(CorePrismExpr::FnDestruct(ac, bc), span);
                proof {
                    lemma_appends_trans(&s0, &s1, &s2);
                    lemma_appends_trans(&s0, &s2, self);
                    lemma_appends_trans(&s1, &s2, self);
                    if let Some(o1) = p2c(pv, spans, base, env@, l0, a, f) {
                        if p2c(pv, spans, base, env@, o1.labels, b, f) is Some {
                            lemma_p2c_base(pv, spans, base, s1.checked_values@, env@, o1.labels, b, f);
                            lemma_read_back_prefix(s1.checked_values@, self.checked_values@, ac.0 as int);
                            lemma_read_back_prefix(s2.checked_values@, self.checked_values@, bc.0 as int);
                            let o2 = p2c(pv, spans, base, env@, o1.labels, b, f)->0;
                            assert(self.errors@ =~= s0.errors@ + (o1.errors + o2.errors));
                        }
                    }
                }
                r
            },
            ParsedPrismExpr::TypeAssert(a, b) => {
                let (a, b) = (*a, *b);
                let ac = self.parsed_to_checked_with_env(a, env, jump_labels, depth + 1);
                let ghost s1 = *self;
                let bc = self.parsed_to_checked_with_env(b, env, jump_labels, depth + 1);
                let ghost s2 = *self;
                let r = self.store_at(CorePrismExpr::TypeAssert(ac, bc), span);
                proof {
                    lemma_appends_trans(&s0, &s1, &s2);
                    lemma_appends_trans(&s0, &s2, self);
                    lemma_appends_trans(&s1, &s2, self);
                    if let Some(o1) = p2c(pv, spans, base, env@, l0, a, f) {
                        if p2c(pv, spans, base, env@, o1.labels, b, f) is Some {
                            lemma_p2c_base(pv, spans, base, s1.checked_values@, env@, o1.labels, b, f);
                            lemma_read_back_prefix(s1.checked_values@, self.checked_values@, ac.0 as int);
                            lemma_read_back_prefix(s2.checked_values@, self.checked_values@, bc.0 as int);
                            let o2 = p2c(pv, spans, base, env@, o1.labels, b, f)->0;
                            assert(self.errors@ =~= s0.errors@ + (o1.errors + o2.errors));
                        }
                    }
                }
                r
            },
            ParsedPrismExpr::Name(name) => {
                let name = name.clone();
                proof {
                    reveal_strlit("_");
                }
                assert("_"@ == wildcard());
                if str_eq(name.as_str(), "_") {
                    // `_` stands for no variable, so it cannot be used
                    let r = self.unknown_name(span);
                    proof {
                        assert(self.errors@ =~= s0.errors@ + seq![PrismError::TypeError(TypeError::UnknownName(span))]);
                    }
                    return r;
                }
                match env.resolve_name_use(name.as_str()) {
                    Some(NamesEntry::FromEnv(prev_env_len)) => {
                        if *prev_env_len >= env.len() {
                            let r = self.unknown_name(span);
                            proof {
                                assert(self.errors@ =~= s0.errors@ + seq![PrismError::TypeError(TypeError::UnknownName(span))]);
                            }
                            return r;
                        }
                        let r = self.store_at(
                            CorePrismExpr::DeBruijnIndex(env.len() - *prev_env_len - 1),
                            span,
                        );
                        proof {
                            assert(self.errors@ =~= s0.errors@ + Seq::<PrismError>::empty());
                        }
                        r
                    },
                    Some(
                        NamesEntry::FromGrammarEnv { grammar_env_len, adapt_env_len, prev_env_len },
                    ) => {
                        if *adapt_env_len == 0 || *adapt_env_len > env.len() || *prev_env_len
                            == usize::MAX {
                            let r = self.unknown_name(span);
                            proof {
                                assert(self.errors@ =~= s0.errors@ + seq![PrismError::TypeError(TypeError::UnknownName(span))]);
                            }
                            return r;
                        }
                        let (ge, e) = self.build_grammar_ref(
                            env.len(),
                            *grammar_env_len,
                            *adapt_env_len,
                            *prev_env_len,
                            span,
                        );
                        let ghost s1 = *self;
                        let r = self.store_at(CorePrismExpr::FnDestruct(ge, e), span);
                        proof {
                            lemma_appends_trans(&s0, &s1, self);
                            lemma_read_back_prefix(s1.checked_values@, self.checked_values@, ge.0 as int);
                            lemma_read_back_prefix(s1.checked_values@, self.checked_values@, e.0 as int);
                            assert(self.errors@ =~= s0.errors@ + Seq::<PrismError>::empty());
                        }
                        r
                    },
                    Some(NamesEntry::FromParsed(ParsedValue::Expr(expr), old_names)) => {
                        let new_env = env.shift_back(old_names);
                        assert(new_env@.env_len == env@.env_len) by {
                            lemma_rebind_len(
                                SNamedEnv {
                                    env_len: env.env_len,
                                    names: old_names@,
                                    hygienic_names: Seq::empty(),
                                },
                                crate::parser::named_env::hygienic_view(env.hygienic_names@),
                            );
                        }
                        self.parsed_to_checked_with_env(*expr, &new_env, jump_labels, depth + 1)
                    },
                    Some(NamesEntry::FromParsed(ParsedValue::Name(_), _)) => {
                        // A captured name is no expression
                        let r = self.unknown_name(span);
                        proof {
                            assert(self.errors@ =~= s0.errors@ + seq![PrismError::TypeError(TypeError::UnknownName(span))]);
                        }
                        r
                    },
                    None => {
                        let r = self.unknown_name(span);
                        proof {
                            assert(self.errors@ =~= s0.errors@ + seq![PrismError::TypeError(TypeError::UnknownName(span))]);
                        }
                        r
                    },
                }
            },
            ParsedPrismExpr::GrammarValue(grammar) => {
                let grammar = *grammar;
                let ghost jl_before = jump_labels@;
                env.insert_shift_label(grammar, jump_labels);
                proof {
                    assert(labels_view(jump_labels@) =~= l0.insert(grammar.0, env@.names)) by {
                        assert forall|k: usize| #[trigger] labels_view(jump_labels@).contains_key(k)
                            == l0.insert(grammar.0, env@.names).contains_key(k) by {}
                        assert forall|k: usize| labels_view(jump_labels@).contains_key(k) implies #[trigger] labels_view(
                            jump_labels@,
                        )[k] == l0.insert(grammar.0, env@.names)[k] by {
                            if k != grammar.0 {
                                assert(jump_labels@[k] == jl_before[k]);
                            }
                        }
                    }
                }
                // Create \T: Type. \f. ((f [env0] [env1] grammar ...): T)
                let fbody = self.build_grammar_body(env.len(), grammar, span);
                let ghost s1 = *self;
                let r = self.store_at(CorePrismExpr::FnConstruct(fbody), span);
                proof {
                    lemma_appends_trans(&s0, &s1, self);
                    lemma_read_back_prefix(s1.checked_values@, self.checked_values@, fbody.0 as int);
                    assert(self.errors@ =~= s0.errors@ + Seq::<PrismError>::empty());
                }
                r
            },
            ParsedPrismExpr::ShiftTo { expr, captured_env, adapt_env_len, grammar } => {
                let expr = *expr;
                let adapt_env_len = *adapt_env_len;
                let grammar = *grammar;
                let captured_env = copy_captured(captured_env);
                let new_env = match jump_labels.get(&grammar.0) {
                    Some(old_names) => shift_env(env, old_names, &captured_env, adapt_env_len),
                    None => {
                        // The grammar was not defined in an enclosing expression
                        let r = self.unknown_name(span);
                        proof {
                            assert(self.errors@ =~= s0.errors@ + seq![PrismError::TypeError(TypeError::UnknownName(span))]);
                        }
                        return r;
                    },
                };
                self.parsed_to_checked_with_env(expr, &new_env, jump_labels, depth + 1)
            },
            ParsedPrismExpr::Include(_, v) => {
                proof {
                    assert(self.errors@ =~= s0.errors@ + Seq::<PrismError>::empty());
                }
                *v
            },
        }
    }
}

/// Binding names again leaves the size of the core scope as it is.
proof fn lemma_rebind_len(
    base: crate::parser::named_env::SNamedEnv,
    h: Seq<(Seq<char>, usize)>,
)
    ensures
        crate::parser::named_env::spec_rebind(base, h).env_len == base.env_len,
    decreases h.len(),
{
    if h.len() > 0 {
        lemma_rebind_len(
            crate::parser::named_env::spec_insert_name_at(base, h.last().0, h.last().1),
            h.drop_last(),
        );
    }
}

/// The scope after binding each name of `ms` in turn, the first one outermost.
pub open spec fn insert_names(e: SNamedEnv, ms: Seq<Seq<char>>) -> SNamedEnv
    decreases ms.len(),
{
    if ms.len() == 0 {
        e
    } else {
        insert_names(spec_insert_name(e, ms[0]), ms.drop_first())
    }
}

/// Binding names one after the other adds one variable each, and a name that none of them
/// is keeps what it refers to.
proof fn lemma_insert_names(e: SNamedEnv, ms: Seq<Seq<char>>, name: Seq<char>)
    requires
        e.env_len + ms.len() <= usize::MAX,
        forall|j: int| 0 <= j < ms.len() ==> ms[j] != name,
    ensures
        insert_names(e, ms).env_len == e.env_len + ms.len(),
        lookup(insert_names(e, ms).names, name) == lookup(e.names, name),
    decreases ms.len(),
{
    if ms.len() > 0 {
        let e1 = spec_insert_name(e, ms[0]);
        assert(ms[0] != name);
        assert(e1.names.drop_last() =~= e.names);
        assert(last_named(e1.names, name) == last_named(e.names, name));
        crate::parser::named_env::lemma_last_named_bounds(e.names, name);
        assert(lookup(e1.names, name) == lookup(e.names, name));
        assert forall|j: int| 0 <= j < ms.drop_first().len() implies ms.drop_first()[j] != name by {
            assert(ms.drop_first()[j] == ms[j + 1]);
        }
        lemma_insert_names(e1, ms.drop_first(), name);
    }
}

/// A name refers to the binder that bound it last. Where `name` was bound and then the
/// names of `ms`, none of them `name`, a use of `name` becomes the variable whose index
/// is the number of binders that stand between: the length of `ms`.
pub proof fn lemma_name_resolves_to_its_binder(
    pv: Seq<ParsedPrismExpr>,
    spans: Seq<Span>,
    base: Seq<CorePrismExpr>,
    env: SNamedEnv,
    labels: Map<usize, SNames>,
    i: ParsedIndex,
    fuel: nat,
    name: Seq<char>,
    ms: Seq<Seq<char>>,
)
    requires
        fuel > 0,
        i.0 < pv.len(),
        (pv[i.0 as int] matches ParsedPrismExpr::Name(s) && s@ == name),
        name != wildcard(),
        forall|j: int| 0 <= j < ms.len() ==> ms[j] != name,
        env.env_len + ms.len() < usize::MAX,
    ensures
        p2c(pv, spans, base, insert_names(spec_insert_name(env, name), ms), labels, i, fuel)
            == leaf_out(CTree::DeBruijnIndex(ms.len() as usize), labels),
{
    let e1 = spec_insert_name(env, name);
    assert(e1.names.last().0 == name);
    assert(lookup(e1.names, name) == Some(SNamesEntry::FromEnv(env.env_len)));
    lemma_insert_names(e1, ms, name);
}

/// `i` is a row of function constructs that bind the names of `names`, the first one
/// outermost, around the expression at `j`.
pub open spec fn binder_chain(
    pv: Seq<ParsedPrismExpr>,
    i: ParsedIndex,
    names: Seq<Seq<char>>,
    j: ParsedIndex,
) -> bool
    decreases names.len(),
{
    if names.len() == 0 {
        i == j
    } else {
        &&& i.0 < pv.len()
        &&& pv[i.0 as int] is FnConstruct
        &&& pv[i.0 as int]->FnConstruct_0@ == names[0]
        &&& binder_chain(pv, pv[i.0 as int]->FnConstruct_1, names.drop_first(), j)
    }
}

/// `k` function constructs around the tree of an outcome.
pub open spec fn wrap_constructs(k: nat, o: Option<P2c>) -> Option<P2c> {
    match o {
        None => None,
        Some(o) => Some(P2c { tree: constructs(k, o.tree), labels: o.labels, errors: o.errors }),
    }
}

/// A row of function constructs becomes as many function constructs around what their
/// body becomes in the scope with their names bound.
proof fn lemma_p2c_chain(
    pv: Seq<ParsedPrismExpr>,
    spans: Seq<Span>,
    base: Seq<CorePrismExpr>,
    env: SNamedEnv,
    labels: Map<usize, SNames>,
    i: ParsedIndex,
    names: Seq<Seq<char>>,
    j: ParsedIndex,
    fuel: nat,
)
    requires
        binder_chain(pv, i, names, j),
        names.len() <= fuel,
    ensures
        p2c(pv, spans, base, env, labels, i, fuel) == wrap_constructs(
            names.len(),
            p2c(pv, spans, base, insert_names(env, names), labels, j, (fuel - names.len()) as nat),
        ),
    decreases names.len(),
{
    if names.len() > 0 {
        let b = pv[i.0 as int]->FnConstruct_1;
        lemma_p2c_chain(
            pv,
            spans,
            base,
            spec_insert_name(env, names[0]),
            labels,
            b,
            names.drop_first(),
            j,
            (fuel - 1) as nat,
        );
    }
}

/// A name refers to the binder that bound it last: in a row of function constructs that
/// bind `name` and then the names of `ms`, none of them `name`, around a use of `name`,
/// the use becomes the variable whose index is the number of binders that stand between
/// it and its binder.
pub proof fn lemma_bound_name_resolves(
    pv: Seq<ParsedPrismExpr>,
    spans: Seq<Span>,
    base: Seq<CorePrismExpr>,
    env: SNamedEnv,
    labels: Map<usize, SNames>,
    i: ParsedIndex,
    j: ParsedIndex,
    fuel: nat,
    name: Seq<char>,
    ms: Seq<Seq<char>>,
)
    requires
        binder_chain(pv, i, seq![name] + ms, j),
        j.0 < pv.len(),
        (pv[j.0 as int] matches ParsedPrismExpr::Name(s) && s@ == name),
        name != wildcard(),
        forall|k: int| 0 <= k < ms.len() ==> ms[k] != name,
        env.env_len + ms.len() < usize::MAX,
        ms.len() + 2 <= fuel,
    ensures
        p2c(pv, spans, base, env, labels, i, fuel) == leaf_out(
            constructs(ms.len() + 1, CTree::DeBruijnIndex(ms.len() as usize)),
            labels,
        ),
{
    let names = seq![name] + ms;
    lemma_p2c_chain(pv, spans, base, env, labels, i, names, j, fuel);
    assert(names[0] == name);
    assert(names.drop_first() =~= ms);
    assert(insert_names(env, names) == insert_names(spec_insert_name(env, name), ms));
    lemma_name_resolves_to_its_binder(
        pv,
        spans,
        base,
        env,
        labels,
        j,
        (fuel - ms.len() - 1) as nat,
        name,
        ms,
    );
}

} // verus!
