use crate::desugar::{Guid, ParseEnv, ParseIndex, SourceExpr};
use crate::lang::Span;
use crate::lang::tree::{is_prefix, lemma_prefix_trans};
use crate::text::str_eq;
use vstd::prelude::*;

verus! {

/// What the grammar's actions produce: constructors applied to arguments, scopes that
/// bind names to results, names with their text, and fresh identities.
#[derive(Debug)]
pub enum ActionResult {
    Construct(Span, String, Vec<ActionResult>),
    WithEnv(Vec<(String, ActionResult)>, Box<ActionResult>),
    Value(Span, String),
    Guid(usize),
}

/// The most nested action results that are turned into source expressions.
pub const ACTION_DEPTH_LIMIT: usize = 4096;

/// The names bound in `vars` with what they are bound to, as the model sees them.
pub open spec fn vars_view(vars: Seq<(&str, &ActionResult)>) -> Seq<(Seq<char>, ActionResult)> {
    vars.map_values(|p: (&str, &ActionResult)| (p.0@, *p.1))
}

/// The latest binding of `name` in `vars`.
pub open spec fn spec_lookup(vars: Seq<(Seq<char>, ActionResult)>, name: Seq<char>) -> Option<
    ActionResult,
>
    decreases vars.len(),
{
    if vars.len() == 0 {
        None
    } else if vars.last().0 == name {
        Some(vars.last().1)
    } else {
        spec_lookup(vars.drop_last(), name)
    }
}

/// The latest binding of `name` in `vars`.
fn lookup<'a>(vars: &Vec<(&'a str, &'a ActionResult)>, name: &str) -> (r: Option<&'a ActionResult>)
    ensures
        match spec_lookup(vars_view(vars@), name@) {
            Some(v) => r matches Some(w) && *w == v,
            None => r is None,
        },
{
    let ghost vv = vars_view(vars@);
    let mut k: usize = vars.len();
    assert(vv.subrange(0, k as int) =~= vv);
    while k > 0
        invariant
            k <= vars@.len(),
            vv == vars_view(vars@),
            spec_lookup(vv.subrange(0, k as int), name@) == spec_lookup(vv, name@),
        decreases k,
    {
        assert(vv.subrange(0, k as int).drop_last() =~= vv.subrange(0, k - 1));
        if str_eq(vars[k - 1].0, name) {
            return Some(vars[k - 1].1);
        }
        k -= 1;
    }
    None
}

/// A source expression as a tree, each node with the span it was parsed from.
pub enum STree {
    Type(Span),
    Let(Span, Seq<char>, Box<STree>, Box<STree>),
    Variable(Span, Seq<char>),
    FnType(Span, Seq<char>, Box<STree>, Box<STree>),
    FnConstruct(Span, Seq<char>, Box<STree>, Box<STree>),
    FnDestruct(Span, Box<STree>, Box<STree>),
    ScopeDefine(Span, Box<STree>, Guid),
    ScopeEnter(Span, Box<STree>, Guid),
    ScopeExit(Span, Box<STree>),
}

/// The tree at `i`: `None` when a node below it does not stand below its parent in the
/// arena.
pub open spec fn source_tree(values: Seq<SourceExpr>, spans: Seq<Span>, i: int) -> Option<STree>
    decreases i,
{
    if i < 0 || i >= values.len() || i >= spans.len() {
        None
    } else {
        let sp = spans[i];
        match values[i] {
            SourceExpr::Type => Some(STree::Type(sp)),
            SourceExpr::Variable(n) => Some(STree::Variable(sp, n@)),
            SourceExpr::Let(n, a, b) => if a.pos() < i && b.pos() < i {
                match (source_tree(values, spans, a.pos() as int), source_tree(values, spans, b.pos() as int)) {
                    (Some(ta), Some(tb)) => Some(STree::Let(sp, n@, Box::new(ta), Box::new(tb))),
                    _ => None,
                }
            } else {
                None
            },
            SourceExpr::FnType(n, a, b) => if a.pos() < i && b.pos() < i {
                match (source_tree(values, spans, a.pos() as int), source_tree(values, spans, b.pos() as int)) {
                    (Some(ta), Some(tb)) => Some(STree::FnType(sp, n@, Box::new(ta), Box::new(tb))),
                    _ => None,
                }
            } else {
                None
            },
            SourceExpr::FnConstruct(n, a, b) => if a.pos() < i && b.pos() < i {
                match (source_tree(values, spans, a.pos() as int), source_tree(values, spans, b.pos() as int)) {
                    (Some(ta), Some(tb)) => Some(
                        STree::FnConstruct(sp, n@, Box::new(ta), Box::new(tb)),
                    ),
                    _ => None,
                }
            } else {
                None
            },
            SourceExpr::FnDestruct(a, b) => if a.pos() < i && b.pos() < i {
                match (source_tree(values, spans, a.pos() as int), source_tree(values, spans, b.pos() as int)) {
                    (Some(ta), Some(tb)) => Some(STree::FnDestruct(sp, Box::new(ta), Box::new(tb))),
                    _ => None,
                }
            } else {
                None
            },
            SourceExpr::ScopeDefine(a, g) => if a.pos() < i {
                match source_tree(values, spans, a.pos() as int) {
                    Some(ta) => Some(STree::ScopeDefine(sp, Box::new(ta), g)),
                    None => None,
                }
            } else {
                None
            },
            SourceExpr::ScopeEnter(a, g) => if a.pos() < i {
                match source_tree(values, spans, a.pos() as int) {
                    Some(ta) => Some(STree::ScopeEnter(sp, Box::new(ta), g)),
                    None => None,
                }
            } else {
                None
            },
            SourceExpr::ScopeExit(a) => if a.pos() < i {
                match source_tree(values, spans, a.pos() as int) {
                    Some(ta) => Some(STree::ScopeExit(sp, Box::new(ta))),
                    None => None,
                }
            } else {
                None
            },
        }
    }
}

/// The name that `value` stands for: the text of a name, followed through the names
/// bound in `vars` while the results are nested less deep than `ACTION_DEPTH_LIMIT`; the
/// empty name for a result that is no name.
pub open spec fn spec_parse_name(
    value: ActionResult,
    vars: Seq<(Seq<char>, ActionResult)>,
    depth: nat,
) -> Seq<char>
    decreases ACTION_DEPTH_LIMIT - depth,
{
    match value {
        ActionResult::Value(_, name) => if depth < ACTION_DEPTH_LIMIT {
            match spec_lookup(vars, name@) {
                Some(bound) => spec_parse_name(bound, vars, depth + 1),
                None => name@,
            }
        } else {
            name@
        },
        _ => Seq::empty(),
    }
}

/// The bindings of `vars` followed by those of `new_vars`.
pub open spec fn extend_vars(
    vars: Seq<(Seq<char>, ActionResult)>,
    new_vars: Seq<(String, ActionResult)>,
) -> Seq<(Seq<char>, ActionResult)> {
    vars + new_vars.map_values(|p: (String, ActionResult)| (p.0@, p.1))
}

/// The source tree that an action result stands for, with the names bound in `vars`
/// (latest last) standing for the results they are bound to, inside a scope exit. `None`
/// where the result is no expression, for a constructor the language does not have or
/// arguments it does not take, and when the results are nested deeper than
/// `ACTION_DEPTH_LIMIT`.
pub open spec fn desugar(value: ActionResult, vars: Seq<(Seq<char>, ActionResult)>, depth: nat) -> Option<
    STree,
>
    decreases ACTION_DEPTH_LIMIT - depth,
{
    if depth >= ACTION_DEPTH_LIMIT {
        None
    } else {
        match value {
            ActionResult::Construct(span, c, args) => {
                let n = args@.len();
                if c@ == "Type"@ && n == 0 {
                    Some(STree::Type(span))
                } else if (c@ == "Let"@ || c@ == "FnType"@ || c@ == "FnConstruct"@) && n == 3 {
                    let name = spec_parse_name(args@[0], vars, depth + 1);
                    match (desugar(args@[1], vars, depth + 1), desugar(args@[2], vars, depth + 1)) {
                        (Some(a), Some(b)) => Some(
                            if c@ == "Let"@ {
                                STree::Let(span, name, Box::new(a), Box::new(b))
                            } else if c@ == "FnType"@ {
                                STree::FnType(span, name, Box::new(a), Box::new(b))
                            } else {
                                STree::FnConstruct(span, name, Box::new(a), Box::new(b))
                            },
                        ),
                        _ => None,
                    }
                } else if c@ == "FnDestruct"@ && n == 2 {
                    match (desugar(args@[0], vars, depth + 1), desugar(args@[1], vars, depth + 1)) {
                        (Some(a), Some(b)) => Some(STree::FnDestruct(span, Box::new(a), Box::new(b))),
                        _ => None,
                    }
                } else if (c@ == "ScopeDefine"@ || c@ == "ScopeEnter"@) && n == 2 {
                    match (desugar(args@[0], vars, depth + 1), args@[1]) {
                        (Some(a), ActionResult::Guid(g)) => Some(
                            if c@ == "ScopeDefine"@ {
                                STree::ScopeDefine(span, Box::new(a), Guid(g))
                            } else {
                                STree::ScopeEnter(span, Box::new(a), Guid(g))
                            },
                        ),
                        _ => None,
                    }
                } else {
                    None
                }
            },
            ActionResult::WithEnv(new_vars, ar) => desugar(
                *ar,
                extend_vars(vars, new_vars@),
                depth + 1,
            ),
            ActionResult::Value(span, name) => match spec_lookup(vars, name@) {
                Some(bound) => match desugar(bound, vars, depth + 1) {
                    Some(t) => Some(STree::ScopeExit(span, Box::new(t))),
                    None => None,
                },
                None => Some(STree::Variable(span, name@)),
            },
            ActionResult::Guid(_) => None,
        }
    }
}

/// Growing the arena does not change the source trees already in it.
pub proof fn lemma_source_tree_prefix(
    sv: Seq<SourceExpr>,
    ss: Seq<Span>,
    bv: Seq<SourceExpr>,
    bs: Seq<Span>,
    i: int,
)
    requires
        is_prefix(sv, bv),
        is_prefix(ss, bs),
        source_tree(sv, ss, i) is Some,
    ensures
        source_tree(bv, bs, i) == source_tree(sv, ss, i),
    decreases i,
{
    assert(bv[i] == sv[i]);
    assert(bs[i] == ss[i]);
    match sv[i] {
        SourceExpr::Let(_, a, b) | SourceExpr::FnType(_, a, b) | SourceExpr::FnConstruct(_, a, b)
        | SourceExpr::FnDestruct(a, b) => {
            lemma_source_tree_prefix(sv, ss, bv, bs, a.pos() as int);
            lemma_source_tree_prefix(sv, ss, bv, bs, b.pos() as int);
        },
        SourceExpr::ScopeDefine(a, _) | SourceExpr::ScopeEnter(a, _) | SourceExpr::ScopeExit(a) => {
            lemma_source_tree_prefix(sv, ss, bv, bs, a.pos() as int);
        },
        _ => {},
    }
}

impl ParseEnv {
    /// Turns an action result into source expressions, stored with their spans; the result
    /// reads back as `desugar` of it, with the names bound in `vars` (latest last). `None`,
    /// exactly where `desugar` is `None`; what was stored before the failure stays.
    #[verifier::rlimit(60)]
    pub fn insert_from_action_result<'a>(
        &mut self,
        value: &'a ActionResult,
        vars: &Vec<(&'a str, &'a ActionResult)>,
        depth: usize,
    ) -> (r: Option<ParseIndex>)
        requires
            old(self).wf(),
        ensures
            final(self).wf(),
            is_prefix(old(self).spec_values(), final(self).spec_values()),
            is_prefix(old(self).spec_spans(), final(self).spec_spans()),
            match desugar(*value, vars_view(vars@), depth as nat) {
                Some(t) => r matches Some(i) && i.pos() + 1 == final(self).spec_values().len()
                    && source_tree(final(self).spec_values(), final(self).spec_spans(), i.pos() as int)
                    == Some(t),
                None => r is None,
            },
        decreases ACTION_DEPTH_LIMIT - depth,
    {
        let ghost v0 = self.spec_values();
        let ghost s0 = self.spec_spans();
        let ghost vv = vars_view(vars@);
        assert(v0.subrange(0, v0.len() as int) =~= v0);
        assert(s0.subrange(0, s0.len() as int) =~= s0);
        if depth >= ACTION_DEPTH_LIMIT {
            return None;
        }
        proof {
            reveal_strlit("Type");
            reveal_strlit("Let");
            reveal_strlit("FnType");
            reveal_strlit("FnConstruct");
            reveal_strlit("FnDestruct");
            reveal_strlit("ScopeDefine");
            reveal_strlit("ScopeEnter");
        }
        match value {
            ActionResult::Construct(span, constructor, args) => {
                let c = constructor.as_str();
                let n = args.len();
                let inner = if str_eq(c, "Type") && n == 0 {
                    SourceExpr::Type
                } else if (str_eq(c, "Let") || str_eq(c, "FnType") || str_eq(c, "FnConstruct"))
                    && n == 3 {
                    let name = parse_name(&args[0], vars, depth + 1);
                    let a = match self.insert_from_action_result(&args[1], vars, depth + 1) {
                        Some(a) => a,
                        None => return None,
                    };
                    let ghost v1 = self.spec_values();
                    let ghost s1 = self.spec_spans();
                    let b = match self.insert_from_action_result(&args[2], vars, depth + 1) {
                        Some(b) => b,
                        None => {
                            proof {
                                lemma_prefix_trans(v0, v1, self.spec_values());
                                lemma_prefix_trans(s0, s1, self.spec_spans());
                            }
                            return None;
                        },
                    };
                    proof {
                        lemma_prefix_trans(v0, v1, self.spec_values());
                        lemma_prefix_trans(s0, s1, self.spec_spans());
                        lemma_source_tree_prefix(v1, s1, self.spec_values(), self.spec_spans(), a.pos() as int);
                    }
                    if str_eq(c, "Let") {
                        SourceExpr::Let(name, a, b)
                    } else if str_eq(c, "FnType") {
                        SourceExpr::FnType(name, a, b)
                    } else {
                        SourceExpr::FnConstruct(name, a, b)
                    }
                } else if str_eq(c, "FnDestruct") && n == 2 {
                    let f = match self.insert_from_action_result(&args[0], vars, depth + 1) {
                        Some(f) => f,
                        None => return None,
                    };
                    let ghost v1 = self.spec_values();
                    let ghost s1 = self.spec_spans();
                    let a = match self.insert_from_action_result(&args[1], vars, depth + 1) {
                        Some(a) => a,
                        None => {
                            proof {
                                lemma_prefix_trans(v0, v1, self.spec_values());
                                lemma_prefix_trans(s0, s1, self.spec_spans());
                            }
                            return None;
                        },
                    };
                    proof {
                        lemma_prefix_trans(v0, v1, self.spec_values());
                        lemma_prefix_trans(s0, s1, self.spec_spans());
                        lemma_source_tree_prefix(v1, s1, self.spec_values(), self.spec_spans(), f.pos() as int);
                    }
                    SourceExpr::FnDestruct(f, a)
                } else if (str_eq(c, "ScopeDefine") || str_eq(c, "ScopeEnter")) && n == 2 {
                    let guid = match &args[1] {
                        ActionResult::Guid(g) => Guid(*g),
                        _ => return None,
                    };
                    let v = match self.insert_from_action_result(&args[0], vars, depth + 1) {
                        Some(v) => v,
                        None => return None,
                    };
                    if str_eq(c, "ScopeDefine") {
                        SourceExpr::ScopeDefine(v, guid)
                    } else {
                        SourceExpr::ScopeEnter(v, guid)
                    }
                } else {
                    return None;
                };
                let ghost v2 = self.spec_values();
                let ghost s2 = self.spec_spans();
                let ghost gi = inner;
                let r = self.store(inner, *span);
                proof {
                    assert(self.spec_values().subrange(0, v2.len() as int) =~= v2);
                    assert(self.spec_spans().subrange(0, s2.len() as int) =~= s2);
                    lemma_prefix_trans(v0, v2, self.spec_values());
                    lemma_prefix_trans(s0, s2, self.spec_spans());
                    match gi {
                        SourceExpr::Let(_, a, b) | SourceExpr::FnType(_, a, b)
                        | SourceExpr::FnConstruct(_, a, b) | SourceExpr::FnDestruct(a, b) => {
                            lemma_source_tree_prefix(v2, s2, self.spec_values(), self.spec_spans(), a.pos() as int);
                            lemma_source_tree_prefix(v2, s2, self.spec_values(), self.spec_spans(), b.pos() as int);
                        },
                        SourceExpr::ScopeDefine(a, _) | SourceExpr::ScopeEnter(a, _) => {
                            lemma_source_tree_prefix(v2, s2, self.spec_values(), self.spec_spans(), a.pos() as int);
                        },
                        _ => {},
                    }
                }
                Some(r)
            },
            ActionResult::WithEnv(new_vars, ar) => {
                let mut extended: Vec<(&'a str, &'a ActionResult)> = Vec::new();
                let mut k: usize = 0;
                while k < vars.len()
                    invariant
                        k <= vars@.len(),
                        vars_view(extended@) =~= vars_view(vars@).subrange(0, k as int),
                    decreases vars@.len() - k,
                {
                    let ghost before = extended@;
                    extended.push(vars[k]);
                    assert(vars_view(extended@) =~= vars_view(before).push(vars_view(vars@)[k as int]));
                    k += 1;
                }
                let ghost added = new_vars@.map_values(|p: (String, ActionResult)| (p.0@, p.1));
                let mut k: usize = 0;
                while k < new_vars.len()
                    invariant
                        k <= new_vars@.len(),
                        added == new_vars@.map_values(|p: (String, ActionResult)| (p.0@, p.1)),
                        vars_view(extended@) =~= vars_view(vars@) + added.subrange(0, k as int),
                    decreases new_vars@.len() - k,
                {
                    let ghost before = extended@;
                    let key = new_vars[k].0.as_str();
                    extended.push((key, &new_vars[k].1));
                    assert(vars_view(extended@) =~= vars_view(before).push(added[k as int]));
                    k += 1;
                }
                assert(added.subrange(0, new_vars@.len() as int) =~= added);
                self.insert_from_action_result(&**ar, &extended, depth + 1)
            },
            ActionResult::Value(span, name) => {
                let v = match lookup(vars, name.as_str()) {
                    Some(bound) => {
                        let inner = match self.insert_from_action_result(bound, vars, depth + 1) {
                            Some(i) => i,
                            None => return None,
                        };
                        SourceExpr::ScopeExit(inner)
                    },
                    None => SourceExpr::Variable(name.clone()),
                };
                let ghost v2 = self.spec_values();
                let ghost s2 = self.spec_spans();
                let ghost gv = v;
                let r = self.store(v, *span);
                proof {
                    assert(self.spec_values().subrange(0, v2.len() as int) =~= v2);
                    assert(self.spec_spans().subrange(0, s2.len() as int) =~= s2);
                    lemma_prefix_trans(v0, v2, self.spec_values());
                    lemma_prefix_trans(s0, s2, self.spec_spans());
                    match gv {
                        SourceExpr::ScopeExit(a) => {
                            lemma_source_tree_prefix(v2, s2, self.spec_values(), self.spec_spans(), a.pos() as int);
                        },
                        _ => {},
                    }
                }
                Some(r)
            },
            ActionResult::Guid(_) => None,
        }
    }
}

/// The name that `value` stands for: the text of a name, followed through the names
/// bound in `vars`.
fn parse_name<'a>(value: &'a ActionResult, vars: &Vec<(&'a str, &'a ActionResult)>, depth: usize) -> (r: String)
    ensures
        r@ == spec_parse_name(*value, vars_view(vars@), depth as nat),
    decreases ACTION_DEPTH_LIMIT - depth,
{
    match value {
        ActionResult::Value(_, name) => {
            if depth < ACTION_DEPTH_LIMIT {
                match lookup(vars, name.as_str()) {
                    Some(bound) => return parse_name(bound, vars, depth + 1),
                    None => {},
                }
            }
            name.clone()
        },
        _ => String::new(),
    }
}

} // verus!
