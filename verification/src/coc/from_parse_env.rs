use crate::coc::{PartialExpr, TcEnv, UnionIndex};
use crate::desugar::{Guid, ParseEnv, ParseIndex, SourceExpr};
use crate::lang::error::TypeError;
use crate::lang::{Span, ValueOrigin};
use crate::text::str_eq;
use vstd::prelude::*;

verus! {

/// A scope as the model sees it: the names in scope with the depth at which each was
/// bound (latest last), the names remembered for jumps by scope identity (latest last),
/// and the depth of the scope.
pub struct SScope {
    pub names: Seq<(Seq<char>, usize)>,
    pub named: Seq<(Guid, Seq<(Seq<char>, usize)>)>,
    pub depth: usize,
}

/// The scope of the root: nothing bound.
pub open spec fn empty_scope() -> SScope {
    SScope { names: Seq::empty(), named: Seq::empty(), depth: 0 }
}

/// The model of a list of names with their depths.
pub open spec fn names_view(v: Seq<(String, usize)>) -> Seq<(Seq<char>, usize)> {
    v.map_values(|p: (String, usize)| (p.0@, p.1))
}

/// The model of the remembered scopes.
pub open spec fn named_view(v: Seq<(Guid, Vec<(String, usize)>)>) -> Seq<(Guid, Seq<(Seq<char>, usize)>)> {
    v.map_values(|p: (Guid, Vec<(String, usize)>)| (p.0, names_view(p.1@)))
}

/// The depth at which `key` was last bound.
pub open spec fn name_lookup(names: Seq<(Seq<char>, usize)>, key: Seq<char>) -> Option<usize>
    decreases names.len(),
{
    if names.len() == 0 {
        None
    } else if names.last().0 == key {
        Some(names.last().1)
    } else {
        name_lookup(names.drop_last(), key)
    }
}

/// The names last remembered under `g`.
pub open spec fn named_lookup(named: Seq<(Guid, Seq<(Seq<char>, usize)>)>, g: Guid) -> Option<
    Seq<(Seq<char>, usize)>,
>
    decreases named.len(),
{
    if named.len() == 0 {
        None
    } else if named.last().0 == g {
        Some(named.last().1)
    } else {
        named_lookup(named.drop_last(), g)
    }
}

/// The scope with `key` bound one level deeper (the depth stops at `usize::MAX`).
pub open spec fn scope_insert_name(s: SScope, key: Seq<char>) -> SScope {
    SScope {
        names: s.names.push((key, s.depth)),
        named: s.named,
        depth: if s.depth < usize::MAX {
            (s.depth + 1) as usize
        } else {
            s.depth
        },
    }
}

/// The scope that remembers its names under `g`.
pub open spec fn scope_insert_jump(s: SScope, g: Guid) -> SScope {
    SScope { named: s.named.push((g, s.names)), ..s }
}

/// The scope with the names remembered under `g`; one that remembers none keeps its names.
pub open spec fn scope_jump(s: SScope, g: Guid) -> SScope {
    match named_lookup(s.named, g) {
        Some(n) => SScope { names: n, ..s },
        None => s,
    }
}

/// The variables in scope with the depth at which each was bound, the scopes that were
/// marked to be jumped back to, and the depth of the scope.
struct Scope {
    names: Vec<(String, usize)>,
    named_scopes: Vec<(Guid, Vec<(String, usize)>)>,
    depth: usize,
}

impl View for Scope {
    type V = SScope;

    closed spec fn view(&self) -> SScope {
        SScope {
            names: names_view(self.names@),
            named: named_view(self.named_scopes@),
            depth: self.depth,
        }
    }
}

/// A copy of a list of names with their depths.
fn copy_names(v: &Vec<(String, usize)>) -> (r: Vec<(String, usize)>)
    ensures
        r@ == v@,
        names_view(r@) == names_view(v@),
{
    let mut h: Vec<(String, usize)> = Vec::new();
    let mut i: usize = 0;
    while i < v.len()
        invariant
            i <= v@.len(),
            h@ == v@.take(i as int),
        decreases v@.len() - i,
    {
        h.push((v[i].0.clone(), v[i].1));
        assert(h@ =~= v@.take(i + 1));
        i += 1;
    }
    assert(v@.take(i as int) =~= v@);
    h
}

impl Scope {
    fn new() -> (r: Scope)
        ensures
            r@ == empty_scope(),
    {
        let r = Scope { names: Vec::new(), named_scopes: Vec::new(), depth: 0 };
        assert(r@.names =~= Seq::<(Seq<char>, usize)>::empty());
        assert(r@.named =~= Seq::<(Guid, Seq<(Seq<char>, usize)>)>::empty());
        r
    }

    fn copy(&self) -> (r: Scope)
        ensures
            r@ == self@,
    {
        let mut named: Vec<(Guid, Vec<(String, usize)>)> = Vec::new();
        let mut i: usize = 0;
        while i < self.named_scopes.len()
            invariant
                i <= self.named_scopes@.len(),
                named@.len() == i,
                forall|j: int|
                    0 <= j < i ==> (#[trigger] named@[j]).0 == self.named_scopes@[j].0
                        && named@[j].1@ == self.named_scopes@[j].1@,
            decreases self.named_scopes@.len() - i,
        {
            let c = copy_names(&self.named_scopes[i].1);
            named.push((self.named_scopes[i].0, c));
            i += 1;
        }
        let r = Scope { names: copy_names(&self.names), named_scopes: named, depth: self.depth };
        assert(named_view(named@) =~= named_view(self.named_scopes@)) by {
            assert forall|j: int| 0 <= j < i implies #[trigger] named_view(named@)[j]
                == named_view(self.named_scopes@)[j] by {
                assert(named@[j].1@ == self.named_scopes@[j].1@);
            }
        }
        r
    }

    /// The scope with `key` bound one level deeper.
    fn insert_name(&self, key: &str) -> (r: Scope)
        ensures
            r@ == scope_insert_name(self@, key@),
    {
        let mut s = self.copy();
        s.names.push((key.to_owned(), self.depth));
        // The depth cannot pass the number of expressions, far below this bound
        if s.depth < usize::MAX {
            s.depth = s.depth + 1;
        }
        assert(s@.names =~= scope_insert_name(self@, key@).names);
        s
    }

    /// The scope that remembers its names under `guid`.
    fn insert_jump(&self, guid: Guid) -> (r: Scope)
        ensures
            r@ == scope_insert_jump(self@, guid),
    {
        let mut s = self.copy();
        s.named_scopes.push((guid, copy_names(&self.names)));
        assert(s@.named =~= scope_insert_jump(self@, guid).named);
        s
    }

    /// The scope with the names remembered under `guid`; a scope that was never marked
    /// keeps its names.
    fn jump(&self, guid: Guid) -> (r: Scope)
        ensures
            r@ == scope_jump(self@, guid),
    {
        let mut s = self.copy();
        let ghost nv = named_view(self.named_scopes@);
        let mut k: usize = self.named_scopes.len();
        assert(nv.subrange(0, k as int) =~= nv);
        while k > 0
            invariant
                k <= self.named_scopes@.len(),
                nv == named_view(self.named_scopes@),
                s@ == self@,
                named_lookup(nv.subrange(0, k as int), guid) == named_lookup(nv, guid),
            decreases k,
        {
            assert(nv.subrange(0, k as int).drop_last() =~= nv.subrange(0, k - 1));
            if self.named_scopes[k - 1].0 == guid {
                s.names = copy_names(&self.named_scopes[k - 1].1);
                assert(s@ =~= scope_jump(self@, guid));
                return s;
            }
            k -= 1;
        }
        s
    }

    /// The depth at which `name` was last bound.
    fn get(&self, name: &str) -> (r: Option<usize>)
        ensures
            r == name_lookup(self@.names, name@),
    {
        let ghost nv = self@.names;
        let mut k: usize = self.names.len();
        assert(nv.subrange(0, k as int) =~= nv);
        while k > 0
            invariant
                k <= self.names@.len(),
                nv == names_view(self.names@),
                name_lookup(nv.subrange(0, k as int), name@) == name_lookup(nv, name@),
            decreases k,
        {
            assert(nv.subrange(0, k as int).drop_last() =~= nv.subrange(0, k - 1));
            if str_eq(self.names[k - 1].0.as_str(), name) {
                return Some(self.names[k - 1].1);
            }
            k -= 1;
        }
        None
    }
}

/// The children of a source expression.
pub open spec fn children(e: SourceExpr) -> Seq<ParseIndex> {
    match e {
        SourceExpr::Let(_, v, b) => seq![v, b],
        SourceExpr::FnType(_, a, b) => seq![a, b],
        SourceExpr::FnConstruct(_, a, b) => seq![a, b],
        SourceExpr::FnDestruct(a, b) => seq![a, b],
        SourceExpr::ScopeDefine(v, _) => seq![v],
        SourceExpr::ScopeEnter(v, _) => seq![v],
        SourceExpr::ScopeExit(v) => seq![v],
        _ => seq![],
    }
}

/// Every child of every expression of the arena is in the arena.
pub open spec fn children_in_arena(values: Seq<SourceExpr>) -> bool {
    forall|k: int, c: int|
        0 <= k < values.len() && 0 <= c < children(values[k]).len() ==> #[trigger] children(
            values[k],
        )[c].pos() < values.len()
}

/// The partial expression that a source expression becomes when the arena it is copied
/// into starts at `start`; a variable is left out, as it depends on the scope.
pub open spec fn partial_of(e: SourceExpr, start: int) -> Option<PartialExpr> {
    let at = |p: ParseIndex| UnionIndex((p.pos() + start) as usize);
    match e {
        SourceExpr::Type => Some(PartialExpr::Type),
        SourceExpr::Let(_, v, b) => Some(PartialExpr::Let(at(v), at(b))),
        SourceExpr::FnType(_, a, b) => Some(PartialExpr::FnType(at(a), at(b))),
        SourceExpr::FnConstruct(_, a, b) => Some(PartialExpr::FnConstruct(at(a), at(b))),
        SourceExpr::FnDestruct(a, b) => Some(PartialExpr::FnDestruct(at(a), at(b))),
        SourceExpr::ScopeDefine(v, _) => Some(PartialExpr::Shift(at(v), 0)),
        SourceExpr::ScopeEnter(v, _) => Some(PartialExpr::Shift(at(v), 0)),
        _ => None,
    }
}

/// The scope that the expression `e`, checked in scope `s`, passes on to its child at
/// `c`; when `c` is two of its children, the later one decides.
pub open spec fn child_scope(e: SourceExpr, s: SScope, c: int) -> Option<SScope> {
    match e {
        SourceExpr::Let(n, v, b) => if b.pos() == c {
            Some(scope_insert_name(s, n@))
        } else if v.pos() == c {
            Some(s)
        } else {
            None
        },
        SourceExpr::FnType(n, v, b) => if b.pos() == c {
            Some(scope_insert_name(s, n@))
        } else if v.pos() == c {
            Some(s)
        } else {
            None
        },
        SourceExpr::FnConstruct(n, v, b) => if b.pos() == c {
            Some(scope_insert_name(s, n@))
        } else if v.pos() == c {
            Some(s)
        } else {
            None
        },
        SourceExpr::FnDestruct(f, a) => if a.pos() == c || f.pos() == c {
            Some(s)
        } else {
            None
        },
        SourceExpr::ScopeDefine(v, g) => if v.pos() == c {
            Some(scope_insert_jump(s, g))
        } else {
            None
        },
        SourceExpr::ScopeEnter(v, g) => if v.pos() == c {
            Some(scope_jump(s, g))
        } else {
            None
        },
        _ => None,
    }
}

/// The scope of the expression at `c`, as passed on by the first expression from `lo`
/// up to `root` that has it as a child; the empty scope if none has.
pub open spec fn scope_from(values: Seq<SourceExpr>, root: int, c: int, lo: int) -> SScope
    decreases root + 1 - lo,
{
    if lo > root || lo < 0 || lo >= values.len() {
        empty_scope()
    } else {
        match child_scope(values[lo], scope_from(values, root, lo, lo + 1), c) {
            Some(s) => s,
            None => scope_from(values, root, c, lo + 1),
        }
    }
}

/// The scope in which the expression at `c` is checked, when the expressions up to
/// `root` are copied: the one its nearest parent after it passes on.
pub open spec fn scope_of(values: Seq<SourceExpr>, root: int, c: int) -> SScope {
    scope_from(values, root, c, c + 1)
}

/// What a variable named `name` becomes in scope `s`, and whether it is bound nowhere:
/// `_` is a free value, a bound name the de Bruijn index of its binding.
pub open spec fn variable_outcome(s: SScope, name: Seq<char>) -> (PartialExpr, bool) {
    if name == "_"@ {
        (PartialExpr::Free, false)
    } else {
        match name_lookup(s.names, name) {
            Some(d) => if d < s.depth {
                (PartialExpr::Var((s.depth - d - 1) as usize), false)
            } else {
                (PartialExpr::Free, true)
            },
            None => (PartialExpr::Free, true),
        }
    }
}

/// What the expression at `k` becomes in the copy of the expressions up to `root` that
/// starts at `start`.
pub open spec fn copied_at(values: Seq<SourceExpr>, root: int, k: int, start: int) -> PartialExpr {
    match values[k] {
        SourceExpr::Variable(n) => variable_outcome(scope_of(values, root, k), n@).0,
        _ => partial_of(values[k], start)->0,
    }
}

/// Whether the expression at `k` is a name bound nowhere.
pub open spec fn unknown_at(values: Seq<SourceExpr>, root: int, k: int) -> bool {
    match values[k] {
        SourceExpr::Variable(n) => variable_outcome(scope_of(values, root, k), n@).1,
        _ => false,
    }
}

/// The errors found while copying the expressions from `root` down to `i`, in that order:
/// one `UnknownName` for each name bound nowhere.
pub open spec fn copy_errors(values: Seq<SourceExpr>, spans: Seq<Span>, root: int, i: int) -> Seq<
    TypeError,
>
    decreases root + 1 - i,
{
    if i > root || i < 0 {
        Seq::empty()
    } else {
        let prev = copy_errors(values, spans, root, i + 1);
        if unknown_at(values, root, i) {
            prev.push(TypeError::UnknownName(spans[i]))
        } else {
            prev
        }
    }
}

impl TcEnv {
    /// Copies the source expressions up to `root` into the arena, with names turned into
    /// de Bruijn indices in the scope that each expression's nearest parent passes on. A
    /// name that is bound nowhere becomes a free value and is recorded as
    /// `TypeError::UnknownName`. Returns the index of `root`.
    #[verifier::rlimit(80)]
    pub fn insert_parse_env(&mut self, parse_env: &ParseEnv, root: ParseIndex) -> (r: UnionIndex)
        requires
            parse_env.wf(),
            root.pos() < parse_env.spec_values().len(),
            children_in_arena(parse_env.spec_values()),
            old(self).values@.len() == old(self).value_origins@.len(),
            old(self).values@.len() + parse_env.spec_values().len() <= usize::MAX,
            forall|k: int|
                0 <= k <= root.pos() ==> !(#[trigger] parse_env.spec_values()[k] is ScopeExit),
        ensures
            r.0 == old(self).values@.len() + root.pos(),
            final(self).values@.len() == final(self).value_origins@.len(),
            final(self).values@.len() == old(self).values@.len() + root.pos() + 1,
            final(self).values@.subrange(0, old(self).values@.len() as int) == old(self).values@,
            final(self).value_origins@.subrange(0, old(self).values@.len() as int)
                == old(self).value_origins@,
            final(self).errors@ == old(self).errors@ + copy_errors(
                parse_env.spec_values(),
                parse_env.spec_spans(),
                root.pos() as int,
                0,
            ),
            forall|k: int|
                0 <= k <= root.pos() ==> {
                    &&& final(self).value_origins@[old(self).values@.len() + k]
                        == ValueOrigin::SourceCode(parse_env.spec_spans()[k])
                    &&& #[trigger] final(self).values@[old(self).values@.len() + k] == copied_at(
                        parse_env.spec_values(),
                        root.pos() as int,
                        k,
                        old(self).values@.len() as int,
                    )
                },
    {
        let values = parse_env.values();
        let spans = parse_env.value_spans();
        proof {
            parse_env.lemma_wf_lengths();
        }
        let n = values.len();
        let ghost vals = values@;
        let ghost root_i = root.pos() as int;
        let mut scopes: Vec<Scope> = Vec::new();
        let mut k: usize = 0;
        while k < n
            invariant
                k <= n,
                scopes@.len() == k,
                forall|c: int| 0 <= c < k ==> (#[trigger] scopes@[c])@ == empty_scope(),
            decreases n - k,
        {
            scopes.push(Scope::new());
            k += 1;
        }
        let start = self.values.len();
        let take_count = root.index() + 1;
        let ghost old_values = self.values@;
        let ghost old_origins = self.value_origins@;
        let ghost old_errors = self.errors@;
        let mut k: usize = 0;
        while k < take_count
            invariant
                k <= take_count,
                take_count <= n,
                start == old_values.len(),
                old_values.len() == old_origins.len(),
                self.values@.len() == start + k,
                self.value_origins@.len() == start + k,
                self.values@.subrange(0, start as int) == old_values,
                self.value_origins@.subrange(0, start as int) == old_origins,
                self.errors@ == old_errors,
            decreases take_count - k,
        {
            self.values.push(PartialExpr::Free);
            self.value_origins.push(ValueOrigin::Failure);
            assert(self.values@.subrange(0, start as int) =~= old_values);
            assert(self.value_origins@.subrange(0, start as int) =~= old_origins);
            k += 1;
        }
        let mut i: usize = take_count;
        proof {
            assert forall|c: int| 0 <= c < i implies (#[trigger] scopes@[c])@ == scope_from(
                vals,
                root_i,
                c,
                i as int,
            ) by {}
            assert(old_errors + copy_errors(vals, spans@, root_i, i as int) =~= old_errors);
        }
        while i > 0
            invariant
                i <= take_count,
                take_count == root.pos() + 1,
                root_i == root.pos(),
                take_count <= n,
                n == values@.len(),
                n == spans@.len(),
                vals == values@,
                values@ == parse_env.spec_values(),
                spans@ == parse_env.spec_spans(),
                children_in_arena(values@),
                start == old_values.len(),
                start + n <= usize::MAX,
                scopes@.len() == n - (take_count - i),
                self.values@.len() == start + take_count,
                self.value_origins@.len() == start + take_count,
                self.values@.subrange(0, start as int) == old_values,
                self.value_origins@.subrange(0, start as int) == old_origins,
                self.errors@ == old_errors + copy_errors(vals, spans@, root_i, i as int),
                forall|k: int| 0 <= k <= root.pos() ==> !(#[trigger] values@[k] is ScopeExit),
                forall|c: int|
                    0 <= c < i ==> (#[trigger] scopes@[c])@ == scope_from(vals, root_i, c, i as int),
                forall|k: int|
                    i <= k < take_count ==> {
                        &&& self.value_origins@[start + k] == ValueOrigin::SourceCode(spans@[k])
                        &&& #[trigger] self.values@[start + k] == copied_at(vals, root_i, k, start as int)
                    },
            decreases i,
        {
            i -= 1;
            let ghost before = self.values@;
            let ghost scopes0 = scopes@;
            let ghost si = scopes@[i as int]@;
            let ghost errors0 = self.errors@;
            assert(si == scope_of(vals, root_i, i as int));
            self.value_origins.set(start + i, ValueOrigin::SourceCode(spans[i]));
            let e = match &values[i] {
                SourceExpr::Type => PartialExpr::Type,
                SourceExpr::Let(name, value, body) => {
                    assert(children(values@[i as int])[0] == *value);
                    assert(children(values@[i as int])[1] == *body);
                    if value.index() < scopes.len() {
                        let s = scopes[i].copy();
                        scopes.set(value.index(), s);
                    }
                    if body.index() < scopes.len() {
                        let s = scopes[i].insert_name(name.as_str());
                        scopes.set(body.index(), s);
                    }
                    PartialExpr::Let(UnionIndex(value.index() + start), UnionIndex(body.index() + start))
                },
                SourceExpr::Variable(name) => {
                    proof {
                        reveal_strlit("_");
                    }
                    if str_eq(name.as_str(), "_") {
                        PartialExpr::Free
                    } else {
                        match scopes[i].get(name.as_str()) {
                            Some(depth) => {
                                if depth < scopes[i].depth {
                                    PartialExpr::Var(scopes[i].depth - depth - 1)
                                } else {
                                    self.errors.push(TypeError::UnknownName(spans[i]));
                                    PartialExpr::Free
                                }
                            },
                            None => {
                                self.errors.push(TypeError::UnknownName(spans[i]));
                                PartialExpr::Free
                            },
                        }
                    }
                },
                SourceExpr::FnType(name, arg_type, return_type) => {
                    assert(children(values@[i as int])[0] == *arg_type);
                    assert(children(values@[i as int])[1] == *return_type);
                    if arg_type.index() < scopes.len() {
                        let s = scopes[i].copy();
                        scopes.set(arg_type.index(), s);
                    }
                    if return_type.index() < scopes.len() {
                        let s = scopes[i].insert_name(name.as_str());
                        scopes.set(return_type.index(), s);
                    }
                    PartialExpr::FnType(
                        UnionIndex(arg_type.index() + start),
                        UnionIndex(return_type.index() + start),
                    )
                },
                SourceExpr::FnConstruct(name, arg_type, body) => {
                    assert(children(values@[i as int])[0] == *arg_type);
                    assert(children(values@[i as int])[1] == *body);
                    if arg_type.index() < scopes.len() {
                        let s = scopes[i].copy();
                        scopes.set(arg_type.index(), s);
                    }
                    if body.index() < scopes.len() {
                        let s = scopes[i].insert_name(name.as_str());
                        scopes.set(body.index(), s);
                    }
                    PartialExpr::FnConstruct(
                        UnionIndex(arg_type.index() + start),
                        UnionIndex(body.index() + start),
                    )
                },
                SourceExpr::FnDestruct(function, arg) => {
                    assert(children(values@[i as int])[0] == *function);
                    assert(children(values@[i as int])[1] == *arg);
                    if function.index() < scopes.len() {
                        let s = scopes[i].copy();
                        scopes.set(function.index(), s);
                    }
                    if arg.index() < scopes.len() {
                        let s = scopes[i].copy();
                        scopes.set(arg.index(), s);
                    }
                    PartialExpr::FnDestruct(
                        UnionIndex(function.index() + start),
                        UnionIndex(arg.index() + start),
                    )
                },
                SourceExpr::ScopeDefine(v, guid) => {
                    assert(children(values@[i as int])[0] == *v);
                    if v.index() < scopes.len() {
                        let s = scopes[i].insert_jump(*guid);
                        scopes.set(v.index(), s);
                    }
                    PartialExpr::Shift(UnionIndex(v.index() + start), 0)
                },
                SourceExpr::ScopeEnter(v, guid) => {
                    assert(children(values@[i as int])[0] == *v);
                    if v.index() < scopes.len() {
                        let s = scopes[i].jump(*guid);
                        scopes.set(v.index(), s);
                    }
                    PartialExpr::Shift(UnionIndex(v.index() + start), 0)
                },
                SourceExpr::ScopeExit(_) => {
                    assert(false);
                    PartialExpr::Free
                },
            };
            proof {
                assert(e == copied_at(vals, root_i, i as int, start as int));
                assert(self.errors@ =~= old_errors + copy_errors(vals, spans@, root_i, i as int));
                assert forall|c: int| 0 <= c < i implies (#[trigger] scopes@[c])@ == scope_from(
                    vals,
                    root_i,
                    c,
                    i as int,
                ) by {
                    assert(scopes0[c]@ == scope_from(vals, root_i, c, i + 1));
                    match child_scope(vals[i as int], si, c) {
                        Some(cs) => assert(scopes@[c]@ == cs),
                        None => assert(scopes@[c]@ == scopes0[c]@),
                    }
                }
            }
            self.values.set(start + i, e);
            scopes.pop();
            proof {
                assert(self.values@.subrange(0, start as int) =~= old_values);
                assert(self.value_origins@.subrange(0, start as int) =~= old_origins);
                assert forall|k: int| i <= k < take_count implies #[trigger] self.values@[start + k]
                    == (if k == i {
                    e
                } else {
                    before[start + k]
                }) by {}
            }
        }
        proof {
            assert forall|k: int| 0 <= k <= root.pos() implies #[trigger] self.values@[start + k]
                == copied_at(vals, root_i, k, start as int) by {
                assert(self.values@[start + k] == copied_at(vals, root_i, k, start as int));
            }
        }
        UnionIndex(root.index() + start)
    }
}

} // verus!
