use crate::lang::GrammarId;
use crate::parser::{ParsedIndex, ParsedValue};
use crate::text::str_eq;
use std::collections::HashMap;
use vstd::prelude::*;

verus! {

broadcast use vstd::std_specs::hash::group_hash_axioms;

/// What a name in scope refers to.
#[derive(Debug)]
pub enum NamesEntry {
    /// A variable of the core scope, bound when the scope had this many entries.
    FromEnv(usize),
    /// A variable of the scope in which a grammar was defined, reached from an expression
    /// written in that grammar.
    FromGrammarEnv { grammar_env_len: usize, adapt_env_len: usize, prev_env_len: usize },
    /// A value that a grammar captured, with the names that were in scope where it was
    /// captured.
    FromParsed(ParsedValue, NamesEnv),
}

/// The names in scope, oldest first; a later entry hides an earlier one of the same name.
#[derive(Debug)]
pub struct NamesEnv {
    pub entries: Vec<(String, NamesEntry)>,
}

/// The scope of names while parsed expressions are turned into core expressions.
#[derive(Debug)]
pub struct NamedEnv {
    /// The number of entries of the core scope.
    pub env_len: usize,
    pub names: NamesEnv,
    /// Names given to variables by the grammar that introduced them, oldest first.
    pub hygienic_names: Vec<(String, usize)>,
}

/// The model of a captured value.
pub enum SParsedValue {
    Expr(ParsedIndex),
    Name(Seq<char>),
}

/// The model of a names entry.
pub enum SNamesEntry {
    FromEnv(usize),
    FromGrammarEnv { grammar_env_len: usize, adapt_env_len: usize, prev_env_len: usize },
    FromParsed(SParsedValue, Seq<(Seq<char>, SNamesEntry)>),
}

/// The model of a named scope.
pub struct SNamedEnv {
    pub env_len: usize,
    pub names: Seq<(Seq<char>, SNamesEntry)>,
    pub hygienic_names: Seq<(Seq<char>, usize)>,
}

pub open spec fn parsed_value_view(v: ParsedValue) -> SParsedValue {
    match v {
        ParsedValue::Expr(p) => SParsedValue::Expr(p),
        ParsedValue::Name(n) => SParsedValue::Name(n@),
    }
}

pub open spec fn names_entry_view(e: NamesEntry) -> SNamesEntry
    decreases e,
{
    match e {
        NamesEntry::FromEnv(d) => SNamesEntry::FromEnv(d),
        NamesEntry::FromGrammarEnv { grammar_env_len, adapt_env_len, prev_env_len } =>
            SNamesEntry::FromGrammarEnv { grammar_env_len, adapt_env_len, prev_env_len },
        NamesEntry::FromParsed(v, s) => SNamesEntry::FromParsed(
            parsed_value_view(v),
            names_view(s),
        ),
    }
}

pub open spec fn names_view(s: NamesEnv) -> Seq<(Seq<char>, SNamesEntry)>
    decreases s,
{
    Seq::new(
        s.entries@.len(),
        |i: int|
            if 0 <= i < s.entries@.len() {
                (s.entries@[i].0@, names_entry_view(s.entries@[i].1))
            } else {
                (Seq::empty(), SNamesEntry::FromEnv(0))
            },
    )
}

pub open spec fn hygienic_view(h: Seq<(String, usize)>) -> Seq<(Seq<char>, usize)> {
    h.map_values(|p: (String, usize)| (p.0@, p.1))
}

impl View for NamesEntry {
    type V = SNamesEntry;

    open spec fn view(&self) -> SNamesEntry {
        names_entry_view(*self)
    }
}

impl View for NamesEnv {
    type V = Seq<(Seq<char>, SNamesEntry)>;

    open spec fn view(&self) -> Seq<(Seq<char>, SNamesEntry)> {
        names_view(*self)
    }
}

impl View for NamedEnv {
    type V = SNamedEnv;

    open spec fn view(&self) -> SNamedEnv {
        SNamedEnv {
            env_len: self.env_len,
            names: self.names@,
            hygienic_names: hygienic_view(self.hygienic_names@),
        }
    }
}

/// The position of the latest entry named `name`.
pub open spec fn last_named<V>(s: Seq<(Seq<char>, V)>, name: Seq<char>) -> Option<int>
    decreases s.len(),
{
    if s.len() == 0 {
        None
    } else if s.last().0 == name {
        Some(s.len() - 1)
    } else {
        last_named(s.drop_last(), name)
    }
}

/// What `name` refers to in `s`.
pub open spec fn lookup<V>(s: Seq<(Seq<char>, V)>, name: Seq<char>) -> Option<V> {
    match last_named(s, name) {
        Some(k) => Some(s[k].1),
        None => None,
    }
}

pub(crate) proof fn lemma_last_named_bounds<V>(s: Seq<(Seq<char>, V)>, name: Seq<char>)
    ensures
        match last_named(s, name) {
            Some(k) => 0 <= k < s.len() && s[k].0 == name,
            None => true,
        },
    decreases s.len(),
{
    if s.len() > 0 && s.last().0 != name {
        lemma_last_named_bounds(s.drop_last(), name);
    }
}

/// The scope after binding `name` to the variable at `depth`. A name that stood for a
/// captured name also gives that captured name to the variable.
pub open spec fn spec_insert_name_at(e: SNamedEnv, name: Seq<char>, depth: usize) -> SNamedEnv {
    SNamedEnv {
        env_len: e.env_len,
        names: e.names.push((name, SNamesEntry::FromEnv(depth))),
        hygienic_names: match lookup(e.names, name) {
            Some(SNamesEntry::FromParsed(SParsedValue::Name(new_name), _)) => e.hygienic_names.push(
                (new_name, depth),
            ),
            _ => e.hygienic_names,
        },
    }
}

/// Binds again, in `base`, the names in `h`, latest first.
pub open spec fn spec_rebind(base: SNamedEnv, h: Seq<(Seq<char>, usize)>) -> SNamedEnv
    decreases h.len(),
{
    if h.len() == 0 {
        base
    } else {
        spec_rebind(spec_insert_name_at(base, h.last().0, h.last().1), h.drop_last())
    }
}

/// A copy of a list of names with their depths.
fn copy_names(v: &Vec<(String, usize)>) -> (r: Vec<(String, usize)>)
    ensures
        r@ == v@,
{
    let mut h: Vec<(String, usize)> = Vec::new();
    let mut i: usize = 0;
    while i < v.len()
        invariant
            i <= v@.len(),
            h@ == v@.take(i as int),
        decreases v@.len() - i,
    {
        h.push((v[i].0.clone(), v[i].1));
        assert(h@ =~= v@.take(i + 1));
        i += 1;
    }
    assert(v@.take(i as int) =~= v@);
    h
}

impl NamesEntry {
    /// A deep copy of the entry.
    pub fn copy(&self) -> (r: NamesEntry)
        ensures
            r@ == self@,
        decreases self,
    {
        match self {
            NamesEntry::FromEnv(d) => NamesEntry::FromEnv(*d),
            NamesEntry::FromGrammarEnv { grammar_env_len, adapt_env_len, prev_env_len } =>
                NamesEntry::FromGrammarEnv {
                grammar_env_len: *grammar_env_len,
                adapt_env_len: *adapt_env_len,
                prev_env_len: *prev_env_len,
            },
            NamesEntry::FromParsed(v, s) => {
                let v2 = match v {
                    ParsedValue::Expr(p) => ParsedValue::Expr(*p),
                    ParsedValue::Name(n) => ParsedValue::Name(n.clone()),
                };
                NamesEntry::FromParsed(v2, s.copy())
            },
        }
    }
}

impl NamesEnv {
    /// No names.
    pub fn new() -> (r: NamesEnv)
        ensures
            r@ == Seq::<(Seq<char>, SNamesEntry)>::empty(),
    {
        let r = NamesEnv { entries: Vec::new() };
        assert(r@ =~= Seq::<(Seq<char>, SNamesEntry)>::empty());
        r
    }

    /// A deep copy of the names.
    pub fn copy(&self) -> (r: NamesEnv)
        ensures
            r@ == self@,
        decreases self,
    {
        let mut entries: Vec<(String, NamesEntry)> = Vec::new();
        let mut i: usize = 0;
        while i < self.entries.len()
            invariant
                i <= self.entries@.len(),
                entries@.len() == i,
                forall|j: int|
                    0 <= j < i ==> #[trigger] entries@[j].0@ == self.entries@[j].0@
                        && entries@[j].1@ == self.entries@[j].1@,
            decreases self.entries@.len() - i,
        {
            assert(decreases_to!(self => self.entries));
            let name = self.entries[i].0.clone();
            let e = self.entries[i].1.copy();
            entries.push((name, e));
            i += 1;
        }
        let r = NamesEnv { entries };
        assert(r@ =~= self@) by {
            assert forall|j: int| 0 <= j < r@.len() implies r@[j] == self@[j] by {
                assert(r@[j] == (r.entries@[j].0@, names_entry_view(r.entries@[j].1)));
                assert(self@[j] == (self.entries@[j].0@, names_entry_view(self.entries@[j].1)));
            }
        }
        r
    }

    /// The names with `name` bound to `e` on top.
    pub fn insert(&self, name: String, e: NamesEntry) -> (r: NamesEnv)
        ensures
            r@ == self@.push((name@, e@)),
    {
        let mut r = self.copy();
        let ghost before = r.entries@;
        r.entries.push((name, e));
        assert(r@ =~= self@.push((name@, e@))) by {
            assert forall|j: int| 0 <= j < r@.len() implies r@[j] == self@.push((name@, e@))[j] by {
                assert(r@[j] == (r.entries@[j].0@, names_entry_view(r.entries@[j].1)));
                if j < before.len() {
                    assert(r.entries@[j] == before[j]);
                }
            }
        }
        r
    }

    /// The number of entries, hidden ones included.
    pub fn len(&self) -> (r: usize)
        ensures
            r == self@.len(),
    {
        self.entries.len()
    }

    /// What `name` refers to.
    pub fn get(&self, name: &str) -> (r: Option<&NamesEntry>)
        ensures
            match r {
                Some(e) => lookup(self@, name@) == Some(e@),
                None => lookup(self@, name@) is None,
            },
    {
        let mut k: usize = self.entries.len();
        let ghost v = self@;
        assert(v.subrange(0, k as int) =~= v);
        while k > 0
            invariant
                k <= self.entries@.len(),
                v == self@,
                v.len() == self.entries@.len(),
                last_named(v, name@) == last_named(v.subrange(0, k as int), name@),
            decreases k,
        {
            let ghost sub = v.subrange(0, k as int);
            assert(v[k - 1] == (self.entries@[k - 1].0@, self.entries@[k - 1].1@));
            if str_eq(self.entries[k - 1].0.as_str(), name) {
                assert(sub.last().0 == name@);
                return Some(&self.entries[k - 1].1);
            }
            assert(sub.drop_last() =~= v.subrange(0, k - 1));
            k -= 1;
        }
        None
    }
}

impl NamedEnv {
    /// The empty scope.
    pub fn new() -> (r: NamedEnv)
        ensures
            r@.env_len == 0,
            r@.names == Seq::<(Seq<char>, SNamesEntry)>::empty(),
            r@.hygienic_names == Seq::<(Seq<char>, usize)>::empty(),
    {
        let r = NamedEnv { env_len: 0, names: NamesEnv::new(), hygienic_names: Vec::new() };
        assert(r@.hygienic_names =~= Seq::<(Seq<char>, usize)>::empty());
        r
    }

    /// A deep copy of the scope.
    pub fn copy(&self) -> (r: NamedEnv)
        ensures
            r@ == self@,
    {
        let mut h = copy_names(&self.hygienic_names);
        NamedEnv { env_len: self.env_len, names: self.names.copy(), hygienic_names: h }
    }

    /// The scope with `name` bound to a new variable.
    pub fn insert_name(&self, name: &str) -> (r: NamedEnv)
        requires
            self.env_len < usize::MAX,
        ensures
            r@ == (SNamedEnv { env_len: (self.env_len + 1) as usize, ..spec_insert_name_at(self@, name@, self.env_len) }),
    {
        let mut s = self.insert_name_at(name, self.env_len);
        s.env_len = s.env_len + 1;
        s
    }

    /// The scope with `name` bound to the variable at `depth`.
    pub fn insert_name_at(&self, name: &str, depth: usize) -> (r: NamedEnv)
        ensures
            r@ == spec_insert_name_at(self@, name@, depth),
    {
        let names = self.names.insert(name.to_owned(), NamesEntry::FromEnv(depth));
        let mut h = copy_names(&self.hygienic_names);
        match self.names.get(name) {
            Some(NamesEntry::FromParsed(ParsedValue::Name(new_name), _)) => {
                let ghost before = h@;
                h.push((new_name.clone(), depth));
                assert(hygienic_view(h@) =~= hygienic_view(before).push((new_name@, depth)));
            },
            _ => {},
        }
        NamedEnv { env_len: self.env_len, names, hygienic_names: h }
    }

    /// What `name` refers to.
    pub fn resolve_name_use(&self, name: &str) -> (r: Option<&NamesEntry>)
        ensures
            match r {
                Some(e) => lookup(self@.names, name@) == Some(e@),
                None => lookup(self@.names, name@) is None,
            },
    {
        self.names.get(name)
    }

    /// The number of entries of the core scope.
    pub fn len(&self) -> (r: usize)
        ensures
            r == self@.env_len,
    {
        self.env_len
    }

    /// Whether the core scope is empty.
    pub fn is_empty(&self) -> (r: bool)
        ensures
            r == (self@.env_len == 0),
    {
        self.env_len == 0
    }

    /// Remembers the names in scope where `grammar` is defined.
    pub fn insert_shift_label(&self, grammar: GrammarId, jump_labels: &mut HashMap<usize, NamesEnv>)
        ensures
            final(jump_labels)@.dom() == old(jump_labels)@.dom().insert(grammar.0),
            final(jump_labels)@[grammar.0]@ == self@.names,
            forall|k: usize|
                k != grammar.0 && old(jump_labels)@.contains_key(k)
                    ==> #[trigger] final(jump_labels)@[k] == old(jump_labels)@[k],
    {
        jump_labels.insert(grammar.0, self.names.copy());
    }

    /// The scope with the names `old_names` back in place, and the variables that the
    /// grammar named bound again under those names.
    pub fn shift_back(&self, old_names: &NamesEnv) -> (r: NamedEnv)
        ensures
            r@ == spec_rebind(
                SNamedEnv {
                    env_len: self.env_len,
                    names: old_names@,
                    hygienic_names: Seq::empty(),
                },
                hygienic_view(self.hygienic_names@),
            ),
    {
        let ghost h = hygienic_view(self.hygienic_names@);
        let mut new_env = NamedEnv {
            env_len: self.env_len,
            names: old_names.copy(),
            hygienic_names: Vec::new(),
        };
        let ghost target = spec_rebind(new_env@, h);
        assert(new_env@.hygienic_names =~= Seq::<(Seq<char>, usize)>::empty());
        let mut k: usize = self.hygienic_names.len();
        assert(h.take(k as int) =~= h);
        while k > 0
            invariant
                k <= self.hygienic_names@.len(),
                h == hygienic_view(self.hygienic_names@),
                h.len() == self.hygienic_names@.len(),
                spec_rebind(new_env@, h.take(k as int)) == target,
            decreases k,
        {
            let ghost hk = h.take(k as int);
            assert(hk.last() == (self.hygienic_names@[k - 1].0@, self.hygienic_names@[k - 1].1));
            assert(hk.drop_last() =~= h.take(k - 1));
            new_env = new_env.insert_name_at(
                self.hygienic_names[k - 1].0.as_str(),
                self.hygienic_names[k - 1].1,
            );
            k -= 1;
        }
        assert(h.take(0) =~= Seq::<(Seq<char>, usize)>::empty());
        new_env
    }
}

} // verus!
