use crate::union_find::UnionIndex;
use vstd::prelude::*;

verus! {

/// An entry of a scope of partial expressions.
#[derive(Debug)]
pub enum EnvEntry {
    // Definitions used during type checking
    /// A variable of the given type.
    CType(UnionIndex),
    /// A value with its type.
    CSubst(UnionIndex, UnionIndex),
    // Definitions used during beta reduction
    RType,
    RSubst(UnionIndex, Env),
}

/// A scope: a persistent vector of entries, the entry pushed last at index 0. Entries hold
/// scopes in turn, so the vector sits in a field that only the wrappers below touch.
#[verifier::external_body]
#[derive(Debug)]
pub struct Env {
    entries: rpds::Vector<EnvEntry>,
}

/// The entries of `e`, the oldest first.
pub uninterp spec fn env_entries(e: Env) -> Seq<EnvEntry>;

impl View for Env {
    type V = Seq<EnvEntry>;

    open spec fn view(&self) -> Seq<EnvEntry> {
        env_entries(*self)
    }
}

/// An empty persistent vector (`rpds::Vector::new`).
#[verifier::external_body]
fn vector_new() -> (r: Env)
    ensures
        env_entries(r) == Seq::<EnvEntry>::empty(),
{
    Env { entries: rpds::Vector::new() }
}

/// A persistent vector that shares the entries of `s` (`rpds::Vector::clone`), which are
/// the same entries.
#[verifier::external_body]
fn vector_clone(s: &Env) -> (r: Env)
    ensures
        env_entries(r) == env_entries(*s),
{
    Env { entries: s.entries.clone() }
}

/// The vector `s` with `e` added at the end (`rpds::Vector::push_back`); `s` stays as it is.
#[verifier::external_body]
fn vector_push_back(s: &Env, e: EnvEntry) -> (r: Env)
    ensures
        env_entries(r) == env_entries(*s).push(e),
{
    Env { entries: s.entries.push_back(e) }
}

/// Drops the last entry of `s` (`rpds::Vector::drop_last_mut`): `true` and one entry less
/// when there is one, `false` and `s` unchanged when it is empty.
#[verifier::external_body]
fn vector_drop_last_mut(s: &mut Env) -> (r: bool)
    ensures
        r == (env_entries(*old(s)).len() > 0),
        r ==> env_entries(*final(s)) == env_entries(*old(s)).drop_last(),
        !r ==> env_entries(*final(s)) == env_entries(*old(s)),
{
    s.entries.drop_last_mut()
}

/// The number of entries of `s` (`rpds::Vector::len`).
#[verifier::external_body]
fn vector_len(s: &Env) -> (r: usize)
    ensures
        r == env_entries(*s).len(),
{
    s.entries.len()
}

/// The entry of `s` at position `i` from the oldest (`rpds::Vector::get`), if there is one.
#[verifier::external_body]
fn vector_get(s: &Env, i: usize) -> (r: Option<&EnvEntry>)
    ensures
        i < env_entries(*s).len() ==> r == Some(&env_entries(*s)[i as int]),
        i >= env_entries(*s).len() ==> r is None,
{
    s.entries.get(i)
}

impl EnvEntry {
    /// A copy of the entry: the same entry, a scope in it sharing the same entries.
    pub fn copy(&self) -> (r: EnvEntry)
        ensures
            match (*self, r) {
                (EnvEntry::RSubst(v, s), EnvEntry::RSubst(v2, s2)) => v2 == v && s2@ == s@,
                (EnvEntry::RSubst(..), _) => false,
                _ => r == *self,
            },
    {
        match self {
            EnvEntry::CType(t) => EnvEntry::CType(*t),
            EnvEntry::CSubst(v, t) => EnvEntry::CSubst(*v, *t),
            EnvEntry::RType => EnvEntry::RType,
            EnvEntry::RSubst(v, s) => EnvEntry::RSubst(*v, s.copy()),
        }
    }
}

impl Env {
    /// The empty scope.
    pub fn new() -> (r: Env)
        ensures
            r@ == Seq::<EnvEntry>::empty(),
    {
        vector_new()
    }

    /// A copy of the scope, sharing its entries.
    pub fn copy(&self) -> (r: Env)
        ensures
            r@ == self@,
    {
        vector_clone(self)
    }

    /// The scope with `e` pushed on top.
    pub fn cons(&self, e: EnvEntry) -> (r: Env)
        ensures
            r@ == self@.push(e),
    {
        vector_push_back(self, e)
    }

    /// Drops the last `count` entries of the scope.
    pub fn shift(&self, count: usize) -> (r: Env)
        requires
            count <= self@.len(),
        ensures
            r@ == self@.subrange(0, self@.len() - count),
    {
        let mut r = vector_clone(self);
        let mut k: usize = 0;
        while k < count
            invariant
                k <= count,
                count <= self@.len(),
                r@ == self@.subrange(0, self@.len() - k),
            decreases count - k,
        {
            let dropped = vector_drop_last_mut(&mut r);
            assert(dropped);
            assert(r@ =~= self@.subrange(0, self@.len() - (k + 1)));
            k += 1;
        }
        r
    }

    /// The number of entries.
    pub fn len(&self) -> (r: usize)
        ensures
            r == self@.len(),
    {
        vector_len(self)
    }

    /// Whether the scope has no entries.
    pub fn is_empty(&self) -> (r: bool)
        ensures
            r == (self@.len() == 0),
    {
        vector_len(self) == 0
    }

    /// The entry at index `i`, counted from the last pushed.
    pub fn index(&self, i: usize) -> (r: &EnvEntry)
        requires
            i < self@.len(),
        ensures
            *r == self@[self@.len() - 1 - i],
    {
        let n = vector_len(self);
        vector_get(self, n - 1 - i).unwrap()
    }
}

} // verus!
