use crate::lang::CoreIndex;
use vstd::prelude::*;

verus! {

/// A variable of which the identity, not the position, matters.
#[derive(Copy, Clone, Eq, PartialEq, Structural, Debug, Hash)]
pub struct UniqueVariableId(pub usize);

/// An entry of an environment.
#[derive(Debug)]
pub enum EnvEntry {
    // Definitions used during type checking
    /// We know the type of this variable, but not its value. The type is the second `CoreIndex`
    CType(UniqueVariableId, CoreIndex),
    CSubst(CoreIndex, CoreIndex),
    // Definitions used during beta reduction
    RType(UniqueVariableId),
    RSubst(CoreIndex, DbEnv),
}

/// An environment: a stack of entries; de Bruijn index 0 is the entry pushed last.
#[derive(Debug)]
pub struct DbEnv {
    pub entries: Vec<EnvEntry>,
}

/// The model of an environment entry.
pub enum SEntry {
    CType(UniqueVariableId, CoreIndex),
    CSubst(CoreIndex, CoreIndex),
    RType(UniqueVariableId),
    RSubst(CoreIndex, Seq<SEntry>),
}

pub open spec fn entry_view(e: EnvEntry) -> SEntry
    decreases e,
{
    match e {
        EnvEntry::CType(id, t) => SEntry::CType(id, t),
        EnvEntry::CSubst(v, t) => SEntry::CSubst(v, t),
        EnvEntry::RType(id) => SEntry::RType(id),
        EnvEntry::RSubst(v, s) => SEntry::RSubst(v, env_entries_view(s)),
    }
}

pub open spec fn env_entries_view(s: DbEnv) -> Seq<SEntry>
    decreases s,
{
    Seq::new(
        s.entries@.len(),
        |i: int|
            if 0 <= i < s.entries@.len() {
                entry_view(s.entries@[i])
            } else {
                SEntry::RType(UniqueVariableId(0))
            },
    )
}

impl View for EnvEntry {
    type V = SEntry;

    open spec fn view(&self) -> SEntry {
        entry_view(*self)
    }
}

impl View for DbEnv {
    type V = Seq<SEntry>;

    open spec fn view(&self) -> Seq<SEntry> {
        env_entries_view(*self)
    }
}

/// The entry at de Bruijn index `i` of `s`.
pub open spec fn env_at(s: Seq<SEntry>, i: int) -> SEntry {
    s[s.len() - 1 - i]
}

/// `s` without its `n` most recent entries.
pub open spec fn env_shift(s: Seq<SEntry>, n: int) -> Seq<SEntry> {
    s.subrange(0, s.len() - n)
}

impl EnvEntry {
    /// A deep copy of the entry.
    pub fn copy(&self) -> (r: EnvEntry)
        ensures
            r@ == self@,
        decreases self,
    {
        match self {
            EnvEntry::CType(id, t) => EnvEntry::CType(*id, *t),
            EnvEntry::CSubst(v, t) => EnvEntry::CSubst(*v, *t),
            EnvEntry::RType(id) => EnvEntry::RType(*id),
            EnvEntry::RSubst(v, s) => EnvEntry::RSubst(*v, s.copy()),
        }
    }
}

impl DbEnv {
    /// The empty environment.
    pub fn new() -> (r: DbEnv)
        ensures
            r@ == Seq::<SEntry>::empty(),
    {
        let r = DbEnv { entries: Vec::new() };
        assert(r@ =~= Seq::<SEntry>::empty());
        r
    }

    /// A deep copy of the environment.
    pub fn copy(&self) -> (r: DbEnv)
        ensures
            r@ == self@,
        decreases self,
    {
        let mut entries: Vec<EnvEntry> = Vec::new();
        let mut i: usize = 0;
        while i < self.entries.len()
            invariant
                i <= self.entries@.len(),
                entries@.len() == i,
                forall|j: int| 0 <= j < i ==> #[trigger] entries@[j]@ == self.entries@[j]@,
            decreases self.entries@.len() - i,
        {
            assert(decreases_to!(self => self.entries));
            entries.push(self.entries[i].copy());
            i += 1;
        }
        let r = DbEnv { entries };
        assert(r@ =~= self@) by {
            assert forall|j: int| 0 <= j < r@.len() implies r@[j] == self@[j] by {
                assert(r.entries@[j]@ == self.entries@[j]@);
                assert(r@[j] == entry_view(r.entries@[j]));
                assert(self@[j] == entry_view(self.entries@[j]));
            }
        }
        r
    }

    /// The environment with `e` pushed on top.
    pub fn cons(&self, e: EnvEntry) -> (r: DbEnv)
        ensures
            r@ == self@.push(e@),
    {
        let mut r = self.copy();
        let ghost before = r.entries@;
        r.entries.push(e);
        assert(r@ =~= self@.push(e@)) by {
            assert forall|j: int| 0 <= j < r@.len() implies r@[j] == self@.push(e@)[j] by {
                assert(r@[j] == entry_view(r.entries@[j]));
                if j < before.len() {
                    assert(r.entries@[j] == before[j]);
                }
            }
        }
        r
    }

    /// The number of entries.
    pub fn len(&self) -> (r: usize)
        ensures
            r == self@.len(),
    {
        self.entries.len()
    }

    /// Whether there are no entries.
    pub fn is_empty(&self) -> (r: bool)
        ensures
            r == (self@.len() == 0),
    {
        self.entries.len() == 0
    }

    /// Drops the `count` most recent entries.
    pub fn shift(&self, count: usize) -> (r: DbEnv)
        requires
            count <= self@.len(),
        ensures
            r@ == env_shift(self@, count as int),
    {
        let mut r = self.copy();
        let mut k: usize = 0;
        while k < count
            invariant
                k <= count,
                count <= self@.len(),
                r@ == env_shift(self@, k as int),
            decreases count - k,
        {
            let ghost before = r.entries@;
            let ghost before_view = r@;
            r.entries.pop();
            assert(before_view.len() == self@.len() - k);
            assert(before.len() == before_view.len());
            assert(r.entries@ == before.drop_last());
            assert(r@.len() == self@.len() - k - 1);
            assert(r@ =~= env_shift(self@, (k + 1) as int)) by {
                assert forall|j: int| 0 <= j < r@.len() implies r@[j] == env_shift(
                    self@,
                    (k + 1) as int,
                )[j] by {
                    assert(r.entries@[j] == before[j]);
                    assert(r@[j] == entry_view(r.entries@[j]));
                    assert(before_view[j] == entry_view(before[j]));
                    assert(before_view == env_shift(self@, k as int));
                    assert(before_view[j] == env_shift(self@, k as int)[j]);
                    assert(env_shift(self@, k as int)[j] == self@[j]);
                }
            }
            k += 1;
        }
        r
    }

    /// The entry at de Bruijn index `i`, if there is one.
    pub fn get_idx(&self, i: usize) -> (r: Option<&EnvEntry>)
        ensures
            match r {
                Some(e) => i < self@.len() && e@ == env_at(self@, i as int),
                None => i >= self@.len(),
            },
    {
        if i < self.entries.len() {
            Some(&self.entries[self.entries.len() - 1 - i])
        } else {
            None
        }
    }

    /// The entry at de Bruijn index `i`.
    pub fn index(&self, i: usize) -> (r: &EnvEntry)
        requires
            i < self@.len(),
        ensures
            r@ == env_at(self@, i as int),
    {
        &self.entries[self.entries.len() - 1 - i]
    }
}

} // verus!
