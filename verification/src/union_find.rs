use vstd::prelude::*;

verus! {

/// A union-find structure over the elements `0..len`, with path compression.
pub struct UnionFind {
    parents: Vec<usize>,
    /// The representative (root) of each element.
    roots: Ghost<Seq<usize>>,
    /// A level for each element that grows strictly from an element to its parent.
    levels: Ghost<Seq<nat>>,
}

/// An element of a [`UnionFind`].
#[derive(Copy, Clone, PartialEq, Eq, Structural, Debug, Hash)]
pub struct UnionIndex(pub usize);

/// The classes after joining the class of `b` into the class of `a`: every element that
/// had `b`'s representative now has `a`'s.
pub open spec fn joined(s: Seq<usize>, a: int, b: int) -> Seq<usize> {
    Seq::new(s.len(), |j: int| if s[j] == s[b] { s[a] } else { s[j] })
}

/// Joining the class of `b` into that of `a` puts `a` and `b` in one class, and two
/// elements are in one class afterwards exactly when they were before, or when each of
/// them was in the class of `a` or of `b`.
pub proof fn lemma_joined_classes(s: Seq<usize>, a: int, b: int, i: int, j: int)
    requires
        0 <= a < s.len(),
        0 <= b < s.len(),
        0 <= i < s.len(),
        0 <= j < s.len(),
    ensures
        joined(s, a, b)[a] == joined(s, a, b)[b],
        (joined(s, a, b)[i] == joined(s, a, b)[j]) <==> (s[i] == s[j] || ((s[i] == s[a] || s[i]
            == s[b]) && (s[j] == s[a] || s[j] == s[b]))),
{
}

/// A call on a union-find structure, as its model sees it.
pub enum UnionFindCall {
    Add,
    Find(usize),
    Union(usize, usize),
}

/// The representatives after the calls `calls`, made in order from `s`: `add` appends an
/// element in a class of its own, `find` changes no class, `union` joins two classes.
pub open spec fn after_calls(s: Seq<usize>, calls: Seq<UnionFindCall>) -> Seq<usize>
    decreases calls.len(),
{
    if calls.len() == 0 {
        s
    } else {
        let before = after_calls(s, calls.drop_last());
        match calls.last() {
            UnionFindCall::Add => before.push(before.len() as usize),
            UnionFindCall::Find(_) => before,
            UnionFindCall::Union(a, b) => if a < before.len() && b < before.len() {
                joined(before, a as int, b as int)
            } else {
                before
            },
        }
    }
}

/// The number of `add` calls among `calls`.
pub open spec fn add_count(calls: Seq<UnionFindCall>) -> nat
    decreases calls.len(),
{
    if calls.len() == 0 {
        0
    } else {
        add_count(calls.drop_last()) + if calls.last() is Add {
            1nat
        } else {
            0nat
        }
    }
}

/// The number of elements is the number of `add` calls since `new`: `find` and `union`
/// add none and remove none.
pub proof fn lemma_len_counts_adds(calls: Seq<UnionFindCall>)
    ensures
        after_calls(Seq::empty(), calls).len() == add_count(calls),
    decreases calls.len(),
{
    if calls.len() > 0 {
        lemma_len_counts_adds(calls.drop_last());
    }
}

impl View for UnionFind {
    type V = Seq<usize>;

    /// The representative of each element.
    closed spec fn view(&self) -> Seq<usize> {
        self.roots@
    }
}

impl UnionFind {
    /// The parent links lead every element to its representative.
    pub closed spec fn wf(&self) -> bool {
        let p = self.parents@;
        let r = self.roots@;
        let l = self.levels@;
        &&& p.len() == r.len()
        &&& p.len() == l.len()
        &&& forall|i: int| 0 <= i < p.len() ==> #[trigger] p[i] < p.len()
        &&& forall|i: int| 0 <= i < p.len() ==> #[trigger] r[i] < p.len()
        &&& forall|i: int| 0 <= i < p.len() ==> p[#[trigger] r[i] as int] == r[i]
        &&& forall|i: int| 0 <= i < p.len() ==> r[#[trigger] p[i] as int] == r[i]
        &&& forall|i: int| 0 <= i < p.len() && #[trigger] p[i] == i ==> r[i] == i
        &&& forall|i: int| 0 <= i < p.len() && #[trigger] p[i] != i ==> l[p[i] as int] > l[i]
        &&& forall|i: int| 0 <= i < p.len() ==> l[#[trigger] r[i] as int] >= l[i]
    }

    /// The representative of a representative is itself.
    pub proof fn lemma_root_is_own_root(&self, i: int)
        requires
            self.wf(),
            0 <= i < self@.len(),
        ensures
            self@[i] < self@.len(),
            self@[self@[i] as int] == self@[i],
    {
        let r = self.roots@;
        let p = self.parents@;
        assert(p[r[i] as int] == r[i]);
        assert(r[p[r[i] as int] as int] == r[r[i] as int]);
    }

    /// An empty structure.
    pub fn new() -> (r: Self)
        ensures
            r.wf(),
            r@ == Seq::<usize>::empty(),
    {
        Self { parents: Vec::new(), roots: Ghost(Seq::empty()), levels: Ghost(Seq::empty()) }
    }

    /// Adds a new element in a class of its own.
    pub fn add(&mut self) -> (r: UnionIndex)
        requires
            old(self).wf(),
            old(self)@.len() < usize::MAX,
        ensures
            final(self).wf(),
            r.0 == old(self)@.len(),
            final(self)@ == old(self)@.push(r.0),
    {
        let index = self.parents.len();
        self.parents.push(index);
        self.roots = Ghost(self.roots@.push(index));
        self.levels = Ghost(self.levels@.push(0));
        proof {
            let p = self.parents@;
            let r = self.roots@;
            let l = self.levels@;
            assert forall|i: int| 0 <= i < p.len() implies r[#[trigger] p[i] as int] == r[i] by {
                if i < index {
                    assert(old(self).parents@[i] == p[i]);
                }
            }
            assert forall|i: int| 0 <= i < p.len() implies p[#[trigger] r[i] as int] == r[i] by {
                if i < index {
                    assert(old(self).roots@[i] == r[i]);
                }
            }
        }
        UnionIndex(index)
    }

    /// Finds the representative of `index`, and links every element on the way
    /// directly to it.
    pub fn find(&mut self, index: UnionIndex) -> (r: UnionIndex)
        requires
            old(self).wf(),
            index.0 < old(self)@.len(),
        ensures
            final(self).wf(),
            final(self)@ == old(self)@,
            r.0 == old(self)@[index.0 as int],
    {
        let ghost root = self.roots@[index.0 as int];
        let mut child = index.0;
        let mut parent = self.parents[child];
        // early exit if root
        if parent == child {
            return UnionIndex(parent);
        }
        let parent_parent = self.parents[parent];
        // early exit if one away from root
        if parent_parent == parent {
            return UnionIndex(parent_parent);
        }
        let mut child_indexes: Vec<usize> = Vec::new();
        child_indexes.push(child);
        child_indexes.push(parent);
        child = parent_parent;
        // loop until root is found
        loop
            invariant
                self.wf(),
                self@ == old(self)@,
                child < self@.len(),
                self@[child as int] == root,
                forall|k: int|
                    0 <= k < child_indexes@.len() ==> #[trigger] child_indexes@[k] < self@.len()
                        && self@[child_indexes@[k] as int] == root,
            ensures
                self.wf(),
                self@ == old(self)@,
                child < self@.len(),
                self@[child as int] == root,
                self.parents@[child as int] == child,
                forall|k: int|
                    0 <= k < child_indexes@.len() ==> #[trigger] child_indexes@[k] < self@.len()
                        && self@[child_indexes@[k] as int] == root,
            decreases self.levels@[root as int] - self.levels@[child as int],
        {
            parent = self.parents[child];
            if parent == child {
                break ;
            }
            child_indexes.push(child);
            child = parent;
        }
        assert(child == root);
        // set parent of each child to root
        let mut k: usize = 0;
        while k < child_indexes.len()
            invariant
                self.wf(),
                self@ == old(self)@,
                child == root,
                root < self@.len(),
                self.parents@[root as int] == root,
                forall|k: int|
                    0 <= k < child_indexes@.len() ==> #[trigger] child_indexes@[k] < self@.len()
                        && self@[child_indexes@[k] as int] == root,
            decreases child_indexes@.len() - k,
        {
            let c = child_indexes[k];
            proof {
                assert(self@[c as int] == root);
            }
            let ghost p0 = self.parents@;
            proof {
                assert(self.roots@[root as int] == root);
                if p0[c as int] != c {
                    assert(self.levels@[p0[c as int] as int] > self.levels@[c as int]);
                    assert(self.roots@[p0[c as int] as int] == self.roots@[c as int]);
                    assert(self.levels@[self.roots@[p0[c as int] as int] as int] >= self.levels@[p0[c as int] as int]);
                }
            }
            self.parents.set(c, child);
            proof {
                let p = self.parents@;
                let r = self.roots@;
                let l = self.levels@;
                assert forall|i: int| 0 <= i < p.len() implies r[#[trigger] p[i] as int]
                    == r[i] by {
                    if i != c {
                        assert(p[i] == p0[i]);
                    }
                }
                assert forall|i: int| 0 <= i < p.len() && #[trigger] p[i] != i implies l[p[i] as int]
                    > l[i] by {
                    if i != c {
                        assert(p[i] == p0[i]);
                    }
                }
                assert forall|i: int| 0 <= i < p.len() implies p[#[trigger] r[i] as int] == r[i] by {
                    if r[i] as int == c {
                        assert(r[c as int] == root);
                    }
                }
            }
            k += 1;
        }
        UnionIndex(child)
    }

    /// Joins the class of `b` into the class of `a`, and returns the representative of the union.
    pub fn union(&mut self, a: UnionIndex, b: UnionIndex) -> (r: UnionIndex)
        requires
            old(self).wf(),
            a.0 < old(self)@.len(),
            b.0 < old(self)@.len(),
        ensures
            final(self).wf(),
            r.0 == old(self)@[a.0 as int],
            final(self)@ == joined(old(self)@, a.0 as int, b.0 as int),
    {
        let a_root = self.find(a);
        let b_root = self.find(b);
        let ghost s = self.roots@;
        let ghost la = self.levels@[a_root.0 as int];
        let ghost lb = self.levels@[b_root.0 as int];
        proof {
            self.lemma_root_is_own_root(a.0 as int);
            self.lemma_root_is_own_root(b.0 as int);
        }
        self.parents.set(b_root.0, a_root.0);
        self.roots = Ghost(joined(s, a.0 as int, b.0 as int));
        let ghost new_level: nat = if la > lb {
            la
        } else {
            lb + 1
        };
        self.levels = Ghost(self.levels@.update(a_root.0 as int, new_level));
        proof {
            let p = self.parents@;
            let r = self.roots@;
            let l = self.levels@;
            let n = p.len();
            assert forall|i: int| 0 <= i < n implies #[trigger] r[i] < n by {}
            assert forall|i: int| 0 <= i < n implies p[#[trigger] r[i] as int] == r[i] by {
                if s[i] == s[b.0 as int] {
                } else {
                    assert(p[s[i] as int] == s[i]);
                }
            }
            assert forall|i: int| 0 <= i < n implies r[#[trigger] p[i] as int] == r[i] by {
                if i == b_root.0 {
                } else {
                    assert(s[p[i] as int] == s[i]);
                }
            }
            assert forall|i: int| 0 <= i < n && #[trigger] p[i] == i implies r[i] == i by {}
            assert forall|i: int| 0 <= i < n && #[trigger] p[i] != i implies l[p[i] as int]
                > l[i] by {
                if i == b_root.0 {
                } else {
                    assert(old(self).wf());
                }
            }
            assert forall|i: int| 0 <= i < n implies l[#[trigger] r[i] as int] >= l[i] by {}
        }
        self.parents.set(b.0, a_root.0);
        proof {
            let p = self.parents@;
            let r = self.roots@;
            let l = self.levels@;
            let n = p.len();
            assert forall|i: int| 0 <= i < n implies r[#[trigger] p[i] as int] == r[i] by {}
            assert forall|i: int| 0 <= i < n implies p[#[trigger] r[i] as int] == r[i] by {
                if r[i] == b.0 {
                }
            }
            assert forall|i: int| 0 <= i < n && #[trigger] p[i] != i implies l[p[i] as int]
                > l[i] by {}
        }
        a_root
    }

    /// The number of elements.
    pub fn len(&self) -> (r: usize)
        requires
            self.wf(),
        ensures
            r == self@.len(),
    {
        self.parents.len()
    }
}

} // verus!
