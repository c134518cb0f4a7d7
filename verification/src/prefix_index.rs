//! The path-prefix index: maps any filesystem path to the registered root
//! that owns it, by component-wise longest-prefix match.

use vstd::prelude::*;
use crate::pathrel::is_path_ancestor;
use crate::pathrel::is_strict_path_ancestor;
use crate::pathrel::lemma_ancestors_comparable;
use crate::pathrel::path_is_ancestor;
use crate::bytes::bytes_eq;
use crate::bytes::bytes_clone;

verus! {

/// One registered path and the owner value reachable by it and its
/// descendants.
pub struct PrefixEntry {
    pub path: Vec<u8>,
    pub owner: Vec<u8>,
}

/// The index itself: a set of registered paths, each with its owner.
pub struct PrefixIndex {
    pub entries: Vec<PrefixEntry>,
}

/// The position of the entry registered for `path`, if any.
fn find_key(entries: &Vec<PrefixEntry>, path: &Vec<u8>) -> (r: Option<usize>)
    ensures
        match r {
            Some(i) => i < entries@.len() && entries@[i as int].path@ == path@,
            None => forall|j: int| 0 <= j < entries@.len() ==> entries@[j].path@ != path@,
        },
{
    let mut i: usize = 0;
    while i < entries.len()
        invariant
            i <= entries.len(),
            forall|j: int| 0 <= j < i ==> entries@[j].path@ != path@,
        decreases entries.len() - i,
    {
        if bytes_eq(&entries[i].path, path) {
            return Some(i);
        }
        i += 1;
    }
    None
}

impl PrefixIndex {
    /// How many paths are registered.
    pub open spec fn spec_len(&self) -> int {
        self.entries@.len() as int
    }

    /// The registered path at position `i`.
    pub open spec fn key_at(&self, i: int) -> Seq<u8> {
        self.entries@[i].path@
    }

    /// The owner registered at position `i`.
    pub open spec fn owner_at(&self, i: int) -> Seq<u8> {
        self.entries@[i].owner@
    }

    /// `k` is a registered path.
    pub open spec fn has_key(&self, k: Seq<u8>) -> bool {
        exists|i: int| 0 <= i < self.spec_len() && self.key_at(i) == k
    }

    /// Registered paths are distinct.
    pub open spec fn wf(&self) -> bool {
        forall|i: int, j: int|
            0 <= i < j < self.spec_len() ==> #[trigger] self.key_at(i) != #[trigger] self.key_at(j)
    }

    /// Position `i` holds a registered ancestor of `p`, and no registered
    /// ancestor of `p` is deeper.
    pub open spec fn is_deepest_match(&self, i: int, p: Seq<u8>) -> bool {
        &&& 0 <= i < self.spec_len()
        &&& is_path_ancestor(self.key_at(i), p)
        &&& forall|j: int|
            0 <= j < self.spec_len() && is_path_ancestor(#[trigger] self.key_at(j), p)
                ==> self.key_at(j).len() <= self.key_at(i).len()
    }

    /// What `lookup` promises of its result.
    pub open spec fn lookup_matches(&self, p: Seq<u8>, r: Option<Seq<u8>>) -> bool {
        match r {
            Some(o) => exists|i: int| #[trigger]
                self.is_deepest_match(i, p) && self.owner_at(i) == o,
            None => forall|i: int|
                0 <= i < self.spec_len() ==> !is_path_ancestor(#[trigger] self.key_at(i), p),
        }
    }

    /// An empty index.
    pub fn new() -> (r: PrefixIndex)
        ensures
            r.wf(),
            r.spec_len() == 0,
    {
        PrefixIndex { entries: Vec::new() }
    }

    /// Registers `owner` for `path` and all its descendants. Re-inserting a
    /// registered path replaces its owner and registers nothing new.
    pub fn insert(&mut self, path: Vec<u8>, owner: Vec<u8>)
        requires
            old(self).wf(),
        ensures
            final(self).wf(),
            old(self).has_key(path@) ==> final(self).spec_len() == old(self).spec_len(),
            !old(self).has_key(path@) ==> final(self).spec_len() == old(self).spec_len() + 1
                && final(self).key_at(final(self).spec_len() - 1) == path@ && final(self).owner_at(
                final(self).spec_len() - 1,
            ) == owner@,
            forall|k: Seq<u8>| final(self).has_key(k) <==> old(self).has_key(k) || k == path@,
            forall|i: int|
                0 <= i < old(self).spec_len() ==> #[trigger] final(self).key_at(i) == old(
                    self,
                ).key_at(i),
            forall|i: int|
                0 <= i < old(self).spec_len() && old(self).key_at(i) != path@
                    ==> #[trigger] final(self).owner_at(i) == old(self).owner_at(i),
            forall|i: int|
                0 <= i < final(self).spec_len() && final(self).key_at(i) == path@
                    ==> #[trigger] final(self).owner_at(i) == owner@,
    {
        let idx = find_key(&self.entries, &path);
        if let Some(i) = idx {
            let replaced = PrefixEntry { path, owner };
            self.entries.set(i, replaced);
            proof {
                assert(old(self).key_at(i as int) == path@);
                assert forall|j: int| 0 <= j < self.spec_len() implies #[trigger] self.key_at(j)
                    == old(self).key_at(j) by {
                    if j == i as int {
                        assert(self.key_at(j) == path@);
                    }
                }
                assert forall|a: int, b: int| 0 <= a < b < self.spec_len() implies self.key_at(a)
                    != self.key_at(b) by {
                    assert(old(self).key_at(a) != old(self).key_at(b));
                }
                assert forall|k: Seq<u8>| self.has_key(k) implies old(self).has_key(k) || k
                    == path@ by {
                    let w = choose|w: int| 0 <= w < self.spec_len() && self.key_at(w) == k;
                    assert(old(self).key_at(w) == k);
                }
                assert forall|k: Seq<u8>| old(self).has_key(k) || k == path@ implies self.has_key(
                    k,
                ) by {
                    if old(self).has_key(k) {
                        let w = choose|w: int|
                            0 <= w < old(self).spec_len() && old(self).key_at(w) == k;
                        assert(self.key_at(w) == k);
                    } else {
                        assert(self.key_at(i as int) == path@);
                    }
                }
                assert forall|j: int|
                    0 <= j < self.spec_len() && self.key_at(j) == path@ implies #[trigger] self
                    .owner_at(j) == owner@ by {
                    if j != i as int {
                        assert(old(self).key_at(j) != old(self).key_at(i as int));
                    }
                }
            }
            return ;
        }
        let added = PrefixEntry { path, owner };
        self.entries.push(added);
        proof {
            assert(forall|j: int|
                0 <= j < old(self).spec_len() ==> #[trigger] self.key_at(j) == old(self).key_at(
                    j,
                ) && #[trigger] self.owner_at(j) == old(self).owner_at(j));
            assert(!old(self).has_key(path@));
            assert(self.key_at(self.spec_len() - 1) == path@);
            assert forall|a: int, b: int| 0 <= a < b < self.spec_len() implies self.key_at(a)
                != self.key_at(b) by {
                if b == self.spec_len() - 1 {
                    assert(self.key_at(a) == old(self).key_at(a));
                    assert(old(self).key_at(a) != path@);
                } else {
                    assert(old(self).key_at(a) != old(self).key_at(b));
                }
            }
            assert forall|k: Seq<u8>| self.has_key(k) implies old(self).has_key(k) || k
                == path@ by {
                let w = choose|w: int| 0 <= w < self.spec_len() && self.key_at(w) == k;
                if w < old(self).spec_len() {
                    assert(old(self).key_at(w) == k);
                }
            }
            assert forall|k: Seq<u8>| old(self).has_key(k) || k == path@ implies self.has_key(
                k,
            ) by {
                if old(self).has_key(k) {
                    let w = choose|w: int|
                        0 <= w < old(self).spec_len() && old(self).key_at(w) == k;
                    assert(self.key_at(w) == k);
                } else {
                    assert(self.key_at(self.spec_len() - 1) == path@);
                }
            }
        }
    }

    /// Returns the owner registered for the deepest registered ancestor of
    /// `p`, or `None` if no registered path is an ancestor of `p`.
    pub fn lookup(&self, p: &Vec<u8>) -> (r: Option<Vec<u8>>)
        ensures
            match r {
                Some(o) => self.lookup_matches(p@, Some(o@)),
                None => self.lookup_matches(p@, None::<Seq<u8>>),
            },
    {
        let mut best: Option<usize> = None;
        let mut i: usize = 0;
        while i < self.entries.len()
            invariant
                i <= self.entries.len(),
                match best {
                    Some(b) => b < i && is_path_ancestor(self.key_at(b as int), p@) && forall|
                        j: int,
                    |
                        0 <= j < i && is_path_ancestor(#[trigger] self.key_at(j), p@)
                            ==> self.key_at(j).len() <= self.key_at(b as int).len(),
                    None => forall|j: int|
                        0 <= j < i ==> !is_path_ancestor(#[trigger] self.key_at(j), p@),
                },
            decreases self.entries.len() - i,
        {
            if path_is_ancestor(&self.entries[i].path, p) {
                best = match best {
                    None => Some(i),
                    Some(b) => {
                        if self.entries[i].path.len() > self.entries[b].path.len() {
                            Some(i)
                        } else {
                            Some(b)
                        }
                    },
                };
            }
            i += 1;
        }
        match best {
            None => None,
            Some(b) => {
                proof {
                    assert(self.is_deepest_match(b as int, p@));
                }
                Some(bytes_clone(&self.entries[b].owner))
            },
        }
    }

    /// In a well-formed index, the deepest match for a path is unique.
    pub proof fn lemma_deepest_unique(&self, p: Seq<u8>, a: int, b: int)
        requires
            self.wf(),
            self.is_deepest_match(a, p),
            self.is_deepest_match(b, p),
        ensures
            a == b,
    {
        let ka = self.key_at(a);
        let kb = self.key_at(b);
        assert(ka.len() <= kb.len());
        assert(kb.len() <= ka.len());
        lemma_ancestors_comparable(ka, kb, p);
        assert(ka == kb);
        if a != b {
            if a < b {
                assert(self.key_at(a) != self.key_at(b));
            } else {
                assert(self.key_at(b) != self.key_at(a));
            }
        }
    }

    /// A file under a registered root `t1` is never routed to a registered
    /// root `t2` that is unrelated to `t1` — not even when one path is a
    /// textual byte-prefix of the other without being a path-ancestor. Any
    /// deepest match for such a file lies at or below `t1`.
    pub proof fn lemma_prefix_isolation(&self, t1: Seq<u8>, t2: Seq<u8>, p: Seq<u8>)
        requires
            self.has_key(t1),
            !is_path_ancestor(t1, t2),
            !is_path_ancestor(t2, t1),
            is_path_ancestor(t1, p),
        ensures
            forall|i: int| #[trigger]
                self.is_deepest_match(i, p) ==> is_path_ancestor(t1, self.key_at(i))
                    && self.key_at(i) != t2,
    {
        let w = choose|w: int| 0 <= w < self.spec_len() && self.key_at(w) == t1;
        assert forall|i: int| #[trigger] self.is_deepest_match(i, p) implies is_path_ancestor(
            t1,
            self.key_at(i),
        ) && self.key_at(i) != t2 by {
            let k = self.key_at(i);
            assert(t1.len() <= k.len());
            lemma_ancestors_comparable(t1, k, p);
            if k == t2 {
                assert(is_path_ancestor(t1, t2));
            }
        }
    }
}

} // verus!
