//! Which canonical path each file tab shows, so that one file is never open
//! in two tabs, and the identities handed out to new tabs.

use vstd::prelude::*;
use crate::state::TabId;
use crate::text::str_eq;

verus! {

/// The index from canonical paths to the tabs that show them, with the
/// counter that numbers tabs. Identities are handed out in increasing
/// order, so a new tab never reuses one.
#[derive(Debug, Default)]
pub struct OpenTabPaths {
    entries: Vec<(String, TabId)>,
    next_id: u64,
}

/// Position of the entry for `path`, or -1.
pub open spec fn entry_index(s: Seq<(String, TabId)>, path: Seq<char>) -> int
    decreases s.len(),
{
    if s.len() == 0 {
        -1
    } else if s.last().0@ == path {
        s.len() - 1
    } else {
        entry_index(s.drop_last(), path)
    }
}

proof fn lemma_entry_index(s: Seq<(String, TabId)>, path: Seq<char>)
    ensures
        -1 <= entry_index(s, path) < s.len(),
        entry_index(s, path) >= 0 ==> s[entry_index(s, path)].0@ == path,
        entry_index(s, path) < 0 ==> forall|j: int| 0 <= j < s.len() ==> s[j].0@ != path,
    decreases s.len(),
{
    if s.len() > 0 && s.last().0@ != path {
        lemma_entry_index(s.drop_last(), path);
        if entry_index(s, path) < 0 {
            assert forall|j: int| 0 <= j < s.len() implies s[j].0@ != path by {
                if j < s.len() - 1 {
                    assert(s.drop_last()[j] == s[j]);
                }
            }
        }
    }
}

/// With distinct keys, the entry found for the key of entry `i` is `i`.
proof fn lemma_entry_index_of(s: Seq<(String, TabId)>, i: int)
    requires
        0 <= i < s.len(),
        forall|a: int, b: int| 0 <= a < b < s.len() ==> s[a].0@ != s[b].0@,
    ensures
        entry_index(s, s[i].0@) == i,
    decreases s.len(),
{
    if i < s.len() - 1 {
        assert(s.last().0@ != s[i].0@);
        assert(s.drop_last()[i] == s[i]);
        lemma_entry_index_of(s.drop_last(), i);
    }
}

impl OpenTabPaths {
    #[verifier::type_invariant]
    spec fn well_formed(self) -> bool {
        &&& forall|a: int, b: int| 0 <= a < b < self.entries@.len() ==> self.entries@[a].0@ != self.entries@[b].0@
        &&& forall|a: int| 0 <= a < self.entries@.len() ==> (#[trigger] self.entries@[a]).1.0 <= self.next_id
    }

    /// The tab that shows `path`, if any.
    pub closed spec fn lookup(self, path: Seq<char>) -> Option<TabId> {
        let i = entry_index(self.entries@, path);
        if i < 0 {
            None
        } else {
            Some(self.entries@[i].1)
        }
    }

    /// How many paths are indexed.
    pub closed spec fn count(self) -> nat {
        self.entries@.len()
    }

    /// The last identity handed out (0 before the first).
    pub closed spec fn last_id(self) -> u64 {
        self.next_id
    }

    /// An empty index that has handed out no identity.
    pub fn new() -> (r: OpenTabPaths)
        ensures
            forall|p: Seq<char>| r.lookup(p) is None,
            r.count() == 0,
            r.last_id() == 0,
    {
        OpenTabPaths { entries: Vec::new(), next_id: 0 }
    }

    fn find(&self, path: &str) -> (r: Option<usize>)
        ensures
            match r {
                Some(i) => i < self.entries@.len() && i == entry_index(self.entries@, path@),
                None => entry_index(self.entries@, path@) < 0,
            },
    {
        proof {
            use_type_invariant(self);
            lemma_entry_index(self.entries@, path@);
        }
        let mut i: usize = 0;
        while i < self.entries.len()
            invariant
                0 <= i <= self.entries@.len(),
                forall|j: int| 0 <= j < i ==> self.entries@[j].0@ != path@,
            decreases self.entries@.len() - i,
        {
            if str_eq(self.entries[i].0.as_str(), path) {
                proof {
                    use_type_invariant(self);
                    lemma_entry_index_of(self.entries@, i as int);
                }
                return Some(i);
            }
            i = i + 1;
        }
        proof {
            if entry_index(self.entries@, path@) >= 0 {
                let k = entry_index(self.entries@, path@);
                assert(self.entries@[k].0@ == path@);
            }
        }
        None
    }

    /// The tab that shows `path`.
    pub fn get(&self, path: &str) -> (r: Option<TabId>)
        ensures
            r == self.lookup(path@),
            r matches Some(t) ==> t.0 <= self.last_id(),
    {
        proof { use_type_invariant(self); }
        match self.find(path) {
            Some(i) => Some(self.entries[i].1),
            None => None,
        }
    }

    /// The last identity handed out (0 before the first).
    pub fn last_handed_out(&self) -> (r: u64)
        ensures
            r == self.last_id(),
    {
        self.next_id
    }

    /// The number of indexed paths.
    pub fn len(&self) -> (r: usize)
        ensures
            r == self.count(),
    {
        self.entries.len()
    }

    /// A fresh identity, greater than every one handed out before.
    pub fn allocate(&mut self) -> (r: TabId)
        requires
            old(self).last_id() < u64::MAX,
        ensures
            r.0 == old(self).last_id() + 1,
            final(self).last_id() == r.0,
            forall|p: Seq<char>| final(self).lookup(p) == old(self).lookup(p),
            final(self).count() == old(self).count(),
    {
        proof { use_type_invariant(&*self); }
        self.next_id = self.next_id + 1;
        TabId(self.next_id)
    }

    /// The tab for `path`: the one already showing it, or a fresh identity
    /// recorded for it.
    pub fn insert(&mut self, path: String) -> (r: TabId)
        requires
            old(self).lookup(path@) is None ==> old(self).last_id() < u64::MAX,
        ensures
            old(self).lookup(path@) matches Some(t) ==> {
                &&& r == t
                &&& final(self).count() == old(self).count()
                &&& final(self).last_id() == old(self).last_id()
                &&& forall|p: Seq<char>| final(self).lookup(p) == old(self).lookup(p)
            },
            old(self).lookup(path@) is None ==> {
                &&& r.0 == old(self).last_id() + 1
                &&& final(self).last_id() == r.0
                &&& final(self).count() == old(self).count() + 1
                &&& final(self).lookup(path@) == Some(r)
                &&& forall|p: Seq<char>| p != path@ ==> final(self).lookup(p) == old(self).lookup(p)
            },
    {
        if let Some(i) = self.find(path.as_str()) {
            return self.entries[i].1;
        }
        let id = self.allocate();
        self.push_entry(path, id);
        id
    }

    fn push_entry(&mut self, path: String, id: TabId)
        requires
            entry_index(old(self).entries@, path@) < 0,
            id.0 <= old(self).next_id,
        ensures
            final(self).entries@ == old(self).entries@.push((path, id)),
            final(self).next_id == old(self).next_id,
            final(self).lookup(path@) == Some(id),
            forall|p: Seq<char>| p != path@ ==> final(self).lookup(p) == old(self).lookup(p),
    {
        proof {
            use_type_invariant(&*self);
            lemma_entry_index(self.entries@, path@);
        }
        let ghost before = self.entries@;
        let mut entries = Vec::new();
        std::mem::swap(&mut entries, &mut self.entries);
        entries.push((path, id));
        proof {
            assert(entries@.drop_last() =~= before);
            assert forall|a: int, b: int| 0 <= a < b < entries@.len() implies entries@[a].0@ != entries@[b].0@ by {
                if b == before.len() {
                    assert(before[a] == entries@[a]);
                }
            }
        }
        self.entries = entries;
        proof {
            assert forall|p: Seq<char>| p != path@ implies #[trigger] self.lookup(p) == old(self).lookup(p) by {
                assert(self.entries@.last().0@ == path@);
                assert(entry_index(self.entries@, p) == entry_index(before, p));
                lemma_entry_index(before, p);
                if entry_index(before, p) >= 0 {
                    assert(self.entries@[entry_index(before, p)] == before[entry_index(before, p)]);
                }
            }
        }
    }

    fn remove_at(&mut self, i: usize)
        requires
            i < old(self).entries@.len(),
        ensures
            final(self).entries@ == old(self).entries@.remove(i as int),
            final(self).next_id == old(self).next_id,
    {
        proof { use_type_invariant(&*self); }
        let ghost before = self.entries@;
        let mut entries = Vec::new();
        std::mem::swap(&mut entries, &mut self.entries);
        entries.remove(i);
        proof {
            assert forall|a: int, b: int| 0 <= a < b < entries@.len() implies entries@[a].0@ != entries@[b].0@ by {
                let a0 = if a < i { a } else { a + 1 };
                let b0 = if b < i { b } else { b + 1 };
                assert(entries@[a] == before[a0]);
                assert(entries@[b] == before[b0]);
            }
            assert forall|a: int| 0 <= a < entries@.len() implies (#[trigger] entries@[a]).1.0 <= self.next_id by {
                let a0 = if a < i { a } else { a + 1 };
                assert(entries@[a] == before[a0]);
            }
        }
        self.entries = entries;
    }

    proof fn lemma_lookup_after_remove(s: Seq<(String, TabId)>, i: int, p: Seq<char>)
        requires
            0 <= i < s.len(),
            forall|a: int, b: int| 0 <= a < b < s.len() ==> s[a].0@ != s[b].0@,
        ensures
            p == s[i].0@ ==> entry_index(s.remove(i), p) < 0,
            p != s[i].0@ ==> {
                let k = entry_index(s, p);
                let r = s.remove(i);
                let k2 = entry_index(r, p);
                &&& (k < 0 <==> k2 < 0)
                &&& k >= 0 ==> r[k2] == s[k]
            },
    {
        let r = s.remove(i);
        lemma_entry_index(s, p);
        lemma_entry_index(r, p);
        assert forall|a: int, b: int| 0 <= a < b < r.len() implies r[a].0@ != r[b].0@ by {
            let a0 = if a < i { a } else { a + 1 };
            let b0 = if b < i { b } else { b + 1 };
            assert(r[a] == s[a0]);
            assert(r[b] == s[b0]);
        }
        let k = entry_index(s, p);
        let k2 = entry_index(r, p);
        if p == s[i].0@ {
            if k2 >= 0 {
                let k0 = if k2 < i { k2 } else { k2 + 1 };
                assert(r[k2] == s[k0]);
            }
        } else {
            if k >= 0 {
                let kk = if k < i { k } else { k - 1 };
                assert(r[kk] == s[k]);
                lemma_entry_index_of(r, kk);
            }
            if k2 >= 0 {
                let k0 = if k2 < i { k2 } else { k2 + 1 };
                assert(r[k2] == s[k0]);
                lemma_entry_index_of(s, k0);
            }
        }
    }

    /// Drops `path` from the index.
    pub fn remove(&mut self, path: &str)
        ensures
            final(self).lookup(path@) is None,
            forall|p: Seq<char>| p != path@ ==> final(self).lookup(p) == old(self).lookup(p),
            final(self).count() == old(self).count() - (if old(self).lookup(path@) is Some { 1int } else { 0int }),
            final(self).last_id() == old(self).last_id(),
    {
        proof { use_type_invariant(&*self); }
        match self.find(path) {
            Some(i) => {
                let ghost before = self.entries@;
                proof { lemma_entry_index(before, path@); }
                self.remove_at(i);
                proof {
                    Self::lemma_lookup_after_remove(before, i as int, path@);
                    assert forall|p: Seq<char>| p != path@ implies #[trigger] self.lookup(p) == old(self).lookup(p) by {
                        Self::lemma_lookup_after_remove(before, i as int, p);
                        let k = entry_index(before, p);
                        let k2 = entry_index(self.entries@, p);
                        if k >= 0 {
                            assert(self.entries@[k2] == before[k]);
                        }
                    }
                }
            },
            None => {},
        }
    }

    /// Re-indexes tab `tab_id` from `old_path` (nothing, when it had no
    /// path) to `new_path`.
    pub fn replace(&mut self, old_path: &str, new_path: String, tab_id: TabId)
        requires
            tab_id.0 <= old(self).last_id(),
        ensures
            final(self).lookup(new_path@) == Some(tab_id),
            old_path@.len() > 0 && old_path@ != new_path@ ==> final(self).lookup(old_path@) is None,
            forall|p: Seq<char>| p != new_path@ && (old_path@.len() == 0 || p != old_path@) ==>
                final(self).lookup(p) == old(self).lookup(p),
            final(self).last_id() == old(self).last_id(),
    {
        if !old_path.is_empty() {
            self.remove(old_path);
        }
        self.remove(new_path.as_str());
        proof {
            use_type_invariant(&*self);
            lemma_entry_index(self.entries@, new_path@);
            if entry_index(self.entries@, new_path@) >= 0 {
                let k = entry_index(self.entries@, new_path@);
                assert(self.lookup(new_path@) is Some);
            }
        }
        self.push_entry(new_path, tab_id);
    }
}

} // verus!
