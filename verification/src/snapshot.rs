//! The snapshot map: normalized file path to fingerprint record. It stands
//! for both the freshly computed current state and the stored reference
//! state. Keys are unique; entry order carries no meaning beyond the
//! traversal order of one run.

use vstd::prelude::*;

use crate::assoc::{assoc_map, lemma_assoc_contains, lemma_assoc_index, lemma_assoc_push,
    lemma_assoc_update, unique_keys};
use crate::meta::{FileMeta, MetaView};

verus! {

/// Mapping from file path to fingerprint record.
pub struct SnapshotMap {
    pub entries: Vec<(String, FileMeta)>,
}

/// The entry sequence read at the spec level: path view paired with record
/// view.
pub open spec fn entry_views(entries: Seq<(String, FileMeta)>) -> Seq<(Seq<char>, MetaView)> {
    entries.map_values(|e: (String, FileMeta)| (e.0@, e.1@))
}

impl View for SnapshotMap {
    type V = Map<Seq<char>, MetaView>;

    open spec fn view(&self) -> Map<Seq<char>, MetaView> {
        assoc_map(entry_views(self.entries@))
    }
}

impl SnapshotMap {
    /// Well-formed: no path occurs twice.
    pub open spec fn wf(self) -> bool {
        unique_keys(entry_views(self.entries@))
    }

    /// The entry sequence of this map.
    pub open spec fn seq(self) -> Seq<(Seq<char>, MetaView)> {
        entry_views(self.entries@)
    }

    pub fn new() -> (m: SnapshotMap)
        ensures
            m.wf(),
            m@ == Map::<Seq<char>, MetaView>::empty(),
            m.seq().len() == 0,
    {
        SnapshotMap { entries: Vec::new() }
    }

    pub fn len(&self) -> (n: usize)
        ensures
            n == self.seq().len(),
    {
        self.entries.len()
    }

    /// The entry at one position of this run's traversal order.
    pub fn entry_at(&self, i: usize) -> (e: &(String, FileMeta))
        requires
            i < self.seq().len(),
        ensures
            e.0@ == self.seq()[i as int].0,
            e.1@ == self.seq()[i as int].1,
    {
        &self.entries[i]
    }

    /// Look a path up.
    pub fn get(&self, path: &String) -> (r: Option<&FileMeta>)
        requires
            self.wf(),
        ensures
            match r {
                Some(m) => self@.contains_key(path@) && m@ == self@[path@],
                None => !self@.contains_key(path@),
            },
    {
        let n = self.entries.len();
        let mut i: usize = 0;
        while i < n
            invariant
                n == self.seq().len(),
                i <= n,
                self.wf(),
                forall|j: int| 0 <= j < i ==> self.seq()[j].0 != path@,
            decreases n - i,
        {
            if self.entries[i].0 == *path {
                proof {
                    lemma_assoc_index(self.seq(), i as int);
                }
                return Some(&self.entries[i].1);
            }
            i += 1;
        }
        proof {
            lemma_assoc_contains(self.seq(), path@);
        }
        None
    }

    /// Insert a record under a path, overwriting any record the path held.
    pub fn insert(&mut self, path: String, meta: FileMeta)
        requires
            old(self).wf(),
        ensures
            final(self).wf(),
            final(self)@ == old(self)@.insert(path@, meta@),
    {
        let n = self.entries.len();
        let mut i: usize = 0;
        while i < n
            invariant
                n == self.seq().len(),
                i <= n,
                self.wf(),
                *self == *old(self),
                forall|j: int| 0 <= j < i ==> self.seq()[j].0 != path@,
            decreases n - i,
        {
            if self.entries[i].0 == path {
                proof {
                    lemma_assoc_update(self.seq(), i as int, path@, meta@);
                    assert(entry_views(self.entries@.update(i as int, (path, meta)))
                        =~= self.seq().update(i as int, (path@, meta@)));
                }
                self.entries.set(i, (path, meta));
                proof {
                    lemma_unique_update(old(self).seq(), i as int, path@, meta@);
                }
                return ;
            }
            i += 1;
        }
        proof {
            assert(entry_views(self.entries@.push((path, meta)))
                =~= self.seq().push((path@, meta@)));
            lemma_assoc_push(self.seq(), path@, meta@);
            lemma_unique_push(self.seq(), path@, meta@);
        }
        self.entries.push((path, meta));
    }
}

/// Updating an entry in place with the same key keeps the keys unique.
proof fn lemma_unique_update(s: Seq<(Seq<char>, MetaView)>, i: int, k: Seq<char>, v: MetaView)
    requires
        unique_keys(s),
        0 <= i < s.len(),
        s[i].0 == k,
    ensures
        unique_keys(s.update(i, (k, v))),
{
}

/// Appending an entry under a fresh key keeps the keys unique.
proof fn lemma_unique_push(s: Seq<(Seq<char>, MetaView)>, k: Seq<char>, v: MetaView)
    requires
        unique_keys(s),
        forall|j: int| 0 <= j < s.len() ==> s[j].0 != k,
    ensures
        unique_keys(s.push((k, v))),
{
}

} // verus!
