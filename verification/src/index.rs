//! The inverted digest index: digest to the reference paths that carry it,
//! in the traversal order of the reference map of this run. Derived once
//! per reconciliation from the reference snapshot, read-only afterwards,
//! and used for move detection only.

use vstd::prelude::*;

use crate::assoc::{assoc_map, lemma_assoc_contains, lemma_assoc_index, lemma_assoc_push,
    lemma_assoc_update, unique_keys};
use crate::meta::MetaView;
use crate::snapshot::SnapshotMap;

verus! {

/// The path views of a path list.
pub open spec fn path_views(s: Seq<String>) -> Seq<Seq<char>> {
    s.map_values(|p: String| p@)
}

/// The bucket sequence read at the spec level.
pub open spec fn bucket_views(buckets: Seq<(String, Vec<String>)>) -> Seq<(Seq<char>, Seq<Seq<char>>)> {
    buckets.map_values(|b: (String, Vec<String>)| (b.0@, path_views(b.1@)))
}

/// Mapping from digest to the reference paths sharing it.
pub struct RefIndex {
    pub buckets: Vec<(String, Vec<String>)>,
}

impl View for RefIndex {
    type V = Map<Seq<char>, Seq<Seq<char>>>;

    open spec fn view(&self) -> Map<Seq<char>, Seq<Seq<char>>> {
        assoc_map(bucket_views(self.buckets@))
    }
}

/// The index a reference entry sequence denotes: walk the entries in order
/// and append each path to the bucket of its digest.
pub open spec fn index_of(entries: Seq<(Seq<char>, MetaView)>) -> Map<Seq<char>, Seq<Seq<char>>>
    decreases entries.len(),
{
    if entries.len() == 0 {
        Map::empty()
    } else {
        let prev = index_of(entries.drop_last());
        let last = entries.last();
        if prev.contains_key(last.1.hash) {
            prev.insert(last.1.hash, prev[last.1.hash].push(last.0))
        } else {
            prev.insert(last.1.hash, seq![last.0])
        }
    }
}

impl RefIndex {
    /// Well-formed: no digest occurs twice among the buckets.
    pub open spec fn wf(self) -> bool {
        unique_keys(bucket_views(self.buckets@))
    }

    fn new() -> (idx: RefIndex)
        ensures
            idx.wf(),
            idx@ == Map::<Seq<char>, Seq<Seq<char>>>::empty(),
    {
        RefIndex { buckets: Vec::new() }
    }

    /// The paths recorded for a digest.
    pub fn get_bucket(&self, digest: &String) -> (r: Option<&Vec<String>>)
        requires
            self.wf(),
        ensures
            match r {
                Some(paths) => self@.contains_key(digest@) && path_views(paths@) == self@[digest@],
                None => !self@.contains_key(digest@),
            },
    {
        let n = self.buckets.len();
        let mut i: usize = 0;
        while i < n
            invariant
                n == self.buckets@.len(),
                i <= n,
                self.wf(),
                forall|j: int| 0 <= j < i ==> bucket_views(self.buckets@)[j].0 != digest@,
            decreases n - i,
        {
            if self.buckets[i].0 == *digest {
                proof {
                    lemma_assoc_index(bucket_views(self.buckets@), i as int);
                }
                return Some(&self.buckets[i].1);
            }
            i += 1;
        }
        proof {
            lemma_assoc_contains(bucket_views(self.buckets@), digest@);
        }
        None
    }

    /// Append a path to the bucket of a digest, opening the bucket if the
    /// digest is new.
    fn push_path(&mut self, digest: String, path: String)
        requires
            old(self).wf(),
        ensures
            final(self).wf(),
            final(self)@ == (if old(self)@.contains_key(digest@) {
                old(self)@.insert(digest@, old(self)@[digest@].push(path@))
            } else {
                old(self)@.insert(digest@, seq![path@])
            }),
    {
        let n = self.buckets.len();
        let mut i: usize = 0;
        while i < n
            invariant
                n == self.buckets@.len(),
                i <= n,
                self.wf(),
                *self == *old(self),
                forall|j: int| 0 <= j < i ==> bucket_views(self.buckets@)[j].0 != digest@,
            decreases n - i,
        {
            if self.buckets[i].0 == digest {
                proof {
                    lemma_assoc_index(bucket_views(self.buckets@), i as int);
                }
                let ghost s = bucket_views(self.buckets@);
                let (d, mut paths) = self.buckets.remove(i);
                paths.push(path);
                let ghost newpaths = paths@;
                proof {
                    assert(path_views(newpaths) =~= s[i as int].1.push(path@));
                }
                self.buckets.insert(i, (d, paths));
                proof {
                    assert(bucket_views(self.buckets@)
                        =~= s.update(i as int, (digest@, path_views(newpaths))));
                    lemma_assoc_update(s, i as int, digest@, path_views(newpaths));
                    assert(self@ =~= old(self)@.insert(digest@, old(self)@[digest@].push(path@)));
                }
                return ;
            }
            i += 1;
        }
        proof {
            lemma_assoc_contains(bucket_views(self.buckets@), digest@);
        }
        let mut fresh: Vec<String> = Vec::new();
        fresh.push(path);
        proof {
            let s = bucket_views(self.buckets@);
            assert(bucket_views(self.buckets@.push((digest, fresh)))
                =~= s.push((digest@, path_views(fresh@))));
            assert(path_views(fresh@) =~= seq![path@]);
            lemma_assoc_push(s, digest@, path_views(fresh@));
        }
        self.buckets.push((digest, fresh));
    }

    /// Build the index of a reference snapshot: every reference path is
    /// recorded under its digest, and nothing else is recorded.
    pub fn build(reference: &SnapshotMap) -> (idx: RefIndex)
        ensures
            idx.wf(),
            idx@ == index_of(reference.seq()),
    {
        let mut idx = RefIndex::new();
        let n = reference.len();
        let mut i: usize = 0;
        while i < n
            invariant
                n == reference.seq().len(),
                i <= n,
                idx.wf(),
                idx@ == index_of(reference.seq().take(i as int)),
            decreases n - i,
        {
            let entry = reference.entry_at(i);
            let digest = entry.1.hash.clone();
            let path = entry.0.clone();
            proof {
                assert(reference.seq().take(i + 1).drop_last() =~= reference.seq().take(i as int));
                assert(reference.seq().take(i + 1).last() == reference.seq()[i as int]);
            }
            idx.push_path(digest, path);
            i += 1;
        }
        proof {
            assert(reference.seq().take(n as int) =~= reference.seq());
        }
        idx
    }
}

/// What the index holds, read back at the map level: a digest is a key
/// exactly when some reference entry carries it; every path listed under a
/// digest is a reference path with that digest; every reference path is
/// listed under its digest.
pub proof fn lemma_index_of_correct(entries: Seq<(Seq<char>, MetaView)>)
    ensures
        forall|d: Seq<char>| #[trigger] index_of(entries).contains_key(d)
            <==> exists|i: int| 0 <= i < entries.len() && entries[i].1.hash == d,
        forall|d: Seq<char>, j: int|
            index_of(entries).contains_key(d) && 0 <= j < index_of(entries)[d].len()
                ==> exists|i: int| 0 <= i < entries.len()
                    && entries[i].0 == #[trigger] index_of(entries)[d][j]
                    && entries[i].1.hash == d,
        forall|i: int| 0 <= i < entries.len()
            ==> index_of(entries).contains_key(#[trigger] entries[i].1.hash)
                && index_of(entries)[entries[i].1.hash].contains(entries[i].0),
    decreases entries.len(),
{
    if entries.len() > 0 {
        lemma_index_of_correct(entries.drop_last());
        let prev = index_of(entries.drop_last());
        let last = entries.last();
        let m = index_of(entries);
        assert forall|d: Seq<char>| #[trigger] m.contains_key(d)
            implies exists|i: int| 0 <= i < entries.len() && entries[i].1.hash == d by {
            if d == last.1.hash {
                assert(entries[entries.len() - 1].1.hash == d);
            } else {
                let i = choose|i: int| 0 <= i < entries.drop_last().len()
                    && entries.drop_last()[i].1.hash == d;
                assert(entries[i].1.hash == d);
            }
        }
        assert forall|d: Seq<char>| (exists|i: int| 0 <= i < entries.len() && entries[i].1.hash == d)
            implies #[trigger] m.contains_key(d) by {
            let i = choose|i: int| 0 <= i < entries.len() && entries[i].1.hash == d;
            if i < entries.len() - 1 {
                assert(entries.drop_last()[i].1.hash == d);
            }
        }
        assert forall|d: Seq<char>, j: int|
            m.contains_key(d) && 0 <= j < m[d].len()
            implies exists|i: int| 0 <= i < entries.len()
                && entries[i].0 == #[trigger] m[d][j] && entries[i].1.hash == d by {
            if d == last.1.hash {
                if prev.contains_key(d) {
                    if j < prev[d].len() {
                        let i = choose|i: int| 0 <= i < entries.drop_last().len()
                            && entries.drop_last()[i].0 == prev[d][j]
                            && entries.drop_last()[i].1.hash == d;
                        assert(entries[i].0 == m[d][j] && entries[i].1.hash == d);
                    } else {
                        assert(m[d][j] == last.0);
                        assert(entries[entries.len() - 1].0 == m[d][j]);
                    }
                } else {
                    assert(m[d][j] == last.0);
                    assert(entries[entries.len() - 1].0 == m[d][j]);
                }
            } else {
                let i = choose|i: int| 0 <= i < entries.drop_last().len()
                    && entries.drop_last()[i].0 == prev[d][j]
                    && entries.drop_last()[i].1.hash == d;
                assert(entries[i].0 == m[d][j] && entries[i].1.hash == d);
            }
        }
        assert forall|i: int| 0 <= i < entries.len()
            implies m.contains_key(#[trigger] entries[i].1.hash)
                && m[entries[i].1.hash].contains(entries[i].0) by {
            let d = entries[i].1.hash;
            if i == entries.len() - 1 {
                if prev.contains_key(d) {
                    assert(m[d].last() == last.0);
                    assert(m[d][m[d].len() - 1] == entries[i].0);
                } else {
                    assert(m[d][0] == entries[i].0);
                }
            } else {
                assert(entries.drop_last()[i] == entries[i]);
                assert(prev[d].contains(entries[i].0));
                let j = choose|j: int| 0 <= j < prev[d].len() && prev[d][j] == entries[i].0;
                if d == last.1.hash {
                    assert(m[d][j] == entries[i].0);
                } else {
                    assert(m[d] == prev[d]);
                }
            }
        }
    }
}

} // verus!
