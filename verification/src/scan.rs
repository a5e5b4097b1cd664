//! The sequential heart of the parallel scanner: merge per-file
//! fingerprint results into one snapshot map, dropping the files whose
//! fingerprinting failed; and the directory-skip decision the traversal
//! applies.
//!
//! Fingerprinting runs concurrently outside the library; each worker hands
//! back one `(path, result)` pair, and the merge below is indifferent to
//! the order those pairs arrive in beyond later entries winning ties.

use vstd::prelude::*;

use crate::meta::{FileMeta, MetaView};
use crate::snapshot::SnapshotMap;

verus! {

/// Per-file results read at the spec level: path view paired with the
/// record view of a successful fingerprint, or nothing for a failed one.
pub open spec fn result_views(s: Seq<(String, Option<FileMeta>)>) -> Seq<(Seq<char>, Option<MetaView>)> {
    s.map_values(|e: (String, Option<FileMeta>)| (e.0@, match e.1 {
        Option::Some(m) => Option::Some(m@),
        Option::None => Option::None,
    }))
}

/// The snapshot a result sequence denotes: successful results in, failed
/// results dropped, later results overwriting earlier ones path by path.
pub open spec fn merged(s: Seq<(Seq<char>, Option<MetaView>)>) -> Map<Seq<char>, MetaView>
    decreases s.len(),
{
    if s.len() == 0 {
        Map::empty()
    } else {
        let prev = merged(s.drop_last());
        match s.last().1 {
            Option::Some(m) => prev.insert(s.last().0, m),
            Option::None => prev,
        }
    }
}

/// A path is in the merged snapshot exactly when some result for it
/// succeeded: one unreadable file never costs the scan anything else.
pub proof fn lemma_merged_covers(s: Seq<(Seq<char>, Option<MetaView>)>, p: Seq<char>)
    ensures
        merged(s).contains_key(p)
            <==> exists|i: int| 0 <= i < s.len() && (#[trigger] s[i]).0 == p && s[i].1 is Some,
    decreases s.len(),
{
    if s.len() > 0 {
        lemma_merged_covers(s.drop_last(), p);
        if merged(s.drop_last()).contains_key(p) {
            let i = choose|i: int| 0 <= i < s.drop_last().len() && (#[trigger] s.drop_last()[i]).0
                == p && s.drop_last()[i].1 is Some;
            assert(s[i].0 == p && s[i].1 is Some);
        }
        if exists|i: int| 0 <= i < s.len() && (#[trigger] s[i]).0 == p && s[i].1 is Some {
            let i = choose|i: int| 0 <= i < s.len() && (#[trigger] s[i]).0 == p && s[i].1 is Some;
            if i < s.len() - 1 {
                assert(s.drop_last()[i].0 == p && s.drop_last()[i].1 is Some);
            }
        }
    }
}

/// Merge per-file fingerprint results into one snapshot map.
pub fn build_snapshot(results: &Vec<(String, Option<FileMeta>)>) -> (m: SnapshotMap)
    ensures
        m.wf(),
        m@ == merged(result_views(results@)),
{
    let ghost rs = result_views(results@);
    let n = results.len();
    let mut m = SnapshotMap::new();
    let mut i: usize = 0;
    while i < n
        invariant
            n == results@.len(),
            rs == result_views(results@),
            i <= n,
            m.wf(),
            m@ == merged(rs.take(i as int)),
        decreases n - i,
    {
        proof {
            assert(rs.take(i + 1).drop_last() =~= rs.take(i as int));
            assert(rs.take(i + 1).last() == rs[i as int]);
        }
        match &results[i].1 {
            Some(meta) => {
                m.insert(results[i].0.clone(), meta.clone());
            },
            None => {},
        }
        i += 1;
    }
    proof {
        assert(rs.take(n as int) =~= rs);
    }
    m
}

/// Whether the traversal must skip a directory: its name equals one of the
/// excluded names exactly (no pattern matching).
pub fn should_skip_dir(name: &String, skips: &Vec<String>) -> (r: bool)
    ensures
        r == exists|i: int| 0 <= i < skips@.len() && (#[trigger] skips@[i])@ == name@,
{
    let n = skips.len();
    let mut i: usize = 0;
    while i < n
        invariant
            n == skips@.len(),
            i <= n,
            forall|j: int| 0 <= j < i ==> (#[trigger] skips@[j])@ != name@,
        decreases n - i,
    {
        if skips[i] == *name {
            return true;
        }
        i += 1;
    }
    false
}

} // verus!
