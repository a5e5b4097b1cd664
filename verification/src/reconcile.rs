//! The reconciler: classify every current file against the reference
//! snapshot and the inverted digest index, and, when asked, fold the
//! accepted current records back into the reference map.
//!
//! The decision procedure for one current entry, in order:
//! - path known to the reference: same digest is matched; different digest
//!   with the same modification time is mismatched (the only failing
//!   verdict); different digest and different time is skipped, the change
//!   taken as a legitimate edit;
//! - path new to the reference: a nonzero-size file whose digest some
//!   reference entry carries is moved; everything else is extra.
//!
//! Files in the reference but absent from the current scan are never
//! visited: no deleted verdict exists.

use vstd::prelude::*;

use crate::index::{index_of, path_views, RefIndex};
use crate::meta::{MetaView, Summary, Verdict, VerdictKind};
use crate::snapshot::SnapshotMap;

verus! {

/// The classification decision for one current file.
pub open spec fn classify(
    path: Seq<char>,
    cur: MetaView,
    refm: Map<Seq<char>, MetaView>,
    idx: Map<Seq<char>, Seq<Seq<char>>>,
) -> VerdictKind {
    if refm.contains_key(path) {
        if refm[path].hash == cur.hash {
            VerdictKind::Matched
        } else if refm[path].modified == cur.modified {
            VerdictKind::Mismatched
        } else {
            VerdictKind::SkippedStaleMetadata
        }
    } else {
        if idx.contains_key(cur.hash) && cur.size != 0 {
            VerdictKind::Moved
        } else {
            VerdictKind::Extra
        }
    }
}

/// The verdict kinds of a whole current entry sequence.
pub open spec fn classify_seq(
    entries: Seq<(Seq<char>, MetaView)>,
    refm: Map<Seq<char>, MetaView>,
    idx: Map<Seq<char>, Seq<Seq<char>>>,
) -> Seq<VerdictKind> {
    entries.map_values(|e: (Seq<char>, MetaView)| classify(e.0, e.1, refm, idx))
}

/// How often a kind occurs in a verdict sequence.
pub open spec fn count_kind(kinds: Seq<VerdictKind>, k: VerdictKind) -> nat
    decreases kinds.len(),
{
    if kinds.len() == 0 {
        0
    } else {
        count_kind(kinds.drop_last(), k) + (if kinds.last() == k {
            1nat
        } else {
            0nat
        })
    }
}

/// The summary totals a verdict sequence owes.
pub open spec fn summary_matches(s: Summary, kinds: Seq<VerdictKind>) -> bool {
    &&& s.matched == count_kind(kinds, VerdictKind::Matched)
    &&& s.mismatched == count_kind(kinds, VerdictKind::Mismatched)
    &&& s.skipped == count_kind(kinds, VerdictKind::SkippedStaleMetadata)
    &&& s.moved == count_kind(kinds, VerdictKind::Moved)
    &&& s.extra == count_kind(kinds, VerdictKind::Extra)
    &&& s.has_mismatch == (count_kind(kinds, VerdictKind::Mismatched) > 0)
}

/// The reference map after folding the accepted current records back in:
/// skipped, moved and extra entries overwrite or extend it under their
/// current path; matched and mismatched entries leave it alone. Entries of
/// the old reference whose paths the current scan never visited are kept.
pub open spec fn updated_ref(
    refm: Map<Seq<char>, MetaView>,
    entries: Seq<(Seq<char>, MetaView)>,
    idx: Map<Seq<char>, Seq<Seq<char>>>,
) -> Map<Seq<char>, MetaView>
    decreases entries.len(),
{
    if entries.len() == 0 {
        refm
    } else {
        let prev = updated_ref(refm, entries.drop_last(), idx);
        let last = entries.last();
        let kind = classify(last.0, last.1, refm, idx);
        if kind == VerdictKind::Matched || kind == VerdictKind::Mismatched {
            prev
        } else {
            prev.insert(last.0, last.1)
        }
    }
}

proof fn lemma_count_le_len(kinds: Seq<VerdictKind>, k: VerdictKind)
    ensures
        count_kind(kinds, k) <= kinds.len(),
    decreases kinds.len(),
{
    if kinds.len() > 0 {
        lemma_count_le_len(kinds.drop_last(), k);
    }
}

proof fn lemma_count_step(kinds: Seq<VerdictKind>, i: int, k: VerdictKind)
    requires
        0 <= i < kinds.len(),
    ensures
        count_kind(kinds.take(i + 1), k) == count_kind(kinds.take(i), k) + (if kinds[i] == k {
            1nat
        } else {
            0nat
        }),
{
    assert(kinds.take(i + 1).drop_last() =~= kinds.take(i));
    assert(kinds.take(i + 1).last() == kinds[i]);
}

/// A kind that occurs at some position is counted at least once.
pub proof fn lemma_count_pos(kinds: Seq<VerdictKind>, i: int, k: VerdictKind)
    requires
        0 <= i < kinds.len(),
        kinds[i] == k,
    ensures
        count_kind(kinds, k) > 0,
    decreases kinds.len(),
{
    if i == kinds.len() - 1 {
        lemma_count_le_len(kinds.drop_last(), k);
    } else {
        assert(kinds.drop_last()[i] == kinds[i]);
        lemma_count_pos(kinds.drop_last(), i, k);
    }
}

fn clone_paths(v: &Vec<String>) -> (r: Vec<String>)
    ensures
        path_views(r@) == path_views(v@),
{
    let n = v.len();
    let mut r: Vec<String> = Vec::new();
    let mut i: usize = 0;
    while i < n
        invariant
            n == v@.len(),
            i <= n,
            r@.len() == i,
            path_views(r@) =~= path_views(v@).take(i as int),
        decreases n - i,
    {
        r.push(v[i].clone());
        proof {
            assert(path_views(r@) =~= path_views(v@).take(i + 1));
        }
        i += 1;
    }
    proof {
        assert(path_views(v@).take(n as int) =~= path_views(v@));
    }
    r
}

/// Classify every current entry against the reference and the index. Pure:
/// nothing is mutated; the verdicts come back in the current map's entry
/// order, one per entry, with the summary totals.
pub fn classify_all(current: &SnapshotMap, reference: &SnapshotMap, idx: &RefIndex) -> (r: (
    Vec<Verdict>,
    Summary,
))
    requires
        current.wf(),
        reference.wf(),
        idx.wf(),
    ensures
        r.0@.len() == current.seq().len(),
        forall|i: int| 0 <= i < r.0@.len()
            ==> (#[trigger] r.0@[i]).kind() == classify_seq(current.seq(), reference@, idx@)[i],
        forall|i: int| 0 <= i < r.0@.len() ==> match #[trigger] r.0@[i] {
            Verdict::Mismatched { expected, found } => reference@.contains_key(current.seq()[i].0)
                && expected@ == reference@[current.seq()[i].0].hash
                && found@ == current.seq()[i].1.hash,
            Verdict::Moved { prior } => idx@.contains_key(current.seq()[i].1.hash)
                && path_views(prior@) == idx@[current.seq()[i].1.hash],
            _ => true,
        },
        summary_matches(r.1, classify_seq(current.seq(), reference@, idx@)),
{
    let ghost kinds = classify_seq(current.seq(), reference@, idx@);
    let n = current.len();
    let mut verdicts: Vec<Verdict> = Vec::new();
    let mut matched: usize = 0;
    let mut mismatched: usize = 0;
    let mut skipped: usize = 0;
    let mut moved: usize = 0;
    let mut extra: usize = 0;
    let mut i: usize = 0;
    while i < n
        invariant
            n == current.seq().len(),
            kinds == classify_seq(current.seq(), reference@, idx@),
            kinds.len() == n,
            i <= n,
            current.wf(),
            reference.wf(),
            idx.wf(),
            verdicts@.len() == i,
            forall|j: int| 0 <= j < i
                ==> (#[trigger] verdicts@[j]).kind() == kinds[j],
            forall|j: int| 0 <= j < i ==> match #[trigger] verdicts@[j] {
                Verdict::Mismatched { expected, found } => reference@.contains_key(
                    current.seq()[j].0,
                ) && expected@ == reference@[current.seq()[j].0].hash
                    && found@ == current.seq()[j].1.hash,
                Verdict::Moved { prior } => idx@.contains_key(current.seq()[j].1.hash)
                    && path_views(prior@) == idx@[current.seq()[j].1.hash],
                _ => true,
            },
            matched == count_kind(kinds.take(i as int), VerdictKind::Matched),
            mismatched == count_kind(kinds.take(i as int), VerdictKind::Mismatched),
            skipped == count_kind(kinds.take(i as int), VerdictKind::SkippedStaleMetadata),
            moved == count_kind(kinds.take(i as int), VerdictKind::Moved),
            extra == count_kind(kinds.take(i as int), VerdictKind::Extra),
        decreases n - i,
    {
        proof {
            lemma_count_step(kinds, i as int, VerdictKind::Matched);
            lemma_count_step(kinds, i as int, VerdictKind::Mismatched);
            lemma_count_step(kinds, i as int, VerdictKind::SkippedStaleMetadata);
            lemma_count_step(kinds, i as int, VerdictKind::Moved);
            lemma_count_step(kinds, i as int, VerdictKind::Extra);
            lemma_count_le_len(kinds.take(i as int), VerdictKind::Matched);
            lemma_count_le_len(kinds.take(i as int), VerdictKind::Mismatched);
            lemma_count_le_len(kinds.take(i as int), VerdictKind::SkippedStaleMetadata);
            lemma_count_le_len(kinds.take(i as int), VerdictKind::Moved);
            lemma_count_le_len(kinds.take(i as int), VerdictKind::Extra);
        }
        let entry = current.entry_at(i);
        let verdict: Verdict = match reference.get(&entry.0) {
            Some(expected) => {
                if entry.1.hash == expected.hash {
                    matched += 1;
                    Verdict::Matched
                } else if entry.1.modified == expected.modified {
                    mismatched += 1;
                    Verdict::Mismatched {
                        expected: expected.hash.clone(),
                        found: entry.1.hash.clone(),
                    }
                } else {
                    skipped += 1;
                    Verdict::SkippedStaleMetadata
                }
            },
            None => {
                match idx.get_bucket(&entry.1.hash) {
                    Some(bucket) => {
                        if entry.1.size != 0 {
                            moved += 1;
                            Verdict::Moved { prior: clone_paths(bucket) }
                        } else {
                            extra += 1;
                            Verdict::Extra
                        }
                    },
                    None => {
                        extra += 1;
                        Verdict::Extra
                    },
                }
            },
        };
        proof {
            assert(kinds[i as int] == classify(
                current.seq()[i as int].0,
                current.seq()[i as int].1,
                reference@,
                idx@,
            ));
        }
        verdicts.push(verdict);
        i += 1;
    }
    proof {
        assert(kinds.take(n as int) =~= kinds);
    }
    let summary = Summary {
        matched,
        mismatched,
        skipped,
        moved,
        extra,
        has_mismatch: mismatched > 0,
    };
    (verdicts, summary)
}

/// Fold the accepted current records back into the reference map: every
/// current entry whose verdict is skipped, moved or extra is inserted under
/// its current path; matched and mismatched entries change nothing; no
/// reference entry is ever deleted.
pub fn apply_updates(
    current: &SnapshotMap,
    reference: &mut SnapshotMap,
    idx: &RefIndex,
    verdicts: &Vec<Verdict>,
)
    requires
        current.wf(),
        old(reference).wf(),
        verdicts@.len() == current.seq().len(),
        forall|i: int| 0 <= i < verdicts@.len()
            ==> (#[trigger] verdicts@[i]).kind() == classify_seq(
                current.seq(),
                old(reference)@,
                idx@,
            )[i],
    ensures
        final(reference).wf(),
        final(reference)@ == updated_ref(old(reference)@, current.seq(), idx@),
{
    let ghost refm0 = old(reference)@;
    let n = current.len();
    let mut i: usize = 0;
    while i < n
        invariant
            n == current.seq().len(),
            i <= n,
            current.wf(),
            reference.wf(),
            verdicts@.len() == n,
            forall|j: int| 0 <= j < n
                ==> (#[trigger] verdicts@[j]).kind() == classify_seq(current.seq(), refm0, idx@)[j],
            reference@ == updated_ref(refm0, current.seq().take(i as int), idx@),
        decreases n - i,
    {
        let entry = current.entry_at(i);
        let insert_it: bool = match &verdicts[i] {
            Verdict::Matched => false,
            Verdict::Mismatched { .. } => false,
            Verdict::SkippedStaleMetadata => true,
            Verdict::Moved { .. } => true,
            Verdict::Extra => true,
        };
        proof {
            assert(current.seq().take(i + 1).drop_last() =~= current.seq().take(i as int));
            assert(current.seq().take(i + 1).last() == current.seq()[i as int]);
            assert(classify_seq(current.seq(), refm0, idx@)[i as int] == classify(
                current.seq()[i as int].0,
                current.seq()[i as int].1,
                refm0,
                idx@,
            ));
        }
        if insert_it {
            reference.insert(entry.0.clone(), entry.1.clone());
        }
        i += 1;
    }
    proof {
        assert(current.seq().take(n as int) =~= current.seq());
    }
}

/// One whole reconciliation run: build the inverted index of the reference
/// as it stands, classify every current entry against it, and, when
/// `update` is set, fold the accepted current records back into the
/// reference map. The reference is mutated only by those insertions; with
/// `update` unset it is left untouched.
pub fn reconcile(current: &SnapshotMap, reference: &mut SnapshotMap, update: bool) -> (r: (
    Vec<Verdict>,
    Summary,
))
    requires
        current.wf(),
        old(reference).wf(),
    ensures
        final(reference).wf(),
        r.0@.len() == current.seq().len(),
        forall|i: int| 0 <= i < r.0@.len()
            ==> (#[trigger] r.0@[i]).kind() == classify_seq(
                current.seq(),
                old(reference)@,
                index_of(old(reference).seq()),
            )[i],
        forall|i: int| 0 <= i < r.0@.len() ==> match #[trigger] r.0@[i] {
            Verdict::Mismatched { expected, found } => old(reference)@.contains_key(
                current.seq()[i].0,
            ) && expected@ == old(reference)@[current.seq()[i].0].hash
                && found@ == current.seq()[i].1.hash,
            Verdict::Moved { prior } => index_of(old(reference).seq()).contains_key(
                current.seq()[i].1.hash,
            ) && path_views(prior@) == index_of(old(reference).seq())[current.seq()[i].1.hash],
            _ => true,
        },
        summary_matches(r.1, classify_seq(
            current.seq(),
            old(reference)@,
            index_of(old(reference).seq()),
        )),
        update ==> final(reference)@ == updated_ref(
            old(reference)@,
            current.seq(),
            index_of(old(reference).seq()),
        ),
        !update ==> final(reference)@ == old(reference)@,
{
    let idx = RefIndex::build(&*reference);
    let (verdicts, summary) = classify_all(current, &*reference, &idx);
    if update {
        apply_updates(current, reference, &idx, &verdicts);
    }
    (verdicts, summary)
}

} // verus!
