//! The classification laws the reconciler obeys, stated over the spec
//! functions its contracts use.

use vstd::prelude::*;

use crate::assoc::assoc_map;
use crate::index::index_of;
use crate::meta::{MetaView, VerdictKind};
use crate::reconcile::{classify, classify_seq, count_kind, lemma_count_pos, updated_ref};

verus! {

/// A current map whose every path carries the digest the reference stores
/// for it yields zero mismatched verdicts, so `has_mismatch` is false.
pub proof fn lemma_all_digests_match_no_mismatch(
    entries: Seq<(Seq<char>, MetaView)>,
    refm: Map<Seq<char>, MetaView>,
    idx: Map<Seq<char>, Seq<Seq<char>>>,
)
    requires
        forall|i: int| 0 <= i < entries.len()
            ==> refm.contains_key((#[trigger] entries[i]).0)
                && refm[entries[i].0].hash == entries[i].1.hash,
    ensures
        count_kind(classify_seq(entries, refm, idx), VerdictKind::Mismatched) == 0,
    decreases entries.len(),
{
    if entries.len() > 0 {
        lemma_all_digests_match_no_mismatch(entries.drop_last(), refm, idx);
        assert(classify_seq(entries, refm, idx).drop_last()
            =~= classify_seq(entries.drop_last(), refm, idx));
        assert(classify_seq(entries, refm, idx).last() == classify(
            entries.last().0,
            entries.last().1,
            refm,
            idx,
        ));
        assert(classify(entries.last().0, entries.last().1, refm, idx) == VerdictKind::Matched);
    }
}

/// A path whose digest changed while its stored modification time did not
/// is classified mismatched, and the run counts at least one mismatch.
pub proof fn lemma_changed_digest_same_mtime_mismatched(
    entries: Seq<(Seq<char>, MetaView)>,
    refm: Map<Seq<char>, MetaView>,
    idx: Map<Seq<char>, Seq<Seq<char>>>,
    i: int,
)
    requires
        0 <= i < entries.len(),
        refm.contains_key(entries[i].0),
        refm[entries[i].0].hash != entries[i].1.hash,
        refm[entries[i].0].modified == entries[i].1.modified,
    ensures
        classify_seq(entries, refm, idx)[i] == VerdictKind::Mismatched,
        count_kind(classify_seq(entries, refm, idx), VerdictKind::Mismatched) > 0,
{
    lemma_count_pos(classify_seq(entries, refm, idx), i, VerdictKind::Mismatched);
}

/// A path whose digest changed and whose modification time changed too is
/// classified skipped (stale metadata), never mismatched.
pub proof fn lemma_changed_digest_new_mtime_skipped(
    entries: Seq<(Seq<char>, MetaView)>,
    refm: Map<Seq<char>, MetaView>,
    idx: Map<Seq<char>, Seq<Seq<char>>>,
    i: int,
)
    requires
        0 <= i < entries.len(),
        refm.contains_key(entries[i].0),
        refm[entries[i].0].hash != entries[i].1.hash,
        refm[entries[i].0].modified != entries[i].1.modified,
    ensures
        classify_seq(entries, refm, idx)[i] == VerdictKind::SkippedStaleMetadata,
        classify_seq(entries, refm, idx)[i] != VerdictKind::Mismatched,
{
}

/// A nonzero-size file under a path new to the reference, whose digest some
/// reference entry carries, is classified moved, and the index bucket the
/// verdict reports lists exactly the reference paths with that digest.
pub proof fn lemma_new_path_known_digest_moved(
    entries: Seq<(Seq<char>, MetaView)>,
    ref_entries: Seq<(Seq<char>, MetaView)>,
    i: int,
    j: int,
)
    requires
        0 <= i < entries.len(),
        0 <= j < ref_entries.len(),
        !assoc_map(ref_entries).contains_key(entries[i].0),
        ref_entries[j].1.hash == entries[i].1.hash,
        entries[i].1.size != 0,
    ensures
        classify_seq(entries, assoc_map(ref_entries), index_of(ref_entries))[i]
            == VerdictKind::Moved,
        index_of(ref_entries)[entries[i].1.hash].contains(ref_entries[j].0),
        forall|k: int| 0 <= k < index_of(ref_entries)[entries[i].1.hash].len()
            ==> exists|l: int| 0 <= l < ref_entries.len()
                && ref_entries[l].0 == #[trigger] index_of(ref_entries)[entries[i].1.hash][k]
                && ref_entries[l].1.hash == entries[i].1.hash,
{
    crate::index::lemma_index_of_correct(ref_entries);
}

/// A zero-byte file under a path new to the reference is always classified
/// extra, never moved, whatever zero-byte entries the reference holds.
pub proof fn lemma_zero_byte_new_file_extra(
    entries: Seq<(Seq<char>, MetaView)>,
    refm: Map<Seq<char>, MetaView>,
    idx: Map<Seq<char>, Seq<Seq<char>>>,
    i: int,
)
    requires
        0 <= i < entries.len(),
        !refm.contains_key(entries[i].0),
        entries[i].1.size == 0,
    ensures
        classify_seq(entries, refm, idx)[i] == VerdictKind::Extra,
        classify_seq(entries, refm, idx)[i] != VerdictKind::Moved,
{
}

/// Folding a scan back into the reference map never deletes an entry: every
/// reference path survives, and every path of the updated map was either a
/// reference path already or belongs to some current entry.
pub proof fn lemma_update_never_deletes(
    refm: Map<Seq<char>, MetaView>,
    entries: Seq<(Seq<char>, MetaView)>,
    idx: Map<Seq<char>, Seq<Seq<char>>>,
)
    ensures
        forall|p: Seq<char>| refm.contains_key(p) ==> #[trigger] updated_ref(
            refm,
            entries,
            idx,
        ).contains_key(p),
        forall|p: Seq<char>| #[trigger] updated_ref(refm, entries, idx).contains_key(p)
            ==> refm.contains_key(p) || exists|i: int| 0 <= i < entries.len() && entries[i].0 == p,
    decreases entries.len(),
{
    if entries.len() > 0 {
        lemma_update_never_deletes(refm, entries.drop_last(), idx);
        let full = updated_ref(refm, entries, idx);
        let prev = updated_ref(refm, entries.drop_last(), idx);
        assert forall|p: Seq<char>| #[trigger] full.contains_key(p) implies refm.contains_key(p)
            || exists|i: int| 0 <= i < entries.len() && entries[i].0 == p by {
            if p == entries.last().0 && full != prev {
                assert(entries[entries.len() - 1].0 == p);
            } else if prev.contains_key(p) {
                if !refm.contains_key(p) {
                    let i = choose|i: int| 0 <= i < entries.drop_last().len()
                        && entries.drop_last()[i].0 == p;
                    assert(entries[i].0 == p);
                }
            } else {
                assert(p == entries.last().0);
                assert(entries[entries.len() - 1].0 == p);
            }
        }
    }
}

} // verus!
