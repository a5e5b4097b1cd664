use treeguard::digest::FingerprintBuilder;
use treeguard::meta::{FileMeta, Summary, Verdict, VerdictKind};
use treeguard::reconcile::reconcile;
use treeguard::snapshot::SnapshotMap;

fn meta(hash: &str, modified: u64, size: i64) -> FileMeta {
    FileMeta { hash: hash.to_string(), modified, size }
}

fn kind_of(v: &Verdict) -> VerdictKind {
    match v {
        Verdict::Matched => VerdictKind::Matched,
        Verdict::Mismatched { .. } => VerdictKind::Mismatched,
        Verdict::SkippedStaleMetadata => VerdictKind::SkippedStaleMetadata,
        Verdict::Moved { .. } => VerdictKind::Moved,
        Verdict::Extra => VerdictKind::Extra,
    }
}

fn counts(s: &Summary) -> (usize, usize, usize, usize, usize, bool) {
    (s.matched, s.mismatched, s.skipped, s.moved, s.extra, s.has_mismatch)
}

#[test]
fn digest_matches_blake3() {
    let mut b = FingerprintBuilder::new();
    b.add_chunk(b"x");
    let m = b.finish(7, 1);
    let expected = blake3::hash(b"x").to_hex().to_string();
    assert_eq!(m.hash, expected);
    assert_eq!(m.modified, 7);
    assert_eq!(m.size, 1);
}

#[test]
fn digest_streaming_equals_whole() {
    let mut one = FingerprintBuilder::new();
    one.add_chunk(b"hello world");
    let mut chunked = FingerprintBuilder::new();
    chunked.add_chunk(b"hello ");
    chunked.add_chunk(b"world");
    assert_eq!(one.finish(0, 11).hash, chunked.finish(0, 11).hash);
}

#[test]
fn digest_ignores_path_and_name() {
    // Content addressing: the builder never sees a path, so two files with
    // the same bytes get the same digest wherever they live.
    let mut a = FingerprintBuilder::new();
    a.add_chunk(b"same content");
    let mut b = FingerprintBuilder::new();
    b.add_chunk(b"same content");
    assert_eq!(a.finish(1, 12).hash, b.finish(99, 12).hash);
}

#[test]
fn digest_deterministic_rerun() {
    let mut first = FingerprintBuilder::new();
    first.add_chunk(b"stable bytes");
    let m1 = first.finish(5, 12);
    let mut second = FingerprintBuilder::new();
    second.add_chunk(b"stable bytes");
    let m2 = second.finish(5, 12);
    assert_eq!(m1.hash, m2.hash);
    assert_eq!(m1.modified, m2.modified);
    assert_eq!(m1.size, m2.size);
}

#[test]
fn all_digests_match_means_no_mismatch() {
    let mut current = SnapshotMap::new();
    current.insert("a".to_string(), meta("h1", 1, 3));
    current.insert("b".to_string(), meta("h2", 9, 4));
    let mut reference = SnapshotMap::new();
    reference.insert("a".to_string(), meta("h1", 2, 3));
    reference.insert("b".to_string(), meta("h2", 9, 4));
    let (verdicts, summary) = reconcile(&current, &mut reference, false);
    assert_eq!(verdicts.len(), 2);
    assert!(verdicts.iter().all(|v| kind_of(v) == VerdictKind::Matched));
    assert_eq!(counts(&summary), (2, 0, 0, 0, 0, false));
}

#[test]
fn changed_digest_same_mtime_is_mismatched() {
    let mut current = SnapshotMap::new();
    current.insert("a".to_string(), meta("new-hash", 5, 3));
    let mut reference = SnapshotMap::new();
    reference.insert("a".to_string(), meta("old-hash", 5, 3));
    let (verdicts, summary) = reconcile(&current, &mut reference, false);
    match &verdicts[0] {
        Verdict::Mismatched { expected, found } => {
            assert_eq!(expected, "old-hash");
            assert_eq!(found, "new-hash");
        }
        _ => panic!("expected a mismatch verdict"),
    }
    assert_eq!(counts(&summary), (0, 1, 0, 0, 0, true));
}

#[test]
fn changed_digest_new_mtime_is_skipped() {
    let mut current = SnapshotMap::new();
    current.insert("a".to_string(), meta("new-hash", 6, 3));
    let mut reference = SnapshotMap::new();
    reference.insert("a".to_string(), meta("old-hash", 5, 3));
    let (verdicts, summary) = reconcile(&current, &mut reference, false);
    assert!(matches!(verdicts[0], Verdict::SkippedStaleMetadata));
    assert_eq!(counts(&summary), (0, 0, 1, 0, 0, false));
}

#[test]
fn new_path_known_digest_is_moved() {
    let mut current = SnapshotMap::new();
    current.insert("new/place".to_string(), meta("h-shared", 5, 10));
    let mut reference = SnapshotMap::new();
    reference.insert("old/place".to_string(), meta("h-shared", 5, 10));
    let (verdicts, summary) = reconcile(&current, &mut reference, false);
    match &verdicts[0] {
        Verdict::Moved { prior } => assert_eq!(prior, &vec!["old/place".to_string()]),
        _ => panic!("expected a moved verdict"),
    }
    assert_eq!(counts(&summary), (0, 0, 0, 1, 0, false));
}

#[test]
fn moved_lists_every_candidate() {
    // two reference paths share the digest: the verdict reports both, in
    // the reference map's entry order
    let mut current = SnapshotMap::new();
    current.insert("relocated".to_string(), meta("twin", 5, 10));
    let mut reference = SnapshotMap::new();
    reference.insert("first/twin".to_string(), meta("twin", 5, 10));
    reference.insert("second/twin".to_string(), meta("twin", 6, 10));
    let (verdicts, summary) = reconcile(&current, &mut reference, false);
    match &verdicts[0] {
        Verdict::Moved { prior } => {
            assert_eq!(prior, &vec!["first/twin".to_string(), "second/twin".to_string()]);
        }
        _ => panic!("expected a moved verdict"),
    }
    assert_eq!(counts(&summary), (0, 0, 0, 1, 0, false));
}

#[test]
fn zero_byte_new_file_is_extra() {
    // The empty digest is non-discriminating: a zero-byte file never
    // counts as moved, even when zero-byte files sit in the reference.
    let mut current = SnapshotMap::new();
    current.insert("fresh/empty".to_string(), meta("h-empty", 5, 0));
    let mut reference = SnapshotMap::new();
    reference.insert("old/empty".to_string(), meta("h-empty", 5, 0));
    let (verdicts, summary) = reconcile(&current, &mut reference, false);
    assert!(matches!(verdicts[0], Verdict::Extra));
    assert_eq!(counts(&summary), (0, 0, 0, 0, 1, false));
}

#[test]
fn update_folds_accepted_records_back() {
    let mut current = SnapshotMap::new();
    current.insert("kept".to_string(), meta("same", 1, 1));
    current.insert("edited".to_string(), meta("edit-new", 9, 2));
    current.insert("brand-new".to_string(), meta("fresh", 3, 5));
    let mut reference = SnapshotMap::new();
    reference.insert("kept".to_string(), meta("same", 4, 1));
    reference.insert("edited".to_string(), meta("edit-old", 5, 2));
    reference.insert("gone".to_string(), meta("never-visited", 2, 8));
    let (_, summary) = reconcile(&current, &mut reference, true);
    assert_eq!(counts(&summary), (1, 0, 1, 0, 1, false));
    // matched: the old reference record stays, stale mtime and all
    let kept = reference.get(&"kept".to_string()).unwrap();
    assert_eq!(kept.modified, 4);
    // skipped: overwritten with the current record
    let edited = reference.get(&"edited".to_string()).unwrap();
    assert_eq!(edited.hash, "edit-new");
    assert_eq!(edited.modified, 9);
    // extra: inserted
    assert!(reference.get(&"brand-new".to_string()).is_some());
    // absent from the scan: never deleted
    assert!(reference.get(&"gone".to_string()).is_some());
}

#[test]
fn no_update_leaves_reference_alone() {
    let mut current = SnapshotMap::new();
    current.insert("extra".to_string(), meta("h", 1, 1));
    let mut reference = SnapshotMap::new();
    let (_, summary) = reconcile(&current, &mut reference, false);
    assert_eq!(summary.extra, 1);
    assert!(reference.get(&"extra".to_string()).is_none());
}

#[test]
fn rename_scenario() {
    // Snapshot: A -> hash(x) @ t1, B -> hash(y) @ t1. B was renamed to C
    // with content and mtime untouched.
    let mut reference = SnapshotMap::new();
    reference.insert("A".to_string(), meta("hash-x", 100, 1));
    reference.insert("B".to_string(), meta("hash-y", 100, 1));
    let mut current = SnapshotMap::new();
    current.insert("A".to_string(), meta("hash-x", 100, 1));
    current.insert("C".to_string(), meta("hash-y", 100, 1));
    let (verdicts, summary) = reconcile(&current, &mut reference, false);
    assert_eq!(kind_of(&verdicts[0]), VerdictKind::Matched);
    match &verdicts[1] {
        Verdict::Moved { prior } => assert_eq!(prior, &vec!["B".to_string()]),
        _ => panic!("expected C to be moved from B"),
    }
    assert_eq!(counts(&summary), (1, 0, 0, 1, 0, false));
}

#[test]
fn corruption_scenario() {
    // Same snapshot; A's content was overwritten without touching its
    // mtime. The run must fail distinctly.
    let mut reference = SnapshotMap::new();
    reference.insert("A".to_string(), meta("hash-x", 100, 1));
    reference.insert("B".to_string(), meta("hash-y", 100, 1));
    let mut current = SnapshotMap::new();
    current.insert("A".to_string(), meta("hash-corrupt", 100, 1));
    current.insert("B".to_string(), meta("hash-y", 100, 1));
    let (verdicts, summary) = reconcile(&current, &mut reference, false);
    assert_eq!(kind_of(&verdicts[0]), VerdictKind::Mismatched);
    assert_eq!(kind_of(&verdicts[1]), VerdictKind::Matched);
    assert!(summary.has_mismatch);
    assert_eq!(summary.mismatched, 1);
}
