use treeguard::codec::{load_snapshot_str, save_snapshot_string};
use treeguard::index::RefIndex;
use treeguard::meta::FileMeta;
use treeguard::scan::{build_snapshot, should_skip_dir};
use treeguard::snapshot::SnapshotMap;

fn meta(hash: &str, modified: u64, size: i64) -> FileMeta {
    FileMeta { hash: hash.to_string(), modified, size }
}

fn assert_same_content(a: &SnapshotMap, b: &SnapshotMap) {
    assert_eq!(a.len(), b.len());
    for i in 0..a.len() {
        let e = a.entry_at(i);
        let other = b.get(&e.0).expect("path missing after round trip");
        assert_eq!(other.hash, e.1.hash);
        assert_eq!(other.modified, e.1.modified);
        assert_eq!(other.size, e.1.size);
    }
}

#[test]
fn save_format_exact() {
    let mut m = SnapshotMap::new();
    m.insert("a/b.txt".to_string(), meta("ff00", 12, 34));
    let text = save_snapshot_string(&m);
    assert_eq!(
        text,
        "{\"a/b.txt\":{\"hash\":\"ff00\",\"modified\":12,\"size\":34}}"
    );
}

#[test]
fn save_escapes_quotes_and_backslashes() {
    let mut m = SnapshotMap::new();
    m.insert("dir\\fi\"le".to_string(), meta("00", 0, 0));
    let text = save_snapshot_string(&m);
    assert_eq!(
        text,
        "{\"dir\\\\fi\\\"le\":{\"hash\":\"00\",\"modified\":0,\"size\":0}}"
    );
}

#[test]
fn snapshot_round_trip() {
    let mut m = SnapshotMap::new();
    m.insert("plain.txt".to_string(), meta("ab12", 1700000000, 42));
    m.insert("odd \"name\"\\path".to_string(), meta("cd34", 0, -7));
    m.insert("empty".to_string(), meta("ee55", 3, 0));
    let text = save_snapshot_string(&m);
    let loaded = load_snapshot_str(&text).expect("writer output must parse");
    assert_same_content(&m, &loaded);
    // and saving what was loaded reproduces the same content again
    let text2 = save_snapshot_string(&loaded);
    let loaded2 = load_snapshot_str(&text2).expect("second round trip");
    assert_same_content(&loaded, &loaded2);
}

#[test]
fn empty_snapshot_round_trip() {
    let m = SnapshotMap::new();
    let text = save_snapshot_string(&m);
    assert_eq!(text, "{}");
    let loaded = load_snapshot_str(&text).expect("empty object must parse");
    assert_eq!(loaded.len(), 0);
}

#[test]
fn load_accepts_whitespace_and_escapes() {
    let text = " {\n  \"a\\tb\" : { \"hash\" : \"aa\" ,\n \"modified\" : 5 , \"size\" : -3 }\n} ";
    let m = load_snapshot_str(text).expect("whitespace-laden snapshot must parse");
    let e = m.get(&"a\tb".to_string()).expect("unescaped path");
    assert_eq!(e.hash, "aa");
    assert_eq!(e.modified, 5);
    assert_eq!(e.size, -3);
}

#[test]
fn load_rejects_malformed_text() {
    // each of these is the parse error the run aborts on
    assert!(load_snapshot_str("").is_none());
    assert!(load_snapshot_str("not json").is_none());
    assert!(load_snapshot_str("{\"a\":{\"hash\":\"x\",\"modified\":1}}").is_none());
    assert!(load_snapshot_str("{\"a\":{\"hash\":\"x\",\"modified\":1,\"size\":2}").is_none());
    assert!(load_snapshot_str("{\"a\":{\"hash\":\"x\",\"modified\":99999999999999999999,\"size\":2}}").is_none());
    assert!(load_snapshot_str("{} trailing").is_none());
}

#[test]
fn later_duplicate_path_wins_on_load() {
    let text = "{\"a\":{\"hash\":\"old\",\"modified\":1,\"size\":1},\"a\":{\"hash\":\"new\",\"modified\":2,\"size\":2}}";
    let m = load_snapshot_str(text).expect("duplicate keys still parse");
    assert_eq!(m.len(), 1);
    assert_eq!(m.get(&"a".to_string()).unwrap().hash, "new");
}

#[test]
fn build_snapshot_drops_failures() {
    let results = vec![
        ("ok1".to_string(), Some(meta("h1", 1, 1))),
        ("bad".to_string(), None),
        ("ok2".to_string(), Some(meta("h2", 2, 2))),
    ];
    let m = build_snapshot(&results);
    assert_eq!(m.len(), 2);
    assert!(m.get(&"ok1".to_string()).is_some());
    assert!(m.get(&"bad".to_string()).is_none());
    assert_eq!(m.get(&"ok2".to_string()).unwrap().hash, "h2");
}

#[test]
fn skip_dir_matches_by_exact_name() {
    let skips = vec![".git".to_string(), "target".to_string()];
    assert!(should_skip_dir(&".git".to_string(), &skips));
    assert!(should_skip_dir(&"target".to_string(), &skips));
    assert!(!should_skip_dir(&"src".to_string(), &skips));
    assert!(!should_skip_dir(&".gitignore".to_string(), &skips));
    assert!(!should_skip_dir(&"git".to_string(), &vec![]));
}

#[test]
fn index_groups_paths_by_digest() {
    let mut reference = SnapshotMap::new();
    reference.insert("one".to_string(), meta("dup", 1, 5));
    reference.insert("two".to_string(), meta("dup", 2, 5));
    reference.insert("three".to_string(), meta("solo", 3, 5));
    let idx = RefIndex::build(&reference);
    let dup = idx.get_bucket(&"dup".to_string()).expect("shared digest bucket");
    assert_eq!(dup, &vec!["one".to_string(), "two".to_string()]);
    let solo = idx.get_bucket(&"solo".to_string()).expect("single digest bucket");
    assert_eq!(solo, &vec!["three".to_string()]);
    assert!(idx.get_bucket(&"absent".to_string()).is_none());
}
