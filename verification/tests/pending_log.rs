use p2p_dir_sync::pending_log::{
    limit_pending, list_pending, names_record, record_file_name_of, record_receive,
    PendingEntry, PENDING_SCHEMA_VERSION,
};
use std::collections::BTreeMap;

fn upsert(t: i64, peer: &str, path: &str) -> PendingEntry {
    PendingEntry::Upsert {
        schema_version: PENDING_SCHEMA_VERSION,
        rel_path: path.into(),
        received_at: t,
        source_peer: peer.into(),
        blob_hash: "blake3:abc".into(),
        bytes: 100,
    }
}

fn tombstone(t: i64, peer: &str, path: &str) -> PendingEntry {
    PendingEntry::Tombstone {
        schema_version: PENDING_SCHEMA_VERSION,
        rel_path: path.into(),
        received_at: t,
        source_peer: peer.into(),
    }
}

struct Disk {
    files: BTreeMap<String, PendingEntry>,
}

fn target(e: &PendingEntry, nanos: u32, taken: &[&str]) -> String {
    let taken = taken.iter().map(|s| s.to_string()).collect();
    record_receive("/p", "r", e, nanos, &taken, Vec::new()).unwrap().target
}

impl Disk {
    fn new() -> Disk {
        Disk { files: BTreeMap::new() }
    }

    fn record(&mut self, repo: &str, e: &PendingEntry) {
        let dir = format!("/p/{repo}/");
        let names = self.files.keys().filter_map(|p| p.strip_prefix(&dir));
        let taken = names.map(str::to_owned).collect();
        let w = record_receive("/p", repo, e, 0, &taken, Vec::new()).unwrap();
        assert_eq!(w.dir, format!("/p/{repo}"));
        assert!(w.target.starts_with(&format!("/p/{repo}/")));
        assert!(self.files.insert(w.target, e.clone()).is_none());
    }

    fn list(&self, repo: &str) -> Vec<PendingEntry> {
        let dir = format!("/p/{repo}/");
        let mut entries = Vec::new();
        for (path, e) in &self.files {
            if let Some(name) = path.strip_prefix(&dir) {
                if names_record(name) {
                    entries.push(e.clone());
                }
            }
        }
        list_pending(entries)
    }
}

#[test]
fn accessors() {
    let e = upsert(50, "peer-xyz-12345", "p.md");
    assert_eq!(e.rel_path(), "p.md");
    assert_eq!(e.received_at(), 50);
    assert_eq!(e.source_peer(), "peer-xyz-12345");
    let e = tombstone(51, "q", "r.md");
    assert_eq!((e.rel_path(), e.received_at(), e.source_peer()), ("r.md", 51, "q"));
}

#[test]
fn record_and_list_round_trip() {
    let mut disk = Disk::new();
    disk.record("repo1", &upsert(100, "peer1234", "a.md"));
    disk.record("repo1", &tombstone(200, "peer5678", "b.md"));
    disk.record("repo2", &upsert(300, "peer1234", "c.md"));
    let entries = disk.list("repo1");
    assert_eq!(entries.len(), 2);
    assert_eq!(entries[0].received_at(), 200);
    assert_eq!(entries[1].received_at(), 100);
}

#[test]
fn list_pending_missing_dir_returns_empty() {
    assert!(list_pending(Vec::new()).is_empty());
}

#[test]
fn record_receive_does_not_collide_on_same_ts_peer_path() {
    let mut disk = Disk::new();
    let e = upsert(100, "peer123456", "entities/foo.md");
    for _ in 0..5 {
        disk.record("r", &e);
    }
    assert_eq!(disk.list("r").len(), 5);
}

#[test]
fn record_receive_separates_by_rel_path() {
    let a = target(&upsert(100, "peer1", "a.md"), 7, &[]);
    let b = target(&upsert(100, "peer1", "b.md"), 7, &[]);
    assert_ne!(a, b);
}

#[test]
fn record_name_has_the_documented_form() {
    let hash = blake3::hash(b"a.md").to_hex();
    assert_eq!(
        target(&upsert(100, "peer123456", "a.md"), 42, &[]),
        format!("/p/r/100-peer1234-{}-000000042.json", &hash.as_str()[..8])
    );
    assert_eq!(
        record_file_name_of(&upsert(-5, "p", "x"), &[0xab; 32], 999999999),
        "-5-p-abababab-999999999.json"
    );
    assert_eq!(
        record_file_name_of(&upsert(0, "", "x"), &[0; 32], 4000000000),
        "0--00000000-4000000000.json"
    );
    assert_eq!(
        record_file_name_of(&upsert(i64::MIN, "p", "x"), &[0; 32], 1),
        "-9223372036854775808-p-00000000-000000001.json"
    );
}

#[test]
fn record_is_written_in_one_step() {
    let body = b"{}".to_vec();
    let w = record_receive("/p", "r", &upsert(1, "x", "a.md"), 1, &Vec::new(), body).unwrap();
    assert_eq!(w.prefix, ".pending.");
    assert!(!w.private);
    assert_eq!(w.content, b"{}");
}

#[test]
fn taken_names_are_passed_over() {
    let e = upsert(1, "x", "a.md");
    let name = |n: u32| record_file_name_of(&e, blake3::hash(b"a.md").as_bytes(), n);
    let (a, b) = (name(7), name(8));
    assert_eq!(target(&e, 7, &[&b]), format!("/p/r/{a}"));
    assert_eq!(target(&e, 7, &[&b, "x", &a]), format!("/p/r/{}", name(9)));
    let last = vec![name(u32::MAX)];
    assert!(record_receive("/p", "r", &e, u32::MAX, &last, Vec::new()).is_none());
    assert_ne!(name(7), record_file_name_of(&upsert(2, "y", "b"), &[0; 32], 8));
}

#[test]
fn only_records_are_listed() {
    assert!(names_record("1-a-b-c.json"));
    assert!(!names_record(".pending.abc.tmp"));
    assert!(!names_record(".hidden.json"));
    assert!(!names_record(".json"));
    assert!(!names_record("notes.txt"));
    assert!(!names_record("json"));
}

#[test]
fn newest_come_first_and_equals_stay_in_order() {
    let list = list_pending(vec![
        upsert(1, "a", "1"),
        upsert(3, "b", "2"),
        tombstone(1, "c", "3"),
        upsert(2, "d", "4"),
        upsert(3, "e", "5"),
    ]);
    let peers: Vec<&str> = list.iter().map(|e| e.source_peer()).collect();
    assert_eq!(peers, vec!["b", "e", "d", "a", "c"]);
    assert_eq!(limit_pending(list.clone(), Some(2)).len(), 2);
    assert_eq!(limit_pending(list.clone(), Some(9)).len(), 5);
    assert_eq!(limit_pending(list.clone(), None), list);
    assert!(limit_pending(list, Some(0)).is_empty());
}
