use p2p_dir_sync::allowlist::{AllowError, AllowList, AllowSnapshot, PeerInfo};
use p2p_dir_sync::allowlist::save_allowlist;
use p2p_dir_sync::allowlist_blobs::{
    decide_connection, is_authorized, ServeDecision, REJECT_CODE_UNAUTHORIZED,
};
use p2p_dir_sync::peer_id::PeerId;

fn fixture_id(byte: u8) -> PeerId {
    let key = iroh_base::SecretKey::from_bytes(&[byte; 32]).public();
    PeerId::from_bytes(*key.as_bytes()).unwrap()
}

fn reload(a: &AllowList) -> AllowList {
    AllowList::load_or_strict_empty(Some(a.snapshot())).unwrap()
}

#[test]
fn empty_strict_rejects_all() {
    let a = AllowList::empty_strict();
    assert!(!a.is_open_all());
    assert!(a.is_empty());
    assert!(!a.contains(&fixture_id(1)));
}

#[test]
fn open_all_accepts_all() {
    let a = AllowList::open_all();
    assert!(a.is_open_all());
    assert!(a.contains(&fixture_id(1)));
    assert!(a.contains(&fixture_id(2)));
}

#[test]
fn add_transitions_to_strict_mode() {
    let mut a = AllowList::open_all();
    assert!(a.is_open_all());
    a.add(fixture_id(1), PeerInfo::new(Some("alice".into()), 100));
    assert!(!a.is_open_all());
    assert!(a.contains(&fixture_id(1)));
    assert!(!a.contains(&fixture_id(2)));
}

#[test]
fn add_remove_round_trip() {
    let mut a = AllowList::empty_strict();
    let id = fixture_id(7);
    a.add(id, PeerInfo::new(Some("bob".into()), 200));
    assert_eq!(a.len(), 1);
    let removed = a.remove(&id).unwrap();
    assert_eq!(removed.label.as_deref(), Some("bob"));
    assert_eq!(a.len(), 0);
    assert!(a.remove(&id).is_none());
}

#[test]
fn list_returns_all_entries() {
    let mut a = AllowList::empty_strict();
    a.add(fixture_id(1), PeerInfo::new(Some("a".into()), 10));
    a.add(fixture_id(2), PeerInfo::new(None, 20));
    let mut entries = a.list();
    entries.sort_by_key(|(_, info)| info.added_at);
    assert_eq!(entries.len(), 2);
    assert_eq!(entries[0].1.label.as_deref(), Some("a"));
}

#[test]
fn save_and_load_round_trip() {
    let mut a = AllowList::empty_strict();
    a.add(fixture_id(1), PeerInfo::new(Some("alice".into()), 100));
    a.add(fixture_id(2), PeerInfo::new(None, 200));
    let b = reload(&a);
    assert_eq!(b.len(), 2);
    assert!(b.contains(&fixture_id(1)));
    assert!(b.contains(&fixture_id(2)));
    assert!(!b.is_open_all());
    assert_eq!(b.list(), a.list());
}

#[test]
fn load_missing_file_returns_strict_empty() {
    let a = AllowList::load_or_strict_empty(None).unwrap();
    assert!(a.is_empty());
    assert!(!a.is_open_all());
}

#[test]
fn allowlist_load_rejects_wrong_schema_version() {
    let stored = AllowSnapshot { version: 99, open_all: false, peers: Vec::new() };
    let e = AllowList::load_or_strict_empty(Some(stored)).unwrap_err();
    assert!(e.message().contains("schema version mismatch"));
    assert_eq!(e.message(), "allowlist schema version mismatch: expected 2, got 99");
}

#[test]
fn load_rejects_text_that_is_no_peer() {
    let peers = vec![
        (fixture_id(1).text(), PeerInfo::new(None, 1)),
        ("nobody".to_string(), PeerInfo::new(None, 2)),
    ];
    let e = AllowList::from_snapshot(AllowSnapshot { version: 2, open_all: true, peers })
        .unwrap_err();
    match &e {
        AllowError::PeerId { text, .. } => assert_eq!(text, "nobody"),
        other => panic!("unexpected {other:?}"),
    }
    assert!(e.message().starts_with("invalid peer_id `nobody`: "));
}

#[test]
fn add_and_save_persists() {
    let mut a = AllowList::empty_strict();
    let _undo = a.begin_add(fixture_id(1), PeerInfo::new(Some("alice".into()), 100));
    let b = reload(&a);
    assert!(b.contains(&fixture_id(1)));
}

#[test]
fn remove_and_save_persists() {
    let mut a = AllowList::empty_strict();
    let id = fixture_id(1);
    a.add(id, PeerInfo::new(None, 10));
    let removed = a.remove(&id);
    assert!(removed.is_some());
    let b = reload(&a);
    assert!(!b.contains(&id));
}

#[test]
fn open_all_persists_through_save_load() {
    let a = AllowList::open_all();
    let b = reload(&a);
    assert!(b.is_open_all());
}

#[test]
fn failed_save_of_an_addition_leaves_no_trace() {
    let id = fixture_id(3);
    let mut a = AllowList::open_all();
    let undo = a.begin_add(id, PeerInfo::new(Some("new".into()), 5));
    assert!(!a.is_open_all());
    a.undo_add(undo);
    assert!(a.is_open_all());
    assert!(a.is_empty());

    let mut b = AllowList::empty_strict();
    b.add(id, PeerInfo::new(Some("old".into()), 1));
    let undo = b.begin_add(id, PeerInfo::new(Some("new".into()), 5));
    assert_eq!(b.list()[0].1.label.as_deref(), Some("new"));
    b.undo_add(undo);
    assert_eq!(b.list()[0].1.label.as_deref(), Some("old"));
    assert_eq!(b.list()[0].1.added_at, 1);
}

#[test]
fn addition_taken_back_late_stays_strict() {
    let mut a = AllowList::open_all();
    let undo = a.begin_add(fixture_id(1), PeerInfo::new(None, 1));
    a.add(fixture_id(2), PeerInfo::new(None, 2));
    a.undo_add(undo);
    assert!(!a.is_open_all());
    assert!(!a.contains(&fixture_id(1)));
    assert!(a.contains(&fixture_id(2)));
    assert!(!a.contains(&fixture_id(3)));
}

#[test]
fn new_peers_are_listed_last() {
    let mut a = AllowList::empty_strict();
    for n in [3, 1, 2] {
        a.add(fixture_id(n), PeerInfo::new(None, n as i64));
    }
    a.add(fixture_id(1), PeerInfo::new(None, 9));
    let times: Vec<i64> = a.list().iter().map(|(_, info)| info.added_at).collect();
    assert_eq!(times, vec![3, 9, 2]);
    a.remove(&fixture_id(3));
    let times: Vec<i64> = a.list().iter().map(|(_, info)| info.added_at).collect();
    assert_eq!(times, vec![9, 2]);
}

#[test]
fn failed_save_of_a_removal_leaves_no_trace() {
    let id = fixture_id(3);
    let mut a = AllowList::empty_strict();
    a.add(id, PeerInfo::new(Some("x".into()), 1));
    let prev = a.remove(&id);
    a.undo_remove(id, prev);
    assert!(a.contains(&id));
    assert_eq!(a.list()[0].1.label.as_deref(), Some("x"));
    a.undo_remove(fixture_id(4), None);
    assert_eq!(a.len(), 1);
}

#[test]
fn stored_list_is_private() {
    let w = save_allowlist("/state/allowlist.json", b"{}".to_vec()).unwrap();
    assert_eq!(w.dir, "/state");
    assert_eq!(w.target, "/state/allowlist.json");
    assert_eq!(w.prefix, ".allowlist.");
    assert!(w.private);
    assert_eq!(w.content, b"{}");
    let e = save_allowlist("/", Vec::new()).unwrap_err();
    assert_eq!(e.message(), "no parent");
}

#[test]
fn reject_code_is_401() {
    assert_eq!(REJECT_CODE_UNAUTHORIZED, 401);
}

#[test]
fn unknown_peer_not_authorized_in_strict_empty() {
    let al = AllowList::empty_strict();
    assert!(!is_authorized(&al, &fixture_id(1)));
}

#[test]
fn explicitly_added_peer_is_authorized() {
    let mut al = AllowList::empty_strict();
    let id = fixture_id(2);
    al.add(id, PeerInfo::new(Some("bob".into()), 0));
    assert!(is_authorized(&al, &id));
}

#[test]
fn open_all_authorizes_any_peer() {
    let al = AllowList::open_all();
    assert!(is_authorized(&al, &fixture_id(3)));
    assert!(is_authorized(&al, &fixture_id(99)));
}

#[test]
fn revoked_peer_no_longer_authorized() {
    let mut al = AllowList::empty_strict();
    let id = fixture_id(4);
    al.add(id, PeerInfo::new(None, 0));
    assert!(al.contains(&id));
    al.remove(&id);
    assert!(!is_authorized(&al, &id));
}

#[test]
fn is_authorized_matches_contains() {
    let mut al = AllowList::empty_strict();
    let id1 = fixture_id(10);
    let id2 = fixture_id(11);
    al.add(id1, PeerInfo::new(None, 0));
    assert!(is_authorized(&al, &id1));
    assert!(!is_authorized(&al, &id2));
}

#[test]
fn unauthorized_connection_is_closed_with_the_code() {
    let al = AllowList::empty_strict();
    assert_eq!(
        decide_connection(&al, &fixture_id(1)),
        ServeDecision::Close { code: 401, reason: "unauthorized" }
    );
    let open = AllowList::open_all();
    assert_eq!(decide_connection(&open, &fixture_id(1)), ServeDecision::Serve);
}
