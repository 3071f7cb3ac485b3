use p2p_dir_sync::message::{
    validate_relative_path, BlobFormat, PathProblem, PeerRef, SyncUpdate, SyncUpdateBody,
    WireError, SYNC_UPDATE_VERSION,
};
use p2p_dir_sync::peer_id::{BlobHash, PeerId};

fn fixture_peer(byte: u8) -> PeerRef {
    let key = iroh_base::SecretKey::from_bytes(&[byte; 32]).public();
    PeerRef { id: PeerId::from_bytes(*key.as_bytes()).unwrap() }
}

fn fixture_hash(byte: u8) -> BlobHash {
    BlobHash { bytes: [byte; 32] }
}

#[test]
fn validate_accepts_relative() {
    assert!(validate_relative_path("foo.md").is_ok());
    assert!(validate_relative_path("entities/sla.md").is_ok());
    assert!(validate_relative_path("a/b/c/d.md").is_ok());
}

#[test]
fn validate_rejects_empty() {
    assert!(validate_relative_path("").is_err());
}

#[test]
fn validate_rejects_absolute() {
    assert!(validate_relative_path("/etc/passwd").is_err());
}

#[test]
fn validate_rejects_dotdot() {
    assert!(validate_relative_path("../escape").is_err());
    assert!(validate_relative_path("a/../b").is_err());
}

#[test]
fn validate_rejects_backslash() {
    assert!(validate_relative_path("a\\b").is_err());
}

#[test]
fn validate_rejects_empty_component() {
    assert!(validate_relative_path("a//b").is_err());
}

#[test]
fn validate_names_the_problem() {
    let problem = |p: &str| validate_relative_path(p).unwrap_err();
    assert_eq!(problem("").problem, PathProblem::Empty);
    assert_eq!(problem("/a").problem, PathProblem::Absolute);
    assert_eq!(problem("a\\b").problem, PathProblem::Backslash);
    assert_eq!(problem("a/").problem, PathProblem::EmptyComponent);
    assert_eq!(problem("a//../b").problem, PathProblem::EmptyComponent);
    assert_eq!(problem("a/..//b").problem, PathProblem::DotComponent);
    assert_eq!(problem("./a").problem, PathProblem::DotComponent);
    assert_eq!(problem("").message(), "rel_path is empty");
    assert_eq!(problem("/a").message(), "absolute path not allowed: /a");
    assert_eq!(problem("a\\b").message(), "backslash not allowed in rel_path: a\\b");
    assert_eq!(problem("a/").message(), "empty path component in: a/");
    assert_eq!(problem("..").message(), "`..` / `.` not allowed in rel_path: ..");
    assert!(validate_relative_path("...").is_ok());
    assert!(validate_relative_path("a/.hidden").is_ok());
}

#[test]
fn sync_update_upsert_round_trip() {
    let from = fixture_peer(1);
    let m = SyncUpdate::upsert("entities/sla.md".into(), fixture_hash(0xaa), BlobFormat::Raw, from)
        .unwrap();
    let m2 = SyncUpdate::from_wire(m.clone()).unwrap();
    assert_eq!(m, m2);
    assert_eq!(m2.path(), "entities/sla.md");
    assert_eq!(m2.from(), &from);
    assert_eq!(m2.version, SYNC_UPDATE_VERSION);
}

#[test]
fn sync_update_tombstone_round_trip() {
    let from = fixture_peer(2);
    let m = SyncUpdate::tombstone("entities/old.md".into(), from).unwrap();
    let m2 = SyncUpdate::from_wire(m.clone()).unwrap();
    assert_eq!(m, m2);
    match m2.body {
        SyncUpdateBody::Tombstone { path, .. } => assert_eq!(path, "entities/old.md"),
        _ => panic!("expected Tombstone"),
    }
}

#[test]
fn sync_update_rejects_invalid_path() {
    let from = fixture_peer(3);
    assert!(
        SyncUpdate::upsert("../escape".into(), fixture_hash(1), BlobFormat::Raw, from).is_err()
    );
    assert!(SyncUpdate::tombstone("/abs".into(), from).is_err());
}

#[test]
fn sync_update_rejects_wrong_version() {
    let from = fixture_peer(4);
    let mut m =
        SyncUpdate::upsert("foo.md".into(), fixture_hash(1), BlobFormat::Raw, from).unwrap();
    m.version = 99;
    let e = SyncUpdate::from_wire(m).unwrap_err();
    assert!(e.message().contains("version mismatch"));
    assert_eq!(e.message(), "SyncUpdate version mismatch: expected 2, got 99");
}

#[test]
fn received_update_with_bad_path_is_refused() {
    let m = SyncUpdate {
        version: 2,
        body: SyncUpdateBody::Tombstone { path: "a/../b".into(), from: fixture_peer(5) },
    };
    match SyncUpdate::from_wire(m) {
        Err(WireError::Path(e)) => assert_eq!(e.problem, PathProblem::DotComponent),
        other => panic!("expected a path error, got {other:?}"),
    }
}

#[test]
fn peer_id_text_is_read_back() {
    let id = fixture_peer(9).id;
    let text = id.text();
    assert_eq!(text.len(), 64);
    assert_eq!(text, iroh_base::SecretKey::from_bytes(&[9; 32]).public().to_string());
    assert_eq!(PeerId::parse(&text).unwrap(), id);
    assert!(PeerId::parse("not-a-valid-id").is_err());
    assert!(PeerId::parse("").is_err());
}

#[test]
fn bytes_that_are_no_key_are_no_peer() {
    let mut bytes = [0u8; 32];
    let mut refused = 0;
    for b in 0..32u8 {
        bytes[0] = b;
        let ours = PeerId::from_bytes(bytes);
        let theirs = iroh_base::EndpointId::from_bytes(&bytes);
        assert_eq!(ours.is_some(), theirs.is_ok());
        if ours.is_none() {
            refused += 1;
        }
    }
    assert!(refused > 0);
}
