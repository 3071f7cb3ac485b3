use p2p_dir_sync::digest::hash_contents;
use p2p_dir_sync::message::{BlobFormat, PeerRef, SyncUpdateBody};
use p2p_dir_sync::peer_id::{BlobHash, PeerId};
use p2p_dir_sync::send::{
    broadcast_tombstone, resolve_safe_path, Probe, ResolveProblem, SendAction, SendError,
    SendEvent, Sending, WalkStep, MAX_FILE_SIZE,
};
use p2p_dir_sync::state::{
    compute_repo_hash, PendingTracker, SyncState, TOMBSTONE_DEDUP_TTL,
};
use std::collections::BTreeMap;
use std::time::Duration;

const ROOT: &str = "/root/watched";

fn tree(entries: &[(&str, Probe)]) -> BTreeMap<String, Probe> {
    let mut t = BTreeMap::from([(ROOT.to_string(), Probe::Directory)]);
    for (p, probe) in entries {
        t.insert(format!("{ROOT}/{p}"), probe.clone());
    }
    t
}

fn look(t: &BTreeMap<String, Probe>, p: &str) -> Probe {
    t.get(p).cloned().unwrap_or(Probe::Missing)
}

fn resolve(t: &BTreeMap<String, Probe>, rel: &str) -> Result<String, (ResolveProblem, String)> {
    let mut seen = Vec::new();
    loop {
        match resolve_safe_path(ROOT, rel, &seen) {
            WalkStep::Look(p) => seen.push(look(t, &p)),
            WalkStep::Resolved(p) => return Ok(p),
            WalkStep::Rejected(e) => return Err((e.problem, e.message())),
        }
    }
}

fn peer(byte: u8) -> PeerRef {
    let key = iroh_base::SecretKey::from_bytes(&[byte; 32]).public();
    PeerRef { id: PeerId::from_bytes(*key.as_bytes()).unwrap() }
}

#[test]
fn resolve_safe_path_accepts_simple_relative() {
    let t = tree(&[("foo.md", Probe::Other)]);
    assert_eq!(resolve(&t, "foo.md").unwrap(), "/root/watched/foo.md");
}

#[test]
fn resolve_safe_path_accepts_nested() {
    let t = tree(&[("a", Probe::Directory), ("a/b", Probe::Directory), ("a/b/c.md", Probe::Other)]);
    assert_eq!(resolve(&t, "a/b/c.md").unwrap(), "/root/watched/a/b/c.md");
}

#[test]
fn resolve_safe_path_accepts_new_file_in_existing_dir() {
    let t = tree(&[("sub", Probe::Directory)]);
    assert_eq!(resolve(&t, "sub/new.md").unwrap(), "/root/watched/sub/new.md");
}

#[test]
fn resolve_safe_path_rejects_dotdot() {
    let e = resolve(&tree(&[]), "../escape.md").unwrap_err();
    assert!(e.1.contains(".."));
}

#[test]
fn resolve_safe_path_rejects_absolute() {
    let e = resolve(&tree(&[]), "/etc/passwd").unwrap_err();
    assert!(e.1.contains("absolute"));
}

#[test]
fn resolve_safe_path_rejects_symlink_escape() {
    let t = tree(&[("escape_dir", Probe::Symlink)]);
    let e = resolve(&t, "escape_dir/foo.md").unwrap_err();
    assert!(e.1.contains("escapes watched_dir"));
}

#[test]
fn resolve_safe_path_rejects_nested_path_through_symlink() {
    let t = tree(&[("link", Probe::Symlink)]);
    let e = resolve(&t, "link/new_subdir/file.md").unwrap_err();
    assert!(e.1.contains("symlink"));
    assert_eq!(e.1, "path escapes watched_dir via symlink at /root/watched/link");
}

#[test]
fn resolve_safe_path_rejects_terminal_symlink() {
    let t = tree(&[("link.md", Probe::Symlink)]);
    let e = resolve(&t, "link.md").unwrap_err();
    assert!(e.1.contains("symlink"));
}

#[test]
fn resolve_safe_path_names_each_problem() {
    let t = tree(&[("f", Probe::Other), ("u", Probe::Unreadable("denied".into()))]);
    let e = resolve(&t, "f/x").unwrap_err();
    assert_eq!(e.0, ResolveProblem::NotDirectory);
    assert_eq!(e.1, "intermediate component is not a directory: /root/watched/f");
    let e = resolve(&t, "u/x").unwrap_err();
    assert_eq!(e.0, ResolveProblem::Unreadable);
    assert_eq!(e.1, "symlink_metadata /root/watched/u: denied");
    let e = resolve(&BTreeMap::new(), "x").unwrap_err();
    assert_eq!(e.0, ResolveProblem::RootUnreadable);
    assert_eq!(
        e.1,
        "symlink_metadata /root/watched: No such file or directory (os error 2)"
    );
    let closed = BTreeMap::from([(ROOT.to_string(), Probe::Unreadable("denied".into()))]);
    let e = resolve(&closed, "x").unwrap_err();
    assert_eq!(e.0, ResolveProblem::RootUnreadable);
    assert_eq!(e.1, "symlink_metadata /root/watched: denied");
    let file = BTreeMap::from([(ROOT.to_string(), Probe::Other)]);
    let e = resolve(&file, "x").unwrap_err();
    assert_eq!(e.0, ResolveProblem::RootNotDirectory);
    assert_eq!(e.1, "watched_dir is not a directory: /root/watched");
    let link = BTreeMap::from([(ROOT.to_string(), Probe::Symlink)]);
    assert_eq!(resolve(&link, "x").unwrap_err().0, ResolveProblem::RootNotDirectory);
}

#[test]
fn resolve_looks_at_each_place_once_in_order() {
    let step = |seen: &[Probe]| resolve_safe_path("/r", "a/b", seen);
    assert_eq!(step(&[]), WalkStep::Look("/r".into()));
    assert_eq!(step(&[Probe::Directory]), WalkStep::Look("/r/a".into()));
    assert_eq!(
        step(&[Probe::Directory, Probe::Directory]),
        WalkStep::Look("/r/a/b".into())
    );
    assert_eq!(
        step(&[Probe::Directory, Probe::Missing]),
        WalkStep::Resolved("/r/a/b".into())
    );
}

#[test]
fn max_file_size_is_10mib() {
    assert_eq!(MAX_FILE_SIZE, 10 * 1024 * 1024);
}

#[test]
fn send_file_broadcasts_upsert() {
    let t = tree(&[("foo.md", Probe::Other)]);
    let mut state = SyncState::new();
    let mut run = Sending::start(ROOT, "foo.md", peer(11));
    let mut sent = None;
    loop {
        let ev = match run.action() {
            SendAction::Look(p) => SendEvent::Found(look(&t, &p)),
            SendAction::Stat(p) => {
                assert_eq!(p, "/root/watched/foo.md");
                SendEvent::Metadata { is_file: true, len: 11 }
            }
            SendAction::Read(_) => SendEvent::Bytes(b"hello world".to_vec()),
            SendAction::Store(bytes) => SendEvent::Stored(hash_contents(&bytes)),
            SendAction::Broadcast(u) => {
                sent = Some(u);
                SendEvent::Done
            }
            SendAction::Finished => break,
            SendAction::Failed(e) => panic!("{}", e.message()),
        };
        run.step(&mut state, ev);
    }
    let hash = hash_contents(b"hello world");
    match sent.unwrap().body {
        SyncUpdateBody::Upsert { path, hash: h, format, from } => {
            assert_eq!(path, "foo.md");
            assert_eq!(h, hash);
            assert_eq!(format, BlobFormat::Raw);
            assert_eq!(from, peer(11));
        }
        _ => panic!("expected Upsert"),
    }
    assert_eq!(state.last_written.get(&"foo.md".to_string()), Some(&hash));
}

#[test]
fn send_file_rejects_oversized() {
    let mut state = SyncState::new();
    let mut run = Sending::start(ROOT, "big.bin", peer(12));
    run.step(&mut state, SendEvent::Found(Probe::Directory));
    run.step(&mut state, SendEvent::Found(Probe::Other));
    run.step(&mut state, SendEvent::Metadata { is_file: true, len: MAX_FILE_SIZE + 1 });
    match run.action() {
        SendAction::Failed(e) => {
            assert!(e.message().contains("too large"));
            assert_eq!(e.message(), "file too large: 10485761 bytes > 10485760 bytes");
        }
        other => panic!("unexpected {other:?}"),
    }
    assert_eq!(state.last_written.len(), 0);
}

#[test]
fn send_file_refuses_what_is_no_file_and_reports_failures() {
    let mut state = SyncState::new();
    let start = |state: &mut SyncState| {
        let mut run = Sending::start(ROOT, "d", peer(1));
        run.step(state, SendEvent::Found(Probe::Directory));
        run.step(state, SendEvent::Found(Probe::Directory));
        run
    };
    let mut run = start(&mut state);
    run.step(&mut state, SendEvent::Metadata { is_file: false, len: 0 });
    match run.action() {
        SendAction::Failed(e) => assert_eq!(e.message(), "not a regular file: /root/watched/d"),
        other => panic!("unexpected {other:?}"),
    }
    let mut run = start(&mut state);
    run.step(&mut state, SendEvent::Failed("gone".into()));
    assert_eq!(run.action(), SendAction::Failed(SendError::Io("gone".into())));
    let run = Sending::start(ROOT, "../x", peer(1));
    assert!(matches!(run.action(), SendAction::Failed(SendError::Resolve(_))));
}

#[test]
fn events_that_answer_nothing_change_nothing() {
    let mut state = SyncState::new();
    let mut run = Sending::start(ROOT, "d", peer(1));
    let before = run.action();
    run.step(&mut state, SendEvent::Done);
    run.step(&mut state, SendEvent::Stored(BlobHash { bytes: [1; 32] }));
    assert_eq!(run.action(), before);
}

#[test]
fn broadcast_tombstone_dedup_within_ttl() {
    let mut state = SyncState::new();
    let r1 = broadcast_tombstone(&mut state, "removed.md", peer(13), 1000).unwrap();
    assert!(r1.is_some());
    assert_eq!(r1.unwrap().path(), "removed.md");
    let r2 = broadcast_tombstone(&mut state, "removed.md", peer(13), 2999).unwrap();
    assert!(r2.is_none());
    assert!(broadcast_tombstone(&mut state, "other.md", peer(13), 2999).unwrap().is_some());
    let r3 = broadcast_tombstone(&mut state, "removed.md", peer(13), 3000).unwrap();
    assert!(r3.is_some());
    assert!(broadcast_tombstone(&mut state, "/x", peer(13), 3000).is_err());
}

#[test]
fn sync_state_default_is_empty() {
    let s = SyncState::default();
    assert_eq!(s.pending_written.len(), 0);
    assert_eq!(s.last_written.len(), 0);
    assert_eq!(s.last_removed.len(), 0);
    assert_eq!(s.recently_broadcast_tombstones.len(), 0);
}

#[test]
fn tombstone_dedup_ttl_is_2_seconds() {
    assert_eq!(Duration::from_millis(TOMBSTONE_DEDUP_TTL), Duration::from_secs(2));
}

#[test]
fn compute_repo_hash_is_16_hex() {
    let h = compute_repo_hash("/tmp/foo");
    assert_eq!(h.len(), 16);
    assert!(h.chars().all(|c| c.is_ascii_hexdigit()));
    assert_eq!(h, blake3::hash(b"/tmp/foo").to_hex().as_str()[..16]);
}

#[test]
fn compute_repo_hash_deterministic() {
    let h1 = compute_repo_hash("/tmp/foo");
    let h2 = compute_repo_hash("/tmp/foo");
    assert_eq!(h1, h2);
}

#[test]
fn compute_repo_hash_differs_by_path() {
    let h1 = compute_repo_hash("/tmp/foo");
    let h2 = compute_repo_hash("/tmp/bar");
    assert_ne!(h1, h2);
}

#[test]
fn pending_tracker_new_succeeds_when_out_dir_exists() {
    let tracker = PendingTracker::new("/state/pending", "/tmp/out");
    assert_eq!(tracker.repo_hash.len(), 16);
    assert_eq!(tracker.pending_root, "/state/pending");
    assert_eq!(tracker.repo_hash, compute_repo_hash("/tmp/out"));
}
