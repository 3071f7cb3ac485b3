use p2p_dir_sync::allowlist::AllowList;
use p2p_dir_sync::conflict::compute_conflict_backup_path;
use p2p_dir_sync::digest::hash_contents;
use p2p_dir_sync::mcp::{call_tool, tools, ToolCall};
use p2p_dir_sync::message::{PeerRef, SyncUpdate};
use p2p_dir_sync::path_text::{join_path, strip_path};
use p2p_dir_sync::peer_id::{BlobHash, PeerId};
use p2p_dir_sync::receive::{dispatch_update, Dispatch, ReceiveEvent, Receiving};
use p2p_dir_sync::redact::redact_secrets;
use p2p_dir_sync::send::{Probe, SendAction, SendEvent, Sending};
use p2p_dir_sync::state::SyncState;
use p2p_dir_sync::watcher::{path_is_skippable, should_skip_under_root, EventKind, WatchEvent};

fn peer(byte: u8) -> PeerId {
    let key = iroh_base::SecretKey::from_bytes(&[byte; 32]).public();
    PeerId::from_bytes(*key.as_bytes()).unwrap()
}

fn modified(path: String) -> WatchEvent {
    WatchEvent { kind: EventKind::Modify, paths: vec![path] }
}

#[test]
fn what_is_sent_is_accepted() {
    let mut state = SyncState::new();
    let mut run = Sending::start("/w", "a/b.md", PeerRef { id: peer(4) });
    for ev in [
        SendEvent::Found(Probe::Directory),
        SendEvent::Found(Probe::Directory),
        SendEvent::Found(Probe::Other),
        SendEvent::Metadata { is_file: true, len: 1 },
        SendEvent::Bytes(vec![1]),
        SendEvent::Stored(hash_contents(&[1])),
    ] {
        run.step(&mut state, ev);
    }
    let sent = match run.action() {
        SendAction::Broadcast(u) => u,
        other => panic!("unexpected {other:?}"),
    };
    let mut allow = AllowList::open_all();
    assert!(matches!(dispatch_update(Some(sent.clone()), &allow, "/v", 0), Dispatch::Run(_)));
    allow = AllowList::empty_strict();
    assert!(matches!(dispatch_update(Some(sent), &allow, "/v", 0), Dispatch::Skip(_)));
}

#[test]
fn own_temporary_files_and_backups_are_not_told() {
    assert!(should_skip_under_root(&modified("/w/sub/.p2p-sync.abc123.tmp".into()), "/w"));
    let backup =
        compute_conflict_backup_path("/w/sub/n.md", Some(b"mine"), b"theirs", peer(9)).unwrap();
    assert!(path_is_skippable(&backup));
    assert!(should_skip_under_root(&modified(backup), "/w"));
    assert!(!should_skip_under_root(&modified("/w/sub/n.md".into()), "/w"));
}

#[test]
fn paths_joined_are_stripped_again() {
    for root in ["/", "/w", "/w/x/", "."] {
        let whole = join_path(root, "a/b.md");
        assert_eq!(strip_path(&whole, root), Some("a/b.md".to_string()), "{root}");
    }
}

#[test]
fn applying_a_change_leaves_the_notes_of_other_files() {
    let hash = BlobHash { bytes: [7; 32] };
    let mut state = SyncState::new();
    state.mark_written("other.md", hash);
    state.mark_removed("gone.md");
    let update = SyncUpdate::tombstone("a.md".into(), PeerRef { id: peer(1) }).unwrap();
    let mut run = Receiving::start(update, "/w", 0);
    run.step(&mut state, ReceiveEvent::Found(Probe::Directory));
    run.step(&mut state, ReceiveEvent::Found(Probe::Other));
    run.step(&mut state, ReceiveEvent::Done);
    assert_eq!(state.last_written.get(&"other.md".to_string()), Some(&hash));
    assert!(state.last_removed.contains_key(&"gone.md".to_string()));
    assert!(state.last_removed.contains_key(&"a.md".to_string()));
    assert_eq!(state.last_removed.len(), 2);
}

#[test]
fn redacted_lines_hold_no_secret() {
    let line = format!("t=dirhive1-ABC \"p2psync1-x\" k={} n=12", "0a".repeat(20));
    let out = redact_secrets(&line);
    assert_eq!(out, "t=<redacted> \"<redacted>\" k=<redacted> n=12");
    assert_eq!(redact_secrets(&out), out);
}

#[test]
fn every_tool_is_answered_or_asked_of_the_daemon() {
    for t in tools() {
        match call_tool(t.name) {
            ToolCall::Answer(text) => assert_eq!((t.name, text), ("sync.ping", "pong")),
            ToolCall::Ask(m) => assert_eq!(m.name(), t.name),
            ToolCall::Unknown(e) => panic!("{e}"),
        }
    }
}
