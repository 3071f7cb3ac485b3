use p2p_dir_sync::allowlist::{AllowList, PeerInfo};
use p2p_dir_sync::conflict::{compute_conflict_backup_path, short_peer_id};
use p2p_dir_sync::digest::hash_contents;
use p2p_dir_sync::message::{BlobFormat, PeerRef, SyncUpdate, SyncUpdateBody};
use p2p_dir_sync::path_text::{last_name, parent};
use p2p_dir_sync::peer_id::{BlobHash, PeerId};
use p2p_dir_sync::pending_log::PendingEntry;
use p2p_dir_sync::receive::{
    dispatch_update, receive_loop_step, Dispatch, GossipEvent, LoopStep, ReceiveAction,
    ReceiveEvent, ReceiveOutcome, Receiving,
};
use p2p_dir_sync::send::{Probe, MAX_FILE_SIZE};
use p2p_dir_sync::state::{InitialBroadcasts, SyncState};
use std::collections::BTreeMap;

const ROOT: &str = "/w";

struct World {
    files: BTreeMap<String, Vec<u8>>,
    dirs: Vec<String>,
    blob: Option<Vec<u8>>,
    records: Vec<PendingEntry>,
    fail_remove: bool,
}

impl World {
    fn new(blob: Option<&[u8]>) -> World {
        World {
            files: BTreeMap::new(),
            dirs: vec![ROOT.to_string()],
            blob: blob.map(|b| b.to_vec()),
            records: Vec::new(),
            fail_remove: false,
        }
    }

    fn look(&self, p: &str) -> Probe {
        if self.dirs.iter().any(|d| d == p) {
            Probe::Directory
        } else if self.files.contains_key(p) {
            Probe::Other
        } else {
            Probe::Missing
        }
    }

    fn run(&mut self, mut run: Receiving, state: &mut SyncState) -> Result<ReceiveOutcome, String> {
        loop {
            let ev = match run.action() {
                ReceiveAction::Look(p) => ReceiveEvent::Found(self.look(&p)),
                ReceiveAction::Fetch { .. } => match &self.blob {
                    Some(_) => ReceiveEvent::Fetched,
                    None => ReceiveEvent::Failed("unreachable peer".into()),
                },
                ReceiveAction::Size { .. } => {
                    ReceiveEvent::Size(self.blob.as_ref().unwrap().len() as u64)
                }
                ReceiveAction::ReadBlob { size, .. } => {
                    let b = self.blob.clone().unwrap();
                    assert_eq!(size, b.len() as u64);
                    ReceiveEvent::Bytes(b)
                }
                ReceiveAction::ReadLocal(p) => ReceiveEvent::Local(self.files.get(&p).cloned()),
                ReceiveAction::Rename { source, dest } => {
                    let b = self.files.remove(&source).unwrap();
                    self.files.insert(dest, b);
                    ReceiveEvent::Done
                }
                ReceiveAction::CreateDir(p) => {
                    self.dirs.push(p);
                    ReceiveEvent::Done
                }
                ReceiveAction::Write(w) => {
                    assert_eq!(w.prefix, ".p2p-sync.");
                    assert!(!w.private);
                    assert!(self.dirs.contains(&w.dir));
                    self.files.insert(w.target, w.content);
                    ReceiveEvent::Done
                }
                ReceiveAction::Remove(p) => {
                    if self.fail_remove {
                        ReceiveEvent::Failed("denied".into())
                    } else if self.files.remove(&p).is_some() {
                        ReceiveEvent::Done
                    } else {
                        ReceiveEvent::NotFound
                    }
                }
                ReceiveAction::Record(e) => {
                    self.records.push(e);
                    ReceiveEvent::Done
                }
                ReceiveAction::Finished(o) => return Ok(o),
                ReceiveAction::Failed(e) => return Err(e),
            };
            run.step(state, ev);
        }
    }
}

fn fixture_id(byte: u8) -> PeerId {
    let key = iroh_base::SecretKey::from_bytes(&[byte; 32]).public();
    PeerId::from_bytes(*key.as_bytes()).unwrap()
}

fn upsert(path: &str, hash: BlobHash, from: PeerId) -> SyncUpdate {
    SyncUpdate {
        version: 2,
        body: SyncUpdateBody::Upsert {
            path: path.to_string(),
            hash,
            format: BlobFormat::Raw,
            from: PeerRef { id: from },
        },
    }
}

fn tombstone(path: &str, from: PeerId) -> SyncUpdate {
    SyncUpdate {
        version: 2,
        body: SyncUpdateBody::Tombstone { path: path.to_string(), from: PeerRef { id: from } },
    }
}

fn skipped(reason: &'static str) -> ReceiveOutcome {
    ReceiveOutcome::Skipped { reason }
}

#[test]
fn dispatch_skips_invalid_wire_format() {
    let allow = AllowList::open_all();
    match dispatch_update(None, &allow, ROOT, 0) {
        Dispatch::Skip(o) => assert_eq!(o, skipped("invalid_wire_format")),
        Dispatch::Run(_) => panic!("must not run"),
    }
    let mut old = tombstone("a.md", fixture_id(7));
    old.version = 1;
    match dispatch_update(Some(old), &allow, ROOT, 0) {
        Dispatch::Skip(o) => assert_eq!(o, skipped("invalid_wire_format")),
        Dispatch::Run(_) => panic!("must not run"),
    }
    match dispatch_update(Some(tombstone("../a", fixture_id(7))), &allow, ROOT, 0) {
        Dispatch::Skip(o) => assert_eq!(o, skipped("invalid_wire_format")),
        Dispatch::Run(_) => panic!("must not run"),
    }
}

#[test]
fn dispatch_skips_unallowed_peer() {
    let allow = AllowList::empty_strict();
    match dispatch_update(Some(tombstone("a.md", fixture_id(7))), &allow, ROOT, 0) {
        Dispatch::Skip(o) => assert_eq!(o, skipped("peer_not_allowed")),
        Dispatch::Run(_) => panic!("must not run"),
    }
}

#[test]
fn handle_tombstone_removes_existing_file() {
    let mut w = World::new(None);
    w.files.insert("/w/gone.md".into(), b"bye".to_vec());
    let mut state = SyncState::new();
    let run = Receiving::start(tombstone("gone.md", fixture_id(1)), ROOT, 5);
    assert_eq!(w.run(run, &mut state).unwrap(), ReceiveOutcome::Applied);
    assert!(!w.files.contains_key("/w/gone.md"));
    assert!(state.last_removed.contains_key(&"gone.md".to_string()));
}

#[test]
fn handle_tombstone_idempotent_when_already_gone() {
    let mut w = World::new(None);
    let mut state = SyncState::new();
    let run = Receiving::start(tombstone("never.md", fixture_id(1)), ROOT, 5);
    assert_eq!(w.run(run, &mut state).unwrap(), ReceiveOutcome::Applied);
}

#[test]
fn handle_tombstone_rejects_unsafe_path() {
    let mut w = World::new(None);
    let mut state = SyncState::new();
    let run = Receiving::start(tombstone("../escape.md", fixture_id(1)), ROOT, 5);
    assert_eq!(w.run(run, &mut state).unwrap(), skipped("unsafe_path"));
    assert_eq!(state.last_removed.len(), 0);
}

#[test]
fn failed_removal_is_taken_back() {
    let mut w = World::new(None);
    w.fail_remove = true;
    w.files.insert("/w/a".into(), Vec::new());
    let mut state = SyncState::new();
    let run = Receiving::start(tombstone("a", fixture_id(1)), ROOT, 5);
    assert_eq!(w.run(run, &mut state).unwrap_err(), "remove_file /w/a: denied");
    assert_eq!(state.last_removed.len(), 0);
    assert!(w.records.is_empty());
}

#[test]
fn handle_upsert_self_round_trip_writes_file() {
    let mut w = World::new(Some(b"hello world"));
    let mut state = SyncState::new();
    let hash = hash_contents(b"hello world");
    let run = Receiving::start(upsert("incoming.md", hash, fixture_id(1)), ROOT, 5);
    assert_eq!(w.run(run, &mut state).unwrap(), ReceiveOutcome::Applied);
    assert_eq!(w.files["/w/incoming.md"], b"hello world");
    assert_eq!(state.last_written.get(&"incoming.md".to_string()), Some(&hash));
    assert_eq!(state.pending_written.len(), 0);
}

#[test]
fn dispatch_upsert_full_round_trip_with_allowlist() {
    let from = fixture_id(0x55);
    let mut allow = AllowList::empty_strict();
    allow.add(from, PeerInfo::new(Some("self".into()), 0));
    let mut w = World::new(Some(b"payload"));
    let mut state = SyncState::new();
    let hash = hash_contents(b"payload");
    let update = upsert("sub/dispatched.md", hash, from);
    let run = match dispatch_update(Some(update), &allow, ROOT, 77) {
        Dispatch::Run(run) => run,
        Dispatch::Skip(o) => panic!("skipped {o:?}"),
    };
    assert_eq!(w.run(run, &mut state).unwrap(), ReceiveOutcome::Applied);
    assert_eq!(w.files["/w/sub/dispatched.md"], b"payload");
    assert_eq!(
        w.records,
        vec![PendingEntry::Upsert {
            schema_version: 1,
            rel_path: "sub/dispatched.md".into(),
            received_at: 77,
            source_peer: from.text(),
            blob_hash: hash.text(),
            bytes: 7,
        }]
    );
}

#[test]
fn local_version_is_kept_beside_the_new_one() {
    let from = fixture_id(3);
    let mut w = World::new(Some(b"theirs"));
    w.files.insert("/w/n.md".into(), b"mine".to_vec());
    let mut state = SyncState::new();
    let run = Receiving::start(upsert("n.md", hash_contents(b"theirs"), from), ROOT, 5);
    assert_eq!(w.run(run, &mut state).unwrap(), ReceiveOutcome::Applied);
    assert_eq!(w.files["/w/n.md"], b"theirs");
    let backup = format!("/w/n.md.conflict-local-{}", short_peer_id(from));
    assert_eq!(w.files[&backup], b"mine");
}

#[test]
fn too_large_contents_are_dropped() {
    let mut state = SyncState::new();
    let mut run = Receiving::start(
        upsert("big", BlobHash { bytes: [1; 32] }, fixture_id(1)),
        ROOT,
        5,
    );
    run.step(&mut state, ReceiveEvent::Found(Probe::Directory));
    run.step(&mut state, ReceiveEvent::Found(Probe::Missing));
    assert_eq!(state.pending_written.len(), 1);
    run.step(&mut state, ReceiveEvent::Fetched);
    run.step(&mut state, ReceiveEvent::Size(MAX_FILE_SIZE + 1));
    assert_eq!(run.action(), ReceiveAction::Finished(skipped("too_large")));
    assert_eq!(state.pending_written.len(), 0);
}

#[test]
fn contents_that_cannot_be_fetched_are_dropped() {
    let mut w = World::new(None);
    let mut state = SyncState::new();
    let run = Receiving::start(
        upsert("a", BlobHash { bytes: [1; 32] }, fixture_id(1)),
        ROOT,
        5,
    );
    assert_eq!(w.run(run, &mut state).unwrap(), skipped("blob_fetch_failed"));
    assert_eq!(state.pending_written.len(), 0);
    assert_eq!(state.last_written.len(), 0);
}

#[test]
fn unknown_size_is_a_failure_before_and_zero_after() {
    let hash = BlobHash { bytes: [1; 32] };
    let mut state = SyncState::new();
    let start = |state: &mut SyncState| {
        let mut run = Receiving::start(upsert("a", hash, fixture_id(1)), ROOT, 5);
        run.step(state, ReceiveEvent::Found(Probe::Directory));
        run.step(state, ReceiveEvent::Found(Probe::Missing));
        run.step(state, ReceiveEvent::Fetched);
        run
    };
    let mut run = start(&mut state);
    run.step(&mut state, ReceiveEvent::Failed("no".into()));
    assert_eq!(run.action(), ReceiveAction::Failed("blob size: no".into()));
    assert_eq!(state.pending_written.len(), 0);
    assert_eq!(state.last_written.len(), 0);
    let mut run = start(&mut state);
    run.step(&mut state, ReceiveEvent::Size(1));
    run.step(&mut state, ReceiveEvent::Bytes(vec![9]));
    run.step(&mut state, ReceiveEvent::Local(None));
    run.step(&mut state, ReceiveEvent::Done);
    run.step(&mut state, ReceiveEvent::Done);
    run.step(&mut state, ReceiveEvent::Failed("no".into()));
    match run.action() {
        ReceiveAction::Record(PendingEntry::Upsert { bytes, .. }) => assert_eq!(bytes, 0),
        other => panic!("unexpected {other:?}"),
    }
    run.step(&mut state, ReceiveEvent::Failed("disk full".into()));
    assert_eq!(run.action(), ReceiveAction::Finished(ReceiveOutcome::Applied));
}

#[test]
fn failed_receive_leaves_no_mark() {
    let hash = hash_contents(b"new");
    let steps = [
        ReceiveEvent::Size(3),
        ReceiveEvent::Bytes(b"new".to_vec()),
        ReceiveEvent::Local(Some(b"old".to_vec())),
        ReceiveEvent::Done,
        ReceiveEvent::Done,
    ];
    for n in [0, 1, 3, 4, 5] {
        let mut state = SyncState::new();
        state.mark_written("other", hash);
        let mut run = Receiving::start(upsert("a", hash, fixture_id(1)), ROOT, 5);
        run.step(&mut state, ReceiveEvent::Found(Probe::Directory));
        run.step(&mut state, ReceiveEvent::Found(Probe::Other));
        run.step(&mut state, ReceiveEvent::Fetched);
        assert!(state.pending_written.contains_key(&"a".to_string()));
        for ev in &steps[..n] {
            run.step(&mut state, ev.clone());
        }
        run.step(&mut state, ReceiveEvent::Failed("no".into()));
        assert!(matches!(run.action(), ReceiveAction::Failed(_)), "{n}: {:?}", run.action());
        assert_eq!(state.pending_written.len(), 0);
        assert_eq!(state.last_written.len(), 1);
        assert!(state.last_written.contains_key(&"other".to_string()));
    }
}

#[test]
fn short_peer_id_is_8_chars() {
    let id = fixture_id(0xab);
    let s = short_peer_id(id);
    assert_eq!(s.len(), 8);
    assert_eq!(s, id.text().chars().take(8).collect::<String>());
}

#[test]
fn backup_none_when_local_absent() {
    let r = compute_conflict_backup_path("/d/absent.md", None, b"incoming", fixture_id(1));
    assert!(r.is_none());
}

#[test]
fn backup_none_when_local_equals_incoming() {
    let r = compute_conflict_backup_path("/d/same.md", Some(b"hello"), b"hello", fixture_id(2));
    assert!(r.is_none());
}

#[test]
fn backup_returns_path_when_diff() {
    let path = "/d/nested/sla.md";
    let peer = fixture_id(0xcd);
    let r = compute_conflict_backup_path(path, Some(b"local"), b"incoming", peer).unwrap();
    let name = last_name(&r).unwrap();
    assert!(name.starts_with("sla.md.conflict-local-"));
    assert!(name.ends_with(&short_peer_id(peer)));
    assert_eq!(parent(&r), parent(path));
    assert!(compute_conflict_backup_path("/", Some(b"a"), b"b", peer).is_none());
}

#[test]
fn first_neighbour_hears_of_waiting_changes() {
    let mut waiting = InitialBroadcasts::new();
    assert!(waiting.enqueue_initial_broadcast("b.md"));
    assert!(waiting.enqueue_initial_broadcast("a.md"));
    assert_eq!(receive_loop_step(&mut waiting, GossipEvent::Received), LoopStep::Dispatch);
    assert_eq!(receive_loop_step(&mut waiting, GossipEvent::Lagged), LoopStep::Ignore);
    assert_eq!(
        receive_loop_step(&mut waiting, GossipEvent::NeighborUp),
        LoopStep::Flush(vec!["b.md".into(), "a.md".into()])
    );
    assert!(!waiting.enqueue_initial_broadcast("c.md"));
    assert_eq!(receive_loop_step(&mut waiting, GossipEvent::NeighborUp), LoopStep::Ignore);
    assert_eq!(receive_loop_step(&mut waiting, GossipEvent::NeighborDown), LoopStep::Ignore);
    assert_eq!(receive_loop_step(&mut waiting, GossipEvent::StreamError), LoopStep::Ignore);
}
