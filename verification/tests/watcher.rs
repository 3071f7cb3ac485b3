use p2p_dir_sync::digest::hash_contents;
use p2p_dir_sync::state::{InitialBroadcasts, SyncState};
use p2p_dir_sync::watcher::{
    begin_watch_event, check_backend, decide_waiting_change, decide_watch_event, event_rel_path,
    should_skip, should_skip_under_root, wants_contents, EventKind, WatchDecision, WatchEvent,
    WatcherBackend, DEBOUNCE_DURATION,
};
use std::time::Duration;

fn ev(kind: EventKind, paths: Vec<&str>) -> WatchEvent {
    WatchEvent { kind, paths: paths.into_iter().map(|p| p.to_string()).collect() }
}

fn joined_queue() -> InitialBroadcasts {
    let mut w = InitialBroadcasts::new();
    assert!(w.mark_first_join());
    w
}

#[test]
fn debounce_duration_is_200ms() {
    assert_eq!(Duration::from_millis(DEBOUNCE_DURATION), Duration::from_millis(200));
}

#[test]
fn should_skip_access_events() {
    assert!(should_skip(&ev(EventKind::Access, vec!["/tmp/a.md"])));
}

#[test]
fn should_skip_other_events() {
    assert!(should_skip(&ev(EventKind::Other, vec!["/tmp/a.md"])));
}

#[test]
fn should_skip_dotfile_at_root() {
    assert!(should_skip(&ev(EventKind::Modify, vec!["/tmp/repo/.DS_Store"])));
}

#[test]
fn should_skip_dotdir_anywhere_in_path() {
    assert!(should_skip(&ev(EventKind::Modify, vec!["/tmp/repo/.git/index"])));
}

#[test]
fn should_skip_swap_and_tmp() {
    assert!(should_skip(&ev(EventKind::Modify, vec!["/r/a.swp"])));
    assert!(should_skip(&ev(EventKind::Modify, vec!["/r/sub/b.swx"])));
    assert!(should_skip(&ev(EventKind::Modify, vec!["/r/c.tmp"])));
    assert!(should_skip(&ev(EventKind::Modify, vec!["/r/d.md~"])));
}

#[test]
fn should_skip_conflict_local_backup() {
    assert!(should_skip(&ev(EventKind::Modify, vec!["/r/notes.md.conflict-local-abcd1234"])));
    assert!(should_skip(&ev(
        EventKind::Modify,
        vec!["/r/sub/entry.md.conflict-local-deadbeef"]
    )));
    assert!(should_skip(&ev(EventKind::Modify, vec!["/r/Makefile.conflict-local-feedface"])));
    assert!(!should_skip(&ev(EventKind::Modify, vec!["/r/conflict-resolution.md"])));
}

#[test]
fn should_keep_plain_modify() {
    assert!(!should_skip(&ev(EventKind::Modify, vec!["/tmp/repo/foo.md"])));
}

#[test]
fn should_keep_create_under_subdir() {
    assert!(!should_skip(&ev(EventKind::Create, vec!["/tmp/repo/entities/foo.md"])));
}

#[test]
fn should_skip_under_root_ignores_root_dot_components() {
    let e = ev(EventKind::Modify, vec!["/var/folders/.tmpXYZ/hello.md"]);
    assert!(!should_skip_under_root(&e, "/var/folders/.tmpXYZ"));
}

#[test]
fn should_skip_under_root_still_skips_inner_dotfile() {
    let e = ev(EventKind::Modify, vec!["/tmp/repo/.git/index"]);
    assert!(should_skip_under_root(&e, "/tmp/repo"));
}

#[test]
fn any_skippable_path_of_an_event_counts() {
    assert!(should_skip(&ev(EventKind::Remove, vec!["/r/a.md", "/r/.hidden"])));
    assert!(!should_skip(&ev(EventKind::Any, vec![])));
    assert!(!should_skip(&ev(EventKind::Any, vec!["/r/../a/./b"])));
    assert!(should_skip_under_root(&ev(EventKind::Any, vec!["/x/.y/z"]), "/r"));
}

#[test]
fn watcher_backend_default_is_recommended() {
    assert_eq!(WatcherBackend::default(), WatcherBackend::Recommended);
}

#[test]
fn spawn_watcher_rejects_poll_backend() {
    let e = check_backend(WatcherBackend::Poll).unwrap_err();
    assert!(e.contains("Poll"));
    assert_eq!(e, "WatcherBackend::Poll is not yet implemented (Phase 3 で追加予定)");
    assert!(check_backend(WatcherBackend::Recommended).is_ok());
}

#[test]
fn watcher_loop_strips_watched_dir_prefix() {
    let e = ev(EventKind::Modify, vec!["/tmp/repo/sub/foo.md"]);
    assert_eq!(event_rel_path(&e, "/tmp/repo"), Some("sub/foo.md".to_string()));
    assert_eq!(event_rel_path(&e, "/tmp/repo/"), Some("sub/foo.md".to_string()));
    assert_eq!(event_rel_path(&e, "/"), Some("tmp/repo/sub/foo.md".to_string()));
}

#[test]
fn watcher_loop_skips_path_outside_watched_dir() {
    assert_eq!(event_rel_path(&ev(EventKind::Modify, vec!["/elsewhere/foo.md"]), "/tmp/repo"), None);
    assert_eq!(event_rel_path(&ev(EventKind::Modify, vec!["/tmp/repository"]), "/tmp/repo"), None);
    assert_eq!(event_rel_path(&ev(EventKind::Modify, vec![]), "/tmp/repo"), None);
}

#[test]
fn watcher_loop_skips_watched_dir_itself() {
    assert_eq!(event_rel_path(&ev(EventKind::Modify, vec!["/tmp/repo"]), "/tmp/repo"), None);
    assert_eq!(event_rel_path(&ev(EventKind::Modify, vec!["/tmp/repo/"]), "/tmp/repo"), None);
}

#[test]
fn own_write_is_held_back_once() {
    let mut state = SyncState::new();
    let mut waiting = joined_queue();
    let hash = hash_contents(b"new");
    assert_eq!(
        hash.bytes,
        *iroh_blobs::Hash::new(b"new").as_bytes()
    );
    state.mark_written("a.md", hash);
    let marker = begin_watch_event(&mut state, "a.md");
    assert_eq!(marker, Some(hash));
    let d = decide_watch_event(
        &mut state, &mut waiting, "a.md", EventKind::Modify, marker, Some(hash), true,
    );
    assert_eq!(d, WatchDecision::OwnWrite);
    let marker = begin_watch_event(&mut state, "a.md");
    assert_eq!(marker, None);
    let d = decide_watch_event(
        &mut state, &mut waiting, "a.md", EventKind::Modify, marker, Some(hash), true,
    );
    assert_eq!(d, WatchDecision::Upsert);
}

#[test]
fn contents_that_are_being_written_are_held_back() {
    let mut state = SyncState::new();
    let mut waiting = joined_queue();
    let hash = hash_contents(b"new");
    assert!(!wants_contents(&state, "a.md", None));
    assert!(wants_contents(&state, "a.md", Some(hash)));
    state.mark_writing("a.md", hash);
    let marker = begin_watch_event(&mut state, "a.md");
    assert_eq!(marker, None);
    assert!(wants_contents(&state, "a.md", marker));
    assert!(!wants_contents(&state, "b.md", marker));
    let d = decide_watch_event(
        &mut state, &mut waiting, "a.md", EventKind::Modify, marker, Some(hash), true,
    );
    assert_eq!(d, WatchDecision::OwnWrite);
    assert_eq!(state.pending_written.len(), 1);
    let other = Some(hash_contents(b"mine"));
    let d = decide_watch_event(
        &mut state, &mut waiting, "a.md", EventKind::Modify, marker, other, true,
    );
    assert_eq!(d, WatchDecision::Upsert);
}

#[test]
fn edit_after_own_write_is_sent() {
    let mut state = SyncState::new();
    let mut waiting = joined_queue();
    state.mark_written("a.md", hash_contents(b"theirs"));
    let marker = begin_watch_event(&mut state, "a.md");
    let d = decide_watch_event(
        &mut state,
        &mut waiting,
        "a.md",
        EventKind::Modify,
        marker,
        Some(hash_contents(b"mine")),
        true,
    );
    assert_eq!(d, WatchDecision::Upsert);
    assert_eq!(state.last_written.len(), 0);
}

#[test]
fn own_removal_is_held_back_once() {
    let mut state = SyncState::new();
    let mut waiting = joined_queue();
    state.mark_removed("a.md");
    let removal = |state: &mut SyncState, waiting: &mut InitialBroadcasts| {
        decide_watch_event(state, waiting, "a.md", EventKind::Remove, None, None, false)
    };
    assert_eq!(removal(&mut state, &mut waiting), WatchDecision::OwnRemoval);
    assert_eq!(removal(&mut state, &mut waiting), WatchDecision::Tombstone);
    let d = decide_watch_event(
        &mut state, &mut waiting, "b.md", EventKind::Modify, None, None, false,
    );
    assert_eq!(d, WatchDecision::Tombstone);
}

#[test]
fn changes_wait_for_the_first_neighbour() {
    let mut state = SyncState::new();
    let mut waiting = InitialBroadcasts::new();
    let d = decide_watch_event(
        &mut state, &mut waiting, "a.md", EventKind::Create, None, None, true,
    );
    assert_eq!(d, WatchDecision::Queued);
    assert!(waiting.mark_first_join());
    assert!(!waiting.mark_first_join());
    assert_eq!(waiting.drain_pending_initial(), vec!["a.md".to_string()]);
    assert!(waiting.drain_pending_initial().is_empty());
    assert_eq!(decide_waiting_change(true), WatchDecision::Upsert);
    assert_eq!(decide_waiting_change(false), WatchDecision::Tombstone);
}
