use p2p_dir_sync::allowlist::AllowList;
use p2p_dir_sync::bootstrap_peers::BootstrapSnapshot;
use p2p_dir_sync::daemon::client::{read_result, response_result, RpcError, RPC_TIMEOUT};
use p2p_dir_sync::daemon::dispatch::{
    accept_decoded, adopt_invite, allow_known_peer, allow_peer, begin_accept_invite, begin_invite,
    finish_invite, list_peers, log_line_limit, pending_reply, recent_log, remember_inviter, revoke,
    route, settle_add, settle_revoke, status, AcceptError, InvitePlan, Method,
};
use p2p_dir_sync::daemon::listener::{
    accept_step, handle_line, invalid_request, plan_bind, probe_answered, AcceptStep, BindStep,
    ConnectionSlots, LineRead, RequestStep, RpcRequest, RpcResponse, CONNECTION_READ_TIMEOUT,
    MAX_IN_FLIGHT_CONNECTIONS, MAX_REQUEST_BYTES, PROBE_TIMEOUT,
};
use p2p_dir_sync::daemon::state::{DaemonPaths, DaemonState, RuntimeStatus};
use p2p_dir_sync::keystore::FileRead;
use p2p_dir_sync::mcp::{
    call_tool, tool_result, tools, AcceptInviteParams, AllowPeerParams, ListPendingParams,
    RecentLogParams, RevokeParams, ToolCall,
};
use p2p_dir_sync::peer_id::PeerId;
use p2p_dir_sync::pending_log::PendingEntry;
use p2p_dir_sync::receive::ReceiveOutcome;
use p2p_dir_sync::redact::{lines, redact_hex, redact_pattern, redact_secrets, tail_lines_redacted};
use p2p_dir_sync::state::{PendingTracker, SyncState};
use p2p_dir_sync::ticket::{EndpointTicket, InviteTicket};
use p2p_dir_sync::{run_health_check, HealthInfoStatic};
use std::time::Duration;

fn fixture_id(byte: u8) -> PeerId {
    let key = iroh_base::SecretKey::from_bytes(&[byte; 32]).public();
    PeerId::from_bytes(*key.as_bytes()).unwrap()
}

fn fixture_ticket(byte: u8) -> EndpointTicket {
    let id = iroh_base::SecretKey::from_bytes(&[byte; 32]).public();
    let addr = iroh_base::EndpointAddr::new(id);
    let text = iroh_tickets::endpoint::EndpointTicket::new(addr).to_string();
    EndpointTicket::parse(&text).unwrap()
}

fn fixture_paths() -> DaemonPaths {
    DaemonPaths {
        watched_dir_canonical: "/w".into(),
        socket_path: "/s/daemon.sock".into(),
        lock_path: "/s/daemon.lock".into(),
        allowlist_path: "/s/allowlist.json".into(),
        folder_secret_path: "/s/folder-secret.bin".into(),
        key_path: "/s/endpoint.key".into(),
        blobs_dir: "/s/blobs".into(),
        log_path: "/s/p2p-dir-sync.log".into(),
        bootstrap_peers_path: "/s/bootstrap-peers.json".into(),
    }
}

fn daemon(byte: u8, joined: bool) -> DaemonState<u8> {
    let (sender, status) = if joined {
        (Some(1u8), RuntimeStatus::Active)
    } else {
        (None, RuntimeStatus::Uninitialized)
    };
    DaemonState::new(
        fixture_paths(),
        AllowList::empty_strict(),
        PendingTracker::new("/s/pending", "/w"),
        SyncState::new(),
        fixture_id(byte),
        sender,
        status,
        1000,
    )
}

fn static_info() -> HealthInfoStatic {
    HealthInfoStatic {
        key_path: "/s/endpoint.key".into(),
        key_exists: false,
        blobs_dir: "/s/blobs".into(),
        pending_dir: "/s/pending".into(),
        watched_dir: Some("/w".into()),
        watched_dir_exists: true,
    }
}

#[test]
fn rpc_timeout_is_5_seconds() {
    assert_eq!(Duration::from_secs(RPC_TIMEOUT), Duration::from_secs(5));
}

#[test]
fn max_request_bytes_is_1mib() {
    assert_eq!(MAX_REQUEST_BYTES, 1024 * 1024);
}

#[test]
fn connection_timeout_and_cap_constants() {
    assert_eq!(Duration::from_secs(CONNECTION_READ_TIMEOUT), Duration::from_secs(10));
    assert_eq!(MAX_IN_FLIGHT_CONNECTIONS, 32);
    assert_eq!(Duration::from_secs(PROBE_TIMEOUT), Duration::from_secs(1));
}

#[test]
fn runtime_status_transitions() {
    let u = RuntimeStatus::Uninitialized;
    assert!(!u.group_initialized());
    assert!(!u.gossip_subscribed());
    assert!(!u.restart_required());

    let i = RuntimeStatus::InitializedButNotSubscribed;
    assert!(i.group_initialized());
    assert!(!i.gossip_subscribed());
    assert!(i.restart_required());

    let a = RuntimeStatus::Active;
    assert!(a.group_initialized());
    assert!(a.gossip_subscribed());
    assert!(!a.restart_required());

    assert_eq!(RuntimeStatus::at_start(true), RuntimeStatus::Active);
    assert_eq!(RuntimeStatus::at_start(false), RuntimeStatus::Uninitialized);
}

#[test]
fn daemon_state_construct_and_mutate() {
    let mut st = daemon(0x21, true);
    assert_eq!(st.current_runtime_status(), RuntimeStatus::Active);
    assert_eq!(st.uptime_secs(1004), 4);
    assert_eq!(st.uptime_secs(900), 0);
    assert_eq!(st.gossip_sender_cloned(), Some(1));

    let p = fixture_id(0x21);
    assert_eq!(st.last_seen_at(&p), None);
    st.mark_peer_seen(p, 100);
    st.mark_peer_seen(p, 50);
    assert_eq!(st.last_seen_at(&p), Some(100));

    st.enter_initialized_but_not_subscribed();
    assert!(st.current_runtime_status().restart_required());
    assert!(st.gossip_sender_cloned().is_none());
    st.enter_active(9);
    assert_eq!(st.gossip_sender_cloned(), Some(9));
    st.enter_uninitialized();
    assert_eq!(st.current_runtime_status(), RuntimeStatus::Uninitialized);
    assert!(st.gossip_sender_cloned().is_none());
}

#[test]
fn only_exchanged_data_counts_as_seen() {
    let mut st = daemon(1, true);
    let p = fixture_id(2);
    st.note_outcome(p, &ReceiveOutcome::Skipped { reason: "too_large" }, 10);
    st.note_served(p, false, 10);
    assert_eq!(st.last_seen_at(&p), None);
    st.note_outcome(p, &ReceiveOutcome::Applied, 11);
    assert_eq!(st.last_seen_at(&p), Some(11));
    st.note_served(p, true, 12);
    assert_eq!(st.last_seen_at(&p), Some(12));
}

#[test]
fn health_check_returns_static_and_dynamic() {
    let st = daemon(0x11, true);
    let h = run_health_check(static_info(), Some(&st), 1007);
    assert!(h.static_info.watched_dir_exists);
    let d = h.dynamic_info.unwrap();
    assert!(d.group_initialized);
    assert!(d.gossip_subscribed);
    assert!(!d.restart_required);
    assert_eq!(d.uptime_secs, 7);
    assert_eq!(d.peer_count, 0);
    assert!(run_health_check::<u8>(static_info(), None, 0).dynamic_info.is_none());
}

#[test]
fn health_check_reports_uninitialized_when_no_folder_secret() {
    let st = daemon(0x12, false);
    let d = run_health_check(static_info(), Some(&st), 1000).dynamic_info.unwrap();
    assert!(!d.group_initialized);
    assert!(!d.gossip_subscribed);
}

#[test]
fn status_returns_summary_fields() {
    let st = daemon(0x13, true);
    let s = status(&st, Some(0), true, 1003);
    assert_eq!(s.watched_dir, "/w");
    assert_eq!(s.peer_count, 0);
    assert!(!s.open_all);
    assert_eq!(s.recent_pending_count, 0);
    assert_eq!(s.uptime_secs, 3);
    assert!(s.key_exists);
    assert_eq!(status(&st, None, false, 0).recent_pending_count, 0);
    assert_eq!(status(&st, Some(4), false, 0).recent_pending_count, 4);
}

#[test]
fn daemon_invite_first_call_sets_restart_required() {
    let mut st = daemon(0x14, false);
    let path = "/s/folder-secret.bin";
    let plan = begin_invite(path, FileRead::Missing).unwrap();
    let written = plan.write.clone().unwrap();
    assert_eq!(written.content, plan.folder_secret.to_vec());
    let v = finish_invite(&mut st, &plan, fixture_ticket(0x14)).unwrap();
    assert!(v.ticket.starts_with("dirhive1-"));
    assert!(v.restart_required);

    let plan2 = begin_invite(path, FileRead::Bytes(written.content)).unwrap();
    assert!(plan2.write.is_none());
    let v2 = finish_invite(&mut st, &plan2, fixture_ticket(0x14)).unwrap();
    assert!(v2.restart_required);
    assert_eq!(v.ticket, v2.ticket);
}

#[test]
fn invitation_of_a_running_group_needs_no_restart() {
    let mut st = daemon(0x14, true);
    let plan = begin_invite("/s/f", FileRead::Bytes(vec![7; 16])).unwrap();
    let v = finish_invite(&mut st, &plan, fixture_ticket(0x14)).unwrap();
    assert!(!v.restart_required);
    assert_eq!(InviteTicket::decode(&v.ticket).unwrap().folder_secret, [7; 16]);
    assert!(begin_invite("/s/f", FileRead::Bytes(vec![7; 15])).is_err());
    assert!(begin_invite("/s/f", FileRead::Failed("x".into())).is_err());
}

#[test]
fn accept_invite_adopts_secret_and_adds_inviter() {
    let mut inviter = daemon(0x21, false);
    let plan = InvitePlan { folder_secret: [5; 16], write: None };
    let ticket = finish_invite(&mut inviter, &plan, fixture_ticket(0x21)).unwrap().ticket;
    let inviter_id = fixture_id(0x21).text();

    let mut acceptor = daemon(0x22, false);
    let plan = begin_accept_invite(&ticket, "/s/folder-secret.bin", FileRead::Missing).unwrap();
    assert_eq!(plan.write.as_ref().unwrap().content, vec![5; 16]);
    assert_eq!(plan.write.as_ref().unwrap().target, "/s/folder-secret.bin");
    let (r, change) = adopt_invite(&mut acceptor, &plan, Some("alice".into()), 123);
    assert_eq!(r.peer_id, inviter_id);
    assert!(r.restart_required);
    assert_eq!(r.label.as_deref(), Some("alice"));
    assert_eq!(r.my_peer_id, fixture_id(0x22).text());
    assert!(acceptor.current_runtime_status().restart_required());
    assert_eq!(change.snapshot.peers.len(), 1);
    assert_eq!(change.snapshot.peers[0].0, inviter_id);
    settle_add(&mut acceptor, change.undo, true);
    assert!(acceptor.allowlist.contains(&fixture_id(0x21)));
}

#[test]
fn accept_invite_remembers_the_inviter() {
    let invited_by = |byte: u8| {
        let ticket = InviteTicket::new(fixture_ticket(byte), [5; 16]).encode().unwrap();
        begin_accept_invite(&ticket, "/s/f", FileRead::Missing).unwrap()
    };
    let first = remember_inviter(None, &invited_by(1)).unwrap();
    assert_eq!((first.version, &first.peers), (1, &vec![fixture_ticket(1)]));
    let both = remember_inviter(Some(first), &invited_by(2)).unwrap();
    assert_eq!(both.peers, vec![fixture_ticket(1), fixture_ticket(2)]);
    let again = remember_inviter(Some(both), &invited_by(1)).unwrap();
    assert_eq!(again.peers, vec![fixture_ticket(1), fixture_ticket(2)]);
    let other = BootstrapSnapshot { version: 7, peers: Vec::new() };
    let e = remember_inviter(Some(other), &invited_by(1)).unwrap_err();
    assert_eq!(e.message(), "bootstrap-peers schema version mismatch: expected 1, got 7");
}

#[test]
fn accept_invite_keeps_to_one_group() {
    let invite = InviteTicket::new(fixture_ticket(1), [5; 16]);
    let ticket = invite.encode().unwrap();
    let same = begin_accept_invite(&ticket, "/s/f", FileRead::Bytes(vec![5; 16])).unwrap();
    assert!(same.write.is_none());
    let mut st = daemon(2, true);
    let (r, _) = adopt_invite(&mut st, &same, None, 0);
    assert!(!r.restart_required);
    assert_eq!(st.current_runtime_status(), RuntimeStatus::Active);
    assert_eq!(st.gossip_sender_cloned(), Some(1));
    let e = begin_accept_invite(&ticket, "/s/f", FileRead::Bytes(vec![6; 16])).unwrap_err();
    assert_eq!(
        e.message(),
        "this daemon is already initialized with a different folder_secret; delete /s/f to reset"
    );
    let e = begin_accept_invite("nonsense", "/s/f", FileRead::Missing).unwrap_err();
    assert!(matches!(e, AcceptError::Ticket(_)));
    let e = accept_decoded(invite.clone(), "/s/f", FileRead::Bytes(vec![])).unwrap_err();
    assert_eq!(e.message(), "/s/f has invalid size: 0 bytes (expected 16)");
    let e = accept_decoded(invite.clone(), "/s/f", FileRead::Failed("io".into())).unwrap_err();
    assert_eq!(e.message(), "read /s/f: io");
    let e = accept_decoded(invite, "/", FileRead::Missing).unwrap_err();
    assert_eq!(e.message(), "target / has no parent");
}

#[test]
fn allow_peer_and_list_and_revoke_round_trip() {
    let mut st = daemon(0x15, false);
    let peer_id = fixture_id(0x77).text();
    let (v, change) = allow_peer(&mut st, &peer_id, Some("bob".into()), 9).unwrap();
    assert!(v.added);
    assert_eq!(v.peer_id, peer_id);
    settle_add(&mut st, change.unwrap().undo, true);

    let lp = list_peers(&st);
    assert_eq!(lp.peers.len(), 1);
    assert_eq!(lp.peers[0].label.as_deref(), Some("bob"));
    assert_eq!(lp.peers[0].added_at, 9);
    assert!(lp.peers[0].last_seen_at.is_none());
    st.mark_peer_seen(fixture_id(0x77), 33);
    assert_eq!(list_peers(&st).peers[0].last_seen_at, Some(33));

    let (again, change) = allow_peer(&mut st, &peer_id, None, 10).unwrap();
    assert!(!again.added);
    assert!(change.is_none());

    let (r, removal) = revoke(&mut st, &peer_id).unwrap();
    assert!(r.removed);
    settle_revoke(&mut st, removal.id, removal.prev, true);
    assert_eq!(list_peers(&st).peers.len(), 0);
    let (r, _) = revoke(&mut st, &peer_id).unwrap();
    assert!(!r.removed);
}

#[test]
fn changes_that_are_not_stored_are_taken_back() {
    let mut st = daemon(0x15, false);
    let peer_id = fixture_id(0x77).text();
    let (_, change) = allow_known_peer(&mut st, fixture_id(0x77), &peer_id, None, 9);
    settle_add(&mut st, change.unwrap().undo, false);
    assert_eq!(st.allowlist.len(), 0);
    let (_, change) = allow_peer(&mut st, &peer_id, None, 9).unwrap();
    settle_add(&mut st, change.unwrap().undo, true);
    let (_, removal) = revoke(&mut st, &peer_id).unwrap();
    assert_eq!(removal.snapshot.peers.len(), 0);
    settle_revoke(&mut st, removal.id, removal.prev, false);
    assert!(st.allowlist.contains(&fixture_id(0x77)));
}

#[test]
fn allow_peer_rejects_invalid_peer_id() {
    let mut st = daemon(0x16, false);
    let e = allow_peer(&mut st, "not-a-valid-id", None, 0).unwrap_err();
    assert!(e.contains("invalid peer_id"));
    assert!(e.starts_with("invalid peer_id 'not-a-valid-id': "));
    assert!(revoke(&mut st, "x").unwrap_err().contains("invalid peer_id"));
}

#[test]
fn allow_peer_closes_an_open_daemon() {
    let mut st = daemon(0x16, false);
    st.allowlist = AllowList::open_all();
    let peer_id = fixture_id(1).text();
    let (v, change) = allow_peer(&mut st, &peer_id, None, 0).unwrap();
    assert!(v.added);
    assert!(!change.unwrap().snapshot.open_all);
    assert!(!st.allowlist.contains(&fixture_id(2)));
}

#[test]
fn unknown_method_returns_error_response() {
    let e = route("sync.unknown").unwrap_err();
    assert!(e.contains("unknown method"));
    let resp: RpcResponse<u8> = RpcResponse::from_outcome(Err(e));
    assert_eq!(resp.error.unwrap(), "unknown method: sync.unknown");
    assert!(resp.result.is_none());
}

#[test]
fn every_method_is_found_under_its_name() {
    for m in [
        Method::HealthCheck,
        Method::Status,
        Method::Invite,
        Method::AcceptInvite,
        Method::AllowPeer,
        Method::ListPeers,
        Method::Revoke,
        Method::ListPending,
        Method::RecentLog,
    ] {
        assert_eq!(route(m.name()), Ok(m));
    }
}

#[test]
fn list_pending_returns_empty_when_no_entries() {
    assert_eq!(pending_reply(Vec::new(), None).len(), 0);
}

#[test]
fn list_pending_returns_recorded_entries() {
    let mut entries = Vec::new();
    for i in 1..=3 {
        entries.push(PendingEntry::Tombstone {
            schema_version: 1,
            rel_path: format!("a/{i}.md"),
            received_at: 100 + i as i64,
            source_peer: fixture_id(0x88).text(),
        });
    }
    let v = pending_reply(entries, Some(2));
    assert_eq!(v.len(), 2);
    assert_eq!(v[0].received_at(), 103);
}

#[test]
fn redact_pattern_replaces_token_in_text() {
    let s = "got ticket p2psync1-ABC123XYZ for bob";
    let r = redact_pattern(s, "p2psync1-");
    assert!(r.contains("<redacted>"));
    assert!(!r.contains("ABC123XYZ"));
    assert!(r.contains("for bob"));
    assert_eq!(r, "got ticket <redacted> for bob");
}

#[test]
fn recent_log_returns_empty_when_log_absent() {
    assert!(tail_lines_redacted(None, 10).is_empty());
}

#[test]
fn recent_log_tails_and_redacts() {
    let log = "line1\nline2 p2psync1-SECRET more\nline3\nline4\nline5\n";
    let v = tail_lines_redacted(Some(log), 3);
    assert_eq!(v.len(), 3);
    assert_eq!(v[0], "line3");
    assert_eq!(v[2], "line5");
    let body = v.join("\n");
    assert!(!body.contains("SECRET"));
    assert_eq!(tail_lines_redacted(Some(log), 4)[0], "line2 <redacted> more");
}

#[test]
fn recent_log_gives_fifty_lines_and_never_more_than_a_hundred() {
    assert_eq!(log_line_limit(None), 50);
    assert_eq!(log_line_limit(Some(7)), 7);
    assert_eq!(log_line_limit(Some(1000)), 100);
    let log: String = (0..150).map(|i| format!("l{i}\n")).collect();
    assert_eq!(recent_log(Some(&log), None).len(), 50);
    assert_eq!(recent_log(Some(&log), Some(500)).len(), 100);
    assert_eq!(recent_log(Some(&log), Some(1)), vec!["l149".to_string()]);
}

#[test]
fn lines_are_those_of_the_standard_library() {
    for s in ["", "\n", "a", "a\n", "a\r\nb", "a\n\nb\n", "\r\n", "a\r", "a\rb\n", "x\n\r"] {
        let expected: Vec<String> = s.lines().map(|l| l.to_string()).collect();
        assert_eq!(lines(s), expected, "{s:?}");
    }
}

#[test]
fn secrets_of_every_kind_are_redacted() {
    let hex = "0123456789abcdefABCDEF0123456789";
    assert_eq!(redact_hex(&format!("key={hex};")), "key=<redacted>;");
    assert_eq!(redact_hex(&format!("key={hex}00 {hex}")), "key=<redacted> <redacted>");
    assert_eq!(redact_hex(&hex[1..]), &hex[1..]);
    assert_eq!(
        redact_secrets("a \"dirhive1-XYZ\", p2psync1-Q,dirhive1-R\tend"),
        "a \"<redacted>\", <redacted>,<redacted>\tend"
    );
    assert_eq!(redact_pattern("no ticket", "dirhive1-"), "no ticket");
    assert_eq!(redact_pattern("dirhive1-", "dirhive1-"), "<redacted>");
}

#[test]
fn rpc_response_serializes_with_only_one_field() {
    let ok = RpcResponse::ok(1);
    assert!(ok.result.is_some());
    assert!(ok.error.is_none());
    let err: RpcResponse<u8> = RpcResponse::err("boom".into());
    assert!(err.error.is_some());
    assert!(err.result.is_none());
}

#[test]
fn answers_are_unwrapped() {
    assert_eq!(response_result(RpcResponse::ok(4)), Ok(4));
    let e = response_result::<u8>(RpcResponse::err("planned failure".into())).unwrap_err();
    assert!(e.message().contains("planned failure"));
    assert_eq!(e.message(), "daemon RPC error: planned failure");
    let e = response_result::<u8>(RpcResponse { result: None, error: None }).unwrap_err();
    assert_eq!(e, RpcError::Empty);
    assert_eq!(e.message(), "RpcResponse had neither result nor error");
    let e = read_result::<u8>(0, "", Ok(RpcResponse::ok(1))).unwrap_err();
    assert_eq!(e.message(), "daemon closed connection without response");
    let e = read_result::<u8>(3, "{x\n", Err("bad".into())).unwrap_err();
    assert_eq!(e.message(), "parse RpcResponse JSON (first 200 bytes): {x\n: bad");
    for (line, shown) in [
        ("y".repeat(200), "y".repeat(200)),
        ("y".repeat(300), "y".repeat(200)),
        ("\u{e9}".repeat(300), "\u{e9}".repeat(100)),
        ("y".to_string() + &"\u{e9}".repeat(300), "y".to_string() + &"\u{e9}".repeat(99)),
    ] {
        let e = read_result::<u8>(line.len(), &line, Err("bad".into())).unwrap_err();
        assert_eq!(e, RpcError::Parse { head: shown, reason: "bad".into() });
    }
    assert_eq!(read_result(3, "{}\n", Ok(RpcResponse::ok(1))), Ok(1));
    let e = RpcError::Timeout { method: "sync.status".into() };
    assert_eq!(e.message(), "RPC timeout (5s) on sync.status");
    let e = RpcError::Connect { socket: "/s".into(), reason: "gone".into() };
    assert_eq!(e.message(), "connect to daemon socket /s: gone");
    assert_eq!(RpcError::Io("x".into()).message(), "x");
}

#[test]
fn lines_from_a_connection_are_sorted_out() {
    let line = |n: usize, text: &str| LineRead::Line { n, text: text.to_string() };
    assert_eq!(
        handle_line(LineRead::TimedOut),
        RequestStep::Refuse("request read timed out after 10s".into())
    );
    assert_eq!(
        handle_line(LineRead::Failed("reset".into())),
        RequestStep::Fail("read RPC line: reset".into())
    );
    assert_eq!(handle_line(line(0, "")), RequestStep::Close);
    let exact = "x".repeat(MAX_REQUEST_BYTES);
    assert_eq!(handle_line(line(exact.len(), &exact)), RequestStep::Parse(exact.clone()));
    let long = format!("{exact}x");
    assert_eq!(
        handle_line(line(long.len(), &long)),
        RequestStep::Refuse("request too large".into())
    );
    assert_eq!(handle_line(line(4, "{}\n\n")), RequestStep::Parse("{}".into()));
    assert_eq!(invalid_request("x"), "invalid JSON request: x");
    let req = RpcRequest { method: "sync.status".to_string(), params: () };
    assert_eq!(route(&req.method), Ok(Method::Status));
}

#[test]
fn connection_cap_drops_extra_connections() {
    let mut slots = ConnectionSlots::new();
    for _ in 0..MAX_IN_FLIGHT_CONNECTIONS {
        assert_eq!(accept_step(&mut slots, false, true), AcceptStep::Serve);
    }
    assert_eq!(accept_step(&mut slots, false, true), AcceptStep::Drop);
    assert_eq!(accept_step(&mut slots, false, false), AcceptStep::Retry);
    assert_eq!(accept_step(&mut slots, true, true), AcceptStep::Stop);
    slots.release();
    assert!(slots.try_acquire());
    assert!(!slots.try_acquire());
}

#[test]
fn second_daemon_does_not_start() {
    assert_eq!(plan_bind(false, true, true), BindStep::Locked);
    assert_eq!(plan_bind(true, true, true), BindStep::AlreadyRunning);
    assert_eq!(plan_bind(true, true, false), BindStep::ReplaceStale);
    assert_eq!(plan_bind(true, false, false), BindStep::Bind);
    assert!(probe_answered(true, Some(3)));
    assert!(!probe_answered(true, Some(0)));
    assert!(!probe_answered(true, None));
    assert!(!probe_answered(false, Some(3)));
}

#[test]
fn server_exposes_ten_tools() {
    let names: Vec<&str> = tools().into_iter().map(|t| t.name).collect();
    assert_eq!(names.len(), 10);
    let must_have = [
        "sync.ping",
        "sync.health-check",
        "sync.status",
        "sync.invite",
        "sync.accept-invite",
        "sync.allow-peer",
        "sync.list-peers",
        "sync.revoke",
        "sync.list-pending",
        "sync.recent-log",
    ];
    for m in must_have {
        assert!(names.iter().any(|n| *n == m), "missing tool {m}");
    }
}

#[test]
fn sync_ping_returns_pong_without_daemon() {
    assert_eq!(call_tool("sync.ping"), ToolCall::Answer("pong"));
}

#[test]
fn sync_health_check_returns_error_when_daemon_absent() {
    assert_eq!(call_tool("sync.health-check"), ToolCall::Ask(Method::HealthCheck));
    let result = tool_result(Err("connect to daemon socket /tmp/nonexistent.sock".into()));
    assert!(result.is_error);
    assert!(!tool_result(Ok("{}".into())).is_error);
    assert!(matches!(call_tool("sync.other"), ToolCall::Unknown(_)));
}

#[test]
fn tool_parameters_hold_what_is_given() {
    let a = AcceptInviteParams { ticket: "t".into(), label: None };
    let b = AllowPeerParams { peer_id: "p".into(), label: Some("l".into()) };
    let c = RevokeParams { peer_id: "p".into() };
    assert_eq!((a.ticket.as_str(), b.peer_id.as_str(), c.peer_id.as_str()), ("t", "p", "p"));
    assert_eq!(ListPendingParams { limit: Some(3) }.limit, Some(3));
    assert_eq!(RecentLogParams { lines: None }.lines, None);
}
