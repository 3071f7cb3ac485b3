use p2p_dir_sync::bootstrap_peers::{
    add_or_replace, bootstrap_snapshot, load_bootstrap_peers, save_bootstrap_peers,
    BootstrapSnapshot,
};
use p2p_dir_sync::keystore::{
    generate_and_persist_folder_secret, load_or_create_endpoint_key, new_endpoint_key,
    persist_folder_secret, try_load_folder_secret, FileRead,
};
use p2p_dir_sync::paths::{
    build_daemon_paths, client_socket_path, default_allowlist_path, default_blobs_dir,
    default_bootstrap_peers_path, default_folder_secret_path, default_key_path, default_lock_path,
    default_log_path, default_pending_dir, default_socket_path, DirEnv,
};
use p2p_dir_sync::runtime::{derive_topic_id, plan_subscription, TOPIC_DOMAIN};
use p2p_dir_sync::ticket::EndpointTicket;

fn with_state_dir() -> DirEnv {
    DirEnv { home: None, state_dir: Some("/tmp/st".into()), config_dir: None, log_dir: None }
}

fn with_home() -> DirEnv {
    DirEnv { home: Some("/home/u".into()), state_dir: None, config_dir: None, log_dir: None }
}

fn fixture_ticket(byte: u8, port: Option<u16>) -> EndpointTicket {
    let id = iroh_base::SecretKey::from_bytes(&[byte; 32]).public();
    let mut addr = iroh_base::EndpointAddr::new(id);
    if let Some(port) = port {
        addr = addr.with_ip_addr(([127, 0, 0, 1], port).into());
    }
    let text = iroh_tickets::endpoint::EndpointTicket::new(addr).to_string();
    EndpointTicket::parse(&text).unwrap()
}

#[test]
fn socket_path_under_state_dir() {
    assert_eq!(default_socket_path(&with_state_dir()).unwrap(), "/tmp/st/daemon.sock");
}

#[test]
fn lock_path_under_state_dir() {
    assert_eq!(default_lock_path(&with_state_dir()).unwrap(), "/tmp/st/daemon.lock");
}

#[test]
fn folder_secret_path_under_state_dir() {
    assert_eq!(
        default_folder_secret_path(&with_state_dir()).unwrap(),
        "/tmp/st/folder-secret.bin"
    );
}

#[test]
fn blobs_dir_under_state_dir() {
    assert_eq!(default_blobs_dir(&with_state_dir()).unwrap(), "/tmp/st/blobs");
}

#[test]
fn pending_dir_under_state_dir() {
    assert_eq!(default_pending_dir(&with_state_dir()).unwrap(), "/tmp/st/pending");
}

#[test]
fn allowlist_path_under_state_dir() {
    assert_eq!(default_allowlist_path(&with_state_dir()).unwrap(), "/tmp/st/allowlist.json");
}

#[test]
fn usual_places_are_below_home() {
    let env = with_home();
    let state = "/home/u/.local/share/p2p-dir-sync";
    assert_eq!(default_socket_path(&env).unwrap(), format!("{state}/daemon.sock"));
    assert_eq!(
        default_bootstrap_peers_path(&env).unwrap(),
        format!("{state}/bootstrap-peers.json")
    );
    assert_eq!(default_key_path(&env).unwrap(), "/home/u/.config/p2p-dir-sync/endpoint.key");
    assert_eq!(default_log_path(&env).unwrap(), "/home/u/Library/Logs/p2p-dir-sync.log");
}

#[test]
fn without_home_nothing_usual_is_found() {
    let env = with_state_dir();
    assert_eq!(default_key_path(&env).unwrap_err().message(), "HOME env var not set");
    assert!(default_log_path(&env).is_err());
    assert!(build_daemon_paths(&env, "/w").is_err());
}

#[test]
fn daemon_paths_are_put_together() {
    let p = build_daemon_paths(&with_home(), "/work/dir").unwrap();
    assert_eq!(p.watched_dir_canonical, "/work/dir");
    assert_eq!(p.lock_path, "/home/u/.local/share/p2p-dir-sync/daemon.lock");
    assert_eq!(p.key_path, "/home/u/.config/p2p-dir-sync/endpoint.key");
    assert_eq!(p.log_path, "/home/u/Library/Logs/p2p-dir-sync.log");
}

#[test]
fn client_asks_the_socket_that_is_set() {
    assert_eq!(client_socket_path(Some("/s".into()), &with_home()).unwrap(), "/s");
    assert_eq!(client_socket_path(None, &with_state_dir()).unwrap(), "/tmp/st/daemon.sock");
}

#[test]
fn endpoint_key_generates_on_first_load() {
    let path = "/c/nested/endpoint.key";
    let k1 = load_or_create_endpoint_key(path, FileRead::Missing).unwrap();
    let w = k1.write.clone().unwrap();
    assert!(w.private);
    assert_eq!(w.target, path);
    assert_eq!(w.dir, "/c/nested");
    assert_eq!(w.content, k1.bytes.to_vec());
    let k2 = load_or_create_endpoint_key(path, FileRead::Bytes(w.content)).unwrap();
    assert_eq!(k1.bytes, k2.bytes);
    assert!(k2.write.is_none());
}

#[test]
fn new_key_is_written_as_it_is() {
    let k = new_endpoint_key("/c/k", [3; 32]).unwrap();
    assert_eq!(k.bytes, [3; 32]);
    assert_eq!(k.write.unwrap().content, vec![3; 32]);
    let e = persist_folder_secret("/", &[3; 16]).unwrap_err();
    assert_eq!(e.message(), "target / has no parent");
    let e = generate_and_persist_folder_secret("/").unwrap_err();
    assert_eq!(e.message(), "target / has no parent");
    assert_eq!(new_endpoint_key("/", [3; 32]).unwrap_err().message(), "target / has no parent");
}

#[test]
fn endpoint_key_rejects_invalid_size() {
    let e = load_or_create_endpoint_key("/c/endpoint.key", FileRead::Bytes(vec![0u8; 16]))
        .unwrap_err();
    assert!(e.message().contains("invalid size"));
    assert_eq!(e.message(), "/c/endpoint.key has invalid size: 16 bytes (expected 32)");
}

#[test]
fn unreadable_key_is_an_error() {
    let e = load_or_create_endpoint_key("/c/k", FileRead::Failed("denied".into())).unwrap_err();
    assert_eq!(e.message(), "read /c/k: denied");
}

#[test]
fn folder_secret_absent_returns_none() {
    assert_eq!(try_load_folder_secret("/s/folder-secret.bin", FileRead::Missing).unwrap(), None);
}

#[test]
fn folder_secret_generate_persists_and_loads() {
    let path = "/s/folder-secret.bin";
    let (s1, w) = generate_and_persist_folder_secret(path).unwrap();
    assert_eq!(s1.len(), 16);
    assert!(w.private);
    assert_eq!(w.prefix, ".secret.");
    let s2 = try_load_folder_secret(path, FileRead::Bytes(w.content)).unwrap().unwrap();
    assert_eq!(s1, s2);
}

#[test]
fn folder_secret_persist_overwrites() {
    let path = "/s/folder-secret.bin";
    let w = persist_folder_secret(path, &[0xaa; 16]).unwrap();
    assert_eq!(
        try_load_folder_secret(path, FileRead::Bytes(w.content)).unwrap().unwrap(),
        [0xaa; 16]
    );
    let w = persist_folder_secret(path, &[0xbb; 16]).unwrap();
    assert_eq!(
        try_load_folder_secret(path, FileRead::Bytes(w.content)).unwrap().unwrap(),
        [0xbb; 16]
    );
}

#[test]
fn folder_secret_rejects_invalid_size() {
    let e = try_load_folder_secret("/s/f", FileRead::Bytes(vec![0u8; 8])).unwrap_err();
    assert!(e.message().contains("invalid size"));
    let e = try_load_folder_secret("/s/f", FileRead::Failed("why".into())).unwrap_err();
    assert_eq!(e.message(), "read /s/f: why");
}

#[test]
fn generate_creates_unique_secrets() {
    let (s1, _) = generate_and_persist_folder_secret("/a/folder-secret.bin").unwrap();
    let (s2, _) = generate_and_persist_folder_secret("/b/folder-secret.bin").unwrap();
    assert_ne!(s1, s2);
}

#[test]
fn topic_domain_is_versioned() {
    assert_eq!(&TOPIC_DOMAIN, b"p2p-dir-sync/v1/topic\0");
}

#[test]
fn derive_topic_id_deterministic() {
    let secret = [7u8; 16];
    let a = derive_topic_id(&secret);
    let b = derive_topic_id(&secret);
    assert_eq!(a, b);
}

#[test]
fn derive_topic_id_differs_by_secret() {
    let a = derive_topic_id(&[0u8; 16]);
    let b = derive_topic_id(&[1u8; 16]);
    assert_ne!(a, b);
}

#[test]
fn derive_topic_id_matches_manual_blake3() {
    let secret = [0xABu8; 16];
    let expected = {
        let mut h = blake3::Hasher::new();
        h.update(b"p2p-dir-sync/v1/topic\0");
        h.update(&secret);
        *h.finalize().as_bytes()
    };
    let got = derive_topic_id(&secret);
    assert_eq!(got.as_bytes(), &expected);
}

#[test]
fn topic_domain_byte_layout() {
    let bytes = TOPIC_DOMAIN;
    assert_eq!(bytes.len(), 22);
    assert_eq!(bytes[bytes.len() - 1], 0);
    assert!(bytes.windows(3).any(|w| w == b"v1/"));
}

#[test]
fn group_is_joined_only_with_a_secret() {
    let peers = vec![fixture_ticket(1, None), fixture_ticket(2, None)];
    assert!(plan_subscription(None, &peers).is_none());
    let plan = plan_subscription(Some(&[0x42; 16]), &peers).unwrap();
    assert_eq!(plan.topic, derive_topic_id(&[0x42; 16]));
    assert!(plan.register_addresses);
    assert_eq!(plan.bootstrap, vec![peers[0].id(), peers[1].id()]);
    let alone = plan_subscription(Some(&[0x42; 16]), &Vec::new()).unwrap();
    assert!(!alone.register_addresses);
    assert!(alone.bootstrap.is_empty());
}

#[test]
fn load_missing_returns_empty() {
    assert!(load_bootstrap_peers(None).unwrap().is_empty());
}

#[test]
fn save_then_load_round_trip() {
    let stored = bootstrap_snapshot(vec![fixture_ticket(1, None), fixture_ticket(2, None)]);
    let got = load_bootstrap_peers(Some(stored)).unwrap();
    assert_eq!(got.len(), 2);
    assert_eq!(got[0].id(), fixture_ticket(1, None).id());
    assert_eq!(got[1].id(), fixture_ticket(2, None).id());
}

#[test]
fn add_or_replace_appends_new_peer() {
    let mut peers = load_bootstrap_peers(None).unwrap();
    add_or_replace(&mut peers, fixture_ticket(1, None));
    add_or_replace(&mut peers, fixture_ticket(2, None));
    assert_eq!(peers.len(), 2);
}

#[test]
fn add_or_replace_updates_existing_id() {
    let mut peers = load_bootstrap_peers(None).unwrap();
    let id1 = fixture_ticket(1, None);
    add_or_replace(&mut peers, id1.clone());
    add_or_replace(&mut peers, id1.clone());
    assert_eq!(peers.len(), 1);
    assert_eq!(peers[0].id(), id1.id());
    add_or_replace(&mut peers, fixture_ticket(2, None));
    add_or_replace(&mut peers, fixture_ticket(1, Some(4000)));
    assert_eq!(peers.len(), 2);
    assert_eq!(peers[0], fixture_ticket(1, Some(4000)));
    assert_ne!(peers[0], id1);
}

#[test]
fn bootstrap_peers_load_rejects_wrong_schema_version() {
    let e = load_bootstrap_peers(Some(BootstrapSnapshot { version: 42, peers: Vec::new() }))
        .unwrap_err();
    assert!(e.message().contains("schema version mismatch"));
    assert_eq!(e.message(), "bootstrap-peers schema version mismatch: expected 1, got 42");
}

#[test]
fn stored_bootstrap_peers_are_private() {
    let w = save_bootstrap_peers("/s/bootstrap-peers.json", vec![1]).unwrap();
    assert!(w.private);
    assert_eq!(w.prefix, ".bootstrap-peers.");
    assert_eq!(w.dir, "/s");
    assert_eq!(save_bootstrap_peers("/", vec![1]).unwrap_err().message(), "no parent");
}
