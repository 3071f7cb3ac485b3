//! Where things are kept on the disk.
use crate::daemon::state::DaemonPaths;
use crate::path_text::{join_path, joined};
use vstd::prelude::*;

verus! {

/// The settings of the environment that say where things are kept.
#[derive(Debug, Clone, PartialEq, Eq)]
pub struct DirEnv {
    /// The home directory.
    pub home: Option<String>,
    /// The directory of the state, where that is not the usual one.
    pub state_dir: Option<String>,
    /// The directory of the configuration, where that is not the usual one.
    pub config_dir: Option<String>,
    /// The directory of the log, where that is not the usual one.
    pub log_dir: Option<String>,
}

/// No home directory is known, and it would be needed.
#[derive(Debug, Clone, Copy, PartialEq, Eq)]
pub struct HomeNotSet;

impl HomeNotSet {
    /// The text of the error.
    pub fn message(&self) -> (r: String)
        ensures
            r@ == "HOME env var not set"@,
    {
        "HOME env var not set".to_owned()
    }
}

/// A directory of its own where one is set, and else one below the home directory.
pub open spec fn dir_of(set: Option<String>, home: Option<String>, below: Seq<char>) -> Option<
    Seq<char>,
> {
    match set {
        Some(dir) => Some(dir@),
        None => match home {
            Some(h) => Some(joined(h@, below)),
            None => None,
        },
    }
}

impl DirEnv {
    /// The directory of the state.
    pub open spec fn spec_state_dir(&self) -> Option<Seq<char>> {
        dir_of(self.state_dir, self.home, ".local/share/p2p-dir-sync"@)
    }

    /// The directory of the configuration.
    pub open spec fn spec_config_dir(&self) -> Option<Seq<char>> {
        dir_of(self.config_dir, self.home, ".config/p2p-dir-sync"@)
    }

    /// The directory of the log.
    pub open spec fn spec_log_dir(&self) -> Option<Seq<char>> {
        dir_of(self.log_dir, self.home, "Library/Logs"@)
    }
}

/// The path is that of `name` in the directory; there is none exactly where there is no directory.
pub open spec fn stands_in(r: Result<String, HomeNotSet>, dir: Option<Seq<char>>, name: Seq<char>)
    -> bool {
    match dir {
        Some(d) => r matches Ok(p) && p@ == joined(d, name),
        None => r is Err,
    }
}

fn base_dir(set: &Option<String>, home: &Option<String>, below: &str) -> (r: Result<
    String,
    HomeNotSet,
>)
    ensures
        match dir_of(*set, *home, below@) {
            Some(d) => r matches Ok(p) && p@ == d,
            None => r is Err,
        },
{
    match set {
        Some(dir) => Ok(dir.clone()),
        None => {
            match home {
                Some(h) => Ok(join_path(h.as_str(), below)),
                None => Err(HomeNotSet),
            }
        },
    }
}

fn in_dir(dir: Result<String, HomeNotSet>, name: &str) -> (r: Result<String, HomeNotSet>)
    ensures
        match dir {
            Ok(d) => r matches Ok(p) && p@ == joined(d@, name@),
            Err(_) => r is Err,
        },
{
    match dir {
        Ok(d) => Ok(join_path(d.as_str(), name)),
        Err(e) => Err(e),
    }
}

fn state_dir(env: &DirEnv) -> (r: Result<String, HomeNotSet>)
    ensures
        match env.spec_state_dir() {
            Some(d) => r matches Ok(p) && p@ == d,
            None => r is Err,
        },
{
    base_dir(&env.state_dir, &env.home, ".local/share/p2p-dir-sync")
}

fn config_dir(env: &DirEnv) -> (r: Result<String, HomeNotSet>)
    ensures
        match env.spec_config_dir() {
            Some(d) => r matches Ok(p) && p@ == d,
            None => r is Err,
        },
{
    base_dir(&env.config_dir, &env.home, ".config/p2p-dir-sync")
}

fn log_dir(env: &DirEnv) -> (r: Result<String, HomeNotSet>)
    ensures
        match env.spec_log_dir() {
            Some(d) => r matches Ok(p) && p@ == d,
            None => r is Err,
        },
{
    base_dir(&env.log_dir, &env.home, "Library/Logs")
}

/// The socket of the daemon.
pub fn default_socket_path(env: &DirEnv) -> (r: Result<String, HomeNotSet>)
    ensures
        stands_in(r, env.spec_state_dir(), "daemon.sock"@),
{
    in_dir(state_dir(env), "daemon.sock")
}

/// The lock file of the daemon.
pub fn default_lock_path(env: &DirEnv) -> (r: Result<String, HomeNotSet>)
    ensures
        stands_in(r, env.spec_state_dir(), "daemon.lock"@),
{
    in_dir(state_dir(env), "daemon.lock")
}

/// The secret of the group.
pub fn default_folder_secret_path(env: &DirEnv) -> (r: Result<String, HomeNotSet>)
    ensures
        stands_in(r, env.spec_state_dir(), "folder-secret.bin"@),
{
    in_dir(state_dir(env), "folder-secret.bin")
}

/// The directory of the store of contents.
pub fn default_blobs_dir(env: &DirEnv) -> (r: Result<String, HomeNotSet>)
    ensures
        stands_in(r, env.spec_state_dir(), "blobs"@),
{
    in_dir(state_dir(env), "blobs")
}

/// The directory of the record of received changes.
pub fn default_pending_dir(env: &DirEnv) -> (r: Result<String, HomeNotSet>)
    ensures
        stands_in(r, env.spec_state_dir(), "pending"@),
{
    in_dir(state_dir(env), "pending")
}

/// The allowed peers.
pub fn default_allowlist_path(env: &DirEnv) -> (r: Result<String, HomeNotSet>)
    ensures
        stands_in(r, env.spec_state_dir(), "allowlist.json"@),
{
    in_dir(state_dir(env), "allowlist.json")
}

/// The peers that are asked first.
pub fn default_bootstrap_peers_path(env: &DirEnv) -> (r: Result<String, HomeNotSet>)
    ensures
        stands_in(r, env.spec_state_dir(), "bootstrap-peers.json"@),
{
    in_dir(state_dir(env), "bootstrap-peers.json")
}

/// The key of this endpoint.
pub fn default_key_path(env: &DirEnv) -> (r: Result<String, HomeNotSet>)
    ensures
        stands_in(r, env.spec_config_dir(), "endpoint.key"@),
{
    in_dir(config_dir(env), "endpoint.key")
}

/// The log of the daemon.
pub fn default_log_path(env: &DirEnv) -> (r: Result<String, HomeNotSet>)
    ensures
        stands_in(r, env.spec_log_dir(), "p2p-dir-sync.log"@),
{
    in_dir(log_dir(env), "p2p-dir-sync.log")
}

/// Where the daemon for the directory `watched_dir` keeps things.
pub fn build_daemon_paths(env: &DirEnv, watched_dir: &str) -> (r: Result<DaemonPaths, HomeNotSet>)
    ensures
        r is Ok <==> env.spec_state_dir() is Some && env.spec_config_dir() is Some
            && env.spec_log_dir() is Some,
        r matches Ok(p) ==> ({
            let state = env.spec_state_dir()->0;
            &&& p.watched_dir_canonical@ == watched_dir@
            &&& p.socket_path@ == joined(state, "daemon.sock"@)
            &&& p.lock_path@ == joined(state, "daemon.lock"@)
            &&& p.allowlist_path@ == joined(state, "allowlist.json"@)
            &&& p.folder_secret_path@ == joined(state, "folder-secret.bin"@)
            &&& p.key_path@ == joined(env.spec_config_dir()->0, "endpoint.key"@)
            &&& p.blobs_dir@ == joined(state, "blobs"@)
            &&& p.log_path@ == joined(env.spec_log_dir()->0, "p2p-dir-sync.log"@)
            &&& p.bootstrap_peers_path@ == joined(state, "bootstrap-peers.json"@)
        }),
{
    Ok(
        DaemonPaths {
            watched_dir_canonical: watched_dir.to_owned(),
            socket_path: match default_socket_path(env) {
                Ok(p) => p,
                Err(e) => return Err(e),
            },
            lock_path: match default_lock_path(env) {
                Ok(p) => p,
                Err(e) => return Err(e),
            },
            allowlist_path: match default_allowlist_path(env) {
                Ok(p) => p,
                Err(e) => return Err(e),
            },
            folder_secret_path: match default_folder_secret_path(env) {
                Ok(p) => p,
                Err(e) => return Err(e),
            },
            key_path: match default_key_path(env) {
                Ok(p) => p,
                Err(e) => return Err(e),
            },
            blobs_dir: match default_blobs_dir(env) {
                Ok(p) => p,
                Err(e) => return Err(e),
            },
            log_path: match default_log_path(env) {
                Ok(p) => p,
                Err(e) => return Err(e),
            },
            bootstrap_peers_path: match default_bootstrap_peers_path(env) {
                Ok(p) => p,
                Err(e) => return Err(e),
            },
        },
    )
}

/// The socket that is asked: the one that is set, and else that of the daemon.
pub fn client_socket_path(set: Option<String>, env: &DirEnv) -> (r: Result<String, HomeNotSet>)
    ensures
        match set {
            Some(p) => r matches Ok(q) && q == p,
            None => stands_in(r, env.spec_state_dir(), "daemon.sock"@),
        },
{
    match set {
        Some(p) => Ok(p),
        None => default_socket_path(env),
    }
}

/// A directory that is set is taken as it is, whatever the home directory is; without one the
/// directory stands below the home directory, and without that there is none.
pub proof fn law_set_directory_wins(
    set: Option<String>,
    home: Option<String>,
    other: Option<String>,
    below: Seq<char>,
)
    ensures
        set matches Some(d) ==> dir_of(set, home, below) == Some(d@) && dir_of(set, other, below)
            == Some(d@),
        set is None ==> (dir_of(set, home, below) is None <==> home is None),
        set is None && home is Some && home->0@.len() > 0 && crate::path_text::is_safe_relative(
            below,
        ) ==> (dir_of(set, home, below) matches Some(d) && crate::path_text::path_components(d)
            == crate::path_text::path_components(home->0@) + crate::text::split_text(below, '/')),
{
    if home is Some && home->0@.len() > 0 && crate::path_text::is_safe_relative(below) {
        crate::path_text::law_joined_stays_below(home->0@, below);
    }
}

} // verus!
