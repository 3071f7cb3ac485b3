//! Local changes as the file system reports them: which are of interest, and what is done about
//! them.
use crate::conflict::{backup_name, backup_path, law_backup_stands_beside, CONFLICT_MARK};
use crate::path_text::{
    components, file_name, is_name, joined, law_strip_joined, lemma_name_is_component,
    lemma_stripped_keeps_name, names_entry, path_components, strip_path, stripped,
};
use crate::peer_id::BlobHash;
use crate::state::{InitialBroadcasts, SyncState, SyncView, WaitingView};
use crate::text::{
    chars_of, contains_text, ends_with_text, matches_at, split_text, text_contains,
    text_ends_with, texts,
};
use vstd::prelude::*;

verus! {

/// For how many milliseconds reports are gathered before they are handed on.
pub const DEBOUNCE_DURATION: u64 = 200;

/// How changes are found out.
#[derive(Clone, Copy, Debug, PartialEq, Eq, Structural)]
pub enum WatcherBackend {
    /// The notifications of the operating system.
    Recommended,
    /// Looking at the files again and again.
    Poll,
}

impl Default for WatcherBackend {
    fn default() -> (b: WatcherBackend)
        ensures
            b == WatcherBackend::Recommended,
    {
        WatcherBackend::Recommended
    }
}

/// Refuses the ways of finding out changes that there are not.
pub fn check_backend(backend: WatcherBackend) -> (r: Result<(), String>)
    ensures
        r is Ok <==> backend == WatcherBackend::Recommended,
        r matches Err(e) ==> e@ == "WatcherBackend::Poll is not yet implemented (Phase 3 で追加予定)"@,
{
    match backend {
        WatcherBackend::Recommended => Ok(()),
        WatcherBackend::Poll => Err(
            "WatcherBackend::Poll is not yet implemented (Phase 3 で追加予定)".to_owned(),
        ),
    }
}

/// What kind of change is reported.
#[derive(Clone, Copy, Debug, PartialEq, Eq, Structural)]
pub enum EventKind {
    /// A change of unknown kind.
    Any,
    /// A file was read.
    Access,
    /// A file was created.
    Create,
    /// A file was changed.
    Modify,
    /// A file was removed.
    Remove,
    /// Something that is no change of a file.
    Other,
}

/// A report of the file system.
#[derive(Clone, Debug, PartialEq, Eq)]
pub struct WatchEvent {
    /// What kind of change is reported.
    pub kind: EventKind,
    /// The paths that it is about.
    pub paths: Vec<String>,
}

/// The names of files that are not synchronised: hidden ones, temporary ones, and backups.
pub open spec fn skippable_name(name: Seq<char>) -> bool {
    ||| (name.len() > 0 && name[0] == '.')
    ||| ends_with_text(name, ".swp"@)
    ||| ends_with_text(name, ".swx"@)
    ||| ends_with_text(name, ".tmp"@)
    ||| (name.len() > 0 && name.last() == '~')
    ||| contains_text(name, CONFLICT_MARK@)
}

/// A path with a component that is not synchronised.
pub open spec fn skippable_path(p: Seq<char>) -> bool {
    exists|i: int|
        0 <= i < path_components(p).len() && is_name(#[trigger] path_components(p)[i])
            && skippable_name(path_components(p)[i])
}

/// The reports that are no change of a file.
pub open spec fn idle_kind(kind: EventKind) -> bool {
    kind == EventKind::Access || kind == EventKind::Other
}

/// A path below `root` with a component below `root` that is not synchronised.
pub open spec fn skippable_below(p: Seq<char>, root: Seq<char>) -> bool {
    match stripped(p, root) {
        Some(rel) => skippable_path(rel),
        None => skippable_path(p),
    }
}

proof fn lemma_named_file_is_skipped(p: Seq<char>, root: Seq<char>)
    requires
        file_name(p) is Some,
        skippable_name(file_name(p)->0),
    ensures
        skippable_path(p),
        path_components(root) != path_components(p) ==> skippable_below(p, root),
{
    lemma_name_is_component(p);
    if path_components(root) != path_components(p) && stripped(p, root) is Some {
        lemma_stripped_keeps_name(p, root);
        lemma_name_is_component(stripped(p, root)->0);
    }
}

/// A temporary file is not synchronised, whatever stands between the two ends of its name and
/// wherever it stands in a synchronised directory.
pub proof fn law_temporary_files_are_skipped(p: Seq<char>, middle: Seq<char>, root: Seq<char>)
    requires
        file_name(p) == Some(".p2p-sync."@ + middle + crate::atomic_write::TEMP_SUFFIX@),
    ensures
        skippable_path(p),
        path_components(root) != path_components(p) ==> skippable_below(p, root),
{
    reveal_strlit(".p2p-sync.");
    lemma_named_file_is_skipped(p, root);
}

proof fn lemma_backup_name_is_skipped(name: Seq<char>, from: Seq<u8>)
    ensures
        skippable_name(backup_name(name, from)),
{
    let full = backup_name(name, from);
    assert(full.subrange(name.len() as int, (name.len() + CONFLICT_MARK@.len()) as int)
        =~= CONFLICT_MARK@);
    assert(matches_at(full, name.len() as int, CONFLICT_MARK@));
}

/// A backup is not synchronised, wherever its file stands: its path is of no interest, nor is
/// what is left of it behind a synchronised directory, which is not the backup itself.
pub proof fn law_backups_are_skipped(
    out_path: Seq<char>,
    local: Option<Seq<u8>>,
    incoming: Seq<u8>,
    from: Seq<u8>,
    backup: Seq<char>,
    root: Seq<char>,
)
    requires
        from.len() == 32,
        backup_path(out_path, local, incoming, from) == Some(backup),
    ensures
        skippable_path(backup),
        path_components(root) != path_components(backup) ==> skippable_below(backup, root),
{
    let name = file_name(out_path)->0;
    law_backup_stands_beside(out_path, local->0, incoming, from);
    lemma_backup_name_is_skipped(name, from);
    lemma_named_file_is_skipped(backup, root);
}

fn name_is_skippable(name: &str) -> (r: bool)
    ensures
        r == skippable_name(name@),
{
    let chars = chars_of(name);
    let n: usize = chars.len();
    if n > 0 && (chars[0] == '.' || chars[n - 1] == '~') {
        return true;
    }
    let swp = chars_of(".swp");
    let swx = chars_of(".swx");
    let tmp = chars_of(".tmp");
    let mark = chars_of(CONFLICT_MARK);
    text_ends_with(chars.as_slice(), swp.as_slice()) || text_ends_with(
        chars.as_slice(),
        swx.as_slice(),
    ) || text_ends_with(chars.as_slice(), tmp.as_slice()) || text_contains(
        chars.as_slice(),
        mark.as_slice(),
    )
}

/// Whether a component of the path is one that is not synchronised.
pub fn path_is_skippable(p: &str) -> (r: bool)
    ensures
        r == skippable_path(p@),
{
    let comps = components(p);
    let ghost all = path_components(p@);
    let mut i: usize = 0;
    while i < comps.len()
        invariant
            i <= comps@.len(),
            all == texts(comps@),
            all == path_components(p@),
            forall|j: int| 0 <= j < i ==> !(is_name(#[trigger] all[j]) && skippable_name(all[j])),
        decreases comps@.len() - i,
    {
        let c = comps[i].as_str();
        proof {
            assert(c@ == all[i as int]);
        }
        if names_entry(c) && name_is_skippable(c) {
            return true;
        }
        i += 1;
    }
    false
}

/// Whether a report is of no interest: it is no change, or it is about a file that is not
/// synchronised.
pub fn should_skip(ev: &WatchEvent) -> (r: bool)
    ensures
        r == (idle_kind(ev.kind) || exists|i: int|
            0 <= i < ev.paths@.len() && skippable_path((#[trigger] ev.paths@[i])@)),
{
    match ev.kind {
        EventKind::Access => return true,
        EventKind::Other => return true,
        _ => {},
    }
    let mut i: usize = 0;
    while i < ev.paths.len()
        invariant
            i <= ev.paths@.len(),
            forall|j: int| 0 <= j < i ==> !skippable_path((#[trigger] ev.paths@[j])@),
        decreases ev.paths@.len() - i,
    {
        if path_is_skippable(ev.paths[i].as_str()) {
            return true;
        }
        i += 1;
    }
    false
}

/// Whether a report is of no interest, where only what stands below `root` is looked at: the
/// name of the synchronised directory itself does not matter.
pub fn should_skip_under_root(ev: &WatchEvent, root: &str) -> (r: bool)
    ensures
        r == (idle_kind(ev.kind) || exists|i: int|
            0 <= i < ev.paths@.len() && skippable_below((#[trigger] ev.paths@[i])@, root@)),
{
    match ev.kind {
        EventKind::Access => return true,
        EventKind::Other => return true,
        _ => {},
    }
    let mut i: usize = 0;
    while i < ev.paths.len()
        invariant
            i <= ev.paths@.len(),
            forall|j: int| 0 <= j < i ==> !skippable_below((#[trigger] ev.paths@[j])@, root@),
        decreases ev.paths@.len() - i,
    {
        let p = ev.paths[i].as_str();
        let skip = match strip_path(p, root) {
            Some(rel) => path_is_skippable(rel.as_str()),
            None => path_is_skippable(p),
        };
        if skip {
            return true;
        }
        i += 1;
    }
    false
}

/// The relative path that a report is about: that of its first path below the directory.
pub open spec fn reported_path(paths: Seq<Seq<char>>, watched_dir: Seq<char>) -> Option<
    Seq<char>,
> {
    if paths.len() == 0 {
        None
    } else {
        match stripped(paths[0], watched_dir) {
            Some(rel) => if rel.len() == 0 {
                None
            } else {
                Some(rel)
            },
            None => None,
        }
    }
}

/// The relative path that a report is about; `None` of a report without paths, of one on
/// something outside the directory, and of one on the directory itself.
pub fn event_rel_path(ev: &WatchEvent, watched_dir: &str) -> (r: Option<String>)
    ensures
        ({
            let want = reported_path(texts(ev.paths@), watched_dir@);
            &&& r is Some <==> want is Some
            &&& r matches Some(rel) ==> want == Some(rel@)
        }),
{
    if ev.paths.len() == 0 {
        return None;
    }
    match strip_path(ev.paths[0].as_str(), watched_dir) {
        Some(rel) => {
            if rel.as_str().is_empty() {
                None
            } else {
                Some(rel)
            }
        },
        None => None,
    }
}

/// A file that was written for the relative path `rel` is reported under `rel`.
pub proof fn law_written_file_is_reported(root: Seq<char>, rel: Seq<char>)
    requires
        root.len() > 0,
        crate::path_text::is_safe_relative(rel),
    ensures
        reported_path(seq![joined(root, rel)], root) == Some(rel),
{
    crate::message::law_accepted_paths(rel);
    law_strip_joined(root, rel);
}

/// What is done about a reported change.
#[derive(Clone, Copy, Debug, PartialEq, Eq, Structural)]
pub enum WatchDecision {
    /// Nothing: the contents are those that this process wrote itself.
    OwnWrite,
    /// Nothing: this process removed the file itself.
    OwnRemoval,
    /// It waits until a neighbour is there.
    Queued,
    /// The removal is announced.
    Tombstone,
    /// The contents are announced.
    Upsert,
}

/// The contents are those that this process wrote, or is just writing: `marker` is the hash that
/// it wrote, `found` the hash of what stands there.
pub open spec fn own_contents(
    s: SyncView,
    rel: Seq<char>,
    marker: Option<BlobHash>,
    found: Option<BlobHash>,
) -> bool {
    found is Some && ((marker is Some && marker->0@ == found->0@) || (
    s.pending_written.dom().contains(rel) && s.pending_written[rel]@ == found->0@))
}

/// What is done about a change of `rel`. `marker` is the hash that this process wrote to it,
/// `found` the hash of its contents where they could be read, `present` whether the file is there.
pub open spec fn watch_decision(
    s: SyncView,
    w: WaitingView,
    rel: Seq<char>,
    kind: EventKind,
    marker: Option<BlobHash>,
    found: Option<BlobHash>,
    present: bool,
) -> WatchDecision {
    if own_contents(s, rel, marker, found) {
        WatchDecision::OwnWrite
    } else if (kind == EventKind::Remove || !present) && s.last_removed.contains(rel) {
        WatchDecision::OwnRemoval
    } else if !w.joined {
        WatchDecision::Queued
    } else if kind == EventKind::Remove || !present {
        WatchDecision::Tombstone
    } else {
        WatchDecision::Upsert
    }
}

/// Takes the hash that this process wrote to `rel`: it counts for one report only.
pub fn begin_watch_event(state: &mut SyncState, rel: &str) -> (marker: Option<BlobHash>)
    ensures
        final(state)@ == old(state)@.not_written(rel@),
        marker is Some <==> old(state)@.last_written.dom().contains(rel@),
        marker matches Some(h) ==> h == old(state)@.last_written[rel@],
{
    state.take_written(rel)
}

/// Whether the contents of `rel` have to be looked at to decide what is done about a change of it:
/// only where this process wrote them or is just writing them.
pub fn wants_contents(state: &SyncState, rel: &str, marker: Option<BlobHash>) -> (r: bool)
    ensures
        r == (marker is Some || state@.pending_written.dom().contains(rel@)),
        !r ==> forall|found: Option<BlobHash>| !(#[trigger] own_contents(
            state@,
            rel@,
            marker,
            found,
        )),
{
    marker.is_some() || state.pending_written.contains_key(&rel.to_owned())
}

/// Decides what is done about a change of `rel`.
pub fn decide_watch_event(
    state: &mut SyncState,
    waiting: &mut InitialBroadcasts,
    rel: &str,
    kind: EventKind,
    marker: Option<BlobHash>,
    found: Option<BlobHash>,
    present: bool,
) -> (d: WatchDecision)
    ensures
        d == watch_decision(old(state)@, old(waiting)@, rel@, kind, marker, found, present),
        final(state)@ == if d == WatchDecision::OwnRemoval {
            old(state)@.not_removed(rel@)
        } else {
            old(state)@
        },
        final(waiting)@ == if d == WatchDecision::Queued {
            old(waiting)@.told(rel@)
        } else {
            old(waiting)@
        },
{
    let written = match (marker, found) {
        (Some(expected), Some(hash)) => expected.same(&hash),
        _ => false,
    };
    let key: String = rel.to_owned();
    let own = written || match (state.pending_written.get(&key), found) {
        (Some(expected), Some(hash)) => expected.same(&hash),
        _ => false,
    };
    if own {
        return WatchDecision::OwnWrite;
    }
    let removed = match kind {
        EventKind::Remove => true,
        _ => !present,
    };
    if removed {
        if state.take_removed(rel) {
            return WatchDecision::OwnRemoval;
        }
        proof {
            assert(old(state)@.not_removed(rel@).last_removed =~= old(state)@.last_removed);
        }
    }
    if waiting.enqueue_initial_broadcast(rel) {
        return WatchDecision::Queued;
    }
    if removed {
        WatchDecision::Tombstone
    } else {
        WatchDecision::Upsert
    }
}

/// A file that is written for a peer is not sent out again: a report that comes while it is being
/// written and finds the new contents does nothing, nor does the next report after it was written.
/// The report after that one counts in full.
pub proof fn law_written_file_is_not_echoed(
    s: SyncView,
    w: WaitingView,
    rel: Seq<char>,
    hash: BlobHash,
    kind: EventKind,
    present: bool,
)
    ensures
        ({
            let during = s.writing(rel, hash);
            let after = during.not_writing(rel).written(rel, hash);
            let taken = after.not_written(rel);
            &&& watch_decision(during, w, rel, kind, None, Some(hash), present)
                == WatchDecision::OwnWrite
            &&& after.last_written.dom().contains(rel) && after.last_written[rel] == hash
            &&& watch_decision(taken, w, rel, kind, Some(hash), Some(hash), present)
                == WatchDecision::OwnWrite
            &&& !taken.last_written.dom().contains(rel)
            &&& watch_decision(taken, w, rel, kind, None, Some(hash), present)
                != WatchDecision::OwnWrite
        }),
{
}

/// Nothing is held back but what this process did itself: contents that it wrote or is writing, and
/// a removal that it noted. Every other report waits until a neighbour was there, and from then on
/// it is announced: as a removal exactly where it is the report of one or the file is not there,
/// and with the contents in every other case.
pub proof fn law_reports_are_told(
    s: SyncView,
    w: WaitingView,
    rel: Seq<char>,
    kind: EventKind,
    marker: Option<BlobHash>,
    found: Option<BlobHash>,
    present: bool,
)
    ensures
        ({
            let d = watch_decision(s, w, rel, kind, marker, found, present);
            let written = marker is Some && found is Some && marker->0@ == found->0@;
            let writing = found is Some && s.pending_written.dom().contains(rel)
                && s.pending_written[rel]@ == found->0@;
            let gone = kind == EventKind::Remove || !present;
            let held = written || writing || (gone && s.last_removed.contains(rel));
            &&& d == WatchDecision::OwnWrite <==> written || writing
            &&& d == WatchDecision::OwnWrite || d == WatchDecision::OwnRemoval <==> held
            &&& d == WatchDecision::Queued <==> !held && !w.joined
            &&& d == WatchDecision::Tombstone <==> !held && w.joined && gone
            &&& d == WatchDecision::Upsert <==> !held && w.joined && !gone
        }),
{
}

/// A file that is there and that this process did not write is announced with its contents once a
/// neighbour was there, whatever was reported of it but a removal.
pub proof fn law_present_file_is_announced(
    s: SyncView,
    w: WaitingView,
    rel: Seq<char>,
    kind: EventKind,
    other: EventKind,
    marker: Option<BlobHash>,
    found: Option<BlobHash>,
)
    requires
        kind != EventKind::Remove,
        other != EventKind::Remove,
    ensures
        watch_decision(s, w, rel, kind, marker, found, true) == watch_decision(
            s,
            w,
            rel,
            other,
            marker,
            found,
            true,
        ),
        w.joined && marker is None && !s.pending_written.dom().contains(rel) ==> watch_decision(
            s,
            w,
            rel,
            kind,
            marker,
            found,
            true,
        ) == WatchDecision::Upsert,
        w.joined && found is None ==> watch_decision(s, w, rel, kind, marker, found, true)
            == WatchDecision::Upsert,
{
}

/// A file that is gone is announced as removed once a neighbour was there, unless this process
/// removed it, whatever was reported of it.
pub proof fn law_missing_file_is_announced(
    s: SyncView,
    w: WaitingView,
    rel: Seq<char>,
    kind: EventKind,
    marker: Option<BlobHash>,
)
    requires
        w.joined,
        !s.last_removed.contains(rel),
    ensures
        watch_decision(s, w, rel, kind, marker, None, false) == WatchDecision::Tombstone,
{
}

proof fn lemma_safe_components(parts: Seq<Seq<char>>, n: int)
    requires
        0 <= n <= parts.len(),
        forall|i: int| 0 <= i < parts.len() ==> is_name(#[trigger] parts[i]),
    ensures
        crate::path_text::kept_parts(parts, n) == parts.subrange(0, n),
    decreases n,
{
    if n > 0 {
        lemma_safe_components(parts, n - 1);
        assert(is_name(parts[n - 1]));
        assert(parts.subrange(0, n) =~= parts.subrange(0, n - 1).push(parts[n - 1]));
    } else {
        assert(parts.subrange(0, 0) =~= Seq::<Seq<char>>::empty());
    }
}

/// Whether a file below the synchronised directory is of interest depends on the names in its
/// relative path alone: it is not where one of them begins with a dot, ends with `~`, `.swp`,
/// `.swx` or `.tmp`, or holds the mark of a backup. The name of the directory itself does not
/// matter.
pub proof fn law_names_decide(root: Seq<char>, rel: Seq<char>)
    requires
        root.len() > 0,
        crate::path_text::is_safe_relative(rel),
    ensures
        skippable_below(joined(root, rel), root) <==> exists|i: int|
            0 <= i < split_text(rel, '/').len() && {
                let name = #[trigger] split_text(rel, '/')[i];
                ||| name[0] == '.'
                ||| name.last() == '~'
                ||| ends_with_text(name, ".swp"@)
                ||| ends_with_text(name, ".swx"@)
                ||| ends_with_text(name, ".tmp"@)
                ||| contains_text(name, ".conflict-local-"@)
            },
{
    let parts = split_text(rel, '/');
    law_strip_joined(root, rel);
    lemma_safe_components(parts, parts.len() as int);
    assert(parts.subrange(0, parts.len() as int) =~= parts);
    assert(path_components(rel) == parts);
    if skippable_below(joined(root, rel), root) {
        let i = choose|i: int|
            0 <= i < path_components(rel).len() && is_name(#[trigger] path_components(rel)[i])
                && skippable_name(path_components(rel)[i]);
        assert(skippable_name(split_text(rel, '/')[i]));
    }
}

/// Only reports that a file was read, or that are about no file, are of no interest by their kind.
pub proof fn law_changes_are_looked_at(kind: EventKind)
    ensures
        kind == EventKind::Create || kind == EventKind::Modify || kind == EventKind::Remove || kind
            == EventKind::Any ==> !idle_kind(kind),
        idle_kind(EventKind::Access),
        idle_kind(EventKind::Other),
{
}

/// A file that was removed for a peer is not announced: the next report on its removal does
/// nothing. The report after that one counts in full.
pub proof fn law_removed_file_is_not_echoed(
    s: SyncView,
    w: WaitingView,
    rel: Seq<char>,
    kind: EventKind,
)
    ensures
        ({
            let after = s.removed(rel);
            let taken = after.not_removed(rel);
            &&& watch_decision(after, w, rel, kind, None, None, false) == WatchDecision::OwnRemoval
            &&& watch_decision(taken, w, rel, kind, None, None, false)
                != WatchDecision::OwnRemoval
        }),
{
}

/// What is announced of a change that waited for a neighbour: the contents where the file is
/// there, and else its removal.
pub fn decide_waiting_change(present: bool) -> (d: WatchDecision)
    ensures
        d == if present {
            WatchDecision::Upsert
        } else {
            WatchDecision::Tombstone
        },
{
    if present {
        WatchDecision::Upsert
    } else {
        WatchDecision::Tombstone
    }
}

} // verus!
