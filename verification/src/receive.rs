//! Applying the changes that peers announce.
//!
//! A received change is applied in small steps. [`Receiving::action`] says what is to be done
//! next on the disk or on the network, and [`Receiving::step`] takes what came of it.
use crate::allowlist::{AllowList, AllowView, PeerInfo};
use crate::atomic_write::AtomicWrite;
use crate::bytes::to_vec;
use crate::conflict::{backup_path, compute_conflict_backup_path};
use crate::hex::hex_text;
use crate::message::{
    path_problem, BlobFormat, BodyView, SyncUpdate, SyncUpdateBody, UpdateView,
};
use crate::path_text::{
    is_safe_relative, join_path, joined, parent, parent_path, path_components,
};
use crate::peer_id::{BlobHash, PeerId};
use crate::pending_log::{EntryView, PendingEntry, PENDING_SCHEMA_VERSION};
use crate::send::{resolve_safe_path, walk, Probe, WalkStep, WalkView, MAX_FILE_SIZE};
use crate::state::{InitialBroadcasts, SyncState, SyncView, WaitingView};
use crate::text::{split_text, texts};
use vstd::prelude::*;

verus! {

/// What became of a received change.
#[derive(Debug, Clone, PartialEq, Eq)]
pub enum ReceiveOutcome {
    /// It was applied.
    Applied,
    /// It was not applied.
    Skipped {
        /// Why.
        reason: &'static str,
    },
}

/// An outcome as a mathematical value.
pub enum OutcomeView {
    Applied,
    Skipped(Seq<char>),
}

impl View for ReceiveOutcome {
    type V = OutcomeView;

    open spec fn view(&self) -> OutcomeView {
        match self {
            ReceiveOutcome::Applied => OutcomeView::Applied,
            ReceiveOutcome::Skipped { reason } => OutcomeView::Skipped(reason@),
        }
    }
}

/// What came of the last action.
#[derive(Debug, Clone, PartialEq, Eq)]
pub enum ReceiveEvent {
    /// This was found at the path.
    Found(Probe),
    /// The contents are in the local store.
    Fetched,
    /// The contents have this size.
    Size(u64),
    /// These are the contents.
    Bytes(Vec<u8>),
    /// This stands in the local file; `None` where there is none or it cannot be read.
    Local(Option<Vec<u8>>),
    /// It was done.
    Done,
    /// There was nothing to remove.
    NotFound,
    /// It failed, for this reason.
    Failed(String),
}

/// An event as a mathematical value.
pub enum EventView {
    Found(Probe),
    Fetched,
    Size(u64),
    Bytes(Seq<u8>),
    Local(Option<Seq<u8>>),
    Done,
    NotFound,
    Failed(Seq<char>),
}

impl View for ReceiveEvent {
    type V = EventView;

    open spec fn view(&self) -> EventView {
        match self {
            ReceiveEvent::Found(p) => EventView::Found(*p),
            ReceiveEvent::Fetched => EventView::Fetched,
            ReceiveEvent::Size(n) => EventView::Size(*n),
            ReceiveEvent::Bytes(b) => EventView::Bytes(b@),
            ReceiveEvent::Local(Some(b)) => EventView::Local(Some(b@)),
            ReceiveEvent::Local(None) => EventView::Local(None),
            ReceiveEvent::Done => EventView::Done,
            ReceiveEvent::NotFound => EventView::NotFound,
            ReceiveEvent::Failed(e) => EventView::Failed(e@),
        }
    }
}

/// What is to be done next for a received change.
#[derive(Debug, Clone, PartialEq, Eq)]
pub enum ReceiveAction {
    /// Look at this path, without following symbolic links.
    Look(String),
    /// Get the contents into the local store, from the peer if they are not there.
    Fetch {
        /// The hash of the contents.
        hash: BlobHash,
        /// How they are stored.
        format: BlobFormat,
        /// The peer that has them.
        from: PeerId,
    },
    /// Find out the size of the contents in the local store.
    Size {
        /// The hash of the contents.
        hash: BlobHash,
    },
    /// Read the contents out of the local store.
    ReadBlob {
        /// The hash of the contents.
        hash: BlobHash,
        /// Their size.
        size: u64,
    },
    /// Read the local file.
    ReadLocal(String),
    /// Rename a file.
    Rename {
        /// Its path.
        source: String,
        /// Its path afterwards.
        dest: String,
    },
    /// Make a directory and those above it.
    CreateDir(String),
    /// Replace a file in one step.
    Write(AtomicWrite),
    /// Remove a file.
    Remove(String),
    /// Record the change.
    Record(PendingEntry),
    /// Nothing: this became of the change.
    Finished(ReceiveOutcome),
    /// Nothing: applying the change failed, for this reason.
    Failed(String),
}

/// An action as a mathematical value.
pub enum ActionView {
    Look(Seq<char>),
    Fetch { hash: BlobHash, format: BlobFormat, from: Seq<u8> },
    Size { hash: BlobHash },
    ReadBlob { hash: BlobHash, size: u64 },
    ReadLocal(Seq<char>),
    Rename { source: Seq<char>, dest: Seq<char> },
    CreateDir(Seq<char>),
    Write { dir: Seq<char>, private: bool, prefix: Seq<char>, target: Seq<char>, content: Seq<u8> },
    Remove(Seq<char>),
    Record(EntryView),
    Finished(OutcomeView),
    Failed(Seq<char>),
}

impl View for ReceiveAction {
    type V = ActionView;

    open spec fn view(&self) -> ActionView {
        match self {
            ReceiveAction::Look(p) => ActionView::Look(p@),
            ReceiveAction::Fetch { hash, format, from } => ActionView::Fetch {
                hash: *hash,
                format: *format,
                from: from@,
            },
            ReceiveAction::Size { hash } => ActionView::Size { hash: *hash },
            ReceiveAction::ReadBlob { hash, size } => ActionView::ReadBlob {
                hash: *hash,
                size: *size,
            },
            ReceiveAction::ReadLocal(p) => ActionView::ReadLocal(p@),
            ReceiveAction::Rename { source, dest } => ActionView::Rename {
                source: source@,
                dest: dest@,
            },
            ReceiveAction::CreateDir(p) => ActionView::CreateDir(p@),
            ReceiveAction::Write(w) => ActionView::Write {
                dir: w.dir@,
                private: w.private,
                prefix: w.prefix@,
                target: w.target@,
                content: w.content@,
            },
            ReceiveAction::Remove(p) => ActionView::Remove(p@),
            ReceiveAction::Record(e) => ActionView::Record(e@),
            ReceiveAction::Finished(o) => ActionView::Finished(o@),
            ReceiveAction::Failed(e) => ActionView::Failed(e@),
        }
    }
}

#[derive(Debug)]
enum Phase {
    Resolving(Vec<Probe>),
    Fetching,
    Sizing,
    Reading(u64),
    Comparing(Vec<u8>),
    BackingUp(String, Vec<u8>),
    MakingDir(Vec<u8>),
    Writing(Vec<u8>),
    Removing,
    Recounting,
    Recording(u64),
    Finished(ReceiveOutcome),
    Failed(String),
}

/// How far the application of a change has come.
pub enum PhaseView {
    /// The path is followed below the directory; so much was found.
    Resolving(Seq<Probe>),
    /// The contents are fetched.
    Fetching,
    /// The size of the contents is found out.
    Sizing,
    /// Contents of this size are read.
    Reading(u64),
    /// These contents are compared with the local file.
    Comparing(Seq<u8>),
    /// The local file is renamed; these contents take its place.
    BackingUp(Seq<char>, Seq<u8>),
    /// The directory of the file is made.
    MakingDir(Seq<u8>),
    /// The file is written.
    Writing(Seq<u8>),
    /// The file is removed.
    Removing,
    /// The size of the contents is found out for the record.
    Recounting,
    /// A change of this many bytes is recorded.
    Recording(u64),
    /// This became of the change.
    Finished(OutcomeView),
    /// Applying it failed.
    Failed(Seq<char>),
}

impl Phase {
    spec fn view(&self) -> PhaseView {
        match self {
            Phase::Resolving(seen) => PhaseView::Resolving(seen@),
            Phase::Fetching => PhaseView::Fetching,
            Phase::Sizing => PhaseView::Sizing,
            Phase::Reading(n) => PhaseView::Reading(*n),
            Phase::Comparing(b) => PhaseView::Comparing(b@),
            Phase::BackingUp(p, b) => PhaseView::BackingUp(p@, b@),
            Phase::MakingDir(b) => PhaseView::MakingDir(b@),
            Phase::Writing(b) => PhaseView::Writing(b@),
            Phase::Removing => PhaseView::Removing,
            Phase::Recounting => PhaseView::Recounting,
            Phase::Recording(n) => PhaseView::Recording(*n),
            Phase::Finished(o) => PhaseView::Finished(o@),
            Phase::Failed(e) => PhaseView::Failed(e@),
        }
    }
}

/// A change that is being applied.
#[derive(Debug)]
pub struct Receiving {
    root: String,
    update: SyncUpdate,
    received_at: i64,
    phase: Phase,
}

/// A change that is being applied, as a mathematical value.
pub struct RunView {
    /// The synchronised directory.
    pub root: Seq<char>,
    /// The change.
    pub update: UpdateView,
    /// When it was received.
    pub received_at: i64,
    /// How far it has come.
    pub phase: PhaseView,
}

impl View for Receiving {
    type V = RunView;

    closed spec fn view(&self) -> RunView {
        RunView {
            root: self.root@,
            update: self.update@,
            received_at: self.received_at,
            phase: self.phase.view(),
        }
    }
}

/// The record of an applied change of `bytes` bytes.
pub open spec fn entry_of(update: UpdateView, received_at: i64, bytes: u64) -> EntryView {
    match update.body {
        BodyView::Upsert { path, hash, from, .. } => EntryView::Upsert {
            schema_version: PENDING_SCHEMA_VERSION,
            rel_path: path,
            received_at,
            source_peer: hex_text(from),
            blob_hash: hex_text(hash@),
            bytes,
        },
        BodyView::Tombstone { path, from } => EntryView::Tombstone {
            schema_version: PENDING_SCHEMA_VERSION,
            rel_path: path,
            received_at,
            source_peer: hex_text(from),
        },
    }
}

impl RunView {
    /// The path of the file in the synchronised directory.
    pub open spec fn rel(self) -> Seq<char> {
        self.update.body.path()
    }

    /// The path of the file.
    pub open spec fn target(self) -> Seq<char> {
        joined(self.root, self.rel())
    }

    /// The hash of the contents, of a file that is created or changed.
    pub open spec fn hash(self) -> BlobHash {
        self.update.body->Upsert_hash
    }

    /// The phase that follows what was found on the way so far.
    pub open spec fn found(self, seen: Seq<Probe>) -> PhaseView {
        match walk(self.root, self.rel(), seen) {
            WalkView::Look(_) => PhaseView::Resolving(seen),
            WalkView::Rejected(_, _, _) => PhaseView::Finished(
                OutcomeView::Skipped("unsafe_path"@),
            ),
            WalkView::Resolved(_) => match self.update.body {
                BodyView::Upsert { .. } => PhaseView::Fetching,
                BodyView::Tombstone { .. } => PhaseView::Removing,
            },
        }
    }

    /// What is noted when a phase is entered from the way to the file.
    pub open spec fn entered(self, phase: PhaseView, s: SyncView) -> SyncView {
        match phase {
            PhaseView::Fetching => s.writing(self.rel(), self.hash()),
            PhaseView::Removing => s.removed(self.rel()),
            _ => s,
        }
    }

    /// The phase and the notes that follow an event. An event that does not answer what was to be
    /// done changes nothing.
    pub open spec fn next(self, s: SyncView, ev: EventView) -> (PhaseView, SyncView) {
        let rel = self.rel();
        match (self.phase, ev) {
            (PhaseView::Resolving(seen), EventView::Found(p)) => {
                let phase = self.found(seen.push(p));
                (phase, self.entered(phase, s))
            },
            (PhaseView::Fetching, EventView::Fetched) => (PhaseView::Sizing, s),
            (PhaseView::Fetching, EventView::Failed(_)) => (
                PhaseView::Finished(OutcomeView::Skipped("blob_fetch_failed"@)),
                s.not_writing(rel),
            ),
            (PhaseView::Sizing, EventView::Size(n)) => if n > MAX_FILE_SIZE {
                (PhaseView::Finished(OutcomeView::Skipped("too_large"@)), s.not_writing(rel))
            } else {
                (PhaseView::Reading(n), s)
            },
            (PhaseView::Sizing, EventView::Failed(e)) => (
                PhaseView::Failed("blob size: "@ + e),
                s.not_writing(rel),
            ),
            (PhaseView::Reading(_), EventView::Bytes(b)) => (PhaseView::Comparing(b), s),
            (PhaseView::Reading(_), EventView::Failed(e)) => (
                PhaseView::Failed(e),
                s.not_writing(rel),
            ),
            (PhaseView::Comparing(b), EventView::Local(local)) => match backup_path(
                self.target(),
                local,
                b,
                self.update.body.from(),
            ) {
                Some(p) => (PhaseView::BackingUp(p, b), s),
                None => (PhaseView::MakingDir(b), s),
            },
            (PhaseView::BackingUp(_, b), EventView::Done) => (PhaseView::MakingDir(b), s),
            (PhaseView::BackingUp(_, _), EventView::Failed(e)) => (
                PhaseView::Failed(e),
                s.not_writing(rel),
            ),
            (PhaseView::MakingDir(b), EventView::Done) => (PhaseView::Writing(b), s),
            (PhaseView::MakingDir(_), EventView::Failed(e)) => (
                PhaseView::Failed(e),
                s.not_writing(rel),
            ),
            (PhaseView::Writing(_), EventView::Done) => (
                PhaseView::Recounting,
                s.not_writing(rel).written(rel, self.hash()),
            ),
            (PhaseView::Writing(_), EventView::Failed(e)) => (
                PhaseView::Failed(e),
                s.not_writing(rel),
            ),
            (PhaseView::Removing, EventView::Done) => (PhaseView::Recording(0), s),
            (PhaseView::Removing, EventView::NotFound) => (PhaseView::Recording(0), s),
            (PhaseView::Removing, EventView::Failed(e)) => (
                PhaseView::Failed("remove_file "@ + self.target() + ": "@ + e),
                s.not_removed(rel),
            ),
            (PhaseView::Recounting, EventView::Size(n)) => (PhaseView::Recording(n), s),
            (PhaseView::Recounting, EventView::Failed(_)) => (PhaseView::Recording(0), s),
            (PhaseView::Recording(_), EventView::Done) => (
                PhaseView::Finished(OutcomeView::Applied),
                s,
            ),
            (PhaseView::Recording(_), EventView::Failed(_)) => (
                PhaseView::Finished(OutcomeView::Applied),
                s,
            ),
            _ => (self.phase, s),
        }
    }

    /// The directory of the file.
    pub open spec fn dir(self) -> Seq<char> {
        match parent_path(self.target()) {
            Some(p) => p,
            None => "."@,
        }
    }

    /// What is to be done next.
    pub open spec fn asks(self) -> ActionView {
        match self.phase {
            PhaseView::Resolving(seen) => ActionView::Look(
                walk(self.root, self.rel(), seen)->Look_0,
            ),
            PhaseView::Fetching => ActionView::Fetch {
                hash: self.hash(),
                format: self.update.body->Upsert_format,
                from: self.update.body.from(),
            },
            PhaseView::Sizing => ActionView::Size { hash: self.hash() },
            PhaseView::Reading(n) => ActionView::ReadBlob { hash: self.hash(), size: n },
            PhaseView::Comparing(_) => ActionView::ReadLocal(self.target()),
            PhaseView::BackingUp(p, _) => ActionView::Rename { source: self.target(), dest: p },
            PhaseView::MakingDir(_) => ActionView::CreateDir(self.dir()),
            PhaseView::Writing(b) => ActionView::Write {
                dir: self.dir(),
                private: false,
                prefix: ".p2p-sync."@,
                target: self.target(),
                content: b,
            },
            PhaseView::Removing => ActionView::Remove(self.target()),
            PhaseView::Recounting => ActionView::Size { hash: self.hash() },
            PhaseView::Recording(n) => ActionView::Record(
                entry_of(self.update, self.received_at, n),
            ),
            PhaseView::Finished(o) => ActionView::Finished(o),
            PhaseView::Failed(e) => ActionView::Failed(e),
        }
    }

    /// The phases of a change that creates or changes a file.
    pub open spec fn upsert_phase(self) -> bool {
        self.phase is Fetching || self.phase is Sizing || self.phase is Reading
            || self.phase is Comparing || self.phase is BackingUp || self.phase is MakingDir
            || self.phase is Writing || self.phase is Recounting
    }

    /// The phase fits the change: while the path is followed there is something to look at, a
    /// file is only removed for a removal, and contents that are read have an accepted size.
    pub open spec fn well_formed(self) -> bool {
        &&& (self.phase matches PhaseView::Resolving(seen) ==> walk(
            self.root,
            self.rel(),
            seen,
        ) is Look)
        &&& (self.upsert_phase() ==> self.update.body is Upsert)
        &&& (self.phase is Removing ==> self.update.body is Tombstone)
        &&& (self.phase matches PhaseView::Reading(n) ==> n <= MAX_FILE_SIZE)
        &&& (self.phase matches PhaseView::BackingUp(p, b) ==> exists|local: Seq<u8>|
            #[trigger] backup_path(self.target(), Some(local), b, self.update.body.from())
                == Some(p))
        &&& (self.upsert_phase() || self.phase is Removing || self.phase is Recording
            || self.phase is Resolving ==> path_problem(self.rel()) is None)
    }

    /// The phase is another one.
    pub open spec fn at(self, phase: PhaseView) -> RunView {
        RunView { phase, ..self }
    }
}

/// The change that is to be applied, as it starts.
pub open spec fn started(
    update: UpdateView,
    root: Seq<char>,
    received_at: i64,
    phase: PhaseView,
) -> RunView {
    RunView { root, update, received_at, phase }
}

impl Receiving {
    #[verifier::type_invariant]
    spec fn inv(self) -> bool {
        self@.well_formed()
    }

    /// Starts to apply a change below the directory `root`.
    pub fn start(update: SyncUpdate, root: &str, received_at: i64) -> (run: Receiving)
        ensures
            run@ == ({
                let blank = started(update@, root@, received_at, PhaseView::Fetching);
                blank.at(blank.found(Seq::empty()))
            }),
    {
        let seen: Vec<Probe> = Vec::new();
        let step = resolve_safe_path(root, update.path(), seen.as_slice());
        let phase = match step {
            WalkStep::Look(_) => Phase::Resolving(seen),
            WalkStep::Rejected(_) => Phase::Finished(
                ReceiveOutcome::Skipped { reason: "unsafe_path" },
            ),
            WalkStep::Resolved(_) => {
                proof {
                    assert(false);
                }
                Phase::Fetching
            },
        };
        proof {
            assert(seen@ =~= Seq::<Probe>::empty());
        }
        Receiving { root: root.to_owned(), update, received_at, phase }
    }

    /// What is to be done next.
    pub fn action(&self) -> (a: ReceiveAction)
        ensures
            a@ == self@.asks(),
            self@.well_formed(),
    {
        proof {
            use_type_invariant(self);
        }
        let rel = self.update.path();
        match &self.phase {
            Phase::Resolving(seen) => {
                match resolve_safe_path(self.root.as_str(), rel, seen.as_slice()) {
                    WalkStep::Look(p) => ReceiveAction::Look(p),
                    _ => {
                        proof {
                            assert(false);
                        }
                        ReceiveAction::Failed(String::new())
                    },
                }
            },
            Phase::Comparing(_) => ReceiveAction::ReadLocal(self.target()),
            Phase::BackingUp(p, _) => {
                ReceiveAction::Rename { source: self.target(), dest: p.clone() }
            },
            Phase::MakingDir(_) => ReceiveAction::CreateDir(self.dir()),
            Phase::Writing(b) => ReceiveAction::Write(
                AtomicWrite {
                    dir: self.dir(),
                    private: false,
                    prefix: ".p2p-sync.",
                    target: self.target(),
                    content: to_vec(b.as_slice()),
                },
            ),
            Phase::Removing => ReceiveAction::Remove(self.target()),
            Phase::Recording(n) => ReceiveAction::Record(self.entry(*n)),
            Phase::Finished(o) => {
                match o {
                    ReceiveOutcome::Applied => ReceiveAction::Finished(ReceiveOutcome::Applied),
                    ReceiveOutcome::Skipped { reason } => ReceiveAction::Finished(
                        ReceiveOutcome::Skipped { reason: *reason },
                    ),
                }
            },
            Phase::Failed(e) => ReceiveAction::Failed(e.clone()),
            Phase::Fetching => {
                match &self.update.body {
                    SyncUpdateBody::Upsert { hash, format, from, .. } => ReceiveAction::Fetch {
                        hash: *hash,
                        format: *format,
                        from: from.id,
                    },
                    SyncUpdateBody::Tombstone { .. } => {
                        proof {
                            assert(false);
                        }
                        ReceiveAction::Failed(String::new())
                    },
                }
            },
            Phase::Sizing => ReceiveAction::Size { hash: self.hash() },
            Phase::Recounting => ReceiveAction::Size { hash: self.hash() },
            Phase::Reading(n) => ReceiveAction::ReadBlob { hash: self.hash(), size: *n },
        }
    }

    /// Goes on with what came of the last action. An event that does not answer it changes
    /// nothing.
    pub fn step(&mut self, state: &mut SyncState, ev: ReceiveEvent)
        ensures
            final(self)@ == old(self)@.at(old(self)@.next(old(state)@, ev@).0),
            final(state)@ == old(self)@.next(old(state)@, ev@).1,
    {
        proof {
            use_type_invariant(&*self);
        }
        let rel: String = self.update.path().to_owned();
        let ghost run = self@;
        let ghost before = state@;
        let mut phase: Phase = Phase::Failed(String::new());
        std::mem::swap(&mut phase, &mut self.phase);
        let next = match (phase, ev) {
            (Phase::Resolving(seen), ReceiveEvent::Found(p)) => self.resolve(state, seen, p),
            (Phase::Fetching, ReceiveEvent::Fetched) => Phase::Sizing,
            (Phase::Fetching, ReceiveEvent::Failed(_)) => {
                state.unmark_writing(rel.as_str());
                Phase::Finished(ReceiveOutcome::Skipped { reason: "blob_fetch_failed" })
            },
            (Phase::Sizing, ReceiveEvent::Size(n)) => {
                if n > MAX_FILE_SIZE {
                    state.unmark_writing(rel.as_str());
                    Phase::Finished(ReceiveOutcome::Skipped { reason: "too_large" })
                } else {
                    Phase::Reading(n)
                }
            },
            (Phase::Sizing, ReceiveEvent::Failed(e)) => {
                state.unmark_writing(rel.as_str());
                Phase::Failed("blob size: ".to_owned().concat(e.as_str()))
            },
            (Phase::Reading(_), ReceiveEvent::Bytes(b)) => Phase::Comparing(b),
            (Phase::Reading(_), ReceiveEvent::Failed(e)) => {
                state.unmark_writing(rel.as_str());
                Phase::Failed(e)
            },
            (Phase::Comparing(b), ReceiveEvent::Local(local)) => self.compare(b, local),
            (Phase::BackingUp(_, b), ReceiveEvent::Done) => Phase::MakingDir(b),
            (Phase::BackingUp(_, _), ReceiveEvent::Failed(e)) => {
                state.unmark_writing(rel.as_str());
                Phase::Failed(e)
            },
            (Phase::MakingDir(b), ReceiveEvent::Done) => Phase::Writing(b),
            (Phase::MakingDir(_), ReceiveEvent::Failed(e)) => {
                state.unmark_writing(rel.as_str());
                Phase::Failed(e)
            },
            (Phase::Writing(_), ReceiveEvent::Done) => {
                let hash = self.hash();
                state.unmark_writing(rel.as_str());
                state.mark_written(rel.as_str(), hash);
                Phase::Recounting
            },
            (Phase::Writing(_), ReceiveEvent::Failed(e)) => {
                state.unmark_writing(rel.as_str());
                Phase::Failed(e)
            },
            (Phase::Removing, ReceiveEvent::Done) => Phase::Recording(0),
            (Phase::Removing, ReceiveEvent::NotFound) => Phase::Recording(0),
            (Phase::Removing, ReceiveEvent::Failed(e)) => {
                let _ = state.take_removed(rel.as_str());
                let target = self.target();
                Phase::Failed(
                    "remove_file ".to_owned().concat(target.as_str()).concat(": ").concat(
                        e.as_str(),
                    ),
                )
            },
            (Phase::Recounting, ReceiveEvent::Size(n)) => Phase::Recording(n),
            (Phase::Recounting, ReceiveEvent::Failed(_)) => Phase::Recording(0),
            (Phase::Recording(_), ReceiveEvent::Done) => Phase::Finished(ReceiveOutcome::Applied),
            (Phase::Recording(_), ReceiveEvent::Failed(_)) => Phase::Finished(
                ReceiveOutcome::Applied,
            ),
            (other, _) => other,
        };
        proof {
            lemma_step_keeps(run, before, ev@);
            assert(next.view() == run.next(before, ev@).0);
        }
        self.phase = next;
    }

    fn resolve(&self, state: &mut SyncState, seen: Vec<Probe>, p: Probe) -> (next: Phase)
        requires
            path_problem(self@.rel()) is None,
        ensures
            next.view() == self@.found(seen@.push(p)),
            final(state)@ == self@.entered(self@.found(seen@.push(p)), old(state)@),
    {
        let rel = self.update.path();
        let mut seen: Vec<Probe> = seen;
        seen.push(p);
        match resolve_safe_path(self.root.as_str(), rel, seen.as_slice()) {
            WalkStep::Look(_) => Phase::Resolving(seen),
            WalkStep::Rejected(_) => Phase::Finished(
                ReceiveOutcome::Skipped { reason: "unsafe_path" },
            ),
            WalkStep::Resolved(_) => {
                match &self.update.body {
                    SyncUpdateBody::Upsert { hash, .. } => {
                        state.mark_writing(rel, *hash);
                        Phase::Fetching
                    },
                    SyncUpdateBody::Tombstone { .. } => {
                        state.mark_removed(rel);
                        Phase::Removing
                    },
                }
            },
        }
    }

    fn compare(&self, b: Vec<u8>, local: Option<Vec<u8>>) -> (next: Phase)
        ensures
            next.view() == match backup_path(
                self@.target(),
                match local {
                    Some(l) => Some(l@),
                    None => None,
                },
                b@,
                self@.update.body.from(),
            ) {
                Some(p) => PhaseView::BackingUp(p, b@),
                None => PhaseView::MakingDir(b@),
            },
    {
        let target = self.target();
        let found: Option<&[u8]> = match &local {
            Some(l) => Some(l.as_slice()),
            None => None,
        };
        let from = self.update.from().id;
        match compute_conflict_backup_path(target.as_str(), found, b.as_slice(), from) {
            Some(p) => Phase::BackingUp(p, b),
            None => Phase::MakingDir(b),
        }
    }

    fn hash(&self) -> (h: BlobHash)
        requires
            self@.update.body is Upsert,
        ensures
            h == self@.hash(),
    {
        match &self.update.body {
            SyncUpdateBody::Upsert { hash, .. } => *hash,
            SyncUpdateBody::Tombstone { .. } => {
                proof {
                    assert(false);
                }
                BlobHash { bytes: [0u8;32] }
            },
        }
    }

    fn target(&self) -> (p: String)
        ensures
            p@ == self@.target(),
    {
        join_path(self.root.as_str(), self.update.path())
    }

    fn dir(&self) -> (p: String)
        ensures
            p@ == self@.dir(),
    {
        let target = self.target();
        match parent(target.as_str()) {
            Some(p) => p,
            None => ".".to_owned(),
        }
    }

    fn entry(&self, bytes: u64) -> (e: PendingEntry)
        ensures
            e@ == entry_of(self@.update, self@.received_at, bytes),
    {
        match &self.update.body {
            SyncUpdateBody::Upsert { path, hash, from, .. } => PendingEntry::Upsert {
                schema_version: PENDING_SCHEMA_VERSION,
                rel_path: path.clone(),
                received_at: self.received_at,
                source_peer: from.id.text(),
                blob_hash: hash.text(),
                bytes,
            },
            SyncUpdateBody::Tombstone { path, from } => PendingEntry::Tombstone {
                schema_version: PENDING_SCHEMA_VERSION,
                rel_path: path.clone(),
                received_at: self.received_at,
                source_peer: from.id.text(),
            },
        }
    }
}

/// Why a received update is not applied at all: it is none, or its sender is not allowed.
pub open spec fn refusal(parsed: Option<UpdateView>, allow: AllowView) -> Option<Seq<char>> {
    match parsed {
        None => Some("invalid_wire_format"@),
        Some(u) => if !u.well_formed() {
            Some("invalid_wire_format"@)
        } else if !allow.allows(u.body.from()) {
            Some("peer_not_allowed"@)
        } else {
            None
        },
    }
}

/// The changes that a peer tells are heard once it was added, and no more once it was taken away.
pub proof fn law_only_allowed_peers_are_heard(allow: AllowView, u: UpdateView, info: PeerInfo)
    requires
        !allow.open_all,
        u.well_formed(),
    ensures
        refusal(Some(u), allow.with(u.body.from(), info)) is None,
        refusal(Some(u), allow.without(u.body.from())) == Some("peer_not_allowed"@),
{
}

/// What is done with a received message.
#[derive(Debug)]
pub enum Dispatch {
    /// Nothing.
    Skip(ReceiveOutcome),
    /// The change is applied.
    Run(Receiving),
}

/// Decides what is done with a received message: `parsed` is the update that it holds, if it
/// holds one.
pub fn dispatch_update(
    parsed: Option<SyncUpdate>,
    allowlist: &AllowList,
    root: &str,
    received_at: i64,
) -> (d: Dispatch)
    ensures
        ({
            let update = match parsed {
                Some(u) => Some(u@),
                None => None,
            };
            match refusal(update, allowlist@) {
                Some(reason) => d matches Dispatch::Skip(o) && o@ == OutcomeView::Skipped(reason),
                None => d matches Dispatch::Run(run) && run@ == started(
                    update->0,
                    root@,
                    received_at,
                    PhaseView::Resolving(Seq::empty()),
                ),
            }
        }),
{
    let update = match parsed {
        Some(u) => u,
        None => {
            return Dispatch::Skip(ReceiveOutcome::Skipped { reason: "invalid_wire_format" });
        },
    };
    let update = match SyncUpdate::from_wire(update) {
        Ok(u) => u,
        Err(_) => {
            return Dispatch::Skip(ReceiveOutcome::Skipped { reason: "invalid_wire_format" });
        },
    };
    if !allowlist.contains(&update.from().id) {
        return Dispatch::Skip(ReceiveOutcome::Skipped { reason: "peer_not_allowed" });
    }
    Dispatch::Run(Receiving::start(update, root, received_at))
}

impl RunView {
    /// What is noted of the file agrees with how far its change has come: contents that are
    /// being written are noted as such, and only then; written contents are noted with their
    /// hash, and a removal is noted from before it is done. A removal, or a change that was not
    /// applied, leaves no note of contents that are being written.
    pub open spec fn noted(self, s: SyncView) -> bool {
        let rel = self.rel();
        let writing = s.pending_written.dom().contains(rel);
        let applied = self.phase is Recording || self.phase == PhaseView::Finished(
            OutcomeView::Applied,
        );
        &&& (self.phase is Resolving ==> !writing)
        &&& (self.upsert_phase() && !(self.phase is Recounting) ==> writing
            && s.pending_written[rel] == self.hash())
        &&& (self.phase is Recounting || (applied && self.update.body is Upsert) ==> !writing
            && s.last_written.dom().contains(rel) && s.last_written[rel] == self.hash())
        &&& (self.phase is Removing || (applied && self.update.body is Tombstone)
            ==> s.last_removed.contains(rel))
        &&& (self.phase matches PhaseView::Finished(OutcomeView::Skipped(_)) ==> !writing)
        &&& (self.phase is Failed ==> !writing)
        &&& (self.update.body is Tombstone ==> !writing)
    }
}

/// Whatever comes of the actions, what is noted of the file goes on to agree with how far its
/// change has come.
pub proof fn law_notes_agree(run: RunView, s: SyncView, ev: EventView)
    requires
        run.well_formed(),
        run.noted(s),
    ensures
        run.at(run.next(s, ev).0).noted(run.next(s, ev).1),
{
    let next = run.next(s, ev);
    assert(run.at(next.0).rel() == run.rel());
    assert(run.at(next.0).hash() == run.hash());
}

/// Applying a change touches nothing that is noted of other files.
pub proof fn law_other_files_untouched(run: RunView, s: SyncView, ev: EventView, other: Seq<char>)
    requires
        other != run.rel(),
    ensures
        ({
            let after = run.next(s, ev).1;
            &&& after.pending_written.dom().contains(other) == s.pending_written.dom().contains(
                other,
            )
            &&& after.pending_written[other] == s.pending_written[other]
            &&& after.last_written.dom().contains(other) == s.last_written.dom().contains(other)
            &&& after.last_written[other] == s.last_written[other]
            &&& after.last_removed.contains(other) == s.last_removed.contains(other)
            &&& after.tombstones == s.tombstones
        }),
{
}

/// Only the file of the change is written, removed or renamed; it lies below the synchronised
/// directory, and where it is renamed it stays in its directory.
pub proof fn law_actions_stay_below(run: RunView)
    requires
        run.well_formed(),
        run.root.len() > 0,
        run.update.body.from().len() == 32,
    ensures
        run.asks() matches ActionView::Write { target, content, .. } ==> target == joined(
            run.root,
            run.rel(),
        ) && run.phase == PhaseView::Writing(content),
        run.asks() matches ActionView::Remove(p) ==> p == joined(run.root, run.rel()),
        run.asks() matches ActionView::Rename { source, dest } ==> source == joined(
            run.root,
            run.rel(),
        ) && parent_path(dest) == parent_path(source),
        run.asks() is Write || run.asks() is Remove || run.asks() is Rename ==> is_safe_relative(
            run.rel(),
        ) && path_components(joined(run.root, run.rel())) == path_components(run.root)
            + split_text(run.rel(), '/'),
{
    crate::message::law_accepted_paths(run.rel());
    if is_safe_relative(run.rel()) {
        crate::path_text::law_joined_stays_below(run.root, run.rel());
    }
    if let PhaseView::BackingUp(p, b) = run.phase {
        let from = run.update.body.from();
        let local = choose|local: Seq<u8>|
            #[trigger] backup_path(run.target(), Some(local), b, from) == Some(p);
        crate::conflict::law_backup_stands_beside(run.target(), local, b, from);
    }
}

/// How far a change has come, and what is noted, after some events.
pub open spec fn after_events(run: RunView, s: SyncView, evs: Seq<EventView>) -> (RunView, SyncView)
    decreases evs.len(),
{
    if evs.len() == 0 {
        (run, s)
    } else {
        let before = after_events(run, s, evs.drop_last());
        let next = before.0.next(before.1, evs.last());
        (before.0.at(next.0), next.1)
    }
}

impl RunView {
    /// What is noted of contents, `s`, is what was noted before, `before`, and beside it only that
    /// the contents of the file are being written, as long as they are.
    pub open spec fn left_behind(self, before: SyncView, s: SyncView) -> bool {
        let unapplied = self.phase is Resolving || self.phase is Removing || self.phase is Failed
            || (self.phase matches PhaseView::Finished(OutcomeView::Skipped(_)));
        &&& (unapplied ==> s.pending_written == before.pending_written && s.last_written
            == before.last_written)
        &&& (self.upsert_phase() && !(self.phase is Recounting) ==> s.pending_written
            == before.pending_written.insert(self.rel(), self.hash()) && s.last_written
            == before.last_written)
    }
}

proof fn lemma_left_behind(run: RunView, before: SyncView, evs: Seq<EventView>)
    requires
        run.phase is Resolving,
        run.well_formed(),
        !before.pending_written.dom().contains(run.rel()),
    ensures
        ({
            let after = after_events(run, before, evs);
            &&& after.0.well_formed()
            &&& after.0 == run.at(after.0.phase)
            &&& after.0.left_behind(before, after.1)
        }),
    decreases evs.len(),
{
    if evs.len() > 0 {
        lemma_left_behind(run, before, evs.drop_last());
        let last = after_events(run, before, evs.drop_last());
        lemma_step_keeps(last.0, last.1, evs.last());
        assert(before.pending_written.insert(run.rel(), run.hash()).remove(run.rel())
            =~= before.pending_written);
    }
}

/// A change that fails or is skipped, whatever came of the actions until then, leaves what is
/// noted of written contents as it was before the change arrived.
pub proof fn law_failed_receive_leaves_no_mark(
    run: RunView,
    before: SyncView,
    evs: Seq<EventView>,
)
    requires
        run.phase is Resolving,
        run.well_formed(),
        !before.pending_written.dom().contains(run.rel()),
    ensures
        ({
            let after = after_events(run, before, evs);
            after.0.phase is Failed || (after.0.phase matches PhaseView::Finished(
                OutcomeView::Skipped(_),
            )) ==> after.1.pending_written == before.pending_written && after.1.last_written
                == before.last_written
        }),
{
    lemma_left_behind(run, before, evs);
}

proof fn lemma_after_push(run: RunView, s: SyncView, evs: Seq<EventView>, ev: EventView)
    ensures
        after_events(run, s, evs.push(ev)) == ({
            let before = after_events(run, s, evs);
            let next = before.0.next(before.1, ev);
            (before.0.at(next.0), next.1)
        }),
{
    assert(evs.push(ev).drop_last() =~= evs);
}

/// Contents that arrive are written: where fetching, sizing and reading go well, the file of the
/// change is replaced by exactly these contents, a local version that differs is renamed first,
/// and in the end the change is applied and its hash noted.
pub proof fn law_contents_arrive(
    run: RunView,
    s: SyncView,
    size: u64,
    content: Seq<u8>,
    local: Option<Seq<u8>>,
)
    requires
        run.well_formed(),
        run.phase is Fetching,
        size <= MAX_FILE_SIZE,
    ensures
        ({
            let backup = backup_path(run.target(), local, content, run.update.body.from());
            let read = seq![
                EventView::Fetched,
                EventView::Size(size),
                EventView::Bytes(content),
                EventView::Local(local),
            ];
            let compared = after_events(run, s, read);
            let ready = if backup is Some {
                read.push(EventView::Done)
            } else {
                read
            };
            let writing = after_events(run, s, ready.push(EventView::Done));
            let done = after_events(
                run,
                s,
                ready.push(EventView::Done).push(EventView::Done).push(
                    EventView::Size(size),
                ).push(EventView::Done),
            );
            &&& backup is Some ==> compared.0.asks() == (ActionView::Rename {
                source: run.target(),
                dest: backup->0,
            })
            &&& writing.0.asks() == (ActionView::Write {
                dir: run.dir(),
                private: false,
                prefix: ".p2p-sync."@,
                target: run.target(),
                content,
            })
            &&& done.0.phase == PhaseView::Finished(OutcomeView::Applied)
            &&& done.1 == s.not_writing(run.rel()).written(run.rel(), run.hash())
        }),
{
    reveal_with_fuel(after_events, 2);
    let e0 = Seq::<EventView>::empty();
    let e1 = e0.push(EventView::Fetched);
    let e2 = e1.push(EventView::Size(size));
    let e3 = e2.push(EventView::Bytes(content));
    let e4 = e3.push(EventView::Local(local));
    assert(e4 =~= seq![
        EventView::Fetched,
        EventView::Size(size),
        EventView::Bytes(content),
        EventView::Local(local),
    ]);
    lemma_after_push(run, s, e0, EventView::Fetched);
    lemma_after_push(run, s, e1, EventView::Size(size));
    lemma_after_push(run, s, e2, EventView::Bytes(content));
    lemma_after_push(run, s, e3, EventView::Local(local));
    let backup = backup_path(run.target(), local, content, run.update.body.from());
    let e5 = if backup is Some {
        e4.push(EventView::Done)
    } else {
        e4
    };
    lemma_after_push(run, s, e4, EventView::Done);
    assert(after_events(run, s, e5).0.phase == PhaseView::MakingDir(content));
    let e6 = e5.push(EventView::Done);
    let e7 = e6.push(EventView::Done);
    let e8 = e7.push(EventView::Size(size));
    lemma_after_push(run, s, e5, EventView::Done);
    assert(after_events(run, s, e6).0.phase == PhaseView::Writing(content));
    lemma_after_push(run, s, e6, EventView::Done);
    lemma_after_push(run, s, e7, EventView::Size(size));
    lemma_after_push(run, s, e8, EventView::Done);
}

/// The events that answer an action.
pub open spec fn answers(a: ActionView, ev: EventView) -> bool {
    match a {
        ActionView::Look(_) => ev is Found,
        ActionView::Fetch { .. } => ev is Fetched || ev is Failed,
        ActionView::Size { .. } => ev is Size || ev is Failed,
        ActionView::ReadBlob { .. } => ev is Bytes || ev is Failed,
        ActionView::ReadLocal(_) => ev is Local,
        ActionView::Rename { .. } => ev is Done || ev is Failed,
        ActionView::CreateDir(_) => ev is Done || ev is Failed,
        ActionView::Write { .. } => ev is Done || ev is Failed,
        ActionView::Remove(_) => ev is Done || ev is NotFound || ev is Failed,
        ActionView::Record(_) => ev is Done || ev is Failed,
        ActionView::Finished(_) => false,
        ActionView::Failed(_) => false,
    }
}

/// An event that does not answer the action that is asked for changes nothing. So nothing happens
/// any more once the change was applied or skipped, or failed.
pub proof fn law_unasked_events_change_nothing(run: RunView, s: SyncView, ev: EventView)
    requires
        !answers(run.asks(), ev),
    ensures
        run.at(run.next(s, ev).0) == run,
        run.next(s, ev).1 == s,
{
}

/// The way to the file of a change is followed from the synchronised directory on. Once the path
/// is resolved, a file that is created or changed is fetched from the peer that told of it, and a
/// file that is gone is removed; both are noted before. A path that is refused ends the change.
pub proof fn law_change_is_begun(run: RunView, s: SyncView, p: Probe)
    requires
        run.phase is Resolving,
        run.well_formed(),
    ensures
        ({
            let way = walk(run.root, run.update.body.path(), run.phase->Resolving_0.push(p));
            let next = run.next(s, EventView::Found(p));
            let asked = run.at(next.0).asks();
            &&& way matches WalkView::Look(place) ==> asked == ActionView::Look(place) && next.1
                == s
            &&& way is Rejected ==> asked == ActionView::Finished(
                OutcomeView::Skipped("unsafe_path"@),
            ) && next.1 == s
            &&& way is Resolved ==> match run.update.body {
                BodyView::Upsert { path, hash, format, from } => asked == (ActionView::Fetch {
                    hash,
                    format,
                    from,
                }) && next.1 == (SyncView {
                    pending_written: s.pending_written.insert(path, hash),
                    ..s
                }),
                BodyView::Tombstone { path, .. } => asked == ActionView::Remove(
                    joined(run.root, path),
                ) && next.1 == (SyncView { last_removed: s.last_removed.insert(path), ..s }),
            }
        }),
{
}

/// A change with an accepted path starts with a look at the synchronised directory; one with
/// another path is skipped.
pub proof fn law_change_starts_at_the_directory(update: UpdateView, root: Seq<char>, at: i64)
    ensures
        ({
            let blank = started(update, root, at, PhaseView::Fetching);
            let run = blank.at(blank.found(Seq::empty()));
            &&& is_safe_relative(update.body.path()) ==> run.asks() == ActionView::Look(root)
            &&& !is_safe_relative(update.body.path()) ==> run.asks() == ActionView::Finished(
                OutcomeView::Skipped("unsafe_path"@),
            )
        }),
{
    crate::message::law_accepted_paths(update.body.path());
}

/// The directory that is made for a file, and in which its temporary file is written, is the one
/// that the file stands in: its components are those of the file without the last name.
pub proof fn law_directory_is_that_of_the_file(run: RunView)
    requires
        run.well_formed(),
        run.root.len() > 0,
        run.phase is MakingDir || run.phase is Writing,
    ensures
        ({
            let rel = run.update.body.path();
            let file = path_components(run.root) + split_text(rel, '/');
            &&& run.phase is MakingDir ==> (run.asks() matches ActionView::CreateDir(dir)
                && path_components(dir) == file.drop_last())
            &&& run.phase matches PhaseView::Writing(b) ==> (run.asks() matches ActionView::Write {
                dir,
                private,
                prefix,
                target,
                content,
            } && path_components(dir) == file.drop_last() && path_components(target) == file
                && parent_path(target) == Some(dir) && content == b && !private && prefix
                == ".p2p-sync."@)
        }),
{
    let rel = run.update.body.path();
    crate::message::law_accepted_paths(rel);
    crate::path_text::law_joined_stands_in(run.root, rel);
    crate::path_text::law_joined_stays_below(run.root, rel);
    let names = split_text(rel, '/');
    crate::text::lemma_split_join(rel, '/');
    assert((path_components(run.root) + names).drop_last() =~= path_components(run.root)
        + names.drop_last());
}

/// A local version that differs from the contents that arrived is renamed, and only such a one;
/// in every other case the directory of the file is made at once.
pub proof fn law_differing_version_is_renamed(
    run: RunView,
    s: SyncView,
    content: Seq<u8>,
    local: Option<Seq<u8>>,
)
    requires
        run.well_formed(),
        run.phase == PhaseView::Comparing(content),
        run.root.len() > 0,
        run.update.body.from().len() == 32,
    ensures
        ({
            let rel = run.update.body.path();
            let next = run.next(s, EventView::Local(local));
            let asked = run.at(next.0).asks();
            &&& next.1 == s
            &&& local is Some && local->0 != content ==> (asked matches ActionView::Rename {
                source,
                dest,
            } && source == joined(run.root, rel) && path_components(dest).drop_last()
                == path_components(source).drop_last() && crate::path_text::file_name(dest) == Some(
                split_text(rel, '/').last() + ".conflict-local-"@ + hex_text(
                    run.update.body.from(),
                ).subrange(0, 8),
            )) && next.0 == PhaseView::BackingUp(asked->Rename_dest, content)
            &&& local is None || local->0 == content ==> asked is CreateDir && next.0
                == PhaseView::MakingDir(content)
        }),
{
    let rel = run.update.body.path();
    let from = run.update.body.from();
    crate::message::law_accepted_paths(rel);
    crate::conflict::law_synchronised_file_is_kept(run.root, rel, local, content, from);
    crate::path_text::law_joined_stands_in(run.root, rel);
    crate::path_text::law_joined_stays_below(run.root, rel);
    let dir = parent_path(joined(run.root, rel))->0;
    assert(path_components(joined(run.root, rel)).drop_last() =~= path_components(dir));
}

/// What a failed action leads to. A file that cannot be fetched is skipped; another failure ends
/// the change with its reason, and what was noted before is taken back. That a change could not be
/// counted or recorded does not undo it.
pub proof fn law_failures_end_the_change(run: RunView, s: SyncView, e: Seq<char>)
    requires
        run.well_formed(),
    ensures
        ({
            let path = run.update.body.path();
            let next = run.next(s, EventView::Failed(e));
            let asked = run.at(next.0).asks();
            let dropped = SyncView { pending_written: s.pending_written.remove(path), ..s };
            &&& run.asks() is Fetch ==> asked == ActionView::Finished(
                OutcomeView::Skipped("blob_fetch_failed"@),
            ) && next.1 == dropped
            &&& run.phase is Sizing ==> asked == ActionView::Failed("blob size: "@ + e) && next.1
                == dropped
            &&& run.asks() is ReadBlob || run.asks() is Rename || run.asks() is CreateDir
                || run.asks() is Write ==> asked == ActionView::Failed(e) && next.1 == dropped
            &&& run.asks() matches ActionView::Remove(target) ==> asked == ActionView::Failed(
                "remove_file "@ + target + ": "@ + e,
            ) && next.1 == (SyncView { last_removed: s.last_removed.remove(path), ..s })
            &&& run.phase is Recounting ==> asked is Record && next.1 == s
            &&& run.asks() is Record ==> asked == ActionView::Finished(OutcomeView::Applied)
                && next.1 == s
        }),
{
}

/// What a done action leads to: contents whose size was found are read, unless they are too large;
/// contents that were read are compared with the local file and then written as they are; a file
/// that was written or removed is recorded, with what the change told; and a recorded change is
/// applied.
pub proof fn law_done_actions_lead_on(run: RunView, s: SyncView, n: u64, b: Seq<u8>)
    requires
        run.well_formed(),
    ensures
        ({
            let path = run.update.body.path();
            let target = joined(run.root, path);
            let peer = hex_text(run.update.body.from());
            let fetched = run.next(s, EventView::Fetched);
            let sized = run.next(s, EventView::Size(n));
            let read = run.next(s, EventView::Bytes(b));
            let done = run.next(s, EventView::Done);
            let gone = run.next(s, EventView::NotFound);
            let uncounted = run.next(s, EventView::Failed(Seq::empty()));
            let removal = ActionView::Record(
                EntryView::Tombstone {
                    schema_version: 1,
                    rel_path: path,
                    received_at: run.received_at,
                    source_peer: peer,
                },
            );
            &&& run.asks() is Fetch ==> run.at(fetched.0).asks() == (ActionView::Size {
                hash: run.update.body->Upsert_hash,
            }) && fetched.0 is Sizing && fetched.1 == s
            &&& run.phase is Sizing && n <= 10485760 ==> run.at(sized.0).asks() == (
            ActionView::ReadBlob { hash: run.update.body->Upsert_hash, size: n }) && sized.1 == s
            &&& run.phase is Sizing && n > 10485760 ==> run.at(sized.0).asks()
                == ActionView::Finished(OutcomeView::Skipped("too_large"@)) && sized.1 == (SyncView {
                pending_written: s.pending_written.remove(path),
                ..s
            })
            &&& run.asks() is ReadBlob ==> run.at(read.0).asks() == ActionView::ReadLocal(target)
                && read.0 == PhaseView::Comparing(b) && read.1 == s
            &&& run.phase matches PhaseView::BackingUp(_, content) ==> done.0
                == PhaseView::MakingDir(content) && run.at(done.0).asks() is CreateDir && done.1
                == s
            &&& run.phase matches PhaseView::MakingDir(content) ==> (run.at(
                done.0,
            ).asks() matches ActionView::Write { target: file, content: bytes, .. } && file
                == target && bytes == content) && done.1 == s
            &&& run.asks() is Write ==> run.at(done.0).asks() == (ActionView::Size {
                hash: run.update.body->Upsert_hash,
            }) && done.1 == (SyncView {
                pending_written: s.pending_written.remove(path),
                last_written: s.last_written.insert(path, run.update.body->Upsert_hash),
                ..s
            })
            &&& run.phase is Recounting ==> run.at(sized.0).asks() == ActionView::Record(
                recorded_file(run, n),
            ) && sized.1 == s && run.at(uncounted.0).asks() == ActionView::Record(
                recorded_file(run, 0),
            )
            &&& run.asks() is Remove ==> run.at(done.0).asks() == removal && run.at(gone.0).asks()
                == removal && done.1 == s && gone.1 == s
            &&& run.asks() is Record ==> run.at(done.0).asks() == ActionView::Finished(
                OutcomeView::Applied,
            ) && done.1 == s
        }),
{
}

/// The record of a file of `n` bytes that was created or changed.
pub open spec fn recorded_file(run: RunView, n: u64) -> EntryView {
    EntryView::Upsert {
        schema_version: 1,
        rel_path: run.update.body.path(),
        received_at: run.received_at,
        source_peer: hex_text(run.update.body.from()),
        blob_hash: hex_text(run.update.body->Upsert_hash@),
        bytes: n,
    }
}

/// The action that the `i`-th of these events answered.
pub open spec fn asked_at(run: RunView, s: SyncView, evs: Seq<EventView>, i: int) -> ActionView {
    after_events(run, s, evs.take(i)).0.asks()
}

proof fn lemma_asked_before(run: RunView, s: SyncView, evs: Seq<EventView>, i: int)
    requires
        0 <= i < evs.len(),
    ensures
        i < evs.len() - 1 ==> asked_at(run, s, evs.drop_last(), i) == asked_at(run, s, evs, i),
        i == evs.len() - 1 ==> asked_at(run, s, evs, i) == after_events(
            run,
            s,
            evs.drop_last(),
        ).0.asks(),
{
    if i < evs.len() - 1 {
        assert(evs.drop_last().take(i) =~= evs.take(i));
    } else {
        assert(evs.take(i) =~= evs.drop_last());
    }
}

/// The file of the change was removed, or was gone already.
pub open spec fn was_removed(run: RunView, s: SyncView, evs: Seq<EventView>) -> bool {
    exists|i: int|
        0 <= i < evs.len() && #[trigger] asked_at(run, s, evs, i) == ActionView::Remove(
            joined(run.root, run.update.body.path()),
        ) && (evs[i] is Done || evs[i] is NotFound)
}

proof fn lemma_was_removed(run: RunView, s: SyncView, evs: Seq<EventView>)
    requires
        run.phase is Resolving,
        run.well_formed(),
        run.update.body is Tombstone,
    ensures
        ({
            let after = after_events(run, s, evs);
            &&& after.0 == run.at(after.0.phase)
            &&& after.0.well_formed()
            &&& after.0.phase is Recording || after.0.phase == PhaseView::Finished(
                OutcomeView::Applied,
            ) ==> was_removed(run, s, evs)
        }),
    decreases evs.len(),
{
    if evs.len() > 0 {
        let front = evs.drop_last();
        lemma_was_removed(run, s, front);
        let before = after_events(run, s, front);
        lemma_step_keeps(before.0, before.1, evs.last());
        let n = evs.len() - 1;
        lemma_asked_before(run, s, evs, n);
        if was_removed(run, s, front) {
            let i = choose|i: int|
                0 <= i < front.len() && #[trigger] asked_at(run, s, front, i) == ActionView::Remove(
                    joined(run.root, run.update.body.path()),
                ) && (front[i] is Done || front[i] is NotFound);
            lemma_asked_before(run, s, evs, i);
            assert(evs[i] == front[i]);
        }
    }
}

/// A removal is recorded and applied only after the file at its path below the synchronised
/// directory was asked to be removed, and was removed or found gone.
pub proof fn law_applied_removal_was_done(run: RunView, s: SyncView, evs: Seq<EventView>)
    requires
        run.phase is Resolving,
        run.well_formed(),
        run.update.body is Tombstone,
    ensures
        ({
            let asked = after_events(run, s, evs).0.asks();
            asked is Record || asked == ActionView::Finished(OutcomeView::Applied) ==> was_removed(
                run,
                s,
                evs,
            )
        }),
{
    lemma_was_removed(run, s, evs);
}

/// The contents `b` were read from the local store, under the hash of the change.
pub open spec fn was_read(run: RunView, s: SyncView, evs: Seq<EventView>, b: Seq<u8>) -> bool {
    exists|i: int|
        0 <= i < evs.len() && (#[trigger] asked_at(run, s, evs, i) matches ActionView::ReadBlob {
            hash,
            size,
        } && hash == run.update.body->Upsert_hash && size <= 10485760) && evs[i]
            == EventView::Bytes(b)
}

/// The file of the change was replaced by contents that were read before.
pub open spec fn was_written(run: RunView, s: SyncView, evs: Seq<EventView>) -> bool {
    exists|i: int, b: Seq<u8>|
        0 <= i < evs.len() && evs[i] is Done && (#[trigger] asked_at(
            run,
            s,
            evs,
            i,
        ) matches ActionView::Write { target, content, .. } && target == joined(
            run.root,
            run.update.body.path(),
        ) && content == b) && #[trigger] was_read(run, s, evs, b)
}

proof fn lemma_read_stays(run: RunView, s: SyncView, evs: Seq<EventView>, b: Seq<u8>)
    requires
        evs.len() > 0,
        was_read(run, s, evs.drop_last(), b),
    ensures
        was_read(run, s, evs, b),
{
    let front = evs.drop_last();
    let i = choose|i: int|
        0 <= i < front.len() && (#[trigger] asked_at(run, s, front, i) matches ActionView::ReadBlob {
            hash,
            size,
        } && hash == run.update.body->Upsert_hash && size <= 10485760) && front[i]
            == EventView::Bytes(b);
    lemma_asked_before(run, s, evs, i);
    assert(evs[i] == front[i]);
}

proof fn lemma_was_written(run: RunView, s: SyncView, evs: Seq<EventView>)
    requires
        run.phase is Resolving,
        run.well_formed(),
        run.update.body is Upsert,
    ensures
        ({
            let after = after_events(run, s, evs);
            &&& after.0 == run.at(after.0.phase)
            &&& after.0.well_formed()
            &&& match after.0.phase {
                PhaseView::Comparing(b) => was_read(run, s, evs, b),
                PhaseView::BackingUp(_, b) => was_read(run, s, evs, b),
                PhaseView::MakingDir(b) => was_read(run, s, evs, b),
                PhaseView::Writing(b) => was_read(run, s, evs, b),
                PhaseView::Recounting => was_written(run, s, evs),
                PhaseView::Recording(_) => was_written(run, s, evs),
                PhaseView::Finished(OutcomeView::Applied) => was_written(run, s, evs),
                _ => true,
            }
        }),
    decreases evs.len(),
{
    if evs.len() > 0 {
        let front = evs.drop_last();
        lemma_was_written(run, s, front);
        let before = after_events(run, s, front);
        lemma_step_keeps(before.0, before.1, evs.last());
        let n = evs.len() - 1;
        lemma_asked_before(run, s, evs, n);
        assert(evs[n] == evs.last());
        match before.0.phase {
            PhaseView::Reading(_) => {
                if let EventView::Bytes(b) = evs.last() {
                    assert(asked_at(run, s, evs, n) is ReadBlob);
                    assert(was_read(run, s, evs, b));
                }
            },
            PhaseView::Comparing(b) => {
                lemma_read_stays(run, s, evs, b);
            },
            PhaseView::BackingUp(_, b) => {
                lemma_read_stays(run, s, evs, b);
            },
            PhaseView::MakingDir(b) => {
                lemma_read_stays(run, s, evs, b);
            },
            PhaseView::Writing(b) => {
                lemma_read_stays(run, s, evs, b);
                assert(asked_at(run, s, evs, n) is Write);
            },
            _ => {},
        }
        if was_written(run, s, front) {
            let (i, b) = choose|i: int, b: Seq<u8>|
                0 <= i < front.len() && front[i] is Done && (#[trigger] asked_at(
                    run,
                    s,
                    front,
                    i,
                ) matches ActionView::Write { target, content, .. } && target == joined(
                    run.root,
                    run.update.body.path(),
                ) && content == b) && #[trigger] was_read(run, s, front, b);
            lemma_asked_before(run, s, evs, i);
            lemma_read_stays(run, s, evs, b);
            assert(evs[i] == front[i]);
            assert(was_written(run, s, evs));
        }
    }
}

/// A file that is created or changed is recorded and applied only after it was replaced by contents
/// that were read under the hash of the change, and that are not too large.
pub proof fn law_applied_file_was_written(run: RunView, s: SyncView, evs: Seq<EventView>)
    requires
        run.phase is Resolving,
        run.well_formed(),
        run.update.body is Upsert,
    ensures
        ({
            let asked = after_events(run, s, evs).0.asks();
            asked is Record || asked == ActionView::Finished(OutcomeView::Applied) ==> was_written(
                run,
                s,
                evs,
            )
        }),
{
    lemma_was_written(run, s, evs);
}

/// A message is heard exactly where it is an update of the present version with an accepted path
/// whose sender is allowed; the reason of a refusal says what is missing.
pub proof fn law_what_is_heard(parsed: Option<UpdateView>, allow: AllowView)
    ensures
        refusal(parsed, allow) is None <==> (parsed matches Some(u) && u.version == 2
            && is_safe_relative(u.body.path()) && (allow.open_all || allow.peers.dom().contains(
            u.body.from(),
        ))),
        refusal(parsed, allow) == Some("peer_not_allowed"@) <== (parsed matches Some(u) && u.version
            == 2 && is_safe_relative(u.body.path()) && !allow.open_all
            && !allow.peers.dom().contains(u.body.from())),
        refusal(parsed, allow) == Some("invalid_wire_format"@) <== (parsed is None
            || parsed->0.version != 2 || !is_safe_relative(parsed->0.body.path())),
{
    if let Some(u) = parsed {
        crate::message::law_accepted_paths(u.body.path());
    }
}

/// What the gossip topic reports.
#[derive(Debug, Clone, Copy, PartialEq, Eq, Structural)]
pub enum GossipEvent {
    /// A message was received.
    Received,
    /// A neighbour is there.
    NeighborUp,
    /// A neighbour is gone.
    NeighborDown,
    /// Messages were missed.
    Lagged,
    /// The report itself could not be read.
    StreamError,
}

/// What is done about a report of the gossip topic.
#[derive(Debug, Clone, PartialEq, Eq)]
pub enum LoopStep {
    /// The message is dispatched.
    Dispatch,
    /// The changes of these files, which were waiting for a neighbour, are told.
    Flush(Vec<String>),
    /// Nothing.
    Ignore,
}

/// Decides what is done about a report of the gossip topic: messages are dispatched, and the
/// first neighbour is told of the changes that were waiting.
pub fn receive_loop_step(waiting: &mut InitialBroadcasts, ev: GossipEvent) -> (step: LoopStep)
    ensures
        step is Dispatch <==> ev == GossipEvent::Received,
        step is Flush <==> ev == GossipEvent::NeighborUp && !old(waiting)@.joined
            && old(waiting)@.queue.len() > 0,
        step matches LoopStep::Flush(list) ==> texts(list@) == old(waiting)@.queue,
        final(waiting)@.joined == (old(waiting)@.joined || ev == GossipEvent::NeighborUp),
        final(waiting)@.queue == if ev == GossipEvent::NeighborUp && !old(waiting)@.joined {
            Seq::<Seq<char>>::empty()
        } else {
            old(waiting)@.queue
        },
{
    match ev {
        GossipEvent::Received => LoopStep::Dispatch,
        GossipEvent::NeighborUp => {
            if !waiting.mark_first_join() {
                return LoopStep::Ignore;
            }
            let list = waiting.drain_pending_initial();
            proof {
                assert(texts(list@).len() == list@.len());
            }
            if list.len() == 0 {
                LoopStep::Ignore
            } else {
                LoopStep::Flush(list)
            }
        },
        GossipEvent::NeighborDown => LoopStep::Ignore,
        GossipEvent::Lagged => LoopStep::Ignore,
        GossipEvent::StreamError => LoopStep::Ignore,
    }
}

/// A change that comes up before the first neighbour waits behind the earlier ones, and all of
/// them are told when the first neighbour is there; from then on none waits.
pub proof fn law_waiting_changes_are_told(w: WaitingView, rel: Seq<char>)
    requires
        !w.joined,
    ensures
        w.told(rel).queue == w.queue.push(rel),
        !w.told(rel).joined,
        (WaitingView { joined: true, queue: Seq::empty() }).told(rel) == (WaitingView {
            joined: true,
            queue: Seq::empty(),
        }),
{
}

proof fn lemma_step_keeps(run: RunView, s: SyncView, ev: EventView)
    requires
        run.well_formed(),
    ensures
        run.at(run.next(s, ev).0).well_formed(),
{
    if run.phase is Resolving && ev is Found {
        let seen = run.phase->Resolving_0.push(ev->Found_0);
        assert(run.at(run.found(seen)).rel() == run.rel());
    }
}

/// Events and actions as mathematical values hold all that they hold: no byte and no character is
/// left out.
pub proof fn law_receive_values(b: Vec<u8>, e: String, p: Probe, n: u64, w: AtomicWrite)
    ensures
        ReceiveEvent::Found(p)@ == EventView::Found(p),
        ReceiveEvent::Fetched@ == EventView::Fetched,
        ReceiveEvent::Size(n)@ == EventView::Size(n),
        ReceiveEvent::Bytes(b)@ == EventView::Bytes(b@),
        ReceiveEvent::Local(Some(b))@ == EventView::Local(Some(b@)),
        ReceiveEvent::Local(None)@ == EventView::Local(None),
        ReceiveEvent::Done@ == EventView::Done,
        ReceiveEvent::NotFound@ == EventView::NotFound,
        ReceiveEvent::Failed(e)@ == EventView::Failed(e@),
        ReceiveAction::Look(e)@ == ActionView::Look(e@),
        ReceiveAction::ReadLocal(e)@ == ActionView::ReadLocal(e@),
        ReceiveAction::CreateDir(e)@ == ActionView::CreateDir(e@),
        ReceiveAction::Remove(e)@ == ActionView::Remove(e@),
        ReceiveAction::Failed(e)@ == ActionView::Failed(e@),
        ReceiveAction::Write(w)@ == (ActionView::Write {
            dir: w.dir@,
            private: w.private,
            prefix: w.prefix@,
            target: w.target@,
            content: w.content@,
        }),
        ReceiveAction::Finished(ReceiveOutcome::Applied)@ == ActionView::Finished(
            OutcomeView::Applied,
        ),
{
}

/// The fields of an action are those of its mathematical value.
pub proof fn law_receive_fields(
    hash: BlobHash,
    format: BlobFormat,
    from: PeerId,
    size: u64,
    source: String,
    dest: String,
    entry: PendingEntry,
    reason: &'static str,
)
    ensures
        (ReceiveAction::Fetch { hash, format, from })@ == (ActionView::Fetch {
            hash,
            format,
            from: from@,
        }),
        (ReceiveAction::Size { hash })@ == (ActionView::Size { hash }),
        (ReceiveAction::ReadBlob { hash, size })@ == (ActionView::ReadBlob { hash, size }),
        (ReceiveAction::Rename { source, dest })@ == (ActionView::Rename {
            source: source@,
            dest: dest@,
        }),
        ReceiveAction::Record(entry)@ == ActionView::Record(entry@),
        ReceiveAction::Finished(ReceiveOutcome::Skipped { reason })@ == ActionView::Finished(
            OutcomeView::Skipped(reason@),
        ),
{
}

} // verus!
