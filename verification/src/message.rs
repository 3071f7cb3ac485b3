//! What peers tell each other on the gossip topic: changes of files.
use crate::path_text::{dot, dot_dot, is_name, is_safe_relative};
use crate::peer_id::{BlobHash, PeerId};
use crate::text::{
    chars_of, decimal, decimal_text, lemma_split_join, split, split_text, texts,
};
use vstd::prelude::*;

verus! {

/// The version of the update format.
pub const SYNC_UPDATE_VERSION: u32 = 2;

/// Why a text is no relative path of a synchronised file.
#[derive(Clone, Copy, Debug, PartialEq, Eq, Structural)]
pub enum PathProblem {
    /// The text is empty.
    Empty,
    /// The path starts at the root directory.
    Absolute,
    /// The path holds a backslash.
    Backslash,
    /// Two slashes follow each other, or the path ends with one.
    EmptyComponent,
    /// A component is one dot or two.
    DotComponent,
}

/// A text that is no relative path of a synchronised file.
#[derive(Clone, Debug, PartialEq, Eq)]
pub struct PathError {
    /// What is wrong with it.
    pub problem: PathProblem,
    /// The text.
    pub path: String,
}

/// What is wrong with one component.
pub open spec fn piece_problem(c: Seq<char>) -> Option<PathProblem> {
    if c.len() == 0 {
        Some(PathProblem::EmptyComponent)
    } else if c == dot() || c == dot_dot() {
        Some(PathProblem::DotComponent)
    } else {
        None
    }
}

/// The problem of the first of the first `n` components that has one.
pub open spec fn pieces_problem(parts: Seq<Seq<char>>, n: int) -> Option<PathProblem>
    decreases n,
{
    if n <= 0 {
        None
    } else if pieces_problem(parts, n - 1) is Some {
        pieces_problem(parts, n - 1)
    } else {
        piece_problem(parts[n - 1])
    }
}

/// Why `p` is refused as a relative path; `None` of a path that is accepted.
pub open spec fn path_problem(p: Seq<char>) -> Option<PathProblem> {
    if p.len() == 0 {
        Some(PathProblem::Empty)
    } else if p[0] == '/' {
        Some(PathProblem::Absolute)
    } else if p.contains('\\') {
        Some(PathProblem::Backslash)
    } else {
        pieces_problem(split_text(p, '/'), split_text(p, '/').len() as int)
    }
}

proof fn lemma_pieces_problem(parts: Seq<Seq<char>>, n: int)
    requires
        0 <= n <= parts.len(),
    ensures
        pieces_problem(parts, n) is None <==> forall|i: int|
            0 <= i < n ==> is_name(#[trigger] parts[i]),
    decreases n,
{
    if n > 0 {
        lemma_pieces_problem(parts, n - 1);
        if pieces_problem(parts, n) is None {
            assert(is_name(parts[n - 1]));
        }
    }
}

/// The accepted paths are exactly those whose pieces all name files or directories and that hold
/// no backslash.
pub proof fn law_accepted_paths(p: Seq<char>)
    ensures
        path_problem(p) is None <==> is_safe_relative(p),
{
    let parts = split_text(p, '/');
    lemma_split_join(p, '/');
    lemma_pieces_problem(parts, parts.len() as int);
    if p.len() == 0 {
        assert(parts[0].len() == 0);
        assert(!is_name(parts[0]));
    } else if p[0] == '/' {
        crate::path_text::lemma_split_concat(Seq::empty(), p.subrange(1, p.len() as int), '/');
        assert(Seq::<char>::empty().push('/') + p.subrange(1, p.len() as int) =~= p);
        assert(split_text(Seq::<char>::empty(), '/')[0].len() == 0);
        assert(!is_name(parts[0]));
    }
}

impl PathError {
    /// The text of the error.
    pub open spec fn message_text(&self) -> Seq<char> {
        match self.problem {
            PathProblem::Empty => "rel_path is empty"@,
            PathProblem::Absolute => "absolute path not allowed: "@ + self.path@,
            PathProblem::Backslash => "backslash not allowed in rel_path: "@ + self.path@,
            PathProblem::EmptyComponent => "empty path component in: "@ + self.path@,
            PathProblem::DotComponent => "`..` / `.` not allowed in rel_path: "@ + self.path@,
        }
    }

    /// The text of the error.
    pub fn message(&self) -> (r: String)
        ensures
            r@ == self.message_text(),
    {
        match self.problem {
            PathProblem::Empty => "rel_path is empty".to_owned(),
            PathProblem::Absolute => "absolute path not allowed: ".to_owned().concat(
                self.path.as_str(),
            ),
            PathProblem::Backslash => "backslash not allowed in rel_path: ".to_owned().concat(
                self.path.as_str(),
            ),
            PathProblem::EmptyComponent => "empty path component in: ".to_owned().concat(
                self.path.as_str(),
            ),
            PathProblem::DotComponent => "`..` / `.` not allowed in rel_path: ".to_owned().concat(
                self.path.as_str(),
            ),
        }
    }
}

fn check_piece(c: &str) -> (r: Option<PathProblem>)
    ensures
        r == piece_problem(c@),
{
    proof {
        reveal_strlit(".");
        reveal_strlit("..");
        assert("."@ =~= dot());
        assert(".."@ =~= dot_dot());
    }
    if c.is_empty() {
        Some(PathProblem::EmptyComponent)
    } else if *c == *".." || *c == *"." {
        Some(PathProblem::DotComponent)
    } else {
        None
    }
}

fn problem_of(p: &str) -> (r: Option<PathProblem>)
    ensures
        r == path_problem(p@),
{
    if p.is_empty() {
        return Some(PathProblem::Empty);
    }
    let chars = chars_of(p);
    if chars[0] == '/' {
        return Some(PathProblem::Absolute);
    }
    let mut k: usize = 0;
    while k < chars.len()
        invariant
            k <= chars@.len(),
            chars@ == p@,
            p@.len() > 0 && p@[0] != '/',
            forall|j: int| 0 <= j < k ==> p@[j] != '\\',
        decreases chars@.len() - k,
    {
        if chars[k] == '\\' {
            proof {
                assert(p@.contains(p@[k as int]));
            }
            return Some(PathProblem::Backslash);
        }
        k += 1;
    }
    let parts = split(p, '/');
    let ghost all = texts(parts@);
    let mut i: usize = 0;
    while i < parts.len()
        invariant
            i <= parts@.len(),
            all == texts(parts@),
            all == split_text(p@, '/'),
            p@.len() > 0 && p@[0] != '/' && !p@.contains('\\'),
            pieces_problem(all, i as int) is None,
        decreases parts@.len() - i,
    {
        match check_piece(parts[i].as_str()) {
            Some(problem) => {
                proof {
                    lemma_problem_stays(all, i + 1, all.len() as int);
                }
                return Some(problem);
            },
            None => {},
        }
        i += 1;
    }
    None
}

/// A problem among the first components is the problem of the whole.
proof fn lemma_problem_stays(parts: Seq<Seq<char>>, a: int, b: int)
    requires
        a <= b,
        pieces_problem(parts, a) is Some,
    ensures
        pieces_problem(parts, b) == pieces_problem(parts, a),
    decreases b - a,
{
    if a < b {
        lemma_problem_stays(parts, a, b - 1);
    }
}

/// Accepts a relative path without `..`, without `.`, without backslash and without empty
/// component.
pub fn validate_relative_path(p: &str) -> (r: Result<(), PathError>)
    ensures
        r is Ok <==> path_problem(p@) is None,
        r matches Err(e) ==> Some(e.problem) == path_problem(p@) && e.path@ == p@,
{
    match problem_of(p) {
        None => Ok(()),
        Some(problem) => Err(PathError { problem, path: p.to_owned() }),
    }
}

/// The kind of blob that a hash stands for.
#[derive(Clone, Copy, Debug, PartialEq, Eq, Structural)]
pub enum BlobFormat {
    /// One blob.
    Raw,
    /// A blob that lists the hashes of others.
    HashSeq,
}

/// The sender of an update.
#[derive(Clone, Copy, Debug, PartialEq, Eq)]
pub struct PeerRef {
    /// The identity of the sender.
    pub id: PeerId,
}

/// A change that one peer tells the others of.
#[derive(Clone, Debug, PartialEq, Eq)]
pub struct SyncUpdate {
    /// The version of the format.
    pub version: u32,
    /// The change.
    pub body: SyncUpdateBody,
}

/// The change that an update tells of.
#[derive(Clone, Debug, PartialEq, Eq)]
pub enum SyncUpdateBody {
    /// A file was created or changed.
    Upsert {
        /// The path of the file in the synchronised directory.
        path: String,
        /// The hash of its contents.
        hash: BlobHash,
        /// How the contents are stored.
        format: BlobFormat,
        /// Who changed it.
        from: PeerRef,
    },
    /// A file was removed.
    Tombstone {
        /// The path of the file in the synchronised directory.
        path: String,
        /// Who removed it.
        from: PeerRef,
    },
}

/// An update as a mathematical value.
pub struct UpdateView {
    pub version: u32,
    pub body: BodyView,
}

/// The change of an update as a mathematical value.
pub enum BodyView {
    Upsert { path: Seq<char>, hash: BlobHash, format: BlobFormat, from: Seq<u8> },
    Tombstone { path: Seq<char>, from: Seq<u8> },
}

impl View for SyncUpdate {
    type V = UpdateView;

    open spec fn view(&self) -> UpdateView {
        UpdateView { version: self.version, body: self.body@ }
    }
}

impl View for SyncUpdateBody {
    type V = BodyView;

    open spec fn view(&self) -> BodyView {
        match self {
            SyncUpdateBody::Upsert { path, hash, format, from } => BodyView::Upsert {
                path: path@,
                hash: *hash,
                format: *format,
                from: from.id@,
            },
            SyncUpdateBody::Tombstone { path, from } => BodyView::Tombstone {
                path: path@,
                from: from.id@,
            },
        }
    }
}

impl BodyView {
    /// The path that the change is about.
    pub open spec fn path(self) -> Seq<char> {
        match self {
            BodyView::Upsert { path, .. } => path,
            BodyView::Tombstone { path, .. } => path,
        }
    }

    /// Who made the change.
    pub open spec fn from(self) -> Seq<u8> {
        match self {
            BodyView::Upsert { from, .. } => from,
            BodyView::Tombstone { from, .. } => from,
        }
    }
}

impl UpdateView {
    /// The update has the version of this library and an accepted path.
    pub open spec fn well_formed(self) -> bool {
        self.version == SYNC_UPDATE_VERSION && path_problem(self.body.path()) is None
    }
}

/// Why a received update is refused.
#[derive(Clone, Debug, PartialEq, Eq)]
pub enum WireError {
    /// The update has another version than [`SYNC_UPDATE_VERSION`].
    Version {
        /// The version of the update.
        got: u32,
    },
    /// The path of the update is not accepted.
    Path(PathError),
}

impl WireError {
    /// The text of the error.
    pub open spec fn message_text(&self) -> Seq<char> {
        match self {
            WireError::Version { got } => "SyncUpdate version mismatch: expected "@ + decimal_text(
                SYNC_UPDATE_VERSION as nat,
            ) + ", got "@ + decimal_text(*got as nat),
            WireError::Path(e) => e.message_text(),
        }
    }

    /// The text of the error.
    pub fn message(&self) -> (r: String)
        ensures
            r@ == self.message_text(),
    {
        match self {
            WireError::Version { got } => {
                let expected = decimal(SYNC_UPDATE_VERSION as u64);
                let got = decimal(*got as u64);
                "SyncUpdate version mismatch: expected ".to_owned().concat(
                    expected.as_str(),
                ).concat(", got ").concat(got.as_str())
            },
            WireError::Path(e) => e.message(),
        }
    }
}

impl SyncUpdate {
    /// The update that tells of a created or changed file.
    pub fn upsert(path: String, hash: BlobHash, format: BlobFormat, from: PeerRef) -> (r: Result<
        SyncUpdate,
        PathError,
    >)
        ensures
            r is Ok <==> path_problem(path@) is None,
            r matches Ok(u) ==> u@ == (UpdateView {
                version: SYNC_UPDATE_VERSION,
                body: BodyView::Upsert { path: path@, hash, format, from: from.id@ },
            }) && u@.well_formed(),
            r matches Err(e) ==> Some(e.problem) == path_problem(path@) && e.path@ == path@,
    {
        match validate_relative_path(path.as_str()) {
            Err(e) => Err(e),
            Ok(()) => Ok(
                SyncUpdate {
                    version: SYNC_UPDATE_VERSION,
                    body: SyncUpdateBody::Upsert { path, hash, format, from },
                },
            ),
        }
    }

    /// The update that tells of a removed file.
    pub fn tombstone(path: String, from: PeerRef) -> (r: Result<SyncUpdate, PathError>)
        ensures
            r is Ok <==> path_problem(path@) is None,
            r matches Ok(u) ==> u@ == (UpdateView {
                version: SYNC_UPDATE_VERSION,
                body: BodyView::Tombstone { path: path@, from: from.id@ },
            }) && u@.well_formed(),
            r matches Err(e) ==> Some(e.problem) == path_problem(path@) && e.path@ == path@,
    {
        match validate_relative_path(path.as_str()) {
            Err(e) => Err(e),
            Ok(()) => Ok(
                SyncUpdate {
                    version: SYNC_UPDATE_VERSION,
                    body: SyncUpdateBody::Tombstone { path, from },
                },
            ),
        }
    }

    /// The path that the update is about.
    pub fn path(&self) -> (r: &str)
        ensures
            r@ == self@.body.path(),
    {
        match &self.body {
            SyncUpdateBody::Upsert { path, .. } => path.as_str(),
            SyncUpdateBody::Tombstone { path, .. } => path.as_str(),
        }
    }

    /// Who sent the update.
    pub fn from(&self) -> (r: &PeerRef)
        ensures
            r.id@ == self@.body.from(),
    {
        match &self.body {
            SyncUpdateBody::Upsert { from, .. } => from,
            SyncUpdateBody::Tombstone { from, .. } => from,
        }
    }

    /// Accepts a received update: the version first, then the path.
    pub fn from_wire(received: SyncUpdate) -> (r: Result<SyncUpdate, WireError>)
        ensures
            r is Ok <==> received@.well_formed(),
            r matches Ok(u) ==> u == received,
            r matches Err(WireError::Version { got }) ==> got == received.version && got
                != SYNC_UPDATE_VERSION,
            r matches Err(WireError::Path(e)) ==> received.version == SYNC_UPDATE_VERSION && Some(
                e.problem,
            ) == path_problem(received@.body.path()) && e.path@ == received@.body.path(),
    {
        if received.version != SYNC_UPDATE_VERSION {
            return Err(WireError::Version { got: received.version });
        }
        match validate_relative_path(received.path()) {
            Err(e) => Err(WireError::Path(e)),
            Ok(()) => Ok(received),
        }
    }
}

/// What is wrong with a refused path: nothing stands there, it starts at the root, it holds a
/// backslash, or, where none of these holds, the first of its pieces that names nothing is empty or
/// made of dots.
pub proof fn law_refused_paths(p: Seq<char>)
    ensures
        path_problem(p) == Some(PathProblem::Empty) <==> p.len() == 0,
        path_problem(p) == Some(PathProblem::Absolute) <==> p.len() > 0 && p[0] == '/',
        path_problem(p) == Some(PathProblem::Backslash) <==> p.len() > 0 && p[0] != '/'
            && p.contains('\\'),
        p.len() > 0 && p[0] != '/' && !p.contains('\\') ==> forall|k: int|
            0 <= k < split_text(p, '/').len() && !is_name(#[trigger] split_text(p, '/')[k]) && (
            forall|i: int| 0 <= i < k ==> is_name(#[trigger] split_text(p, '/')[i]))
                ==> path_problem(p) == if split_text(p, '/')[k].len() == 0 {
                Some(PathProblem::EmptyComponent)
            } else {
                Some(PathProblem::DotComponent)
            },
{
    let parts = split_text(p, '/');
    lemma_pieces_kind(parts, parts.len() as int);
    if p.len() > 0 && p[0] != '/' && !p.contains('\\') {
        assert forall|k: int|
            0 <= k < parts.len() && !is_name(#[trigger] parts[k]) && (forall|i: int|
                0 <= i < k ==> is_name(#[trigger] parts[i])) implies path_problem(p)
            == piece_problem(parts[k]) by {
            lemma_pieces_problem(parts, k);
            lemma_problem_stays(parts, k + 1, parts.len() as int);
        }
    }
}

proof fn lemma_pieces_kind(parts: Seq<Seq<char>>, n: int)
    ensures
        pieces_problem(parts, n) is None || pieces_problem(parts, n) == Some(
            PathProblem::EmptyComponent,
        ) || pieces_problem(parts, n) == Some(PathProblem::DotComponent),
    decreases n,
{
    if n > 0 {
        lemma_pieces_kind(parts, n - 1);
    }
}

/// An update as a mathematical value holds all of it, and is accepted exactly with the present
/// version and a safe path.
pub proof fn law_update_value(u: SyncUpdate)
    ensures
        u@.version == u.version,
        u.body matches SyncUpdateBody::Upsert { path, hash, format, from } ==> u@.body == (
        BodyView::Upsert { path: path@, hash, format, from: from.id@ }) && u@.body.path() == path@
            && u@.body.from() == from.id@,
        u.body matches SyncUpdateBody::Tombstone { path, from } ==> u@.body == (
        BodyView::Tombstone { path: path@, from: from.id@ }) && u@.body.path() == path@
            && u@.body.from() == from.id@,
        u@.well_formed() <==> u.version == 2 && is_safe_relative(u@.body.path()),
{
    law_accepted_paths(u@.body.path());
}

} // verus!
