//! Announcing local changes: finding the file below the synchronised directory, and what is sent
//! for it.
use crate::bytes::to_vec;
use crate::message::{
    path_problem, validate_relative_path, BlobFormat, BodyView, PathError, PathProblem, PeerRef,
    SyncUpdate, UpdateView, SYNC_UPDATE_VERSION,
};
use crate::path_text::{
    is_name, is_safe_relative, join_path, joined, law_joined_stays_below, path_components,
};
use crate::peer_id::BlobHash;
use crate::state::{SyncState, SyncView};
use crate::text::{
    decimal, decimal_text, join_text, lemma_split_join, split, split_text, texts,
};
use vstd::prelude::*;

verus! {

/// The largest file that is sent or accepted, in bytes.
pub const MAX_FILE_SIZE: u64 = 10485760;

/// What the system says of a path at which nothing is found.
pub const MISSING_REASON: &'static str = "No such file or directory (os error 2)";

/// What is found at a path, symbolic links not followed.
#[derive(Clone, Debug, PartialEq, Eq)]
pub enum Probe {
    /// Nothing.
    Missing,
    /// A symbolic link.
    Symlink,
    /// A directory.
    Directory,
    /// Something else: a regular file, a socket, a device.
    Other,
    /// It could not be looked at, for this reason.
    Unreadable(String),
}

/// Why a relative path does not lead to a place below the synchronised directory.
#[derive(Clone, Copy, Debug, PartialEq, Eq, Structural)]
pub enum ResolveProblem {
    /// The relative path is not accepted.
    Path(PathProblem),
    /// The synchronised directory could not be looked at.
    RootUnreadable,
    /// The synchronised directory is no directory.
    RootNotDirectory,
    /// On the way lies a symbolic link.
    Symlink,
    /// On the way lies something that is no directory.
    NotDirectory,
    /// A place on the way could not be looked at.
    Unreadable,
}

/// A relative path that does not lead to a place below the synchronised directory.
#[derive(Clone, Debug, PartialEq, Eq)]
pub struct ResolveError {
    /// What is wrong.
    pub problem: ResolveProblem,
    /// The place where it is wrong; the relative path itself where that is not accepted.
    pub at: String,
    /// Why the place could not be looked at; empty where it could.
    pub reason: String,
}

/// What comes next in following a relative path below a directory.
#[derive(Clone, Debug, PartialEq, Eq)]
pub enum WalkStep {
    /// Look at this path and come back.
    Look(String),
    /// The relative path leads here.
    Resolved(String),
    /// The relative path is refused.
    Rejected(ResolveError),
}

/// A step as a mathematical value.
pub enum WalkView {
    Look(Seq<char>),
    Resolved(Seq<char>),
    Rejected(ResolveProblem, Seq<char>, Seq<char>),
}

impl View for WalkStep {
    type V = WalkView;

    open spec fn view(&self) -> WalkView {
        match self {
            WalkStep::Look(p) => WalkView::Look(p@),
            WalkStep::Resolved(p) => WalkView::Resolved(p@),
            WalkStep::Rejected(e) => WalkView::Rejected(e.problem, e.at@, e.reason@),
        }
    }
}

/// The path of the first `n` components below `root`.
pub open spec fn prefix_path(root: Seq<char>, parts: Seq<Seq<char>>, n: int) -> Seq<char>
    decreases n,
{
    if n <= 0 {
        root
    } else {
        joined(prefix_path(root, parts, n - 1), parts[n - 1])
    }
}

/// The step that follows once the components before the `i`-th were found in order; `seen[i]` is
/// what was found at the path of the first `i` components.
pub open spec fn walk_from(
    root: Seq<char>,
    rel: Seq<char>,
    seen: Seq<Probe>,
    i: int,
) -> WalkView
    decreases seen.len() - i,
{
    let parts = split_text(rel, '/');
    let at = prefix_path(root, parts, i);
    if i > parts.len() {
        WalkView::Resolved(joined(root, rel))
    } else if i >= seen.len() {
        WalkView::Look(at)
    } else {
        match seen[i] {
            Probe::Symlink => WalkView::Rejected(ResolveProblem::Symlink, at, Seq::empty()),
            Probe::Missing => WalkView::Resolved(joined(root, rel)),
            Probe::Unreadable(e) => WalkView::Rejected(ResolveProblem::Unreadable, at, e@),
            Probe::Directory => walk_from(root, rel, seen, i + 1),
            Probe::Other => if i < parts.len() {
                WalkView::Rejected(ResolveProblem::NotDirectory, at, Seq::empty())
            } else {
                walk_from(root, rel, seen, i + 1)
            },
        }
    }
}

/// The step that follows what was found so far: at `root` first, and then at the path of the
/// first component, of the first two, and so on.
pub open spec fn walk(root: Seq<char>, rel: Seq<char>, seen: Seq<Probe>) -> WalkView {
    match path_problem(rel) {
        Some(problem) => WalkView::Rejected(ResolveProblem::Path(problem), rel, Seq::empty()),
        None => if seen.len() == 0 {
            WalkView::Look(root)
        } else {
            match seen[0] {
                Probe::Missing => WalkView::Rejected(
                    ResolveProblem::RootUnreadable,
                    root,
                    MISSING_REASON@,
                ),
                Probe::Unreadable(e) => WalkView::Rejected(
                    ResolveProblem::RootUnreadable,
                    root,
                    e@,
                ),
                Probe::Directory => walk_from(root, rel, seen, 1),
                _ => WalkView::Rejected(ResolveProblem::RootNotDirectory, root, Seq::empty()),
            }
        },
    }
}

/// Where the components from the `i`-th on were found to be directories, up to the first that is
/// missing; the last one may also be another thing, but no symbolic link.
pub open spec fn way_is_clear(seen: Seq<Probe>, n: int, i: int, m: int) -> bool {
    &&& i - 1 <= m <= n
    &&& m < seen.len()
    &&& forall|j: int|
        i <= j <= m ==> (#[trigger] seen[j] == Probe::Directory || (j == n && seen[j]
            == Probe::Other))
    &&& m == n || (m + 1 < seen.len() && seen[m + 1] == Probe::Missing)
}

proof fn lemma_walk_from_clear(root: Seq<char>, rel: Seq<char>, seen: Seq<Probe>, i: int)
    requires
        walk_from(root, rel, seen, i) is Resolved,
        1 <= i <= seen.len(),
        i <= split_text(rel, '/').len() + 1,
    ensures
        exists|m: int| way_is_clear(seen, split_text(rel, '/').len() as int, i, m),
    decreases seen.len() - i,
{
    let n = split_text(rel, '/').len() as int;
    if i > n {
        assert(way_is_clear(seen, n, i, n));
    } else if i < seen.len() {
        if seen[i] == Probe::Missing {
            assert(way_is_clear(seen, n, i, i - 1));
        } else {
            lemma_walk_from_clear(root, rel, seen, i + 1);
            let next = i + 1;
            let m = choose|m: int| way_is_clear(seen, n, next, m);
            assert(way_is_clear(seen, n, i, m));
        }
    }
}

/// A relative path that is resolved leads below the directory, and everything that exists on the
/// way was looked at and is a directory: no symbolic link leads out.
pub proof fn law_resolved_stays_below(root: Seq<char>, rel: Seq<char>, seen: Seq<Probe>)
    requires
        root.len() > 0,
        walk(root, rel, seen) is Resolved,
    ensures
        walk(root, rel, seen) == WalkView::Resolved(joined(root, rel)),
        is_safe_relative(rel),
        path_components(joined(root, rel)) == path_components(
            root,
        ) + split_text(rel, '/'),
        seen.len() > 0 && seen[0] == Probe::Directory,
        exists|m: int| way_is_clear(seen, split_text(rel, '/').len() as int, 1, m),
{
    crate::message::law_accepted_paths(rel);
    law_joined_stays_below(root, rel);
    lemma_split_join(rel, '/');
    lemma_walk_from_clear(root, rel, seen, 1);
    lemma_walk_from_resolved(root, rel, seen, 1);
}

proof fn lemma_walk_from_resolved(root: Seq<char>, rel: Seq<char>, seen: Seq<Probe>, i: int)
    ensures
        walk_from(root, rel, seen, i) is Resolved ==> walk_from(root, rel, seen, i)
            == WalkView::Resolved(joined(root, rel)),
    decreases seen.len() - i,
{
    let n = split_text(rel, '/').len() as int;
    if 0 <= i < seen.len() && i <= n {
        lemma_walk_from_resolved(root, rel, seen, i + 1);
    } else if i < 0 && i < seen.len() {
        lemma_walk_from_resolved(root, rel, seen, i + 1);
    }
}

/// A symbolic link on the way is refused, also where nothing exists behind it.
pub proof fn law_symlink_is_refused(root: Seq<char>, rel: Seq<char>, seen: Seq<Probe>, k: int)
    requires
        path_problem(rel) is None,
        1 <= k < seen.len(),
        k <= split_text(rel, '/').len(),
        forall|j: int| 0 <= j < k ==> #[trigger] seen[j] == Probe::Directory,
        seen[k] == Probe::Symlink,
    ensures
        walk(root, rel, seen) == WalkView::Rejected(
            ResolveProblem::Symlink,
            prefix_path(root, split_text(rel, '/'), k),
            Seq::empty(),
        ),
{
    lemma_walk_reaches(root, rel, seen, 1, k);
}

proof fn lemma_walk_reaches(root: Seq<char>, rel: Seq<char>, seen: Seq<Probe>, i: int, k: int)
    requires
        1 <= i <= k < seen.len(),
        k <= split_text(rel, '/').len(),
        forall|j: int| i <= j < k ==> #[trigger] seen[j] == Probe::Directory,
    ensures
        walk_from(root, rel, seen, i) == walk_from(root, rel, seen, k),
    decreases k - i,
{
    if i < k {
        assert(seen[i] == Probe::Directory);
        lemma_walk_reaches(root, rel, seen, i + 1, k);
    }
}

proof fn lemma_prefix_is_joined(root: Seq<char>, parts: Seq<Seq<char>>, n: int)
    requires
        root.len() > 0,
        1 <= n <= parts.len(),
        forall|i: int|
            0 <= i < parts.len() ==> is_name(#[trigger] parts[i]) && !parts[i].contains('/'),
    ensures
        prefix_path(root, parts, n) == joined(root, join_text(parts.subrange(0, n), '/')),
        join_text(parts.subrange(0, n), '/').len() > 0,
        join_text(parts.subrange(0, n), '/')[0] != '/',
        prefix_path(root, parts, n).len() > 0,
        prefix_path(root, parts, n).last() != '/',
    decreases n,
{
    reveal_with_fuel(prefix_path, 2);
    let piece = parts[n - 1];
    assert(is_name(piece));
    assert(piece.contains(piece[0]) && piece.contains(piece.last()));
    let some = parts.subrange(0, n);
    if n == 1 {
        assert(some[0] == piece);
    } else {
        lemma_prefix_is_joined(root, parts, n - 1);
        let fewer = parts.subrange(0, n - 1);
        assert(some.drop_last() =~= fewer);
        assert(some.last() == piece);
        assert(join_text(some, '/') == join_text(fewer, '/').push('/') + piece);
        assert(joined(root, join_text(some, '/')) =~= joined(root, join_text(fewer, '/')).push('/')
            + piece);
    }
}

/// The way to a file is looked at place by place, from the directory on: as long as only
/// directories were found, the next place is the one that the next name leads to, and after the
/// last one the path is resolved.
pub proof fn law_way_is_looked_at(root: Seq<char>, rel: Seq<char>, seen: Seq<Probe>)
    requires
        root.len() > 0,
        is_safe_relative(rel),
        seen.len() <= split_text(rel, '/').len() + 1,
        forall|j: int| 0 <= j < seen.len() ==> #[trigger] seen[j] == Probe::Directory,
    ensures
        seen.len() <= split_text(rel, '/').len() ==> (walk(root, rel, seen) matches WalkView::Look(
            place,
        ) && path_components(place) == path_components(root) + split_text(rel, '/').subrange(
            0,
            seen.len() as int,
        )),
        seen.len() == split_text(rel, '/').len() + 1 ==> walk(root, rel, seen)
            == WalkView::Resolved(joined(root, rel)),
{
    crate::message::law_accepted_paths(rel);
    let parts = split_text(rel, '/');
    let n = seen.len() as int;
    lemma_split_join(rel, '/');
    if n == 0 {
        assert(path_components(root) + parts.subrange(0, 0) =~= path_components(root));
    } else {
        lemma_walk_on(root, rel, seen, 1, n);
        if n <= parts.len() {
            lemma_prefix_components(root, rel, n);
        }
    }
}

proof fn lemma_walk_on(root: Seq<char>, rel: Seq<char>, seen: Seq<Probe>, i: int, k: int)
    requires
        1 <= i <= k <= seen.len(),
        k <= split_text(rel, '/').len() + 1,
        forall|j: int| i <= j < k ==> #[trigger] seen[j] == Probe::Directory,
    ensures
        walk_from(root, rel, seen, i) == walk_from(root, rel, seen, k),
    decreases k - i,
{
    if i < k {
        assert(seen[i] == Probe::Directory);
        lemma_walk_on(root, rel, seen, i + 1, k);
    }
}

proof fn lemma_prefix_components(root: Seq<char>, rel: Seq<char>, n: int)
    requires
        root.len() > 0,
        is_safe_relative(rel),
        1 <= n <= split_text(rel, '/').len(),
    ensures
        path_components(prefix_path(root, split_text(rel, '/'), n)) == path_components(root)
            + split_text(rel, '/').subrange(0, n),
{
    let parts = split_text(rel, '/');
    lemma_split_join(rel, '/');
    lemma_prefix_is_joined(root, parts, n);
    let some = parts.subrange(0, n);
    assert forall|i: int| 0 <= i < some.len() implies !(#[trigger] some[i]).contains('/') && is_name(
        some[i],
    ) by {
        assert(some[i] == parts[i]);
    }
    crate::path_text::lemma_join_split(some, '/');
    let text = join_text(some, '/');
    assert(!text.contains('\\')) by {
        lemma_no_backslash(parts, n, rel);
    }
    assert(is_safe_relative(text));
    law_joined_stays_below(root, text);
}

proof fn lemma_no_backslash(parts: Seq<Seq<char>>, n: int, rel: Seq<char>)
    requires
        1 <= n <= parts.len(),
        rel == join_text(parts, '/'),
        !rel.contains('\\'),
    ensures
        !join_text(parts.subrange(0, n), '/').contains('\\'),
    decreases parts.len() - n,
{
    let some = parts.subrange(0, n);
    let text = join_text(some, '/');
    if n == parts.len() {
        assert(some =~= parts);
    } else {
        lemma_no_backslash(parts, n + 1, rel);
        let more = parts.subrange(0, n + 1);
        let whole = join_text(more, '/');
        assert(more.drop_last() =~= some);
        assert(whole == text.push('/') + parts[n]);
        assert forall|i: int| 0 <= i < text.len() implies text[i] != '\\' by {
            assert(whole[i] == text[i]);
            assert(whole.contains(whole[i]));
        }
    }
}

/// What is found on the way decides: where nothing is found the path is resolved; a symbolic link
/// or a place that cannot be looked at is refused; and a place that is no directory is refused
/// unless it is the last one.
pub proof fn law_finds_decide(root: Seq<char>, rel: Seq<char>, seen: Seq<Probe>, k: int)
    requires
        is_safe_relative(rel),
        1 <= k < seen.len(),
        k <= split_text(rel, '/').len(),
        forall|j: int| 0 <= j < k ==> #[trigger] seen[j] == Probe::Directory,
    ensures
        ({
            let place = prefix_path(root, split_text(rel, '/'), k);
            let way = walk(root, rel, seen);
            &&& seen[k] is Missing ==> way == WalkView::Resolved(joined(root, rel))
            &&& seen[k] is Symlink ==> way == WalkView::Rejected(
                ResolveProblem::Symlink,
                place,
                Seq::empty(),
            )
            &&& seen[k] matches Probe::Unreadable(e) ==> way == WalkView::Rejected(
                ResolveProblem::Unreadable,
                place,
                e@,
            )
            &&& seen[k] is Other && k < split_text(rel, '/').len() ==> way == WalkView::Rejected(
                ResolveProblem::NotDirectory,
                place,
                Seq::empty(),
            )
            &&& (seen[k] is Other || seen[k] is Directory) && k == split_text(rel, '/').len()
                ==> way == WalkView::Resolved(joined(root, rel))
        }),
{
    crate::message::law_accepted_paths(rel);
    lemma_walk_reaches(root, rel, seen, 1, k);
    reveal_with_fuel(walk_from, 2);
}

/// The synchronised directory itself has to be there and to be a directory, before any name of the
/// path is followed; and a path that is not safe is refused before anything is looked at.
pub proof fn law_directory_has_to_be_there(root: Seq<char>, rel: Seq<char>, seen: Seq<Probe>)
    ensures
        !is_safe_relative(rel) ==> walk(root, rel, seen) is Rejected,
        seen.len() > 0 && !(seen[0] is Directory) ==> walk(root, rel, seen) is Rejected,
        is_safe_relative(rel) && seen.len() > 0 && (seen[0] is Symlink || seen[0] is Other) ==> walk(
            root,
            rel,
            seen,
        ) == WalkView::Rejected(ResolveProblem::RootNotDirectory, root, Seq::empty()),
{
    crate::message::law_accepted_paths(rel);
}

/// The place that a relative path is resolved to is the last place on the way.
pub proof fn law_target_is_last_on_the_way(root: Seq<char>, rel: Seq<char>)
    requires
        root.len() > 0,
        is_safe_relative(rel),
    ensures
        prefix_path(root, split_text(rel, '/'), split_text(rel, '/').len() as int) == joined(
            root,
            rel,
        ),
{
    lemma_split_join(rel, '/');
    let parts = split_text(rel, '/');
    lemma_prefix_is_joined(root, parts, parts.len() as int);
    assert(parts.subrange(0, parts.len() as int) =~= parts);
}

impl ResolveError {
    /// The text of the error.
    pub open spec fn message_text(&self) -> Seq<char> {
        match self.problem {
            ResolveProblem::Path(problem) => match problem {
                PathProblem::Empty => "rel_path is empty"@,
                PathProblem::Absolute => "absolute path not allowed: "@ + self.at@,
                PathProblem::Backslash => "backslash not allowed in rel_path: "@ + self.at@,
                PathProblem::EmptyComponent => "empty path component in: "@ + self.at@,
                PathProblem::DotComponent => "`..` / `.` not allowed in rel_path: "@ + self.at@,
            },
            ResolveProblem::RootUnreadable => "symlink_metadata "@ + self.at@ + ": "@ + self.reason@,
            ResolveProblem::RootNotDirectory => "watched_dir is not a directory: "@ + self.at@,
            ResolveProblem::Symlink => "path escapes watched_dir via symlink at "@ + self.at@,
            ResolveProblem::NotDirectory => "intermediate component is not a directory: "@
                + self.at@,
            ResolveProblem::Unreadable => "symlink_metadata "@ + self.at@ + ": "@ + self.reason@,
        }
    }

    /// The text of the error.
    pub fn message(&self) -> (r: String)
        ensures
            r@ == self.message_text(),
    {
        match self.problem {
            ResolveProblem::Path(problem) => {
                let e = PathError { problem, path: self.at.clone() };
                e.message()
            },
            ResolveProblem::RootUnreadable => "symlink_metadata ".to_owned().concat(
                self.at.as_str(),
            ).concat(": ").concat(self.reason.as_str()),
            ResolveProblem::RootNotDirectory => {
                "watched_dir is not a directory: ".to_owned().concat(self.at.as_str())
            },
            ResolveProblem::Symlink => {
                "path escapes watched_dir via symlink at ".to_owned().concat(self.at.as_str())
            },
            ResolveProblem::NotDirectory => {
                "intermediate component is not a directory: ".to_owned().concat(self.at.as_str())
            },
            ResolveProblem::Unreadable => "symlink_metadata ".to_owned().concat(
                self.at.as_str(),
            ).concat(": ").concat(self.reason.as_str()),
        }
    }
}

fn rejected(problem: ResolveProblem, at: &str) -> (r: WalkStep)
    ensures
        r@ == WalkView::Rejected(problem, at@, Seq::empty()),
{
    let reason: String = String::new();
    proof {
        assert(reason@ =~= Seq::<char>::empty());
    }
    WalkStep::Rejected(ResolveError { problem, at: at.to_owned(), reason })
}

fn unreadable(problem: ResolveProblem, at: &str, reason: &str) -> (r: WalkStep)
    ensures
        r@ == WalkView::Rejected(problem, at@, reason@),
{
    WalkStep::Rejected(ResolveError { problem, at: at.to_owned(), reason: reason.to_owned() })
}

/// Follows the relative path `rel` below the directory `root`, one look at a time: `seen` holds
/// what was found so far, at `root` first and then at each path that was to be looked at.
pub fn resolve_safe_path(root: &str, rel: &str, seen: &[Probe]) -> (r: WalkStep)
    ensures
        r@ == walk(root@, rel@, seen@),
{
    match validate_relative_path(rel) {
        Err(e) => return rejected(ResolveProblem::Path(e.problem), rel),
        Ok(()) => {},
    }
    if seen.len() == 0 {
        return WalkStep::Look(root.to_owned());
    }
    match &seen[0] {
        Probe::Missing => return unreadable(ResolveProblem::RootUnreadable, root, MISSING_REASON),
        Probe::Unreadable(e) => {
            return unreadable(ResolveProblem::RootUnreadable, root, e.as_str());
        },
        Probe::Directory => {},
        Probe::Symlink => return rejected(ResolveProblem::RootNotDirectory, root),
        Probe::Other => return rejected(ResolveProblem::RootNotDirectory, root),
    }
    let parts = split(rel, '/');
    let ghost all = texts(parts@);
    let mut current: String = root.to_owned();
    let mut i: usize = 0;
    while i < parts.len()
        invariant
            i <= parts@.len(),
            all == texts(parts@),
            all == split_text(rel@, '/'),
            path_problem(rel@) is None,
            seen@.len() > 0,
            seen@[0] == Probe::Directory,
            current@ == prefix_path(root@, all, i as int),
            walk(root@, rel@, seen@) == walk_from(root@, rel@, seen@, i + 1),
        decreases parts@.len() - i,
    {
        current = join_path(current.as_str(), parts[i].as_str());
        i += 1;
        if i >= seen.len() {
            return WalkStep::Look(current);
        }
        match &seen[i] {
            Probe::Symlink => return rejected(ResolveProblem::Symlink, current.as_str()),
            Probe::Missing => return WalkStep::Resolved(join_path(root, rel)),
            Probe::Unreadable(e) => {
                return unreadable(ResolveProblem::Unreadable, current.as_str(), e.as_str());
            },
            Probe::Directory => {},
            Probe::Other => {
                if i < parts.len() {
                    return rejected(ResolveProblem::NotDirectory, current.as_str());
                }
            },
        }
    }
    WalkStep::Resolved(join_path(root, rel))
}

/// Why a file is not sent.
#[derive(Debug, Clone, PartialEq, Eq)]
pub enum SendError {
    /// Its path does not lead to a place below the synchronised directory.
    Resolve(ResolveError),
    /// It is no regular file.
    NotAFile(String),
    /// It is larger than [`MAX_FILE_SIZE`].
    TooLarge(u64),
    /// Reading, storing or sending failed, for this reason.
    Io(String),
}

/// A send error as a mathematical value.
pub enum SendProblem {
    Resolve(ResolveProblem, Seq<char>, Seq<char>),
    NotAFile(Seq<char>),
    TooLarge(u64),
    Io(Seq<char>),
}

impl View for SendError {
    type V = SendProblem;

    open spec fn view(&self) -> SendProblem {
        match self {
            SendError::Resolve(e) => SendProblem::Resolve(e.problem, e.at@, e.reason@),
            SendError::NotAFile(p) => SendProblem::NotAFile(p@),
            SendError::TooLarge(n) => SendProblem::TooLarge(*n),
            SendError::Io(e) => SendProblem::Io(e@),
        }
    }
}

impl SendError {
    /// The text of the error.
    pub open spec fn message_text(&self) -> Seq<char> {
        match self {
            SendError::Resolve(e) => e.message_text(),
            SendError::NotAFile(p) => "not a regular file: "@ + p@,
            SendError::TooLarge(n) => "file too large: "@ + decimal_text(*n as nat) + " bytes > "@
                + decimal_text(MAX_FILE_SIZE as nat) + " bytes"@,
            SendError::Io(e) => e@,
        }
    }

    /// The text of the error.
    pub fn message(&self) -> (r: String)
        ensures
            r@ == self.message_text(),
    {
        match self {
            SendError::Resolve(e) => e.message(),
            SendError::NotAFile(p) => "not a regular file: ".to_owned().concat(p.as_str()),
            SendError::TooLarge(n) => {
                let size = decimal(*n);
                let max = decimal(MAX_FILE_SIZE);
                "file too large: ".to_owned().concat(size.as_str()).concat(" bytes > ").concat(
                    max.as_str(),
                ).concat(" bytes")
            },
            SendError::Io(e) => e.clone(),
        }
    }
}

/// What came of the last action.
#[derive(Debug, Clone, PartialEq, Eq)]
pub enum SendEvent {
    /// This was found at the path.
    Found(Probe),
    /// This is known of the file.
    Metadata {
        /// Whether it is a regular file.
        is_file: bool,
        /// Its size.
        len: u64,
    },
    /// These are the contents of the file.
    Bytes(Vec<u8>),
    /// The contents are in the local store, under this hash.
    Stored(BlobHash),
    /// The update was sent.
    Done,
    /// It failed, for this reason.
    Failed(String),
}

/// An event as a mathematical value.
pub enum SendEventView {
    Found(Probe),
    Metadata { is_file: bool, len: u64 },
    Bytes(Seq<u8>),
    Stored(BlobHash),
    Done,
    Failed(Seq<char>),
}

impl View for SendEvent {
    type V = SendEventView;

    open spec fn view(&self) -> SendEventView {
        match self {
            SendEvent::Found(p) => SendEventView::Found(*p),
            SendEvent::Metadata { is_file, len } => SendEventView::Metadata {
                is_file: *is_file,
                len: *len,
            },
            SendEvent::Bytes(b) => SendEventView::Bytes(b@),
            SendEvent::Stored(h) => SendEventView::Stored(*h),
            SendEvent::Done => SendEventView::Done,
            SendEvent::Failed(e) => SendEventView::Failed(e@),
        }
    }
}

/// What is to be done next to send a file.
#[derive(Debug, Clone, PartialEq, Eq)]
pub enum SendAction {
    /// Look at this path, without following symbolic links.
    Look(String),
    /// Find out what the file is and how large.
    Stat(String),
    /// Read the file.
    Read(String),
    /// Put the contents into the local store.
    Store(Vec<u8>),
    /// Send the update to all peers.
    Broadcast(SyncUpdate),
    /// Nothing: the file was sent.
    Finished,
    /// Nothing: the file is not sent.
    Failed(SendError),
}

/// An action as a mathematical value.
pub enum SendActionView {
    Look(Seq<char>),
    Stat(Seq<char>),
    Read(Seq<char>),
    Store(Seq<u8>),
    Broadcast(UpdateView),
    Finished,
    Failed(SendProblem),
}

impl View for SendAction {
    type V = SendActionView;

    open spec fn view(&self) -> SendActionView {
        match self {
            SendAction::Look(p) => SendActionView::Look(p@),
            SendAction::Stat(p) => SendActionView::Stat(p@),
            SendAction::Read(p) => SendActionView::Read(p@),
            SendAction::Store(b) => SendActionView::Store(b@),
            SendAction::Broadcast(u) => SendActionView::Broadcast(u@),
            SendAction::Finished => SendActionView::Finished,
            SendAction::Failed(e) => SendActionView::Failed(e@),
        }
    }
}

#[derive(Debug)]
enum SendPhase {
    Resolving(Vec<Probe>),
    Statting,
    Reading,
    Storing(Vec<u8>),
    Sending(BlobHash),
    Finished,
    Failed(SendError),
}

/// How far the sending of a file has come.
pub enum SendPhaseView {
    /// The path is followed below the directory; so much was found.
    Resolving(Seq<Probe>),
    /// The kind and size of the file are found out.
    Statting,
    /// The file is read.
    Reading,
    /// These contents are put into the local store.
    Storing(Seq<u8>),
    /// The update with this hash is sent.
    Sending(BlobHash),
    /// The file was sent.
    Finished,
    /// The file is not sent.
    Failed(SendProblem),
}

impl SendPhase {
    spec fn view(&self) -> SendPhaseView {
        match self {
            SendPhase::Resolving(seen) => SendPhaseView::Resolving(seen@),
            SendPhase::Statting => SendPhaseView::Statting,
            SendPhase::Reading => SendPhaseView::Reading,
            SendPhase::Storing(b) => SendPhaseView::Storing(b@),
            SendPhase::Sending(h) => SendPhaseView::Sending(*h),
            SendPhase::Finished => SendPhaseView::Finished,
            SendPhase::Failed(e) => SendPhaseView::Failed(e@),
        }
    }
}

/// A file that is being sent.
#[derive(Debug)]
pub struct Sending {
    root: String,
    rel: String,
    from: PeerRef,
    phase: SendPhase,
}

/// A file that is being sent, as a mathematical value.
pub struct SendView {
    /// The synchronised directory.
    pub root: Seq<char>,
    /// The path of the file in it.
    pub rel: Seq<char>,
    /// The sender.
    pub from: Seq<u8>,
    /// How far it has come.
    pub phase: SendPhaseView,
}

impl View for Sending {
    type V = SendView;

    closed spec fn view(&self) -> SendView {
        SendView {
            root: self.root@,
            rel: self.rel@,
            from: self.from.id@,
            phase: self.phase.view(),
        }
    }
}

impl SendView {
    /// The path of the file.
    pub open spec fn target(self) -> Seq<char> {
        joined(self.root, self.rel)
    }

    /// The update that tells of contents with this hash.
    pub open spec fn update(self, hash: BlobHash) -> UpdateView {
        UpdateView {
            version: SYNC_UPDATE_VERSION,
            body: BodyView::Upsert {
                path: self.rel,
                hash,
                format: BlobFormat::Raw,
                from: self.from,
            },
        }
    }

    /// The phase that follows what was found on the way so far.
    pub open spec fn found(self, seen: Seq<Probe>) -> SendPhaseView {
        match walk(self.root, self.rel, seen) {
            WalkView::Look(_) => SendPhaseView::Resolving(seen),
            WalkView::Rejected(problem, at, reason) => SendPhaseView::Failed(
                SendProblem::Resolve(problem, at, reason),
            ),
            WalkView::Resolved(_) => SendPhaseView::Statting,
        }
    }

    /// The phase and the notes that follow an event. An event that does not answer what was to be
    /// done changes nothing.
    pub open spec fn next(self, s: SyncView, ev: SendEventView) -> (SendPhaseView, SyncView) {
        match (self.phase, ev) {
            (SendPhaseView::Resolving(seen), SendEventView::Found(p)) => (
                self.found(seen.push(p)),
                s,
            ),
            (SendPhaseView::Statting, SendEventView::Metadata { is_file, len }) => if !is_file {
                (SendPhaseView::Failed(SendProblem::NotAFile(self.target())), s)
            } else if len > MAX_FILE_SIZE {
                (SendPhaseView::Failed(SendProblem::TooLarge(len)), s)
            } else {
                (SendPhaseView::Reading, s)
            },
            (SendPhaseView::Reading, SendEventView::Bytes(b)) => (SendPhaseView::Storing(b), s),
            (SendPhaseView::Storing(_), SendEventView::Stored(h)) => (
                SendPhaseView::Sending(h),
                s,
            ),
            (SendPhaseView::Sending(h), SendEventView::Done) => (
                SendPhaseView::Finished,
                s.written(self.rel, h),
            ),
            (SendPhaseView::Statting, SendEventView::Failed(e)) => (
                SendPhaseView::Failed(SendProblem::Io(e)),
                s,
            ),
            (SendPhaseView::Reading, SendEventView::Failed(e)) => (
                SendPhaseView::Failed(SendProblem::Io(e)),
                s,
            ),
            (SendPhaseView::Storing(_), SendEventView::Failed(e)) => (
                SendPhaseView::Failed(SendProblem::Io(e)),
                s,
            ),
            (SendPhaseView::Sending(_), SendEventView::Failed(e)) => (
                SendPhaseView::Failed(SendProblem::Io(e)),
                s,
            ),
            _ => (self.phase, s),
        }
    }

    /// What is to be done next.
    pub open spec fn asks(self) -> SendActionView {
        match self.phase {
            SendPhaseView::Resolving(seen) => SendActionView::Look(
                walk(self.root, self.rel, seen)->Look_0,
            ),
            SendPhaseView::Statting => SendActionView::Stat(self.target()),
            SendPhaseView::Reading => SendActionView::Read(self.target()),
            SendPhaseView::Storing(b) => SendActionView::Store(b),
            SendPhaseView::Sending(h) => SendActionView::Broadcast(self.update(h)),
            SendPhaseView::Finished => SendActionView::Finished,
            SendPhaseView::Failed(e) => SendActionView::Failed(e),
        }
    }

    /// While the path is followed there is something to look at, and it was accepted before
    /// anything is done with the file.
    pub open spec fn well_formed(self) -> bool {
        &&& (self.phase matches SendPhaseView::Resolving(seen) ==> walk(
            self.root,
            self.rel,
            seen,
        ) is Look)
        &&& (self.phase is Failed || path_problem(self.rel) is None)
    }

    /// The phase is another one.
    pub open spec fn at(self, phase: SendPhaseView) -> SendView {
        SendView { phase, ..self }
    }
}

/// The events that answer an action.
pub open spec fn answers_send(a: SendActionView, ev: SendEventView) -> bool {
    match a {
        SendActionView::Look(_) => ev is Found,
        SendActionView::Stat(_) => ev is Metadata || ev is Failed,
        SendActionView::Read(_) => ev is Bytes || ev is Failed,
        SendActionView::Store(_) => ev is Stored || ev is Failed,
        SendActionView::Broadcast(_) => ev is Done || ev is Failed,
        SendActionView::Finished => false,
        SendActionView::Failed(_) => false,
    }
}

/// An event that does not answer the action that is asked for changes nothing. So nothing happens
/// any more once the file was sent, or failed to be.
pub proof fn law_unasked_events_send_nothing(run: SendView, s: SyncView, ev: SendEventView)
    requires
        !answers_send(run.asks(), ev),
    ensures
        run.at(run.next(s, ev).0) == run,
        run.next(s, ev).1 == s,
{
}

/// A file is sent in this order, whatever is found: the way to it is followed; then it is asked
/// what stands there; only a regular file that is not too large is read; the bytes that were read
/// are put into the local store, all of them; and the hash that the store gives is announced to
/// the peers, with the path of the file and the sender. Nothing is noted before.
pub proof fn law_file_is_sent_whole(
    run: SendView,
    s: SyncView,
    p: Probe,
    is_file: bool,
    len: u64,
    b: Seq<u8>,
    h: BlobHash,
)
    requires
        run.well_formed(),
    ensures
        ({
            let target = joined(run.root, run.rel);
            let found = run.next(s, SendEventView::Found(p));
            let known = run.next(s, SendEventView::Metadata { is_file, len });
            let read = run.next(s, SendEventView::Bytes(b));
            let stored = run.next(s, SendEventView::Stored(h));
            let update = UpdateView {
                version: 2,
                body: BodyView::Upsert {
                    path: run.rel,
                    hash: h,
                    format: BlobFormat::Raw,
                    from: run.from,
                },
            };
            &&& run.phase matches SendPhaseView::Resolving(seen) ==> found.1 == s && match walk(
                run.root,
                run.rel,
                seen.push(p),
            ) {
                WalkView::Look(place) => run.at(found.0).asks() == SendActionView::Look(place),
                WalkView::Resolved(_) => run.at(found.0).asks() == SendActionView::Stat(target),
                WalkView::Rejected(problem, at, reason) => run.at(found.0).asks()
                    == SendActionView::Failed(SendProblem::Resolve(problem, at, reason)),
            }
            &&& run.asks() is Stat ==> known.1 == s && run.at(known.0).asks() == if !is_file {
                SendActionView::Failed(SendProblem::NotAFile(target))
            } else if len > 10485760 {
                SendActionView::Failed(SendProblem::TooLarge(len))
            } else {
                SendActionView::Read(target)
            }
            &&& run.asks() is Read ==> run.at(read.0).asks() == SendActionView::Store(b) && read.1
                == s
            &&& run.asks() is Store ==> run.at(stored.0).asks() == SendActionView::Broadcast(update)
                && stored.1 == s
        }),
{
}

/// A file is sent once the update is out: only then its hash is noted, so that the next report on
/// it is not taken for a change. What is noted is the hash that was announced, and nothing else
/// changes.
pub proof fn law_sent_hash_is_noted(run: SendView, s: SyncView)
    requires
        run.well_formed(),
        run.asks() is Broadcast,
    ensures
        ({
            let next = run.next(s, SendEventView::Done);
            let update = run.asks()->Broadcast_0;
            &&& run.at(next.0).asks() is Finished
            &&& update.body matches BodyView::Upsert { path, hash, .. } && path == run.rel && next.1
                == (SyncView { last_written: s.last_written.insert(path, hash), ..s })
        }),
{
}

/// A failed action ends the sending with its reason, and nothing is noted.
pub proof fn law_failed_sending_notes_nothing(run: SendView, s: SyncView, e: Seq<char>)
    requires
        run.asks() is Stat || run.asks() is Read || run.asks() is Store || run.asks() is Broadcast,
    ensures
        run.at(run.next(s, SendEventView::Failed(e)).0).asks() == SendActionView::Failed(
            SendProblem::Io(e),
        ),
        run.next(s, SendEventView::Failed(e)).1 == s,
{
}

/// The sending of a file with an accepted path starts with a look at the synchronised directory;
/// that of another one fails at once.
pub proof fn law_sending_starts_at_the_directory(root: Seq<char>, rel: Seq<char>, from: Seq<u8>)
    ensures
        ({
            let blank = SendView { root, rel, from, phase: SendPhaseView::Finished };
            let run = blank.at(blank.found(Seq::empty()));
            &&& is_safe_relative(rel) ==> run.asks() == SendActionView::Look(root)
            &&& !is_safe_relative(rel) ==> (run.asks() matches SendActionView::Failed(
                SendProblem::Resolve(_, at, _),
            ) && at == rel)
        }),
{
    crate::message::law_accepted_paths(rel);
}

/// What is sent is accepted by the peers that receive it, as far as its version and path go, and
/// the path leads below the synchronised directory.
pub proof fn law_sent_updates_are_accepted(run: SendView, u: UpdateView)
    requires
        run.well_formed(),
        run.root.len() > 0,
        run.asks() == SendActionView::Broadcast(u),
    ensures
        u.well_formed(),
        path_components(joined(run.root, u.body.path())) == path_components(run.root) + split_text(
            u.body.path(),
            '/',
        ),
{
    crate::message::law_accepted_paths(run.rel);
    law_joined_stays_below(run.root, run.rel);
}

impl Sending {
    #[verifier::type_invariant]
    spec fn inv(self) -> bool {
        self@.well_formed()
    }

    /// Starts to send the file `rel` below the directory `root`.
    pub fn start(root: &str, rel: &str, from: PeerRef) -> (run: Sending)
        ensures
            run@ == ({
                let blank = SendView {
                    root: root@,
                    rel: rel@,
                    from: from.id@,
                    phase: SendPhaseView::Finished,
                };
                blank.at(blank.found(Seq::empty()))
            }),
    {
        let seen: Vec<Probe> = Vec::new();
        let phase = match resolve_safe_path(root, rel, seen.as_slice()) {
            WalkStep::Look(_) => SendPhase::Resolving(seen),
            WalkStep::Rejected(e) => SendPhase::Failed(SendError::Resolve(e)),
            WalkStep::Resolved(_) => {
                proof {
                    assert(false);
                }
                SendPhase::Finished
            },
        };
        proof {
            assert(seen@ =~= Seq::<Probe>::empty());
        }
        Sending { root: root.to_owned(), rel: rel.to_owned(), from, phase }
    }

    fn target(&self) -> (p: String)
        ensures
            p@ == self@.target(),
    {
        join_path(self.root.as_str(), self.rel.as_str())
    }

    /// What is to be done next.
    pub fn action(&self) -> (a: SendAction)
        ensures
            a@ == self@.asks(),
            self@.well_formed(),
    {
        proof {
            use_type_invariant(self);
        }
        match &self.phase {
            SendPhase::Resolving(seen) => {
                match resolve_safe_path(self.root.as_str(), self.rel.as_str(), seen.as_slice()) {
                    WalkStep::Look(p) => SendAction::Look(p),
                    _ => {
                        proof {
                            assert(false);
                        }
                        SendAction::Finished
                    },
                }
            },
            SendPhase::Statting => SendAction::Stat(self.target()),
            SendPhase::Reading => SendAction::Read(self.target()),
            SendPhase::Storing(b) => SendAction::Store(to_vec(b.as_slice())),
            SendPhase::Sending(h) => {
                match SyncUpdate::upsert(self.rel.clone(), *h, BlobFormat::Raw, self.from) {
                    Ok(update) => SendAction::Broadcast(update),
                    Err(_) => {
                        proof {
                            assert(false);
                        }
                        SendAction::Finished
                    },
                }
            },
            SendPhase::Finished => SendAction::Finished,
            SendPhase::Failed(e) => SendAction::Failed(copy_error(e)),
        }
    }

    /// Goes on with what came of the last action. An event that does not answer it changes
    /// nothing.
    pub fn step(&mut self, state: &mut SyncState, ev: SendEvent)
        ensures
            final(self)@ == old(self)@.at(old(self)@.next(old(state)@, ev@).0),
            final(state)@ == old(self)@.next(old(state)@, ev@).1,
    {
        proof {
            use_type_invariant(&*self);
        }
        let ghost run = self@;
        let mut phase: SendPhase = SendPhase::Failed(SendError::TooLarge(0));
        std::mem::swap(&mut phase, &mut self.phase);
        let next = match (phase, ev) {
            (SendPhase::Resolving(seen), SendEvent::Found(p)) => {
                let mut seen: Vec<Probe> = seen;
                seen.push(p);
                match resolve_safe_path(self.root.as_str(), self.rel.as_str(), seen.as_slice()) {
                    WalkStep::Look(_) => SendPhase::Resolving(seen),
                    WalkStep::Rejected(e) => SendPhase::Failed(SendError::Resolve(e)),
                    WalkStep::Resolved(_) => SendPhase::Statting,
                }
            },
            (SendPhase::Statting, SendEvent::Metadata { is_file, len }) => {
                if !is_file {
                    SendPhase::Failed(SendError::NotAFile(self.target()))
                } else if len > MAX_FILE_SIZE {
                    SendPhase::Failed(SendError::TooLarge(len))
                } else {
                    SendPhase::Reading
                }
            },
            (SendPhase::Reading, SendEvent::Bytes(b)) => SendPhase::Storing(b),
            (SendPhase::Storing(_), SendEvent::Stored(h)) => SendPhase::Sending(h),
            (SendPhase::Sending(h), SendEvent::Done) => {
                state.mark_written(self.rel.as_str(), h);
                SendPhase::Finished
            },
            (SendPhase::Statting, SendEvent::Failed(e)) => SendPhase::Failed(SendError::Io(e)),
            (SendPhase::Reading, SendEvent::Failed(e)) => SendPhase::Failed(SendError::Io(e)),
            (SendPhase::Storing(_), SendEvent::Failed(e)) => SendPhase::Failed(SendError::Io(e)),
            (SendPhase::Sending(_), SendEvent::Failed(e)) => SendPhase::Failed(SendError::Io(e)),
            (other, _) => other,
        };
        self.phase = next;
    }
}

fn copy_error(e: &SendError) -> (r: SendError)
    ensures
        r@ == e@,
{
    match e {
        SendError::Resolve(e) => SendError::Resolve(
            ResolveError { problem: e.problem, at: e.at.clone(), reason: e.reason.clone() },
        ),
        SendError::NotAFile(p) => SendError::NotAFile(p.clone()),
        SendError::TooLarge(n) => SendError::TooLarge(*n),
        SendError::Io(e) => SendError::Io(e.clone()),
    }
}

/// The update that announces a removal; `None` where the removal of the same path was announced
/// a moment ago. `now` is the present time in milliseconds.
pub fn broadcast_tombstone(
    state: &mut SyncState,
    rel: &str,
    self_peer: PeerRef,
    now: u64,
) -> (r: Result<Option<SyncUpdate>, PathError>)
    ensures
        r matches Err(e) ==> Some(e.problem) == path_problem(rel@) && e.path@ == rel@
            && final(state)@ == old(state)@,
        r matches Ok(None) ==> path_problem(rel@) is None && old(state)@.recently_announced(
            rel@,
            now,
        ) && final(state)@ == old(state)@,
        r matches Ok(Some(u)) ==> path_problem(rel@) is None && !old(state)@.recently_announced(
            rel@,
            now,
        ) && final(state)@ == old(state)@.announced(rel@, now) && u@ == (UpdateView {
            version: SYNC_UPDATE_VERSION,
            body: BodyView::Tombstone { path: rel@, from: self_peer.id@ },
        }),
{
    match validate_relative_path(rel) {
        Err(e) => return Err(e),
        Ok(()) => {},
    }
    if !state.admit_tombstone(rel, now) {
        return Ok(None);
    }
    match SyncUpdate::tombstone(rel.to_owned(), self_peer) {
        Ok(u) => Ok(Some(u)),
        Err(e) => Err(e),
    }
}

/// Events and actions as mathematical values hold all that they hold: no byte and no character is
/// left out.
pub proof fn law_send_values(
    b: Vec<u8>,
    e: String,
    p: Probe,
    h: BlobHash,
    is_file: bool,
    len: u64,
    u: SyncUpdate,
    n: ResolveError,
)
    ensures
        SendEvent::Found(p)@ == SendEventView::Found(p),
        (SendEvent::Metadata { is_file, len })@ == (SendEventView::Metadata { is_file, len }),
        SendEvent::Bytes(b)@ == SendEventView::Bytes(b@),
        SendEvent::Stored(h)@ == SendEventView::Stored(h),
        SendEvent::Done@ == SendEventView::Done,
        SendEvent::Failed(e)@ == SendEventView::Failed(e@),
        SendAction::Look(e)@ == SendActionView::Look(e@),
        SendAction::Stat(e)@ == SendActionView::Stat(e@),
        SendAction::Read(e)@ == SendActionView::Read(e@),
        SendAction::Store(b)@ == SendActionView::Store(b@),
        SendAction::Broadcast(u)@ == SendActionView::Broadcast(u@),
        SendAction::Finished@ == SendActionView::Finished,
        SendAction::Failed(SendError::NotAFile(e))@ == SendActionView::Failed(
            SendProblem::NotAFile(e@),
        ),
        SendAction::Failed(SendError::TooLarge(len))@ == SendActionView::Failed(
            SendProblem::TooLarge(len),
        ),
        SendAction::Failed(SendError::Io(e))@ == SendActionView::Failed(SendProblem::Io(e@)),
        SendAction::Failed(SendError::Resolve(n))@ == SendActionView::Failed(
            SendProblem::Resolve(n.problem, n.at@, n.reason@),
        ),
        WalkStep::Look(e)@ == WalkView::Look(e@),
        WalkStep::Resolved(e)@ == WalkView::Resolved(e@),
        WalkStep::Rejected(n)@ == WalkView::Rejected(n.problem, n.at@, n.reason@),
{
}

} // verus!
