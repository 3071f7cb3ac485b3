//! The record of received changes: one file for each.
use crate::atomic_write::AtomicWrite;
use crate::digest::{blake3_digest, blake3_hash, digest_prefix};
use crate::hex::{hex_text, is_lower_hex, law_hex_text};
use crate::path_text::{
    is_name, is_safe_relative, join_path, joined, law_joined_stays_below, lemma_join_split,
    path_components,
};
use crate::text::{
    chars_of, decimal, decimal_text, ends_with_text, join_text, matches_at, padded, padded_text,
    signed_decimal, signed_text, string_of, text_ends_with, texts,
};
use vstd::prelude::*;
use vstd::seq_lib::group_to_multiset_ensures;
use vstd::utf8::encode_utf8;

verus! {

/// The version of the record format.
pub const PENDING_SCHEMA_VERSION: u32 = 1;

/// A received change.
#[derive(Clone, Debug, PartialEq, Eq)]
pub enum PendingEntry {
    /// A file was created or changed.
    Upsert {
        /// The version of the record format.
        schema_version: u32,
        /// The path of the file in the synchronised directory.
        rel_path: String,
        /// When the change was received, in seconds since 1970.
        received_at: i64,
        /// The peer that it came from.
        source_peer: String,
        /// The hash of the contents.
        blob_hash: String,
        /// The size of the contents.
        bytes: u64,
    },
    /// A file was removed.
    Tombstone {
        /// The version of the record format.
        schema_version: u32,
        /// The path of the file in the synchronised directory.
        rel_path: String,
        /// When the change was received, in seconds since 1970.
        received_at: i64,
        /// The peer that it came from.
        source_peer: String,
    },
}

/// A record as a mathematical value.
pub enum EntryView {
    Upsert {
        schema_version: u32,
        rel_path: Seq<char>,
        received_at: i64,
        source_peer: Seq<char>,
        blob_hash: Seq<char>,
        bytes: u64,
    },
    Tombstone {
        schema_version: u32,
        rel_path: Seq<char>,
        received_at: i64,
        source_peer: Seq<char>,
    },
}

impl View for PendingEntry {
    type V = EntryView;

    open spec fn view(&self) -> EntryView {
        match self {
            PendingEntry::Upsert {
                schema_version,
                rel_path,
                received_at,
                source_peer,
                blob_hash,
                bytes,
            } => EntryView::Upsert {
                schema_version: *schema_version,
                rel_path: rel_path@,
                received_at: *received_at,
                source_peer: source_peer@,
                blob_hash: blob_hash@,
                bytes: *bytes,
            },
            PendingEntry::Tombstone { schema_version, rel_path, received_at, source_peer } =>
                EntryView::Tombstone {
                schema_version: *schema_version,
                rel_path: rel_path@,
                received_at: *received_at,
                source_peer: source_peer@,
            },
        }
    }
}

impl EntryView {
    /// The path of the file.
    pub open spec fn rel_path(self) -> Seq<char> {
        match self {
            EntryView::Upsert { rel_path, .. } => rel_path,
            EntryView::Tombstone { rel_path, .. } => rel_path,
        }
    }

    /// When the change was received.
    pub open spec fn received_at(self) -> i64 {
        match self {
            EntryView::Upsert { received_at, .. } => received_at,
            EntryView::Tombstone { received_at, .. } => received_at,
        }
    }

    /// The peer that it came from.
    pub open spec fn source_peer(self) -> Seq<char> {
        match self {
            EntryView::Upsert { source_peer, .. } => source_peer,
            EntryView::Tombstone { source_peer, .. } => source_peer,
        }
    }
}

impl PendingEntry {
    /// The path of the file.
    pub fn rel_path(&self) -> (r: &str)
        ensures
            r@ == self@.rel_path(),
    {
        match self {
            PendingEntry::Upsert { rel_path, .. } => rel_path.as_str(),
            PendingEntry::Tombstone { rel_path, .. } => rel_path.as_str(),
        }
    }

    /// When the change was received, in seconds since 1970.
    pub fn received_at(&self) -> (r: i64)
        ensures
            r == self@.received_at(),
    {
        match self {
            PendingEntry::Upsert { received_at, .. } => *received_at,
            PendingEntry::Tombstone { received_at, .. } => *received_at,
        }
    }

    /// The peer that it came from.
    pub fn source_peer(&self) -> (r: &str)
        ensures
            r@ == self@.source_peer(),
    {
        match self {
            PendingEntry::Upsert { source_peer, .. } => source_peer.as_str(),
            PendingEntry::Tombstone { source_peer, .. } => source_peer.as_str(),
        }
    }
}

/// The first eight characters, or all where there are fewer.
pub open spec fn first_eight(s: Seq<char>) -> Seq<char> {
    if s.len() <= 8 {
        s
    } else {
        s.subrange(0, 8)
    }
}

/// The nanoseconds of a time with nine digits.
pub open spec fn nanos_text(nanos: u32) -> Seq<char> {
    if nanos < 1000000000 {
        padded_text(nanos as nat, 9)
    } else {
        decimal_text(nanos as nat)
    }
}

/// The name of a record: when the change was received, the beginning of the peer, the beginning
/// of the hash of the path, and the nanoseconds of the time of recording.
pub open spec fn record_name(e: EntryView, nanos: u32) -> Seq<char> {
    record_name_of(e, blake3_digest(encode_utf8(e.rel_path())), nanos)
}

/// The name of a record whose path has the given hash.
pub open spec fn record_name_of(e: EntryView, rel_hash: Seq<u8>, nanos: u32) -> Seq<char> {
    signed_text(e.received_at() as int).push('-') + first_eight(e.source_peer()).push('-')
        + hex_text(rel_hash.subrange(0, 4)).push('-') + nanos_text(nanos) + ".json"@
}

/// The names that records have: they end with `.json`, with something in front of it, and do not
/// begin with a dot.
pub open spec fn is_record_name(name: Seq<char>) -> bool {
    name.len() > 5 && name[0] != '.' && ends_with_text(name, ".json"@)
}

/// The name of a record whose path has the given hash.
pub fn record_file_name_of(entry: &PendingEntry, rel_hash: &[u8; 32], nanos: u32) -> (r: String)
    ensures
        r@ == record_name_of(entry@, rel_hash@, nanos),
{
    let mut out: String = signed_decimal(entry.received_at());
    out.push('-');
    let peer = chars_of(entry.source_peer());
    let n: usize = if peer.len() <= 8 {
        peer.len()
    } else {
        8
    };
    let short = string_of(peer.as_slice(), 0, n);
    proof {
        assert(short@ =~= first_eight(entry@.source_peer()));
    }
    out.append(short.as_str());
    out.push('-');
    let hash = digest_prefix(rel_hash, 4);
    out.append(hash.as_str());
    out.push('-');
    let digits = if nanos < 1000000000 {
        padded(nanos as u64, 9)
    } else {
        decimal(nanos as u64)
    };
    out.append(digits.as_str());
    out.append(".json");
    proof {
        assert(out@ =~= record_name_of(entry@, rel_hash@, nanos));
    }
    out
}

/// The first number from `nanos` on with which the name of the record is not taken; none where
/// all of them are.
pub open spec fn first_free(e: EntryView, nanos: u32, taken: Seq<Seq<char>>) -> Option<u32>
    decreases u32::MAX - nanos,
{
    if !taken.contains(record_name(e, nanos)) {
        Some(nanos)
    } else if nanos == u32::MAX {
        None
    } else {
        first_free(e, (nanos + 1) as u32, taken)
    }
}

fn holds_text(list: &Vec<String>, s: &str) -> (r: bool)
    ensures
        r == texts(list@).contains(s@),
{
    let mut i: usize = 0;
    while i < list.len()
        invariant
            i <= list@.len(),
            forall|j: int| 0 <= j < i ==> (#[trigger] list@[j])@ != s@,
        decreases list@.len() - i,
    {
        if *list[i].as_str() == *s {
            assert(texts(list@)[i as int] == s@);
            return true;
        }
        i += 1;
    }
    proof {
        if texts(list@).contains(s@) {
            let j = choose|j: int| 0 <= j < texts(list@).len() && texts(list@)[j] == s@;
            assert(list@[j]@ == s@);
        }
    }
    false
}

/// The file that records a change: `body` is the record as it is written out, `nanos` the
/// nanoseconds of the present time, and `taken` the names in the directory of the records. The
/// nanoseconds in the name are counted up past the names that are taken.
pub fn record_receive(
    root: &str,
    repo_hash: &str,
    entry: &PendingEntry,
    nanos: u32,
    taken: &Vec<String>,
    body: Vec<u8>,
) -> (r: Option<AtomicWrite>)
    ensures
        match first_free(entry@, nanos, texts(taken@)) {
            None => r is None,
            Some(n) => r matches Some(w) && w.dir@ == joined(root@, repo_hash@) && !w.private
                && w.prefix@ == ".pending."@ && w.target@ == joined(
                joined(root@, repo_hash@),
                record_name(entry@, n),
            ) && w.content == body,
        },
{
    let dir = join_path(root, repo_hash);
    let rel_hash = blake3_hash(entry.rel_path().as_bytes());
    let mut n: u32 = nanos;
    let mut name: String = record_file_name_of(entry, &rel_hash, n);
    while holds_text(taken, name.as_str())
        invariant
            rel_hash@ == blake3_digest(encode_utf8(entry@.rel_path())),
            name@ == record_name(entry@, n),
            first_free(entry@, nanos, texts(taken@)) == first_free(entry@, n, texts(taken@)),
        decreases u32::MAX - n,
    {
        if n == u32::MAX {
            return None;
        }
        n += 1;
        name = record_file_name_of(entry, &rel_hash, n);
    }
    let target = join_path(dir.as_str(), name.as_str());
    Some(AtomicWrite { dir, private: false, prefix: ".pending.", target, content: body })
}

/// Whether a file holds a record, by its name.
pub fn names_record(name: &str) -> (r: bool)
    ensures
        r == is_record_name(name@),
{
    let chars = chars_of(name);
    let end = chars_of(".json");
    chars.len() > 5 && chars[0] != '.' && text_ends_with(chars.as_slice(), end.as_slice())
}

proof fn lemma_decimal_digits(n: nat)
    ensures
        decimal_text(n).len() > 0,
        forall|i: int|
            0 <= i < decimal_text(n).len() ==> '0' <= #[trigger] decimal_text(n)[i]
                && decimal_text(n)[i] <= '9',
    decreases n,
{
    if n >= 10 {
        lemma_decimal_digits(n / 10);
    }
}

proof fn lemma_padded(n: nat, m: nat, width: nat)
    ensures
        padded_text(n, width).len() == width,
        padded_text(n, width) == padded_text(m, width) && n < pow10(width) && m < pow10(width)
            ==> n == m,
    decreases width,
{
    if width > 0 {
        let w = (width - 1) as nat;
        lemma_padded(n / 10, m / 10, w);
        if padded_text(n, width) == padded_text(m, width) && n < pow10(width) && m < pow10(width) {
            let a = padded_text(n, width);
            let b = padded_text(m, width);
            assert(a.drop_last() =~= padded_text(n / 10, w));
            assert(b.drop_last() =~= padded_text(m / 10, w));
            assert(a.last() == crate::text::digit_char(n));
            assert(b.last() == crate::text::digit_char(m));
            assert(n % 10 == m % 10);
            assert(n / 10 < pow10(w) && m / 10 < pow10(w));
        }
    }
}

/// Ten to the power of `n`.
pub open spec fn pow10(n: nat) -> nat
    decreases n,
{
    if n == 0 {
        1
    } else {
        10 * pow10((n - 1) as nat)
    }
}

/// Records that are made at different nanoseconds have different names, whatever they record.
pub proof fn law_record_names_differ(e: EntryView, f: EntryView, a: u32, b: u32)
    requires
        a < 1000000000,
        b < 1000000000,
        a != b,
    ensures
        record_name(e, a) != record_name(f, b),
{
    lemma_padded(a as nat, b as nat, 9);
    lemma_padded(b as nat, a as nat, 9);
    assert(pow10(9) == 1000000000) by {
        reveal_with_fuel(pow10, 10);
    }
    let x = record_name(e, a);
    let y = record_name(f, b);
    let end = ".json"@.len() as int;
    let n = x.len() as int;
    let m = y.len() as int;
    assert(x.subrange(n - end - 9, n - end) =~= padded_text(a as nat, 9));
    assert(y.subrange(m - end - 9, m - end) =~= padded_text(b as nat, 9));
}

/// The name of a record is not taken, so that no file is replaced, and it is the one with the
/// given nanoseconds where that is not taken.
pub proof fn law_record_replaces_nothing(e: EntryView, nanos: u32, taken: Seq<Seq<char>>)
    ensures
        first_free(e, nanos, taken) matches Some(n) ==> nanos <= n && !taken.contains(
            record_name(e, n),
        ),
        !taken.contains(record_name(e, nanos)) ==> first_free(e, nanos, taken) == Some(nanos),
        first_free(e, nanos, taken) is None ==> forall|n: u32|
            nanos <= n ==> taken.contains(#[trigger] record_name(e, n)),
    decreases u32::MAX - nanos,
{
    if taken.contains(record_name(e, nanos)) && nanos < u32::MAX {
        law_record_replaces_nothing(e, (nanos + 1) as u32, taken);
    }
}

/// What is recorded is found again: every record has a name that records have.
pub proof fn law_records_are_found(e: EntryView, nanos: u32)
    ensures
        is_record_name(record_name(e, nanos)),
{
    let name = record_name(e, nanos);
    let time = signed_text(e.received_at() as int);
    if e.received_at() < 0 {
        lemma_decimal_digits((-(e.received_at() as int)) as nat);
    } else {
        lemma_decimal_digits(e.received_at() as nat);
    }
    reveal_strlit(".json");
    assert(name[0] == time[0]);
    let n = name.len() as int;
    assert(name.subrange(n - 5, n) =~= ".json"@);
    assert(matches_at(name, n - ".json"@.len(), ".json"@));
}

proof fn lemma_padded_digits(n: nat, width: nat)
    ensures
        forall|i: int|
            0 <= i < padded_text(n, width).len() ==> '0' <= #[trigger] padded_text(n, width)[i]
                && padded_text(n, width)[i] <= '9',
    decreases width,
{
    if width > 0 {
        let w = (width - 1) as nat;
        lemma_padded_digits(n / 10, w);
        assert(padded_text(n, width) == padded_text(n / 10, w).push(crate::text::digit_char(n)));
    }
}

proof fn lemma_record_name_is_plain(e: EntryView, n: u32)
    requires
        !first_eight(e.source_peer()).contains('/'),
        !first_eight(e.source_peer()).contains('\\'),
    ensures
        !record_name(e, n).contains('/'),
        !record_name(e, n).contains('\\'),
{
    let name = record_name(e, n);
    let time = signed_text(e.received_at() as int);
    let peer = first_eight(e.source_peer());
    let head = blake3_digest(encode_utf8(e.rel_path())).subrange(0, 4);
    let hash = hex_text(head);
    let digits = nanos_text(n);
    if e.received_at() < 0 {
        lemma_decimal_digits((-(e.received_at() as int)) as nat);
    } else {
        lemma_decimal_digits(e.received_at() as nat);
    }
    lemma_padded_digits(n as nat, 9);
    lemma_decimal_digits(n as nat);
    law_hex_text(head, head);
    reveal_strlit(".json");
    assert forall|i: int| 0 <= i < name.len() implies name[i] != '/' && name[i] != '\\' by {
        let a = time.len() as int;
        let b = a + 1 + peer.len();
        let c = b + 1 + hash.len();
        let d = c + 1 + digits.len();
        if i < a {
            assert(name[i] == time[i]);
        } else if i == a {
        } else if i < b {
            assert(name[i] == peer[i - a - 1]);
            assert(peer.contains(peer[i - a - 1]));
        } else if i == b {
        } else if i < c {
            assert(name[i] == hash[i - b - 1]);
            assert(is_lower_hex(hash[i - b - 1]));
        } else if i == c {
        } else if i < d {
            assert(name[i] == digits[i - c - 1]);
        } else {
            assert(name[i] == ".json"@[i - d]);
        }
    }
}

/// A record is a file in the directory of its own repository: the records of others are not
/// touched.
pub proof fn law_record_stays_in_its_directory(
    root: Seq<char>,
    repo_hash: Seq<char>,
    e: EntryView,
    n: u32,
)
    requires
        root.len() > 0,
        is_name(repo_hash),
        !repo_hash.contains('/'),
        !repo_hash.contains('\\'),
        !first_eight(e.source_peer()).contains('/'),
        !first_eight(e.source_peer()).contains('\\'),
    ensures
        path_components(joined(joined(root, repo_hash), record_name(e, n))) == path_components(
            joined(root, repo_hash),
        ).push(record_name(e, n)),
        path_components(joined(root, repo_hash)) == path_components(root).push(repo_hash),
{
    let name = record_name(e, n);
    lemma_record_name_is_plain(e, n);
    law_records_are_found(e, n);
    lemma_join_split(seq![name], '/');
    lemma_join_split(seq![repo_hash], '/');
    assert(join_text(seq![name], '/') =~= name);
    assert(join_text(seq![repo_hash], '/') =~= repo_hash);
    assert(is_safe_relative(name));
    assert(is_safe_relative(repo_hash));
    law_joined_stays_below(root, repo_hash);
    assert(joined(root, repo_hash).len() > 0);
    law_joined_stays_below(joined(root, repo_hash), name);
    assert(path_components(root) + seq![repo_hash] =~= path_components(root).push(repo_hash));
    let dir = path_components(joined(root, repo_hash));
    assert(dir + seq![name] =~= dir.push(name));
}

/// The records received at one time, in their order.
pub open spec fn received_when(entries: Seq<PendingEntry>, t: i64) -> Seq<PendingEntry> {
    entries.filter(|e: PendingEntry| e@.received_at() == t)
}

/// Later ones come first.
pub open spec fn newest_first(entries: Seq<PendingEntry>) -> bool {
    forall|i: int, j: int|
        0 <= i < j < entries.len() ==> (#[trigger] entries[i])@.received_at() >= (
        #[trigger] entries[j])@.received_at()
}

proof fn lemma_none_received(entries: Seq<PendingEntry>, t: i64)
    requires
        forall|i: int| 0 <= i < entries.len() ==> (#[trigger] entries[i])@.received_at() != t,
    ensures
        received_when(entries, t) == Seq::<PendingEntry>::empty(),
    decreases entries.len(),
{
    reveal(Seq::filter);
    if entries.len() > 0 {
        let front = entries.drop_last();
        assert forall|i: int| 0 <= i < front.len() implies (#[trigger] front[i])@.received_at()
            != t by {
            assert(front[i] == entries[i]);
        }
        lemma_none_received(front, t);
        assert(entries.last() == entries[entries.len() - 1]);
    }
}

proof fn lemma_insert_received(front: Seq<PendingEntry>, back: Seq<PendingEntry>, e: PendingEntry)
    requires
        forall|i: int|
            0 <= i < back.len() ==> (#[trigger] back[i])@.received_at() < e@.received_at(),
    ensures
        forall|t: i64|
            #![trigger received_when(front + seq![e] + back, t)]
            received_when(front + seq![e] + back, t) == (if t == e@.received_at() {
                received_when(front + back, t).push(e)
            } else {
                received_when(front + back, t)
            }),
{
    reveal(Seq::filter);
    assert forall|t: i64|
        #![trigger received_when(front + seq![e] + back, t)]
        received_when(front + seq![e] + back, t) == (if t == e@.received_at() {
            received_when(front + back, t).push(e)
        } else {
            received_when(front + back, t)
        }) by {
        let p = |x: PendingEntry| x@.received_at() == t;
        Seq::filter_distributes_over_add(front + seq![e], back, p);
        Seq::filter_distributes_over_add(front, seq![e], p);
        Seq::filter_distributes_over_add(front, back, p);
        assert(seq![e].drop_last() =~= Seq::<PendingEntry>::empty());
        assert(seq![e].last() == e);
        assert(seq![e].drop_last().filter(p) =~= Seq::<PendingEntry>::empty());
        if t == e@.received_at() {
            lemma_none_received(back, t);
            assert(seq![e].filter(p) =~= seq![e]);
            assert(received_when(front + seq![e] + back, t) =~= received_when(
                front + back,
                t,
            ).push(e));
        } else {
            assert(seq![e].filter(p) =~= Seq::<PendingEntry>::empty());
            assert(received_when(front + seq![e] + back, t) =~= received_when(front + back, t));
        }
    }
}

/// `names` are the names of the files in a directory of records, in some order; each name stands
/// for the record in its file.
pub open spec fn lists(names: Seq<Seq<char>>, dir: Map<Seq<char>, PendingEntry>) -> bool {
    &&& names.no_duplicates()
    &&& forall|name: Seq<char>| #[trigger] names.contains(name) <==> dir.dom().contains(name)
}

/// The records that are found under these names.
pub open spec fn read_back(names: Seq<Seq<char>>, dir: Map<Seq<char>, PendingEntry>) -> Seq<
    PendingEntry,
>
    decreases names.len(),
{
    if names.len() == 0 {
        Seq::empty()
    } else {
        let before = read_back(names.drop_last(), dir);
        if is_record_name(names.last()) {
            before.push(dir[names.last()])
        } else {
            before
        }
    }
}

proof fn lemma_read_without(names: Seq<Seq<char>>, dir: Map<Seq<char>, PendingEntry>, i: int)
    requires
        0 <= i < names.len(),
    ensures
        read_back(names, dir).to_multiset() == if is_record_name(names[i]) {
            read_back(names.remove(i), dir).to_multiset().insert(dir[names[i]])
        } else {
            read_back(names.remove(i), dir).to_multiset()
        },
    decreases names.len(),
{
    broadcast use group_to_multiset_ensures;

    let front = names.drop_last();
    if i == names.len() - 1 {
        assert(names.remove(i) =~= front);
    } else {
        lemma_read_without(front, dir, i);
        let rest = names.remove(i);
        assert(rest.drop_last() =~= front.remove(i));
        assert(rest.last() == names.last());
        assert(front[i] == names[i]);
        assert(read_back(names, dir).to_multiset() =~= if is_record_name(names[i]) {
            read_back(rest, dir).to_multiset().insert(dir[names[i]])
        } else {
            read_back(rest, dir).to_multiset()
        });
    }
}

proof fn lemma_order_of_names(
    a: Seq<Seq<char>>,
    b: Seq<Seq<char>>,
    dir: Map<Seq<char>, PendingEntry>,
    more: Map<Seq<char>, PendingEntry>,
)
    requires
        a.no_duplicates(),
        b.no_duplicates(),
        forall|name: Seq<char>| #[trigger] a.contains(name) <==> b.contains(name),
        forall|name: Seq<char>| #[trigger] a.contains(name) ==> dir[name] == more[name],
    ensures
        read_back(a, dir).to_multiset() == read_back(b, more).to_multiset(),
    decreases a.len(),
{
    if a.len() == 0 {
        if b.len() > 0 {
            assert(b.contains(b[0]));
            assert(a.contains(b[0]));
        }
        assert(a =~= b);
        assert(read_back(a, dir) =~= read_back(b, more));
    } else {
        let x = a.last();
        assert(a[a.len() - 1] == x && a.contains(x));
        let j = choose|j: int| 0 <= j < b.len() && b[j] == x;
        let fewer = b.remove(j);
        let front = a.drop_last();
        assert forall|name: Seq<char>| #[trigger] front.contains(name) implies fewer.contains(name)
            && a.contains(name) by {
            let i = choose|i: int| 0 <= i < front.len() && front[i] == name;
            assert(a[i] == name && a.contains(name));
            let k = choose|k: int| 0 <= k < b.len() && b[k] == name;
            assert(k != j);
            if k < j {
                assert(fewer[k] == name);
            } else {
                assert(fewer[k - 1] == name);
            }
        }
        assert forall|name: Seq<char>| #[trigger] fewer.contains(name) implies front.contains(
            name,
        ) by {
            let k = choose|k: int| 0 <= k < fewer.len() && fewer[k] == name;
            let at = if k < j {
                k
            } else {
                k + 1
            };
            assert(b[at] == name && b.contains(name));
            assert(a.contains(name));
            let i = choose|i: int| 0 <= i < a.len() && a[i] == name;
            assert(i != a.len() - 1);
            assert(front[i] == name);
        }
        assert(fewer.no_duplicates()) by {
            assert forall|p: int, q: int|
                0 <= p < fewer.len() && 0 <= q < fewer.len() && p != q implies fewer[p]
                != fewer[q] by {
                let s = if p < j {
                    p
                } else {
                    p + 1
                };
                let t = if q < j {
                    q
                } else {
                    q + 1
                };
                assert(b[s] != b[t]);
            }
        }
        lemma_order_of_names(front, fewer, dir, more);
        lemma_read_without(a, dir, a.len() - 1);
        assert(a.remove(a.len() - 1) =~= front);
        lemma_read_without(b, more, j);
    }
}

/// A change that is recorded is listed from then on beside what was listed before, and every file
/// that was there is still there and holds what it held. `before` and `after` are the names in
/// the directory, in whatever order they are found.
pub proof fn law_recorded_change_is_listed(
    dir: Map<Seq<char>, PendingEntry>,
    before: Seq<Seq<char>>,
    after: Seq<Seq<char>>,
    taken: Seq<Seq<char>>,
    e: PendingEntry,
    nanos: u32,
    n: u32,
)
    requires
        lists(before, dir),
        forall|name: Seq<char>| #[trigger] dir.dom().contains(name) ==> taken.contains(name),
        first_free(e@, nanos, taken) == Some(n),
        lists(after, dir.insert(record_name(e@, n), e)),
    ensures
        read_back(after, dir.insert(record_name(e@, n), e)).to_multiset() == read_back(
            before,
            dir,
        ).to_multiset().insert(e),
        forall|name: Seq<char>| #[trigger]
            dir.dom().contains(name) ==> name != record_name(e@, n) && dir.insert(
                record_name(e@, n),
                e,
            )[name] == dir[name],
{
    let name = record_name(e@, n);
    let more = dir.insert(name, e);
    law_record_replaces_nothing(e@, nanos, taken);
    law_records_are_found(e@, n);
    assert(more.dom().contains(name));
    assert(after.contains(name));
    let i = choose|i: int| 0 <= i < after.len() && after[i] == name;
    let rest = after.remove(i);
    assert forall|p: int, q: int|
        0 <= p < rest.len() && 0 <= q < rest.len() && p != q implies rest[p] != rest[q] by {
        let s = if p < i {
            p
        } else {
            p + 1
        };
        let t = if q < i {
            q
        } else {
            q + 1
        };
        assert(after[s] != after[t]);
    }
    assert forall|x: Seq<char>| #[trigger] before.contains(x) implies rest.contains(x) && dir[x]
        == more[x] by {
        assert(dir.dom().contains(x));
        assert(more.dom().contains(x));
        assert(after.contains(x));
        let k = choose|k: int| 0 <= k < after.len() && after[k] == x;
        assert(k != i);
        if k < i {
            assert(rest[k] == x);
        } else {
            assert(rest[k - 1] == x);
        }
    }
    assert forall|x: Seq<char>| #[trigger] rest.contains(x) implies before.contains(x) by {
        let k = choose|k: int| 0 <= k < rest.len() && rest[k] == x;
        let at = if k < i {
            k
        } else {
            k + 1
        };
        assert(after[at] == x && at != i && after[at] != after[i]);
        assert(after.contains(x));
        assert(more.dom().contains(x));
        assert(dir.dom().contains(x));
    }
    lemma_order_of_names(before, rest, dir, more);
    lemma_read_without(after, more, i);
}

/// The records, later ones first; those received at the same time stay in order.
pub fn list_pending(entries: Vec<PendingEntry>) -> (out: Vec<PendingEntry>)
    ensures
        newest_first(out@),
        forall|t: i64| #[trigger] received_when(out@, t) == received_when(entries@, t),
        out@.to_multiset() == entries@.to_multiset(),
{
    let ghost given = entries@;
    let mut rest: Vec<PendingEntry> = entries;
    let mut out: Vec<PendingEntry> = Vec::new();
    let ghost mut done: int = 0;
    proof {
        assert(given.take(0) =~= out@);
        assert(rest@ =~= given.skip(0));
    }
    while rest.len() > 0
        invariant
            0 <= done <= given.len(),
            rest@ == given.skip(done),
            out@.to_multiset() == given.take(done).to_multiset(),
            newest_first(out@),
            forall|t: i64|
                #[trigger] received_when(out@, t) == received_when(given.take(done), t),
        decreases rest@.len(),
    {
        let e = rest.remove(0);
        proof {
            assert(e == given[done]);
            assert(rest@ =~= given.skip(done + 1));
        }
        let mut at: usize = 0;
        while at < out.len() && out[at].received_at() >= e.received_at()
            invariant
                at <= out@.len(),
                forall|i: int|
                    0 <= i < at ==> (#[trigger] out@[i])@.received_at() >= e@.received_at(),
            decreases out@.len() - at,
        {
            at += 1;
        }
        let ghost before = out@;
        let ghost front = before.take(at as int);
        let ghost back = before.skip(at as int);
        proof {
            assert forall|i: int| 0 <= i < back.len() implies (#[trigger] back[i])@.received_at()
                < e@.received_at() by {
                assert(back[i] == before[at + i]);
                assert(before[at as int]@.received_at() >= before[at + i]@.received_at());
            }
            lemma_insert_received(front, back, e);
        }
        out.insert(at, e);
        proof {
            assert(front + back =~= before);
            assert(out@ =~= front + seq![e] + back);
            let now = given.take(done + 1);
            assert(now =~= given.take(done).push(e));
            assert(out@.to_multiset() =~= now.to_multiset()) by {
                broadcast use group_to_multiset_ensures;

                assert(out@[at as int] == e);
                assert(out@.remove(at as int) =~= before);
                assert(out@.to_multiset().count(e) > 0);
                assert(out@.remove(at as int).to_multiset() =~= out@.to_multiset().remove(e));
                assert(out@.to_multiset() =~= before.to_multiset().insert(e));
            }
            assert forall|t: i64| #[trigger] received_when(out@, t) == received_when(now, t) by {
                let p = |x: PendingEntry| x@.received_at() == t;
                assert(received_when(before, t) == received_when(given.take(done), t));
                reveal(Seq::filter);
                assert(now.drop_last() =~= given.take(done));
                assert(now.last() == e);
                assert(received_when(front + seq![e] + back, t) == received_when(out@, t));
            }
            assert forall|i: int, j: int| 0 <= i < j < out@.len() implies (
            #[trigger] out@[i])@.received_at() >= (#[trigger] out@[j])@.received_at() by {
                let a = if i < at {
                    before[i]
                } else if i == at {
                    e
                } else {
                    before[i - 1]
                };
                let b = if j < at {
                    before[j]
                } else if j == at {
                    e
                } else {
                    before[j - 1]
                };
                assert(out@[i] == a && out@[j] == b);
                if j > at && i == at {
                    assert(back[j - 1 - at] == before[j - 1]);
                }
            }
            done = done + 1;
        }
    }
    proof {
        assert(given.take(done) =~= given);
    }
    out
}

/// The first `limit` records, or all of them without a limit.
pub fn limit_pending(entries: Vec<PendingEntry>, limit: Option<usize>) -> (out: Vec<PendingEntry>)
    ensures
        out@ == match limit {
            Some(n) => if n <= entries@.len() {
                entries@.subrange(0, n as int)
            } else {
                entries@
            },
            None => entries@,
        },
{
    let mut out: Vec<PendingEntry> = entries;
    match limit {
        Some(n) => {
            if n < out.len() {
                out.truncate(n);
            } else {
                proof {
                    if n == out@.len() {
                        assert(out@ =~= entries@.subrange(0, n as int));
                    }
                }
            }
        },
        None => {},
    }
    out
}

/// Records of changes that were received at the same time from the same peer have different names
/// where the hashes of their paths begin with different digits, also within one nanosecond.
pub proof fn law_records_of_files_differ(e: EntryView, a: Seq<u8>, b: Seq<u8>, nanos: u32)
    requires
        a.len() == 32,
        b.len() == 32,
        a.subrange(0, 4) != b.subrange(0, 4),
    ensures
        record_name_of(e, a, nanos) != record_name_of(e, b, nanos),
{
    let x = record_name_of(e, a, nanos);
    let y = record_name_of(e, b, nanos);
    let p = hex_text(a.subrange(0, 4));
    let q = hex_text(b.subrange(0, 4));
    law_hex_text(a.subrange(0, 4), b.subrange(0, 4));
    law_hex_text(b.subrange(0, 4), a.subrange(0, 4));
    let n = (signed_text(e.received_at() as int).len() + 1 + first_eight(e.source_peer()).len() + 1)
        as int;
    assert(x.subrange(n, n + 8) =~= p);
    assert(y.subrange(n, n + 8) =~= q);
}

/// The name of a record begins with the time at which the change was received and, behind a hyphen,
/// with the beginning of the peer, eight characters or all there are.
pub proof fn law_record_name_begins(e: EntryView, nanos: u32)
    ensures
        ({
            let name = record_name(e, nanos);
            let time = signed_text(e.received_at() as int);
            let peer = if e.source_peer().len() < 8 {
                e.source_peer()
            } else {
                e.source_peer().subrange(0, 8)
            };
            let n = time.len() as int;
            &&& name.subrange(0, n) == time
            &&& name[n] == '-'
            &&& name.subrange(n + 1, n + 1 + peer.len()) == peer
            &&& name[n + 1 + peer.len()] == '-'
            &&& ends_with_text(name, ".json"@)
        }),
{
    let name = record_name(e, nanos);
    let time = signed_text(e.received_at() as int);
    let peer = first_eight(e.source_peer());
    let n = time.len() as int;
    assert(e.source_peer().subrange(0, 8) =~= e.source_peer() || e.source_peer().len() != 8);
    assert(name.subrange(0, n) =~= time);
    assert(name.subrange(n + 1, n + 1 + peer.len()) =~= peer);
    law_records_are_found(e, nanos);
}

/// The record of one change is not listed under a hidden name, nor is a file of another kind.
pub proof fn law_only_records_are_read(stem: Seq<char>)
    ensures
        is_record_name(stem + ".json"@) <==> stem.len() > 0 && stem[0] != '.',
        !is_record_name(stem + ".tmp"@),
        stem.len() > 0 && stem[0] == '.' ==> !is_record_name(stem),
{
    reveal_strlit(".json");
    reveal_strlit(".tmp");
    let full = stem + ".json"@;
    assert(full.subrange(stem.len() as int, full.len() as int) =~= ".json"@);
    assert(matches_at(full, full.len() - 5, ".json"@));
    if stem.len() > 0 {
        assert(full[0] == stem[0]);
    }
    let other = stem + ".tmp"@;
    let m = other.len() as int;
    if is_record_name(other) {
        assert(matches_at(other, m - 5, ".json"@));
        assert(other.subrange(m - 5, m)[4] == 'n');
        assert(other[m - 1] == 'p');
    }
}

/// Where later records come first, no record stands before one that was received after it.
pub proof fn law_newest_come_first(entries: Seq<PendingEntry>, i: int, j: int)
    requires
        newest_first(entries),
        0 <= i < j < entries.len(),
    ensures
        entries[i]@.received_at() >= entries[j]@.received_at(),
{
}

/// The records received at one time are exactly those with that time, in the order in which they
/// stand.
pub proof fn law_received_together(
    a: Seq<PendingEntry>,
    b: Seq<PendingEntry>,
    e: PendingEntry,
    t: i64,
)
    ensures
        received_when(a + b, t) == received_when(a, t) + received_when(b, t),
        received_when(seq![e], t) == if e@.received_at() == t {
            seq![e]
        } else {
            Seq::<PendingEntry>::empty()
        },
{
    reveal(Seq::filter);
    let p = |x: PendingEntry| x@.received_at() == t;
    Seq::filter_distributes_over_add(a, b, p);
    assert(seq![e].drop_last() =~= Seq::<PendingEntry>::empty());
    assert(seq![e].drop_last().filter(p) =~= Seq::<PendingEntry>::empty());
    assert(seq![e].last() == e);
    assert(received_when(seq![e], t) =~= if e@.received_at() == t {
        seq![e]
    } else {
        Seq::<PendingEntry>::empty()
    });
}

/// The name of a record ends with the first eight digits of the hash of the path, the nanoseconds
/// in nine digits, and `.json`.
pub proof fn law_record_name_ends(e: EntryView, nanos: u32)
    requires
        nanos < 1000000000,
        blake3_digest(encode_utf8(e.rel_path())).len() == 32,
    ensures
        ({
            let name = record_name(e, nanos);
            let n = name.len() as int;
            let hash = hex_text(blake3_digest(encode_utf8(e.rel_path())));
            &&& n >= 24
            &&& name[n - 24] == '-'
            &&& name.subrange(n - 23, n - 15) == hash.subrange(0, 8)
            &&& name[n - 15] == '-'
            &&& crate::text::decimal_value(name.subrange(n - 14, n - 5)) == nanos
            &&& name.subrange(n - 5, n) == ".json"@
        }),
{
    let name = record_name(e, nanos);
    let n = name.len() as int;
    let digest = blake3_digest(encode_utf8(e.rel_path()));
    let head = digest.subrange(0, 4);
    law_hex_text(head, head);
    law_hex_text(digest, digest);
    assert(hex_text(head) =~= hex_text(digest).subrange(0, 8));
    crate::text::law_padded_value(nanos as nat, 9);
    assert(pow10(9) == 1000000000) by {
        reveal_with_fuel(pow10, 10);
    }
    reveal_strlit(".json");
    assert(name.subrange(n - 23, n - 15) =~= hex_text(head));
    assert(name.subrange(n - 14, n - 5) =~= padded_text(nanos as nat, 9));
    assert(name.subrange(n - 5, n) =~= ".json"@);
}

/// A record as a mathematical value holds all of it.
pub proof fn law_record_value(e: PendingEntry)
    ensures
        match e {
            PendingEntry::Upsert {
                schema_version,
                rel_path,
                received_at,
                source_peer,
                blob_hash,
                bytes,
            } => e@ == (EntryView::Upsert {
                schema_version,
                rel_path: rel_path@,
                received_at,
                source_peer: source_peer@,
                blob_hash: blob_hash@,
                bytes,
            }) && e@.rel_path() == rel_path@ && e@.received_at() == received_at && e@.source_peer()
                == source_peer@,
            PendingEntry::Tombstone { schema_version, rel_path, received_at, source_peer } => e@
                == (EntryView::Tombstone {
                schema_version,
                rel_path: rel_path@,
                received_at,
                source_peer: source_peer@,
            }) && e@.rel_path() == rel_path@ && e@.received_at() == received_at && e@.source_peer()
                == source_peer@,
        },
{
}

} // verus!
