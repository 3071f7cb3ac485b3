//! Keeping the local version of a file that a peer changed at the same time.
use crate::hex::{hex_text, is_lower_hex, law_hex_text};
use crate::path_text::{
    file_name, is_name, join_path, joined, kept, last_kept, last_name, lemma_join_split,
    lemma_last_kept_bounds, lemma_split_concat, lemma_split_single, parent, parent_path, span_text,
};
use crate::peer_id::PeerId;
use crate::text::{
    chars_of, contains_text, join_text, lemma_split_join, matches_at, same_bytes, split_text,
    string_of,
};
use vstd::prelude::*;

verus! {

/// What stands between the name of a file and the peer in the name of its backup.
pub const CONFLICT_MARK: &'static str = ".conflict-local-";

/// The first eight hexadecimal digits of a peer identity.
pub open spec fn short_peer_text(id: Seq<u8>) -> Seq<char> {
    hex_text(id).subrange(0, 8)
}

/// The name under which the local version of a file is kept when one arrives from a peer.
pub open spec fn backup_name(name: Seq<char>, from: Seq<u8>) -> Seq<char> {
    name + CONFLICT_MARK@ + short_peer_text(from)
}

/// Where the local version of `out_path` is kept, if it has to be: `local` is what stands there,
/// `incoming` what is to be written.
pub open spec fn backup_path(
    out_path: Seq<char>,
    local: Option<Seq<u8>>,
    incoming: Seq<u8>,
    from: Seq<u8>,
) -> Option<Seq<char>> {
    match local {
        None => None,
        Some(bytes) => if bytes == incoming {
            None
        } else {
            match file_name(out_path) {
                None => None,
                Some(name) => match parent_path(out_path) {
                    None => None,
                    Some(dir) => Some(joined(dir, backup_name(name, from))),
                },
            }
        },
    }
}

/// The first eight hexadecimal digits of a peer identity.
pub fn short_peer_id(id: PeerId) -> (r: String)
    ensures
        r@ == short_peer_text(id@),
        r@.len() == 8,
{
    let text = id.text();
    let chars = chars_of(text.as_str());
    proof {
        law_hex_text(id@, id@);
    }
    string_of(chars.as_slice(), 0, 8)
}

/// Where the local version of `out_path` is kept: beside it. `None` where there is no local
/// version, where it is the same as what arrived, or where the path names no file.
pub fn compute_conflict_backup_path(
    out_path: &str,
    local: Option<&[u8]>,
    incoming_bytes: &[u8],
    from_id: PeerId,
) -> (r: Option<String>)
    ensures
        ({
            let found = match local {
                Some(bytes) => Some(bytes@),
                None => None,
            };
            let want = backup_path(out_path@, found, incoming_bytes@, from_id@);
            &&& r is Some <==> want is Some
            &&& r matches Some(p) ==> want == Some(p@)
        }),
{
    let local_bytes = match local {
        Some(bytes) => bytes,
        None => return None,
    };
    if same_bytes(local_bytes, incoming_bytes) {
        return None;
    }
    match last_name(out_path) {
        None => None,
        Some(name) => {
            match parent(out_path) {
                None => None,
                Some(dir) => {
                    let short = short_peer_id(from_id);
                    let backup = name.concat(CONFLICT_MARK).concat(short.as_str());
                    Some(join_path(dir.as_str(), backup.as_str()))
                },
            }
        },
    }
}

/// A name behind the text of a directory is the last piece, and the directory is its parent.
proof fn lemma_named_in(parts: Seq<Seq<char>>, last: int, name: Seq<char>)
    requires
        parts.len() > 0,
        0 <= last < parts.len(),
        kept(parts, last),
        parts[last].len() > 0,
        forall|i: int| 0 <= i < parts.len() ==> !(#[trigger] parts[i]).contains('/'),
        is_name(name),
        !name.contains('/'),
    ensures
        ({
            let dir = span_text(parts, 0, last_kept(parts, last));
            &&& file_name(joined(dir, name)) == Some(name)
            &&& parent_path(joined(dir, name)) == Some(dir)
        }),
{
    reveal_with_fuel(last_kept, 3);
    let prev = last_kept(parts, last);
    lemma_last_kept_bounds(parts, last);
    let dir = span_text(parts, 0, prev);
    assert(name.contains(name[0]));
    lemma_split_single(name, '/');
    if prev < 0 {
        assert(dir =~= Seq::<char>::empty());
        assert(joined(dir, name) =~= name);
    } else if prev == 0 && parts[0].len() == 0 {
        assert(dir == seq!['/']);
        lemma_split_concat(Seq::empty(), name, '/');
        assert(joined(dir, name) =~= Seq::<char>::empty().push('/') + name);
        let cut = split_text(joined(dir, name), '/');
        assert(cut =~= seq![Seq::<char>::empty(), name]);
        assert(cut[1] == name);
    } else {
        let front = parts.subrange(0, prev + 1);
        assert forall|i: int| 0 <= i < front.len() implies !(#[trigger] front[i]).contains('/') by {
            assert(front[i] == parts[i]);
        }
        lemma_join_split(front, '/');
        lemma_split_join(dir, '/');
        assert(front.last() == parts[prev]);
        lemma_join_last(front, '/');
        let cut = front + seq![name];
        lemma_split_concat(dir, name, '/');
        assert(joined(dir, name) =~= dir.push('/') + name);
        assert(split_text(joined(dir, name), '/') == cut);
        assert(cut[cut.len() - 1] == name);
        assert(cut[prev] == parts[prev]);
        assert(last_kept(cut, cut.len() as int) == prev + 1);
        assert(last_kept(cut, prev + 1) == prev);
        assert(cut.subrange(0, prev + 1) =~= front);
        if prev == 0 {
            assert(cut[0].len() > 0);
        }
    }
}

/// Joined pieces end with the last piece, and begin with the first.
proof fn lemma_join_last(parts: Seq<Seq<char>>, sep: char)
    requires
        parts.len() > 0,
        parts.last().len() > 0,
        !parts.last().contains(sep),
    ensures
        join_text(parts, sep).len() > 0,
        join_text(parts, sep).last() != sep,
{
    assert(parts.last().contains(parts.last().last()));
    if parts.len() == 1 {
        assert(parts[0] == parts.last());
    }
}

/// A local version is kept exactly where it is there and differs from what arrives, of every path
/// that names a file.
pub proof fn law_differing_version_is_kept(
    out_path: Seq<char>,
    local: Option<Seq<u8>>,
    incoming: Seq<u8>,
    from: Seq<u8>,
)
    requires
        file_name(out_path) is Some,
    ensures
        backup_path(out_path, local, incoming, from) is Some <==> local is Some && local->0
            != incoming,
{
    crate::path_text::law_parent_and_name(out_path);
}

/// Below a directory, the local version of the file at an accepted relative path is kept exactly
/// where it is there and differs from what arrives: in the directory of the file, under the last
/// name of the path, the mark, and the first eight hexadecimal digits of the peer.
pub proof fn law_synchronised_file_is_kept(
    root: Seq<char>,
    rel: Seq<char>,
    local: Option<Seq<u8>>,
    incoming: Seq<u8>,
    from: Seq<u8>,
)
    requires
        root.len() > 0,
        crate::path_text::is_safe_relative(rel),
        from.len() == 32,
    ensures
        ({
            let backup = backup_path(joined(root, rel), local, incoming, from);
            &&& backup is Some <==> local is Some && local->0 != incoming
            &&& backup matches Some(b) ==> {
                &&& crate::path_text::path_components(b).drop_last()
                    == crate::path_text::path_components(root) + split_text(rel, '/').drop_last()
                &&& file_name(b) == Some(
                    split_text(rel, '/').last() + ".conflict-local-"@ + hex_text(from).subrange(
                        0,
                        8,
                    ),
                )
                &&& file_name(b) != file_name(joined(root, rel))
            }
        }),
{
    let target = joined(root, rel);
    crate::path_text::law_joined_stands_in(root, rel);
    law_differing_version_is_kept(target, local, incoming, from);
    if local is Some && local->0 != incoming {
        law_backup_stands_beside(target, local->0, incoming, from);
        let b = backup_path(target, local, incoming, from)->0;
        crate::path_text::law_parent_and_name(b);
        let dir = parent_path(b)->0;
        let name = file_name(b)->0;
        assert(crate::path_text::path_components(dir).push(name).drop_last()
            =~= crate::path_text::path_components(dir));
        reveal_strlit(".conflict-local-");
        assert(name.len() > split_text(rel, '/').last().len());
    }
}

/// The backups of one file for peers whose identities begin with different digits do not replace
/// each other.
pub proof fn law_backups_of_peers_differ(name: Seq<char>, a: Seq<u8>, b: Seq<u8>)
    requires
        a.len() == 32,
        b.len() == 32,
        a.subrange(0, 4) != b.subrange(0, 4),
    ensures
        backup_name(name, a) != backup_name(name, b),
{
    law_hex_text(a, a);
    law_hex_text(b, b);
    let x = a.subrange(0, 4);
    let y = b.subrange(0, 4);
    law_hex_text(x, y);
    assert(hex_text(a).subrange(0, 8) =~= hex_text(x));
    assert(hex_text(b).subrange(0, 8) =~= hex_text(y));
    let n = (name.len() + CONFLICT_MARK@.len()) as int;
    let p = backup_name(name, a);
    let q = backup_name(name, b);
    assert(p.subrange(n, p.len() as int) =~= short_peer_text(a));
    assert(q.subrange(n, q.len() as int) =~= short_peer_text(b));
}

/// A backup is kept in the directory of its file, under the name of the file with the mark and
/// the short identity of the peer behind it.
pub proof fn law_backup_stands_beside(
    out_path: Seq<char>,
    local: Seq<u8>,
    incoming: Seq<u8>,
    from: Seq<u8>,
)
    requires
        from.len() >= 4,
        backup_path(out_path, Some(local), incoming, from) is Some,
    ensures
        ({
            let backup = backup_path(out_path, Some(local), incoming, from)->0;
            &&& local != incoming
            &&& parent_path(backup) == parent_path(out_path)
            &&& file_name(backup) == Some(backup_name(file_name(out_path)->0, from))
            &&& contains_text(file_name(backup)->0, CONFLICT_MARK@)
        }),
{
    let parts = split_text(out_path, '/');
    let last = last_kept(parts, parts.len() as int);
    lemma_split_join(out_path, '/');
    lemma_last_kept_bounds(parts, parts.len() as int);
    let name = parts[last];
    let full = backup_name(name, from);
    reveal_strlit(".conflict-local-");
    law_hex_text(from, from);
    let mark = CONFLICT_MARK@;
    let short = short_peer_text(from);
    assert forall|i: int| 0 <= i < full.len() implies full[i] != '/' by {
        if i < name.len() {
            assert(full[i] == name[i]);
            assert(name.contains(name[i]));
        } else if i < name.len() + mark.len() {
            assert(full[i] == mark[i - name.len()]);
        } else {
            assert(full[i] == short[i - name.len() - mark.len()]);
            assert(is_lower_hex(hex_text(from)[i - name.len() - mark.len()]));
        }
    }
    assert(full.len() > 2);
    lemma_named_in(parts, last, full);
    assert(full.subrange(name.len() as int, (name.len() + mark.len()) as int) =~= mark);
    assert(matches_at(full, name.len() as int, mark));
}

} // verus!
