//! Slash-separated paths as text.
//!
//! A path is cut at its slashes. A piece counts as a component unless it is empty or a single
//! dot; in front, an empty piece that a slash follows stands for the root directory, and a
//! single dot counts.
use crate::text::{chars_of, join, join_text, lemma_split_join, split, split_text, texts};
use vstd::prelude::*;

verus! {

/// The text of the current directory.
pub open spec fn dot() -> Seq<char> {
    seq!['.']
}

/// The text of the parent directory.
pub open spec fn dot_dot() -> Seq<char> {
    seq!['.', '.']
}

/// The `i`-th piece counts as a component. In front, an empty piece is the root directory.
pub open spec fn kept(parts: Seq<Seq<char>>, i: int) -> bool {
    if i == 0 {
        parts[0].len() > 0 || parts.len() > 1
    } else {
        parts[i].len() > 0 && parts[i] != dot()
    }
}

/// The components among the first `n` pieces. The root directory is the empty text.
pub open spec fn kept_parts(parts: Seq<Seq<char>>, n: int) -> Seq<Seq<char>>
    decreases n,
{
    if n <= 0 {
        Seq::empty()
    } else if kept(parts, n - 1) {
        kept_parts(parts, n - 1).push(parts[n - 1])
    } else {
        kept_parts(parts, n - 1)
    }
}

/// The components of a path. The root directory is the empty text.
pub open spec fn path_components(p: Seq<char>) -> Seq<Seq<char>> {
    kept_parts(split_text(p, '/'), split_text(p, '/').len() as int)
}

/// The component names a file or a directory: it is neither the root, nor a dot, nor two dots.
pub open spec fn is_name(c: Seq<char>) -> bool {
    c.len() > 0 && c != dot() && c != dot_dot()
}

/// The last of the first `n` pieces that is a component; -1 where there is none.
pub open spec fn last_kept(parts: Seq<Seq<char>>, n: int) -> int
    decreases n,
{
    if n <= 0 {
        -1
    } else if kept(parts, n - 1) {
        n - 1
    } else {
        last_kept(parts, n - 1)
    }
}

/// The piece that is the `m`-th component, counted from 0, among the first `n` pieces; -1 where
/// there are fewer components.
pub open spec fn nth_kept(parts: Seq<Seq<char>>, n: int, m: int) -> int
    decreases n,
{
    if n <= 0 {
        -1
    } else if kept(parts, n - 1) && kept_parts(parts, n - 1).len() == m {
        n - 1
    } else {
        nth_kept(parts, n - 1, m)
    }
}

/// The text of the pieces from `from` to `to`, both counted in. The root directory alone is a
/// slash.
pub open spec fn span_text(parts: Seq<Seq<char>>, from: int, to: int) -> Seq<char> {
    if from > to {
        Seq::empty()
    } else if from == 0 && to == 0 && parts[0].len() == 0 {
        seq!['/']
    } else {
        join_text(parts.subrange(from, to + 1), '/')
    }
}

/// `rel` taken from the directory `base`; a `rel` that starts at the root stands for itself.
pub open spec fn joined(base: Seq<char>, rel: Seq<char>) -> Seq<char> {
    if rel.len() > 0 && rel[0] == '/' {
        rel
    } else if base.len() == 0 || base.last() == '/' {
        base + rel
    } else {
        base.push('/') + rel
    }
}

/// The path without its last component; `None` of the root directory and of the empty path.
pub open spec fn parent_path(p: Seq<char>) -> Option<Seq<char>> {
    let parts = split_text(p, '/');
    let last = last_kept(parts, parts.len() as int);
    if last < 0 || parts[last].len() == 0 {
        None
    } else {
        Some(span_text(parts, 0, last_kept(parts, last)))
    }
}

/// The last component of a path, where that names a file or directory.
pub open spec fn file_name(p: Seq<char>) -> Option<Seq<char>> {
    let parts = split_text(p, '/');
    let last = last_kept(parts, parts.len() as int);
    if last >= 0 && is_name(parts[last]) {
        Some(parts[last])
    } else {
        None
    }
}

/// What is left of `p` behind the components of `base`; `None` where `p` does not begin with them.
pub open spec fn stripped(p: Seq<char>, base: Seq<char>) -> Option<Seq<char>> {
    let parts = split_text(p, '/');
    let n = parts.len() as int;
    let head = path_components(base);
    let whole = path_components(p);
    if head.len() <= whole.len() && whole.subrange(0, head.len() as int) == head {
        if head.len() == whole.len() {
            Some(Seq::empty())
        } else {
            Some(span_text(parts, nth_kept(parts, n, head.len() as int), last_kept(parts, n)))
        }
    } else {
        None
    }
}

/// A relative path that stays where it is taken from: its pieces all name files or directories,
/// and it holds no backslash.
pub open spec fn is_safe_relative(p: Seq<char>) -> bool {
    &&& !p.contains('\\')
    &&& forall|i: int|
        0 <= i < split_text(p, '/').len() ==> is_name(#[trigger] split_text(p, '/')[i])
}

/// Cutting at a separator: the pieces of the two sides follow each other.
pub proof fn lemma_split_concat(a: Seq<char>, b: Seq<char>, sep: char)
    ensures
        split_text(a.push(sep) + b, sep) == split_text(a, sep) + split_text(b, sep),
    decreases b.len(),
{
    let whole = a.push(sep) + b;
    if b.len() == 0 {
        assert(whole =~= a.push(sep));
        assert(a.push(sep).drop_last() =~= a);
        assert(split_text(whole, sep) =~= split_text(a, sep) + split_text(b, sep));
    } else {
        assert(whole.drop_last() =~= a.push(sep) + b.drop_last());
        lemma_split_concat(a, b.drop_last(), sep);
        lemma_split_join(b.drop_last(), sep);
        let left = split_text(a, sep);
        let right = split_text(b.drop_last(), sep);
        assert((left + right).last() == right.last());
        assert((left + right).drop_last() =~= left + right.drop_last());
        assert(split_text(whole, sep) =~= left + split_text(b, sep));
    }
}

/// A text without the separator is one piece.
pub proof fn lemma_split_single(a: Seq<char>, sep: char)
    requires
        !a.contains(sep),
    ensures
        split_text(a, sep) == seq![a],
    decreases a.len(),
{
    if a.len() == 0 {
        assert(a =~= Seq::<char>::empty());
    } else {
        assert forall|i: int| 0 <= i < a.drop_last().len() implies a.drop_last()[i] != sep by {
            assert(a.contains(a[i]));
        }
        assert(a.contains(a.last()));
        lemma_split_single(a.drop_last(), sep);
        assert(a.drop_last().push(a.last()) =~= a);
        let before = split_text(a.drop_last(), sep);
        assert(before.last() == a.drop_last());
        assert(split_text(a, sep) =~= seq![a]);
    }
}

/// Behind a front of pieces, more pieces that are all names add themselves as components.
proof fn lemma_kept_append(front: Seq<Seq<char>>, names: Seq<Seq<char>>, n: int)
    requires
        front.len() > 0,
        front[0].len() > 0 || front.len() + names.len() > 1,
        0 <= n <= names.len(),
        forall|i: int| 0 <= i < names.len() ==> is_name(#[trigger] names[i]),
    ensures
        kept_parts(front + names, front.len() + n) == kept_parts(front + names, front.len() as int)
            + names.subrange(0, n),
    decreases n,
{
    let all = front + names;
    if n == 0 {
        assert(names.subrange(0, 0) =~= Seq::<Seq<char>>::empty());
        assert(kept_parts(all, front.len() as int) + names.subrange(0, 0) =~= kept_parts(
            all,
            front.len() as int,
        ));
    } else {
        lemma_kept_append(front, names, n - 1);
        assert(all[front.len() + n - 1] == names[n - 1]);
        assert(is_name(names[n - 1]));
        assert(kept(all, front.len() + n - 1));
        assert(names.subrange(0, n) =~= names.subrange(0, n - 1).push(names[n - 1]));
        assert(kept_parts(all, front.len() + n) =~= kept_parts(all, front.len() as int)
            + names.subrange(0, n));
    }
}

/// Whether a piece counts depends on the piece and, in front, on whether more follows.
proof fn lemma_kept_same(a: Seq<Seq<char>>, b: Seq<Seq<char>>, n: int)
    requires
        0 <= n <= a.len(),
        n <= b.len(),
        forall|i: int| 0 <= i < n ==> a[i] == b[i],
        n > 0 ==> (kept(a, 0) == kept(b, 0)),
    ensures
        kept_parts(a, n) == kept_parts(b, n),
        last_kept(a, n) == last_kept(b, n),
    decreases n,
{
    if n > 0 {
        lemma_kept_same(a, b, n - 1);
    }
}

/// The pieces of a path taken from a directory are the pieces of the directory, without a last
/// empty one, and then those of the relative path.
proof fn lemma_joined_parts(base: Seq<char>, rel: Seq<char>) -> (front: Seq<Seq<char>>)
    requires
        base.len() > 0,
        is_safe_relative(rel),
    ensures
        split_text(joined(base, rel), '/') == front + split_text(rel, '/'),
        front.len() > 0,
        front[0].len() > 0 || front.len() + split_text(rel, '/').len() > 1,
        path_components(base) == kept_parts(
            front + split_text(rel, '/'),
            front.len() as int,
        ),
        base.last() == '/' ==> split_text(base, '/') == front.push(Seq::<char>::empty()),
        base.last() != '/' ==> split_text(base, '/') == front,
{
    lemma_split_join(rel, '/');
    let names = split_text(rel, '/');
    if rel.len() > 0 && rel[0] == '/' {
        // A leading slash would make the first piece empty.
        lemma_split_concat(Seq::empty(), rel.subrange(1, rel.len() as int), '/');
        assert(Seq::<char>::empty().push('/') + rel.subrange(1, rel.len() as int) =~= rel);
        assert(split_text(Seq::<char>::empty(), '/')[0].len() == 0);
        assert(is_name(names[0]));
        assert(false);
    }
    lemma_split_join(base, '/');
    let cut = split_text(base, '/');
    if base.last() == '/' {
        let q = base.drop_last();
        assert(base =~= q.push('/'));
        lemma_split_concat(q, rel, '/');
        lemma_split_join(q, '/');
        let front = split_text(q, '/');
        assert(cut == front.push(Seq::<char>::empty()));
        assert(joined(base, rel) =~= q.push('/') + rel);
        let all = front + names;
        lemma_kept_same(cut, all, front.len() as int);
        assert(!kept(cut, cut.len() - 1));
        front
    } else {
        lemma_split_concat(base, rel, '/');
        let all = cut + names;
        if cut.len() == 1 && cut[0].len() == 0 {
            assert(base =~= join_text(cut, '/'));
            assert(false);
        }
        lemma_kept_same(cut, all, cut.len() as int);
        cut
    }
}

/// A safe relative path taken from a directory stays below it: its components are those of the
/// directory and then the names of the relative path.
pub proof fn law_joined_stays_below(base: Seq<char>, rel: Seq<char>)
    requires
        base.len() > 0,
        is_safe_relative(rel),
    ensures
        path_components(joined(base, rel)) == path_components(base) + split_text(rel, '/'),
{
    let front = lemma_joined_parts(base, rel);
    let names = split_text(rel, '/');
    lemma_kept_append(front, names, names.len() as int);
    assert(names.subrange(0, names.len() as int) =~= names);
}

proof fn lemma_nth_kept_append(front: Seq<Seq<char>>, names: Seq<Seq<char>>, n: int)
    requires
        front.len() > 0,
        front[0].len() > 0 || front.len() + names.len() > 1,
        1 <= n <= names.len(),
        forall|i: int| 0 <= i < names.len() ==> is_name(#[trigger] names[i]),
    ensures
        nth_kept(
            front + names,
            front.len() + n,
            kept_parts(front + names, front.len() as int).len() as int,
        ) == front.len(),
        last_kept(front + names, front.len() + n) == front.len() + n - 1,
    decreases n,
{
    let all = front + names;
    let m = kept_parts(all, front.len() as int).len() as int;
    lemma_kept_append(front, names, n - 1);
    assert(all[front.len() + n - 1] == names[n - 1]);
    assert(is_name(names[n - 1]));
    assert(kept(all, front.len() + n - 1));
    if n > 1 {
        lemma_nth_kept_append(front, names, n - 1);
    } else {
        assert(names.subrange(0, 0) =~= Seq::<Seq<char>>::empty());
    }
}

/// Taking a safe relative path from a directory and stripping the directory again gives the
/// relative path back.
pub proof fn law_strip_joined(base: Seq<char>, rel: Seq<char>)
    requires
        base.len() > 0,
        is_safe_relative(rel),
    ensures
        stripped(joined(base, rel), base) == Some(rel),
{
    law_joined_stays_below(base, rel);
    let front = lemma_joined_parts(base, rel);
    let names = split_text(rel, '/');
    lemma_split_join(rel, '/');
    lemma_nth_kept_append(front, names, names.len() as int);
    let all = front + names;
    let head = path_components(base);
    let whole = path_components(joined(base, rel));
    assert(whole.subrange(0, head.len() as int) =~= head);
    assert(all.subrange(front.len() as int, all.len() as int) =~= names);
    assert(front.len() + names.len() == all.len());
}

/// Pieces without the separator come out again when they are joined and split.
pub proof fn lemma_join_split(parts: Seq<Seq<char>>, sep: char)
    requires
        parts.len() > 0,
        forall|i: int| 0 <= i < parts.len() ==> !(#[trigger] parts[i]).contains(sep),
    ensures
        split_text(join_text(parts, sep), sep) == parts,
    decreases parts.len(),
{
    if parts.len() == 1 {
        lemma_split_single(parts[0], sep);
        assert(parts =~= seq![parts[0]]);
    } else {
        let front = parts.drop_last();
        assert forall|i: int| 0 <= i < front.len() implies !(#[trigger] front[i]).contains(sep) by {
            assert(front[i] == parts[i]);
        }
        lemma_join_split(front, sep);
        lemma_split_concat(join_text(front, sep), parts.last(), sep);
        assert(parts.last() == parts[parts.len() - 1]);
        lemma_split_single(parts.last(), sep);
        assert(parts =~= front + seq![parts.last()]);
    }
}

/// The last component lies among the pieces, and is one.
pub proof fn lemma_last_kept_bounds(parts: Seq<Seq<char>>, n: int)
    requires
        n <= parts.len(),
    ensures
        last_kept(parts, n) >= -1,
        last_kept(parts, n) >= 0 ==> last_kept(parts, n) < n && kept(
            parts,
            last_kept(parts, n),
        ),
    decreases n,
{
    if n > 0 && !kept(parts, n - 1) {
        lemma_last_kept_bounds(parts, n - 1);
    }
}

proof fn lemma_nth_kept_bounds(parts: Seq<Seq<char>>, n: int, m: int)
    requires
        0 <= n <= parts.len(),
        0 <= m < kept_parts(parts, n).len(),
    ensures
        0 <= nth_kept(parts, n, m) <= last_kept(parts, n),
    decreases n,
{
    if n > 0 {
        lemma_last_kept_bounds(parts, n - 1);
        if !(kept(parts, n - 1) && kept_parts(parts, n - 1).len() == m) {
            lemma_nth_kept_bounds(parts, n - 1, m);
        }
    }
}

proof fn lemma_last_kept_is_last(parts: Seq<Seq<char>>, n: int)
    requires
        0 <= n <= parts.len(),
        last_kept(parts, n) >= 0,
    ensures
        kept_parts(parts, n).len() > 0,
        kept_parts(parts, n).last() == parts[last_kept(parts, n)],
    decreases n,
{
    if n > 0 && !kept(parts, n - 1) {
        lemma_last_kept_is_last(parts, n - 1);
    }
}

/// The name of the file that a path leads to is its last component.
pub proof fn lemma_name_is_component(p: Seq<char>)
    requires
        file_name(p) is Some,
    ensures
        path_components(p).len() > 0,
        path_components(p).last() == file_name(p)->0,
        is_name(path_components(p).last()),
{
    let parts = split_text(p, '/');
    lemma_last_kept_is_last(parts, parts.len() as int);
}

/// What is left of a path behind a directory leads to the file of the same name, unless the path
/// is that of the directory.
pub proof fn lemma_stripped_keeps_name(p: Seq<char>, base: Seq<char>)
    requires
        file_name(p) is Some,
        stripped(p, base) is Some,
        path_components(p) != path_components(base),
    ensures
        file_name(stripped(p, base)->0) == file_name(p),
{
    let parts = split_text(p, '/');
    let n = parts.len() as int;
    let head = path_components(base);
    let whole = path_components(p);
    let last = last_kept(parts, n);
    lemma_last_kept_bounds(parts, n);
    lemma_split_join(p, '/');
    if head.len() == whole.len() {
        assert(whole.subrange(0, head.len() as int) =~= whole);
    }
    let first = nth_kept(parts, n, head.len() as int);
    lemma_nth_kept_bounds(parts, n, head.len() as int);
    let some = parts.subrange(first, last + 1);
    assert forall|i: int| 0 <= i < some.len() implies !(#[trigger] some[i]).contains('/') by {
        assert(some[i] == parts[first + i]);
    }
    lemma_join_split(some, '/');
    assert(some[some.len() - 1] == parts[last]);
    assert(kept(some, some.len() - 1));
}

proof fn lemma_kept_until(parts: Seq<Seq<char>>, n: int)
    requires
        0 <= n <= parts.len(),
    ensures
        kept_parts(parts, n) == kept_parts(parts, last_kept(parts, n) + 1),
    decreases n,
{
    if n > 0 && !kept(parts, n - 1) {
        lemma_kept_until(parts, n - 1);
    }
}

/// A path that names a file stands in a directory, and its components are those of the directory
/// and then the name.
pub proof fn law_parent_and_name(p: Seq<char>)
    requires
        file_name(p) is Some,
    ensures
        parent_path(p) matches Some(dir) && path_components(p) == path_components(dir).push(
            file_name(p)->0,
        ),
{
    let parts = split_text(p, '/');
    let n = parts.len() as int;
    let last = last_kept(parts, n);
    lemma_split_join(p, '/');
    lemma_last_kept_bounds(parts, n);
    lemma_kept_until(parts, n);
    lemma_last_kept_bounds(parts, last);
    lemma_kept_until(parts, last);
    let prev = last_kept(parts, last);
    let dir = span_text(parts, 0, prev);
    if prev < 0 {
        assert(dir =~= Seq::<char>::empty());
        lemma_split_single(dir, '/');
        reveal_with_fuel(kept_parts, 2);
        assert(path_components(dir) =~= Seq::<Seq<char>>::empty());
    } else if prev == 0 && parts[0].len() == 0 {
        let none = Seq::<char>::empty();
        lemma_split_concat(none, none, '/');
        lemma_split_single(none, '/');
        assert(none.push('/') + none =~= dir);
        let cut = split_text(dir, '/');
        assert(cut =~= seq![none, none]);
        reveal_with_fuel(kept_parts, 3);
        assert(parts[0] =~= none);
        assert(kept_parts(cut, 2) =~= seq![none]);
        assert(kept_parts(parts, 1) =~= seq![none]);
    } else {
        let front = parts.subrange(0, prev + 1);
        assert forall|i: int| 0 <= i < front.len() implies !(#[trigger] front[i]).contains('/') by {
            assert(front[i] == parts[i]);
        }
        lemma_join_split(front, '/');
        lemma_kept_same(front, parts, prev + 1);
    }
}

/// The file that a safe relative path leads to has the last name of that path, and stands in the
/// directory that the names before it lead to.
pub proof fn law_joined_stands_in(base: Seq<char>, rel: Seq<char>)
    requires
        base.len() > 0,
        is_safe_relative(rel),
    ensures
        file_name(joined(base, rel)) == Some(split_text(rel, '/').last()),
        parent_path(joined(base, rel)) matches Some(dir) && path_components(dir).push(
            split_text(rel, '/').last(),
        ) == path_components(joined(base, rel)) && path_components(dir) == path_components(base)
            + split_text(rel, '/').drop_last(),
{
    let front = lemma_joined_parts(base, rel);
    let names = split_text(rel, '/');
    lemma_split_join(rel, '/');
    let all = front + names;
    assert(all[all.len() - 1] == names[names.len() - 1]);
    assert(is_name(names[names.len() - 1]));
    assert(kept(all, all.len() - 1));
    law_parent_and_name(joined(base, rel));
    law_joined_stays_below(base, rel);
    let dir = parent_path(joined(base, rel))->0;
    assert(path_components(dir) =~= path_components(joined(base, rel)).drop_last());
    assert((path_components(base) + names).drop_last() =~= path_components(base)
        + names.drop_last());
}

/// `rel` taken from the directory `base`.
pub fn join_path(base: &str, rel: &str) -> (out: String)
    ensures
        out@ == joined(base@, rel@),
{
    let r = chars_of(rel);
    if r.len() > 0 && r[0] == '/' {
        return rel.to_owned();
    }
    let b = chars_of(base);
    let mut out: String = base.to_owned();
    if b.len() > 0 && b[b.len() - 1] != '/' {
        out.push('/');
    }
    out.append(rel);
    out
}

fn piece_kept(parts: &Vec<String>, i: usize) -> (r: bool)
    requires
        i < parts@.len(),
    ensures
        r == kept(texts(parts@), i as int),
{
    proof {
        reveal_strlit(".");
        assert("."@ =~= dot());
    }
    let piece = parts[i].as_str();
    if i == 0 {
        !piece.is_empty() || parts.len() > 1
    } else {
        !piece.is_empty() && *piece != *"."
    }
}

fn last_component(parts: &Vec<String>, n: usize) -> (r: Option<usize>)
    requires
        n <= parts@.len(),
    ensures
        r is None <==> last_kept(texts(parts@), n as int) < 0,
        r matches Some(i) ==> i < n && i == last_kept(texts(parts@), n as int),
    decreases n,
{
    if n == 0 {
        None
    } else if piece_kept(parts, n - 1) {
        Some(n - 1)
    } else {
        last_component(parts, n - 1)
    }
}

/// The components of a path. The root directory is the empty text.
pub fn components(p: &str) -> (out: Vec<String>)
    ensures
        texts(out@) == path_components(p@),
{
    let parts = split(p, '/');
    let ghost all = texts(parts@);
    let mut out: Vec<String> = Vec::new();
    let mut i: usize = 0;
    proof {
        assert(texts(out@) =~= kept_parts(all, 0));
    }
    while i < parts.len()
        invariant
            i <= parts@.len(),
            all == texts(parts@),
            texts(out@) == kept_parts(all, i as int),
        decreases parts@.len() - i,
    {
        if piece_kept(&parts, i) {
            let ghost before = out@;
            out.push(parts[i].clone());
            proof {
                assert(texts(out@) =~= texts(before).push(all[i as int]));
            }
        }
        i += 1;
    }
    out
}

fn span(parts: &Vec<String>, from: usize, to: usize) -> (out: String)
    requires
        from <= to < parts@.len(),
    ensures
        out@ == span_text(texts(parts@), from as int, to as int),
{
    let n: usize = parts.len();
    if from == 0 && to == 0 && parts[0].as_str().is_empty() {
        let mut out: String = String::new();
        out.push('/');
        proof {
            assert(out@ =~= seq!['/']);
        }
        out
    } else {
        join(parts, from, to + 1, '/')
    }
}

/// The path without its last component.
pub fn parent(p: &str) -> (r: Option<String>)
    ensures
        r is Some <==> parent_path(p@) is Some,
        r matches Some(q) ==> Some(q@) == parent_path(p@),
{
    let parts = split(p, '/');
    match last_component(&parts, parts.len()) {
        None => None,
        Some(last) => {
            if parts[last].as_str().is_empty() {
                None
            } else {
                match last_component(&parts, last) {
                    None => Some(String::new()),
                    Some(prev) => Some(span(&parts, 0, prev)),
                }
            }
        },
    }
}

/// The last component of a path, where that names a file or directory.
pub fn last_name(p: &str) -> (r: Option<String>)
    ensures
        r is Some <==> file_name(p@) is Some,
        r matches Some(q) ==> Some(q@) == file_name(p@),
{
    let parts = split(p, '/');
    match last_component(&parts, parts.len()) {
        None => None,
        Some(last) => {
            if names_entry(parts[last].as_str()) {
                Some(parts[last].clone())
            } else {
                None
            }
        },
    }
}

/// Whether a component names a file or directory.
pub fn names_entry(c: &str) -> (r: bool)
    ensures
        r == is_name(c@),
{
    proof {
        reveal_strlit(".");
        reveal_strlit("..");
        assert("."@ =~= dot());
        assert(".."@ =~= dot_dot());
    }
    !c.is_empty() && *c != *"." && *c != *".."
}

/// What is left of `p` behind the components of `base`.
pub fn strip_path(p: &str, base: &str) -> (r: Option<String>)
    ensures
        r is Some <==> stripped(p@, base@) is Some,
        r matches Some(q) ==> Some(q@) == stripped(p@, base@),
{
    let head = components(base);
    let parts = split(p, '/');
    let ghost all = texts(parts@);
    let ghost want = texts(head@);
    let mut count: usize = 0;
    let mut first: usize = 0;
    let mut last: usize = 0;
    let mut i: usize = 0;
    while i < parts.len()
        invariant
            i <= parts@.len(),
            all == texts(parts@),
            all == split_text(p@, '/'),
            want == texts(head@),
            want == path_components(base@),
            count <= i,
            count == kept_parts(all, i as int).len(),
            forall|j: int|
                0 <= j < count && j < want.len() ==> #[trigger] kept_parts(all, i as int)[j]
                    == want[j],
            count > head@.len() ==> first <= last < i && first == nth_kept(
                all,
                i as int,
                head@.len() as int,
            ) && last == last_kept(all, i as int),
        decreases parts@.len() - i,
    {
        if piece_kept(&parts, i) {
            if count < head.len() {
                if *parts[i].as_str() != *head[count].as_str() {
                    proof {
                        let n = all.len() as int;
                        lemma_kept_prefix(all, i + 1, n);
                        assert(kept_parts(all, i + 1)[count as int] == all[i as int]);
                        assert(path_components(p@)[count as int] == all[i as int]);
                        assert(path_components(p@)[count as int] != want[count as int]);
                        if want.len() <= path_components(p@).len() {
                            assert(path_components(p@).subrange(0, want.len() as int)[count as int]
                                != want[count as int]);
                        }
                    }
                    return None;
                }
            } else {
                if count == head.len() {
                    first = i;
                }
                last = i;
            }
            count += 1;
        }
        i += 1;
    }
    proof {
        assert(path_components(p@) == kept_parts(all, all.len() as int));
    }
    if count < head.len() {
        return None;
    }
    proof {
        assert(path_components(p@).subrange(0, want.len() as int) =~= want);
    }
    if count == head.len() {
        return Some(String::new());
    }
    Some(span(&parts, first, last))
}

/// The components found among fewer pieces come first among those of more.
proof fn lemma_kept_prefix(parts: Seq<Seq<char>>, a: int, b: int)
    requires
        a <= b,
    ensures
        kept_parts(parts, a).len() <= kept_parts(parts, b).len(),
        forall|j: int|
            0 <= j < kept_parts(parts, a).len() ==> #[trigger] kept_parts(parts, b)[j]
                == kept_parts(parts, a)[j],
    decreases b - a,
{
    if a < b {
        lemma_kept_prefix(parts, a, b - 1);
    }
}

} // verus!
