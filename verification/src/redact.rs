//! Keeping secrets out of log lines.
use crate::text::{
    chars_of, contains_text, find_text, join_text, lemma_split_join, matches_at, split, split_text,
    string_of, text_at, texts,
};
use vstd::prelude::*;

verus! {

/// What stands in the place of a secret.
pub const REDACTED: &'static str = "<redacted>";

/// The number of hexadecimal digits in a row from which on they are taken for a secret.
pub const SECRET_HEX_DIGITS: usize = 32;

/// White space, as Unicode defines it.
pub open spec fn is_white_space(c: char) -> bool {
    let n = c as u32;
    ||| 0x9 <= n <= 0xd
    ||| n == 0x20
    ||| n == 0x85
    ||| n == 0xa0
    ||| n == 0x1680
    ||| 0x2000 <= n <= 0x200a
    ||| n == 0x2028
    ||| n == 0x2029
    ||| n == 0x202f
    ||| n == 0x205f
    ||| n == 0x3000
}

/// What ends a ticket in a line: white space, a quotation mark or a comma.
pub open spec fn ends_token(c: char) -> bool {
    is_white_space(c) || c == '"' || c == ','
}

/// A hexadecimal digit of either case.
pub open spec fn is_hex_digit(c: char) -> bool {
    ('0' <= c && c <= '9') || ('a' <= c && c <= 'f') || ('A' <= c && c <= 'F')
}

/// The windows that are a given text.
pub open spec fn is_text(p: Seq<char>) -> spec_fn(Seq<char>) -> bool {
    |x: Seq<char>| x == p
}

/// The windows that are hexadecimal digits throughout.
pub open spec fn is_hex() -> spec_fn(Seq<char>) -> bool {
    |x: Seq<char>| forall|i: int| 0 <= i < x.len() ==> is_hex_digit(#[trigger] x[i])
}

/// The window of length `w` at `i` is one of those looked for.
pub open spec fn hit_at(
    s: Seq<char>,
    i: int,
    w: int,
    hit: spec_fn(Seq<char>) -> bool,
) -> bool {
    0 <= i && i + w <= s.len() && hit(s.subrange(i, i + w))
}

/// The first window at or after `from` that is looked for; -1 where there is none.
pub open spec fn first_hit(
    s: Seq<char>,
    from: int,
    w: int,
    hit: spec_fn(Seq<char>) -> bool,
) -> int
    decreases s.len() - from,
{
    if from < 0 || from + w > s.len() || from >= s.len() {
        -1
    } else if hit_at(s, from, w, hit) {
        from
    } else {
        first_hit(s, from + 1, w, hit)
    }
}

/// The first character at or after `from` that stops; the length where there is none.
pub open spec fn first_stop(s: Seq<char>, from: int, stop: spec_fn(char) -> bool) -> int
    decreases s.len() - from,
{
    if from < 0 || from >= s.len() {
        s.len() as int
    } else if stop(s[from]) {
        from
    } else {
        first_stop(s, from + 1, stop)
    }
}

/// `s` with [`REDACTED`] in the place of every window that is looked for and of what follows it,
/// up to a character that stops.
pub open spec fn redacted(
    s: Seq<char>,
    w: int,
    hit: spec_fn(Seq<char>) -> bool,
    stop: spec_fn(char) -> bool,
) -> Seq<char>
    decreases s.len(),
{
    let i = first_hit(s, 0, w, hit);
    if w <= 0 || i < 0 || i + w > s.len() {
        s
    } else {
        let end = first_stop(s, i + w, stop);
        if end < i + w || end > s.len() {
            s
        } else {
            s.subrange(0, i) + REDACTED@ + redacted(
                s.subrange(end, s.len() as int),
                w,
                hit,
                stop,
            )
        }
    }
}

/// `s` with [`REDACTED`] in the place of every token that begins with `prefix`.
pub open spec fn redacted_tokens(s: Seq<char>, prefix: Seq<char>) -> Seq<char> {
    redacted(s, prefix.len() as int, is_text(prefix), |c: char| ends_token(c))
}

/// `s` with [`REDACTED`] in the place of every long row of hexadecimal digits.
pub open spec fn redacted_hex(s: Seq<char>) -> Seq<char> {
    redacted(s, SECRET_HEX_DIGITS as int, is_hex(), |c: char| !is_hex_digit(c))
}

/// A log line without invite tickets and without long rows of hexadecimal digits.
pub open spec fn redacted_line(s: Seq<char>) -> Seq<char> {
    redacted_hex(redacted_tokens(redacted_tokens(s, "dirhive1-"@), "p2psync1-"@))
}

proof fn lemma_first_hit(s: Seq<char>, from: int, w: int, hit: spec_fn(Seq<char>) -> bool)
    requires
        w > 0,
        from >= 0,
    ensures
        first_hit(s, from, w, hit) < 0 ==> forall|k: int|
            from <= k ==> !(#[trigger] hit_at(s, k, w, hit)),
        first_hit(s, from, w, hit) >= 0 ==> from <= first_hit(s, from, w, hit) && hit_at(
            s,
            first_hit(s, from, w, hit),
            w,
            hit,
        ) && forall|k: int|
            from <= k < first_hit(s, from, w, hit) ==> !(#[trigger] hit_at(s, k, w, hit)),
    decreases s.len() - from,
{
    if from + w <= s.len() && !hit_at(s, from, w, hit) {
        lemma_first_hit(s, from + 1, w, hit);
    }
}

proof fn lemma_first_stop(s: Seq<char>, from: int, stop: spec_fn(char) -> bool)
    requires
        0 <= from <= s.len(),
    ensures
        from <= first_stop(s, from, stop) <= s.len(),
    decreases s.len() - from,
{
    if from < s.len() && !stop(s[from]) {
        lemma_first_stop(s, from + 1, stop);
    }
}

/// The windows looked for have no angle brackets, and [`REDACTED`] holds none of them.
pub open spec fn apart_from_mark(w: int, hit: spec_fn(Seq<char>) -> bool) -> bool {
    &&& forall|x: Seq<char>, i: int|
        #![trigger hit(x), x[i]]
        0 <= i < x.len() && hit(x) ==> x[i] != '<' && x[i] != '>'
    &&& forall|i: int| !(#[trigger] hit_at(REDACTED@, i, w, hit))
}

/// A window of a text that was put together around [`REDACTED`] lies in one of its sides.
proof fn lemma_sides(
    a: Seq<char>,
    b: Seq<char>,
    k: int,
    w: int,
    hit: spec_fn(Seq<char>) -> bool,
)
    requires
        w > 0,
        apart_from_mark(w, hit),
        hit_at(a + REDACTED@ + b, k, w, hit),
    ensures
        hit_at(a, k, w, hit) || hit_at(b, k - a.len() - REDACTED@.len(), w, hit),
{
    reveal_strlit("<redacted>");
    let mark = REDACTED@;
    let out = a + mark + b;
    let x = out.subrange(k, k + w);
    let i = a.len() as int;
    if k + w <= i {
        assert(a.subrange(k, k + w) =~= x);
    } else if k <= i {
        assert(x[i - k] == mark[0]);
        assert(false);
    } else if k >= i + 10 {
        let j = k - i - 10;
        assert(b.subrange(j, j + w) =~= x);
    } else if k + w <= i + 10 {
        assert(mark.subrange(k - i, k - i + w) =~= x);
        assert(hit_at(mark, k - i, w, hit));
        assert(false);
    } else {
        assert(x[i + 9 - k] == mark[9]);
        assert(false);
    }
}

/// Nothing that is looked for is left.
proof fn lemma_redacted_clean(
    s: Seq<char>,
    w: int,
    hit: spec_fn(Seq<char>) -> bool,
    stop: spec_fn(char) -> bool,
    k: int,
)
    requires
        w > 0,
        apart_from_mark(w, hit),
    ensures
        !hit_at(redacted(s, w, hit, stop), k, w, hit),
    decreases s.len(),
{
    lemma_first_hit(s, 0, w, hit);
    let i = first_hit(s, 0, w, hit);
    if i >= 0 {
        lemma_first_stop(s, i + w, stop);
        let end = first_stop(s, i + w, stop);
        let a = s.subrange(0, i);
        let rest = s.subrange(end, s.len() as int);
        let b = redacted(rest, w, hit, stop);
        if hit_at(a + REDACTED@ + b, k, w, hit) {
            lemma_sides(a, b, k, w, hit);
            if hit_at(a, k, w, hit) {
                assert(a.subrange(k, k + w) =~= s.subrange(k, k + w));
                assert(hit_at(s, k, w, hit));
            } else {
                lemma_redacted_clean(rest, w, hit, stop, k - a.len() - REDACTED@.len());
            }
        }
    }
}

/// What did not stand in the text before does not stand in it afterwards.
proof fn lemma_redacted_adds_nothing(
    s: Seq<char>,
    w: int,
    hit: spec_fn(Seq<char>) -> bool,
    stop: spec_fn(char) -> bool,
    v: int,
    other: spec_fn(Seq<char>) -> bool,
    k: int,
)
    requires
        w > 0,
        v > 0,
        apart_from_mark(v, other),
        forall|j: int| !(#[trigger] hit_at(s, j, v, other)),
    ensures
        !hit_at(redacted(s, w, hit, stop), k, v, other),
    decreases s.len(),
{
    lemma_first_hit(s, 0, w, hit);
    let i = first_hit(s, 0, w, hit);
    if i >= 0 {
        lemma_first_stop(s, i + w, stop);
        let end = first_stop(s, i + w, stop);
        let a = s.subrange(0, i);
        let rest = s.subrange(end, s.len() as int);
        let b = redacted(rest, w, hit, stop);
        assert forall|j: int| !(#[trigger] hit_at(rest, j, v, other)) by {
            if hit_at(rest, j, v, other) {
                assert(rest.subrange(j, j + v) =~= s.subrange(end + j, end + j + v));
                assert(hit_at(s, end + j, v, other));
            }
        }
        if hit_at(a + REDACTED@ + b, k, v, other) {
            lemma_sides(a, b, k, v, other);
            if hit_at(a, k, v, other) {
                assert(a.subrange(k, k + v) =~= s.subrange(k, k + v));
                assert(hit_at(s, k, v, other));
            } else {
                lemma_redacted_adds_nothing(
                    rest,
                    w,
                    hit,
                    stop,
                    v,
                    other,
                    k - a.len() - REDACTED@.len(),
                );
            }
        }
    }
}

/// A text without angle brackets that does not stand in [`REDACTED`].
proof fn lemma_text_apart(p: Seq<char>)
    requires
        p.len() > 0,
        forall|i: int| 0 <= i < p.len() ==> #[trigger] p[i] != '<' && p[i] != '>',
        forall|i: int| !(#[trigger] matches_at(REDACTED@, i, p)),
    ensures
        apart_from_mark(p.len() as int, is_text(p)),
{
    let w = p.len() as int;
    assert forall|i: int| !(#[trigger] hit_at(REDACTED@, i, w, is_text(p))) by {
        assert(!matches_at(REDACTED@, i, p));
    }
}

proof fn lemma_hex_apart()
    ensures
        apart_from_mark(SECRET_HEX_DIGITS as int, is_hex()),
{
    reveal_strlit("<redacted>");
}

/// A ticket prefix is none of the windows of the mark: it holds a digit.
proof fn lemma_prefix_apart(p: Seq<char>, d: int)
    requires
        0 <= d < p.len(),
        p[d] == '1',
        forall|i: int| 0 <= i < p.len() ==> #[trigger] p[i] != '<' && p[i] != '>',
    ensures
        apart_from_mark(p.len() as int, is_text(p)),
{
    reveal_strlit("<redacted>");
    assert forall|i: int| !(#[trigger] matches_at(REDACTED@, i, p)) by {
        if matches_at(REDACTED@, i, p) {
            assert(REDACTED@.subrange(i, i + p.len())[d] == '1');
            assert(REDACTED@[i + d] == '1');
        }
    }
    lemma_text_apart(p);
}

/// No invite ticket and no long row of hexadecimal digits is left in a redacted line.
pub proof fn law_redacted_line_is_clean(s: Seq<char>)
    ensures
        !contains_text(redacted_line(s), "dirhive1-"@),
        !contains_text(redacted_line(s), "p2psync1-"@),
        forall|i: int| !(#[trigger] hit_at(
            redacted_line(s),
            i,
            SECRET_HEX_DIGITS as int,
            is_hex(),
        )),
{
    reveal_strlit("dirhive1-");
    reveal_strlit("p2psync1-");
    let p = "dirhive1-"@;
    let q = "p2psync1-"@;
    lemma_prefix_apart(p, 7);
    lemma_prefix_apart(q, 7);
    lemma_hex_apart();
    let stop = |c: char| ends_token(c);
    let gap = |c: char| !is_hex_digit(c);
    let n = SECRET_HEX_DIGITS as int;
    let one = redacted_tokens(s, p);
    let two = redacted_tokens(one, q);
    let three = redacted_hex(two);
    assert forall|k: int| !(#[trigger] hit_at(one, k, 9, is_text(p))) by {
        lemma_redacted_clean(s, 9, is_text(p), stop, k);
    }
    assert forall|k: int| !(#[trigger] hit_at(two, k, 9, is_text(q))) by {
        lemma_redacted_clean(one, 9, is_text(q), stop, k);
    }
    assert forall|k: int| !(#[trigger] hit_at(two, k, 9, is_text(p))) by {
        lemma_redacted_adds_nothing(one, 9, is_text(q), stop, 9, is_text(p), k);
    }
    assert forall|k: int| !(#[trigger] hit_at(three, k, n, is_hex())) by {
        lemma_redacted_clean(two, n, is_hex(), gap, k);
    }
    assert forall|k: int| !(#[trigger] matches_at(three, k, p)) by {
        lemma_redacted_adds_nothing(two, n, is_hex(), gap, 9, is_text(p), k);
        assert(!hit_at(three, k, 9, is_text(p)));
    }
    assert forall|k: int| !(#[trigger] matches_at(three, k, q)) by {
        lemma_redacted_adds_nothing(two, n, is_hex(), gap, 9, is_text(q), k);
        assert(!hit_at(three, k, 9, is_text(q)));
    }
}

fn white_space(c: char) -> (r: bool)
    ensures
        r == is_white_space(c),
{
    let n: u32 = c as u32;
    (0x9 <= n && n <= 0xd) || n == 0x20 || n == 0x85 || n == 0xa0 || n == 0x1680 || (0x2000 <= n
        && n <= 0x200a) || n == 0x2028 || n == 0x2029 || n == 0x202f || n == 0x205f || n == 0x3000
}

fn token_ends(c: char) -> (r: bool)
    ensures
        r == ends_token(c),
{
    white_space(c) || c == '"' || c == ','
}

fn hex_digit(c: char) -> (r: bool)
    ensures
        r == is_hex_digit(c),
{
    ('0' <= c && c <= '9') || ('a' <= c && c <= 'f') || ('A' <= c && c <= 'F')
}

/// Where the first window that is looked for stands at `i` and ends with what follows it at
/// `end`, the rest of the text is redacted by itself.
proof fn lemma_redacted_step(
    s: Seq<char>,
    pos: int,
    i: int,
    end: int,
    w: int,
    hit: spec_fn(Seq<char>) -> bool,
    stop: spec_fn(char) -> bool,
)
    requires
        w > 0,
        0 <= pos <= i,
        hit_at(s, i, w, hit),
        forall|k: int| pos <= k < i ==> !(#[trigger] hit_at(s, k, w, hit)),
        i + w <= end <= s.len(),
        forall|k: int| i + w <= k < end ==> !stop(#[trigger] s[k]),
        end < s.len() ==> stop(s[end]),
    ensures
        redacted(s.subrange(pos, s.len() as int), w, hit, stop) == s.subrange(pos, i) + REDACTED@
            + redacted(s.subrange(end, s.len() as int), w, hit, stop),
{
    let t = s.subrange(pos, s.len() as int);
    lemma_first_hit(t, 0, w, hit);
    assert forall|k: int| 0 <= k < i - pos implies !(#[trigger] hit_at(t, k, w, hit)) by {
        if hit_at(t, k, w, hit) {
            assert(t.subrange(k, k + w) =~= s.subrange(pos + k, pos + k + w));
            assert(hit_at(s, pos + k, w, hit));
        }
    }
    assert(t.subrange(i - pos, i - pos + w) =~= s.subrange(i, i + w));
    assert(hit_at(t, i - pos, w, hit));
    assert(first_hit(t, 0, w, hit) == i - pos);
    lemma_stop_is(t, i - pos + w, end - pos, stop);
    assert(t.subrange(0, i - pos) =~= s.subrange(pos, i));
    assert(t.subrange(end - pos, t.len() as int) =~= s.subrange(end, s.len() as int));
}

proof fn lemma_stop_is(s: Seq<char>, from: int, end: int, stop: spec_fn(char) -> bool)
    requires
        0 <= from <= end <= s.len(),
        forall|k: int| from <= k < end ==> !stop(#[trigger] s[k]),
        end < s.len() ==> stop(s[end]),
    ensures
        first_stop(s, from, stop) == end,
    decreases end - from,
{
    if from < end {
        lemma_stop_is(s, from + 1, end, stop);
    }
}

proof fn lemma_redacted_none(
    s: Seq<char>,
    pos: int,
    w: int,
    hit: spec_fn(Seq<char>) -> bool,
    stop: spec_fn(char) -> bool,
)
    requires
        w > 0,
        0 <= pos <= s.len(),
        forall|k: int| pos <= k ==> !(#[trigger] hit_at(s, k, w, hit)),
    ensures
        redacted(s.subrange(pos, s.len() as int), w, hit, stop) == s.subrange(pos, s.len() as int),
{
    let t = s.subrange(pos, s.len() as int);
    lemma_first_hit(t, 0, w, hit);
    let i = first_hit(t, 0, w, hit);
    if i >= 0 {
        assert(t.subrange(i, i + w) =~= s.subrange(pos + i, pos + i + w));
        assert(hit_at(s, pos + i, w, hit));
    }
}

/// `s` with [`REDACTED`] in the place of every token that begins with `prefix`.
pub fn redact_pattern(s: &str, prefix: &str) -> (r: String)
    requires
        prefix@.len() > 0,
    ensures
        r@ == redacted_tokens(s@, prefix@),
{
    let chars = chars_of(s);
    let p = chars_of(prefix);
    let n: usize = chars.len();
    let w: usize = p.len();
    let ghost text = chars@;
    let ghost hit = is_text(prefix@);
    let ghost stop = |c: char| ends_token(c);
    let mut out: String = String::new();
    let mut pos: usize = 0;
    proof {
        assert(text.subrange(0, n as int) =~= text);
        assert(out@ + redacted(text, w as int, hit, stop) =~= redacted(text, w as int, hit, stop));
    }
    loop
        invariant
            n == chars@.len(),
            w == p@.len(),
            w > 0,
            p@ == prefix@,
            text == chars@,
            text == s@,
            pos <= n,
            hit == is_text(prefix@),
            stop == (|c: char| ends_token(c)),
            redacted(text, w as int, hit, stop) == out@ + redacted(
                text.subrange(pos as int, n as int),
                w as int,
                hit,
                stop,
            ),
        decreases n - pos,
    {
        match find_text(chars.as_slice(), pos, p.as_slice()) {
            None => {
                proof {
                    assert forall|k: int| pos <= k implies !(#[trigger] hit_at(
                        text,
                        k,
                        w as int,
                        hit,
                    )) by {
                        assert(!matches_at(text, k, p@));
                    }
                    lemma_redacted_none(text, pos as int, w as int, hit, stop);
                }
                let rest = string_of(chars.as_slice(), pos, n);
                out.append(rest.as_str());
                return out;
            },
            Some(i) => {
                let before = string_of(chars.as_slice(), pos, i);
                let mut end: usize = i + w;
                while end < n && !token_ends(chars[end])
                    invariant
                        n == chars@.len(),
                        text == chars@,
                        i + w <= end <= n,
                        stop == (|c: char| ends_token(c)),
                        forall|k: int| i + w <= k < end ==> !stop(#[trigger] text[k]),
                    decreases n - end,
                {
                    end += 1;
                }
                proof {
                    assert(matches_at(text, i as int, p@));
                    assert(hit_at(text, i as int, w as int, hit));
                    assert forall|k: int| pos <= k < i implies !(#[trigger] hit_at(
                        text,
                        k,
                        w as int,
                        hit,
                    )) by {
                        assert(!matches_at(text, k, p@));
                    }
                    lemma_redacted_step(
                        text,
                        pos as int,
                        i as int,
                        end as int,
                        w as int,
                        hit,
                        stop,
                    );
                }
                let ghost so_far = out@;
                out.append(before.as_str());
                out.append(REDACTED);
                proof {
                    let rest = redacted(text.subrange(end as int, n as int), w as int, hit, stop);
                    assert(so_far + (before@ + REDACTED@ + rest) =~= out@ + rest);
                }
                pos = end;
            },
        }
    }
}

fn hex_row(chars: &Vec<char>, i: usize) -> (r: bool)
    requires
        i + SECRET_HEX_DIGITS <= chars@.len(),
    ensures
        r == hit_at(chars@, i as int, SECRET_HEX_DIGITS as int, is_hex()),
{
    let n: usize = chars.len();
    let mut k: usize = 0;
    let ghost x = chars@.subrange(i as int, i + SECRET_HEX_DIGITS);
    while k < SECRET_HEX_DIGITS
        invariant
            k <= SECRET_HEX_DIGITS,
            n == chars@.len(),
            i + SECRET_HEX_DIGITS <= n,
            x == chars@.subrange(i as int, i + SECRET_HEX_DIGITS),
            forall|j: int| 0 <= j < k ==> is_hex_digit(#[trigger] x[j]),
        decreases SECRET_HEX_DIGITS - k,
    {
        if !hex_digit(chars[i + k]) {
            proof {
                assert(!is_hex_digit(x[k as int]));
            }
            return false;
        }
        k += 1;
    }
    true
}

fn find_hex(chars: &Vec<char>, from: usize) -> (r: Option<usize>)
    ensures
        r matches Some(i) ==> from <= i && hit_at(
            chars@,
            i as int,
            SECRET_HEX_DIGITS as int,
            is_hex(),
        ) && forall|k: int|
            from <= k < i ==> !(#[trigger] hit_at(
                chars@,
                k,
                SECRET_HEX_DIGITS as int,
                is_hex(),
            )),
        r is None ==> forall|k: int|
            from <= k ==> !(#[trigger] hit_at(chars@, k, SECRET_HEX_DIGITS as int, is_hex())),
{
    let n: usize = chars.len();
    let mut i: usize = from;
    while i < n && SECRET_HEX_DIGITS <= n - i
        invariant
            n == chars@.len(),
            from <= i,
            forall|k: int|
                from <= k < i ==> !(#[trigger] hit_at(
                    chars@,
                    k,
                    SECRET_HEX_DIGITS as int,
                    is_hex(),
                )),
        decreases n - i,
    {
        if hex_row(chars, i) {
            return Some(i);
        }
        i += 1;
    }
    None
}

/// `s` with [`REDACTED`] in the place of every row of at least [`SECRET_HEX_DIGITS`] hexadecimal
/// digits.
pub fn redact_hex(s: &str) -> (r: String)
    ensures
        r@ == redacted_hex(s@),
{
    let chars = chars_of(s);
    let n: usize = chars.len();
    let w: usize = SECRET_HEX_DIGITS;
    let ghost text = chars@;
    let ghost hit = is_hex();
    let ghost stop = |c: char| !is_hex_digit(c);
    let mut out: String = String::new();
    let mut pos: usize = 0;
    proof {
        assert(text.subrange(0, n as int) =~= text);
        assert(out@ + redacted(text, w as int, hit, stop) =~= redacted(text, w as int, hit, stop));
    }
    loop
        invariant
            n == chars@.len(),
            w == SECRET_HEX_DIGITS,
            text == chars@,
            text == s@,
            pos <= n,
            hit == is_hex(),
            stop == (|c: char| !is_hex_digit(c)),
            redacted(text, w as int, hit, stop) == out@ + redacted(
                text.subrange(pos as int, n as int),
                w as int,
                hit,
                stop,
            ),
        decreases n - pos,
    {
        match find_hex(&chars, pos) {
            None => {
                proof {
                    lemma_redacted_none(text, pos as int, w as int, hit, stop);
                }
                let rest = string_of(chars.as_slice(), pos, n);
                out.append(rest.as_str());
                return out;
            },
            Some(i) => {
                let before = string_of(chars.as_slice(), pos, i);
                let mut end: usize = i + w;
                while end < n && hex_digit(chars[end])
                    invariant
                        n == chars@.len(),
                        text == chars@,
                        i + w <= end <= n,
                        stop == (|c: char| !is_hex_digit(c)),
                        forall|k: int| i + w <= k < end ==> !stop(#[trigger] text[k]),
                    decreases n - end,
                {
                    end += 1;
                }
                proof {
                    lemma_redacted_step(
                        text,
                        pos as int,
                        i as int,
                        end as int,
                        w as int,
                        hit,
                        stop,
                    );
                }
                let ghost so_far = out@;
                out.append(before.as_str());
                out.append(REDACTED);
                proof {
                    let rest = redacted(text.subrange(end as int, n as int), w as int, hit, stop);
                    assert(so_far + (before@ + REDACTED@ + rest) =~= out@ + rest);
                }
                pos = end;
            },
        }
    }
}

/// A log line without secrets.
pub fn redact_secrets(line: &str) -> (r: String)
    ensures
        r@ == redacted_line(line@),
{
    proof {
        reveal_strlit("dirhive1-");
        reveal_strlit("p2psync1-");
    }
    let one = redact_pattern(line, "dirhive1-");
    let two = redact_pattern(one.as_str(), "p2psync1-");
    redact_hex(two.as_str())
}

/// The line without the carriage return at its end.
pub open spec fn without_return(line: Seq<char>) -> Seq<char> {
    if line.len() > 0 && line.last() == '\r' {
        line.drop_last()
    } else {
        line
    }
}

/// The lines of a text. A line ends with a line feed, in front of which a carriage return may
/// stand; a last line without one counts if it is not empty.
pub open spec fn lines_of(s: Seq<char>) -> Seq<Seq<char>> {
    let parts = split_text(s, '\n');
    let ended = parts.drop_last().map_values(|l: Seq<char>| without_return(l));
    if parts.last().len() == 0 {
        ended
    } else {
        ended.push(parts.last())
    }
}

/// The last `n`, or all where there are fewer.
pub open spec fn last_ones(lines: Seq<Seq<char>>, n: int) -> Seq<Seq<char>> {
    if lines.len() <= n {
        lines
    } else {
        lines.subrange(lines.len() - n, lines.len() as int)
    }
}

fn strip_return(line: &str) -> (r: String)
    ensures
        r@ == without_return(line@),
{
    let chars = chars_of(line);
    let n: usize = chars.len();
    if n > 0 && chars[n - 1] == '\r' {
        let r = string_of(chars.as_slice(), 0, n - 1);
        proof {
            assert(r@ =~= line@.drop_last());
        }
        r
    } else {
        line.to_owned()
    }
}

/// The lines of a text.
pub fn lines(s: &str) -> (out: Vec<String>)
    ensures
        texts(out@) == lines_of(s@),
{
    let parts = split(s, '\n');
    let n: usize = parts.len();
    let ghost all = texts(parts@);
    let ghost f = |l: Seq<char>| without_return(l);
    let mut out: Vec<String> = Vec::new();
    let mut i: usize = 0;
    proof {
        assert(texts(out@) =~= all.take(0).map_values(f));
    }
    while i < n - 1
        invariant
            n == parts@.len(),
            n >= 1,
            i <= n - 1,
            all == texts(parts@),
            f == (|l: Seq<char>| without_return(l)),
            texts(out@) == all.take(i as int).map_values(f),
        decreases n - i,
    {
        let line = strip_return(parts[i].as_str());
        let ghost before = out@;
        let ghost text = line@;
        out.push(line);
        proof {
            assert(texts(out@) =~= texts(before).push(text));
            assert(all.take(i + 1).map_values(f) =~= all.take(i as int).map_values(f).push(text));
        }
        i += 1;
    }
    proof {
        assert(all.take(n - 1) =~= all.drop_last());
    }
    if !parts[n - 1].as_str().is_empty() {
        let ghost before = out@;
        out.push(parts[n - 1].clone());
        proof {
            assert(texts(out@) =~= texts(before).push(all.last()));
        }
    }
    out
}

/// The last `n` lines of a log, without secrets; none where there is no log.
pub fn tail_lines_redacted(log: Option<&str>, n: usize) -> (out: Vec<String>)
    ensures
        texts(out@) == match log {
            None => Seq::<Seq<char>>::empty(),
            Some(s) => last_ones(lines_of(s@), n as int).map_values(
                |l: Seq<char>| redacted_line(l),
            ),
        },
{
    let mut out: Vec<String> = Vec::new();
    let s = match log {
        None => {
            proof {
                assert(texts(out@) =~= Seq::<Seq<char>>::empty());
            }
            return out;
        },
        Some(s) => s,
    };
    let all = lines(s);
    let total: usize = all.len();
    let first: usize = if total <= n {
        0
    } else {
        total - n
    };
    let ghost texts_all = texts(all@);
    let ghost f = |l: Seq<char>| redacted_line(l);
    let ghost wanted = last_ones(texts_all, n as int);
    let mut i: usize = first;
    proof {
        assert(wanted =~= texts_all.subrange(first as int, total as int));
        assert(texts(out@) =~= wanted.take(0).map_values(f));
    }
    while i < total
        invariant
            first <= i <= total,
            total == all@.len(),
            texts_all == texts(all@),
            f == (|l: Seq<char>| redacted_line(l)),
            wanted == texts_all.subrange(first as int, total as int),
            texts(out@) == wanted.take(i - first).map_values(f),
        decreases total - i,
    {
        let line = redact_secrets(all[i].as_str());
        let ghost before = out@;
        let ghost text = line@;
        out.push(line);
        proof {
            assert(texts(out@) =~= texts(before).push(text));
            assert(wanted[i - first] == texts_all[i as int]);
            assert(wanted.take(i + 1 - first).map_values(f) =~= wanted.take(i - first).map_values(
                f,
            ).push(text));
        }
        i += 1;
    }
    proof {
        assert(wanted.take(total - first) =~= wanted);
    }
    out
}

/// A line in which nothing is looked for stays as it is.
pub proof fn law_harmless_line_is_kept(s: Seq<char>)
    requires
        !contains_text(s, "dirhive1-"@),
        !contains_text(s, "p2psync1-"@),
        forall|i: int, j: int|
            #![trigger s.subrange(i, j)]
            0 <= i && i + 32 == j && j <= s.len() ==> exists|k: int|
                i <= k < j && !is_hex_digit(#[trigger] s[k]),
    ensures
        redacted_line(s) == s,
{
    reveal_strlit("dirhive1-");
    reveal_strlit("p2psync1-");
    let p = "dirhive1-"@;
    let q = "p2psync1-"@;
    let n = SECRET_HEX_DIGITS as int;
    assert forall|k: int| !(#[trigger] hit_at(s, k, 9, is_text(p))) by {
        if hit_at(s, k, 9, is_text(p)) {
            assert(matches_at(s, k, p));
        }
    }
    assert forall|k: int| !(#[trigger] hit_at(s, k, 9, is_text(q))) by {
        if hit_at(s, k, 9, is_text(q)) {
            assert(matches_at(s, k, q));
        }
    }
    assert forall|k: int| !(#[trigger] hit_at(s, k, n, is_hex())) by {
        if hit_at(s, k, n, is_hex()) {
            let x = s.subrange(k, k + n);
            let d = choose|d: int| k <= d < k + 32 && !is_hex_digit(#[trigger] s[d]);
            assert(x[d - k] == s[d]);
        }
    }
    lemma_first_hit(s, 0, 9, is_text(p));
    lemma_first_hit(s, 0, 9, is_text(q));
    lemma_first_hit(s, 0, n, is_hex());
}

/// A ticket and what follows it up to the end of the token give way to the mark; what stands before
/// and behind the token stays, up to the next ticket.
pub proof fn law_token_gives_way(s: Seq<char>, prefix: Seq<char>, at: int, end: int)
    requires
        prefix.len() > 0,
        0 <= at,
        at + prefix.len() <= end <= s.len(),
        s.subrange(at, at + prefix.len()) == prefix,
        forall|k: int| 0 <= k < at ==> !(#[trigger] matches_at(s, k, prefix)),
        forall|k: int| at + prefix.len() <= k < end ==> !ends_token(#[trigger] s[k]),
        end < s.len() ==> ends_token(s[end]),
    ensures
        redacted_tokens(s, prefix) == s.subrange(0, at) + "<redacted>"@ + redacted_tokens(
            s.subrange(end, s.len() as int),
            prefix,
        ),
{
    let w = prefix.len() as int;
    let hit = is_text(prefix);
    let stop = |c: char| ends_token(c);
    lemma_first_hit(s, 0, w, hit);
    assert(hit_at(s, at, w, hit));
    let i = first_hit(s, 0, w, hit);
    if i < at {
        assert(matches_at(s, i, prefix));
    }
    lemma_stop_is(s, at + w, end, stop);
}

/// A whole row of 32 or more hexadecimal digits gives way to the mark; what stands before and
/// behind it stays, up to the next such row.
pub proof fn law_long_hex_gives_way(s: Seq<char>, at: int, end: int)
    requires
        0 <= at,
        at + 32 <= end <= s.len(),
        forall|k: int| at <= k < end ==> is_hex_digit(#[trigger] s[k]),
        end < s.len() ==> !is_hex_digit(s[end]),
        forall|k: int| 0 <= k < at ==> !(#[trigger] hit_at(s, k, 32, is_hex())),
    ensures
        redacted_hex(s) == s.subrange(0, at) + "<redacted>"@ + redacted_hex(
            s.subrange(end, s.len() as int),
        ),
{
    let hit = is_hex();
    let stop = |c: char| !is_hex_digit(c);
    lemma_first_hit(s, 0, 32, hit);
    let x = s.subrange(at, at + 32);
    assert forall|i: int| 0 <= i < x.len() implies is_hex_digit(#[trigger] x[i]) by {
        assert(x[i] == s[at + i]);
    }
    assert(hit_at(s, at, 32, hit));
    lemma_stop_is(s, at + 32, end, stop);
}

/// A token goes on over letters, digits and the marks of a ticket, and ends at white space, a
/// quotation mark or a comma.
pub proof fn law_tokens_end(c: char)
    ensures
        c == ' ' || c == '\t' || c == '\n' || c == '\r' || c == '"' || c == ',' ==> ends_token(c),
        ('a' <= c && c <= 'z') || ('A' <= c && c <= 'Z') || ('0' <= c && c <= '9') || c == '-' || c
            == '_' ==> !ends_token(c),
        is_hex_digit(c) <==> ('0' <= c && c <= '9') || ('a' <= c && c <= 'f') || ('A' <= c && c
            <= 'F'),
{
}

/// The lines of a text without carriage returns hold all of it: put together again with line feeds
/// between them, and one at the end where the text ends with one, they are the text.
pub proof fn law_lines_make_the_text(s: Seq<char>)
    requires
        s.len() > 0,
        !s.contains('\r'),
    ensures
        ({
            let lines = lines_of(s);
            &&& forall|i: int| 0 <= i < lines.len() ==> !(#[trigger] lines[i]).contains('\n')
            &&& s.last() != '\n' ==> join_text(lines, '\n') == s
            &&& s.last() == '\n' ==> join_text(lines, '\n').push('\n') == s
        }),
{
    let parts = split_text(s, '\n');
    lemma_split_join(s, '\n');
    let front = parts.drop_last();
    let f = |l: Seq<char>| without_return(l);
    assert forall|i: int| 0 <= i < front.len() implies f(#[trigger] front[i]) == front[i] by {
        lemma_piece_has(parts, i, s, '\r');
        if front[i].len() > 0 && front[i].last() == '\r' {
            assert(front[i].contains('\r'));
        }
    }
    assert(front.map_values(f) =~= front);
    assert(front.push(parts.last()) =~= parts);
    if parts.last().len() == 0 {
        if front.len() == 0 {
            assert(parts.len() == 1);
            assert(join_text(parts, '\n') =~= Seq::<char>::empty());
        } else {
            assert(join_text(parts, '\n') =~= join_text(front, '\n').push('\n'));
        }
    } else {
        assert(parts.last().contains(parts.last().last()));
        assert(parts.last() == parts[parts.len() - 1]);
        if parts.len() > 1 {
            assert(s == join_text(front, '\n').push('\n') + parts.last());
        } else {
            assert(s == parts[0]);
        }
    }
}

proof fn lemma_piece_has(parts: Seq<Seq<char>>, i: int, s: Seq<char>, c: char)
    requires
        0 <= i < parts.len(),
        s == join_text(parts, '\n'),
        !s.contains(c),
    ensures
        !parts[i].contains(c),
    decreases parts.len(),
{
    if parts.len() == 1 {
        assert(join_text(parts, '\n') == parts[0]);
    } else {
        let front = parts.drop_last();
        let head = join_text(front, '\n');
        assert(s == head.push('\n') + parts.last());
        if i == parts.len() - 1 {
            assert forall|k: int| 0 <= k < parts[i].len() implies parts[i][k] != c by {
                assert(s[head.len() + 1 + k] == parts[i][k]);
                assert(s.contains(s[head.len() + 1 + k]));
            }
        } else {
            assert forall|k: int| 0 <= k < head.len() implies head[k] != c by {
                assert(s[k] == head[k]);
                assert(s.contains(s[k]));
            }
            lemma_piece_has(front, i, head, c);
            assert(front[i] == parts[i]);
        }
    }
}

/// The last lines are the end of the lines, as many as asked for or all there are.
pub proof fn law_last_lines(lines: Seq<Seq<char>>, n: int)
    requires
        n >= 0,
    ensures
        ({
            let out = last_ones(lines, n);
            &&& out.len() == if lines.len() < n {
                lines.len() as int
            } else {
                n
            }
            &&& forall|i: int|
                0 <= i < out.len() ==> #[trigger] out[i] == lines[lines.len() - out.len() + i]
        }),
{
}

} // verus!
