//! Text as sequences of characters: searching, splitting, joining and numerals.
use vstd::prelude::*;
use vstd::utf8::encode_utf8;

verus! {

/// `String::push` appends one character at the end of the string.
pub assume_specification[ String::push ](s: &mut String, ch: char)
    ensures
        final(s)@ == old(s)@.push(ch),
;

/// `str::eq` holds exactly of two strings with the same characters.
pub assume_specification[ <str as PartialEq>::eq ](s: &str, other: &str) -> (res: bool)
    ensures
        res == (s@ == other@),
;

/// The texts of a list of strings.
pub open spec fn texts(v: Seq<String>) -> Seq<Seq<char>> {
    v.map_values(|s: String| s@)
}

/// `p` stands in `s` at position `i`.
pub open spec fn matches_at(s: Seq<char>, i: int, p: Seq<char>) -> bool {
    0 <= i && i + p.len() <= s.len() && s.subrange(i, i + p.len()) == p
}

/// `p` stands somewhere in `s`.
pub open spec fn contains_text(s: Seq<char>, p: Seq<char>) -> bool {
    exists|i: int| #[trigger] matches_at(s, i, p)
}

/// `s` begins with `p`.
pub open spec fn starts_with_text(s: Seq<char>, p: Seq<char>) -> bool {
    matches_at(s, 0, p)
}

/// `s` ends with `p`.
pub open spec fn ends_with_text(s: Seq<char>, p: Seq<char>) -> bool {
    matches_at(s, s.len() - p.len(), p)
}

/// The pieces of `s` between the occurrences of `sep`: always one more than there are occurrences.
pub open spec fn split_text(s: Seq<char>, sep: char) -> Seq<Seq<char>>
    decreases s.len(),
{
    if s.len() == 0 {
        seq![Seq::<char>::empty()]
    } else {
        let before = split_text(s.drop_last(), sep);
        if s.last() == sep {
            before.push(Seq::<char>::empty())
        } else {
            before.drop_last().push(before.last().push(s.last()))
        }
    }
}

/// The pieces, one after the other, with `sep` between neighbours.
pub open spec fn join_text(parts: Seq<Seq<char>>, sep: char) -> Seq<char>
    decreases parts.len(),
{
    if parts.len() == 0 {
        Seq::<char>::empty()
    } else if parts.len() == 1 {
        parts[0]
    } else {
        join_text(parts.drop_last(), sep).push(sep) + parts.last()
    }
}

/// Splitting gives at least one piece, no piece holds the separator, and joining undoes it.
pub proof fn lemma_split_join(s: Seq<char>, sep: char)
    ensures
        split_text(s, sep).len() >= 1,
        forall|i: int|
            0 <= i < split_text(s, sep).len() ==> !(#[trigger] split_text(s, sep)[i]).contains(sep),
        join_text(split_text(s, sep), sep) == s,
    decreases s.len(),
{
    reveal_with_fuel(join_text, 2);
    let parts = split_text(s, sep);
    if s.len() == 0 {
        assert(join_text(parts, sep) =~= s);
    } else {
        let before = split_text(s.drop_last(), sep);
        lemma_split_join(s.drop_last(), sep);
        assert(s =~= s.drop_last().push(s.last()));
        if s.last() == sep {
            assert(parts.drop_last() =~= before);
            assert(join_text(parts, sep) =~= s);
        } else {
            assert(parts.drop_last() =~= before.drop_last());
            let grown = before.last().push(s.last());
            assert(parts.last() == grown);
            assert forall|i: int| 0 <= i < parts.len() implies !(#[trigger] parts[i]).contains(
                sep,
            ) by {
                if i < parts.len() - 1 {
                    assert(parts[i] == before[i]);
                } else {
                    assert(parts[i] == grown);
                    assert(before.last() == before[before.len() - 1]);
                    if grown.contains(sep) {
                        let k = choose|k: int| 0 <= k < grown.len() && grown[k] == sep;
                        assert(before.last()[k] == sep);
                        assert(before.last().contains(sep));
                    }
                }
            }
            assert(join_text(parts, sep) =~= join_text(before, sep).push(s.last()));
        }
    }
}

/// The characters of `s`, in order.
pub fn chars_of(s: &str) -> (out: Vec<char>)
    ensures
        out@ == s@,
{
    let mut out: Vec<char> = Vec::new();
    for c in it: s.chars()
        invariant
            out@ == s@.take(it.index() as int),
            it.seq() == s@,
    {
        out.push(c);
        proof {
            assert(s@.take(it.index() + 1) =~= s@.take(it.index() as int).push(c));
        }
    }
    proof {
        assert(s@.take(s@.len() as int) =~= s@);
    }
    out
}

/// The string made of the characters `v[from..to]`.
pub fn string_of(v: &[char], from: usize, to: usize) -> (out: String)
    requires
        from <= to <= v@.len(),
    ensures
        out@ == v@.subrange(from as int, to as int),
{
    let mut out: String = String::new();
    let mut i: usize = from;
    while i < to
        invariant
            from <= i <= to <= v@.len(),
            out@ == v@.subrange(from as int, i as int),
        decreases to - i,
    {
        out.push(v[i]);
        proof {
            assert(v@.subrange(from as int, i + 1) =~= v@.subrange(from as int, i as int).push(
                v@[i as int],
            ));
        }
        i += 1;
    }
    out
}

/// `head` is how `s` begins: as many of its first characters as fit in `n` bytes.
pub open spec fn is_head(head: Seq<char>, s: Seq<char>, n: nat) -> bool {
    &&& head.len() <= s.len()
    &&& head == s.subrange(0, head.len() as int)
    &&& encode_utf8(head).len() <= n
    &&& head.len() == s.len() || encode_utf8(s.subrange(0, head.len() as int + 1)).len() > n
}

/// How a text begins: as many of its first characters as fit in `n` bytes.
pub fn head_of(s: &str, n: usize) -> (head: String)
    ensures
        is_head(head@, s@, n as nat),
{
    let chars = chars_of(s);
    let mut head: String = string_of(chars.as_slice(), 0, 0);
    let mut k: usize = 0;
    while k < chars.len()
        invariant
            k <= chars@.len(),
            chars@ == s@,
            head@ == s@.subrange(0, k as int),
            encode_utf8(head@).len() <= n,
        decreases chars@.len() - k,
    {
        let more = string_of(chars.as_slice(), 0, k + 1);
        if more.as_str().as_bytes().len() > n {
            return head;
        }
        head = more;
        k += 1;
    }
    head
}

/// Whether `p` stands in `s` at position `i`.
pub fn text_at(s: &[char], i: usize, p: &[char]) -> (r: bool)
    ensures
        r == matches_at(s@, i as int, p@),
{
    if i > s.len() || p.len() > s.len() - i {
        return false;
    }
    let n: usize = s.len();
    let mut k: usize = 0;
    while k < p.len()
        invariant
            k <= p@.len(),
            n == s@.len(),
            i + p@.len() <= n,
            forall|j: int| 0 <= j < k ==> s@[i + j] == p@[j],
        decreases p@.len() - k,
    {
        if s[i + k] != p[k] {
            proof {
                assert(s@.subrange(i as int, i + p@.len())[k as int] != p@[k as int]);
            }
            return false;
        }
        k += 1;
    }
    proof {
        assert(s@.subrange(i as int, i + p@.len()) =~= p@);
    }
    true
}

/// The first position at or after `from` where `p` stands in `s`.
pub fn find_text(s: &[char], from: usize, p: &[char]) -> (r: Option<usize>)
    ensures
        r matches Some(i) ==> from <= i && i + p@.len() <= s@.len() && matches_at(s@, i as int, p@)
            && forall|j: int| from <= j < i ==> !(#[trigger] matches_at(s@, j, p@)),
        r is None ==> forall|j: int| from <= j ==> !(#[trigger] matches_at(s@, j, p@)),
{
    let mut i: usize = from;
    while i <= s.len() && p.len() <= s.len() - i
        invariant
            from <= i,
            forall|j: int| from <= j < i ==> !(#[trigger] matches_at(s@, j, p@)),
        decreases s@.len() + 1 - i,
    {
        if text_at(s, i, p) {
            return Some(i);
        }
        if i == s.len() {
            return None;
        }
        i += 1;
    }
    None
}

/// Whether `p` stands somewhere in `s`.
pub fn text_contains(s: &[char], p: &[char]) -> (r: bool)
    ensures
        r == contains_text(s@, p@),
{
    match find_text(s, 0, p) {
        Some(_) => true,
        None => {
            proof {
                assert forall|i: int| !(#[trigger] matches_at(s@, i, p@)) by {}
            }
            false
        },
    }
}

/// Whether `s` ends with `p`.
pub fn text_ends_with(s: &[char], p: &[char]) -> (r: bool)
    ensures
        r == ends_with_text(s@, p@),
{
    if p.len() > s.len() {
        false
    } else {
        text_at(s, s.len() - p.len(), p)
    }
}

/// The pieces of `s` between the occurrences of `sep`.
pub fn split(s: &str, sep: char) -> (out: Vec<String>)
    ensures
        texts(out@) == split_text(s@, sep),
        out@.len() >= 1,
{
    let chars = chars_of(s);
    let mut out: Vec<String> = Vec::new();
    let mut cur: String = String::new();
    let mut i: usize = 0;
    proof {
        assert(chars@.take(0) =~= Seq::<char>::empty());
        assert(texts(out@).push(cur@) =~= split_text(chars@.take(0), sep));
    }
    while i < chars.len()
        invariant
            i <= chars@.len(),
            texts(out@).push(cur@) == split_text(chars@.take(i as int), sep),
        decreases chars@.len() - i,
    {
        let c = chars[i];
        let ghost before = texts(out@).push(cur@);
        proof {
            assert(chars@.take(i + 1).drop_last() =~= chars@.take(i as int));
            assert(before.drop_last() =~= texts(out@));
        }
        if c == sep {
            let ghost prev = out@;
            let ghost piece = cur;
            out.push(cur);
            cur = String::new();
            proof {
                assert(texts(out@) =~= texts(prev).push(piece@));
                assert(texts(out@).push(cur@) =~= before.push(Seq::<char>::empty()));
            }
        } else {
            cur.push(c);
            proof {
                assert(texts(out@).push(cur@) =~= before.drop_last().push(before.last().push(c)));
            }
        }
        i += 1;
    }
    let ghost prev = out@;
    let ghost piece = cur;
    out.push(cur);
    proof {
        assert(texts(out@) =~= texts(prev).push(piece@));
        assert(chars@.take(i as int) =~= chars@);
    }
    out
}

/// The pieces `parts[from..to]` joined by `sep`.
pub fn join(parts: &Vec<String>, from: usize, to: usize, sep: char) -> (out: String)
    requires
        from <= to <= parts@.len(),
    ensures
        out@ == join_text(texts(parts@).subrange(from as int, to as int), sep),
{
    let mut out: String = String::new();
    let mut i: usize = from;
    let ghost all = texts(parts@);
    while i < to
        invariant
            from <= i <= to <= parts@.len(),
            all == texts(parts@),
            out@ == join_text(all.subrange(from as int, i as int), sep),
        decreases to - i,
    {
        let ghost before = all.subrange(from as int, i as int);
        let ghost after = all.subrange(from as int, i + 1);
        proof {
            assert(after.drop_last() =~= before);
            assert(after.last() == parts@[i as int]@);
        }
        if i > from {
            out.push(sep);
        }
        out.append(parts[i].as_str());
        proof {
            if i == from {
                assert(out@ =~= after[0]);
            }
        }
        i += 1;
    }
    out
}

/// `c` with the letters `a` to `z` in upper case.
pub open spec fn ascii_upper(c: char) -> char {
    if 'a' <= c && c <= 'z' {
        (c as u32 - 32) as char
    } else {
        c
    }
}

/// Every character of `s` in upper case.
pub fn to_upper(s: &[char]) -> (out: String)
    ensures
        out@ == s@.map_values(|c: char| ascii_upper(c)),
{
    let mut out: String = String::new();
    let mut i: usize = 0;
    let ghost f = |c: char| ascii_upper(c);
    while i < s.len()
        invariant
            i <= s@.len(),
            f == (|c: char| ascii_upper(c)),
            out@ == s@.take(i as int).map_values(f),
        decreases s@.len() - i,
    {
        let c = s[i];
        let d: char = if 'a' <= c && c <= 'z' {
            ((c as u8) - 32) as char
        } else {
            c
        };
        out.push(d);
        proof {
            assert(d == ascii_upper(c));
            assert(s@.take(i + 1).map_values(f) =~= s@.take(i as int).map_values(f).push(d));
        }
        i += 1;
    }
    proof {
        assert(s@.take(i as int) =~= s@);
    }
    out
}

/// The decimal digit of `n % 10`.
pub open spec fn digit_char(n: nat) -> char {
    ((n % 10) as u8 + 48) as char
}

/// `n` in decimal, without leading zeros.
pub open spec fn decimal_text(n: nat) -> Seq<char>
    decreases n,
{
    if n < 10 {
        seq![digit_char(n)]
    } else {
        decimal_text(n / 10).push(digit_char(n))
    }
}

/// `n` in decimal with at least `width` digits, zeros in front.
pub open spec fn padded_text(n: nat, width: nat) -> Seq<char>
    decreases width,
{
    if width == 0 {
        Seq::<char>::empty()
    } else {
        padded_text(n / 10, (width - 1) as nat).push(digit_char(n))
    }
}

/// An integer in decimal, with a minus sign in front of a negative one.
pub open spec fn signed_text(n: int) -> Seq<char> {
    if n < 0 {
        seq!['-'] + decimal_text((-n) as nat)
    } else {
        decimal_text(n as nat)
    }
}

fn digit(n: u64) -> (c: char)
    ensures
        c == digit_char(n as nat),
{
    let d: u8 = (n % 10) as u8;
    (d + 48) as char
}

/// `n` in decimal.
pub fn decimal(n: u64) -> (out: String)
    ensures
        out@ == decimal_text(n as nat),
    decreases n,
{
    if n < 10 {
        let mut out: String = String::new();
        out.push(digit(n));
        proof {
            assert(out@ =~= seq![digit_char(n as nat)]);
        }
        out
    } else {
        let mut out: String = decimal(n / 10);
        out.push(digit(n));
        out
    }
}

/// The last `width` decimal digits of `n`, zeros in front.
pub fn padded(n: u64, width: usize) -> (out: String)
    ensures
        out@ == padded_text(n as nat, width as nat),
    decreases width,
{
    if width == 0 {
        String::new()
    } else {
        let mut out: String = padded(n / 10, width - 1);
        out.push(digit(n));
        out
    }
}

/// `n` in decimal, with a minus sign in front of a negative one.
pub fn signed_decimal(n: i64) -> (out: String)
    ensures
        out@ == signed_text(n as int),
{
    if n < 0 {
        let mut out: String = String::new();
        out.push('-');
        let magnitude: u64 = if n == i64::MIN {
            0x8000_0000_0000_0000u64
        } else {
            (-n) as u64
        };
        let digits = decimal(magnitude);
        out.append(digits.as_str());
        proof {
            assert(out@ =~= seq!['-'] + decimal_text((-n) as nat));
        }
        out
    } else {
        decimal(n as u64)
    }
}

/// Whether two byte strings hold the same bytes.
pub fn same_bytes(a: &[u8], b: &[u8]) -> (r: bool)
    ensures
        r == (a@ == b@),
{
    if a.len() != b.len() {
        return false;
    }
    let mut i: usize = 0;
    while i < a.len()
        invariant
            i <= a@.len(),
            a@.len() == b@.len(),
            forall|j: int| 0 <= j < i ==> a@[j] == b@[j],
        decreases a@.len() - i,
    {
        if a[i] != b[i] {
            return false;
        }
        i += 1;
    }
    proof {
        assert(a@ =~= b@);
    }
    true
}

/// The number that decimal digits stand for.
pub open spec fn decimal_value(s: Seq<char>) -> int
    decreases s.len(),
{
    if s.len() == 0 {
        0
    } else {
        decimal_value(s.drop_last()) * 10 + (s.last() as int - '0' as int)
    }
}

/// A number in decimal stands for itself and is written without leading zeros.
pub proof fn law_decimal_value(n: nat)
    ensures
        decimal_value(decimal_text(n)) == n,
        decimal_text(n).len() > 0,
        n > 0 ==> decimal_text(n)[0] != '0',
        n == 0 ==> decimal_text(n) == seq!['0'],
    decreases n,
{
    let s = decimal_text(n);
    reveal_with_fuel(decimal_value, 2);
    if n >= 10 {
        law_decimal_value(n / 10);
        assert(s.drop_last() =~= decimal_text(n / 10));
        assert(s[0] == decimal_text(n / 10)[0]);
    } else {
        assert(s.drop_last() =~= Seq::<char>::empty());
    }
}

/// A number with leading zeros has the given number of digits, and stands for itself where it fits.
pub proof fn law_padded_value(n: nat, width: nat)
    ensures
        padded_text(n, width).len() == width,
        decimal_value(padded_text(n, width)) == n % crate::pending_log::pow10(width),
    decreases width,
{
    if width > 0 {
        let w = (width - 1) as nat;
        law_padded_value(n / 10, w);
        let s = padded_text(n, width);
        assert(s.drop_last() =~= padded_text(n / 10, w));
        let p = crate::pending_log::pow10(w);
        lemma_pow10_positive(w);
        assert(n % (10 * p) == 10 * ((n / 10) % p) + n % 10) by (nonlinear_arith)
            requires
                p > 0,
        {
            let q = (n / 10) / p;
            let r = (n / 10) % p;
            assert(n / 10 == p * q + r);
            assert(n == 10 * (n / 10) + n % 10);
            assert(n == (10 * p) * q + (10 * r + n % 10));
            assert(0 <= 10 * r + n % 10 < 10 * p);
            vstd::arithmetic::div_mod::lemma_fundamental_div_mod_converse(
                n as int,
                (10 * p) as int,
                q as int,
                (10 * r + n % 10) as int,
            );
        }
    }
}

proof fn lemma_pow10_positive(n: nat)
    ensures
        crate::pending_log::pow10(n) > 0,
    decreases n,
{
    if n > 0 {
        lemma_pow10_positive((n - 1) as nat);
    }
}

/// A negative number has a minus sign in front of the number without it.
pub proof fn law_signed_text(n: int)
    ensures
        n < 0 ==> signed_text(n)[0] == '-' && decimal_value(signed_text(n).drop_first()) == -n,
        n >= 0 ==> decimal_value(signed_text(n)) == n,
{
    if n < 0 {
        law_decimal_value((-n) as nat);
        assert(signed_text(n).drop_first() =~= decimal_text((-n) as nat));
    } else {
        law_decimal_value(n as nat);
    }
}

/// In upper case, the letters `a` to `z` become `A` to `Z`, each its own, and nothing else changes.
pub proof fn law_upper_case(c: char)
    ensures
        'a' <= c && c <= 'z' ==> ascii_upper(c) as int == c as int - 'a' as int + 'A' as int,
        !('a' <= c && c <= 'z') ==> ascii_upper(c) == c,
        ascii_upper(ascii_upper(c)) == ascii_upper(c),
{
}

/// What is shown of a text is how it begins, within the number of bytes; and the whole text where
/// that fits.
pub proof fn law_head_is_the_beginning(head: Seq<char>, s: Seq<char>, n: nat)
    requires
        is_head(head, s, n),
        encode_utf8(s).len() <= n,
    ensures
        head == s,
{
    let k = head.len() as int;
    if k < s.len() {
        lemma_encoded_grows(s, k + 1);
    } else {
        assert(s.subrange(0, k) =~= s);
    }
}

proof fn lemma_encoded_grows(s: Seq<char>, k: int)
    requires
        0 <= k <= s.len(),
    ensures
        encode_utf8(s.subrange(0, k)).len() <= encode_utf8(s).len(),
    decreases s.len(),
{
    if k > 0 {
        let t = s.subrange(0, k);
        assert(t.drop_first() =~= s.drop_first().subrange(0, k - 1));
        lemma_encoded_grows(s.drop_first(), k - 1);
        assert(t[0] == s[0]);
    } else {
        assert(s.subrange(0, 0) =~= Seq::<char>::empty());
    }
}

} // verus!
