//! Lower-case hexadecimal text of byte strings.
use vstd::prelude::*;

verus! {

/// The lower-case hexadecimal digit of `n`, for `n` below 16.
pub open spec fn hex_digit(n: int) -> char {
    if n < 10 {
        (n + 48) as char
    } else {
        (n + 87) as char
    }
}

/// Two lower-case hexadecimal digits for each byte, high digit first.
pub open spec fn hex_text(bytes: Seq<u8>) -> Seq<char> {
    Seq::new(
        bytes.len() * 2,
        |i: int|
            if i % 2 == 0 {
                hex_digit(bytes[i / 2] as int / 16)
            } else {
                hex_digit(bytes[i / 2] as int % 16)
            },
    )
}

/// A lower-case hexadecimal digit.
pub open spec fn is_lower_hex(c: char) -> bool {
    ('0' <= c && c <= '9') || ('a' <= c && c <= 'f')
}

/// Two bytes strings with the same hexadecimal text are the same, the text has two digits for
/// each byte, and it is made of lower-case hexadecimal digits only.
pub proof fn law_hex_text(a: Seq<u8>, b: Seq<u8>)
    ensures
        hex_text(a).len() == 2 * a.len(),
        forall|i: int| 0 <= i < hex_text(a).len() ==> is_lower_hex(#[trigger] hex_text(a)[i]),
        hex_text(a) == hex_text(b) ==> a == b,
{
    if hex_text(a) == hex_text(b) {
        assert(hex_text(a).len() == hex_text(b).len());
        assert forall|k: int| 0 <= k < a.len() implies a[k] == b[k] by {
            assert(hex_text(a)[2 * k] == hex_text(b)[2 * k]);
            assert(hex_text(a)[2 * k + 1] == hex_text(b)[2 * k + 1]);
            assert((2 * k) / 2 == k && (2 * k + 1) / 2 == k);
            assert((2 * k) % 2 == 0 && (2 * k + 1) % 2 == 1);
            assert(a[k] as int / 16 < 16 && b[k] as int / 16 < 16);
        }
        assert(a =~= b);
    }
}

fn digit(n: u8) -> (c: char)
    requires
        n < 16,
    ensures
        c == hex_digit(n as int),
{
    if n < 10 {
        (n + 48) as char
    } else {
        (n + 87) as char
    }
}

/// Lower-case hexadecimal text of `bytes`.
pub fn encode(bytes: &[u8]) -> (out: String)
    ensures
        out@ == hex_text(bytes@),
{
    let mut out: String = String::new();
    let mut i: usize = 0;
    while i < bytes.len()
        invariant
            i <= bytes@.len(),
            out@ == hex_text(bytes@.take(i as int)),
        decreases bytes@.len() - i,
    {
        let b: u8 = bytes[i];
        out.push(digit(b / 16));
        out.push(digit(b % 16));
        proof {
            let before = bytes@.take(i as int);
            let after = bytes@.take(i + 1);
            assert forall|j: int| 0 <= j < hex_text(after).len() implies hex_text(after)[j] == out@[j] by {
                if j < 2 * i {
                    assert(after[j / 2] == before[j / 2]);
                    assert(hex_text(after)[j] == hex_text(before)[j]);
                } else {
                    assert(after[j / 2] == b);
                }
            }
            assert(out@ =~= hex_text(after));
        }
        i += 1;
    }
    proof {
        assert(bytes@.take(i as int) =~= bytes@);
    }
    out
}

/// The number that a lower-case hexadecimal digit stands for.
pub open spec fn digit_value(c: char) -> int {
    if '0' <= c && c <= '9' {
        c as int - '0' as int
    } else {
        c as int - 'a' as int + 10
    }
}

/// Each byte is written as two digits, the higher one first, that stand for its value.
pub proof fn law_hex_value(a: Seq<u8>, k: int)
    requires
        0 <= k < a.len(),
    ensures
        digit_value(hex_text(a)[2 * k]) * 16 + digit_value(hex_text(a)[2 * k + 1]) == a[k],
        is_lower_hex(hex_text(a)[2 * k]) && is_lower_hex(hex_text(a)[2 * k + 1]),
{
    law_hex_text(a, a);
    assert((2 * k) / 2 == k && (2 * k + 1) / 2 == k);
    assert((2 * k) % 2 == 0 && (2 * k + 1) % 2 == 1);
    assert(a[k] as int / 16 < 16);
}

} // verus!
