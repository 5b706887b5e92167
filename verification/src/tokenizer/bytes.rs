//! The byte-level character mapping.
//!
//! Every byte becomes a *printable, single* character before the BPE ever sees it, so the
//! BPE operates on a string with no white space or control characters in it -- which is
//! what lets `Ġ` stand for a space inside a merge table.
use crate::text;
use vstd::prelude::*;

verus! {

/// Whether the byte is printable in Latin-1, and so stands for itself.
pub open spec fn printable(b: u8) -> bool {
    33 <= b <= 126 || 161 <= b <= 172 || 174 <= b
}

/// How many bytes below `b` are not printable.
pub open spec fn unprintable_below(b: nat) -> nat
    decreases b,
{
    if b == 0 {
        0
    } else if printable((b - 1) as u8) {
        unprintable_below((b - 1) as nat)
    } else {
        unprintable_below((b - 1) as nat) + 1
    }
}

/// The character of a byte: itself where it is printable, and otherwise `U+0100 + n`, in
/// increasing byte order.
pub open spec fn byte_char(b: u8) -> char {
    if printable(b) {
        b as char
    } else {
        (256 + unprintable_below(b as nat)) as char
    }
}

/// The byte whose character is `c`, where there is one.
pub open spec fn char_byte(c: char) -> Option<u8> {
    if exists|b: u8| byte_char(b) == c {
        Some(choose|b: u8| byte_char(b) == c)
    } else {
        None
    }
}

/// The unprintable bytes lie in three runs.
proof fn lemma_unprintable_below(b: nat)
    requires
        b <= 256,
    ensures
        unprintable_below(b) == if b <= 33 {
            b
        } else if b <= 127 {
            33
        } else if b <= 161 {
            (b - 94) as nat
        } else if b <= 173 {
            67
        } else {
            68
        },
    decreases b,
{
    if b > 0 {
        lemma_unprintable_below((b - 1) as nat);
    }
}

/// A byte that is printable in Latin-1 has its own character. The others have those from `U+0100`
/// on, in the order of the bytes: the space and what is below it, then `0x7f..=0xa0`, then `0xad`.
pub proof fn bytes_have_these_characters(b: u8)
    ensures
        byte_char(b) as int == if b <= 32 {
            256int + b
        } else if 127 <= b <= 160 {
            256int + 33 + (b - 127)
        } else if b == 173 {
            256int + 67
        } else {
            b as int
        },
{
    lemma_unprintable_below(b as nat);
}

/// The character of a byte.
fn char_of_byte(b: u8) -> (r: char)
    ensures
        r == byte_char(b),
{
    proof {
        lemma_unprintable_below(b as nat);
    }
    if (33 <= b && b <= 126) || (161 <= b && b <= 172) || 174 <= b {
        return b as char;
    }
    let n: u32 = if b <= 32 {
        b as u32
    } else if b <= 160 {
        b as u32 - 94
    } else {
        67
    };
    match char::from_u32(256 + n) {
        Some(c) => c,
        None => ' ',
    }
}

/// GPT-2's byte-to-character map.
///
/// Printable Latin-1 bytes map to themselves; the remaining 68 map to `U+0100 + n` in
/// increasing byte order.
pub fn byte_to_char_table() -> (r: [char; 256])
    ensures
        forall|b: u8| #[trigger] r@[b as int] == byte_char(b),
{
    let mut out: [char; 256] = ['\0'; 256];
    let mut b: usize = 0;
    while b < 256
        invariant
            b <= 256,
            forall|k: int| 0 <= k < b ==> #[trigger] out@[k] == byte_char(k as u8),
        decreases 256 - b,
    {
        out[b] = char_of_byte(b as u8);
        b += 1;
    }
    assert forall|b: u8| #[trigger] out@[b as int] == byte_char(b) by {
        assert(out@[b as int] == byte_char((b as int) as u8));
    }
    out
}

/// Different bytes have different characters.
pub proof fn byte_chars_differ(a: u8, b: u8)
    requires
        byte_char(a) == byte_char(b),
    ensures
        a == b,
{
    lemma_unprintable_below(a as nat);
    lemma_unprintable_below(b as nat);
}

/// Mapping a byte to its character and back gives the byte.
pub proof fn byte_char_round_trip(b: u8)
    ensures
        char_byte(byte_char(b)) == Some(b),
{
    let c = byte_char(b);
    let a = choose|a: u8| byte_char(a) == c;
    assert(byte_char(a) == c);
    byte_chars_differ(a, b);
}

/// No byte becomes white space or a control character.
pub proof fn byte_chars_are_printable(b: u8)
    ensures
        !text::white_space(byte_char(b)),
        byte_char(b) > '\u{20}',
        !('\u{7f}' <= byte_char(b) <= '\u{a0}'),
        byte_char(b) <= '\u{143}',
{
    lemma_unprintable_below(b as nat);
}

/// The byte whose character is `c`, where there is one.
pub fn byte_of_char(c: char) -> (r: Option<u8>)
    ensures
        r == char_byte(c),
{
    let u: u32 = c as u32;
    let b: u32 = if u < 256 {
        u
    } else if u <= 288 {
        u - 256
    } else if u <= 322 {
        u - 162
    } else if u == 323 {
        173
    } else {
        256
    };
    if b < 256 && char_of_byte(b as u8) == c {
        proof {
            byte_char_round_trip(b as u8);
        }
        return Some(b as u8);
    }
    proof {
        if exists|a: u8| byte_char(a) == c {
            let a = choose|a: u8| byte_char(a) == c;
            assert(byte_char(a) == c);
            lemma_unprintable_below(a as nat);
            assert(a == b);
        }
    }
    None
}

} // verus!
