//! Facts about UTF-8 that the wire format rests on.

use crate::text::pair_at;
use vstd::prelude::*;
use vstd::utf8::{char_u32_cast, encode_scalar, encode_utf8};

verus! {

/// The text `a` and then `b` is encoded as the bytes of `a` and then those of `b`.
pub proof fn lemma_encode_concat(a: Seq<char>, b: Seq<char>)
    ensures
        encode_utf8(a + b) == encode_utf8(a) + encode_utf8(b),
    decreases a.len(),
{
    if a.len() > 0 {
        lemma_encode_concat(a.drop_first(), b);
        assert((a + b).drop_first() =~= a.drop_first() + b);
    }
}

proof fn lemma_low_byte(s: u32)
    by (bit_vector)
    requires
        s <= 0x7F,
    ensures
        (s & 0x7F) as u8 == s as u8,
        (s as u8) as u32 == s,
{
}

proof fn lemma_high_bytes(s: u32)
    by (bit_vector)
    ensures
        0xC0u8 | ((s >> 6) & 0x1F) as u8 >= 0x80u8,
        0xE0u8 | ((s >> 12) & 0x0F) as u8 >= 0x80u8,
        0xF0u8 | ((s >> 18) & 0x7) as u8 >= 0x80u8,
        0x80u8 | (s & 0x3F) as u8 >= 0x80u8,
        0x80u8 | ((s >> 6) & 0x3F) as u8 >= 0x80u8,
        0x80u8 | ((s >> 12) & 0x3F) as u8 >= 0x80u8,
{
}

/// An ASCII character is encoded as the one byte of its own number; every byte
/// of any other character is `0x80` or more.
pub proof fn lemma_scalar_bytes(c: char)
    ensures
        1 <= encode_scalar(c as u32).len() <= 4,
        (c as u32) < 0x80 ==> encode_scalar(c as u32) == seq![c as u8],
        (c as u32) >= 0x80 ==> forall|k: int|
            0 <= k < encode_scalar(c as u32).len() ==> #[trigger] encode_scalar(c as u32)[k]
                >= 0x80,
{
    let s = c as u32;
    lemma_high_bytes(s);
    if s < 0x80 {
        lemma_low_byte(s);
    }
}

/// Two ASCII characters with the same byte are the same character.
pub proof fn lemma_ascii_by_byte(c: char, a: char)
    requires
        (c as u32) < 0x80,
        (a as u32) < 0x80,
        c as u8 == a as u8,
    ensures
        c == a,
{
    lemma_low_byte(c as u32);
    lemma_low_byte(a as u32);
    char_u32_cast(c, c as u32);
    char_u32_cast(a, a as u32);
}

/// Where a text has no `a` that `b` follows at once, `a` and `b` being ASCII,
/// its bytes have no such pair either.
pub proof fn lemma_no_pair_in_encoding(text: Seq<char>, a: char, b: char)
    requires
        (a as u32) < 0x80,
        (b as u32) < 0x80,
        forall|j: int| !pair_at(text, a, b, j),
    ensures
        ({
            let x = a as u8;
            let y = b as u8;
            forall|k: int| !pair_at(encode_utf8(text), x, y, k)
        }),
    decreases text.len(),
{
    lemma_low_byte(a as u32);
    lemma_low_byte(b as u32);
    if text.len() > 0 {
        let first = encode_scalar(text[0] as u32);
        let rest = text.drop_first();
        let tail = encode_utf8(rest);
        assert forall|j: int| !pair_at(rest, a, b, j) by {
            assert(!pair_at(text, a, b, j + 1));
        }
        lemma_no_pair_in_encoding(rest, a, b);
        lemma_scalar_bytes(text[0]);
        let x = a as u8;
        let y = b as u8;
        assert forall|k: int| !pair_at(encode_utf8(text), x, y, k) by {
            if pair_at(first + tail, x, y, k) {
                if k + 1 == first.len() {
                    lemma_ascii_by_byte(text[0], a);
                    lemma_scalar_bytes(rest[0]);
                    lemma_ascii_by_byte(rest[0], b);
                    assert(pair_at(text, a, b, 0));
                } else if k + 1 > first.len() {
                    assert(pair_at(tail, x, y, k - first.len()));
                }
            }
        }
    }
}

} // verus!
