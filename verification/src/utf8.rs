//! How UTF-8 writes texts.

use vstd::prelude::*;
use vstd::utf8::{encode_scalar, encode_utf8, has_width_1_encoding, leading_byte_width_1};

verus! {

proof fn lemma_high_bits(c: u32)
    by (bit_vector)
    ensures
        0x80 <= (0xC0 | ((c >> 6) & 0x1F) as u8),
        0x80 <= (0xE0 | ((c >> 12) & 0x0F) as u8),
        0x80 <= (0xF0 | ((c >> 18) & 0x7) as u8),
        0x80 <= (0x80 | (c & 0x3F) as u8),
        0x80 <= (0x80 | ((c >> 6) & 0x3F) as u8),
        0x80 <= (0x80 | ((c >> 12) & 0x3F) as u8),
        c <= 0x7F ==> (c & 0x7F) as u8 == c,
{
}

/// An ASCII character is written as its own byte.
pub proof fn lemma_ascii_char(c: char)
    requires
        c as u32 <= 0x7F,
    ensures
        encode_scalar(c as u32) == seq![c as u8],
        c as u8 as u32 == c as u32,
{
    lemma_high_bits(c as u32);
    assert(encode_scalar(c as u32)[0] == leading_byte_width_1(c as u32));
    assert(encode_scalar(c as u32) =~= seq![c as u8]);
}

/// An ASCII byte stands in the encoding of a character only where it is the
/// character.
pub proof fn lemma_encoded_char(c: char, b: u8)
    requires
        b < 0x80,
        c as u32 != b as u32,
    ensures
        !encode_scalar(c as u32).contains(b),
{
    let u = c as u32;
    let head = encode_scalar(u);
    lemma_high_bits(u);
    assert forall|k: int| 0 <= k < head.len() implies #[trigger] head[k] != b by {
        if has_width_1_encoding(u) {
            assert(head[0] == leading_byte_width_1(u));
        } else {
            assert(head[k] >= 0x80);
        }
    }
}

/// An ASCII byte stands in the encoding of a text only where the text has it.
pub proof fn lemma_encoded(s: Seq<char>, b: u8)
    requires
        b < 0x80,
        forall|i: int| 0 <= i < s.len() ==> (#[trigger] s[i]) as u32 != b as u32,
    ensures
        !encode_utf8(s).contains(b),
    decreases s.len(),
{
    if s.len() > 0 {
        let rest = s.drop_first();
        assert forall|i: int| 0 <= i < rest.len() implies (#[trigger] rest[i]) as u32 != b as u32 by {
            assert(rest[i] == s[i + 1]);
        }
        lemma_encoded(rest, b);
        assert(s[0] as u32 != b as u32);
        lemma_encoded_char(s[0], b);
        let head = encode_scalar(s[0] as u32);
        let all = head + encode_utf8(rest);
        if all.contains(b) {
            let k = choose|k: int| 0 <= k < all.len() && all[k] == b;
            if k < head.len() {
                assert(head[k] == b);
            } else {
                assert(encode_utf8(rest)[k - head.len()] == b);
            }
        }
    }
}

/// Texts that follow each other are written one after the other.
pub proof fn lemma_encoded_add(a: Seq<char>, b: Seq<char>)
    ensures
        encode_utf8(a + b) == encode_utf8(a) + encode_utf8(b),
    decreases a.len(),
{
    if a.len() == 0 {
        assert(a + b =~= b);
    } else {
        assert((a + b).drop_first() =~= a.drop_first() + b);
        lemma_encoded_add(a.drop_first(), b);
    }
    assert(encode_utf8(a + b) =~= encode_utf8(a) + encode_utf8(b));
}

} // verus!
