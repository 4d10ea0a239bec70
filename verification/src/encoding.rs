//! Facts about the UTF-8 encoding of texts whose first characters are
//! ASCII.
use vstd::prelude::*;
use vstd::utf8::*;
use crate::percent::ascii_bytes;

verus! {

broadcast use vstd::utf8::group_utf8_lib;

/// The encoding of a concatenation is the concatenation of the encodings.
pub proof fn lemma_encode_concat(a: Seq<char>, c: Seq<char>)
    ensures
        encode_utf8(a + c) == encode_utf8(a) + encode_utf8(c),
    decreases a.len(),
{
    if a.len() == 0 {
        assert(a + c =~= c);
    } else {
        lemma_encode_concat(a.drop_first(), c);
        assert((a + c).drop_first() =~= a.drop_first() + c);
        assert((a + c)[0] == a[0]);
    }
}

/// A text whose first `k` characters are ASCII is encoded as those `k`
/// bytes followed by the encoding of the rest.
pub proof fn lemma_encode_ascii_prefix(v: Seq<char>, k: int)
    requires
        0 <= k <= v.len(),
        is_ascii_chars(v.take(k)),
    ensures
        encode_utf8(v) == ascii_bytes(v.take(k)) + encode_utf8(v.skip(k)),
{
    assert(v =~= v.take(k) + v.skip(k));
    lemma_encode_concat(v.take(k), v.skip(k));
    is_ascii_chars_encode_utf8(v.take(k));
    assert(encode_utf8(v.take(k)) =~= ascii_bytes(v.take(k)));
}

proof fn lemma_non_ascii_leading_byte(u: u32)
    requires
        is_scalar(u),
        !has_width_1_encoding(u),
    ensures
        encode_scalar(u)[0] >= 0x80,
{
    let b2 = leading_byte_width_2(u);
    let b3 = leading_byte_width_3(u);
    let b4 = leading_byte_width_4(u);
    assert(b2 >= 0x80) by (bit_vector)
        requires
            b2 == 0xC0u8 | ((u >> 6u32) & 0x1Fu32) as u8,
    ;
    assert(b3 >= 0x80) by (bit_vector)
        requires
            b3 == 0xE0u8 | ((u >> 12u32) & 0x0Fu32) as u8,
    ;
    assert(b4 >= 0x80) by (bit_vector)
        requires
            b4 == 0xF0u8 | ((u >> 18u32) & 0x7u32) as u8,
    ;
}

proof fn lemma_ascii_char(c: char)
    requires
        (c as u32) <= 0x7f,
    ensures
        '\0' <= c <= '\u{7f}',
{
}

/// When the first `k` bytes of the encoding of `v` are all below 0x80,
/// the first `k` characters of `v` are ASCII.
pub proof fn lemma_ascii_bytes_prefix(v: Seq<char>, k: int)
    requires
        0 <= k <= encode_utf8(v).len(),
        forall|i: int| 0 <= i < k ==> encode_utf8(v)[i] < 0x80,
    ensures
        k <= v.len(),
        is_ascii_chars(v.take(k)),
    decreases k,
{
    if k > 0 {
        assert(v.len() > 0);
        let u = v[0] as u32;
        char_is_scalar(v[0]);
        assert(encode_utf8(v) == encode_scalar(u) + encode_utf8(v.drop_first()));
        if !has_width_1_encoding(u) {
            lemma_non_ascii_leading_byte(u);
            assert(encode_utf8(v)[0] == encode_scalar(u)[0]);
        }
        assert(encode_scalar(u).len() == 1);
        let w = v.drop_first();
        assert forall|i: int| 0 <= i < k - 1 implies encode_utf8(w)[i] < 0x80 by {
            assert(encode_utf8(v)[i + 1] == encode_utf8(w)[i]);
        }
        lemma_ascii_bytes_prefix(w, k - 1);
        assert forall|i: int| 0 <= i < k implies '\0' <= #[trigger] v.take(k)[i] <= '\u{7f}' by {
            if i > 0 {
                assert(v.take(k)[i] == w.take(k - 1)[i - 1]);
                assert('\0' <= w.take(k - 1)[i - 1] <= '\u{7f}');
            } else {
                assert(v.take(k)[0] == v[0]);
                assert(u <= 0x7f);
                lemma_ascii_char(v[0]);
            }
        }
    }
}

} // verus!
