//! Percent-encoding of URI components, and decoding with or without
//! reading `+` as a space.
use vstd::prelude::*;
use vstd::utf8::*;
use crate::text::string_of;

verus! {

broadcast use vstd::utf8::group_utf8_lib;

/// The value of an ASCII hexadecimal digit.
pub open spec fn hex_value(b: u8) -> Option<u8> {
    if 0x30 <= b <= 0x39 {
        Some((b - 0x30) as u8)
    } else if 0x61 <= b <= 0x66 {
        Some((b - 0x61 + 10) as u8)
    } else if 0x41 <= b <= 0x46 {
        Some((b - 0x41 + 10) as u8)
    } else {
        None
    }
}

/// Percent-decoding of bytes: `%` followed by two hexadecimal digits stands
/// for the byte they spell; when `plus_as_space` holds, `+` stands for a
/// space; every other byte stands for itself.
pub open spec fn pct_decode_bytes(b: Seq<u8>, plus_as_space: bool) -> Seq<u8>
    decreases b.len(),
{
    if b.len() == 0 {
        Seq::<u8>::empty()
    } else if b[0] == 0x25 && b.len() >= 3 && hex_value(b[1]) is Some && hex_value(b[2]) is Some {
        seq![(hex_value(b[1])->0 * 16 + hex_value(b[2])->0) as u8] + pct_decode_bytes(
            b.skip(3),
            plus_as_space,
        )
    } else if b[0] == 0x2b && plus_as_space {
        seq![0x20u8] + pct_decode_bytes(b.skip(1), plus_as_space)
    } else {
        seq![b[0]] + pct_decode_bytes(b.skip(1), plus_as_space)
    }
}

/// What `String::from_utf8_lossy` gives for a byte sequence.
pub uninterp spec fn utf8_lossy(bytes: Seq<u8>) -> Seq<char>;

/// The text that bytes spell as `String::from_utf8_lossy` reads them: the
/// decoded text when they are valid UTF-8.
pub open spec fn lossy_text(bytes: Seq<u8>) -> Seq<char> {
    if valid_utf8(bytes) {
        decode_utf8(bytes)
    } else {
        utf8_lossy(bytes)
    }
}

/// What `percent_decode_with_plus_mode` gives for `v`: the text that the
/// percent-decoded bytes spell, `+` read as a space when `plus_as_space`
/// holds.
pub open spec fn percent_decoded(v: Seq<char>, plus_as_space: bool) -> Seq<char> {
    lossy_text(pct_decode_bytes(encode_utf8(v), plus_as_space))
}

/// What `percent_encode` gives for `s`: the percent-encoding of its UTF-8
/// bytes.
pub open spec fn percent_encoded(s: Seq<char>) -> Seq<char> {
    pct_encode_bytes(encode_utf8(s))
}

/// The bytes that percent-encoding leaves as they are.
pub open spec fn unreserved(b: u8) -> bool {
    ||| 0x41 <= b <= 0x5a
    ||| 0x61 <= b <= 0x7a
    ||| 0x30 <= b <= 0x39
    ||| b == 0x2d
    ||| b == 0x5f
    ||| b == 0x2e
    ||| b == 0x7e
}

/// The upper-case hexadecimal digit for a value below 16.
pub open spec fn hex_digit(n: u8) -> char {
    if n < 10 {
        (n + 0x30) as char
    } else {
        (n - 10 + 0x41) as char
    }
}

/// The percent-encoding of one byte.
pub open spec fn pct_encode_byte(b: u8) -> Seq<char> {
    if unreserved(b) {
        seq![b as char]
    } else {
        seq!['%', hex_digit(b / 16), hex_digit(b % 16)]
    }
}

/// Percent-encoding of a byte sequence: unreserved bytes as themselves,
/// every other byte as `%` and two upper-case hexadecimal digits.
pub open spec fn pct_encode_bytes(b: Seq<u8>) -> Seq<char>
    decreases b.len(),
{
    if b.len() == 0 {
        Seq::<char>::empty()
    } else {
        pct_encode_byte(b[0]) + pct_encode_bytes(b.skip(1))
    }
}

/// The bytes of a text made of ASCII characters only.
pub open spec fn ascii_bytes(s: Seq<char>) -> Seq<u8> {
    s.map_values(|c: char| c as u8)
}

/// `String::from_utf8_lossy`: the text that `bytes` encode, with each
/// invalid sequence replaced by U+FFFD; for valid UTF-8 this is the decoded
/// text itself.
#[verifier::external_body]
pub(crate) fn string_from_utf8_lossy(bytes: &[u8]) -> (s: String)
    ensures
        s@ == utf8_lossy(bytes@),
        valid_utf8(bytes@) ==> s@ == decode_utf8(bytes@),
{
    String::from_utf8_lossy(bytes).into_owned()
}

/// The value of a hexadecimal digit byte.
pub fn from_hex(byte: u8) -> (r: Option<u8>)
    ensures
        r == hex_value(byte),
{
    if 0x30 <= byte && byte <= 0x39 {
        Some(byte - 0x30)
    } else if 0x61 <= byte && byte <= 0x66 {
        Some(byte - 0x61 + 10)
    } else if 0x41 <= byte && byte <= 0x46 {
        Some(byte - 0x41 + 10)
    } else {
        None
    }
}

/// Percent-decoding of the bytes of `value` as text (invalid UTF-8 in the
/// result replaced as `String::from_utf8_lossy` does).
pub fn percent_decode_with_plus_mode(value: &str, plus_as_space: bool) -> (out: String)
    ensures
        out@ == percent_decoded(value@, plus_as_space),
{
    let bytes = value.as_bytes();
    let ghost b = bytes@;
    let mut output: Vec<u8> = Vec::new();
    let mut index: usize = 0;
    assert(b.skip(0) =~= b);
    assert(output@ + pct_decode_bytes(b.skip(0), plus_as_space) =~= pct_decode_bytes(
        b,
        plus_as_space,
    ));
    while index < bytes.len()
        invariant
            bytes@ == b,
            index <= b.len(),
            output@ + pct_decode_bytes(b.skip(index as int), plus_as_space) == pct_decode_bytes(
                b,
                plus_as_space,
            ),
        decreases b.len() - index,
    {
        let ghost rest = b.skip(index as int);
        let byte = bytes[index];
        assert(rest[0] == byte);
        if byte == 0x25 && bytes.len() - index > 2 {
            let hi = from_hex(bytes[index + 1]);
            let lo = from_hex(bytes[index + 2]);
            assert(rest[1] == b[index + 1] && rest[2] == b[index + 2]);
            match (hi, lo) {
                (Some(h), Some(l)) => {
                    assert(h < 16 && l < 16);
                    assert((h << 4u8) | l == h * 16 + l) by (bit_vector)
                        requires
                            h < 16 && l < 16,
                    ;
                    let ghost old_out = output@;
                    output.push((h << 4u8) | l);
                    assert(rest.skip(3) =~= b.skip(index + 3));
                    assert(output@ + pct_decode_bytes(b.skip(index + 3), plus_as_space)
                        =~= old_out + pct_decode_bytes(rest, plus_as_space));
                    index = index + 3;
                },
                _ => {
                    let ghost old_out = output@;
                    output.push(byte);
                    assert(rest.skip(1) =~= b.skip(index + 1));
                    assert(output@ + pct_decode_bytes(b.skip(index + 1), plus_as_space)
                        =~= old_out + pct_decode_bytes(rest, plus_as_space));
                    index = index + 1;
                },
            }
        } else if byte == 0x2b && plus_as_space {
            let ghost old_out = output@;
            output.push(0x20);
            assert(rest.skip(1) =~= b.skip(index + 1));
            assert(output@ + pct_decode_bytes(b.skip(index + 1), plus_as_space) =~= old_out
                + pct_decode_bytes(rest, plus_as_space));
            index = index + 1;
        } else {
            let ghost old_out = output@;
            output.push(byte);
            assert(rest.skip(1) =~= b.skip(index + 1));
            assert(output@ + pct_decode_bytes(b.skip(index + 1), plus_as_space) =~= old_out
                + pct_decode_bytes(rest, plus_as_space));
            index = index + 1;
        }
    }
    assert(b.skip(b.len() as int) =~= Seq::<u8>::empty());
    assert(output@ =~= pct_decode_bytes(b, plus_as_space));
    string_from_utf8_lossy(output.as_slice())
}

/// Percent-decoding of `value`, reading `+` as a space.
pub fn percent_decode(value: &str) -> (out: String)
    ensures
        out@ == percent_decoded(value@, true),
{
    percent_decode_with_plus_mode(value, true)
}

/// The upper-case hexadecimal digit for a value below 16.
fn hex_digit_char(n: u8) -> (c: char)
    requires
        n < 16,
    ensures
        c == hex_digit(n),
{
    if n < 10 {
        (n + 0x30) as char
    } else {
        (n - 10 + 0x41) as char
    }
}

/// Percent-encoding of the UTF-8 bytes of `value`.
pub fn percent_encode(value: &str) -> (out: String)
    ensures
        out@ == percent_encoded(value@),
{
    let bytes = value.as_bytes();
    let ghost b = bytes@;
    let mut output: Vec<char> = Vec::new();
    let mut i: usize = 0;
    assert(b.skip(0) =~= b);
    while i < bytes.len()
        invariant
            bytes@ == b,
            i <= b.len(),
            output@ + pct_encode_bytes(b.skip(i as int)) == pct_encode_bytes(b),
        decreases b.len() - i,
    {
        let byte = bytes[i];
        let ghost old_out = output@;
        let ghost rest = b.skip(i as int);
        assert(rest[0] == byte);
        assert(rest.skip(1) =~= b.skip(i + 1));
        if (0x41 <= byte && byte <= 0x5a) || (0x61 <= byte && byte <= 0x7a) || (0x30 <= byte
            && byte <= 0x39) || byte == 0x2d || byte == 0x5f || byte == 0x2e || byte == 0x7e {
            output.push(byte as char);
        } else {
            output.push('%');
            output.push(hex_digit_char(byte / 16));
            output.push(hex_digit_char(byte % 16));
        }
        assert(output@ =~= old_out + pct_encode_byte(byte));
        assert(output@ + pct_encode_bytes(b.skip(i + 1)) =~= old_out + pct_encode_bytes(rest));
        i = i + 1;
    }
    assert(b.skip(b.len() as int) =~= Seq::<u8>::empty());
    assert(output@ =~= pct_encode_bytes(b));
    string_of(&output)
}

proof fn lemma_hex_digit_value(n: u8)
    requires
        n < 16,
    ensures
        hex_value(hex_digit(n) as u8) == Some(n),
        (hex_digit(n) as u32) < 128,
{
}

proof fn lemma_pct_encode_ascii(b: Seq<u8>)
    ensures
        is_ascii_chars(pct_encode_bytes(b)),
    decreases b.len(),
{
    if b.len() > 0 {
        lemma_pct_encode_ascii(b.skip(1));
        let x = pct_encode_byte(b[0]);
        if !unreserved(b[0]) {
            lemma_hex_digit_value(b[0] / 16);
            lemma_hex_digit_value(b[0] % 16);
        }
        assert(is_ascii_chars(x));
        is_ascii_chars_concat(pct_encode_bytes(b), x, pct_encode_bytes(b.skip(1)));
    }
}

proof fn lemma_ascii_bytes_encode(s: Seq<char>)
    requires
        is_ascii_chars(s),
    ensures
        encode_utf8(s) == ascii_bytes(s),
{
    is_ascii_chars_encode_utf8(s);
    assert(encode_utf8(s) =~= ascii_bytes(s));
}

proof fn lemma_pct_roundtrip_bytes(b: Seq<u8>, plus_as_space: bool)
    ensures
        pct_decode_bytes(ascii_bytes(pct_encode_bytes(b)), plus_as_space) == b,
    decreases b.len(),
{
    if b.len() == 0 {
        assert(ascii_bytes(pct_encode_bytes(b)) =~= Seq::<u8>::empty());
    } else {
        let b0 = b[0];
        let x = ascii_bytes(pct_encode_byte(b0));
        let y = ascii_bytes(pct_encode_bytes(b.skip(1)));
        let xy = ascii_bytes(pct_encode_bytes(b));
        assert(xy =~= x + y);
        lemma_pct_roundtrip_bytes(b.skip(1), plus_as_space);
        if unreserved(b0) {
            assert(xy[0] == b0);
            assert(xy.skip(1) =~= y);
        } else {
            lemma_hex_digit_value(b0 / 16);
            lemma_hex_digit_value(b0 % 16);
            assert(xy[0] == 0x25u8);
            assert(xy[1] == hex_digit(b0 / 16) as u8);
            assert(xy[2] == hex_digit(b0 % 16) as u8);
            assert(xy.skip(3) =~= y);
            assert(((b0 / 16) * 16 + b0 % 16) as u8 == b0);
        }
        assert(pct_decode_bytes(xy, plus_as_space) =~= seq![b0] + b.skip(1));
        assert(seq![b0] + b.skip(1) =~= b);
    }
}

/// Percent-decoding the percent-encoding of a text gives the text back,
/// whether or not `+` is read as a space: `percent_decode_with_plus_mode`
/// of what `percent_encode(s)` writes is `s`, for every text `s`.
pub proof fn law_percent_decode_inverts_encode(s: Seq<char>, plus_as_space: bool)
    ensures
        percent_decoded(percent_encoded(s), plus_as_space) == s,
        pct_decode_bytes(encode_utf8(pct_encode_bytes(encode_utf8(s))), plus_as_space)
            == encode_utf8(s),
        lossy_text(pct_decode_bytes(encode_utf8(pct_encode_bytes(encode_utf8(s))), plus_as_space))
            == s,
{
    let e = pct_encode_bytes(encode_utf8(s));
    lemma_pct_encode_ascii(encode_utf8(s));
    lemma_ascii_bytes_encode(e);
    lemma_pct_roundtrip_bytes(encode_utf8(s), plus_as_space);
}

/// A character that percent-encoding writes: an unreserved character or
/// `%`.
pub open spec fn pct_safe(c: char) -> bool {
    ||| 'A' <= c <= 'Z'
    ||| 'a' <= c <= 'z'
    ||| '0' <= c <= '9'
    ||| c == '-'
    ||| c == '_'
    ||| c == '.'
    ||| c == '~'
    ||| c == '%'
}

/// Every character of `s` is one that percent-encoding writes.
pub open spec fn pct_text(s: Seq<char>) -> bool {
    forall|i: int| 0 <= i < s.len() ==> pct_safe(#[trigger] s[i])
}

proof fn lemma_hex_digit_safe(n: u8)
    requires
        n < 16,
    ensures
        pct_safe(hex_digit(n)),
{
}

proof fn lemma_pct_byte_safe(b: u8)
    ensures
        forall|i: int| 0 <= i < pct_encode_byte(b).len() ==> pct_safe(#[trigger] pct_encode_byte(b)[i]),
{
    if !unreserved(b) {
        lemma_hex_digit_safe(b / 16);
        lemma_hex_digit_safe(b % 16);
    }
}

/// Percent-encoding writes only unreserved characters (ASCII letters and
/// digits, `-`, `_`, `.`, `~`) and `%`: the text it gives holds none of a
/// URI's delimiters, no white space and nothing outside ASCII.
pub proof fn law_percent_encode_writes_safe_chars(b: Seq<u8>)
    ensures
        forall|i: int|
            0 <= i < pct_encode_bytes(b).len() ==> pct_safe(#[trigger] pct_encode_bytes(b)[i]),
    decreases b.len(),
{
    if b.len() > 0 {
        law_percent_encode_writes_safe_chars(b.skip(1));
        lemma_pct_byte_safe(b[0]);
        let x = pct_encode_byte(b[0]);
        let y = pct_encode_bytes(b.skip(1));
        assert(pct_encode_bytes(b) == x + y);
        assert forall|i: int| 0 <= i < pct_encode_bytes(b).len() implies pct_safe(
            #[trigger] pct_encode_bytes(b)[i],
        ) by {
            if i < x.len() {
                assert(pct_encode_bytes(b)[i] == x[i]);
            } else {
                assert(pct_encode_bytes(b)[i] == y[i - x.len()]);
            }
        }
    }
}

} // verus!
