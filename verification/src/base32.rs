//! Base32 (RFC 4648 alphabet) without padding.
use vstd::prelude::*;
use crate::text::string_of;
use vstd::arithmetic::div_mod::lemma_fundamental_div_mod_converse;

verus! {

/// Two to the power `n`.
pub open spec fn p2(n: nat) -> nat
    decreases n,
{
    if n == 0 {
        1
    } else {
        2 * p2((n - 1) as nat)
    }
}

/// The eight bits of a byte, most significant first.
pub open spec fn byte_bits(x: u8) -> Seq<bool> {
    seq![
        x & 0x80 != 0,
        x & 0x40 != 0,
        x & 0x20 != 0,
        x & 0x10 != 0,
        x & 0x08 != 0,
        x & 0x04 != 0,
        x & 0x02 != 0,
        x & 0x01 != 0,
    ]
}

/// The bits of a byte sequence, each byte most significant bit first.
pub open spec fn bits_of(s: Seq<u8>) -> Seq<bool>
    decreases s.len(),
{
    if s.len() == 0 {
        Seq::<bool>::empty()
    } else {
        bits_of(s.drop_last()) + byte_bits(s.last())
    }
}

/// The number that a sequence of bits spells, most significant bit first.
pub open spec fn bits_value(b: Seq<bool>) -> nat
    decreases b.len(),
{
    if b.len() == 0 {
        0
    } else {
        2 * bits_value(b.drop_last()) + if b.last() {
            1nat
        } else {
            0nat
        }
    }
}

/// The base32 digit for a value below 32: `A`..`Z`, then `2`..`7`.
pub open spec fn b32_digit(v: nat) -> char {
    if v < 26 {
        (0x41 + v) as char
    } else {
        (0x32 + v - 26) as char
    }
}

/// Base32 of a bit sequence: one digit for each group of five bits, the
/// last group filled up with zero bits.
pub open spec fn base32_bits(b: Seq<bool>) -> Seq<char>
    decreases b.len(),
{
    if b.len() == 0 {
        Seq::<char>::empty()
    } else if b.len() < 5 {
        seq![b32_digit(bits_value(b) * p2((5 - b.len()) as nat))]
    } else {
        seq![b32_digit(bits_value(b.take(5)))] + base32_bits(b.skip(5))
    }
}

/// Base32 of a byte sequence, without `=` padding.
pub open spec fn base32(s: Seq<u8>) -> Seq<char> {
    base32_bits(bits_of(s))
}

proof fn lemma_bits_of_len(s: Seq<u8>)
    ensures
        bits_of(s).len() == 8 * s.len(),
    decreases s.len(),
{
    if s.len() > 0 {
        lemma_bits_of_len(s.drop_last());
    }
}

proof fn lemma_p2_add(a: nat, b: nat)
    ensures
        p2(a + b) == p2(a) * p2(b),
    decreases b,
{
    if b > 0 {
        lemma_p2_add(a, (b - 1) as nat);
        assert(p2(a + b) == 2 * p2((a + b - 1) as nat));
        assert(p2(a) * p2(b) == p2(a) * (2 * p2((b - 1) as nat)));
        assert(p2(a) * (2 * p2((b - 1) as nat)) == 2 * (p2(a) * p2((b - 1) as nat))) by (
        nonlinear_arith);
    } else {
        assert(p2(0) == 1);
        assert(a + b == a);
        assert(p2(a) * 1 == p2(a));
    }
}

proof fn lemma_bits_value_concat(a: Seq<bool>, b: Seq<bool>)
    ensures
        bits_value(a + b) == bits_value(a) * p2(b.len()) + bits_value(b),
    decreases b.len(),
{
    if b.len() == 0 {
        assert(a + b =~= a);
        assert(p2(0) == 1);
        assert(bits_value(a) * 1 == bits_value(a));
    } else {
        lemma_bits_value_concat(a, b.drop_last());
        assert((a + b).drop_last() =~= a + b.drop_last());
        assert((a + b).last() == b.last());
        let x = bits_value(a);
        let y = bits_value(b.drop_last());
        let p = p2(b.drop_last().len());
        assert(p2(b.len()) == 2 * p);
        assert(2 * (x * p + y) == x * (2 * p) + 2 * y) by (nonlinear_arith);
    }
}

proof fn lemma_bits_value_bound(b: Seq<bool>)
    ensures
        bits_value(b) < p2(b.len()),
    decreases b.len(),
{
    if b.len() > 0 {
        lemma_bits_value_bound(b.drop_last());
    }
}

proof fn lemma_byte_bits_value(x: u8)
    ensures
        bits_value(byte_bits(x)) == x,
{
    let b = byte_bits(x);
    reveal_with_fuel(bits_value, 9);
    assert(b.drop_last().drop_last().drop_last().drop_last().drop_last().drop_last().drop_last(
    ).drop_last() =~= Seq::<bool>::empty());
    let v = (if x & 0x80 != 0 {
        128nat
    } else {
        0
    }) + (if x & 0x40 != 0 {
        64nat
    } else {
        0
    }) + (if x & 0x20 != 0 {
        32nat
    } else {
        0
    }) + (if x & 0x10 != 0 {
        16nat
    } else {
        0
    }) + (if x & 0x08 != 0 {
        8nat
    } else {
        0
    }) + (if x & 0x04 != 0 {
        4nat
    } else {
        0
    }) + (if x & 0x02 != 0 {
        2nat
    } else {
        0
    }) + (if x & 0x01 != 0 {
        1nat
    } else {
        0
    });
    assert(bits_value(b) == v);
    assert(x == (x & 0x80) + (x & 0x40) + (x & 0x20) + (x & 0x10) + (x & 0x08) + (x & 0x04) + (x
        & 0x02) + (x & 0x01)) by (bit_vector);
    assert((x & 0x80) == 0 || (x & 0x80) == 0x80) by (bit_vector);
    assert((x & 0x40) == 0 || (x & 0x40) == 0x40) by (bit_vector);
    assert((x & 0x20) == 0 || (x & 0x20) == 0x20) by (bit_vector);
    assert((x & 0x10) == 0 || (x & 0x10) == 0x10) by (bit_vector);
    assert((x & 0x08) == 0 || (x & 0x08) == 0x08) by (bit_vector);
    assert((x & 0x04) == 0 || (x & 0x04) == 0x04) by (bit_vector);
    assert((x & 0x02) == 0 || (x & 0x02) == 0x02) by (bit_vector);
    assert((x & 0x01) == 0 || (x & 0x01) == 0x01) by (bit_vector);
}

proof fn lemma_base32_concat(a: Seq<bool>, c: Seq<bool>)
    requires
        a.len() % 5 == 0,
    ensures
        base32_bits(a + c) == base32_bits(a) + base32_bits(c),
    decreases a.len(),
{
    if a.len() == 0 {
        assert(a + c =~= c);
        assert(base32_bits(a) =~= Seq::<char>::empty());
        assert(Seq::<char>::empty() + base32_bits(c) =~= base32_bits(c));
    } else {
        lemma_base32_concat(a.skip(5), c);
        assert((a + c).take(5) =~= a.take(5));
        assert((a + c).skip(5) =~= a.skip(5) + c);
        assert(base32_bits(a + c) =~= seq![b32_digit(bits_value(a.take(5)))] + (base32_bits(
            a.skip(5),
        ) + base32_bits(c)));
    }
}

/// Facts about the bit buffer when a byte comes in.
proof fn lemma_buffer_append(buffer: u16, bits: u8, byte: u8)
    requires
        bits <= 4,
    ensures
        ((((buffer << 8u16) | (byte as u16)) as u16) as nat) % p2((bits + 8) as nat) == ((
        buffer as nat) % p2(bits as nat)) * 256 + byte,
{
    reveal_with_fuel(p2, 13);
    let nb = ((buffer << 8u16) | (byte as u16)) as u16;
    if bits == 0 {
        assert(nb % 256 == byte) by (bit_vector)
            requires
                nb == ((buffer << 8u16) | (byte as u16)) as u16,
        ;
    } else if bits == 1 {
        assert(nb % 512 == (buffer % 2) * 256 + byte) by (bit_vector)
            requires
                nb == ((buffer << 8u16) | (byte as u16)) as u16,
        ;
    } else if bits == 2 {
        assert(nb % 1024 == (buffer % 4) * 256 + byte) by (bit_vector)
            requires
                nb == ((buffer << 8u16) | (byte as u16)) as u16,
        ;
    } else if bits == 3 {
        assert(nb % 2048 == (buffer % 8) * 256 + byte) by (bit_vector)
            requires
                nb == ((buffer << 8u16) | (byte as u16)) as u16,
        ;
    } else {
        assert(nb % 4096 == (buffer % 16) * 256 + byte) by (bit_vector)
            requires
                nb == ((buffer << 8u16) | (byte as u16)) as u16,
        ;
    }
}

/// Facts about the bit buffer when a digit goes out.
proof fn lemma_buffer_emit(buffer: u16, bits: u8)
    requires
        5 <= bits <= 12,
    ensures
        ((buffer >> ((bits - 5) as u16)) & 31u16) as nat == ((buffer as nat) % p2(bits as nat)) / p2(
            (bits - 5) as nat,
        ),
        ((buffer as nat) % p2(bits as nat)) % p2((bits - 5) as nat) == (buffer as nat) % p2(
            (bits - 5) as nat,
        ),
{
    reveal_with_fuel(p2, 13);
    let x = buffer;
    if bits == 5 {
        assert((x >> 0u16) & 31 == (x % 32) / 1 && (x % 32) % 1 == x % 1) by (bit_vector);
    } else if bits == 6 {
        assert((x >> 1u16) & 31 == (x % 64) / 2 && (x % 64) % 2 == x % 2) by (bit_vector);
    } else if bits == 7 {
        assert((x >> 2u16) & 31 == (x % 128) / 4 && (x % 128) % 4 == x % 4) by (bit_vector);
    } else if bits == 8 {
        assert((x >> 3u16) & 31 == (x % 256) / 8 && (x % 256) % 8 == x % 8) by (bit_vector);
    } else if bits == 9 {
        assert((x >> 4u16) & 31 == (x % 512) / 16 && (x % 512) % 16 == x % 16) by (bit_vector);
    } else if bits == 10 {
        assert((x >> 5u16) & 31 == (x % 1024) / 32 && (x % 1024) % 32 == x % 32) by (bit_vector);
    } else if bits == 11 {
        assert((x >> 6u16) & 31 == (x % 2048) / 64 && (x % 2048) % 64 == x % 64) by (bit_vector);
    } else {
        assert((x >> 7u16) & 31 == (x % 4096) / 128 && (x % 4096) % 128 == x % 128) by (
        bit_vector);
    }
}

/// Facts about the bit buffer for the last, partial digit.
proof fn lemma_buffer_tail(buffer: u16, bits: u8)
    requires
        1 <= bits <= 4,
    ensures
        ((buffer << ((5 - bits) as u16)) & 31u16) as nat == ((buffer as nat) % p2(bits as nat)) * p2(
            (5 - bits) as nat,
        ),
{
    reveal_with_fuel(p2, 13);
    let x = buffer;
    if bits == 1 {
        assert((x << 4u16) & 31 == (x % 2) * 16) by (bit_vector);
    } else if bits == 2 {
        assert((x << 3u16) & 31 == (x % 4) * 8) by (bit_vector);
    } else if bits == 3 {
        assert((x << 2u16) & 31 == (x % 8) * 4) by (bit_vector);
    } else {
        assert((x << 1u16) & 31 == (x % 16) * 2) by (bit_vector);
    }
}

/// The base32 digit for a value below 32.
fn b32_digit_exec(v: u16) -> (c: char)
    requires
        v < 32,
    ensures
        c == b32_digit(v as nat),
{
    if v < 26 {
        ((0x41 + v) as u8) as char
    } else {
        ((0x32 + v - 26) as u8) as char
    }
}

proof fn lemma_base32_bits_len(b: Seq<bool>)
    ensures
        base32_bits(b).len() == (b.len() + 4) / 5,
    decreases b.len(),
{
    if b.len() >= 5 {
        lemma_base32_bits_len(b.skip(5));
    }
}

/// Base32 spells every five bits of the input with one digit, the last
/// group filled up: `n` bytes give `ceil(8n / 5)` digits, each from the
/// alphabet `A`..`Z`, `2`..`7`.
pub proof fn law_base32_length(s: Seq<u8>)
    ensures
        base32(s).len() == (8 * s.len() + 4) / 5,
        forall|i: int|
            0 <= i < base32(s).len() ==> ('A' <= #[trigger] base32(s)[i] <= 'Z') || ('2' <= base32(
                s,
            )[i] <= '7'),
{
    lemma_bits_of_len(s);
    lemma_base32_bits_len(bits_of(s));
    lemma_base32_digits(bits_of(s));
}

proof fn lemma_base32_digits(b: Seq<bool>)
    ensures
        forall|i: int|
            0 <= i < base32_bits(b).len() ==> ('A' <= #[trigger] base32_bits(b)[i] <= 'Z') || (
            '2' <= base32_bits(b)[i] <= '7'),
    decreases b.len(),
{
    if b.len() == 0 {
    } else if b.len() < 5 {
        lemma_bits_value_bound(b);
        lemma_p2_add(b.len(), (5 - b.len()) as nat);
        reveal_with_fuel(p2, 6);
        assert(bits_value(b) * p2((5 - b.len()) as nat) < 32) by (nonlinear_arith)
            requires
                bits_value(b) < p2(b.len()),
                p2(b.len()) * p2((5 - b.len()) as nat) == 32,
        ;
        lemma_digit_range(bits_value(b) * p2((5 - b.len()) as nat));
    } else {
        lemma_base32_digits(b.skip(5));
        lemma_bits_value_bound(b.take(5));
        reveal_with_fuel(p2, 6);
        lemma_digit_range(bits_value(b.take(5)));
        let r = base32_bits(b.skip(5));
        assert forall|i: int| 0 <= i < base32_bits(b).len() implies ('A' <= #[trigger] base32_bits(
            b,
        )[i] <= 'Z') || ('2' <= base32_bits(b)[i] <= '7') by {
            if i > 0 {
                assert(base32_bits(b)[i] == r[i - 1]);
            }
        }
    }
}

proof fn lemma_digit_range(v: nat)
    requires
        v < 32,
    ensures
        ('A' <= b32_digit(v) <= 'Z') || ('2' <= b32_digit(v) <= '7'),
{
}

/// Base32 of `bytes`, without `=` padding.
pub fn base32_encode_no_padding(bytes: &[u8]) -> (out: String)
    ensures
        out@ == base32(bytes@),
{
    let mut output: Vec<char> = Vec::new();
    let mut buffer: u16 = 0;
    let mut bits: u8 = 0;
    let mut i: usize = 0;
    let ghost s = bytes@;
    assert(s.take(0) =~= Seq::<u8>::empty());
    assert(bits_of(s.take(0)).take(0) =~= Seq::<bool>::empty());
    while i < bytes.len()
        invariant
            s == bytes@,
            i <= s.len(),
            bits <= 4,
            5 * (output@.len() as int) + bits == bits_of(s.take(i as int)).len(),
            output@ == base32_bits(bits_of(s.take(i as int)).take(5 * (output@.len() as int))),
            (buffer as nat) % p2(bits as nat) == bits_value(
                bits_of(s.take(i as int)).skip(5 * (output@.len() as int)),
            ),
        decreases s.len() - i,
    {
        let byte = bytes[i];
        let ghost old_bits_seq = bits_of(s.take(i as int));
        let ghost pend_old = old_bits_seq.skip(5 * (output@.len() as int));
        proof {
            lemma_buffer_append(buffer, bits, byte);
            assert(s.take(i + 1).drop_last() =~= s.take(i as int));
            assert(s.take(i + 1).last() == byte);
            lemma_byte_bits_value(byte);
            lemma_bits_value_concat(pend_old, byte_bits(byte));
            assert(bits_of(s.take(i + 1)) == old_bits_seq + byte_bits(byte));
            assert((old_bits_seq + byte_bits(byte)).skip(5 * (output@.len() as int)) =~= pend_old
                + byte_bits(byte));
            assert((old_bits_seq + byte_bits(byte)).take(5 * (output@.len() as int)) =~= old_bits_seq.take(
                5 * (output@.len() as int),
            ));
            reveal_with_fuel(p2, 9);
        }
        buffer = (buffer << 8u16) | (byte as u16);
        bits = bits + 8;
        i = i + 1;
        while bits >= 5
            invariant
                s == bytes@,
                i <= s.len(),
                bits <= 12,
                5 * (output@.len() as int) + bits == bits_of(s.take(i as int)).len(),
                output@ == base32_bits(bits_of(s.take(i as int)).take(5 * (output@.len() as int))),
                (buffer as nat) % p2(bits as nat) == bits_value(
                    bits_of(s.take(i as int)).skip(5 * (output@.len() as int)),
                ),
            decreases bits,
        {
            let ghost all = bits_of(s.take(i as int));
            let ghost k = 5 * (output@.len() as int);
            let ghost pend = all.skip(k);
            proof {
                lemma_buffer_emit(buffer, bits);
                lemma_bits_value_concat(pend.take(5), pend.skip(5));
                assert(pend =~= pend.take(5) + pend.skip(5));
                lemma_bits_value_bound(pend.skip(5));
                let hi = bits_value(pend.take(5));
                let lo = bits_value(pend.skip(5));
                let q = p2((bits - 5) as nat);
                assert(pend.skip(5).len() == bits - 5);
                assert(lo < q);
                lemma_fundamental_div_mod_converse((hi * q + lo) as int, q as int, hi as int, lo as int);
                lemma_base32_concat(all.take(k), all.subrange(k, k + 5));
                assert(all.take(k + 5) =~= all.take(k) + all.subrange(k, k + 5));
                assert(all.subrange(k, k + 5) == pend.take(5));
                assert(all.subrange(k, k + 5).skip(5) =~= Seq::<bool>::empty());
                assert(all.subrange(k, k + 5).take(5) =~= all.subrange(k, k + 5));
                assert(base32_bits(all.subrange(k, k + 5).skip(5)) =~= Seq::<char>::empty());
                assert(all.subrange(k, k + 5).len() == 5);
                assert(base32_bits(all.subrange(k, k + 5)) =~= seq![b32_digit(hi)]);
                assert(all.skip(k + 5) =~= pend.skip(5));
                lemma_bits_value_bound(pend.take(5));
                reveal_with_fuel(p2, 6);
            }
            let index = (buffer >> ((bits - 5) as u16)) & 31u16;
            output.push(b32_digit_exec(index));
            bits = bits - 5;
        }
    }
    let ghost all = bits_of(s);
    assert(s.take(s.len() as int) =~= s);
    let ghost k = 5 * (output@.len() as int);
    if bits > 0 {
        let ghost pend = all.skip(k);
        proof {
            lemma_buffer_tail(buffer, bits);
            lemma_base32_concat(all.take(k), pend);
            assert(all =~= all.take(k) + pend);
            assert(pend.len() == bits);
        }
        let index = (buffer << ((5 - bits) as u16)) & 31u16;
        proof {
            lemma_bits_value_bound(pend);
            lemma_p2_add(bits as nat, (5 - bits) as nat);
            reveal_with_fuel(p2, 6);
            assert(bits_value(pend) * p2((5 - bits) as nat) < 32) by (nonlinear_arith)
                requires
                    bits_value(pend) < p2(bits as nat),
                    p2(bits as nat) * p2((5 - bits) as nat) == 32,
            ;
        }
        output.push(b32_digit_exec(index));
    } else {
        proof {
            assert(all.take(k) =~= all);
        }
    }
    string_of(&output)
}

} // verus!
