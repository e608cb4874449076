//! The check sequence as the code it is: the bits of a message and of its
//! check value together are a multiple of the generator polynomial.
use vstd::prelude::*;

use crate::crc::{after_bit, after_bits, crc};

verus! {

/// The bit `k` of `bytes` in the order the radio sends them: the lowest bit
/// of a byte first.
pub open spec fn sent_bit(bytes: Seq<u8>, k: int) -> bool {
    (bytes[k / 8] >> (k % 8) as u8) & 1 == 1
}

/// The coefficient `k` of a polynomial, the highest first; beyond its ends it
/// has none.
pub open spec fn coefficient(polynomial: Seq<bool>, k: int) -> bool {
    0 <= k < polynomial.len() && polynomial[k]
}

/// The coefficient `k` of a polynomial times `x^16 + x^12 + x^5 + 1`.
pub open spec fn product(polynomial: Seq<bool>, k: int) -> bool {
    coefficient(polynomial, k) ^ coefficient(polynomial, k - 4) ^ coefficient(
        polynomial,
        k - 11,
    ) ^ coefficient(polynomial, k - 16)
}

/// The bit `i` of a register.
spec fn register_bit(register: u16, i: int) -> bool {
    (register >> i as u16) & 1 == 1
}

/// Whether `quotient` times the generator is the first `count` bits of
/// `bytes` and then `register`.
spec fn divides(bytes: Seq<u8>, count: int, quotient: Seq<bool>, register: u16) -> bool {
    &&& quotient.len() == count
    &&& forall|k: int| 0 <= k < count ==> product(quotient, k) == #[trigger] sent_bit(bytes, k)
    &&& forall|i: int|
        0 <= i < 16 ==> product(quotient, count + i) == #[trigger] register_bit(register, i)
}

/// The register after one message bit more.
spec fn stepped(register: u16, bit: bool) -> u16 {
    after_bit(
        register ^ (if bit {
            1
        } else {
            0
        }),
    )
}

/// The bits of a register after one message bit more.
proof fn lemma_stepped_bits(register: u16, bit: bool)
    ensures
        ({
            let out = register_bit(register, 0) ^ bit;
            let then = stepped(register, bit);
            &&& register_bit(then, 15) == out
            &&& forall|i: int|
                0 <= i < 15 ==> #[trigger] register_bit(then, i) == (register_bit(register, i + 1)
                    ^ (out && (i == 3 || i == 10)))
        }),
{
    let then = stepped(register, bit);
    let m: u16 = if bit {
        1
    } else {
        0
    };
    let fed = register ^ m;
    assert(then == after_bit(fed));
    assert(register_bit(register, 0) == (register & 1 == 1)) by {
        assert((register >> 0u16) & 1 == register & 1) by (bit_vector);
    }
    assert((fed & 1 == 1) == ((register & 1 == 1) ^ (m == 1))) by (bit_vector)
        requires
            fed == register ^ m,
            m == 0 || m == 1,
    ;
    let low = fed & 1 == 1;
    assert(then == if low {
        (fed >> 1) ^ 0x8408
    } else {
        fed >> 1
    });
    assert((then >> 15u16) & 1 == 1 <==> low) by (bit_vector)
        requires
            then == if low {
                (fed >> 1) ^ 0x8408
            } else {
                fed >> 1
            },
    ;
    assert forall|i: int| 0 <= i < 15 implies #[trigger] register_bit(then, i) == (register_bit(
        register,
        i + 1,
    ) ^ (low && (i == 3 || i == 10))) by {
        let j = i as u16;
        let up = (i + 1) as u16;
        assert(((then >> j) & 1 == 1) == (((register >> up) & 1 == 1) ^ (low && (j == 3 || j
            == 10)))) by (bit_vector)
            requires
                j < 15,
                up == j + 1,
                m == 0 || m == 1,
                fed == register ^ m,
                then == if low {
                    (fed >> 1) ^ 0x8408
                } else {
                    fed >> 1
                },
        ;
    }
}

/// One message bit more, and one coefficient more of the quotient.
proof fn lemma_divides_on(bytes: Seq<u8>, count: int, quotient: Seq<bool>, register: u16)
    requires
        0 <= count < 8 * bytes.len(),
        divides(bytes, count, quotient, register),
    ensures
        ({
            let bit = sent_bit(bytes, count);
            divides(
                bytes,
                count + 1,
                quotient.push(register_bit(register, 0) ^ bit),
                stepped(register, bit),
            )
        }),
{
    let bit = sent_bit(bytes, count);
    let out = register_bit(register, 0) ^ bit;
    let longer = quotient.push(out);
    let then = stepped(register, bit);
    lemma_stepped_bits(register, bit);
    assert(product(quotient, count + 0) == register_bit(register, 0));
    assert forall|k: int| 0 <= k < count + 1 implies product(longer, k) == #[trigger] sent_bit(
        bytes,
        k,
    ) by {
        if k < count {
            assert(product(longer, k) == product(quotient, k));
        }
    }
    assert forall|i: int| 0 <= i < 16 implies product(longer, count + 1 + i)
        == #[trigger] register_bit(then, i) by {
        assert(product(longer, count + 1 + i) == (product(quotient, count + (i + 1)) ^ (out && (i
            == 3 || i == 10 || i == 15))));
        if i < 15 {
            assert(product(quotient, count + (i + 1)) == register_bit(register, i + 1));
        }
    }
}

/// A byte taken in at once is its bits taken in one by one.
proof fn lemma_bits_of_a_byte(register: u16, byte: u8, bits: nat)
    requires
        bits < 8,
    ensures
        ({
            let so_far = after_bits(register ^ byte as u16, bits) ^ ((byte >> bits as u8) as u16);
            let bit = (byte >> bits as u8) & 1 == 1;
            after_bits(register ^ byte as u16, bits + 1) == stepped(so_far, bit) ^ ((byte >> (bits
                + 1) as u8) as u16)
        }),
{
    let fed = after_bits(register ^ byte as u16, bits);
    let shift = bits as u8;
    let left = (byte >> shift) as u16;
    let so_far = fed ^ left;
    let bit = (byte >> shift) & 1 == 1;
    let m: u16 = if bit {
        1
    } else {
        0
    };
    let next = (byte >> (bits + 1) as u8) as u16;
    let up = (bits + 1) as u8;
    assert(next == left >> 1 && m == left & 1 && left < 256) by (bit_vector)
        requires
            shift < 8,
            up == shift + 1,
            left == (byte >> shift) as u16,
            next == (byte >> up) as u16,
            m == if (byte >> shift) & 1 == 1 {
                1u16
            } else {
                0u16
            },
    ;
    assert((if fed & 1 == 1 {
        (fed >> 1) ^ 0x8408
    } else {
        fed >> 1
    }) == (if ((fed ^ left) ^ (left & 1)) & 1 == 1 {
        (((fed ^ left) ^ (left & 1)) >> 1) ^ 0x8408
    } else {
        ((fed ^ left) ^ (left & 1)) >> 1
    }) ^ (left >> 1)) by (bit_vector);
}

/// Bits of the last byte taken in after all the bytes before it.
proof fn lemma_divides_within_a_byte(
    bytes: Seq<u8>,
    quotient: Seq<bool>,
    bits: nat,
) -> (longer: Seq<bool>)
    requires
        bytes.len() > 0,
        bits <= 8,
        divides(
            bytes,
            8 * (bytes.len() - 1),
            quotient,
            crc(bytes.drop_last()),
        ),
    ensures
        divides(
            bytes,
            8 * (bytes.len() - 1) + bits,
            longer,
            after_bits(crc(bytes.drop_last()) ^ bytes.last() as u16, bits) ^ ((bytes.last()
                >> bits as u8) as u16),
        ),
    decreases bits,
{
    let register = crc(bytes.drop_last());
    let byte = bytes.last();
    if bits == 0 {
        assert((register ^ byte as u16) ^ ((byte >> 0u8) as u16) == register) by (bit_vector);
        quotient
    } else {
        let before = (bits - 1) as nat;
        let shorter = lemma_divides_within_a_byte(bytes, quotient, before);
        let count = 8 * (bytes.len() - 1) + before;
        let so_far = after_bits(register ^ byte as u16, before) ^ ((byte >> before as u8) as u16);
        assert(sent_bit(bytes, count) == ((byte >> before as u8) & 1 == 1));
        lemma_divides_on(bytes, count, shorter, so_far);
        lemma_bits_of_a_byte(register, byte, before);
        let next = (byte >> bits as u8) as u16;
        let bit = sent_bit(bytes, count);
        let then = stepped(so_far, bit);
        assert((then ^ next) ^ next == then) by (bit_vector);
        shorter.push(register_bit(so_far, 0) ^ bit)
    }
}

/// A quotient by the generator, with the check value left over.
proof fn lemma_quotient(bytes: Seq<u8>) -> (quotient: Seq<bool>)
    ensures
        divides(bytes, 8 * bytes.len() as int, quotient, crc(bytes)),
    decreases bytes.len(),
{
    if bytes.len() == 0 {
        assert forall|i: int| 0 <= i < 16 implies !#[trigger] register_bit(0, i) by {
            let j = i as u16;
            assert((0u16 >> j) & 1 == 0) by (bit_vector);
        }
        Seq::empty()
    } else {
        let before = bytes.drop_last();
        let shorter = lemma_quotient(before);
        assert forall|k: int| 0 <= k < 8 * before.len() implies product(shorter, k)
            == #[trigger] sent_bit(bytes, k) by {
            assert(sent_bit(before, k) == sent_bit(bytes, k));
        }
        let longer = lemma_divides_within_a_byte(bytes, shorter, 8);
        let byte = bytes.last();
        let register = crc(bytes);
        assert(register ^ ((byte >> 8u8) as u16) == register) by (bit_vector);
        longer
    }
}

/// Whether the bits of `sent` are the coefficients of `quotient` times the
/// generator.
pub open spec fn is_multiple(sent: Seq<u8>, quotient: Seq<bool>) -> bool {
    &&& quotient.len() + 16 == 8 * sent.len()
    &&& forall|k: int|
        0 <= k < 8 * sent.len() ==> #[trigger] sent_bit(sent, k) == product(quotient, k)
}

/// Whether the bits of `sent` are a multiple of `x^16 + x^12 + x^5 + 1`, each
/// bit a coefficient, the first one sent the highest.
pub open spec fn is_codeword(sent: Seq<u8>) -> bool {
    exists|quotient: Seq<bool>| is_multiple(sent, quotient)
}

/// A message of any length and its check value after it, low byte first, are
/// together a multiple of the generator.
pub proof fn message_and_check_value_are_a_codeword(bytes: Seq<u8>)
    ensures
        is_codeword(bytes + seq![(crc(bytes) % 256) as u8, (crc(bytes) / 256) as u8]),
{
    let check = crc(bytes);
    let sent = bytes + seq![(check % 256) as u8, (check / 256) as u8];
    let quotient = lemma_quotient(bytes);
    let count = 8 * bytes.len();
    assert forall|k: int| 0 <= k < 8 * sent.len() implies #[trigger] sent_bit(sent, k) == product(
        quotient,
        k,
    ) by {
        if k < count {
            assert(sent_bit(bytes, k) == sent_bit(sent, k));
        } else {
            let i = k - count;
            let j = i as u16;
            let shift = (k % 8) as u8;
            let low = (check % 256) as u8;
            let high = (check / 256) as u8;
            assert(register_bit(check, i) == product(quotient, count + i));
            if i < 8 {
                assert((low >> shift) & 1 == 1 <==> (check >> j) & 1 == 1) by (bit_vector)
                    requires
                        j < 8,
                        shift == j,
                        low == (check % 256) as u8,
                ;
            } else {
                assert((high >> shift) & 1 == 1 <==> (check >> j) & 1 == 1) by (bit_vector)
                    requires
                        8 <= j < 16,
                        shift == j - 8,
                        high == (check / 256) as u8,
                ;
            }
        }
    }
    assert(is_multiple(sent, quotient));
}

/// Quotients of messages that begin alike are alike as far as that.
proof fn lemma_same_quotient(
    sent: Seq<u8>,
    quotient: Seq<bool>,
    other: Seq<u8>,
    other_quotient: Seq<bool>,
    k: int,
)
    requires
        is_multiple(sent, quotient),
        is_multiple(other, other_quotient),
        sent.len() == other.len(),
        sent.take(sent.len() - 2) == other.take(sent.len() - 2),
        k < quotient.len(),
    ensures
        coefficient(quotient, k) == coefficient(other_quotient, k),
    decreases k + 16,
{
    if k >= 0 {
        lemma_same_quotient(sent, quotient, other, other_quotient, k - 4);
        lemma_same_quotient(sent, quotient, other, other_quotient, k - 11);
        lemma_same_quotient(sent, quotient, other, other_quotient, k - 16);
        let at = k / 8;
        let end = sent.len() - 2;
        assert(0 <= at < end);
        assert(sent[at] == sent.take(end)[at]);
        assert(other[at] == other.take(end)[at]);
        assert(sent_bit(sent, k) == sent_bit(other, k));
        assert(sent_bit(sent, k) == product(quotient, k));
        assert(sent_bit(other, k) == product(other_quotient, k));
    }
}

/// Bytes with the same bits are the same.
proof fn lemma_same_byte(a: u8, b: u8)
    requires
        forall|i: int| 0 <= i < 8 ==> ((a >> #[trigger] (i as u8)) & 1 == 1) == ((b >> i as u8) & 1
            == 1),
    ensures
        a == b,
{
    assert(((a >> 0int as u8) & 1 == 1) == ((b >> 0int as u8) & 1 == 1));
    assert(((a >> 1int as u8) & 1 == 1) == ((b >> 1int as u8) & 1 == 1));
    assert(((a >> 2int as u8) & 1 == 1) == ((b >> 2int as u8) & 1 == 1));
    assert(((a >> 3int as u8) & 1 == 1) == ((b >> 3int as u8) & 1 == 1));
    assert(((a >> 4int as u8) & 1 == 1) == ((b >> 4int as u8) & 1 == 1));
    assert(((a >> 5int as u8) & 1 == 1) == ((b >> 5int as u8) & 1 == 1));
    assert(((a >> 6int as u8) & 1 == 1) == ((b >> 6int as u8) & 1 == 1));
    assert(((a >> 7int as u8) & 1 == 1) == ((b >> 7int as u8) & 1 == 1));
    assert(a == b) by (bit_vector)
        requires
            ((a >> 0u8) & 1 == 1) == ((b >> 0u8) & 1 == 1),
            ((a >> 1u8) & 1 == 1) == ((b >> 1u8) & 1 == 1),
            ((a >> 2u8) & 1 == 1) == ((b >> 2u8) & 1 == 1),
            ((a >> 3u8) & 1 == 1) == ((b >> 3u8) & 1 == 1),
            ((a >> 4u8) & 1 == 1) == ((b >> 4u8) & 1 == 1),
            ((a >> 5u8) & 1 == 1) == ((b >> 5u8) & 1 == 1),
            ((a >> 6u8) & 1 == 1) == ((b >> 6u8) & 1 == 1),
            ((a >> 7u8) & 1 == 1) == ((b >> 7u8) & 1 == 1),
    ;
}

/// Only the check value makes a message a multiple of the generator: two
/// bytes that do so after it are its check value, low byte first.
pub proof fn no_other_bytes_make_a_codeword(sent: Seq<u8>)
    requires
        sent.len() >= 2,
        is_codeword(sent),
    ensures
        sent[sent.len() - 2] == crc(sent.take(sent.len() - 2)) % 256,
        sent[sent.len() - 1] == crc(sent.take(sent.len() - 2)) / 256,
{
    let end = sent.len() - 2;
    let bytes = sent.take(end);
    let other = bytes + seq![(crc(bytes) % 256) as u8, (crc(bytes) / 256) as u8];
    message_and_check_value_are_a_codeword(bytes);
    let quotient = choose|quotient: Seq<bool>| is_multiple(sent, quotient);
    let other_quotient = choose|quotient: Seq<bool>| is_multiple(other, quotient);
    assert(other.take(end) =~= bytes);
    assert forall|k: int| coefficient(quotient, k) == coefficient(other_quotient, k) by {
        if k < quotient.len() {
            lemma_same_quotient(sent, quotient, other, other_quotient, k);
        }
    }
    assert forall|k: int| 0 <= k < 8 * sent.len() implies sent_bit(sent, k) == sent_bit(
        other,
        k,
    ) by {
        assert(product(quotient, k) == product(other_quotient, k));
    }
    assert forall|i: int| 0 <= i < 8 implies ((sent[end] >> #[trigger] (i as u8)) & 1 == 1) == ((
    other[end] >> i as u8) & 1 == 1) by {
        assert(sent_bit(sent, 8 * end + i) == sent_bit(other, 8 * end + i));
    }
    assert forall|i: int| 0 <= i < 8 implies ((sent[end + 1] >> #[trigger] (i as u8)) & 1 == 1)
        == ((other[end + 1] >> i as u8) & 1 == 1) by {
        assert(sent_bit(sent, 8 * (end + 1) + i) == sent_bit(other, 8 * (end + 1) + i));
    }
    lemma_same_byte(sent[end], other[end]);
    lemma_same_byte(sent[end + 1], other[end + 1]);
}

} // verus!
