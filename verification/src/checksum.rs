//! The Internet checksum of a UDP datagram under the IPv6 pseudo-header.
use vstd::arithmetic::div_mod::lemma_mod_multiples_vanish;
use vstd::prelude::*;

use crate::address::Address;
use crate::bytes::{big, push_big, push_bytes};

verus! {

/// The next header that says UDP.
pub const NEXT_HEADER_UDP: u8 = 17;

/// The longest datagram whose words sum within thirty-two bits whatever they
/// are.
pub const MAX_SUMMED: usize = 131034;

/// What a byte counts for in a sum of sixteen-bit words: the byte at an even
/// place is the high half of its word.
pub open spec fn weight(place: int) -> nat {
    if place % 2 == 0 {
        256
    } else {
        1
    }
}

/// The sum of the sixteen-bit words of `bytes`, high byte first, an odd last
/// byte padded with zero.
pub open spec fn word_sum(bytes: Seq<u8>) -> nat
    decreases bytes.len(),
{
    if bytes.len() == 0 {
        0
    } else {
        word_sum(bytes.drop_last()) + bytes.last() as nat * weight(bytes.len() - 1)
    }
}

/// `sum` in sixteen-bit ones' complement: every carry is added back in, so
/// that only zero comes to zero.
pub open spec fn carried(sum: nat) -> nat {
    if sum == 0 {
        0
    } else {
        (1 + (sum - 1) % 65535) as nat
    }
}

/// `length` as the pseudo-header holds it, in four bytes.
pub open spec fn length_bytes(length: nat) -> Seq<u8> {
    let held: nat = if length > u32::MAX {
        u32::MAX as nat
    } else {
        length
    };
    big((held / 65536) as u16) + big((held % 65536) as u16)
}

/// The pseudo-header of `udp` between the two addresses, then `udp` itself.
pub open spec fn summed_bytes(source: Seq<u8>, destination: Seq<u8>, udp: Seq<u8>) -> Seq<u8> {
    source + destination + length_bytes(udp.len()) + seq![0u8, 0, 0, NEXT_HEADER_UDP] + udp
}

/// The checksum of `udp` between the two addresses: the ones' complement of
/// the ones' complement sum.
pub open spec fn udp_checksum(source: Seq<u8>, destination: Seq<u8>, udp: Seq<u8>) -> u16 {
    (65535 - carried(word_sum(summed_bytes(source, destination, udp)))) as u16
}

/// A sum of words is at most all ones in every word.
pub proof fn lemma_word_sum_bound(bytes: Seq<u8>)
    ensures
        word_sum(bytes) <= 65535 * (bytes.len() / 2) + 65280 * (bytes.len() % 2),
    decreases bytes.len(),
{
    if bytes.len() > 0 {
        lemma_word_sum_bound(bytes.drop_last());
        let last = bytes.last();
        assert(last as nat * 256 <= 65280);
    }
}

/// A sum grows with what is summed.
pub proof fn lemma_word_sum_prefix(bytes: Seq<u8>, at: int)
    requires
        0 <= at <= bytes.len(),
    ensures
        word_sum(bytes.take(at)) <= word_sum(bytes),
    decreases bytes.len() - at,
{
    if at == bytes.len() {
        assert(bytes.take(at) =~= bytes);
    } else {
        lemma_word_sum_prefix(bytes, at + 1);
        assert(bytes.take(at + 1).drop_last() =~= bytes.take(at));
        let last = bytes.take(at + 1).last();
        assert(last as nat * 256 >= 0);
    }
}

/// Adding one carry back in keeps the ones' complement sum.
proof fn lemma_carry(sum: nat)
    requires
        sum > 0,
    ensures
        carried(sum % 65536 + sum / 65536) == carried(sum),
        sum % 65536 + sum / 65536 > 0,
{
    let over = (sum / 65536) as int;
    let once = sum % 65536 + sum / 65536;
    assert(sum == once + 65535 * over);
    lemma_mod_multiples_vanish(over, once - 1, 65535);
    assert(65535 * over + (once - 1) == sum - 1);
}

/// The Internet checksum of `udp` under the IPv6 pseudo-header: the ones'
/// complement of the ones' complement sum. With the checksum field filled
/// in, a correct datagram comes to zero.
#[must_use]
pub fn checksum(source: &Address, destination: &Address, udp: &[u8]) -> (check: u16)
    requires
        udp@.len() <= MAX_SUMMED || word_sum(summed_bytes(source@, destination@, udp@))
            <= u32::MAX,
    ensures
        check == udp_checksum(source@, destination@, udp@),
{
    let mut pseudo: Vec<u8> = Vec::new();
    push_bytes(&mut pseudo, source.octets.as_slice());
    push_bytes(&mut pseudo, destination.octets.as_slice());
    let length: u32 = if udp.len() > u32::MAX as usize {
        u32::MAX
    } else {
        udp.len() as u32
    };
    push_big(&mut pseudo, (length / 65536) as u16);
    push_big(&mut pseudo, (length % 65536) as u16);
    push_bytes(&mut pseudo, &[0, 0, 0, NEXT_HEADER_UDP]);
    push_bytes(&mut pseudo, udp);
    let ghost whole = summed_bytes(source@, destination@, udp@);
    assert(pseudo@ =~= whole);
    proof {
        lemma_word_sum_bound(whole);
    }
    let mut sum: u32 = 0;
    let mut at: usize = 0;
    while at < pseudo.len()
        invariant
            pseudo@ == whole,
            at <= whole.len(),
            word_sum(whole) <= u32::MAX,
            sum == word_sum(whole.take(at as int)),
        decreases whole.len() - at,
    {
        proof {
            lemma_word_sum_prefix(whole, at + 1);
            assert(whole.take(at + 1).drop_last() =~= whole.take(at as int));
        }
        let place: u32 = if at % 2 == 0 {
            256
        } else {
            1
        };
        let byte: u8 = pseudo[at];
        assert(byte * place <= 255 * 256) by (nonlinear_arith)
            requires
                byte <= 255,
                place <= 256,
        ;
        sum = sum + byte as u32 * place;
        at += 1;
    }
    assert(whole.take(at as int) =~= whole);
    let ghost total = sum as nat;
    while sum / 65536 != 0
        invariant
            carried(sum as nat) == carried(total),
        decreases sum,
    {
        proof {
            lemma_carry(sum as nat);
        }
        sum = sum % 65536 + sum / 65536;
    }
    assert(carried(sum as nat) == sum);
    65535 - sum as u16
}

} // verus!
