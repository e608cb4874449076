//! The UDP checksum as arithmetic: sixteen-bit words that come to a multiple
//! of all ones, with the length of the datagram as a number.
use vstd::arithmetic::div_mod::{lemma_fundamental_div_mod, lemma_fundamental_div_mod_converse};
use vstd::prelude::*;

use crate::checksum::{carried, length_bytes, summed_bytes, udp_checksum, word_sum};

verus! {

/// The sum of `bytes` taken two by two, the first of each two as the high
/// half of a number; an odd last one is a high half too.
pub open spec fn sum_by_twos(bytes: Seq<u8>) -> nat
    decreases bytes.len(),
{
    if bytes.len() == 0 {
        0
    } else if bytes.len() == 1 {
        bytes[0] as nat * 256
    } else {
        bytes[0] as nat * 256 + bytes[1] as nat + sum_by_twos(bytes.skip(2))
    }
}

/// What is summed first does not matter.
proof fn lemma_sum_after_two(bytes: Seq<u8>)
    requires
        bytes.len() >= 2,
    ensures
        word_sum(bytes) == bytes[0] * 256 + bytes[1] + word_sum(bytes.skip(2)),
    decreases bytes.len(),
{
    if bytes.len() == 2 {
        let one = bytes.drop_last();
        assert(one.drop_last() =~= Seq::empty());
        assert(bytes.skip(2) =~= Seq::empty());
        assert(word_sum(one) == bytes[0] as nat * 256);
        assert(word_sum(bytes) == word_sum(one) + bytes[1] as nat * 1);
    } else {
        let before = bytes.drop_last();
        lemma_sum_after_two(before);
        assert(before.skip(2) =~= bytes.skip(2).drop_last());
        assert(bytes.skip(2).last() == bytes.last());
        assert((bytes.skip(2).len() - 1) % 2 == (bytes.len() - 1) % 2);
    }
}

/// The sum of words is the sum of the bytes two by two.
pub proof fn words_are_summed_by_twos(bytes: Seq<u8>)
    ensures
        word_sum(bytes) == sum_by_twos(bytes),
    decreases bytes.len(),
{
    if bytes.len() == 1 {
        assert(word_sum(bytes.drop_last()) == 0);
        assert(bytes.last() == bytes[0]);
    } else if bytes.len() > 1 {
        lemma_sum_after_two(bytes);
        words_are_summed_by_twos(bytes.skip(2));
    }
}

/// Sums of an even number of bytes and what follows them add up.
proof fn lemma_sums_add_up(left: Seq<u8>, right: Seq<u8>)
    requires
        left.len() % 2 == 0,
    ensures
        sum_by_twos(left + right) == sum_by_twos(left) + sum_by_twos(right),
    decreases left.len(),
{
    if left.len() == 0 {
        assert(left + right =~= right);
    } else {
        lemma_sums_add_up(left.skip(2), right);
        assert((left + right).skip(2) =~= left.skip(2) + right);
    }
}

/// The pseudo-header holds the length of a datagram as one number of four
/// bytes, the highest first; a length past four bytes as the largest number.
pub proof fn length_is_held_as_a_number(length: nat)
    ensures
        ({
            let held = length_bytes(length);
            let number = held[0] * 16777216 + held[1] * 65536 + held[2] * 256 + held[3];
            &&& held.len() == 4
            &&& number == if length <= 0xffff_ffff {
                length
            } else {
                0xffff_ffff
            }
        }),
{
    let number: nat = if length > u32::MAX {
        u32::MAX as nat
    } else {
        length
    };
    let upper = number / 65536;
    let lower = number % 65536;
    assert(number == upper * 65536 + lower);
    assert(upper <= 65535);
    assert(upper == (upper / 256) * 256 + upper % 256);
    assert(lower == (lower / 256) * 256 + lower % 256);
    let held = length_bytes(length);
    assert(held[0] == upper / 256);
    assert(held[1] == upper % 256);
    assert(held[2] == lower / 256);
    assert(held[3] == lower % 256);
}

/// Numbers that differ by a multiple of all ones leave the same over.
proof fn lemma_same_left_over(a: int, b: int, times: int)
    requires
        a == b + 65535 * times,
        b >= 0,
        a >= 0,
    ensures
        a % 65535 == b % 65535,
{
    lemma_fundamental_div_mod(b, 65535);
    lemma_fundamental_div_mod_converse(a, 65535, b / 65535 + times, b % 65535);
}

/// The checksum of a UDP datagram is the one number below all ones that makes
/// the words of the two addresses, the length of the datagram, seventeen for
/// UDP and the words of the datagram come to a multiple of all ones.
pub proof fn checksum_makes_the_sum_a_multiple_of_all_ones(
    source: Seq<u8>,
    destination: Seq<u8>,
    udp: Seq<u8>,
)
    requires
        source.len() == 16,
        destination.len() == 16,
        udp.len() <= 0xffff_ffff,
    ensures
        udp_checksum(source, destination, udp) < 65535,
        (sum_by_twos(source) + sum_by_twos(destination) + udp.len() + 17 + sum_by_twos(udp)
            + udp_checksum(source, destination, udp)) % 65535 == 0,
{
    let whole = summed_bytes(source, destination, udp);
    let sum = word_sum(whole);
    let held = length_bytes(udp.len());
    let next = seq![0u8, 0, 0, 17];
    words_are_summed_by_twos(whole);
    assert(whole =~= source + (destination + (held + (next + udp))));
    lemma_sums_add_up(source, destination + (held + (next + udp)));
    lemma_sums_add_up(destination, held + (next + udp));
    lemma_sums_add_up(held, next + udp);
    lemma_sums_add_up(next, udp);
    length_is_held_as_a_number(udp.len());
    assert(sum_by_twos(next) == 17) by {
        reveal_with_fuel(sum_by_twos, 3);
        assert(next.skip(2) =~= seq![0u8, 17]);
        assert(next.skip(2).skip(2) =~= Seq::empty());
    }
    assert(sum_by_twos(held) == held[0] * 256 + held[1] + held[2] * 256 + held[3]) by {
        reveal_with_fuel(sum_by_twos, 3);
        assert(held.skip(2).skip(2) =~= Seq::empty());
        assert(held.skip(2)[0] == held[2]);
        assert(held.skip(2)[1] == held[3]);
    }
    let upper = held[0] * 256 + held[1];
    assert(udp.len() == sum_by_twos(held) + 65535 * upper);
    let check = udp_checksum(source, destination, udp);
    let all = sum_by_twos(source) + sum_by_twos(destination) + udp.len() + 17 + sum_by_twos(udp)
        + check;
    assert(sum == sum_by_twos(source) + sum_by_twos(destination) + sum_by_twos(held) + 17
        + sum_by_twos(udp));
    assert(sum > 0);
    let below = sum - 1;
    lemma_fundamental_div_mod(below, 65535);
    assert(check == 65535 - carried(sum));
    assert(sum + check == 65535 * (below / 65535 + 1));
    lemma_same_left_over(all, 0, below / 65535 + 1 + upper);
}

} // verus!
