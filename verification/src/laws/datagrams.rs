//! Datagrams: what is written reads back under a checksum that checks, and a
//! changed byte does not pass where the checksum or the headers cover it.
use vstd::arithmetic::div_mod::{lemma_fundamental_div_mod, lemma_fundamental_div_mod_converse};
use vstd::prelude::*;

use crate::address::{mesh_local, mesh_prefix, short_address};
use crate::bytes::{high, lemma_halves_of_joined, lemma_joined_of_halves, low};
use crate::checksum::{
    carried, lemma_word_sum_prefix, summed_bytes, udp_checksum, weight, word_sum, NEXT_HEADER_UDP,
};
use crate::datagram::{
    datagram_bytes, read_datagram, udp_bytes, udp_length, wire_checksum, DatagramModel,
    MAX_UDP_PAYLOAD,
};
use crate::error::Error;

verus! {

/// Changing one byte moves the sum by the change at that byte's weight.
proof fn lemma_word_sum_update(bytes: Seq<u8>, at: int, byte: u8)
    requires
        0 <= at < bytes.len(),
    ensures
        word_sum(bytes.update(at, byte)) == word_sum(bytes) + (byte - bytes[at]) * weight(at),
    decreases bytes.len(),
{
    let changed = bytes.update(at, byte);
    let last = bytes.len() - 1;
    if at == last {
        assert(changed.drop_last() =~= bytes.drop_last());
        assert(byte as nat * weight(at) == bytes[at] as nat * weight(at) + (byte - bytes[at])
            * weight(at)) by (nonlinear_arith);
    } else {
        lemma_word_sum_update(bytes.drop_last(), at, byte);
        assert(changed.drop_last() =~= bytes.drop_last().update(at, byte));
    }
}

/// The pseudo-header says UDP, so what is summed is never all zero.
proof fn lemma_sum_is_positive(source: Seq<u8>, destination: Seq<u8>, udp: Seq<u8>)
    requires
        source.len() == 16,
        destination.len() == 16,
    ensures
        word_sum(summed_bytes(source, destination, udp)) > 0,
{
    let whole = summed_bytes(source, destination, udp);
    lemma_word_sum_prefix(whole, 40);
    assert(whole.take(40).last() == NEXT_HEADER_UDP);
}

/// A sum that comes to a checksum of zero is a multiple of all ones, and the
/// other way about.
proof fn lemma_checks_where_all_ones_divides(sum: nat)
    requires
        sum > 0,
    ensures
        carried(sum) == 65535 <==> sum % 65535 == 0,
{
    let below = (sum - 1) as int;
    lemma_fundamental_div_mod(below, 65535);
    if below % 65535 == 65534 {
        lemma_fundamental_div_mod_converse(sum as int, 65535, below / 65535 + 1, 0);
    } else {
        lemma_fundamental_div_mod_converse(
            sum as int,
            65535,
            below / 65535,
            below % 65535 + 1,
        );
    }
}

/// With the checksum it travels under filled in, a datagram comes to zero;
/// and that checksum is never the zero that would say there is none.
pub proof fn filled_in_checksum_checks(datagram: DatagramModel)
    requires
        datagram.addressed(),
    ensures
        udp_checksum(
            datagram.source,
            datagram.destination,
            udp_bytes(datagram, wire_checksum(datagram)),
        ) == 0,
        wire_checksum(datagram) != 0,
{
    let check = wire_checksum(datagram);
    let (source, destination) = (datagram.source, datagram.destination);
    let without = summed_bytes(source, destination, udp_bytes(datagram, 0));
    let with = summed_bytes(source, destination, udp_bytes(datagram, check));
    let half = without.update(46, high(check));
    assert(with =~= half.update(47, low(check)));
    lemma_word_sum_update(without, 46, high(check));
    lemma_word_sum_update(half, 47, low(check));
    assert(word_sum(with) == word_sum(without) + check);
    lemma_sum_is_positive(source, destination, udp_bytes(datagram, 0));
    let below = (word_sum(without) - 1) as int;
    lemma_fundamental_div_mod(below, 65535);
    if below % 65535 == 65534 {
        lemma_fundamental_div_mod_converse(
            word_sum(with) as int,
            65535,
            below / 65535 + 2,
            0,
        );
    } else {
        lemma_fundamental_div_mod_converse(
            word_sum(with) as int,
            65535,
            below / 65535 + 1,
            0,
        );
    }
    lemma_checks_where_all_ones_divides(word_sum(with));
}

/// A datagram whose payload one datagram carries reads back as it was
/// written.
pub proof fn datagram_reads_back(datagram: DatagramModel)
    requires
        datagram.addressed(),
        datagram.payload.len() <= MAX_UDP_PAYLOAD,
    ensures
        read_datagram(datagram_bytes(datagram)) == Ok::<DatagramModel, Error>(datagram),
{
    let bytes = datagram_bytes(datagram);
    let udp = udp_bytes(datagram, wire_checksum(datagram));
    assert(bytes.skip(40) =~= udp);
    assert(bytes.subrange(8, 24) =~= datagram.source);
    assert(bytes.subrange(24, 40) =~= datagram.destination);
    assert(udp.skip(8) =~= datagram.payload);
    lemma_joined_of_halves(udp_length(datagram));
    lemma_joined_of_halves(datagram.source_port);
    lemma_joined_of_halves(datagram.destination_port);
    filled_in_checksum_checks(datagram);
}

/// Whether a datagram with `byte` in place of `was` at `at` differs where it
/// is looked at: in the IP version, or anywhere but in the traffic class, the
/// flow label and the hop limit.
pub open spec fn covered(at: int, was: u8, byte: u8) -> bool {
    if at == 0 {
        was / 16 != byte / 16
    } else {
        was != byte && at != 1 && at != 2 && at != 3 && at != 7
    }
}

/// A sum of words that was a multiple of all ones is none when one byte of
/// what is summed changes.
proof fn lemma_one_byte_breaks_the_checksum(bytes: Seq<u8>, at: int, byte: u8)
    requires
        0 <= at < bytes.len(),
        byte != bytes[at],
        carried(word_sum(bytes)) == 65535,
    ensures
        carried(word_sum(bytes.update(at, byte))) != 65535,
{
    let sum = word_sum(bytes);
    let changed = word_sum(bytes.update(at, byte));
    let moved = (byte - bytes[at]) * weight(at);
    lemma_word_sum_update(bytes, at, byte);
    assert(moved != 0 && -65535 < moved < 65535) by {
        let by = byte - bytes[at];
        assert(by * 256 != 0 && -65535 < by * 256 < 65535);
        assert(weight(at) == 256 || weight(at) == 1);
    }
    if changed > 0 {
        lemma_checks_where_all_ones_divides(sum);
        lemma_checks_where_all_ones_divides(changed);
        lemma_fundamental_div_mod(sum as int, 65535);
        lemma_fundamental_div_mod(changed as int, 65535);
        if changed % 65535 == 0 {
            assert(65535 * (changed / 65535 - sum / 65535) == moved);
        }
    }
}

/// A datagram that read, one byte of it changed where it is looked at, does
/// not read.
pub proof fn changed_datagram_is_refused(bytes: Seq<u8>, at: int, byte: u8)
    requires
        read_datagram(bytes) is Ok,
        0 <= at < bytes.len(),
        covered(at, bytes[at], byte),
    ensures
        read_datagram(bytes.update(at, byte)) is Err,
{
    let changed = bytes.update(at, byte);
    if at == 4 || at == 5 {
        lemma_halves_of_joined(bytes[4], bytes[5]);
        lemma_halves_of_joined(changed[4], changed[5]);
        assert(changed.skip(40).len() == bytes.skip(40).len());
    } else if at >= 8 {
        let udp = bytes.skip(40);
        let whole = summed_bytes(bytes.subrange(8, 24), bytes.subrange(24, 40), udp);
        let changed_whole = summed_bytes(
            changed.subrange(8, 24),
            changed.subrange(24, 40),
            changed.skip(40),
        );
        let place = if at < 40 {
            at - 8
        } else {
            at
        };
        assert(changed_whole =~= whole.update(place, byte));
        assert(whole[place] == bytes[at]);
        lemma_one_byte_breaks_the_checksum(whole, place, byte);
    }
}

/// The traffic class, the flow label and the hop limit are not looked at:
/// routers may change them on the way.
pub proof fn uncovered_bytes_are_not_looked_at(bytes: Seq<u8>, at: int, byte: u8)
    requires
        0 <= at < bytes.len(),
        !covered(at, bytes[at], byte),
    ensures
        read_datagram(bytes.update(at, byte)) == read_datagram(bytes),
{
    let changed = bytes.update(at, byte);
    if byte == bytes[at] {
        assert(changed =~= bytes);
    } else if bytes.len() >= 40 {
        assert(changed.skip(40) =~= bytes.skip(40));
        assert(changed.subrange(8, 24) =~= bytes.subrange(8, 24));
        assert(changed.subrange(24, 40) =~= bytes.subrange(24, 40));
    }
}

/// The mesh-local address of a node names that node, and no other address
/// names it.
pub proof fn mesh_local_address_names_its_node(octets: Seq<u8>, rloc16: u16)
    requires
        octets.len() == 16,
    ensures
        short_address(octets) == Some(rloc16) <==> octets == mesh_local(rloc16),
{
    lemma_joined_of_halves(rloc16);
    lemma_halves_of_joined(octets[14], octets[15]);
    assert(mesh_local(rloc16).take(14) =~= mesh_prefix());
    if short_address(octets) == Some(rloc16) {
        assert(forall|i: int| 0 <= i < 14 ==> octets[i] == octets.take(14)[i]);
        assert(octets =~= mesh_local(rloc16));
    }
}

} // verus!
