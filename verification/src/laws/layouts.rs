//! What is on the wire, byte by byte: where each number of a frame, a header
//! or a datagram stands, and what bytes are read as.
use vstd::prelude::*;

use crate::address::{mesh_local, segments};
use crate::bytes::{big, high, joined, little, low};
use crate::checksum::udp_checksum;
use crate::crc::crc;
use crate::datagram::{datagram_bytes, read_datagram, udp_bytes, wire_checksum, DatagramModel};
use crate::error::Error;
use crate::fragment::{fragmented, lemma_places};
use crate::frame::{
    frame_bytes, lowpan_bytes, mac_header, read_frame, read_lowpan, FrameModel, LowpanModel,
};
use crate::laws::codes::{
    is_codeword, message_and_check_value_are_a_codeword, no_other_bytes_make_a_codeword,
};
use crate::laws::datagrams::filled_in_checksum_checks;
use crate::laws::sums::{checksum_makes_the_sum_a_multiple_of_all_ones, sum_by_twos};

verus! {

/// A number of two bytes is the one times 256 and the other.
pub proof fn numbers_are_their_two_bytes(value: u16, h: u8, l: u8)
    ensures
        high(value) * 256 + low(value) == value,
        joined(h, l) == h * 256 + l,
        big(value).len() == 2,
        big(value)[0] * 256 + big(value)[1] == value,
        little(value).len() == 2,
        little(value)[0] + little(value)[1] * 256 == value,
{
}

/// A frame on the wire: frame control, sequence, the PAN and the two short
/// addresses low byte first, the payload, and two bytes that make the whole a
/// multiple of the generator.
pub proof fn frame_is_laid_out(frame: FrameModel)
    ensures
        ({
            let bytes = frame_bytes(frame);
            &&& bytes.len() == 11 + frame.payload.len()
            &&& bytes[0] == 0x41
            &&& bytes[1] == 0x88
            &&& bytes[2] == frame.sequence
            &&& bytes[3] + bytes[4] * 256 == frame.pan
            &&& bytes[5] + bytes[6] * 256 == frame.destination
            &&& bytes[7] + bytes[8] * 256 == frame.source
            &&& bytes.subrange(9, bytes.len() - 2) == frame.payload
            &&& is_codeword(bytes)
        }),
{
    let body = mac_header(frame) + frame.payload;
    let bytes = frame_bytes(frame);
    message_and_check_value_are_a_codeword(body);
    assert(bytes =~= body + seq![(crc(body) % 256) as u8, (crc(body) / 256) as u8]);
    assert(bytes.subrange(9, bytes.len() - 2) =~= frame.payload);
}

/// What bytes read as in a frame: nothing over 127 bytes or under 11, nothing
/// that is no multiple of the generator, nothing but a data frame with short
/// addresses; else what stands in its places.
pub proof fn frame_reads_by_its_bytes(bytes: Seq<u8>)
    ensures
        if bytes.len() > 127 {
            read_frame(bytes) == Err::<FrameModel, Error>(Error::Phy)
        } else if bytes.len() < 11 {
            read_frame(bytes) == Err::<FrameModel, Error>(Error::FrameCutOff)
        } else if !is_codeword(bytes) {
            read_frame(bytes) == Err::<FrameModel, Error>(Error::CheckSequence)
        } else if bytes[0] != 0x41 || bytes[1] != 0x88 {
            read_frame(bytes) == Err::<FrameModel, Error>(Error::NotDataFrame)
        } else {
            read_frame(bytes) matches Ok(frame) && {
                &&& frame.sequence == bytes[2]
                &&& frame.pan == bytes[3] + bytes[4] * 256
                &&& frame.destination == bytes[5] + bytes[6] * 256
                &&& frame.source == bytes[7] + bytes[8] * 256
                &&& frame.payload == bytes.subrange(9, bytes.len() - 2)
            }
        },
{
    if 11 <= bytes.len() <= 127 {
        let end = bytes.len() - 2;
        let body = bytes.take(end);
        message_and_check_value_are_a_codeword(body);
        if is_codeword(bytes) {
            no_other_bytes_make_a_codeword(bytes);
        }
        if crc(body) == joined(bytes[end + 1], bytes[end]) {
            assert(bytes =~= body + seq![(crc(body) % 256) as u8, (crc(body) / 256) as u8]);
        }
        assert(body.skip(9) =~= bytes.subrange(9, end));
    }
}

/// The three 6LoWPAN headers on the wire: the dispatch, in a fragment with
/// the low eleven bits of the size under it, the tag high byte first, the IPv6
/// dispatch or the offset, and the bytes.
pub proof fn lowpan_is_laid_out(lowpan: LowpanModel)
    ensures
        ({
            let payload = lowpan_bytes(lowpan);
            match lowpan {
                LowpanModel::Ipv6(bytes) => {
                    &&& payload.len() == 1 + bytes.len()
                    &&& payload[0] == 0x41
                    &&& payload.skip(1) == bytes
                },
                LowpanModel::Frag1 { size, tag, bytes } => {
                    &&& payload.len() == 5 + bytes.len()
                    &&& payload[0] * 256 + payload[1] == 0xc000 + size % 2048
                    &&& payload[2] * 256 + payload[3] == tag
                    &&& payload[4] == 0x41
                    &&& payload.skip(5) == bytes
                },
                LowpanModel::FragN { size, tag, offset, bytes } => {
                    &&& payload.len() == 5 + bytes.len()
                    &&& payload[0] * 256 + payload[1] == 0xe000 + size % 2048
                    &&& payload[2] * 256 + payload[3] == tag
                    &&& payload[4] == offset
                    &&& payload.skip(5) == bytes
                },
            }
        }),
{
    let payload = lowpan_bytes(lowpan);
    match lowpan {
        LowpanModel::Ipv6(bytes) => {
            assert(payload.skip(1) =~= bytes);
        },
        LowpanModel::Frag1 { size, tag, bytes } => {
            assert(payload.skip(5) =~= bytes);
        },
        LowpanModel::FragN { size, tag, offset, bytes } => {
            assert(payload.skip(5) =~= bytes);
        },
    }
}

/// What a payload reads as in 6LoWPAN terms, by its first byte and the four
/// that follow.
pub proof fn lowpan_reads_by_its_bytes(payload: Seq<u8>)
    ensures
        if payload.len() == 0 {
            read_lowpan(payload) == Err::<LowpanModel, Error>(Error::LowpanCutOff)
        } else if payload[0] == 0x41 {
            read_lowpan(payload) == Ok::<LowpanModel, Error>(LowpanModel::Ipv6(payload.skip(1)))
        } else if payload.len() < 4 {
            read_lowpan(payload) == Err::<LowpanModel, Error>(Error::LowpanCutOff)
        } else if 0xc0 <= payload[0] <= 0xc7 {
            if payload.len() < 5 || payload[4] != 0x41 {
                read_lowpan(payload) == Err::<LowpanModel, Error>(Error::FirstWithoutIpv6)
            } else {
                read_lowpan(payload) matches Ok(LowpanModel::Frag1 { size, tag, bytes }) && {
                    &&& size == (payload[0] - 0xc0) * 256 + payload[1]
                    &&& tag == payload[2] * 256 + payload[3]
                    &&& bytes == payload.skip(5)
                }
            }
        } else if 0xe0 <= payload[0] <= 0xe7 {
            if payload.len() < 5 {
                read_lowpan(payload) == Err::<LowpanModel, Error>(Error::LowpanCutOff)
            } else {
                read_lowpan(payload) matches Ok(LowpanModel::FragN { size, tag, offset, bytes })
                    && {
                    &&& size == (payload[0] - 0xe0) * 256 + payload[1]
                    &&& tag == payload[2] * 256 + payload[3]
                    &&& offset == payload[4]
                    &&& bytes == payload.skip(5)
                }
            }
        } else {
            read_lowpan(payload) matches Err(Error::Dispatch(bits)) && bits % 8 == 0 && bits
                <= payload[0] < bits + 8
        },
{
}

/// A datagram on the wire: the IPv6 header with the length of what follows
/// it, UDP and a hop limit of 64, the two addresses, the two ports, the length
/// again, a checksum that is never zero and makes the sum a multiple of all
/// ones, and the payload.
pub proof fn datagram_is_laid_out(datagram: DatagramModel)
    requires
        datagram.addressed(),
        datagram.payload.len() <= 1999,
    ensures
        ({
            let bytes = datagram_bytes(datagram);
            &&& bytes.len() == 48 + datagram.payload.len()
            &&& bytes.take(4) == seq![0x60u8, 0, 0, 0]
            &&& bytes[4] * 256 + bytes[5] == 8 + datagram.payload.len()
            &&& bytes[6] == 17
            &&& bytes[7] == 64
            &&& bytes.subrange(8, 24) == datagram.source
            &&& bytes.subrange(24, 40) == datagram.destination
            &&& bytes[40] * 256 + bytes[41] == datagram.source_port
            &&& bytes[42] * 256 + bytes[43] == datagram.destination_port
            &&& bytes[44] * 256 + bytes[45] == 8 + datagram.payload.len()
            &&& bytes[46] * 256 + bytes[47] != 0
            &&& bytes.skip(48) == datagram.payload
            &&& (sum_by_twos(bytes.subrange(8, 24)) + sum_by_twos(bytes.subrange(24, 40)) + (8
                + datagram.payload.len()) + 17 + sum_by_twos(bytes.skip(40))) % 65535 == 0
        }),
{
    let bytes = datagram_bytes(datagram);
    let udp = udp_bytes(datagram, wire_checksum(datagram));
    assert(bytes.take(4) =~= seq![0x60u8, 0, 0, 0]);
    assert(bytes.subrange(8, 24) =~= datagram.source);
    assert(bytes.subrange(24, 40) =~= datagram.destination);
    assert(bytes.skip(48) =~= datagram.payload);
    assert(bytes.skip(40) =~= udp);
    filled_in_checksum_checks(datagram);
    checksum_makes_the_sum_a_multiple_of_all_ones(datagram.source, datagram.destination, udp);
}

/// What bytes read as in a datagram: nothing under an IPv6 header, nothing but
/// version 6 and UDP, no length but that of what follows the header, no UDP
/// length but the same, no sum but a multiple of all ones; else what stands
/// in its places.
pub proof fn datagram_reads_by_its_bytes(bytes: Seq<u8>)
    ensures
        if bytes.len() < 40 {
            read_datagram(bytes) == Err::<DatagramModel, Error>(Error::DatagramCutOff)
        } else if !(0x60 <= bytes[0] <= 0x6f) || bytes[6] != 17 {
            read_datagram(bytes) == Err::<DatagramModel, Error>(Error::NotUdp)
        } else if bytes.len() != 40 + bytes[4] * 256 + bytes[5] || bytes.len() < 48 {
            read_datagram(bytes) == Err::<DatagramModel, Error>(Error::Length)
        } else if bytes[44] != bytes[4] || bytes[45] != bytes[5] {
            read_datagram(bytes) == Err::<DatagramModel, Error>(Error::UdpLength)
        } else if (sum_by_twos(bytes.subrange(8, 24)) + sum_by_twos(bytes.subrange(24, 40)) + (
        bytes.len() - 40) + 17 + sum_by_twos(bytes.skip(40))) % 65535 != 0 {
            read_datagram(bytes) == Err::<DatagramModel, Error>(Error::Checksum)
        } else {
            read_datagram(bytes) matches Ok(datagram) && {
                &&& datagram.source == bytes.subrange(8, 24)
                &&& datagram.destination == bytes.subrange(24, 40)
                &&& datagram.source_port == bytes[40] * 256 + bytes[41]
                &&& datagram.destination_port == bytes[42] * 256 + bytes[43]
                &&& datagram.payload == bytes.skip(48)
            }
        },
{
    let udp = bytes.skip(40);
    if bytes.len() >= 48 && bytes.len() <= 65575 {
        checksum_makes_the_sum_a_multiple_of_all_ones(
            bytes.subrange(8, 24),
            bytes.subrange(24, 40),
            udp,
        );
        assert(udp.skip(8) =~= bytes.skip(48));
        let others = sum_by_twos(bytes.subrange(8, 24)) + sum_by_twos(bytes.subrange(24, 40))
            + udp.len() + 17 + sum_by_twos(udp);
        let check = udp_checksum(
            bytes.subrange(8, 24),
            bytes.subrange(24, 40),
            udp,
        );
        assert(0 <= check < 65535);
        assert((others + check) % 65535 == 0);
        assert(others % 65535 == 0 <==> check == 0);
    }
}

/// Every payload a datagram is cut into says the size of the whole datagram
/// and its tag, carries the next hundred and four bytes or what is left, and
/// says in eights where they belong. One that fits a frame is not cut.
pub proof fn datagram_is_cut_in_order(datagram: Seq<u8>, tag: u16, index: int)
    requires
        datagram.len() <= 2047,
    ensures
        datagram.len() < 116 ==> fragmented(datagram, tag) == seq![LowpanModel::Ipv6(datagram)],
        datagram.len() >= 116 ==> {
            let cut = fragmented(datagram, tag);
            let end = if index == cut.len() - 1 {
                datagram.len() as int
            } else {
                104 * index + 104
            };
            &&& 104 * (cut.len() - 1) < datagram.len() <= 104 * cut.len()
            &&& 0 <= index < cut.len() ==> match cut[index] {
                LowpanModel::Ipv6(_) => false,
                LowpanModel::Frag1 { size, tag: own, bytes } => {
                    &&& index == 0
                    &&& size == datagram.len()
                    &&& own == tag
                    &&& bytes == datagram.subrange(0, 104)
                },
                LowpanModel::FragN { size, tag: own, offset, bytes } => {
                    &&& index > 0
                    &&& size == datagram.len()
                    &&& own == tag
                    &&& offset * 8 == 104 * index
                    &&& bytes == datagram.subrange(104 * index, end)
                },
            }
        },
{
    lemma_places(index - 1, datagram.len());
    if datagram.len() >= 116 {
        assert(datagram.take(104) =~= datagram.subrange(0, 104));
    }
}

/// The mesh-local address of a node, octet by octet.
pub proof fn mesh_local_address_is_laid_out(rloc16: u16)
    ensures
        mesh_local(rloc16).len() == 16,
        mesh_local(rloc16).take(14) == seq![0xfdu8, 0, 0, 0, 0, 0, 0, 0, 0, 0, 0, 0xff, 0xfe, 0],
        mesh_local(rloc16)[14] * 256 + mesh_local(rloc16)[15] == rloc16,
{
    assert(mesh_local(rloc16).take(14) =~= seq![
        0xfdu8,
        0,
        0,
        0,
        0,
        0,
        0,
        0,
        0,
        0,
        0,
        0xff,
        0xfe,
        0,
    ]);
}

/// The segments of an address are its octets two by two.
pub proof fn segments_are_octets_by_twos(octets: Seq<u8>, i: int)
    requires
        0 <= i < 8,
    ensures
        segments(octets).len() == 8,
        segments(octets)[i] == octets[2 * i] * 256 + octets[2 * i + 1],
{
}

} // verus!
