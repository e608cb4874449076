//! Frames and 6LoWPAN headers: what is written reads back, what reads is
//! what would be written, and a changed byte does not pass.
use vstd::prelude::*;

use crate::bytes::{lemma_halves_of_joined, lemma_joined_of_halves};
use crate::crc::{after_bit, after_bits, crc};
use crate::error::Error;
use crate::frame::{
    frame_bytes, lowpan_bytes, mac_header, read_frame, read_lowpan, FrameModel, LowpanModel,
    MAX_DATAGRAM, MAX_PAYLOAD,
};

verus! {

/// A frame whose payload fits reads back as it was written.
pub proof fn frame_reads_back(frame: FrameModel)
    requires
        frame.payload.len() <= MAX_PAYLOAD,
    ensures
        read_frame(frame_bytes(frame)) == Ok::<FrameModel, Error>(frame),
{
    let body = mac_header(frame) + frame.payload;
    let bytes = frame_bytes(frame);
    assert(bytes.take(bytes.len() - 2) =~= body);
    assert(body.skip(9) =~= frame.payload);
    lemma_joined_of_halves(crc(body));
    lemma_joined_of_halves(frame.pan);
    lemma_joined_of_halves(frame.destination);
    lemma_joined_of_halves(frame.source);
}

/// Bytes that read as a frame are the bytes that frame is written in: there
/// is no other way to write it.
pub proof fn frame_reads_from_its_own_bytes(bytes: Seq<u8>)
    requires
        read_frame(bytes) is Ok,
    ensures
        frame_bytes(read_frame(bytes)->Ok_0) == bytes,
        read_frame(bytes)->Ok_0.payload.len() <= MAX_PAYLOAD,
{
    let frame = read_frame(bytes)->Ok_0;
    let body = bytes.take(bytes.len() - 2);
    lemma_halves_of_joined(bytes[bytes.len() - 1], bytes[bytes.len() - 2]);
    lemma_halves_of_joined(body[4], body[3]);
    lemma_halves_of_joined(body[6], body[5]);
    lemma_halves_of_joined(body[8], body[7]);
    assert(mac_header(frame) + frame.payload =~= body);
    assert(frame_bytes(frame) =~= bytes);
}

/// One bit more keeps different registers different.
proof fn lemma_bit_keeps_apart(a: u16, b: u16)
    requires
        a != b,
    ensures
        after_bit(a) != after_bit(b),
{
    assert(a != b ==> (if a & 1 == 1 {
        (a >> 1) ^ 0x8408
    } else {
        a >> 1
    }) != (if b & 1 == 1 {
        (b >> 1) ^ 0x8408
    } else {
        b >> 1
    })) by (bit_vector);
}

/// More bits keep different registers different.
proof fn lemma_bits_keep_apart(a: u16, b: u16, bits: nat)
    requires
        a != b,
    ensures
        after_bits(a, bits) != after_bits(b, bits),
    decreases bits,
{
    if bits > 0 {
        lemma_bits_keep_apart(a, b, (bits - 1) as nat);
        lemma_bit_keeps_apart(after_bits(a, (bits - 1) as nat), after_bits(b, (bits - 1) as nat));
    }
}

/// Two byte strings of one length that differ in one place have different
/// check values.
pub proof fn one_byte_changes_the_check_value(bytes: Seq<u8>, at: int, byte: u8)
    requires
        0 <= at < bytes.len(),
        byte != bytes[at],
    ensures
        crc(bytes.update(at, byte)) != crc(bytes),
    decreases bytes.len(),
{
    let changed = bytes.update(at, byte);
    let register = crc(bytes.drop_last());
    let last = bytes.last();
    if at == bytes.len() - 1 {
        assert(changed.drop_last() =~= bytes.drop_last());
        assert(last != byte ==> register ^ last as u16 != register ^ byte as u16) by (bit_vector);
        lemma_bits_keep_apart(register ^ last as u16, register ^ byte as u16, 8);
    } else {
        one_byte_changes_the_check_value(bytes.drop_last(), at, byte);
        assert(changed.drop_last() =~= bytes.drop_last().update(at, byte));
        let other = crc(changed.drop_last());
        assert(other != register ==> other ^ last as u16 != register ^ last as u16)
            by (bit_vector);
        lemma_bits_keep_apart(other ^ last as u16, register ^ last as u16, 8);
    }
}

/// A frame that read, one byte of it changed, does not read: its check
/// sequence does not check.
pub proof fn changed_frame_is_refused(bytes: Seq<u8>, at: int, byte: u8)
    requires
        read_frame(bytes) is Ok,
        0 <= at < bytes.len(),
        byte != bytes[at],
    ensures
        read_frame(bytes.update(at, byte)) == Err::<FrameModel, Error>(Error::CheckSequence),
{
    let changed = bytes.update(at, byte);
    let end = bytes.len() - 2;
    lemma_halves_of_joined(bytes[end + 1], bytes[end]);
    lemma_halves_of_joined(changed[end + 1], changed[end]);
    if at < end {
        one_byte_changes_the_check_value(bytes.take(end), at, byte);
        assert(changed.take(end) =~= bytes.take(end).update(at, byte));
    } else {
        assert(changed.take(end) =~= bytes.take(end));
    }
}

/// Whether a header says no more of the size than its eleven bits hold.
pub open spec fn sized(lowpan: LowpanModel) -> bool {
    match lowpan {
        LowpanModel::Ipv6(_) => true,
        LowpanModel::Frag1 { size, .. } => size <= MAX_DATAGRAM,
        LowpanModel::FragN { size, .. } => size <= MAX_DATAGRAM,
    }
}

/// The three 6LoWPAN headers read back as written.
pub proof fn lowpan_reads_back(lowpan: LowpanModel)
    requires
        sized(lowpan),
    ensures
        read_lowpan(lowpan_bytes(lowpan)) == Ok::<LowpanModel, Error>(lowpan),
{
    let payload = lowpan_bytes(lowpan);
    match lowpan {
        LowpanModel::Ipv6(bytes) => {
            assert(payload.skip(1) =~= bytes);
        },
        LowpanModel::Frag1 { size, tag, bytes } => {
            lemma_joined_of_halves(tag);
            assert(payload.skip(5) =~= bytes);
        },
        LowpanModel::FragN { size, tag, offset, bytes } => {
            lemma_joined_of_halves(tag);
            assert(payload.skip(5) =~= bytes);
        },
    }
}

/// A payload that reads is the payload its reading is written in.
pub proof fn lowpan_reads_from_its_own_bytes(payload: Seq<u8>)
    requires
        read_lowpan(payload) is Ok,
    ensures
        lowpan_bytes(read_lowpan(payload)->Ok_0) == payload,
        sized(read_lowpan(payload)->Ok_0),
{
    let lowpan = read_lowpan(payload)->Ok_0;
    if payload.len() >= 4 {
        lemma_halves_of_joined(payload[2], payload[3]);
    }
    assert(lowpan_bytes(lowpan) =~= payload);
}

} // verus!
