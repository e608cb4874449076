//! The IEEE 802.15.4 data frame as a Thread radio carries it: frame
//! control, sequence, PAN and two short addresses, the payload and a CRC-16.
//! Inside it are the 6LoWPAN headers: an uncompressed IPv6 dispatch where the
//! datagram fits one frame, else a FRAG1 header on the first fragment and a
//! FRAGN header, with an offset in eight-byte units, on every other.
use vstd::prelude::*;

use crate::bytes::{big, high, join, joined, little, low, part, push_big, push_bytes, push_little};
use crate::crc::{check_value, crc};
use crate::error::Error;

verus! {

/// The most a PHY packet holds.
pub const MAX_PHY: usize = 127;

/// A data frame with short addresses: two of frame control, a sequence, the
/// PAN, two addresses, and the two-byte check sequence at the end.
pub const MAC_OVERHEAD: usize = 9 + 2;

/// What one frame's payload holds.
pub const MAX_PAYLOAD: usize = MAX_PHY - MAC_OVERHEAD;

/// The largest datagram a fragmented transmission carries: the size field
/// is eleven bits.
pub const MAX_DATAGRAM: usize = 2047;

/// The PAN every frame is sent on.
pub const PAN: u16 = 0xface;

/// Frame control: data frame, PAN identifier compression, short addresses.
pub const DATA_FRAME_LOW: u8 = 0x41;

/// The second byte of frame control.
pub const DATA_FRAME_HIGH: u8 = 0x88;

/// The dispatch of an uncompressed IPv6 datagram.
pub const DISPATCH_IPV6: u8 = 0x41;

/// The dispatch bits of a first fragment.
pub const DISPATCH_FRAG1: u8 = 0xc0;

/// The dispatch bits of a later fragment.
pub const DISPATCH_FRAGN: u8 = 0xe0;

/// What a MAC frame says.
pub struct FrameModel {
    pub sequence: u8,
    pub pan: u16,
    pub destination: u16,
    pub source: u16,
    pub payload: Seq<u8>,
}

/// One MAC frame between two short addresses.
#[derive(Clone, Debug, PartialEq, Eq)]
pub struct Frame {
    pub sequence: u8,
    pub pan: u16,
    pub destination: u16,
    pub source: u16,
    pub payload: Vec<u8>,
}

impl View for Frame {
    type V = FrameModel;

    open spec fn view(&self) -> FrameModel {
        FrameModel {
            sequence: self.sequence,
            pan: self.pan,
            destination: self.destination,
            source: self.source,
            payload: self.payload@,
        }
    }
}

/// The nine bytes before a frame's payload.
pub open spec fn mac_header(frame: FrameModel) -> Seq<u8> {
    seq![
        DATA_FRAME_LOW,
        DATA_FRAME_HIGH,
        frame.sequence,
        low(frame.pan),
        high(frame.pan),
        low(frame.destination),
        high(frame.destination),
        low(frame.source),
        high(frame.source),
    ]
}

/// The frame as the radio carries it: header, payload, and the check
/// sequence of both, low byte first.
pub open spec fn frame_bytes(frame: FrameModel) -> Seq<u8> {
    let body = mac_header(frame) + frame.payload;
    body + little(crc(body))
}

/// What `bytes` read as: exactly one frame, or the first thing that is wrong
/// with them.
pub open spec fn read_frame(bytes: Seq<u8>) -> Result<FrameModel, Error> {
    let body = bytes.take(bytes.len() - 2);
    if bytes.len() > MAX_PHY {
        Err(Error::Phy)
    } else if bytes.len() < MAC_OVERHEAD {
        Err(Error::FrameCutOff)
    } else if crc(body) != joined(bytes[bytes.len() - 1], bytes[bytes.len() - 2]) {
        Err(Error::CheckSequence)
    } else if body[0] != DATA_FRAME_LOW || body[1] != DATA_FRAME_HIGH {
        Err(Error::NotDataFrame)
    } else {
        Ok(
            FrameModel {
                sequence: body[2],
                pan: joined(body[4], body[3]),
                destination: joined(body[6], body[5]),
                source: joined(body[8], body[7]),
                payload: body.skip(9),
            },
        )
    }
}

impl Frame {
    /// A frame, refusing more payload than the PHY holds.
    pub fn new(sequence: u8, destination: u16, source: u16, payload: &[u8]) -> (frame: Result<
        Self,
        Error,
    >)
        ensures
            payload@.len() > MAX_PAYLOAD ==> frame == Err::<Self, Error>(Error::FramePayload),
            payload@.len() <= MAX_PAYLOAD ==> (frame matches Ok(f) && f@ == (FrameModel {
                sequence,
                pan: PAN,
                destination,
                source,
                payload: payload@,
            })),
    {
        if payload.len() > MAX_PAYLOAD {
            return Err(Error::FramePayload);
        }
        let own = part(payload, 0, payload.len());
        assert(own@ =~= payload@);
        Ok(Frame { sequence, pan: PAN, destination, source, payload: own })
    }

    /// The frame as the radio carries it, check sequence last.
    #[must_use]
    pub fn encode(&self) -> (out: Vec<u8>)
        ensures
            out@ == frame_bytes(self@),
    {
        let mut out: Vec<u8> = Vec::new();
        out.push(DATA_FRAME_LOW);
        out.push(DATA_FRAME_HIGH);
        out.push(self.sequence);
        push_little(&mut out, self.pan);
        push_little(&mut out, self.destination);
        push_little(&mut out, self.source);
        assert(out@ =~= mac_header(self@));
        push_bytes(&mut out, self.payload.as_slice());
        let check = check_value(out.as_slice());
        push_little(&mut out, check);
        out
    }

    /// Exactly one frame, its check sequence checked.
    pub fn decode(bytes: &[u8]) -> (frame: Result<Self, Error>)
        ensures
            match read_frame(bytes@) {
                Ok(model) => frame matches Ok(f) && f@ == model,
                Err(error) => frame == Err::<Self, Error>(error),
            },
    {
        if bytes.len() > MAX_PHY {
            return Err(Error::Phy);
        }
        if bytes.len() < MAC_OVERHEAD {
            return Err(Error::FrameCutOff);
        }
        let end: usize = bytes.len() - 2;
        let (body, check) = bytes.split_at(end);
        assert(body@ =~= bytes@.take(bytes@.len() - 2));
        if check_value(body) != join(check[1], check[0]) {
            return Err(Error::CheckSequence);
        }
        if body[0] != DATA_FRAME_LOW || body[1] != DATA_FRAME_HIGH {
            return Err(Error::NotDataFrame);
        }
        let payload = part(body, 9, end);
        assert(payload@ =~= body@.skip(9));
        Ok(
            Frame {
                sequence: body[2],
                pan: join(body[4], body[3]),
                destination: join(body[6], body[5]),
                source: join(body[8], body[7]),
                payload,
            },
        )
    }
}

/// What a frame's payload says in 6LoWPAN terms.
pub enum LowpanModel {
    /// A whole IPv6 datagram, uncompressed.
    Ipv6(Seq<u8>),
    /// The first fragment of a datagram of `size` bytes, under `tag`.
    Frag1 { size: u16, tag: u16, bytes: Seq<u8> },
    /// A later fragment, `offset` eight-byte units into the datagram.
    FragN { size: u16, tag: u16, offset: u8, bytes: Seq<u8> },
}

/// What a frame's payload says in 6LoWPAN terms.
#[derive(Clone, Debug, PartialEq, Eq)]
pub enum Lowpan {
    /// A whole IPv6 datagram, uncompressed.
    Ipv6(Vec<u8>),
    /// The first fragment of a datagram of `size` bytes, under `tag`.
    Frag1 { size: u16, tag: u16, bytes: Vec<u8> },
    /// A later fragment, `offset` eight-byte units into the datagram.
    FragN { size: u16, tag: u16, offset: u8, bytes: Vec<u8> },
}

impl View for Lowpan {
    type V = LowpanModel;

    open spec fn view(&self) -> LowpanModel {
        match *self {
            Lowpan::Ipv6(bytes) => LowpanModel::Ipv6(bytes@),
            Lowpan::Frag1 { size, tag, bytes } => LowpanModel::Frag1 { size, tag, bytes: bytes@ },
            Lowpan::FragN { size, tag, offset, bytes } => LowpanModel::FragN {
                size,
                tag,
                offset,
                bytes: bytes@,
            },
        }
    }
}

/// The two bytes that open a fragment header: the dispatch in the upper five
/// bits, the lower eleven bits of the size in the rest.
pub open spec fn fragment_head(dispatch: u8, size: u16) -> u16 {
    (dispatch * 256 + size % 2048) as u16
}

/// The headers and bytes as the frame's payload.
pub open spec fn lowpan_bytes(lowpan: LowpanModel) -> Seq<u8> {
    match lowpan {
        LowpanModel::Ipv6(bytes) => seq![DISPATCH_IPV6] + bytes,
        LowpanModel::Frag1 { size, tag, bytes } => big(fragment_head(DISPATCH_FRAG1, size)) + big(
            tag,
        ) + seq![DISPATCH_IPV6] + bytes,
        LowpanModel::FragN { size, tag, offset, bytes } => big(fragment_head(DISPATCH_FRAGN, size))
            + big(tag) + seq![offset] + bytes,
    }
}

/// The dispatch bits of a fragment header's first byte: its upper five.
pub open spec fn dispatch_bits(first: u8) -> u8 {
    (first - first % 8) as u8
}

/// What `payload` reads as, or the first thing that is wrong with it.
pub open spec fn read_lowpan(payload: Seq<u8>) -> Result<LowpanModel, Error> {
    let size = joined((payload[0] % 8) as u8, payload[1]);
    let tag = joined(payload[2], payload[3]);
    if payload.len() == 0 {
        Err(Error::LowpanCutOff)
    } else if payload[0] == DISPATCH_IPV6 {
        Ok(LowpanModel::Ipv6(payload.skip(1)))
    } else if payload.len() < 4 {
        Err(Error::LowpanCutOff)
    } else if dispatch_bits(payload[0]) == DISPATCH_FRAG1 {
        if payload.len() == 4 || payload[4] != DISPATCH_IPV6 {
            Err(Error::FirstWithoutIpv6)
        } else {
            Ok(LowpanModel::Frag1 { size, tag, bytes: payload.skip(5) })
        }
    } else if dispatch_bits(payload[0]) == DISPATCH_FRAGN {
        if payload.len() == 4 {
            Err(Error::LowpanCutOff)
        } else {
            Ok(LowpanModel::FragN { size, tag, offset: payload[4], bytes: payload.skip(5) })
        }
    } else {
        Err(Error::Dispatch(dispatch_bits(payload[0])))
    }
}

impl Lowpan {
    /// The headers and bytes as the frame's payload.
    #[must_use]
    pub fn encode(&self) -> (payload: Vec<u8>)
        ensures
            payload@ == lowpan_bytes(self@),
    {
        let mut payload: Vec<u8> = Vec::new();
        match self {
            Lowpan::Ipv6(bytes) => {
                payload.push(DISPATCH_IPV6);
                assert(payload@ =~= seq![DISPATCH_IPV6]);
                push_bytes(&mut payload, bytes.as_slice());
            },
            Lowpan::Frag1 { size, tag, bytes } => {
                push_big(&mut payload, DISPATCH_FRAG1 as u16 * 256 + *size % 2048);
                push_big(&mut payload, *tag);
                payload.push(DISPATCH_IPV6);
                push_bytes(&mut payload, bytes.as_slice());
                assert(payload@ =~= lowpan_bytes(self@));
            },
            Lowpan::FragN { size, tag, offset, bytes } => {
                push_big(&mut payload, DISPATCH_FRAGN as u16 * 256 + *size % 2048);
                push_big(&mut payload, *tag);
                payload.push(*offset);
                push_bytes(&mut payload, bytes.as_slice());
                assert(payload@ =~= lowpan_bytes(self@));
            },
        }
        payload
    }

    /// The headers at the start of a frame's payload.
    pub fn decode(payload: &[u8]) -> (lowpan: Result<Self, Error>)
        ensures
            match read_lowpan(payload@) {
                Ok(model) => lowpan matches Ok(l) && l@ == model,
                Err(error) => lowpan == Err::<Self, Error>(error),
            },
    {
        if payload.len() == 0 {
            return Err(Error::LowpanCutOff);
        }
        let first = payload[0];
        if first == DISPATCH_IPV6 {
            let bytes = part(payload, 1, payload.len());
            assert(bytes@ =~= payload@.skip(1));
            return Ok(Lowpan::Ipv6(bytes));
        }
        if payload.len() < 4 {
            return Err(Error::LowpanCutOff);
        }
        let size = join(first % 8, payload[1]);
        let tag = join(payload[2], payload[3]);
        let dispatch = first - first % 8;
        if dispatch == DISPATCH_FRAG1 {
            if payload.len() == 4 || payload[4] != DISPATCH_IPV6 {
                return Err(Error::FirstWithoutIpv6);
            }
            let bytes = part(payload, 5, payload.len());
            assert(bytes@ =~= payload@.skip(5));
            Ok(Lowpan::Frag1 { size, tag, bytes })
        } else if dispatch == DISPATCH_FRAGN {
            if payload.len() == 4 {
                return Err(Error::LowpanCutOff);
            }
            let bytes = part(payload, 5, payload.len());
            assert(bytes@ =~= payload@.skip(5));
            Ok(Lowpan::FragN { size, tag, offset: payload[4], bytes })
        } else {
            Err(Error::Dispatch(dispatch))
        }
    }
}

} // verus!
