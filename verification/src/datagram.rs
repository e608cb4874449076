//! The IPv6 datagram a Thread node sends: a forty-byte header, a UDP header
//! with its checksum over the pseudo-header, and the payload.
use vstd::prelude::*;

use crate::address::{mesh_local, Address};
use crate::bytes::{big, join, joined, part, push_big, push_bytes};
pub use crate::checksum::checksum;
use crate::checksum::{udp_checksum, NEXT_HEADER_UDP};
use crate::error::Error;
pub use crate::fragment::{fragments, Reassembly, FRAG1_BYTES, FRAGN_BYTES};
use crate::frame::{MAX_DATAGRAM, MAX_PAYLOAD};

verus! {

/// The IPv6 header.
pub const IPV6_HEADER: usize = 40;

/// The UDP header.
pub const UDP_HEADER: usize = 8;

/// What a whole datagram carries: the size field is eleven bits and the two
/// headers take forty-eight.
pub const MAX_UDP_PAYLOAD: usize = MAX_DATAGRAM - IPV6_HEADER - UDP_HEADER;

/// The IPv6 dispatch byte, then the datagram: what fits one frame whole.
pub const MAX_UNFRAGMENTED: usize = MAX_PAYLOAD - 1 - IPV6_HEADER - UDP_HEADER;

/// The hop limit every datagram is sent with.
pub const HOP_LIMIT: u8 = 64;

/// What a UDP datagram says.
pub struct DatagramModel {
    pub source: Seq<u8>,
    pub destination: Seq<u8>,
    pub source_port: u16,
    pub destination_port: u16,
    pub payload: Seq<u8>,
}

impl DatagramModel {
    /// Whether both addresses are IPv6 addresses.
    pub open spec fn addressed(self) -> bool {
        self.source.len() == 16 && self.destination.len() == 16
    }
}

/// One UDP datagram between two addresses.
#[derive(Clone, Debug, PartialEq, Eq)]
pub struct Datagram {
    pub source: Address,
    pub destination: Address,
    pub source_port: u16,
    pub destination_port: u16,
    pub payload: Vec<u8>,
}

impl View for Datagram {
    type V = DatagramModel;

    open spec fn view(&self) -> DatagramModel {
        DatagramModel {
            source: self.source@,
            destination: self.destination@,
            source_port: self.source_port,
            destination_port: self.destination_port,
            payload: self.payload@,
        }
    }
}

/// The length both headers hold: the UDP header and the payload.
pub open spec fn udp_length(datagram: DatagramModel) -> u16 {
    (UDP_HEADER + datagram.payload.len()) as u16
}

/// The IPv6 header of a datagram.
pub open spec fn ipv6_header(datagram: DatagramModel) -> Seq<u8> {
    seq![0x60u8, 0, 0, 0] + big(udp_length(datagram)) + seq![NEXT_HEADER_UDP, HOP_LIMIT]
        + datagram.source + datagram.destination
}

/// The UDP header of a datagram under `check`, and its payload.
pub open spec fn udp_bytes(datagram: DatagramModel, check: u16) -> Seq<u8> {
    big(datagram.source_port) + big(datagram.destination_port) + big(udp_length(datagram)) + big(
        check,
    ) + datagram.payload
}

/// The checksum a datagram travels under: that of the datagram with none
/// filled in. A computed zero travels as all ones: zero on the wire means
/// none.
pub open spec fn wire_checksum(datagram: DatagramModel) -> u16 {
    let computed = udp_checksum(datagram.source, datagram.destination, udp_bytes(datagram, 0));
    if computed == 0 {
        0xffff
    } else {
        computed
    }
}

/// The datagram as IPv6 carries it.
pub open spec fn datagram_bytes(datagram: DatagramModel) -> Seq<u8> {
    ipv6_header(datagram) + udp_bytes(datagram, wire_checksum(datagram))
}

/// What `bytes` read as: one UDP datagram, or the first thing that is wrong
/// with them.
pub open spec fn read_datagram(bytes: Seq<u8>) -> Result<DatagramModel, Error> {
    let udp = bytes.skip(40);
    let length = joined(bytes[4], bytes[5]);
    let source = bytes.subrange(8, 24);
    let destination = bytes.subrange(24, 40);
    if bytes.len() < IPV6_HEADER {
        Err(Error::DatagramCutOff)
    } else if bytes[0] / 16 != 6 || bytes[6] != NEXT_HEADER_UDP {
        Err(Error::NotUdp)
    } else if udp.len() != length || length < UDP_HEADER {
        Err(Error::Length)
    } else if joined(udp[4], udp[5]) != length {
        Err(Error::UdpLength)
    } else if udp_checksum(source, destination, udp) != 0 {
        Err(Error::Checksum)
    } else {
        Ok(
            DatagramModel {
                source,
                destination,
                source_port: joined(udp[0], udp[1]),
                destination_port: joined(udp[2], udp[3]),
                payload: udp.skip(8),
            },
        )
    }
}

/// The address whose octets are the sixteen of `bytes` from `from`.
fn address_at(bytes: &[u8], from: usize) -> (address: Address)
    requires
        from + 16 <= bytes.len(),
    ensures
        address@ == bytes@.subrange(from as int, from + 16),
{
    let mut octets: [u8; 16] = [0; 16];
    let mut at: usize = 0;
    while at < 16
        invariant
            at <= 16,
            from + 16 <= bytes.len(),
            forall|i: int| 0 <= i < at ==> octets@[i] == bytes@[from + i],
        decreases 16 - at,
    {
        octets[at] = bytes[from + at];
        at += 1;
    }
    let address = Address { octets };
    assert(address@ =~= bytes@.subrange(from as int, from + 16));
    address
}

impl Datagram {
    /// The mesh-local address Thread derives from a short address: the
    /// interface identifier `0000:00ff:fe00:<rloc16>` on the mesh prefix.
    #[must_use]
    pub fn address_of(rloc16: u16) -> (address: Address)
        ensures
            address@ == mesh_local(rloc16),
    {
        let high: u8 = (rloc16 / 256) as u8;
        let low: u8 = (rloc16 % 256) as u8;
        let address = Address {
            octets: [0xfd, 0, 0, 0, 0, 0, 0, 0, 0, 0, 0, 0xff, 0xfe, 0, high, low],
        };
        assert(address@ =~= mesh_local(rloc16));
        address
    }

    /// The datagram as IPv6 carries it, checksum computed.
    pub fn encode(&self) -> (bytes: Result<Vec<u8>, Error>)
        ensures
            self.payload@.len() > MAX_UDP_PAYLOAD ==> bytes == Err::<Vec<u8>, Error>(
                Error::DatagramPayload(self.payload.len()),
            ),
            self.payload@.len() <= MAX_UDP_PAYLOAD ==> (bytes matches Ok(b) && b@
                == datagram_bytes(self@)),
    {
        if self.payload.len() > MAX_UDP_PAYLOAD {
            return Err(Error::DatagramPayload(self.payload.len()));
        }
        let length: u16 = (UDP_HEADER + self.payload.len()) as u16;
        let mut udp: Vec<u8> = Vec::new();
        push_big(&mut udp, self.source_port);
        push_big(&mut udp, self.destination_port);
        push_big(&mut udp, length);
        push_big(&mut udp, 0);
        push_bytes(&mut udp, self.payload.as_slice());
        assert(udp@ =~= udp_bytes(self@, 0));
        let computed = checksum(&self.source, &self.destination, udp.as_slice());
        let check: u16 = if computed == 0 {
            0xffff
        } else {
            computed
        };
        udp[6] = (check / 256) as u8;
        udp[7] = (check % 256) as u8;
        assert(udp@ =~= udp_bytes(self@, wire_checksum(self@)));
        let mut out: Vec<u8> = Vec::new();
        push_bytes(&mut out, &[0x60, 0, 0, 0]);
        push_big(&mut out, length);
        out.push(NEXT_HEADER_UDP);
        out.push(HOP_LIMIT);
        push_bytes(&mut out, self.source.octets.as_slice());
        push_bytes(&mut out, self.destination.octets.as_slice());
        assert(out@ =~= ipv6_header(self@));
        push_bytes(&mut out, udp.as_slice());
        Ok(out)
    }

    /// The datagram `bytes` carry, checksum checked.
    pub fn decode(bytes: &[u8]) -> (datagram: Result<Self, Error>)
        ensures
            match read_datagram(bytes@) {
                Ok(model) => datagram matches Ok(d) && d@ == model,
                Err(error) => datagram == Err::<Self, Error>(error),
            },
    {
        if bytes.len() < IPV6_HEADER {
            return Err(Error::DatagramCutOff);
        }
        let (ip, udp) = bytes.split_at(IPV6_HEADER);
        assert(udp@ =~= bytes@.skip(40));
        if ip[0] / 16 != 6 || ip[6] != NEXT_HEADER_UDP {
            return Err(Error::NotUdp);
        }
        let length = join(ip[4], ip[5]);
        if udp.len() != length as usize || (length as usize) < UDP_HEADER {
            return Err(Error::Length);
        }
        if join(udp[4], udp[5]) != length {
            return Err(Error::UdpLength);
        }
        let source = address_at(ip, 8);
        let destination = address_at(ip, 24);
        assert(source@ =~= bytes@.subrange(8, 24));
        assert(destination@ =~= bytes@.subrange(24, 40));
        if checksum(&source, &destination, udp) != 0 {
            return Err(Error::Checksum);
        }
        let payload = part(udp, UDP_HEADER, udp.len());
        assert(payload@ =~= udp@.skip(8));
        Ok(
            Datagram {
                source,
                destination,
                source_port: join(udp[0], udp[1]),
                destination_port: join(udp[2], udp[3]),
                payload,
            },
        )
    }
}

} // verus!
