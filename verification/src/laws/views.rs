//! What a value says is what its fields hold, each for itself; and what the
//! radio in-process may do.
use vstd::prelude::*;

use crate::address::Address;
use crate::datagram::Datagram;
use crate::error::Error;
use crate::frame::{Frame, Lowpan, LowpanModel};
use crate::radio::{looped, LoopbackRadio, Radio, Timeout};
use crate::reception::Arrived;
use crate::transport::Endpoint;

verus! {

/// A frame, an address, a datagram, an endpoint and what arrived say what
/// their fields hold.
pub proof fn values_say_what_their_fields_hold(
    frame: Frame,
    address: Address,
    datagram: Datagram,
    endpoint: Endpoint,
    arrived: Arrived,
)
    ensures
        frame@.sequence == frame.sequence,
        frame@.pan == frame.pan,
        frame@.destination == frame.destination,
        frame@.source == frame.source,
        frame@.payload == frame.payload@,
        address@ == address.octets@,
        address@.len() == 16,
        datagram@.source == datagram.source.octets@,
        datagram@.destination == datagram.destination.octets@,
        datagram@.source_port == datagram.source_port,
        datagram@.destination_port == datagram.destination_port,
        datagram@.payload == datagram.payload@,
        datagram@.addressed(),
        endpoint@.address == endpoint.address.octets@,
        endpoint@.port == endpoint.port,
        arrived@.origin_uri == arrived.origin_uri@,
        arrived@.bytes == arrived.bytes@,
{
}

/// A 6LoWPAN payload says what its fields hold.
pub proof fn payload_says_what_its_fields_hold(lowpan: Lowpan)
    ensures
        match lowpan {
            Lowpan::Ipv6(bytes) => lowpan@ == LowpanModel::Ipv6(bytes@),
            Lowpan::Frag1 { size, tag, bytes } => lowpan@ == (LowpanModel::Frag1 {
                size,
                tag,
                bytes: bytes@,
            }),
            Lowpan::FragN { size, tag, offset, bytes } => lowpan@ == (LowpanModel::FragN {
                size,
                tag,
                offset,
                bytes: bytes@,
            }),
        },
{
}

/// The radio in-process goes by one name, hands nothing out and stays as it
/// is when it is asked, and does with a frame what its node does with it.
pub proof fn loopback_radio_only_takes(
    before: LoopbackRadio,
    name: Seq<char>,
    timeout: Timeout,
    frame: Seq<u8>,
    after: LoopbackRadio,
    handed: Result<Option<Vec<u8>>, Error>,
    outcome: Result<(), Error>,
)
    ensures
        before.called(name) <==> name == "loopback"@,
        LoopbackRadio::received(before, timeout, after, handed) ==> after == before && handed
            == Ok::<Option<Vec<u8>>, Error>(None),
        LoopbackRadio::transmitted(before, frame, after, outcome) ==> {
            &&& after@ == looped(before@, frame).0
            &&& outcome == looped(before@, frame).1
        },
{
}

} // verus!
