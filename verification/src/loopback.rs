//! Both ends on one in-process radio: a node sending to the leader, and the
//! leader taking.
use vstd::prelude::*;

use crate::address::mesh_local;
use crate::bytes::same;
use crate::datagram::{datagram_bytes, DatagramModel, MAX_UDP_PAYLOAD};
use crate::error::Error;
use crate::fragment::{all_taken, fragmented, nothing_under_way};
use crate::laws::transports::loopback_send_is_held;
use crate::radio::{LoopbackModel, LoopbackRadio, Timeout};
use crate::reception::{origin_text, Arrived, ArrivedModel};
use crate::sending::LEADER;
use crate::transport::{
    datagram_to, moved_on, EndpointModel, ThreadTransport, TransportModel, COAP_PORT,
};

verus! {

/// The short address of the node that sends.
pub const LOOPBACK_NODE: u16 = 0x1a2b;

/// `datagram` as a Stream off the loopback radio.
pub open spec fn off_loopback(datagram: DatagramModel) -> ArrivedModel {
    ArrivedModel {
        origin_uri: origin_text("loopback"@, datagram.source, datagram.source_port),
        bytes: datagram.payload,
    }
}

/// What the leader holds once `payload` was sent to it: that datagram after
/// those it held.
pub open spec fn held_with(
    node: TransportModel<LoopbackRadio>,
    payload: Seq<u8>,
) -> LoopbackModel {
    let sent = datagram_to(node, node.destination, payload);
    LoopbackModel {
        under_way: all_taken(
            node.radio@.under_way,
            fragmented(datagram_bytes(sent), node.tag),
        ),
        arrived: node.radio@.arrived.push(sent),
    }
}

impl ThreadTransport<LoopbackRadio> {
    /// Both ends on one in-process radio: a node at `0x1a2b` sending to the
    /// leader, and the leader taking, `timeout` on the fragments.
    #[must_use]
    pub fn loopback(timeout: Timeout) -> (transport: Self)
        ensures
            transport@ == (TransportModel {
                radio: transport@.radio,
                rloc16: LOOPBACK_NODE,
                port: COAP_PORT,
                destination: EndpointModel { address: mesh_local(LEADER), port: COAP_PORT },
                sequence: 0,
                tag: 0,
                timeout,
            }),
            transport@.radio@ == (LoopbackModel {
                under_way: nothing_under_way(),
                arrived: Seq::empty(),
            }),
    {
        ThreadTransport::new(LoopbackRadio::new(), LOOPBACK_NODE).timing_out_after(timeout)
    }

    /// The datagram the leader took whole and has held longest.
    pub fn take_one(&mut self) -> (arrived: Result<Arrived, Error>)
        ensures
            final(self)@ == (TransportModel { radio: final(self)@.radio, ..old(self)@ }),
            final(self)@.radio@.under_way == old(self)@.radio@.under_way,
            old(self)@.radio@.arrived.len() == 0 ==> {
                &&& arrived == Err::<Arrived, Error>(Error::NothingTogether)
                &&& final(self)@.radio@.arrived == old(self)@.radio@.arrived
            },
            old(self)@.radio@.arrived.len() > 0 ==> {
                &&& arrived matches Ok(a) && a@ == off_loopback(old(self)@.radio@.arrived[0])
                &&& final(self)@.radio@.arrived == old(self)@.radio@.arrived.skip(1)
            },
    {
        let taken = self.radio_mut().take();
        match taken {
            Some(datagram) => {
                let origin_uri = self.origin(&datagram.source, datagram.source_port);
                Ok(Arrived { origin_uri, bytes: datagram.payload })
            },
            None => Err(Error::NothingTogether),
        }
    }

    /// Sends `payload` to the leader, who then holds it.
    fn send_to_leader(&mut self, payload: &[u8]) -> (outcome: Result<(), Error>)
        ensures
            final(self)@ == moved_on(old(self)@, final(self)@.radio),
            payload@.len() > MAX_UDP_PAYLOAD ==> {
                &&& outcome == Err::<(), Error>(Error::DatagramPayload(payload.len()))
                &&& final(self)@.radio == old(self)@.radio
            },
            payload@.len() <= MAX_UDP_PAYLOAD ==> {
                &&& outcome == Ok::<(), Error>(())
                &&& final(self)@.radio@ == held_with(old(self)@, payload@)
            },
    {
        let to = self.destination();
        let outcome = self.send_datagram(to, payload);
        proof {
            if payload@.len() <= MAX_UDP_PAYLOAD {
                loopback_send_is_held(old(self)@, to@, payload@, self@, outcome);
            }
        }
        outcome
    }

    /// Sends `payload` to the leader and takes what the leader took. In order
    /// on one thread: the leader lives in the radio and reassembles as the
    /// node sends, so the send goes first and the take finds the datagram
    /// whole.
    pub fn round(&mut self, payload: &[u8]) -> (arrived: Result<Arrived, Error>)
        ensures
            final(self)@ == moved_on(old(self)@, final(self)@.radio),
            payload@.len() > MAX_UDP_PAYLOAD ==> {
                &&& arrived == Err::<Arrived, Error>(Error::DatagramPayload(payload.len()))
                &&& final(self)@.radio == old(self)@.radio
            },
            payload@.len() <= MAX_UDP_PAYLOAD ==> {
                let held = held_with(old(self)@, payload@);
                &&& final(self)@.radio@ == (LoopbackModel {
                    under_way: held.under_way,
                    arrived: held.arrived.skip(1),
                })
                &&& if held.arrived[0].payload == payload@ {
                    arrived matches Ok(a) && a@ == off_loopback(held.arrived[0])
                } else {
                    arrived == Err::<Arrived, Error>(Error::Differs)
                }
            },
    {
        match self.send_to_leader(payload) {
            Ok(_) => {},
            Err(error) => return Err(error),
        }
        let arrived = match self.take_one() {
            Ok(arrived) => arrived,
            Err(error) => return Err(error),
        };
        if !same(arrived.bytes.as_slice(), payload) {
            return Err(Error::Differs);
        }
        Ok(arrived)
    }
}

} // verus!
