//! One node on one radio: datagrams go out in as many frames as they take,
//! and come back together from the frames that arrive.
use vstd::prelude::*;

use crate::address::{mesh_local, short_address, Address};
use crate::bytes::part;
use crate::datagram::{Datagram, DatagramModel, MAX_UDP_PAYLOAD};
use crate::error::Error;
use crate::laws::transports::listening_goes_on;
use crate::radio::{all_transmitted, Radio, Timeout};
use crate::reception::{
    answered, heard, origin_of, origin_text, said_of, told, Heard, HeardModel, Reception,
    ReceptionModel,
};
use crate::sending::{byte_strings, datagram_frames, frames_of, transmit_from, LEADER};

verus! {

/// CoAP's port, which is what Thread applications speak.
pub const COAP_PORT: u16 = 5683;

/// Where a datagram goes.
pub struct EndpointModel {
    pub address: Seq<u8>,
    pub port: u16,
}

/// Where a datagram goes: an address, and a port there.
#[derive(Clone, Copy, Debug, PartialEq, Eq)]
pub struct Endpoint {
    pub address: Address,
    pub port: u16,
}

impl View for Endpoint {
    type V = EndpointModel;

    open spec fn view(&self) -> EndpointModel {
        EndpointModel { address: self.address@, port: self.port }
    }
}

/// What a node knows and holds.
pub struct TransportModel<R> {
    pub radio: R,
    pub rloc16: u16,
    pub port: u16,
    pub destination: EndpointModel,
    pub sequence: u8,
    pub tag: u16,
    pub timeout: Timeout,
}

/// What a target names: its path, and where the path reads as an address and
/// a port, those.
#[derive(Clone, Debug, PartialEq, Eq)]
pub struct Named {
    pub path: String,
    pub endpoint: Option<Endpoint>,
}

/// Where `named` sends to: the endpoint its path reads as, or where the path
/// reads as none, that path; where there is no path, the node's own
/// `destination`.
pub open spec fn addressee(destination: EndpointModel, named: Option<Named>) -> Result<
    EndpointModel,
    Seq<char>,
> {
    match named {
        Some(named) => if named.path@.len() == 0 {
            Ok(destination)
        } else {
            match named.endpoint {
                Some(endpoint) => Ok(endpoint@),
                None => Err(named.path@),
            }
        },
        None => Ok(destination),
    }
}

/// The datagram that carries `bytes` from a node to `to`.
pub open spec fn datagram_to<R>(
    node: TransportModel<R>,
    to: EndpointModel,
    bytes: Seq<u8>,
) -> DatagramModel {
    DatagramModel {
        source: mesh_local(node.rloc16),
        destination: to.address,
        source_port: node.port,
        destination_port: to.port,
        payload: bytes,
    }
}

/// A node with its counters moved on by one, on the radio `radio`.
pub open spec fn moved_on<R>(node: TransportModel<R>, radio: R) -> TransportModel<R> {
    TransportModel {
        radio,
        sequence: ((node.sequence + 1) % 256) as u8,
        tag: ((node.tag + 1) % 65536) as u16,
        ..node
    }
}

/// Whether `after` and `outcome` are what comes of sending `bytes` to `to`
/// from a node that was `before`: the counters move on; a payload over what
/// one datagram carries is refused before anything is sent; any other goes
/// to the radio in its frames.
pub open spec fn datagram_sent<R: Radio>(
    before: TransportModel<R>,
    to: EndpointModel,
    bytes: Seq<u8>,
    after: TransportModel<R>,
    outcome: Result<(), Error>,
) -> bool {
    &&& after == moved_on(before, after.radio)
    &&& if bytes.len() > MAX_UDP_PAYLOAD {
        after.radio == before.radio && outcome == Err::<(), Error>(
            Error::DatagramPayload(bytes.len() as usize),
        )
    } else {
        all_transmitted(
            before.radio,
            datagram_frames(
                datagram_to(before, to, bytes),
                before.rloc16,
                before.sequence,
                before.tag,
            ),
            after.radio,
            outcome,
        )
    }
}

/// The most frames that a node takes at one go.
pub const MOST_FRAMES: u64 = u64::MAX;

/// Whether a radio that was `before`, asked for the next frame of a datagram
/// for `port`, may be `between`, go by a name, and give an answer with which
/// the reception under way is `then` and comes to `outcome`.
pub open spec fn asked<R: Radio>(
    before: R,
    timeout: Timeout,
    port: u16,
    reception: ReceptionModel,
    between: R,
    then: ReceptionModel,
    outcome: Result<HeardModel, Error>,
) -> bool {
    exists|answer: Result<Option<Vec<u8>>, Error>, name: Seq<char>|
        {
            &&& #[trigger] R::received(before, timeout, between, answer)
            &&& #[trigger] between.called(name)
            &&& (then, outcome) == heard(reception, answered(answer), port, name)
        }
}

/// Whether a radio that was `before` may be `after`, and a reception under
/// way of a datagram for `port` be `then` and come to `outcome`, once the
/// radio was asked `count` times: each answer goes to the reception, and only
/// where there is more to come is the radio asked again.
pub open spec fn listened<R: Radio>(
    before: R,
    timeout: Timeout,
    port: u16,
    reception: ReceptionModel,
    count: nat,
    after: R,
    then: ReceptionModel,
    outcome: Result<HeardModel, Error>,
) -> bool
    decreases count,
{
    if count == 0 {
        &&& after == before
        &&& then == reception
        &&& outcome == Ok::<HeardModel, Error>(HeardModel::More)
    } else {
        exists|between: R, next: ReceptionModel, said: Result<HeardModel, Error>|
            {
                &&& #[trigger] asked(before, timeout, port, reception, between, next, said)
                &&& if said == Ok::<HeardModel, Error>(HeardModel::More) {
                    listened(
                        between,
                        timeout,
                        port,
                        next,
                        (count - 1) as nat,
                        after,
                        then,
                        outcome,
                    )
                } else {
                    count == 1 && after == between && then == next && outcome == said
                }
            }
    }
}

/// Whether `after`, `then` and `outcome` may come of one go of listening, in
/// which the radio is asked `count` times: until there is no more to come, or
/// [`MOST_FRAMES`] times.
pub open spec fn one_go<R: Radio>(
    before: R,
    timeout: Timeout,
    port: u16,
    reception: ReceptionModel,
    count: nat,
    after: R,
    then: ReceptionModel,
    outcome: Result<HeardModel, Error>,
) -> bool {
    &&& listened(before, timeout, port, reception, count, after, then, outcome)
    &&& count <= MOST_FRAMES
    &&& outcome == Ok::<HeardModel, Error>(HeardModel::More) ==> count == MOST_FRAMES
}

/// Whether `after`, `then` and `outcome` may come of one go of listening.
pub open spec fn listened_at_one_go<R: Radio>(
    before: R,
    timeout: Timeout,
    port: u16,
    reception: ReceptionModel,
    after: R,
    then: ReceptionModel,
    outcome: Result<HeardModel, Error>,
) -> bool {
    exists|count: nat| #[trigger]
        one_go(before, timeout, port, reception, count, after, then, outcome)
}

/// One node on one radio: its short address, the port it listens on, and
/// where it sends.
pub struct ThreadTransport<R: Radio> {
    radio: R,
    rloc16: u16,
    port: u16,
    destination: Endpoint,
    /// The MAC sequence and the datagram tag.
    counters: (u8, u16),
    timeout: Timeout,
}

impl<R: Radio> View for ThreadTransport<R> {
    type V = TransportModel<R>;

    closed spec fn view(&self) -> TransportModel<R> {
        TransportModel {
            radio: self.radio,
            rloc16: self.rloc16,
            port: self.port,
            destination: self.destination@,
            sequence: self.counters.0,
            tag: self.counters.1,
            timeout: self.timeout,
        }
    }
}

impl<R: Radio> ThreadTransport<R> {
    /// A node at short address `rloc16` on `radio`, on port 5683, sending to
    /// the leader.
    #[must_use]
    pub fn new(radio: R, rloc16: u16) -> (transport: Self)
        ensures
            transport@ == (TransportModel {
                radio,
                rloc16,
                port: COAP_PORT,
                destination: EndpointModel { address: mesh_local(LEADER), port: COAP_PORT },
                sequence: 0,
                tag: 0,
                timeout: Timeout { secs: 5, nanos: 0 },
            }),
    {
        ThreadTransport {
            radio,
            rloc16,
            port: COAP_PORT,
            destination: Endpoint { address: Datagram::address_of(LEADER), port: COAP_PORT },
            counters: (0, 0),
            timeout: Timeout { secs: 5, nanos: 0 },
        }
    }

    /// Give up on a datagram whose fragments stop coming for `timeout`.
    #[must_use]
    pub fn timing_out_after(self, timeout: Timeout) -> (transport: Self)
        ensures
            transport@ == (TransportModel { timeout, ..self@ }),
    {
        ThreadTransport {
            radio: self.radio,
            rloc16: self.rloc16,
            port: self.port,
            destination: self.destination,
            counters: self.counters,
            timeout,
        }
    }

    /// What the transport goes by.
    #[must_use]
    pub fn name(&self) -> (name: &'static str)
        ensures
            name@ == "thread"@,
    {
        "thread"
    }

    /// This node's mesh-local address.
    #[must_use]
    pub fn address(&self) -> (address: Address)
        ensures
            address@ == mesh_local(self@.rloc16),
    {
        Datagram::address_of(self.rloc16)
    }

    /// Where this node sends unless a target says otherwise.
    #[must_use]
    pub fn destination(&self) -> (destination: Endpoint)
        ensures
            destination@ == self@.destination,
    {
        self.destination
    }

    /// The radio this node is on.
    pub fn radio_mut(&mut self) -> (radio: &mut R)
        ensures
            *radio == old(self)@.radio,
            final(self)@ == (TransportModel { radio: *final(radio), ..old(self)@ }),
    {
        &mut self.radio
    }

    /// `thread://<radio>/[<address>]:<port>`.
    #[must_use]
    pub fn origin(&self, address: &Address, port: u16) -> (origin: String)
        ensures
            exists|name: Seq<char>|
                self@.radio.called(name) && origin@ == #[trigger] origin_text(name, address@, port),
    {
        origin_of(self.radio.name(), address, port)
    }

    /// The short address a mesh-local address names, or `None` off the
    /// mesh, where the leader forwards for the border router.
    #[must_use]
    pub fn rloc16_of(address: &Address) -> (rloc16: Option<u16>)
        ensures
            rloc16 == short_address(address@),
    {
        address.rloc16()
    }

    /// The most one Stream holds: eleven bits size a 6LoWPAN datagram, and
    /// the IPv6 and UDP headers take forty-eight of them.
    #[must_use]
    pub fn ceiling(&self) -> (ceiling: Option<usize>)
        ensures
            ceiling == Some(MAX_UDP_PAYLOAD),
    {
        Some(MAX_UDP_PAYLOAD)
    }

    /// The MAC sequence and the datagram tag for the next datagram.
    pub fn next_counters(&mut self) -> (next: (u8, u16))
        ensures
            next == (old(self)@.sequence, old(self)@.tag),
            final(self)@ == moved_on(old(self)@, old(self)@.radio),
    {
        let next = self.counters;
        self.counters = (next.0.wrapping_add(1), next.1.wrapping_add(1));
        next
    }

    /// Send `bytes` as one datagram to `to`, in as many frames as it takes.
    pub fn send_datagram(&mut self, to: Endpoint, bytes: &[u8]) -> (outcome: Result<(), Error>)
        ensures
            datagram_sent(old(self)@, to@, bytes@, final(self)@, outcome),
    {
        let payload = part(bytes, 0, bytes.len());
        assert(payload@ =~= bytes@);
        let datagram = Datagram {
            source: self.address(),
            destination: to.address,
            source_port: self.port,
            destination_port: to.port,
            payload,
        };
        let (sequence, tag) = self.next_counters();
        let frames = match frames_of(&datagram, self.rloc16, sequence, tag) {
            Ok(frames) => frames,
            Err(error) => return Err(error),
        };
        assert(byte_strings(frames@).skip(0) =~= byte_strings(frames@));
        transmit_from(&mut self.radio, &frames, 0)
    }

    /// Send `bytes` where the target says, or to this node's own destination
    /// where it says nothing.
    pub fn send(&mut self, named: Option<Named>, bytes: &[u8]) -> (outcome: Result<(), Error>)
        ensures
            match addressee(old(self)@.destination, named) {
                Ok(to) => datagram_sent(old(self)@, to, bytes@, final(self)@, outcome),
                Err(path) => {
                    &&& final(self)@ == old(self)@
                    &&& outcome matches Err(Error::Target(p)) && p@ == path
                },
            },
            named matches Some(target) ==> target.path@.len() > 0 ==> (
            target.endpoint matches Some(endpoint) ==> datagram_sent(
                old(self)@,
                endpoint@,
                bytes@,
                final(self)@,
                outcome,
            )),
    {
        let to = match named {
            Some(named) => if named.path.as_str().is_empty() {
                self.destination
            } else {
                match named.endpoint {
                    Some(endpoint) => endpoint,
                    None => return Err(Error::Target(named.path)),
                }
            },
            None => self.destination,
        };
        self.send_datagram(to, bytes)
    }

    /// Take one datagram sent to this node's port, or say that nothing
    /// arrived in time. A datagram begins with a new reception. Where there
    /// is still more to come after [`MOST_FRAMES`] frames, this says so, and
    /// goes on from there when it is called with the same reception again.
    pub fn receive_one(&mut self, reception: &mut Reception) -> (said: Result<Heard, Error>)
        ensures
            final(self)@ == (TransportModel { radio: final(self)@.radio, ..old(self)@ }),
            listened_at_one_go(
                old(self)@.radio,
                old(self)@.timeout,
                old(self)@.port,
                old(reception)@,
                final(self)@.radio,
                final(reception)@,
                said_of(said),
            ),
    {
        let ghost (timeout, port) = (self@.timeout, self@.port);
        let mut count: u64 = 0;
        while count < MOST_FRAMES
            invariant
                self@ == (TransportModel { radio: self@.radio, ..old(self)@ }),
                (timeout, port) == (old(self)@.timeout, old(self)@.port),
                count <= MOST_FRAMES,
                listened(
                    old(self)@.radio,
                    timeout,
                    port,
                    old(reception)@,
                    count as nat,
                    self@.radio,
                    reception@,
                    Ok(HeardModel::More),
                ),
            decreases MOST_FRAMES - count,
        {
            let ghost before = self@.radio;
            let ghost so_far = reception@;
            let answer = self.radio.receive(self.timeout);
            let ghost given = answer;
            let name = self.radio.name();
            let ghost called = name@;
            let said = reception.hear(answer, self.port, name);
            assert(told(so_far, answered(given), port, called, reception@, said));
            assert(R::received(before, timeout, self@.radio, given));
            assert(self@.radio.called(called));
            assert(asked(before, timeout, port, so_far, self@.radio, reception@, said_of(said)));
            assert(listened(
                self@.radio,
                timeout,
                port,
                reception@,
                0,
                self@.radio,
                reception@,
                Ok(HeardModel::More),
            ));
            proof {
                listening_goes_on(
                    old(self)@.radio,
                    timeout,
                    port,
                    old(reception)@,
                    count as nat,
                    before,
                    so_far,
                    1,
                    self@.radio,
                    reception@,
                    said_of(said),
                );
            }
            count += 1;
            assert(said_of(said) != Ok::<HeardModel, Error>(HeardModel::More) ==> one_go(
                old(self)@.radio,
                timeout,
                port,
                old(reception)@,
                count as nat,
                self@.radio,
                reception@,
                said_of(said),
            ));
            match said {
                Ok(Heard::More) => {},
                _ => return said,
            }
        }
        assert(one_go(
            old(self)@.radio,
            timeout,
            port,
            old(reception)@,
            count as nat,
            self@.radio,
            reception@,
            Ok(HeardModel::More),
        ));
        Ok(Heard::More)
    }
}

} // verus!
