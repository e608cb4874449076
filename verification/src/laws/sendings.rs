//! What a node hands its radio: to which node each frame goes, which datagram
//! the frames carry, and that the radio gets each of them in turn.
use vstd::prelude::*;

use crate::address::{mesh_local, short_address};
use crate::datagram::{datagram_bytes, DatagramModel};
use crate::error::Error;
use crate::fragment::fragmented;
use crate::frame::{read_frame, read_lowpan, LowpanModel};
use crate::laws::datagrams::mesh_local_address_names_its_node;
use crate::laws::fragments::fragments_fit_frames;
use crate::laws::frames::{frame_reads_back, lowpan_reads_back};
use crate::laws::layouts::{datagram_is_cut_in_order, datagram_is_laid_out};
use crate::laws::transports::loopback_send_is_held;
use crate::loopback::{held_with, off_loopback};
use crate::radio::{all_transmitted, LoopbackRadio, Radio};
use crate::reception::origin_text;
use crate::sending::{datagram_frame, datagram_frames};
use crate::transport::{
    addressee, datagram_sent, datagram_to, EndpointModel, Named, TransportModel,
};

verus! {

/// Every frame of a datagram reads back with the next sequence, the PAN, the
/// short address of its sender and the payload of its turn; and there are as
/// many as it takes.
pub proof fn frames_read_back_in_turn(
    datagram: DatagramModel,
    rloc16: u16,
    sequence: u8,
    tag: u16,
    index: int,
)
    requires
        datagram.addressed(),
        datagram.payload.len() <= 1999,
        0 <= index < datagram_frames(datagram, rloc16, sequence, tag).len(),
    ensures
        read_frame(datagram_frames(datagram, rloc16, sequence, tag)[index]) matches Ok(frame) && {
            &&& frame.sequence == (sequence + index) % 256
            &&& frame.pan == 0xface
            &&& frame.source == rloc16
            &&& read_lowpan(frame.payload) == Ok::<LowpanModel, Error>(
                fragmented(datagram_bytes(datagram), tag)[index],
            )
        },
        ({
            let count = datagram_frames(datagram, rloc16, sequence, tag).len();
            if datagram.payload.len() <= 67 {
                count == 1
            } else {
                104 * (count - 1) < 48 + datagram.payload.len() <= 104 * count
            }
        }),
{
    let frame = datagram_frame(datagram, rloc16, sequence, tag, index);
    let whole = datagram_bytes(datagram);
    datagram_is_laid_out(datagram);
    datagram_is_cut_in_order(whole, tag, index);
    fragments_fit_frames(whole, tag, index);
    frame_reads_back(frame);
    lowpan_reads_back(fragmented(whole, tag)[index]);
}

/// Every frame of a datagram for the mesh-local address of a node goes to
/// that node, whichever it is.
pub proof fn frame_goes_to_the_node_its_address_names(
    datagram: DatagramModel,
    rloc16: u16,
    sequence: u8,
    tag: u16,
    index: int,
    node: u16,
)
    requires
        datagram.addressed(),
        datagram.destination == mesh_local(node),
        datagram.payload.len() <= 1999,
        0 <= index < datagram_frames(datagram, rloc16, sequence, tag).len(),
    ensures
        read_frame(datagram_frames(datagram, rloc16, sequence, tag)[index]) matches Ok(frame)
            && frame.destination == node,
{
    mesh_local_address_names_its_node(datagram.destination, node);
    fragments_fit_frames(datagram_bytes(datagram), tag, index);
    frame_reads_back(datagram_frame(datagram, rloc16, sequence, tag, index));
}

/// Every frame of a datagram for an address that is no node's goes to the
/// leader, at short address zero.
pub proof fn frame_off_the_mesh_goes_to_the_leader(
    datagram: DatagramModel,
    rloc16: u16,
    sequence: u8,
    tag: u16,
    index: int,
)
    requires
        datagram.addressed(),
        forall|node: u16| datagram.destination != #[trigger] mesh_local(node),
        datagram.payload.len() <= 1999,
        0 <= index < datagram_frames(datagram, rloc16, sequence, tag).len(),
    ensures
        read_frame(datagram_frames(datagram, rloc16, sequence, tag)[index]) matches Ok(frame)
            && frame.destination == 0x0000,
{
    let named = short_address(datagram.destination);
    if named is Some {
        mesh_local_address_names_its_node(datagram.destination, named->Some_0);
    }
    fragments_fit_frames(datagram_bytes(datagram), tag, index);
    frame_reads_back(datagram_frame(datagram, rloc16, sequence, tag, index));
}

/// A datagram says where it comes from, where it goes and what it carries: the
/// mesh-local address and port of its node, the address and port it is sent
/// to, and the bytes that were sent.
pub proof fn datagram_says_what_was_sent<R: Radio>(
    node: TransportModel<R>,
    to: EndpointModel,
    bytes: Seq<u8>,
)
    ensures
        datagram_to(node, to, bytes).source == mesh_local(node.rloc16),
        datagram_to(node, to, bytes).source_port == node.port,
        datagram_to(node, to, bytes).destination == to.address,
        datagram_to(node, to, bytes).destination_port == to.port,
        datagram_to(node, to, bytes).payload == bytes,
{
}

/// Sending changes the counters and the radio of a node and nothing else of
/// it; the sequence and the tag go on by one, and begin again at zero after
/// the last.
pub proof fn sending_keeps_the_rest_of_the_node<R: Radio>(
    before: TransportModel<R>,
    to: EndpointModel,
    bytes: Seq<u8>,
    after: TransportModel<R>,
    outcome: Result<(), Error>,
)
    requires
        datagram_sent(before, to, bytes, after, outcome),
    ensures
        after.rloc16 == before.rloc16,
        after.port == before.port,
        after.destination == before.destination,
        after.timeout == before.timeout,
        after.sequence == if before.sequence == 255 {
            0
        } else {
            before.sequence + 1
        },
        after.tag == if before.tag == 65535 {
            0
        } else {
            before.tag + 1
        },
        bytes.len() > 1999 ==> {
            &&& after.radio == before.radio
            &&& outcome matches Err(Error::DatagramPayload(length)) && (bytes.len() <= usize::MAX
                ==> length == bytes.len())
        },
{
}

/// A run of frames handed to a radio: the radios it goes through, and what
/// each answered.
pub struct Handing<R> {
    pub radios: Seq<R>,
    pub answers: Seq<Result<(), Error>>,
}

/// Whether `run` hands `frames` to a radio in their order, from the first on,
/// and goes on only after one that was not refused.
pub open spec fn hands_over<R: Radio>(run: Handing<R>, frames: Seq<Seq<u8>>) -> bool {
    &&& run.radios.len() == run.answers.len() + 1
    &&& run.answers.len() <= frames.len()
    &&& forall|i: int, next: int|
        #![trigger run.answers[i], run.radios[next]]
        0 <= i < run.answers.len() && next == i + 1 ==> {
            &&& R::transmitted(run.radios[i], frames[i], run.radios[next], run.answers[i])
            &&& next < run.answers.len() ==> run.answers[i] is Ok
        }
}

/// A radio that is given frames is given each in its turn, until all have
/// been or one is refused; what comes of it is that refusal, or success once
/// every frame was taken.
pub proof fn frames_are_handed_over_in_turn<R: Radio>(
    before: R,
    frames: Seq<Seq<u8>>,
    after: R,
    outcome: Result<(), Error>,
) -> (run: Handing<R>)
    requires
        all_transmitted(before, frames, after, outcome),
    ensures
        hands_over(run, frames),
        run.radios[0] == before,
        run.radios.last() == after,
        outcome is Ok ==> run.answers.len() == frames.len() && (frames.len() > 0
            ==> run.answers.last() is Ok),
        outcome matches Err(error) ==> run.answers.len() > 0 && run.answers.last() == Err::<
            (),
            Error,
        >(error),
    decreases frames.len(),
{
    if frames.len() == 0 {
        Handing { radios: seq![before], answers: Seq::empty() }
    } else {
        let (between, answer) = choose|between: R, answer: Result<(), Error>| #[trigger]
            R::transmitted(before, frames[0], between, answer) && match answer {
                Ok(_) => all_transmitted(between, frames.drop_first(), after, outcome),
                Err(error) => after == between && outcome == Err::<(), Error>(error),
            };
        let others = frames.drop_first();
        let rest = if answer is Ok {
            frames_are_handed_over_in_turn(between, others, after, outcome)
        } else {
            Handing { radios: seq![between], answers: Seq::empty() }
        };
        let run = Handing {
            radios: seq![before] + rest.radios,
            answers: seq![answer] + rest.answers,
        };
        assert forall|i: int, next: int|
            #![trigger run.answers[i], run.radios[next]]
            0 <= i < run.answers.len() && next == i + 1 implies {
            &&& R::transmitted(run.radios[i], frames[i], run.radios[next], run.answers[i])
            &&& next < run.answers.len() ==> run.answers[i] is Ok
        } by {
            if i > 0 {
                assert(run.answers[i] == rest.answers[i - 1]);
                assert(run.radios[next] == rest.radios[i]);
                assert(run.radios[i] == rest.radios[i - 1]);
                assert(frames[i] == others[i - 1]);
            } else {
                assert(run.radios[1] == rest.radios[0]);
            }
        }
        assert(run.radios.last() == rest.radios.last());
        if rest.answers.len() > 0 {
            assert(run.answers.last() == rest.answers.last());
        }
        run
    }
}

/// What a node hands its radio of bytes that one datagram carries: frames that
/// all come from it, numbered in turn from its sequence, whole or in fragments
/// under its tag.
pub proof fn frames_go_out_under_the_counters<R: Radio>(
    before: TransportModel<R>,
    to: EndpointModel,
    bytes: Seq<u8>,
    after: TransportModel<R>,
    outcome: Result<(), Error>,
) -> (frames: Seq<Seq<u8>>)
    requires
        datagram_sent(before, to, bytes, after, outcome),
        to.address.len() == 16,
        bytes.len() <= 1999,
    ensures
        all_transmitted(before.radio, frames, after.radio, outcome),
        forall|i: int|
            0 <= i < frames.len() ==> (read_frame(#[trigger] frames[i]) matches Ok(frame) && {
                &&& frame.sequence == (before.sequence + i) % 256
                &&& frame.pan == 0xface
                &&& frame.source == before.rloc16
                &&& read_lowpan(frame.payload) matches Ok(lowpan) && match lowpan {
                    LowpanModel::Ipv6(_) => frames.len() == 1,
                    LowpanModel::Frag1 { size, tag, bytes: _ } => i == 0 && tag == before.tag
                        && size == 48 + bytes.len(),
                    LowpanModel::FragN { size, tag, offset: _, bytes: _ } => i > 0 && tag
                        == before.tag && size == 48 + bytes.len(),
                }
            }),
{
    let datagram = datagram_to(before, to, bytes);
    let frames = datagram_frames(datagram, before.rloc16, before.sequence, before.tag);
    assert forall|i: int| 0 <= i < frames.len() implies (read_frame(#[trigger] frames[i]) matches Ok(
        frame,
    ) && {
        &&& frame.sequence == (before.sequence + i) % 256
        &&& frame.pan == 0xface
        &&& frame.source == before.rloc16
        &&& read_lowpan(frame.payload) matches Ok(lowpan) && match lowpan {
            LowpanModel::Ipv6(_) => frames.len() == 1,
            LowpanModel::Frag1 { size, tag, bytes: _ } => i == 0 && tag == before.tag && size == 48
                + bytes.len(),
            LowpanModel::FragN { size, tag, offset: _, bytes: _ } => i > 0 && tag == before.tag
                && size == 48 + bytes.len(),
        }
    }) by {
        frames_read_back_in_turn(datagram, before.rloc16, before.sequence, before.tag, i);
        datagram_is_laid_out(datagram);
        datagram_is_cut_in_order(datagram_bytes(datagram), before.tag, i);
    }
    frames
}

/// Whether `after` and `outcome` are what is promised of sending `bytes` to
/// what a target names.
pub open spec fn sent_as_named<R: Radio>(
    before: TransportModel<R>,
    named: Option<Named>,
    bytes: Seq<u8>,
    after: TransportModel<R>,
    outcome: Result<(), Error>,
) -> bool {
    match addressee(before.destination, named) {
        Ok(to) => datagram_sent(before, to, bytes, after, outcome),
        Err(path) => after == before && (outcome matches Err(Error::Target(p)) && p@ == path),
    }
}

/// A target with a path overrides where a node sends: where the path reads as
/// an address and a port, on the mesh or off it, those are where the datagram
/// goes; where it does not, nothing is sent and the path is named. A target
/// without a path leaves it to the node.
pub proof fn target_overrides_the_destination<R: Radio>(
    before: TransportModel<R>,
    named: Option<Named>,
    bytes: Seq<u8>,
    after: TransportModel<R>,
    outcome: Result<(), Error>,
)
    requires
        sent_as_named(before, named, bytes, after, outcome),
    ensures
        named is None ==> datagram_sent(before, before.destination, bytes, after, outcome),
        named matches Some(target) ==> {
            &&& target.path@.len() == 0 ==> datagram_sent(
                before,
                before.destination,
                bytes,
                after,
                outcome,
            )
            &&& target.path@.len() > 0 ==> (target.endpoint matches Some(endpoint)
                ==> datagram_sent(
                before,
                EndpointModel { address: endpoint.address.octets@, port: endpoint.port },
                bytes,
                after,
                outcome,
            ))
            &&& target.path@.len() > 0 && target.endpoint is None ==> {
                &&& after == before
                &&& outcome matches Err(Error::Target(path)) && path@ == target.path@
            }
        },
{
}

/// On a loopback radio, what is sent to a target that names an address and a
/// port is then the last datagram the far node holds: for that address and
/// port, with the bytes that were sent, from the node that sent them. Those
/// it held before it holds still.
pub proof fn named_datagram_reaches_the_far_node(
    before: TransportModel<LoopbackRadio>,
    target: Named,
    bytes: Seq<u8>,
    after: TransportModel<LoopbackRadio>,
    outcome: Result<(), Error>,
)
    requires
        sent_as_named(before, Some(target), bytes, after, outcome),
        target.path@.len() > 0,
        target.endpoint is Some,
        bytes.len() <= 1999,
    ensures
        outcome is Ok,
        after.radio@.arrived.len() == before.radio@.arrived.len() + 1,
        after.radio@.arrived.drop_last() == before.radio@.arrived,
        ({
            let held = after.radio@.arrived.last();
            let endpoint = target.endpoint->Some_0;
            &&& held.destination == endpoint.address.octets@
            &&& held.destination_port == endpoint.port
            &&& held.source == mesh_local(before.rloc16)
            &&& held.source_port == before.port
            &&& held.payload == bytes
        }),
{
    let to = target.endpoint->Some_0@;
    target_overrides_the_destination(before, Some(target), bytes, after, outcome);
    loopback_send_is_held(before, to, bytes, after, outcome);
    assert(after.radio@.arrived.drop_last() =~= before.radio@.arrived);
}

/// What the leader of a loopback holds once something was sent to it: one
/// datagram more, the last, from the node to its destination, with the bytes
/// that were sent; and where it held none, that one is the next to be taken
/// and the only one. What it hands over of a datagram is the payload, and an
/// origin that names the loopback and the sender.
pub proof fn leader_holds_what_was_sent(
    node: TransportModel<LoopbackRadio>,
    payload: Seq<u8>,
    datagram: DatagramModel,
)
    ensures
        ({
            let held = held_with(node, payload).arrived;
            &&& held.len() == node.radio@.arrived.len() + 1
            &&& held.drop_last() == node.radio@.arrived
            &&& held.last().source == mesh_local(node.rloc16)
            &&& held.last().source_port == node.port
            &&& held.last().destination == node.destination.address
            &&& held.last().destination_port == node.destination.port
            &&& held.last().payload == payload
            &&& node.radio@.arrived.len() == 0 ==> held[0].payload == payload && held.skip(1)
                == node.radio@.arrived
        }),
        off_loopback(datagram).bytes == datagram.payload,
        off_loopback(datagram).origin_uri == origin_text(
            "loopback"@,
            datagram.source,
            datagram.source_port,
        ),
{
    assert(held_with(node, payload).arrived.drop_last() =~= node.radio@.arrived);
    if node.radio@.arrived.len() == 0 {
        assert(held_with(node, payload).arrived.skip(1) =~= node.radio@.arrived);
    }
}

} // verus!
