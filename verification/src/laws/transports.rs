//! A datagram from end to end: what one node sends, another takes.
use vstd::prelude::*;

use crate::datagram::{datagram_bytes, read_datagram, DatagramModel, MAX_UDP_PAYLOAD};
use crate::error::Error;
use crate::fragment::{all_taken, fragmented, lemma_places, outcome_of, taken, ReassemblyModel};
use crate::frame::{frame_bytes, lowpan_bytes, FrameModel, LowpanModel, MAX_PAYLOAD};
use crate::laws::datagrams::datagram_reads_back;
use crate::laws::fragments::{datagram_comes_back_in_turn, fragments_fit_frames};
use crate::laws::frames::{frame_reads_back, lowpan_reads_back, sized};
use crate::radio::{
    all_looped, all_transmitted, frame_taken, LoopbackModel, LoopbackRadio, Radio, Timeout,
};
use crate::reception::{
    all_heard, answered, heard_of, nothing_heard, origin_text, ArrivedModel, HeardModel,
    ReceptionModel,
};
use crate::sending::{datagram_frame, datagram_frames};
use crate::transport::{
    asked, datagram_sent, datagram_to, listened, listened_at_one_go, moved_on, one_go,
    EndpointModel, TransportModel,
};

verus! {

/// A frame that carries one 6LoWPAN payload gives what the payload gives.
proof fn lemma_frame_gives_its_payload(
    under_way: ReassemblyModel,
    frame: FrameModel,
    lowpan: LowpanModel,
)
    requires
        frame.payload == lowpan_bytes(lowpan),
        frame.payload.len() <= MAX_PAYLOAD,
        sized(lowpan),
    ensures
        frame_taken(under_way, frame_bytes(frame)) == {
            let (then, whole) = taken(under_way, lowpan);
            match whole {
                Err(error) => (then, Err::<Option<DatagramModel>, Error>(error)),
                Ok(None) => (then, Ok(None)),
                Ok(Some(bytes)) => match read_datagram(bytes) {
                    Err(error) => (then, Err(error)),
                    Ok(datagram) => (then, Ok(Some(datagram))),
                },
            }
        },
{
    frame_reads_back(frame);
    lowpan_reads_back(lowpan);
}

/// A frame that carries the payload `index` of those a datagram was cut into.
proof fn lemma_frame_in_turn(
    under_way: ReassemblyModel,
    lowpans: Seq<LowpanModel>,
    whole: Seq<u8>,
    datagram: DatagramModel,
    frame: FrameModel,
    index: int,
)
    requires
        0 <= index < lowpans.len(),
        frame.payload == lowpan_bytes(lowpans[index]),
        frame.payload.len() <= MAX_PAYLOAD,
        sized(lowpans[index]),
        outcome_of(under_way, lowpans, index) == Ok::<Option<Seq<u8>>, Error>(
            if index < lowpans.len() - 1 {
                None
            } else {
                Some(whole)
            },
        ),
        read_datagram(whole) == Ok::<DatagramModel, Error>(datagram),
    ensures
        frame_taken(all_taken(under_way, lowpans.take(index)), frame_bytes(frame)) == (
            all_taken(under_way, lowpans.take(index + 1)),
            Ok::<Option<DatagramModel>, Error>(
                if index < lowpans.len() - 1 {
                    None
                } else {
                    Some(datagram)
                },
            ),
        ),
{
    assert(lowpans.take(index + 1).drop_last() =~= lowpans.take(index));
    assert(lowpans.take(index + 1).last() == lowpans[index]);
    lemma_frame_gives_its_payload(
        all_taken(under_way, lowpans.take(index)),
        frame,
        lowpans[index],
    );
}

/// Each frame of a datagram, taken in turn by a node with whatever under
/// way: the datagram with the last of them, and nothing before it.
pub proof fn frames_give_their_datagram(
    under_way: ReassemblyModel,
    datagram: DatagramModel,
    rloc16: u16,
    sequence: u8,
    tag: u16,
    index: int,
)
    requires
        datagram.addressed(),
        datagram.payload.len() <= MAX_UDP_PAYLOAD,
        0 <= index < datagram_frames(datagram, rloc16, sequence, tag).len(),
    ensures
        frame_taken(
            all_taken(under_way, fragmented(datagram_bytes(datagram), tag).take(index)),
            datagram_frames(datagram, rloc16, sequence, tag)[index],
        ) == (
            all_taken(under_way, fragmented(datagram_bytes(datagram), tag).take(index + 1)),
            Ok::<Option<DatagramModel>, Error>(
                if index < datagram_frames(datagram, rloc16, sequence, tag).len() - 1 {
                    None
                } else {
                    Some(datagram)
                },
            ),
        ),
{
    let whole = datagram_bytes(datagram);
    let lowpans = fragmented(whole, tag);
    let frame = datagram_frame(datagram, rloc16, sequence, tag, index);
    fragments_fit_frames(whole, tag, index);
    datagram_comes_back_in_turn(under_way, whole, tag, index);
    datagram_reads_back(datagram);
    lemma_frame_in_turn(under_way, lowpans, whole, datagram, frame, index);
}

/// What a loopback radio answers, and holds then, is what its node makes of
/// the frames it is given.
pub proof fn loopback_answers_for_its_node(
    before: LoopbackRadio,
    frames: Seq<Seq<u8>>,
    after: LoopbackRadio,
    outcome: Result<(), Error>,
)
    requires
        all_transmitted(before, frames, after, outcome),
    ensures
        (after@, outcome) == all_looped(before@, frames),
    decreases frames.len(),
{
    if frames.len() > 0 {
        let (between, answer) = choose|between: LoopbackRadio, answer: Result<(), Error>|
            #[trigger] LoopbackRadio::transmitted(before, frames[0], between, answer)
                && match answer {
                Ok(_) => all_transmitted(between, frames.drop_first(), after, outcome),
                Err(error) => after == between && outcome == Err::<(), Error>(error),
            };
        if answer is Ok {
            loopback_answers_for_its_node(between, frames.drop_first(), after, outcome);
        }
    }
}

/// Whether `frames` take a node from each of `under_way` to the next, and
/// give `datagram` with the last of them and nothing before it.
pub open spec fn leads_to(
    under_way: Seq<ReassemblyModel>,
    frames: Seq<Seq<u8>>,
    datagram: DatagramModel,
) -> bool {
    &&& under_way.len() == frames.len() + 1
    &&& forall|i: int|
        0 <= i < frames.len() ==> frame_taken(under_way[i], #[trigger] frames[i]) == (
            under_way[i + 1],
            Ok::<Option<DatagramModel>, Error>(
                if i < frames.len() - 1 {
                    None
                } else {
                    Some(datagram)
                },
            ),
        )
}

/// What is under way as each of `lowpans` is taken in turn.
pub open spec fn steps(under_way: ReassemblyModel, lowpans: Seq<LowpanModel>) -> Seq<
    ReassemblyModel,
> {
    Seq::new(lowpans.len() + 1, |i: int| all_taken(under_way, lowpans.take(i)))
}

/// The frames of a datagram lead to it from whatever is under way.
proof fn lemma_frames_lead_to_their_datagram(
    under_way: ReassemblyModel,
    datagram: DatagramModel,
    rloc16: u16,
    sequence: u8,
    tag: u16,
)
    requires
        datagram.addressed(),
        datagram.payload.len() <= MAX_UDP_PAYLOAD,
    ensures
        leads_to(
            steps(under_way, fragmented(datagram_bytes(datagram), tag)),
            datagram_frames(datagram, rloc16, sequence, tag),
            datagram,
        ),
{
    let lowpans = fragmented(datagram_bytes(datagram), tag);
    let frames = datagram_frames(datagram, rloc16, sequence, tag);
    let under_ways = steps(under_way, lowpans);
    assert forall|i: int| 0 <= i < frames.len() implies frame_taken(
        under_ways[i],
        #[trigger] frames[i],
    ) == (
        under_ways[i + 1],
        Ok::<Option<DatagramModel>, Error>(
            if i < frames.len() - 1 {
                None
            } else {
                Some(datagram)
            },
        ),
    ) by {
        frames_give_their_datagram(under_way, datagram, rloc16, sequence, tag, i);
    }
}

/// Where the steps begin and end.
proof fn lemma_steps(under_way: ReassemblyModel, lowpans: Seq<LowpanModel>)
    ensures
        steps(under_way, lowpans)[0] == under_way,
        steps(under_way, lowpans).last() == all_taken(under_way, lowpans),
{
    assert(lowpans.take(0) =~= Seq::empty());
    assert(lowpans.take(lowpans.len() as int) =~= lowpans);
}

/// No datagram takes more than twenty frames, nor fewer than one.
pub proof fn datagram_takes_few_frames(
    datagram: DatagramModel,
    rloc16: u16,
    sequence: u8,
    tag: u16,
)
    requires
        datagram.addressed(),
        datagram.payload.len() <= MAX_UDP_PAYLOAD,
    ensures
        1 <= datagram_frames(datagram, rloc16, sequence, tag).len() <= 20,
{
    lemma_places(0, datagram_bytes(datagram).len());
}

/// Frames that take a node from each of `under_way` to the next, and give
/// `datagram` with the last of them, from `index` on.
proof fn lemma_rest_is_taken(
    under_way: Seq<ReassemblyModel>,
    arrived: Seq<DatagramModel>,
    frames: Seq<Seq<u8>>,
    datagram: DatagramModel,
    index: int,
)
    requires
        leads_to(under_way, frames, datagram),
        0 <= index < frames.len(),
    ensures
        all_looped(
            LoopbackModel { under_way: under_way[index], arrived },
            frames.skip(index),
        ) == (
            LoopbackModel { under_way: under_way.last(), arrived: arrived.push(datagram) },
            Ok::<(), Error>(()),
        ),
    decreases frames.len() - index,
{
    let rest = frames.skip(index);
    assert(rest[0] == frames[index]);
    assert(rest.drop_first() =~= frames.skip(index + 1));
    if index < frames.len() - 1 {
        lemma_rest_is_taken(under_way, arrived, frames, datagram, index + 1);
    } else {
        reveal_with_fuel(all_looped, 2);
    }
}

/// The receiving node takes every frame of a datagram whose payload one
/// datagram carries, whatever it had under way, and then holds that datagram
/// after those it held.
pub proof fn loopback_takes_what_is_sent(
    node: LoopbackModel,
    datagram: DatagramModel,
    rloc16: u16,
    sequence: u8,
    tag: u16,
)
    requires
        datagram.addressed(),
        datagram.payload.len() <= MAX_UDP_PAYLOAD,
    ensures
        all_looped(node, datagram_frames(datagram, rloc16, sequence, tag)) == (
            LoopbackModel {
                under_way: all_taken(node.under_way, fragmented(datagram_bytes(datagram), tag)),
                arrived: node.arrived.push(datagram),
            },
            Ok::<(), Error>(()),
        ),
{
    let lowpans = fragmented(datagram_bytes(datagram), tag);
    let frames = datagram_frames(datagram, rloc16, sequence, tag);
    let under_way = steps(node.under_way, lowpans);
    lemma_frames_lead_to_their_datagram(node.under_way, datagram, rloc16, sequence, tag);
    lemma_steps(node.under_way, lowpans);
    datagram_takes_few_frames(datagram, rloc16, sequence, tag);
    lemma_rest_is_taken(under_way, node.arrived, frames, datagram, 0);
    assert(frames.skip(0) =~= frames);
}

/// On a loopback radio every datagram that can be sent is sent, and the node
/// at the far end then holds it after those it held.
pub proof fn loopback_send_is_held(
    before: TransportModel<LoopbackRadio>,
    to: EndpointModel,
    bytes: Seq<u8>,
    after: TransportModel<LoopbackRadio>,
    outcome: Result<(), Error>,
)
    requires
        datagram_sent(before, to, bytes, after, outcome),
        to.address.len() == 16,
        bytes.len() <= MAX_UDP_PAYLOAD,
    ensures
        outcome == Ok::<(), Error>(()),
        after.radio@ == (LoopbackModel {
            under_way: all_taken(
                before.radio@.under_way,
                fragmented(datagram_bytes(datagram_to(before, to, bytes)), before.tag),
            ),
            arrived: before.radio@.arrived.push(datagram_to(before, to, bytes)),
        }),
{
    let sent = datagram_to(before, to, bytes);
    loopback_answers_for_its_node(
        before.radio,
        datagram_frames(sent, before.rloc16, before.sequence, before.tag),
        after.radio,
        outcome,
    );
    loopback_takes_what_is_sent(
        before.radio@,
        sent,
        before.rloc16,
        before.sequence,
        before.tag,
    );
}

/// A reception that took the first `count` frames of a datagram.
proof fn lemma_heard_so_far(
    reception: ReceptionModel,
    datagram: DatagramModel,
    rloc16: u16,
    sequence: u8,
    tag: u16,
    port: u16,
    name: Seq<char>,
    count: int,
)
    requires
        datagram.addressed(),
        datagram.payload.len() <= MAX_UDP_PAYLOAD,
        0 <= count < datagram_frames(datagram, rloc16, sequence, tag).len(),
    ensures
        all_heard(
            reception,
            datagram_frames(datagram, rloc16, sequence, tag).take(count),
            port,
            name,
        ).under_way == all_taken(
            reception.under_way,
            fragmented(datagram_bytes(datagram), tag).take(count),
        ),
    decreases count,
{
    let lowpans = fragmented(datagram_bytes(datagram), tag);
    let frames = datagram_frames(datagram, rloc16, sequence, tag);
    if count == 0 {
        assert(lowpans.take(0) =~= Seq::empty());
        assert(frames.take(0) =~= Seq::empty());
    } else {
        lemma_heard_so_far(reception, datagram, rloc16, sequence, tag, port, name, count - 1);
        frames_give_their_datagram(
            reception.under_way,
            datagram,
            rloc16,
            sequence,
            tag,
            count - 1,
        );
        assert(frames.take(count).drop_last() =~= frames.take(count - 1));
        assert(frames.take(count).last() == frames[count - 1]);
    }
}

/// A node that hears every frame of a datagram in turn has the datagram with
/// the last of them: its payload, from the node that sent it, where the
/// datagram is for the port the node listens on, else a refusal. Until then
/// there is more to come.
pub proof fn sent_datagram_arrives(
    reception: ReceptionModel,
    datagram: DatagramModel,
    rloc16: u16,
    sequence: u8,
    tag: u16,
    port: u16,
    name: Seq<char>,
    index: int,
)
    requires
        datagram.addressed(),
        datagram.payload.len() <= MAX_UDP_PAYLOAD,
        0 <= index < datagram_frames(datagram, rloc16, sequence, tag).len(),
    ensures
        heard_of(
            reception,
            datagram_frames(datagram, rloc16, sequence, tag),
            index,
            port,
            name,
        ) == if index < datagram_frames(datagram, rloc16, sequence, tag).len() - 1 {
            Ok::<HeardModel, Error>(HeardModel::More)
        } else if datagram.destination_port == port {
            Ok::<HeardModel, Error>(
                HeardModel::Whole(
                    ArrivedModel {
                        origin_uri: origin_text(name, datagram.source, datagram.source_port),
                        bytes: datagram.payload,
                    },
                ),
            )
        } else {
            Err::<HeardModel, Error>(Error::OtherPort)
        },
{
    lemma_heard_so_far(reception, datagram, rloc16, sequence, tag, port, name, index);
    frames_give_their_datagram(reception.under_way, datagram, rloc16, sequence, tag, index);
}

/// Whether a radio that is the first of `radios` hands out `frames` one after
/// another, whatever is asked of it within `timeout`, and is the next of
/// `radios` after each.
pub open spec fn hands_out<R: Radio>(
    radios: Seq<R>,
    timeout: Timeout,
    frames: Seq<Seq<u8>>,
) -> bool {
    &&& radios.len() == frames.len() + 1
    &&& forall|i: int, after: R, answer: Result<Option<Vec<u8>>, Error>|
        0 <= i < frames.len() && #[trigger] R::received(radios[i], timeout, after, answer) ==> {
            &&& after == radios[i + 1]
            &&& answered(answer) == Ok::<Option<Seq<u8>>, Error>(Some(frames[i]))
        }
}

/// What one node says of `datagram` taken whole from a radio that may be
/// `radio`.
pub open spec fn taken_whole<R: Radio>(
    radio: R,
    datagram: DatagramModel,
    outcome: Result<HeardModel, Error>,
) -> bool {
    exists|name: Seq<char>|
        {
            &&& #[trigger] radio.called(name)
            &&& outcome == Ok::<HeardModel, Error>(
                HeardModel::Whole(
                    ArrivedModel {
                        origin_uri: origin_text(name, datagram.source, datagram.source_port),
                        bytes: datagram.payload,
                    },
                ),
            )
        }
}

/// Listening from the frame `index` on, on a radio that hands out frames that
/// lead to `datagram`.
proof fn lemma_rest_is_heard<R: Radio>(
    radios: Seq<R>,
    timeout: Timeout,
    frames: Seq<Seq<u8>>,
    under_way: Seq<ReassemblyModel>,
    datagram: DatagramModel,
    index: int,
    begun: bool,
    count: nat,
    after: R,
    then: ReceptionModel,
    outcome: Result<HeardModel, Error>,
)
    requires
        hands_out(radios, timeout, frames),
        leads_to(under_way, frames, datagram),
        0 <= index < frames.len(),
        listened(
            radios[index],
            timeout,
            datagram.destination_port,
            ReceptionModel { begun, under_way: under_way[index] },
            count,
            after,
            then,
            outcome,
        ),
    ensures
        count < frames.len() - index ==> outcome == Ok::<HeardModel, Error>(HeardModel::More),
        count >= frames.len() - index ==> after == radios.last() && taken_whole(
            after,
            datagram,
            outcome,
        ),
    decreases frames.len() - index,
{
    assert(frame_taken(under_way[index], frames[index]).0 == under_way[index + 1]);
    if count > 0 && index < frames.len() - 1 {
        lemma_rest_is_heard(
            radios,
            timeout,
            frames,
            under_way,
            datagram,
            index + 1,
            true,
            (count - 1) as nat,
            after,
            then,
            outcome,
        );
    }
}

/// A node that listens on any radio that hands out the frames of a datagram
/// for its port takes that datagram, at one go: its payload, from the node
/// that sent it.
pub proof fn node_takes_what_the_radio_hands_out<R: Radio>(
    radios: Seq<R>,
    timeout: Timeout,
    datagram: DatagramModel,
    rloc16: u16,
    sequence: u8,
    tag: u16,
    after: R,
    then: ReceptionModel,
    outcome: Result<HeardModel, Error>,
)
    requires
        datagram.addressed(),
        datagram.payload.len() <= MAX_UDP_PAYLOAD,
        hands_out(radios, timeout, datagram_frames(datagram, rloc16, sequence, tag)),
        listened_at_one_go(
            radios[0],
            timeout,
            datagram.destination_port,
            nothing_heard(),
            after,
            then,
            outcome,
        ),
    ensures
        after == radios.last(),
        taken_whole(after, datagram, outcome),
{
    let lowpans = fragmented(datagram_bytes(datagram), tag);
    let frames = datagram_frames(datagram, rloc16, sequence, tag);
    let port = datagram.destination_port;
    let nothing = nothing_heard().under_way;
    lemma_frames_lead_to_their_datagram(nothing, datagram, rloc16, sequence, tag);
    lemma_steps(nothing, lowpans);
    datagram_takes_few_frames(datagram, rloc16, sequence, tag);
    let count = choose|count: nat|
        one_go(radios[0], timeout, port, nothing_heard(), count, after, then, outcome);
    lemma_rest_is_heard(
        radios,
        timeout,
        frames,
        steps(nothing, lowpans),
        datagram,
        0,
        false,
        count,
        after,
        then,
        outcome,
    );
}

/// Whether a radio has nothing to hand out within `timeout`.
pub open spec fn silent<R: Radio>(radio: R, timeout: Timeout) -> bool {
    forall|after: R, answer: Result<Option<Vec<u8>>, Error>| #[trigger]
        R::received(radio, timeout, after, answer) ==> answered(answer) == Ok::<
            Option<Seq<u8>>,
            Error,
        >(None)
}

/// Nothing on the air is not an error: a node that listens says that it is
/// quiet.
pub proof fn silence_is_not_an_error<R: Radio>(
    radio: R,
    timeout: Timeout,
    port: u16,
    after: R,
    then: ReceptionModel,
    outcome: Result<HeardModel, Error>,
)
    requires
        silent(radio, timeout),
        listened_at_one_go(radio, timeout, port, nothing_heard(), after, then, outcome),
    ensures
        outcome == Ok::<HeardModel, Error>(HeardModel::Quiet),
        then == nothing_heard(),
        R::received(radio, timeout, after, Ok(None)),
{
}

/// Listening from the frame `index` on, on a radio that falls silent before
/// the last frame that would give `datagram`.
proof fn lemma_fragments_stop<R: Radio>(
    radios: Seq<R>,
    timeout: Timeout,
    frames: Seq<Seq<u8>>,
    handed: int,
    under_way: Seq<ReassemblyModel>,
    datagram: DatagramModel,
    port: u16,
    index: int,
    begun: bool,
    count: nat,
    after: R,
    then: ReceptionModel,
    outcome: Result<HeardModel, Error>,
)
    requires
        hands_out(radios, timeout, frames.take(handed)),
        silent(radios[handed], timeout),
        leads_to(under_way, frames, datagram),
        0 < handed < frames.len(),
        0 <= index <= handed,
        index > 0 ==> begun,
        listened(
            radios[index],
            timeout,
            port,
            ReceptionModel { begun, under_way: under_way[index] },
            count,
            after,
            then,
            outcome,
        ),
    ensures
        count <= handed - index ==> outcome == Ok::<HeardModel, Error>(HeardModel::More),
        count > handed - index ==> outcome == Err::<HeardModel, Error>(Error::FragmentsStopped),
    decreases handed - index,
{
    if count > 0 && index < handed {
        assert(frames.take(handed)[index] == frames[index]);
        assert(frame_taken(under_way[index], frames[index]).0 == under_way[index + 1]);
        lemma_fragments_stop(
            radios,
            timeout,
            frames,
            handed,
            under_way,
            datagram,
            port,
            index + 1,
            true,
            (count - 1) as nat,
            after,
            then,
            outcome,
        );
    }
}

/// A node that listens on a radio that hands out some frames of a datagram
/// and falls silent before the last gives up: the fragments stopped coming.
pub proof fn stopped_fragments_are_an_error<R: Radio>(
    radios: Seq<R>,
    timeout: Timeout,
    datagram: DatagramModel,
    rloc16: u16,
    sequence: u8,
    tag: u16,
    handed: int,
    port: u16,
    after: R,
    then: ReceptionModel,
    outcome: Result<HeardModel, Error>,
)
    requires
        datagram.addressed(),
        datagram.payload.len() <= MAX_UDP_PAYLOAD,
        0 < handed < datagram_frames(datagram, rloc16, sequence, tag).len(),
        hands_out(radios, timeout, datagram_frames(datagram, rloc16, sequence, tag).take(handed)),
        silent(radios[handed], timeout),
        listened_at_one_go(radios[0], timeout, port, nothing_heard(), after, then, outcome),
    ensures
        outcome == Err::<HeardModel, Error>(Error::FragmentsStopped),
{
    let lowpans = fragmented(datagram_bytes(datagram), tag);
    let frames = datagram_frames(datagram, rloc16, sequence, tag);
    let nothing = nothing_heard().under_way;
    lemma_frames_lead_to_their_datagram(nothing, datagram, rloc16, sequence, tag);
    lemma_steps(nothing, lowpans);
    datagram_takes_few_frames(datagram, rloc16, sequence, tag);
    let count = choose|count: nat|
        one_go(radios[0], timeout, port, nothing_heard(), count, after, then, outcome);
    lemma_fragments_stop(
        radios,
        timeout,
        frames,
        handed,
        steps(nothing, lowpans),
        datagram,
        port,
        0,
        false,
        count,
        after,
        then,
        outcome,
    );
}

/// Listening that goes on where it left off is listening on: what comes of a
/// reception does not depend on how its frames are shared out among calls.
pub proof fn listening_goes_on<R: Radio>(
    before: R,
    timeout: Timeout,
    port: u16,
    reception: ReceptionModel,
    count: nat,
    between: R,
    next: ReceptionModel,
    more: nat,
    after: R,
    then: ReceptionModel,
    outcome: Result<HeardModel, Error>,
)
    requires
        listened(before, timeout, port, reception, count, between, next, Ok(HeardModel::More)),
        listened(between, timeout, port, next, more, after, then, outcome),
    ensures
        listened(before, timeout, port, reception, count + more, after, then, outcome),
    decreases count,
{
    if count > 0 {
        let (first, heard) = choose|first: R, heard: ReceptionModel|
            {
                &&& #[trigger] asked(
                    before,
                    timeout,
                    port,
                    reception,
                    first,
                    heard,
                    Ok(HeardModel::More),
                )
                &&& listened(
                    first,
                    timeout,
                    port,
                    heard,
                    (count - 1) as nat,
                    between,
                    next,
                    Ok(HeardModel::More),
                )
            };
        listening_goes_on(
            first,
            timeout,
            port,
            heard,
            (count - 1) as nat,
            between,
            next,
            more,
            after,
            then,
            outcome,
        );
    }
}

/// Whether the counters of the node `k` of `nodes` are those of the one
/// before it, moved on once.
pub open spec fn begins_next<R: Radio>(nodes: Seq<TransportModel<R>>, k: int) -> bool {
    let next = moved_on(nodes[k - 1], nodes[k - 1].radio);
    nodes[k].sequence == next.sequence && nodes[k].tag == next.tag
}

/// Whether each of `nodes` is one node as it begins on a datagram, one
/// datagram after another, whoever shares the node and hands it over: between
/// two of them the counters move on once, whatever else is done meanwhile.
pub open spec fn begin_in_turn<R: Radio>(nodes: Seq<TransportModel<R>>) -> bool {
    forall|k: int| 0 < k < nodes.len() ==> #[trigger] begins_next(nodes, k)
}

/// The datagrams of a node that begins with both counters at zero, as a new
/// node does, are numbered in turn: the one `k`, from nought, goes under the
/// sequence `k` modulo 256 and the tag `k` modulo 65536.
pub proof fn datagrams_are_numbered_in_turn<R: Radio>(nodes: Seq<TransportModel<R>>, k: int)
    requires
        begin_in_turn(nodes),
        0 <= k < nodes.len(),
        nodes[0].sequence == 0,
        nodes[0].tag == 0,
    ensures
        nodes[k].sequence == k % 256,
        nodes[k].tag == k % 65536,
    decreases k,
{
    if k > 0 {
        datagrams_are_numbered_in_turn(nodes, k - 1);
        assert(begins_next(nodes, k));
    }
}

/// What lies between two datagrams of a node, modulo the counters.
proof fn lemma_counters_between<R: Radio>(nodes: Seq<TransportModel<R>>, j: int, k: int)
    requires
        begin_in_turn(nodes),
        0 <= j <= k < nodes.len(),
    ensures
        nodes[k].sequence == (nodes[j].sequence + (k - j)) % 256,
        nodes[k].tag == (nodes[j].tag + (k - j)) % 65536,
    decreases k - j,
{
    if j < k {
        lemma_counters_between(nodes, j, k - 1);
        assert(begins_next(nodes, k));
    }
}

/// Any two of 65536 datagrams that a node sends one after another go under
/// different tags, wherever its counters were; and the first frames of any
/// two of 256 go under different sequences.
pub proof fn datagrams_are_told_apart<R: Radio>(nodes: Seq<TransportModel<R>>, j: int, k: int)
    requires
        begin_in_turn(nodes),
        0 <= j < k < nodes.len(),
    ensures
        k - j < 65536 ==> nodes[j].tag != nodes[k].tag,
        k - j < 256 ==> nodes[j].sequence != nodes[k].sequence,
{
    lemma_counters_between(nodes, j, k);
}

/// Every datagram handed to a node moves its counters on once, whether it is
/// sent or refused.
pub proof fn every_datagram_moves_the_counters_on<R: Radio>(
    before: TransportModel<R>,
    to: EndpointModel,
    bytes: Seq<u8>,
    after: TransportModel<R>,
    outcome: Result<(), Error>,
)
    requires
        datagram_sent(before, to, bytes, after, outcome),
    ensures
        begin_in_turn(seq![before, after]),
{
}

} // verus!
