//! What one payload, one frame or one answer of a radio does to a node that
//! takes it.
use vstd::prelude::*;

use crate::datagram::{read_datagram, Datagram, DatagramModel};
use crate::error::Error;
use crate::fragment::{
    assembled, complete, models, nothing_under_way, overlaid, placed, taken, ReassemblyModel,
};
use crate::frame::{read_frame, read_lowpan, Lowpan, LowpanModel};
use crate::radio::{datagram_models, frame_taken, looped, LoopbackModel, Radio, Timeout};
use crate::reception::{
    answered, heard, nothing_heard, origin_text, said_of, Heard, HeardModel, ReceptionModel,
};
use crate::sending::byte_strings;
use crate::transport::{asked, listened};

verus! {

/// Whether `then` and `outcome` are what is owed when the bytes `piece` come
/// at the place `at` of what is under way: refused past the end; else put in
/// their places and counted; refused then where more has come than there is
/// room for; and the datagram given where as much has come and nowhere a byte
/// is missing.
pub open spec fn goes_in(
    under_way: ReassemblyModel,
    at: nat,
    piece: Seq<u8>,
    then: ReassemblyModel,
    outcome: Result<Option<Seq<u8>>, Error>,
) -> bool {
    let size = under_way.bytes.len();
    let count = under_way.filled + piece.len();
    let byte = |p: int|
        if at <= p < at + piece.len() {
            Some(piece[p - at])
        } else {
            under_way.bytes[p]
        };
    if at + piece.len() > size {
        then == under_way && outcome == Err::<Option<Seq<u8>>, Error>(Error::PastSize)
    } else {
        &&& then.filled == count
        &&& if count == size && forall|p: int| 0 <= p < size ==> #[trigger] byte(p) is Some {
            &&& then.tag is None
            &&& then.bytes.len() == 0
            &&& outcome matches Ok(Some(whole)) && whole.len() == size && forall|p: int|
                0 <= p < size ==> #[trigger] byte(p) == Some(whole[p])
        } else {
            &&& then.tag == under_way.tag
            &&& then.bytes.len() == size
            &&& forall|p: int| 0 <= p < size ==> then.bytes[p] == #[trigger] byte(p)
            &&& outcome == if count > size {
                Err::<Option<Seq<u8>>, Error>(Error::MoreThanSize)
            } else {
                Ok(None)
            }
        }
    }
}

/// What comes of one 6LoWPAN payload: a whole datagram is given as it is and
/// touches nothing; a first fragment begins a datagram of its size under its
/// tag, whatever was under way, and its bytes go in at the start; a later one
/// goes in at eight times its offset, under the tag under way alone.
pub proof fn payload_goes_where_it_belongs(under_way: ReassemblyModel, lowpan: LowpanModel)
    ensures
        match lowpan {
            LowpanModel::Ipv6(bytes) => {
                &&& taken(under_way, lowpan).0 == under_way
                &&& taken(under_way, lowpan).1 == Ok::<Option<Seq<u8>>, Error>(Some(bytes))
            },
            LowpanModel::Frag1 { size, tag, bytes } => forall|begun: ReassemblyModel|
                begun.tag == Some(tag) && begun.bytes.len() == size && begun.filled == 0 && (
                forall|p: int| 0 <= p < size ==> #[trigger] begun.bytes[p] is None) && bytes.len()
                    <= usize::MAX ==> #[trigger] goes_in(
                    begun,
                    0,
                    bytes,
                    taken(under_way, lowpan).0,
                    taken(under_way, lowpan).1,
                ),
            LowpanModel::FragN { size: _, tag, offset, bytes } => if under_way.tag == Some(tag) {
                under_way.filled + bytes.len() <= usize::MAX ==> goes_in(
                    under_way,
                    (offset * 8) as nat,
                    bytes,
                    taken(under_way, lowpan).0,
                    taken(under_way, lowpan).1,
                )
            } else {
                &&& taken(under_way, lowpan).0 == under_way
                &&& taken(under_way, lowpan).1 == Err::<Option<Seq<u8>>, Error>(
                    Error::NotStarted,
                )
            },
        },
{
    match lowpan {
        LowpanModel::Ipv6(_) => {},
        LowpanModel::Frag1 { size, tag, bytes } => {
            assert forall|begun: ReassemblyModel|
                begun.tag == Some(tag) && begun.bytes.len() == size && begun.filled == 0 && (
                forall|p: int| 0 <= p < size ==> #[trigger] begun.bytes[p] is None) && bytes.len()
                    <= usize::MAX implies #[trigger] goes_in(
                begun,
                0,
                bytes,
                taken(under_way, lowpan).0,
                taken(under_way, lowpan).1,
            ) by {
                assert(begun.bytes =~= Seq::new(size as nat, |p: int| None));
                lemma_goes_in(begun, 0, bytes);
            }
        },
        LowpanModel::FragN { size: _, tag, offset, bytes } => {
            if under_way.tag == Some(tag) && under_way.filled + bytes.len() <= usize::MAX {
                lemma_goes_in(under_way, (offset * 8) as nat, bytes);
            }
        },
    }
}

/// What is placed goes in.
proof fn lemma_goes_in(under_way: ReassemblyModel, at: nat, piece: Seq<u8>)
    requires
        under_way.filled + piece.len() <= usize::MAX,
    ensures
        goes_in(
            under_way,
            at,
            piece,
            placed(under_way, at, piece).0,
            placed(under_way, at, piece).1,
        ),
{
    let size = under_way.bytes.len();
    let byte = |p: int|
        if at <= p < at + piece.len() {
            Some(piece[p - at])
        } else {
            under_way.bytes[p]
        };
    let bytes = overlaid(under_way.bytes, at as int, piece);
    if at + piece.len() <= size {
        assert forall|p: int| 0 <= p < size implies bytes[p] == #[trigger] byte(p) by {}
        if complete(bytes) {
            assert forall|p: int| 0 <= p < size implies #[trigger] byte(p) is Some by {
                assert(bytes[p] is Some);
            }
            assert forall|p: int| 0 <= p < size implies #[trigger] byte(p) == Some(
                assembled(bytes)[p],
            ) by {
                assert(bytes[p] is Some);
            }
        } else {
            let p = choose|p: int| 0 <= p < bytes.len() && !(bytes[p] is Some);
            assert(!(byte(p) is Some));
        }
    }
}

/// With nothing under way every later fragment is refused, and nothing has
/// been heard.
pub proof fn nothing_comes_before_a_first(lowpan: LowpanModel)
    requires
        lowpan is FragN,
    ensures
        taken(nothing_under_way(), lowpan) == (
            nothing_under_way(),
            Err::<Option<Seq<u8>>, Error>(Error::NotStarted),
        ),
        nothing_heard().under_way == nothing_under_way(),
        !nothing_heard().begun,
{
}

/// A frame that does not read, or whose payload does not, is refused for that
/// and changes nothing; of any other, what its payload gives is read as a
/// datagram once there is one.
pub proof fn frame_is_taken_for_its_payload(under_way: ReassemblyModel, bytes: Seq<u8>)
    ensures
        read_frame(bytes) matches Err(error) ==> frame_taken(under_way, bytes) == (
            under_way,
            Err::<Option<DatagramModel>, Error>(error),
        ),
        read_frame(bytes) matches Ok(frame) ==> (read_lowpan(frame.payload) matches Err(error)
            ==> frame_taken(under_way, bytes) == (
            under_way,
            Err::<Option<DatagramModel>, Error>(error),
        )),
        read_frame(bytes) matches Ok(frame) ==> (read_lowpan(frame.payload) matches Ok(lowpan)
            ==> {
            &&& frame_taken(under_way, bytes).0 == taken(under_way, lowpan).0
            &&& taken(under_way, lowpan).1 matches Err(error) ==> frame_taken(under_way, bytes).1
                == Err::<Option<DatagramModel>, Error>(error)
            &&& taken(under_way, lowpan).1 matches Ok(None) ==> frame_taken(under_way, bytes).1
                == Ok::<Option<DatagramModel>, Error>(None)
            &&& taken(under_way, lowpan).1 matches Ok(Some(whole)) ==> (read_datagram(
                whole,
            ) matches Err(error) ==> frame_taken(under_way, bytes).1 == Err::<
                Option<DatagramModel>,
                Error,
            >(error))
            &&& taken(under_way, lowpan).1 matches Ok(Some(whole)) ==> (read_datagram(
                whole,
            ) matches Ok(datagram) ==> frame_taken(under_way, bytes).1 == Ok::<
                Option<DatagramModel>,
                Error,
            >(Some(datagram)))
        }),
{
}

/// The receiving node in-process holds one datagram more, the last, where a
/// frame completes one, and the same as before where none does; it answers
/// with the error exactly where the frame is refused.
pub proof fn loopback_holds_what_comes_together(node: LoopbackModel, frame: Seq<u8>)
    ensures
        looped(node, frame).0.under_way == frame_taken(node.under_way, frame).0,
        match frame_taken(node.under_way, frame).1 {
            Ok(Some(datagram)) => {
                &&& looped(node, frame).0.arrived.len() == node.arrived.len() + 1
                &&& looped(node, frame).0.arrived.drop_last() == node.arrived
                &&& looped(node, frame).0.arrived.last() == datagram
                &&& looped(node, frame).1 == Ok::<(), Error>(())
            },
            Ok(None) => {
                &&& looped(node, frame).0.arrived == node.arrived
                &&& looped(node, frame).1 == Ok::<(), Error>(())
            },
            Err(error) => {
                &&& looped(node, frame).0.arrived == node.arrived
                &&& looped(node, frame).1 == Err::<(), Error>(error)
            },
        },
{
    if let Ok(Some(datagram)) = frame_taken(node.under_way, frame).1 {
        assert(node.arrived.push(datagram).drop_last() =~= node.arrived);
    }
}

/// What a node makes of one answer of its radio: an error is passed on, and
/// silence is no error unless a frame has come; a frame is taken, and the
/// datagram it completes is handed over where it is for the node's port.
pub proof fn answer_is_heard_for_what_it_is(
    reception: ReceptionModel,
    answer: Result<Option<Seq<u8>>, Error>,
    port: u16,
    name: Seq<char>,
)
    ensures
        ({
            let (then, outcome) = heard(reception, answer, port, name);
            match answer {
                Err(error) => then == reception && outcome == Err::<HeardModel, Error>(error),
                Ok(None) => then == reception && outcome == if reception.begun {
                    Err::<HeardModel, Error>(Error::FragmentsStopped)
                } else {
                    Ok(HeardModel::Quiet)
                },
                Ok(Some(bytes)) => {
                    &&& then.begun
                    &&& then.under_way == frame_taken(reception.under_way, bytes).0
                    &&& match frame_taken(reception.under_way, bytes).1 {
                        Err(error) => outcome == Err::<HeardModel, Error>(error),
                        Ok(None) => outcome == Ok::<HeardModel, Error>(HeardModel::More),
                        Ok(Some(datagram)) => if datagram.destination_port == port {
                            outcome matches Ok(HeardModel::Whole(arrived)) && arrived.bytes
                                == datagram.payload && arrived.origin_uri
                                == origin_text(
                                name,
                                datagram.source,
                                datagram.source_port,
                            )
                        } else {
                            outcome == Err::<HeardModel, Error>(Error::OtherPort)
                        },
                    }
                },
            }
        }),
{
}

/// What a radio answered is taken byte for byte, and what a node said is read
/// as it was said.
pub proof fn answers_are_taken_as_they_are(
    answer: Result<Option<Vec<u8>>, Error>,
    said: Result<Heard, Error>,
)
    ensures
        answer matches Ok(Some(bytes)) ==> answered(answer) == Ok::<Option<Seq<u8>>, Error>(
            Some(bytes@),
        ),
        answer matches Ok(None) ==> answered(answer) == Ok::<Option<Seq<u8>>, Error>(None),
        answer matches Err(error) ==> answered(answer) == Err::<Option<Seq<u8>>, Error>(error),
        said matches Ok(Heard::More) ==> said_of(said) == Ok::<HeardModel, Error>(
            HeardModel::More,
        ),
        said matches Ok(Heard::Quiet) ==> said_of(said) == Ok::<HeardModel, Error>(
            HeardModel::Quiet,
        ),
        said matches Ok(Heard::Whole(arrived)) ==> (said_of(said) matches Ok(
            HeardModel::Whole(model),
        ) && model.origin_uri == arrived.origin_uri@ && model.bytes == arrived.bytes@),
        said matches Err(error) ==> said_of(said) == Err::<HeardModel, Error>(error),
{
}

/// Payloads, datagrams and frames in a row are each read for themselves, in
/// the same order.
pub proof fn rows_are_read_one_by_one(
    lowpans: Seq<Lowpan>,
    datagrams: Seq<Datagram>,
    frames: Seq<Vec<u8>>,
    i: int,
)
    ensures
        models(lowpans).len() == lowpans.len(),
        datagram_models(datagrams).len() == datagrams.len(),
        byte_strings(frames).len() == frames.len(),
        0 <= i < lowpans.len() ==> models(lowpans)[i] == lowpans[i]@,
        0 <= i < datagrams.len() ==> datagram_models(datagrams)[i] == datagrams[i]@,
        0 <= i < frames.len() ==> byte_strings(frames)[i] == frames[i]@,
{
}

/// One run of listening: the radios it goes through, what each answered and
/// is called, and what the reception is then.
pub struct Run<R> {
    pub radios: Seq<R>,
    pub answers: Seq<Result<Option<Vec<u8>>, Error>>,
    pub names: Seq<Seq<char>>,
    pub receptions: Seq<ReceptionModel>,
}

/// Whether `run` is a run of `count` answers in which the radio is asked
/// within `timeout` each time, each answer goes to the reception the one
/// before it left, and every answer but the last leaves more to come.
pub open spec fn runs<R: Radio>(run: Run<R>, timeout: Timeout, port: u16, count: nat) -> bool {
    &&& run.radios.len() == count + 1
    &&& run.receptions.len() == count + 1
    &&& run.answers.len() == count
    &&& run.names.len() == count
    &&& forall|i: int, next: int|
        #![trigger run.answers[i], run.radios[next]]
        0 <= i < count && next == i + 1 ==> {
            &&& R::received(run.radios[i], timeout, run.radios[next], run.answers[i])
            &&& run.radios[next].called(run.names[i])
            &&& run.receptions[next] == heard(
                run.receptions[i],
                answered(run.answers[i]),
                port,
                run.names[i],
            ).0
            &&& next < count ==> heard(
                run.receptions[i],
                answered(run.answers[i]),
                port,
                run.names[i],
            ).1 == Ok::<HeardModel, Error>(HeardModel::More)
        }
}

/// Listening is a run of answers, one after another from the first radio and
/// the reception it began with to the last of both; what it comes to is what
/// the last answer comes to, or, with none asked for, that there is more.
pub proof fn listening_is_a_run_of_answers<R: Radio>(
    before: R,
    timeout: Timeout,
    port: u16,
    reception: ReceptionModel,
    count: nat,
    after: R,
    then: ReceptionModel,
    outcome: Result<HeardModel, Error>,
) -> (run: Run<R>)
    requires
        listened(before, timeout, port, reception, count, after, then, outcome),
    ensures
        runs(run, timeout, port, count),
        run.radios[0] == before,
        run.radios[count as int] == after,
        run.receptions[0] == reception,
        run.receptions[count as int] == then,
        outcome == if count == 0 {
            Ok::<HeardModel, Error>(HeardModel::More)
        } else {
            let last = count - 1;
            heard(run.receptions[last], answered(run.answers[last]), port, run.names[last]).1
        },
    decreases count,
{
    if count == 0 {
        Run {
            radios: seq![before],
            answers: Seq::empty(),
            names: Seq::empty(),
            receptions: seq![reception],
        }
    } else {
        let (between, next, said) = choose|
            between: R,
            next: ReceptionModel,
            said: Result<HeardModel, Error>,
        |
            {
                &&& #[trigger] asked(before, timeout, port, reception, between, next, said)
                &&& if said == Ok::<HeardModel, Error>(HeardModel::More) {
                    listened(
                        between,
                        timeout,
                        port,
                        next,
                        (count - 1) as nat,
                        after,
                        then,
                        outcome,
                    )
                } else {
                    count == 1 && after == between && then == next && outcome == said
                }
            };
        let (answer, name) = choose|answer: Result<Option<Vec<u8>>, Error>, name: Seq<char>|
            {
                &&& #[trigger] R::received(before, timeout, between, answer)
                &&& #[trigger] between.called(name)
                &&& (next, said) == heard(reception, answered(answer), port, name)
            };
        let rest = if said == Ok::<HeardModel, Error>(HeardModel::More) {
            listening_is_a_run_of_answers(
                between,
                timeout,
                port,
                next,
                (count - 1) as nat,
                after,
                then,
                outcome,
            )
        } else {
            Run {
                radios: seq![between],
                answers: Seq::empty(),
                names: Seq::empty(),
                receptions: seq![next],
            }
        };
        let run = Run {
            radios: seq![before] + rest.radios,
            answers: seq![answer] + rest.answers,
            names: seq![name] + rest.names,
            receptions: seq![reception] + rest.receptions,
        };
        assert forall|i: int, k: int|
            #![trigger run.answers[i], run.radios[k]]
            0 <= i < count && k == i + 1 implies {
            &&& R::received(run.radios[i], timeout, run.radios[k], run.answers[i])
            &&& run.radios[k].called(run.names[i])
            &&& run.receptions[k] == heard(
                run.receptions[i],
                answered(run.answers[i]),
                port,
                run.names[i],
            ).0
            &&& k < count ==> heard(
                run.receptions[i],
                answered(run.answers[i]),
                port,
                run.names[i],
            ).1 == Ok::<HeardModel, Error>(HeardModel::More)
        } by {
            if i > 0 {
                assert(run.answers[i] == rest.answers[i - 1]);
                assert(run.radios[k] == rest.radios[i]);
                assert(run.radios[i] == rest.radios[i - 1]);
                assert(run.names[i] == rest.names[i - 1]);
                assert(run.receptions[i] == rest.receptions[i - 1]);
                assert(run.receptions[k] == rest.receptions[i]);
            } else {
                assert(run.radios[1] == rest.radios[0]);
                assert(run.receptions[1] == rest.receptions[0]);
            }
        }
        run
    }
}

} // verus!
