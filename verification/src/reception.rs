//! A datagram on its way in: what the radio answers, frame by frame, and the
//! Stream that arrives.
use vstd::prelude::*;
use vstd::string::StringExecFns;

use crate::address::{address_text, Address};
use crate::datagram::Reassembly;
use crate::error::Error;
use crate::fragment::{nothing_under_way, ReassemblyModel};
use crate::radio::{frame_taken, take_frame};
use crate::text::{decimal, push_decimal};

verus! {

/// A Stream that arrived: where it came from, and its bytes.
#[derive(Clone, Debug, PartialEq, Eq)]
pub struct Arrived {
    pub origin_uri: String,
    pub bytes: Vec<u8>,
}

/// What arrived: where it came from, and its bytes.
pub struct ArrivedModel {
    pub origin_uri: Seq<char>,
    pub bytes: Seq<u8>,
}

impl View for Arrived {
    type V = ArrivedModel;

    open spec fn view(&self) -> ArrivedModel {
        ArrivedModel { origin_uri: self.origin_uri@, bytes: self.bytes@ }
    }
}

/// `thread://<radio>/[<address>]:<port>`.
pub open spec fn origin_text(radio: Seq<char>, octets: Seq<u8>, port: u16) -> Seq<char> {
    "thread://"@ + radio + "/["@ + address_text(octets) + "]:"@ + decimal(port as nat)
}

/// `thread://<radio>/[<address>]:<port>`.
pub fn origin_of(radio: &str, address: &Address, port: u16) -> (origin: String)
    ensures
        origin@ == origin_text(radio@, address@, port),
{
    let mut origin = String::from_str("thread://");
    origin.append(radio);
    origin.append("/[");
    let text = address.text();
    origin.append(text.as_str());
    origin.append("]:");
    push_decimal(&mut origin, port as usize);
    origin
}

/// What has come of a reception so far.
pub enum HeardModel {
    /// Part of a datagram: there is more to come.
    More,
    /// Nothing is on the air.
    Quiet,
    /// A whole datagram.
    Whole(ArrivedModel),
}

/// What has come of a reception so far.
#[derive(Clone, Debug, PartialEq, Eq)]
pub enum Heard {
    /// Part of a datagram: there is more to come.
    More,
    /// Nothing is on the air.
    Quiet,
    /// A whole datagram.
    Whole(Arrived),
}

impl View for Heard {
    type V = HeardModel;

    open spec fn view(&self) -> HeardModel {
        match *self {
            Heard::More => HeardModel::More,
            Heard::Quiet => HeardModel::Quiet,
            Heard::Whole(arrived) => HeardModel::Whole(arrived@),
        }
    }
}

/// A reception under way.
pub struct ReceptionModel {
    /// Whether a frame has come.
    pub begun: bool,
    /// The datagram on its way back together.
    pub under_way: ReassemblyModel,
}

/// With nothing received yet.
pub open spec fn nothing_heard() -> ReceptionModel {
    ReceptionModel { begun: false, under_way: nothing_under_way() }
}

/// One datagram being received.
pub struct Reception {
    begun: bool,
    reassembly: Reassembly,
}

impl View for Reception {
    type V = ReceptionModel;

    closed spec fn view(&self) -> ReceptionModel {
        ReceptionModel { begun: self.begun, under_way: self.reassembly@ }
    }
}

/// What a radio answered, byte for byte.
pub open spec fn answered(answer: Result<Option<Vec<u8>>, Error>) -> Result<
    Option<Seq<u8>>,
    Error,
> {
    match answer {
        Ok(Some(bytes)) => Ok(Some(bytes@)),
        Ok(None) => Ok(None),
        Err(error) => Err(error),
    }
}

/// What comes of one answer of a radio that goes by `name` to a node that
/// listens on `port`.
pub open spec fn heard(
    reception: ReceptionModel,
    answer: Result<Option<Seq<u8>>, Error>,
    port: u16,
    name: Seq<char>,
) -> (ReceptionModel, Result<HeardModel, Error>) {
    match answer {
        Err(error) => (reception, Err(error)),
        Ok(None) => if reception.begun {
            (reception, Err(Error::FragmentsStopped))
        } else {
            (reception, Ok(HeardModel::Quiet))
        },
        Ok(Some(bytes)) => {
            let (under_way, outcome) = frame_taken(reception.under_way, bytes);
            let then = ReceptionModel { begun: true, under_way };
            match outcome {
                Err(error) => (then, Err(error)),
                Ok(None) => (then, Ok(HeardModel::More)),
                Ok(Some(datagram)) => if datagram.destination_port != port {
                    (then, Err(Error::OtherPort))
                } else {
                    (
                        then,
                        Ok(
                            HeardModel::Whole(
                                ArrivedModel {
                                    origin_uri: origin_text(
                                        name,
                                        datagram.source,
                                        datagram.source_port,
                                    ),
                                    bytes: datagram.payload,
                                },
                            ),
                        ),
                    )
                },
            }
        },
    }
}

/// A reception once every one of `frames` has come in turn.
pub open spec fn all_heard(
    reception: ReceptionModel,
    frames: Seq<Seq<u8>>,
    port: u16,
    name: Seq<char>,
) -> ReceptionModel
    decreases frames.len(),
{
    if frames.len() == 0 {
        reception
    } else {
        let before = all_heard(reception, frames.drop_last(), port, name);
        heard(before, Ok(Some(frames.last())), port, name).0
    }
}

/// What came of the frame `index` of `frames`, heard in turn.
pub open spec fn heard_of(
    reception: ReceptionModel,
    frames: Seq<Seq<u8>>,
    index: int,
    port: u16,
    name: Seq<char>,
) -> Result<HeardModel, Error> {
    let before = all_heard(reception, frames.take(index), port, name);
    heard(before, Ok(Some(frames[index])), port, name).1
}

/// What `said` says, byte for byte.
pub open spec fn said_of(said: Result<Heard, Error>) -> Result<HeardModel, Error> {
    match said {
        Ok(heard) => Ok(heard@),
        Err(error) => Err(error),
    }
}

/// Whether `after` and `result` are what comes of `answer`.
pub open spec fn told(
    before: ReceptionModel,
    answer: Result<Option<Seq<u8>>, Error>,
    port: u16,
    name: Seq<char>,
    after: ReceptionModel,
    result: Result<Heard, Error>,
) -> bool {
    (after, said_of(result)) == heard(before, answer, port, name)
}

impl Reception {
    /// With nothing received yet.
    #[must_use]
    pub fn new() -> (reception: Self)
        ensures
            reception@ == nothing_heard(),
    {
        Reception { begun: false, reassembly: Reassembly::default() }
    }

    /// What comes of one answer of a radio that goes by `name` to a node that
    /// listens on `port`. Nothing on the air is not an error, unless part of
    /// a datagram has come.
    pub fn hear(
        &mut self,
        answer: Result<Option<Vec<u8>>, Error>,
        port: u16,
        name: &str,
    ) -> (result: Result<Heard, Error>)
        ensures
            told(old(self)@, answered(answer), port, name@, final(self)@, result),
    {
        let bytes = match answer {
            Err(error) => return Err(error),
            Ok(None) => if self.begun {
                return Err(Error::FragmentsStopped);
            } else {
                return Ok(Heard::Quiet);
            },
            Ok(Some(bytes)) => bytes,
        };
        self.begun = true;
        match take_frame(&mut self.reassembly, bytes.as_slice()) {
            Err(error) => Err(error),
            Ok(None) => Ok(Heard::More),
            Ok(Some(datagram)) => {
                if datagram.destination_port != port {
                    return Err(Error::OtherPort);
                }
                let origin_uri = origin_of(name, &datagram.source, datagram.source_port);
                Ok(Heard::Whole(Arrived { origin_uri, bytes: datagram.payload }))
            },
        }
    }
}

} // verus!
