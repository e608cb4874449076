//! The radio, as one node hears and speaks on it, and the receiving node
//! in-process.
use std::collections::VecDeque;

use vstd::prelude::*;

use crate::datagram::{read_datagram, Datagram, DatagramModel};
use crate::error::Error;
use crate::fragment::{nothing_under_way, taken, Reassembly, ReassemblyModel};
use crate::frame::{read_frame, read_lowpan, Frame, Lowpan};

verus! {

/// How long to wait: seconds, and nanoseconds besides.
#[derive(Clone, Copy, Debug, PartialEq, Eq)]
pub struct Timeout {
    pub secs: u64,
    pub nanos: u32,
}

/// Where frames go and come from: the air, as one node hears it.
///
/// What a call may do is the radio's own to say, by `called`, `transmitted`
/// and `received`; one that says nothing of a call may do anything in it.
pub trait Radio: Sized {
    /// Whether the radio goes by `name`.
    open spec fn called(&self, name: Seq<char>) -> bool {
        true
    }

    /// Whether the radio may be `after` and answer `outcome` once it was
    /// `before` and was given `frame` to put on the air.
    open spec fn transmitted(
        before: Self,
        frame: Seq<u8>,
        after: Self,
        outcome: Result<(), Error>,
    ) -> bool {
        true
    }

    /// Whether the radio may be `after` and answer `outcome` once it was
    /// `before` and was asked for a frame within `timeout`.
    open spec fn received(
        before: Self,
        timeout: Timeout,
        after: Self,
        outcome: Result<Option<Vec<u8>>, Error>,
    ) -> bool {
        true
    }

    /// The radio's name, for the origin URI.
    fn name(&self) -> (name: &str)
        ensures
            self.called(name@),
    ;

    /// Put a frame on the air; an error where the radio refused it.
    fn transmit(&mut self, frame: &[u8]) -> (outcome: Result<(), Error>)
        ensures
            Self::transmitted(*old(self), frame@, *final(self), outcome),
    ;

    /// The next frame, or `None` when nothing arrived within `timeout`; an
    /// error where the radio could not be read.
    fn receive(&mut self, timeout: Timeout) -> (outcome: Result<Option<Vec<u8>>, Error>)
        ensures
            Self::received(*old(self), timeout, *final(self), outcome),
    ;
}

/// Whether a radio that was `before` may be `after` and have answered
/// `outcome` once it was given each of `frames` in turn, up to the first it
/// refused.
pub open spec fn all_transmitted<R: Radio>(
    before: R,
    frames: Seq<Seq<u8>>,
    after: R,
    outcome: Result<(), Error>,
) -> bool
    decreases frames.len(),
{
    if frames.len() == 0 {
        after == before && outcome == Ok::<(), Error>(())
    } else {
        exists|between: R, answer: Result<(), Error>| #[trigger]
            R::transmitted(before, frames[0], between, answer) && match answer {
                Ok(_) => all_transmitted(between, frames.drop_first(), after, outcome),
                Err(error) => after == between && outcome == Err::<(), Error>(error),
            }
    }
}

/// What comes of one frame's bytes at a node: what is then under way, and
/// the datagram when the frame completes it.
pub open spec fn frame_taken(under_way: ReassemblyModel, bytes: Seq<u8>) -> (
    ReassemblyModel,
    Result<Option<DatagramModel>, Error>,
) {
    match read_frame(bytes) {
        Err(error) => (under_way, Err(error)),
        Ok(frame) => match read_lowpan(frame.payload) {
            Err(error) => (under_way, Err(error)),
            Ok(lowpan) => {
                let (then, whole) = taken(under_way, lowpan);
                match whole {
                    Err(error) => (then, Err(error)),
                    Ok(None) => (then, Ok(None)),
                    Ok(Some(datagram)) => match read_datagram(datagram) {
                        Err(error) => (then, Err(error)),
                        Ok(datagram) => (then, Ok(Some(datagram))),
                    },
                }
            },
        },
    }
}

/// One frame's bytes at a node; the datagram when the frame completes it.
pub fn take_frame(reassembly: &mut Reassembly, bytes: &[u8]) -> (datagram: Result<
    Option<Datagram>,
    Error,
>)
    ensures
        final(reassembly)@ == frame_taken(old(reassembly)@, bytes@).0,
        match frame_taken(old(reassembly)@, bytes@).1 {
            Ok(Some(model)) => datagram matches Ok(Some(d)) && d@ == model,
            Ok(None) => datagram matches Ok(None),
            Err(error) => datagram == Err::<Option<Datagram>, Error>(error),
        },
{
    let frame = match Frame::decode(bytes) {
        Ok(frame) => frame,
        Err(error) => return Err(error),
    };
    let lowpan = match Lowpan::decode(frame.payload.as_slice()) {
        Ok(lowpan) => lowpan,
        Err(error) => return Err(error),
    };
    match reassembly.take(lowpan) {
        Ok(Some(whole)) => match Datagram::decode(whole.as_slice()) {
            Ok(datagram) => Ok(Some(datagram)),
            Err(error) => Err(error),
        },
        Ok(None) => Ok(None),
        Err(error) => Err(error),
    }
}

/// What the receiving node holds.
pub struct LoopbackModel {
    /// The datagram on its way back together.
    pub under_way: ReassemblyModel,
    /// The datagrams taken whole, the first to come first.
    pub arrived: Seq<DatagramModel>,
}

/// What each of `datagrams` says.
pub open spec fn datagram_models(datagrams: Seq<Datagram>) -> Seq<DatagramModel> {
    datagrams.map_values(|datagram: Datagram| datagram@)
}

/// What comes of one frame at the receiving node.
pub open spec fn looped(node: LoopbackModel, frame: Seq<u8>) -> (
    LoopbackModel,
    Result<(), Error>,
) {
    let (under_way, outcome) = frame_taken(node.under_way, frame);
    match outcome {
        Ok(Some(datagram)) => (
            LoopbackModel { under_way, arrived: node.arrived.push(datagram) },
            Ok(()),
        ),
        Ok(None) => (LoopbackModel { under_way, arrived: node.arrived }, Ok(())),
        Err(error) => (LoopbackModel { under_way, arrived: node.arrived }, Err(error)),
    }
}

/// What comes of `frames` at the receiving node, one after another up to the
/// first it refuses.
pub open spec fn all_looped(node: LoopbackModel, frames: Seq<Seq<u8>>) -> (
    LoopbackModel,
    Result<(), Error>,
)
    decreases frames.len(),
{
    if frames.len() == 0 {
        (node, Ok(()))
    } else {
        let (then, outcome) = looped(node, frames[0]);
        match outcome {
            Ok(_) => all_looped(then, frames.drop_first()),
            Err(error) => (then, Err(error)),
        }
    }
}

/// The receiving node in-process: what the sender transmits, the node puts
/// back together, and the datagram is held until taken.
pub struct LoopbackRadio {
    reassembly: Reassembly,
    arrived: VecDeque<Datagram>,
}

impl View for LoopbackRadio {
    type V = LoopbackModel;

    closed spec fn view(&self) -> LoopbackModel {
        LoopbackModel {
            under_way: self.reassembly@,
            arrived: datagram_models(self.arrived@),
        }
    }
}

impl LoopbackRadio {
    /// A node with nothing under way and nothing held.
    #[must_use]
    pub fn new() -> (radio: Self)
        ensures
            radio@ == (LoopbackModel { under_way: nothing_under_way(), arrived: Seq::empty() }),
    {
        let radio = LoopbackRadio { reassembly: Reassembly::default(), arrived: VecDeque::new() };
        assert(radio@.arrived =~= Seq::empty());
        radio
    }

    /// The next datagram the node took whole.
    #[must_use]
    pub fn take(&mut self) -> (datagram: Option<Datagram>)
        ensures
            match datagram {
                Some(d) => {
                    &&& old(self)@.arrived.len() > 0
                    &&& d@ == old(self)@.arrived[0]
                    &&& final(self)@ == (LoopbackModel {
                        under_way: old(self)@.under_way,
                        arrived: old(self)@.arrived.skip(1),
                    })
                },
                None => old(self)@.arrived.len() == 0 && final(self)@ == old(self)@,
            },
    {
        let datagram = self.arrived.pop_front();
        if datagram.is_some() {
            assert(self@.arrived =~= old(self)@.arrived.skip(1));
        }
        datagram
    }
}

impl Default for LoopbackRadio {
    /// A node with nothing under way and nothing held.
    fn default() -> (radio: Self)
        ensures
            radio@ == (LoopbackModel { under_way: nothing_under_way(), arrived: Seq::empty() }),
    {
        LoopbackRadio::new()
    }
}

impl Radio for LoopbackRadio {
    open spec fn called(&self, name: Seq<char>) -> bool {
        name == "loopback"@
    }

    open spec fn transmitted(
        before: Self,
        frame: Seq<u8>,
        after: Self,
        outcome: Result<(), Error>,
    ) -> bool {
        (after@, outcome) == looped(before@, frame)
    }

    open spec fn received(
        before: Self,
        timeout: Timeout,
        after: Self,
        outcome: Result<Option<Vec<u8>>, Error>,
    ) -> bool {
        after == before && outcome == Ok::<Option<Vec<u8>>, Error>(None)
    }

    fn name(&self) -> (name: &str) {
        "loopback"
    }

    fn transmit(&mut self, frame: &[u8]) -> (outcome: Result<(), Error>) {
        match take_frame(&mut self.reassembly, frame) {
            Ok(Some(datagram)) => {
                self.arrived.push_back(datagram);
                assert(self@.arrived =~= old(self)@.arrived.push(datagram@));
                Ok(())
            },
            Ok(None) => Ok(()),
            Err(error) => Err(error),
        }
    }

    /// A node on this radio only sends; nothing comes back down.
    fn receive(&mut self, _timeout: Timeout) -> (outcome: Result<Option<Vec<u8>>, Error>) {
        Ok(None)
    }
}

} // verus!
