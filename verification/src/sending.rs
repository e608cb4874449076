//! A datagram on its way out: the frames that carry it, and the radio that
//! is given them.
use vstd::prelude::*;

use crate::address::short_address;
use crate::datagram::{datagram_bytes, fragments, Datagram, DatagramModel, MAX_UDP_PAYLOAD};
use crate::error::Error;
use crate::fragment::{fragmented, lemma_places, models};
use crate::frame::{frame_bytes, lowpan_bytes, Frame, FrameModel, Lowpan, MAX_PAYLOAD, PAN};
use crate::laws::fragments::fragments_fit_frames;
use crate::radio::{all_transmitted, Radio};

verus! {

/// The short address of the leader, who forwards what leaves the mesh.
pub const LEADER: u16 = 0x0000;

/// The node a frame for the address of these octets goes to: the node the
/// address names on the mesh, else the leader.
pub open spec fn next_hop(octets: Seq<u8>) -> u16 {
    match short_address(octets) {
        Some(rloc16) => rloc16,
        None => LEADER,
    }
}

/// The frame `index` of those that carry `datagram` from the node at
/// `rloc16`, the first of them under `sequence`.
pub open spec fn datagram_frame(
    datagram: DatagramModel,
    rloc16: u16,
    sequence: u8,
    tag: u16,
    index: int,
) -> FrameModel {
    FrameModel {
        sequence: ((sequence + index) % 256) as u8,
        pan: PAN,
        destination: next_hop(datagram.destination),
        source: rloc16,
        payload: lowpan_bytes(fragmented(datagram_bytes(datagram), tag)[index]),
    }
}

/// The frames that carry `datagram` from the node at `rloc16`, in the order
/// they are sent: their sequences follow one another from `sequence`, and
/// its fragments go under `tag`.
pub open spec fn datagram_frames(
    datagram: DatagramModel,
    rloc16: u16,
    sequence: u8,
    tag: u16,
) -> Seq<Seq<u8>> {
    Seq::new(
        fragmented(datagram_bytes(datagram), tag).len(),
        |index: int| frame_bytes(datagram_frame(datagram, rloc16, sequence, tag, index)),
    )
}

/// The bytes of each of `frames`.
pub open spec fn byte_strings(frames: Seq<Vec<u8>>) -> Seq<Seq<u8>> {
    frames.map_values(|frame: Vec<u8>| frame@)
}

/// The bytes of one frame that carries `lowpan`.
fn frame_of(lowpan: &Lowpan, sequence: u8, hop: u16, rloc16: u16) -> (bytes: Result<
    Vec<u8>,
    Error,
>)
    requires
        lowpan_bytes(lowpan@).len() <= MAX_PAYLOAD,
    ensures
        bytes matches Ok(b) && b@ == frame_bytes(
            FrameModel {
                sequence,
                pan: PAN,
                destination: hop,
                source: rloc16,
                payload: lowpan_bytes(lowpan@),
            },
        ),
{
    let payload = lowpan.encode();
    match Frame::new(sequence, hop, rloc16, payload.as_slice()) {
        Ok(frame) => Ok(frame.encode()),
        Err(error) => Err(error),
    }
}

/// The frames that carry `datagram` from the node at `rloc16`, in the order
/// they are sent.
#[verifier::spinoff_prover]
#[verifier::rlimit(40)]
pub fn frames_of(datagram: &Datagram, rloc16: u16, sequence: u8, tag: u16) -> (frames: Result<
    Vec<Vec<u8>>,
    Error,
>)
    ensures
        datagram.payload@.len() > MAX_UDP_PAYLOAD ==> frames == Err::<Vec<Vec<u8>>, Error>(
            Error::DatagramPayload(datagram.payload.len()),
        ),
        datagram.payload@.len() <= MAX_UDP_PAYLOAD ==> (frames matches Ok(f) && byte_strings(f@)
            == datagram_frames(datagram@, rloc16, sequence, tag)),
{
    let whole = match datagram.encode() {
        Ok(whole) => whole,
        Err(error) => return Err(error),
    };
    let lowpans = match fragments(whole.as_slice(), tag) {
        Ok(lowpans) => lowpans,
        Err(error) => return Err(error),
    };
    let hop: u16 = match datagram.destination.rloc16() {
        Some(short) => short,
        None => LEADER,
    };
    let ghost all = fragmented(whole@, tag);
    assert(models(lowpans@).len() == lowpans@.len());
    proof {
        lemma_places(0, whole@.len());
    }
    let ghost sent = datagram_frames(datagram@, rloc16, sequence, tag);
    let mut frames: Vec<Vec<u8>> = Vec::new();
    let mut at: usize = 0;
    while at < lowpans.len()
        invariant
            at <= lowpans@.len(),
            datagram.payload@.len() <= MAX_UDP_PAYLOAD,
            whole@ == datagram_bytes(datagram@),
            all == fragmented(whole@, tag),
            models(lowpans@) == all,
            lowpans@.len() == all.len(),
            all.len() <= 20,
            hop == next_hop(datagram@.destination),
            sent == datagram_frames(datagram@, rloc16, sequence, tag),
            byte_strings(frames@) =~= sent.take(at as int),
        decreases lowpans@.len() - at,
    {
        assert(lowpans@[at as int]@ == models(lowpans@)[at as int]);
        proof {
            fragments_fit_frames(whole@, tag, at as int);
        }
        let bytes = match frame_of(&lowpans[at], sequence.wrapping_add(at as u8), hop, rloc16) {
            Ok(bytes) => bytes,
            Err(error) => return Err(error),
        };
        assert(bytes@ == frame_bytes(
            datagram_frame(datagram@, rloc16, sequence, tag, at as int),
        ));
        let ghost before = byte_strings(frames@);
        frames.push(bytes);
        assert(byte_strings(frames@) =~= before.push(bytes@));
        at += 1;
    }
    assert(sent.take(at as int) =~= sent);
    Ok(frames)
}

/// Gives `radio` each of `frames` from `at` on in turn, up to the first it
/// refuses.
pub fn transmit_from<R: Radio>(radio: &mut R, frames: &Vec<Vec<u8>>, at: usize) -> (outcome: Result<
    (),
    Error,
>)
    requires
        at <= frames@.len(),
    ensures
        all_transmitted(
            *old(radio),
            byte_strings(frames@).skip(at as int),
            *final(radio),
            outcome,
        ),
    decreases frames@.len() - at,
{
    let ghost rest = byte_strings(frames@).skip(at as int);
    if at == frames.len() {
        return Ok(());
    }
    let answer = radio.transmit(frames[at].as_slice());
    assert(R::transmitted(*old(radio), rest[0], *radio, answer));
    match answer {
        Ok(_) => {
            assert(byte_strings(frames@).skip(at + 1) =~= rest.drop_first());
            transmit_from(radio, frames, at + 1)
        },
        Err(error) => Err(error),
    }
}

} // verus!
