//! How a datagram is cut into 6LoWPAN fragments and put back together by
//! tag.
use vstd::prelude::*;

use crate::bytes::part;
use crate::error::Error;
use crate::frame::{Lowpan, LowpanModel, MAX_DATAGRAM, MAX_PAYLOAD};

verus! {

/// What a first fragment carries: the frame less four of FRAG1 header and
/// the dispatch, rounded down to eight-byte units so the offsets that follow
/// are whole.
pub const FRAG1_BYTES: usize = (MAX_PAYLOAD - 5) / 8 * 8;

/// What a later fragment carries: the frame less five of FRAGN header.
pub const FRAGN_BYTES: usize = (MAX_PAYLOAD - 5) / 8 * 8;

/// What each of `lowpans` says.
pub open spec fn models(lowpans: Seq<Lowpan>) -> Seq<LowpanModel> {
    lowpans.map_values(|lowpan: Lowpan| lowpan@)
}

/// How many fragments follow the first of a datagram of `length` bytes.
pub open spec fn later_count(length: nat) -> nat {
    ((length - FRAG1_BYTES + FRAGN_BYTES - 1) / FRAGN_BYTES as int) as nat
}

/// Where the bytes of the later fragment `index` begin.
pub open spec fn later_start(index: int) -> int {
    FRAG1_BYTES + index * FRAGN_BYTES
}

/// Where the bytes of the later fragment `index` of a datagram of `length`
/// bytes end.
pub open spec fn later_end(index: int, length: nat) -> int {
    if later_start(index + 1) <= length {
        later_start(index + 1)
    } else {
        length as int
    }
}

/// The first fragment of `datagram` under `tag`.
pub open spec fn first_fragment(datagram: Seq<u8>, tag: u16) -> LowpanModel {
    LowpanModel::Frag1 {
        size: datagram.len() as u16,
        tag,
        bytes: datagram.take(FRAG1_BYTES as int),
    }
}

/// The later fragment `index` of `datagram` under `tag`.
pub open spec fn later_fragment(datagram: Seq<u8>, tag: u16, index: int) -> LowpanModel {
    LowpanModel::FragN {
        size: datagram.len() as u16,
        tag,
        offset: (later_start(index) / 8) as u8,
        bytes: datagram.subrange(later_start(index), later_end(index, datagram.len())),
    }
}

/// `datagram` as the 6LoWPAN payloads that carry it under `tag`: whole where
/// it fits, else a FRAG1 and the FRAGNs after it.
pub open spec fn fragmented(datagram: Seq<u8>, tag: u16) -> Seq<LowpanModel> {
    if datagram.len() < MAX_PAYLOAD {
        seq![LowpanModel::Ipv6(datagram)]
    } else {
        seq![first_fragment(datagram, tag)] + Seq::new(
            later_count(datagram.len()),
            |index: int| later_fragment(datagram, tag, index),
        )
    }
}

/// Every fragment but the last carries a hundred and four bytes.
pub proof fn lemma_places(index: int, length: nat)
    ensures
        later_start(index) == 104 + 104 * index,
        later_start(index + 1) == 208 + 104 * index,
        length >= FRAG1_BYTES ==> later_count(length) == (length - 1) / 104,
{
    assert(FRAGN_BYTES == 104);
    assert(index * FRAGN_BYTES == 104 * index) by (nonlinear_arith)
        requires
            FRAGN_BYTES == 104,
    ;
    assert((index + 1) * FRAGN_BYTES == 104 + 104 * index) by (nonlinear_arith)
        requires
            FRAGN_BYTES == 104,
    ;
}

/// `datagram` as the 6LoWPAN payloads that carry it under `tag`: whole
/// where it fits, else a FRAG1 and the FRAGNs after it.
pub fn fragments(datagram: &[u8], tag: u16) -> (lowpans: Result<Vec<Lowpan>, Error>)
    ensures
        datagram@.len() > MAX_DATAGRAM ==> lowpans == Err::<Vec<Lowpan>, Error>(
            Error::DatagramSize,
        ),
        datagram@.len() <= MAX_DATAGRAM ==> (lowpans matches Ok(l) && models(l@) == fragmented(
            datagram@,
            tag,
        )),
        MAX_PAYLOAD <= datagram@.len() <= MAX_DATAGRAM ==> (lowpans matches Ok(l) && forall|i: int|
            0 <= i < l@.len() ==> match #[trigger] l@[i] {
                Lowpan::Ipv6(_) => false,
                Lowpan::Frag1 { size, tag: own, bytes: _ } => size == datagram@.len() && own
                    == tag,
                Lowpan::FragN { size, tag: own, offset: _, bytes: _ } => size == datagram@.len()
                    && own == tag,
            }),
{
    if datagram.len() > MAX_DATAGRAM {
        return Err(Error::DatagramSize);
    }
    let mut out: Vec<Lowpan> = Vec::new();
    if datagram.len() < MAX_PAYLOAD {
        let bytes = part(datagram, 0, datagram.len());
        assert(bytes@ =~= datagram@);
        out.push(Lowpan::Ipv6(bytes));
        assert(models(out@) =~= fragmented(datagram@, tag));
        return Ok(out);
    }
    let size: u16 = datagram.len() as u16;
    let bytes = part(datagram, 0, FRAG1_BYTES);
    assert(bytes@ =~= datagram@.take(FRAG1_BYTES as int));
    out.push(Lowpan::Frag1 { size, tag, bytes });
    let ghost all = fragmented(datagram@, tag);
    assert(models(out@) =~= all.take(1));
    let mut at: usize = FRAG1_BYTES;
    let ghost mut index: int = 0;
    proof {
        lemma_places(0, datagram@.len());
    }
    while at < datagram.len()
        invariant
            MAX_PAYLOAD <= datagram@.len() <= MAX_DATAGRAM,
            size == datagram@.len(),
            all == fragmented(datagram@, tag),
            0 <= index <= later_count(datagram@.len()),
            at <= datagram@.len(),
            at < datagram@.len() ==> at == later_start(index),
            at == datagram@.len() ==> index == later_count(datagram@.len()),
            models(out@) == all.take(1 + index),
            forall|i: int|
                0 <= i < out@.len() ==> match #[trigger] out@[i] {
                    Lowpan::Ipv6(_) => false,
                    Lowpan::Frag1 { size: s, tag: own, bytes: _ } => s == size && own == tag,
                    Lowpan::FragN { size: s, tag: own, offset: _, bytes: _ } => s == size && own
                        == tag,
                },
        decreases datagram@.len() - at,
    {
        proof {
            lemma_places(index, datagram@.len());
        }
        let end: usize = if datagram.len() - at > FRAGN_BYTES {
            at + FRAGN_BYTES
        } else {
            datagram.len()
        };
        let bytes = part(datagram, at, end);
        let offset: u8 = (at / 8) as u8;
        let ghost before = out@;
        out.push(Lowpan::FragN { size, tag, offset, bytes });
        assert(models(out@) =~= models(before).push(later_fragment(datagram@, tag, index)));
        assert(all[1 + index] == later_fragment(datagram@, tag, index));
        assert(models(out@) =~= all.take(2 + index));
        proof {
            index = index + 1;
        }
        at = end;
    }
    assert(all.take(1 + index) =~= all);
    Ok(out)
}

/// A datagram on its way back together.
pub struct ReassemblyModel {
    /// The tag of the datagram under way, if one is.
    pub tag: Option<u16>,
    /// The datagram's bytes, `None` where none has come.
    pub bytes: Seq<Option<u8>>,
    /// How many bytes have come, those that came again counted again.
    pub filled: usize,
}

/// One datagram being put back together from its fragments.
#[derive(Debug)]
pub struct Reassembly {
    tag: Option<u16>,
    bytes: Vec<Option<u8>>,
    filled: usize,
}

impl View for Reassembly {
    type V = ReassemblyModel;

    closed spec fn view(&self) -> ReassemblyModel {
        ReassemblyModel { tag: self.tag, bytes: self.bytes@, filled: self.filled }
    }
}

/// With no datagram under way.
pub open spec fn nothing_under_way() -> ReassemblyModel {
    ReassemblyModel { tag: None, bytes: Seq::empty(), filled: 0 }
}

/// Bytes counted together; past the largest count there is no more counting.
pub open spec fn counted(filled: usize, more: nat) -> usize {
    if filled + more > usize::MAX {
        usize::MAX
    } else {
        (filled + more) as usize
    }
}

/// `bytes` with those of `piece` in place from `at`.
pub open spec fn overlaid(bytes: Seq<Option<u8>>, at: int, piece: Seq<u8>) -> Seq<Option<u8>> {
    Seq::new(
        bytes.len(),
        |p: int|
            if at <= p < at + piece.len() {
                Some(piece[p - at])
            } else {
                bytes[p]
            },
    )
}

/// Whether every one of `bytes` has come.
pub open spec fn complete(bytes: Seq<Option<u8>>) -> bool {
    forall|p: int| 0 <= p < bytes.len() ==> bytes[p] is Some
}

/// The datagram of `bytes` that have all come.
pub open spec fn assembled(bytes: Seq<Option<u8>>) -> Seq<u8> {
    Seq::new(bytes.len(), |p: int| bytes[p]->Some_0)
}

/// What comes of a fragment's bytes `piece` at `at`: the datagram once every
/// byte of it has come.
pub open spec fn placed(
    under_way: ReassemblyModel,
    at: nat,
    piece: Seq<u8>,
) -> (ReassemblyModel, Result<Option<Seq<u8>>, Error>) {
    let bytes = overlaid(under_way.bytes, at as int, piece);
    let filled = counted(under_way.filled, piece.len());
    if at + piece.len() > under_way.bytes.len() {
        (under_way, Err(Error::PastSize))
    } else if filled > bytes.len() {
        (ReassemblyModel { tag: under_way.tag, bytes, filled }, Err(Error::MoreThanSize))
    } else if filled == bytes.len() && complete(bytes) {
        (ReassemblyModel { tag: None, bytes: Seq::empty(), filled }, Ok(Some(assembled(bytes))))
    } else {
        (ReassemblyModel { tag: under_way.tag, bytes, filled }, Ok(None))
    }
}

/// What comes of one 6LoWPAN payload: what is then under way, and the
/// datagram when the payload completes it.
pub open spec fn taken(under_way: ReassemblyModel, lowpan: LowpanModel) -> (
    ReassemblyModel,
    Result<Option<Seq<u8>>, Error>,
) {
    match lowpan {
        LowpanModel::Ipv6(bytes) => (under_way, Ok(Some(bytes))),
        LowpanModel::Frag1 { size, tag, bytes } => placed(
            ReassemblyModel {
                tag: Some(tag),
                bytes: Seq::new(size as nat, |p: int| None),
                filled: 0,
            },
            0,
            bytes,
        ),
        LowpanModel::FragN { size: _, tag, offset, bytes } => if under_way.tag != Some(tag) {
            (under_way, Err(Error::NotStarted))
        } else {
            placed(under_way, offset as nat * 8, bytes)
        },
    }
}

/// What is under way once every one of `lowpans` has been taken in turn.
pub open spec fn all_taken(under_way: ReassemblyModel, lowpans: Seq<LowpanModel>) -> ReassemblyModel
    decreases lowpans.len(),
{
    if lowpans.len() == 0 {
        under_way
    } else {
        taken(all_taken(under_way, lowpans.drop_last()), lowpans.last()).0
    }
}

/// What came of the payload `index` of `lowpans`, taken in turn.
pub open spec fn outcome_of(
    under_way: ReassemblyModel,
    lowpans: Seq<LowpanModel>,
    index: int,
) -> Result<Option<Seq<u8>>, Error> {
    taken(all_taken(under_way, lowpans.take(index)), lowpans[index]).1
}

/// Whether `result` is the outcome `outcome`, byte for byte.
pub open spec fn gives(
    result: Result<Option<Vec<u8>>, Error>,
    outcome: Result<Option<Seq<u8>>, Error>,
) -> bool {
    match outcome {
        Ok(Some(bytes)) => result matches Ok(Some(b)) && b@ == bytes,
        Ok(None) => result matches Ok(None),
        Err(error) => result == Err::<Option<Vec<u8>>, Error>(error),
    }
}

/// The bytes of a datagram of `size`, none of which has come.
fn nothing_of(size: usize) -> (bytes: Vec<Option<u8>>)
    ensures
        bytes@ == Seq::new(size as nat, |p: int| None::<u8>),
{
    let mut bytes: Vec<Option<u8>> = Vec::new();
    while bytes.len() < size
        invariant
            bytes@.len() <= size,
            bytes@ =~= Seq::new(bytes@.len(), |p: int| None::<u8>),
        decreases size - bytes@.len(),
    {
        bytes.push(None);
    }
    bytes
}

/// The datagram of `bytes`, or `None` where one of them has not come.
fn assemble(bytes: &Vec<Option<u8>>) -> (whole: Option<Vec<u8>>)
    ensures
        match whole {
            Some(w) => complete(bytes@) && w@ == assembled(bytes@),
            None => !complete(bytes@),
        },
{
    let mut whole: Vec<u8> = Vec::new();
    while whole.len() < bytes.len()
        invariant
            whole@.len() <= bytes@.len(),
            complete(bytes@.take(whole@.len() as int)),
            whole@ =~= assembled(bytes@.take(whole@.len() as int)),
        decreases bytes@.len() - whole@.len(),
    {
        let ghost before = bytes@.take(whole@.len() as int);
        match bytes[whole.len()] {
            Some(byte) => {
                whole.push(byte);
                assert(bytes@.take(whole@.len() as int) =~= before.push(Some(byte)));
            },
            None => {
                assert(bytes@[whole@.len() as int] is None);
                return None;
            },
        }
    }
    assert(bytes@.take(whole@.len() as int) =~= bytes@);
    Some(whole)
}

impl Default for Reassembly {
    /// With no datagram under way.
    fn default() -> (reassembly: Self)
        ensures
            reassembly@ == nothing_under_way(),
    {
        let reassembly = Reassembly { tag: None, bytes: Vec::new(), filled: 0 };
        assert(reassembly@.bytes =~= Seq::empty());
        reassembly
    }
}

impl Reassembly {
    /// One 6LoWPAN payload; the datagram when this completes it: when every
    /// byte of it has come. A later fragment before a first or under another
    /// tag is refused, and so is one past the size, or with which more bytes
    /// have come than the size.
    pub fn take(&mut self, lowpan: Lowpan) -> (whole: Result<Option<Vec<u8>>, Error>)
        ensures
            final(self)@ == taken(old(self)@, lowpan@).0,
            gives(whole, taken(old(self)@, lowpan@).1),
    {
        match lowpan {
            Lowpan::Ipv6(bytes) => Ok(Some(bytes)),
            Lowpan::Frag1 { size, tag, bytes } => {
                self.tag = Some(tag);
                self.bytes = nothing_of(size as usize);
                self.filled = 0;
                self.place(0, bytes.as_slice())
            },
            Lowpan::FragN { size: _, tag, offset, bytes } => {
                if self.tag != Some(tag) {
                    return Err(Error::NotStarted);
                }
                self.place(offset as usize * 8, bytes.as_slice())
            },
        }
    }

    fn place(&mut self, at: usize, piece: &[u8]) -> (whole: Result<Option<Vec<u8>>, Error>)
        ensures
            final(self)@ == placed(old(self)@, at as nat, piece@).0,
            gives(whole, placed(old(self)@, at as nat, piece@).1),
    {
        if piece.len() > self.bytes.len() || at > self.bytes.len() - piece.len() {
            return Err(Error::PastSize);
        }
        let ghost under_way = self.bytes@;
        let mut next: usize = 0;
        while next < piece.len()
            invariant
                next <= piece@.len(),
                at + piece@.len() <= self.bytes.len() == under_way.len(),
                self.bytes@ =~= overlaid(under_way, at as int, piece@.take(next as int)),
                self.tag == old(self).tag,
                self.filled == old(self).filled,
            decreases piece@.len() - next,
        {
            self.bytes[at + next] = Some(piece[next]);
            next += 1;
        }
        assert(piece@.take(next as int) =~= piece@);
        self.filled = self.filled.saturating_add(piece.len());
        if self.filled > self.bytes.len() {
            return Err(Error::MoreThanSize);
        }
        if self.filled < self.bytes.len() {
            return Ok(None);
        }
        match assemble(&self.bytes) {
            Some(whole) => {
                self.tag = None;
                self.bytes = Vec::new();
                assert(self@.bytes =~= Seq::empty());
                Ok(Some(whole))
            },
            None => Ok(None),
        }
    }
}

} // verus!
