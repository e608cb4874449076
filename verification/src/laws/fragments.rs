//! Fragments: every one fits a frame, and in whatever order the later ones
//! come, the datagram comes back with the last of them.
use vstd::prelude::*;
use vstd::set_lib::{lemma_int_range, lemma_subset_equality, set_int_range};

use crate::datagram::{datagram_bytes, DatagramModel, MAX_UDP_PAYLOAD, MAX_UNFRAGMENTED};
use crate::error::Error;
use crate::fragment::{
    all_taken, assembled, first_fragment, fragmented, later_count, later_end, later_fragment, later_start,
    lemma_places, outcome_of, overlaid, placed, taken, ReassemblyModel,
};
use crate::frame::{lowpan_bytes, LowpanModel, MAX_DATAGRAM, MAX_PAYLOAD};
use crate::laws::frames::sized;

verus! {

/// Every payload that carries a datagram or a piece of one fits a frame, and
/// its header holds the size.
pub proof fn fragments_fit_frames(datagram: Seq<u8>, tag: u16, index: int)
    requires
        datagram.len() <= MAX_DATAGRAM,
        0 <= index < fragmented(datagram, tag).len(),
    ensures
        lowpan_bytes(fragmented(datagram, tag)[index]).len() <= MAX_PAYLOAD,
        sized(fragmented(datagram, tag)[index]),
{
    lemma_places(index - 1, datagram.len());
}

/// A datagram travels whole exactly where its payload is no more than fits
/// one frame.
pub proof fn short_datagram_travels_whole(datagram: DatagramModel, tag: u16)
    requires
        datagram.addressed(),
        datagram.payload.len() <= MAX_UDP_PAYLOAD,
    ensures
        datagram.payload.len() <= MAX_UNFRAGMENTED <==> fragmented(datagram_bytes(datagram), tag)
            == seq![LowpanModel::Ipv6(datagram_bytes(datagram))],
{
    let lowpans = fragmented(datagram_bytes(datagram), tag);
    if datagram.payload.len() > MAX_UNFRAGMENTED {
        assert(lowpans[0] is Frag1);
    }
}

/// Whether `order` names each of the first `count` numbers once.
pub open spec fn arranges(order: Seq<int>, count: nat) -> bool {
    &&& order.len() == count
    &&& order.no_duplicates()
    &&& forall|k: int| 0 <= k < order.len() ==> 0 <= #[trigger] order[k] < count
}

/// An arrangement leaves no number out.
proof fn lemma_arrangement_has_every(order: Seq<int>, count: nat, number: int)
    requires
        arranges(order, count),
        0 <= number < count,
    ensures
        order.contains(number),
{
    let named = order.to_set();
    order.unique_seq_to_set();
    lemma_int_range(0, count as int);
    assert(named.subset_of(set_int_range(0, count as int)));
    lemma_subset_equality(named, set_int_range(0, count as int));
    assert(named.contains(number));
}

/// The fragments of `datagram` under `tag`, the first of them first and the
/// later ones in `order`.
pub open spec fn arranged(datagram: Seq<u8>, tag: u16, order: Seq<int>) -> Seq<LowpanModel> {
    seq![first_fragment(datagram, tag)] + Seq::new(
        order.len(),
        |k: int| later_fragment(datagram, tag, order[k]),
    )
}

/// How far the last fragment of a datagram of `length` bytes falls short of
/// the others.
spec fn shortfall(length: nat) -> int {
    208 + 104 * (later_count(length) - 1) - length
}

/// What is under way once the first fragment and the first `count` later
/// ones of `order` have come.
spec fn under_way_after(
    under_way: ReassemblyModel,
    datagram: Seq<u8>,
    tag: u16,
    order: Seq<int>,
    count: int,
) -> bool {
    &&& under_way.tag == Some(tag)
    &&& under_way.bytes.len() == datagram.len()
    &&& under_way.filled == 104 + 104 * count - (if order.take(count).contains(
        later_count(datagram.len()) - 1,
    ) {
        shortfall(datagram.len())
    } else {
        0
    })
    &&& forall|p: int| 0 <= p < 104 ==> under_way.bytes[p] == Some(datagram[p])
    &&& forall|k: int, p: int|
        #![trigger order[k], under_way.bytes[p]]
        0 <= k < count && later_start(order[k]) <= p < later_end(order[k], datagram.len())
            ==> under_way.bytes[p] == Some(datagram[p])
}

/// The first fragment puts a datagram under way.
proof fn lemma_first_taken(
    under_way: ReassemblyModel,
    datagram: Seq<u8>,
    tag: u16,
    order: Seq<int>,
)
    requires
        MAX_PAYLOAD <= datagram.len() <= MAX_DATAGRAM,
    ensures
        taken(under_way, first_fragment(datagram, tag)).1 == Ok::<Option<Seq<u8>>, Error>(None),
        under_way_after(
            taken(under_way, first_fragment(datagram, tag)).0,
            datagram,
            tag,
            order,
            0,
        ),
{
    lemma_places(0, datagram.len());
}

/// One later fragment more: the datagram when it is the last to come.
proof fn lemma_later_taken(
    under_way: ReassemblyModel,
    datagram: Seq<u8>,
    tag: u16,
    order: Seq<int>,
    count: int,
)
    requires
        MAX_PAYLOAD <= datagram.len() <= MAX_DATAGRAM,
        arranges(order, later_count(datagram.len())),
        0 <= count < order.len(),
        under_way_after(under_way, datagram, tag, order, count),
    ensures
        count < order.len() - 1 ==> {
            &&& taken(under_way, later_fragment(datagram, tag, order[count])).1 == Ok::<
                Option<Seq<u8>>,
                Error,
            >(None)
            &&& under_way_after(
                taken(under_way, later_fragment(datagram, tag, order[count])).0,
                datagram,
                tag,
                order,
                count + 1,
            )
        },
        count == order.len() - 1 ==> taken(
            under_way,
            later_fragment(datagram, tag, order[count]),
        ).1 == Ok::<Option<Seq<u8>>, Error>(Some(datagram)),
{
    let length = datagram.len();
    let before = order.take(count);
    let index = order[count];
    let last = later_count(length) - 1;
    lemma_places(index, length);
    lemma_places(last, length);
    let start = later_start(index);
    let end = later_end(index, length);
    let piece = datagram.subrange(start, end);
    let offset = (start / 8) as u8;
    assert(offset as nat * 8 == start);
    assert(order.take(count + 1) =~= order.take(count).push(index));
    if order.take(count).contains(index) {
        let k = choose|k: int| 0 <= k < before.len() && before[k] == index;
        assert(order[k] == order[count]);
    }
    assert(order.take(count + 1).contains(last) <==> (order.take(count).contains(last) || index
        == last)) by {
        if order.take(count).contains(last) {
            let k = choose|k: int| 0 <= k < before.len() && before[k] == last;
            assert(order.take(count + 1)[k] == last);
        }
        if index == last {
            assert(order.take(count + 1)[count] == last);
        }
        if order.take(count + 1).contains(last) && index != last {
            let more = order.take(count + 1);
            let k = choose|k: int| 0 <= k < more.len() && more[k] == last;
            assert(order.take(count)[k] == last);
        }
    }
    let bytes = overlaid(under_way.bytes, start, piece);
    assert forall|p: int| 0 <= p < 104 implies bytes[p] == Some(datagram[p]) by {}
    assert forall|k: int, p: int|
        #![trigger order[k], bytes[p]]
        0 <= k < count + 1 && later_start(order[k]) <= p < later_end(order[k], length) implies bytes[p]
        == Some(datagram[p]) by {
        lemma_places(order[k], length);
        if start <= p < end {
            assert(bytes[p] == Some(piece[p - start]));
        } else {
            assert(bytes[p] == under_way.bytes[p]);
        }
    }
    if count == order.len() - 1 {
        lemma_arrangement_has_every(order, later_count(length), last);
        assert(order.take(count + 1) =~= order);
        assert forall|p: int| 0 <= p < length implies bytes[p] == Some(datagram[p]) by {
            if p >= 104 {
                let home = (p - 104) / 104;
                lemma_places(home, length);
                lemma_arrangement_has_every(order, later_count(length), home);
                let k = choose|k: int| 0 <= k < order.len() && order[k] == home;
                assert(later_start(order[k]) <= p < later_end(order[k], length));
            }
        }
        assert(assembled(bytes) =~= datagram);
    }
}

/// A fragmented datagram whose first fragment comes first comes back with
/// the last of its fragments, and not before, in whatever order the later
/// ones come and whatever was under way.
pub proof fn fragments_come_back_together(
    under_way: ReassemblyModel,
    datagram: Seq<u8>,
    tag: u16,
    order: Seq<int>,
    index: int,
)
    requires
        MAX_PAYLOAD <= datagram.len() <= MAX_DATAGRAM,
        arranges(order, later_count(datagram.len())),
        0 <= index <= order.len(),
    ensures
        outcome_of(under_way, arranged(datagram, tag, order), index) == Ok::<
            Option<Seq<u8>>,
            Error,
        >(
            if index < order.len() {
                None
            } else {
                Some(datagram)
            },
        ),
{
    let lowpans = arranged(datagram, tag, order);
    lemma_places(0, datagram.len());
    if index == 0 {
        assert(lowpans.take(0) =~= Seq::empty());
        lemma_first_taken(under_way, datagram, tag, order);
    } else {
        lemma_under_way(under_way, datagram, tag, order, index - 1);
        lemma_later_taken(
            all_taken(under_way, lowpans.take(index)),
            datagram,
            tag,
            order,
            index - 1,
        );
    }
}

/// What is under way after `count` later fragments, by taking them in turn.
proof fn lemma_under_way(
    under_way: ReassemblyModel,
    datagram: Seq<u8>,
    tag: u16,
    order: Seq<int>,
    count: int,
)
    requires
        MAX_PAYLOAD <= datagram.len() <= MAX_DATAGRAM,
        arranges(order, later_count(datagram.len())),
        0 <= count < order.len(),
    ensures
        under_way_after(
            all_taken(under_way, arranged(datagram, tag, order).take(count + 1)),
            datagram,
            tag,
            order,
            count,
        ),
    decreases count,
{
    let lowpans = arranged(datagram, tag, order);
    assert(lowpans.take(count + 1).drop_last() =~= lowpans.take(count));
    assert(lowpans.take(count + 1).last() == lowpans[count]);
    if count == 0 {
        assert(lowpans.take(0) =~= Seq::empty());
        lemma_first_taken(under_way, datagram, tag, order);
    } else {
        lemma_under_way(under_way, datagram, tag, order, count - 1);
        lemma_later_taken(
            all_taken(under_way, lowpans.take(count)),
            datagram,
            tag,
            order,
            count - 1,
        );
    }
}

/// The numbers below `count`, in order.
pub open spec fn in_turn(count: nat) -> Seq<int> {
    Seq::new(count, |k: int| k)
}

/// The payloads that carry a datagram, taken in the order they are sent and
/// whatever was under way, give the datagram with the last of them and
/// nothing before it.
pub proof fn datagram_comes_back_in_turn(
    under_way: ReassemblyModel,
    datagram: Seq<u8>,
    tag: u16,
    index: int,
)
    requires
        datagram.len() <= MAX_DATAGRAM,
        0 <= index < fragmented(datagram, tag).len(),
    ensures
        outcome_of(under_way, fragmented(datagram, tag), index) == Ok::<Option<Seq<u8>>, Error>(
            if index < fragmented(datagram, tag).len() - 1 {
                None
            } else {
                Some(datagram)
            },
        ),
{
    if datagram.len() >= MAX_PAYLOAD {
        let order = in_turn(later_count(datagram.len()));
        assert(fragmented(datagram, tag) =~= arranged(datagram, tag, order));
        fragments_come_back_together(under_way, datagram, tag, order, index);
    }
}

/// A piece that completes a datagram leaves no gap in it: each byte is the
/// piece's own where the piece has one, else one that came before.
pub proof fn completing_piece_leaves_no_gap(
    under_way: ReassemblyModel,
    at: nat,
    piece: Seq<u8>,
    whole: Seq<u8>,
)
    requires
        placed(under_way, at, piece).1 == Ok::<Option<Seq<u8>>, Error>(Some(whole)),
    ensures
        whole.len() == under_way.bytes.len(),
        forall|p: int|
            #![trigger whole[p]]
            0 <= p < whole.len() ==> if at <= p < at + piece.len() {
                whole[p] == piece[p - at]
            } else {
                under_way.bytes[p] == Some(whole[p])
            },
{
    let bytes = overlaid(under_way.bytes, at as int, piece);
    assert(forall|p: int| 0 <= p < bytes.len() ==> bytes[p] == Some(#[trigger] whole[p]));
}

/// The byte that `lowpan` brings to the place `p` of the datagram of `size`
/// bytes under `tag`, if it brings one: a fragment under another tag, or one
/// past the size, brings none.
pub open spec fn brought(lowpan: LowpanModel, size: u16, tag: u16, p: int) -> Option<u8> {
    let (at, piece) = match lowpan {
        LowpanModel::Ipv6(_) => (0, Seq::empty()),
        LowpanModel::Frag1 { size: _, tag: _, bytes } => (0, bytes),
        LowpanModel::FragN { size: _, tag: own, offset, bytes } => (
            offset as int * 8,
            if own == tag {
                bytes
            } else {
                Seq::empty()
            },
        ),
    };
    if at + piece.len() <= size && at <= p < at + piece.len() {
        Some(piece[p - at])
    } else {
        None
    }
}

/// The byte that the last of `lowpans` to bring one brought to the place `p`.
pub open spec fn last_brought(lowpans: Seq<LowpanModel>, size: u16, tag: u16, p: int) -> Option<u8>
    decreases lowpans.len(),
{
    if lowpans.len() == 0 {
        None
    } else {
        match brought(lowpans.last(), size, tag, p) {
            Some(byte) => Some(byte),
            None => last_brought(lowpans.drop_last(), size, tag, p),
        }
    }
}

/// Whether `lowpans` are a first fragment of a datagram of `size` bytes under
/// `tag` and what came after it, up to the next first fragment.
pub open spec fn since_first(lowpans: Seq<LowpanModel>, size: u16, tag: u16) -> bool {
    &&& lowpans.len() > 0
    &&& lowpans[0] matches LowpanModel::Frag1 { size: s, tag: t, bytes: _ } && s == size && t == tag
    &&& forall|i: int| 0 < i < lowpans.len() ==> !(#[trigger] lowpans[i] is Frag1)
}

/// What is under way since a first fragment is what was brought since: until
/// the datagram is complete and nothing is under way.
proof fn lemma_under_way_is_what_was_brought(
    under_way: ReassemblyModel,
    lowpans: Seq<LowpanModel>,
    size: u16,
    tag: u16,
)
    requires
        since_first(lowpans, size, tag),
    ensures
        ({
            let then = all_taken(under_way, lowpans);
            ||| then.tag is None
            ||| {
                &&& then.tag == Some(tag)
                &&& then.bytes.len() == size
                &&& forall|p: int|
                    0 <= p < size ==> then.bytes[p] == #[trigger] last_brought(
                        lowpans,
                        size,
                        tag,
                        p,
                    )
            }
        }),
    decreases lowpans.len(),
{
    let before = lowpans.drop_last();
    let last = lowpans.last();
    if lowpans.len() == 1 {
        assert(before =~= Seq::empty());
        assert forall|p: int| 0 <= p < size implies last_brought(before, size, tag, p) is None by {}
    } else {
        assert(before[0] == lowpans[0]);
        assert forall|i: int| 0 < i < before.len() implies !(#[trigger] before[i] is Frag1) by {
            assert(before[i] == lowpans[i]);
        }
        lemma_under_way_is_what_was_brought(under_way, before, size, tag);
    }
    assert forall|p: int| 0 <= p < size implies last_brought(lowpans, size, tag, p) == (
    match brought(last, size, tag, p) {
        Some(byte) => Some(byte),
        None => last_brought(before, size, tag, p),
    }) by {}
}

/// Whether one of `lowpans` brought `byte` to the place `p`.
pub open spec fn one_brought(
    lowpans: Seq<LowpanModel>,
    size: u16,
    tag: u16,
    p: int,
    byte: u8,
) -> bool {
    exists|i: int|
        0 <= i < lowpans.len() && #[trigger] brought(lowpans[i], size, tag, p) == Some(byte)
}

/// What was brought last was brought by one of the payloads.
proof fn lemma_one_brought(lowpans: Seq<LowpanModel>, size: u16, tag: u16, p: int, byte: u8)
    requires
        last_brought(lowpans, size, tag, p) == Some(byte),
    ensures
        one_brought(lowpans, size, tag, p, byte),
    decreases lowpans.len(),
{
    let last = lowpans.len() - 1;
    if brought(lowpans[last], size, tag, p) is None {
        let before = lowpans.drop_last();
        lemma_one_brought(before, size, tag, p, byte);
        let i = choose|i: int|
            0 <= i < before.len() && #[trigger] brought(before[i], size, tag, p) == Some(byte);
        assert(brought(lowpans[i], size, tag, p) == Some(byte));
    }
}

/// A datagram that comes together from fragments has the size its first
/// fragment said, and no gap: every byte of it was brought by a fragment
/// since that first one, the last to bring that byte where several did.
/// Fragments may be repeated, overlap or be refused on the way.
pub proof fn datagram_comes_without_a_gap(
    under_way: ReassemblyModel,
    lowpans: Seq<LowpanModel>,
    size: u16,
    tag: u16,
    whole: Seq<u8>,
)
    requires
        since_first(lowpans, size, tag),
        !(lowpans.last() is Ipv6),
        outcome_of(under_way, lowpans, lowpans.len() - 1) == Ok::<Option<Seq<u8>>, Error>(
            Some(whole),
        ),
    ensures
        whole.len() == size,
        forall|p: int|
            0 <= p < size ==> #[trigger] last_brought(lowpans, size, tag, p) == Some(whole[p]),
        forall|p: int| 0 <= p < size ==> one_brought(lowpans, size, tag, p, #[trigger] whole[p]),
{
    let before = lowpans.drop_last();
    let last = lowpans.last();
    let then = all_taken(under_way, before);
    assert(lowpans.take(lowpans.len() - 1) =~= before);
    assert(last == lowpans[lowpans.len() - 1]);
    if lowpans.len() == 1 {
        assert(before =~= Seq::empty());
    } else {
        assert(before[0] == lowpans[0]);
        assert forall|i: int| 0 < i < before.len() implies !(#[trigger] before[i] is Frag1) by {
            assert(before[i] == lowpans[i]);
        }
        lemma_under_way_is_what_was_brought(under_way, before, size, tag);
        assert(then.tag == Some(tag));
    }
    let (at, piece) = match last {
        LowpanModel::Ipv6(bytes) => (0nat, bytes),
        LowpanModel::Frag1 { size: _, tag: _, bytes } => (0nat, bytes),
        LowpanModel::FragN { size: _, tag: _, offset, bytes } => (offset as nat * 8, bytes),
    };
    let start = if lowpans.len() == 1 {
        ReassemblyModel {
            tag: Some(tag),
            bytes: Seq::new(size as nat, |p: int| None),
            filled: 0,
        }
    } else {
        then
    };
    completing_piece_leaves_no_gap(start, at, piece, whole);
    assert forall|p: int| 0 <= p < size implies #[trigger] last_brought(lowpans, size, tag, p)
        == Some(whole[p]) by {
        assert(last_brought(before, size, tag, p) == start.bytes[p] || at <= p < at + piece.len());
    }
    assert forall|p: int| 0 <= p < size implies one_brought(
        lowpans,
        size,
        tag,
        p,
        #[trigger] whole[p],
    ) by {
        assert(last_brought(lowpans, size, tag, p) == Some(whole[p]));
        lemma_one_brought(lowpans, size, tag, p, whole[p]);
    }
}

/// A whole datagram, or a fragment under another tag, leaves what is under
/// way as it is.
pub proof fn strays_leave_what_is_under_way(under_way: ReassemblyModel, lowpan: LowpanModel)
    requires
        lowpan is Ipv6 || (lowpan is FragN && under_way.tag != Some(lowpan->FragN_tag)),
    ensures
        taken(under_way, lowpan).0 == under_way,
        lowpan is FragN ==> taken(under_way, lowpan).1 == Err::<Option<Seq<u8>>, Error>(
            Error::NotStarted,
        ),
{
}

/// A datagram that came together takes no more fragments: until another
/// first fragment comes, every later one is refused.
pub proof fn complete_datagram_takes_no_more(
    under_way: ReassemblyModel,
    completing: LowpanModel,
    late: LowpanModel,
)
    requires
        !(completing is Ipv6),
        taken(under_way, completing).1 matches Ok(Some(_)),
        late is FragN,
    ensures
        taken(taken(under_way, completing).0, late) == (
            taken(under_way, completing).0,
            Err::<Option<Seq<u8>>, Error>(Error::NotStarted),
        ),
{
}

} // verus!
