//! What is written reads as what it stands for: numbers digit by digit,
//! addresses as short as they go and no shorter, origins part by part.
use vstd::prelude::*;

use crate::address::{address_text, groups, holds_ipv4, longest_zeros, segments, zeros_from};
use crate::error::{message_text, quoted_text, Error};
use crate::reception::origin_text;
use crate::text::{decimal, digit, hexadecimal};

verus! {

/// What a digit counts for.
pub open spec fn digit_value(mark: char) -> int {
    if '0' <= mark <= '9' {
        mark as int - '0' as int
    } else {
        mark as int - 'a' as int + 10
    }
}

/// The number that digits stand for in `base`.
pub open spec fn number_read(text: Seq<char>, base: int) -> int
    decreases text.len(),
{
    if text.len() == 0 {
        0
    } else {
        number_read(text.drop_last(), base) * base + digit_value(text.last())
    }
}

/// A number in decimal is digits that read as that number, none too many at
/// the front.
pub proof fn decimal_reads_as_its_number(value: nat)
    ensures
        decimal(value).len() > 0,
        forall|i: int| 0 <= i < decimal(value).len() ==> '0' <= #[trigger] decimal(value)[i] <= '9',
        decimal(value).len() > 1 ==> decimal(value)[0] != '0',
        number_read(decimal(value), 10) == value,
    decreases value,
{
    let text = decimal(value);
    if value < 10 {
        assert(text.drop_last() =~= Seq::empty());
        assert(number_read(text.drop_last(), 10) == 0);
        assert(text.last() == digit(value));
    } else {
        decimal_reads_as_its_number(value / 10);
        assert(text.drop_last() =~= decimal(value / 10));
        assert(text.last() == digit(value % 10));
        assert(text[0] == decimal(value / 10)[0]);
        if decimal(value / 10).len() == 1 {
            let first = decimal(value / 10);
            assert(first.drop_last() =~= Seq::empty());
            assert(number_read(first.drop_last(), 10) == 0);
            assert(first.last() == first[0]);
        }
    }
}

/// A number in hexadecimal is digits and small letters that read as that
/// number, none too many at the front.
pub proof fn hexadecimal_reads_as_its_number(value: nat)
    ensures
        hexadecimal(value).len() > 0,
        forall|i: int|
            0 <= i < hexadecimal(value).len() ==> '0' <= #[trigger] hexadecimal(value)[i] <= '9'
                || 'a' <= hexadecimal(value)[i] <= 'f',
        hexadecimal(value).len() > 1 ==> hexadecimal(value)[0] != '0',
        number_read(hexadecimal(value), 16) == value,
    decreases value,
{
    let text = hexadecimal(value);
    if value < 16 {
        assert(text.drop_last() =~= Seq::empty());
        assert(number_read(text.drop_last(), 16) == 0);
        assert(text.last() == digit(value));
    } else {
        hexadecimal_reads_as_its_number(value / 16);
        assert(text.drop_last() =~= hexadecimal(value / 16));
        assert(text.last() == digit(value % 16));
        assert(text[0] == hexadecimal(value / 16)[0]);
        if hexadecimal(value / 16).len() == 1 {
            let first = hexadecimal(value / 16);
            assert(first.drop_last() =~= Seq::empty());
            assert(number_read(first.drop_last(), 16) == 0);
            assert(first.last() == first[0]);
        }
    }
}

/// The eight numbers of an address, two octets each.
pub open spec fn by_twos(octets: Seq<u8>) -> Seq<u16> {
    Seq::new(8, |i: int| (octets[2 * i] * 256 + octets[2 * i + 1]) as u16)
}

/// Numbers in hexadecimal with a colon after each but the last.
pub open spec fn with_colons(numbers: Seq<u16>) -> Seq<char>
    decreases numbers.len(),
{
    if numbers.len() == 0 {
        Seq::empty()
    } else if numbers.len() == 1 {
        hexadecimal(numbers[0] as nat)
    } else {
        hexadecimal(numbers[0] as nat) + seq![':'] + with_colons(numbers.skip(1))
    }
}

/// One number more at the end.
proof fn lemma_colon_before_the_last(numbers: Seq<u16>)
    requires
        numbers.len() > 1,
    ensures
        with_colons(numbers) == with_colons(numbers.drop_last()) + seq![':'] + hexadecimal(
            numbers.last() as nat,
        ),
    decreases numbers.len(),
{
    let rest = numbers.skip(1);
    let before = numbers.drop_last();
    assert(rest.last() == numbers.last());
    assert(before[0] == numbers[0]);
    if numbers.len() == 2 {
        assert(rest[0] == numbers.last());
        assert(with_colons(rest) == hexadecimal(rest[0] as nat));
        assert(with_colons(before) == hexadecimal(before[0] as nat));
    } else {
        lemma_colon_before_the_last(rest);
        assert(rest.drop_last() =~= before.skip(1));
        assert(with_colons(before) == hexadecimal(before[0] as nat) + seq![':'] + with_colons(
            before.skip(1),
        ));
    }
    assert(with_colons(numbers) =~= with_colons(before) + seq![':'] + hexadecimal(
        numbers.last() as nat,
    ));
}

/// Groups are numbers with colons between them.
proof fn lemma_groups_have_colons(numbers: Seq<u16>)
    ensures
        groups(numbers) == with_colons(numbers),
    decreases numbers.len(),
{
    reveal_strlit(":");
    assert(":"@ =~= seq![':']);
    if numbers.len() > 1 {
        lemma_groups_have_colons(numbers.drop_last());
        lemma_colon_before_the_last(numbers);
    }
}

/// Whether the numbers from `start` up to `end` are all zero.
pub open spec fn zero_between(numbers: Seq<u16>, start: int, end: int) -> bool {
    forall|i: int| start <= i < end ==> #[trigger] numbers[i] == 0
}

/// Whether the numbers from `start` up to `end` are the first of the longest
/// runs of zeros, two at least.
pub open spec fn first_longest_run(numbers: Seq<u16>, start: int, end: int) -> bool {
    &&& 0 <= start
    &&& start + 2 <= end <= numbers.len()
    &&& zero_between(numbers, start, end)
    &&& forall|s: int, e: int|
        0 <= s <= e <= numbers.len() && #[trigger] zero_between(numbers, s, e) ==> e - s <= end
            - start && (e - s == end - start ==> start <= s)
}

/// A run of zeros is as long as it can be.
proof fn lemma_run(numbers: Seq<u16>, at: int, end: int)
    requires
        0 <= at <= end <= numbers.len(),
    ensures
        at + zeros_from(numbers, at) <= numbers.len(),
        zero_between(numbers, at, at + zeros_from(numbers, at)),
        zero_between(numbers, at, end) ==> end - at <= zeros_from(numbers, at),
    decreases numbers.len() - at,
{
    if at < numbers.len() && numbers[at] == 0 {
        let next = if end > at {
            end
        } else {
            at + 1
        };
        lemma_run(numbers, at + 1, next);
        if zero_between(numbers, at, end) && end > at {
            assert(zero_between(numbers, at + 1, end));
        }
    } else if end > at && zero_between(numbers, at, end) {
        assert(numbers[at] == 0);
    }
}

/// The place with the longest run is the first such place.
proof fn lemma_first_longest(numbers: Seq<u16>, last: nat, at: int)
    requires
        0 <= at <= last,
    ensures
        0 <= longest_zeros(numbers, last) <= last,
        zeros_from(numbers, at) <= zeros_from(numbers, longest_zeros(numbers, last)),
        at < longest_zeros(numbers, last) ==> zeros_from(numbers, at) < zeros_from(
            numbers,
            longest_zeros(numbers, last),
        ),
    decreases last,
{
    if last > 0 {
        let before = (last - 1) as nat;
        if at < last {
            lemma_first_longest(numbers, before, at);
        } else {
            lemma_first_longest(numbers, before, before as int);
        }
    }
}

/// The text of an address that holds no IPv4 address: its numbers in
/// hexadecimal with colons between them, and two colons in the place of the
/// first of its longest runs of zeros where there are two zeros together.
pub proof fn address_is_written_as_short_as_it_goes(octets: Seq<u8>, start: int, end: int)
    requires
        octets.len() == 16,
        !(octets.take(12) == seq![0u8, 0, 0, 0, 0, 0, 0, 0, 0, 0, 0xff, 0xff]),
    ensures
        first_longest_run(by_twos(octets), start, end) ==> address_text(octets) == with_colons(
            by_twos(octets).take(start),
        ) + seq![':', ':'] + with_colons(by_twos(octets).skip(end)),
        (forall|s: int| 0 <= s <= 6 ==> !#[trigger] zero_between(by_twos(octets), s, s + 2))
            ==> address_text(octets) == with_colons(by_twos(octets)),
{
    let numbers = by_twos(octets);
    assert(segments(octets) =~= numbers);
    assert(!holds_ipv4(octets)) by {
        if holds_ipv4(octets) {
            assert(octets.take(12) =~= seq![0u8, 0, 0, 0, 0, 0, 0, 0, 0, 0, 0xff, 0xff]);
        }
    }
    reveal_strlit("::");
    assert("::"@ =~= seq![':', ':']);
    let longest = longest_zeros(numbers, 7);
    let length = zeros_from(numbers, longest);
    lemma_first_longest(numbers, 7, 0);
    lemma_run(numbers, longest, longest);
    lemma_groups_have_colons(numbers);
    lemma_groups_have_colons(numbers.take(longest));
    lemma_groups_have_colons(numbers.skip(longest + length));
    if first_longest_run(numbers, start, end) {
        lemma_run(numbers, start, end);
        lemma_first_longest(numbers, 7, start);
        assert(zero_between(numbers, start, start + zeros_from(numbers, start)));
        assert(zero_between(numbers, longest, longest + length));
        assert(longest == start);
        assert(longest + length == end);
    }
    if forall|s: int| 0 <= s <= 6 ==> !#[trigger] zero_between(numbers, s, s + 2) {
        if length > 1 {
            assert(zero_between(numbers, longest, longest + 2));
        }
    }
}

/// The text of an address that holds an IPv4 address: its last four octets in
/// decimal, dots between them.
pub proof fn ipv4_is_written_in_decimal(octets: Seq<u8>)
    requires
        octets.len() == 16,
        octets.take(12) == seq![0u8, 0, 0, 0, 0, 0, 0, 0, 0, 0, 0xff, 0xff],
    ensures
        address_text(octets) == seq![':', ':', 'f', 'f', 'f', 'f', ':'] + decimal(
            octets[12] as nat,
        ) + seq!['.'] + decimal(octets[13] as nat) + seq!['.'] + decimal(octets[14] as nat)
            + seq!['.'] + decimal(octets[15] as nat),
{
    assert(forall|i: int| 0 <= i < 12 ==> octets[i] == octets.take(12)[i]);
    reveal_strlit("::ffff:");
    reveal_strlit(".");
    assert("::ffff:"@ =~= seq![':', ':', 'f', 'f', 'f', 'f', ':']);
    assert("."@ =~= seq!['.']);
}

/// An origin, part by part: the scheme, the name of the radio, the address of
/// the sender in brackets and its port in decimal.
pub proof fn origin_is_written_part_by_part(radio: Seq<char>, octets: Seq<u8>, port: u16)
    ensures
        ({
            let origin = origin_text(radio, octets, port);
            let address = 11 + radio.len() as int;
            let end = address + address_text(octets).len();
            &&& origin.take(9) == seq!['t', 'h', 'r', 'e', 'a', 'd', ':', '/', '/']
            &&& origin.subrange(9, address - 2) == radio
            &&& origin.subrange(address - 2, address) == seq!['/', '[']
            &&& origin.subrange(address, end) == address_text(octets)
            &&& origin.subrange(end, end + 2) == seq![']', ':']
            &&& number_read(origin.skip(end + 2), 10) == port
            &&& origin.skip(end + 2) == decimal(port as nat)
        }),
{
    let origin = origin_text(radio, octets, port);
    let address = 11 + radio.len() as int;
    let end = address + address_text(octets).len();
    reveal_strlit("thread://");
    reveal_strlit("/[");
    reveal_strlit("]:");
    decimal_reads_as_its_number(port as nat);
    assert(origin.take(9) =~= seq!['t', 'h', 'r', 'e', 'a', 'd', ':', '/', '/']);
    assert(origin.subrange(9, address - 2) =~= radio);
    assert(origin.subrange(address - 2, address) =~= seq!['/', '[']);
    assert(origin.subrange(address, end) =~= address_text(octets));
    assert(origin.subrange(end, end + 2) =~= seq![']', ':']);
    assert(origin.skip(end + 2) =~= decimal(port as nat));
}

/// What is said of an error that holds a number or a text says it: the
/// dispatch in two hexadecimal digits, the length in decimal, the path in
/// quotes; and what a radio says is passed on.
pub proof fn message_says_what_the_error_holds(
    bits: u8,
    length: usize,
    path: String,
    message: String,
    retryable: bool,
)
    ensures
        ({
            let said = message_text(Error::Dispatch(bits));
            &&& said.len() > 2
            &&& said.take(said.len() - 2) == "a dispatch this crate does not carry: 0x"@
            &&& number_read(said.skip(said.len() - 2), 16) == bits
        }),
        message_text(Error::DatagramPayload(length)).take(decimal(length as nat).len() as int)
            == decimal(length as nat),
        message_text(Error::DatagramPayload(length)).skip(decimal(length as nat).len() as int)
            == " bytes, over the "@ + seq!['1', '9', '9', '9'] + " one 6LoWPAN datagram carries"@,
        message_text(Error::Target(path)).take(quoted_text(path@).len() as int) == quoted_text(
            path@,
        ),
        message_text(Error::Target(path)).skip(quoted_text(path@).len() as int)
            == " is not [address]:port"@,
        message_text(Error::Radio { message, retryable }) == message@,
{
    let said = message_text(Error::Dispatch(bits));
    let two = said.skip(said.len() - 2);
    assert(two =~= seq![digit(bits as nat / 16), digit(bits as nat % 16)]);
    assert(said.take(said.len() - 2) =~= "a dispatch this crate does not carry: 0x"@);
    assert(two.drop_last() =~= seq![digit(bits as nat / 16)]);
    assert(two.drop_last().drop_last() =~= Seq::empty());
    reveal_with_fuel(number_read, 3);
    reveal_strlit("a dispatch this crate does not carry: 0x");
    assert(message_text(Error::DatagramPayload(length)).take(
        decimal(length as nat).len() as int,
    ) =~= decimal(length as nat));
    assert(decimal(1999) =~= seq!['1', '9', '9', '9']) by {
        reveal_with_fuel(decimal, 4);
    }
    assert(message_text(Error::DatagramPayload(length)).skip(
        decimal(length as nat).len() as int,
    ) =~= " bytes, over the "@ + seq!['1', '9', '9', '9'] + " one 6LoWPAN datagram carries"@);
    assert(message_text(Error::Target(path)).take(quoted_text(path@).len() as int)
        =~= quoted_text(path@));
    assert(message_text(Error::Target(path)).skip(quoted_text(path@).len() as int)
        =~= " is not [address]:port"@);
}

/// What is said of an error that holds nothing.
pub proof fn message_says_what_is_wrong()
    ensures
        message_text(Error::FramePayload) == "more than one 802.15.4 frame holds"@,
        message_text(Error::Phy) == "more than the PHY holds"@,
        message_text(Error::FrameCutOff) == "a frame cut off inside its header"@,
        message_text(Error::CheckSequence) == "a check sequence that does not check"@,
        message_text(Error::NotDataFrame) == "not a data frame with short addresses"@,
        message_text(Error::LowpanCutOff) == "a 6LoWPAN header cut off"@,
        message_text(Error::FirstWithoutIpv6) == "a first fragment without its IPv6 dispatch"@,
        message_text(Error::DatagramCutOff) == "a datagram cut off inside its IPv6 header"@,
        message_text(Error::NotUdp) == "not IPv6 carrying UDP"@,
        message_text(Error::Length) == "a length the datagram does not match"@,
        message_text(Error::UdpLength) == "a UDP length that disagrees with IPv6"@,
        message_text(Error::Checksum) == "a checksum that does not check"@,
        message_text(Error::DatagramSize) == "a datagram over what eleven bits size"@,
        message_text(Error::NotStarted) == "a fragment of a datagram that did not start"@,
        message_text(Error::PastSize) == "a fragment past the datagram's size"@,
        message_text(Error::MoreThanSize) == "more fragment than datagram"@,
        message_text(Error::OtherPort) == "a datagram for another port"@,
        message_text(Error::FragmentsStopped) == "the fragments stopped coming"@,
        message_text(Error::NothingTogether) == "no datagram came together"@,
        message_text(Error::Differs) == "sent, but what the leader took differs"@,
{
}

} // verus!
