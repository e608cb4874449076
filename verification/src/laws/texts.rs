//! Texts: numbers, addresses and origins that are written alike are alike.
use vstd::prelude::*;

use crate::address::{
    address_text, groups, holds_ipv4, longest_zeros, segments, zeros_from,
};
use crate::bytes::{joined, lemma_halves_of_joined};
use crate::reception::origin_text;
use crate::text::{decimal, digit, hexadecimal};

verus! {

/// Whether `mark` does not occur in `text`.
spec fn free_of(text: Seq<char>, mark: char) -> bool {
    forall|i: int| 0 <= i < text.len() ==> text[i] != mark
}

/// `text` cut at each `mark`.
spec fn cut(text: Seq<char>, mark: char) -> Seq<Seq<char>>
    decreases text.len(),
{
    if text.len() == 0 {
        seq![Seq::empty()]
    } else {
        let before = cut(text.drop_last(), mark);
        if text.last() == mark {
            before.push(Seq::empty())
        } else {
            before.drop_last().push(before.last().push(text.last()))
        }
    }
}

/// Cutting leaves one piece at least.
proof fn lemma_cut_leaves_a_piece(text: Seq<char>, mark: char)
    ensures
        cut(text, mark).len() > 0,
    decreases text.len(),
{
    if text.len() > 0 {
        lemma_cut_leaves_a_piece(text.drop_last(), mark);
    }
}

/// A text free of the mark is one piece.
proof fn lemma_cut_whole(text: Seq<char>, mark: char)
    requires
        free_of(text, mark),
    ensures
        cut(text, mark) == seq![text],
    decreases text.len(),
{
    if text.len() > 0 {
        let rest = text.drop_last();
        assert forall|i: int| 0 <= i < rest.len() implies rest[i] != mark by {
            assert(rest[i] == text[i]);
        }
        lemma_cut_whole(rest, mark);
        assert(text.last() == text[text.len() - 1]);
        assert(rest.push(text.last()) =~= text);
        assert(cut(text, mark) =~= seq![text]);
    } else {
        assert(text =~= Seq::empty());
    }
}

/// Two texts with a mark between them are cut there.
proof fn lemma_cut_at(left: Seq<char>, mark: char, right: Seq<char>)
    ensures
        cut(left + seq![mark] + right, mark) == cut(left, mark) + cut(right, mark),
    decreases right.len(),
{
    let whole = left + seq![mark] + right;
    lemma_cut_leaves_a_piece(left, mark);
    lemma_cut_leaves_a_piece(right, mark);
    if right.len() == 0 {
        assert(whole.drop_last() =~= left);
        assert(cut(whole, mark) =~= cut(left, mark) + cut(right, mark));
    } else {
        let rest = right.drop_last();
        lemma_cut_at(left, mark, rest);
        lemma_cut_leaves_a_piece(rest, mark);
        assert(whole.drop_last() =~= left + seq![mark] + rest);
        assert(cut(whole, mark) =~= cut(left, mark) + cut(right, mark));
    }
}

/// Digits are told apart, and are neither marks nor brackets.
proof fn lemma_digits(a: nat, b: nat)
    requires
        a < 16,
        b < 16,
    ensures
        digit(a) == digit(b) ==> a == b,
        digit(a) != ':',
        digit(a) != '.',
        digit(a) != ']',
{
}

/// A number in hexadecimal is digits, one at least.
proof fn lemma_hexadecimal_is_digits(value: nat)
    ensures
        hexadecimal(value).len() > 0,
        free_of(hexadecimal(value), ':'),
        free_of(hexadecimal(value), '.'),
        free_of(hexadecimal(value), ']'),
    decreases value,
{
    if value >= 16 {
        lemma_hexadecimal_is_digits(value / 16);
        lemma_digits(value % 16, 0);
    } else {
        lemma_digits(value, 0);
    }
}

/// Numbers that are written alike in hexadecimal are the same number.
pub proof fn hexadecimal_tells_numbers_apart(a: nat, b: nat)
    requires
        hexadecimal(a) == hexadecimal(b),
    ensures
        a == b,
    decreases a,
{
    lemma_hexadecimal_is_digits(a / 16);
    lemma_hexadecimal_is_digits(b / 16);
    lemma_digits(a % 16, b % 16);
    assert(hexadecimal(a).last() == digit(a % 16));
    assert(hexadecimal(b).last() == digit(b % 16));
    if a >= 16 && b >= 16 {
        assert(hexadecimal(a).drop_last() =~= hexadecimal(a / 16));
        assert(hexadecimal(b).drop_last() =~= hexadecimal(b / 16));
        hexadecimal_tells_numbers_apart(a / 16, b / 16);
    }
}

/// A number in decimal is digits, one at least.
proof fn lemma_decimal_is_digits(value: nat)
    ensures
        decimal(value).len() > 0,
        free_of(decimal(value), ':'),
        free_of(decimal(value), '.'),
        free_of(decimal(value), ']'),
    decreases value,
{
    if value >= 10 {
        lemma_decimal_is_digits(value / 10);
        lemma_digits(value % 10, 0);
    } else {
        lemma_digits(value, 0);
    }
}

/// Numbers that are written alike in decimal are the same number.
pub proof fn decimal_tells_numbers_apart(a: nat, b: nat)
    requires
        decimal(a) == decimal(b),
    ensures
        a == b,
    decreases a,
{
    lemma_decimal_is_digits(a / 10);
    lemma_decimal_is_digits(b / 10);
    lemma_digits(a % 10, b % 10);
    assert(decimal(a).last() == digit(a % 10));
    assert(decimal(b).last() == digit(b % 10));
    if a >= 10 && b >= 10 {
        assert(decimal(a).drop_last() =~= decimal(a / 10));
        assert(decimal(b).drop_last() =~= decimal(b / 10));
        decimal_tells_numbers_apart(a / 10, b / 10);
    }
}

/// The pieces of segments written out: one each, or a single empty one.
spec fn pieces(all: Seq<u16>) -> Seq<Seq<char>> {
    if all.len() == 0 {
        seq![Seq::empty()]
    } else {
        Seq::new(all.len(), |i: int| hexadecimal(all[i] as nat))
    }
}

/// Segments written out are cut into the segments.
proof fn lemma_cut_groups(all: Seq<u16>)
    ensures
        cut(groups(all), ':') == pieces(all),
        free_of(groups(all), '.'),
        free_of(groups(all), ']'),
    decreases all.len(),
{
    reveal_strlit(":");
    if all.len() == 1 {
        lemma_hexadecimal_is_digits(all[0] as nat);
        lemma_cut_whole(hexadecimal(all[0] as nat), ':');
        assert(cut(groups(all), ':') =~= pieces(all));
    } else if all.len() > 1 {
        let before = all.drop_last();
        let last = hexadecimal(all.last() as nat);
        lemma_cut_groups(before);
        lemma_hexadecimal_is_digits(all.last() as nat);
        lemma_cut_whole(last, ':');
        lemma_cut_at(groups(before), ':', last);
        assert(":"@ =~= seq![':']);
        assert(pieces(before) + seq![last] =~= pieces(all));
    }
}

/// Only segments that are not there leave an empty piece.
proof fn lemma_pieces(all: Seq<u16>)
    ensures
        all.len() == 0 ==> pieces(all).len() == 1 && pieces(all)[0].len() == 0,
        all.len() > 0 ==> pieces(all).len() == all.len(),
        forall|i: int| 0 <= i < all.len() ==> #[trigger] pieces(all)[i].len() > 0,
{
    assert forall|i: int| 0 <= i < all.len() implies #[trigger] pieces(all)[i].len() > 0 by {
        lemma_hexadecimal_is_digits(all[i] as nat);
    }
}

/// Segments that are written alike are the same segments.
proof fn lemma_pieces_tell_segments_apart(a: Seq<u16>, b: Seq<u16>)
    requires
        pieces(a) == pieces(b),
    ensures
        a == b,
{
    lemma_pieces(a);
    lemma_pieces(b);
    if a.len() > 0 {
        assert(pieces(a)[0].len() > 0);
    }
    if b.len() > 0 {
        assert(pieces(b)[0].len() > 0);
    }
    assert forall|i: int| 0 <= i < a.len() implies a[i] == b[i] by {
        assert(pieces(a)[i] == pieces(b)[i]);
        hexadecimal_tells_numbers_apart(a[i] as nat, b[i] as nat);
    }
    assert(a =~= b);
}

/// The pieces of a shortened address: those before the run of zeros, an
/// empty one, and those after it.
spec fn short_pieces(before: Seq<u16>, after: Seq<u16>) -> Seq<Seq<char>> {
    pieces(before) + seq![Seq::empty()] + pieces(after)
}

/// A shortened address is cut into its pieces.
proof fn lemma_cut_shortened(before: Seq<u16>, after: Seq<u16>)
    ensures
        cut(groups(before) + "::"@ + groups(after), ':') == short_pieces(before, after),
        free_of(groups(before) + "::"@ + groups(after), '.'),
        free_of(groups(before) + "::"@ + groups(after), ']'),
{
    reveal_strlit("::");
    lemma_cut_groups(before);
    lemma_cut_groups(after);
    let none: Seq<char> = Seq::empty();
    let left = groups(before) + seq![':'] + none;
    lemma_cut_at(groups(before), ':', none);
    lemma_cut_at(left, ':', groups(after));
    assert(left + seq![':'] + groups(after) =~= groups(before) + "::"@ + groups(after));
    assert(cut(none, ':') =~= seq![none]);
}

/// The first empty piece of a shortened address is where its zeros are.
proof fn lemma_first_empty_piece(before: Seq<u16>, after: Seq<u16>)
    ensures
        short_pieces(before, after)[before.len() as int].len() == 0,
        forall|i: int|
            0 <= i < before.len() ==> #[trigger] short_pieces(before, after)[i].len() > 0,
{
    assert forall|i: int| 0 <= i < before.len() implies #[trigger] short_pieces(
        before,
        after,
    )[i].len() > 0 by {
        lemma_hexadecimal_is_digits(before[i] as nat);
    }
}

/// Shortened addresses that are written alike have the same segments on
/// either side of their zeros.
proof fn lemma_short_pieces_tell_apart(
    before: Seq<u16>,
    after: Seq<u16>,
    other_before: Seq<u16>,
    other_after: Seq<u16>,
)
    requires
        short_pieces(before, after) == short_pieces(other_before, other_after),
    ensures
        before == other_before,
        after == other_after,
{
    let all = short_pieces(before, after);
    lemma_first_empty_piece(before, after);
    lemma_first_empty_piece(other_before, other_after);
    assert(before.len() == other_before.len()) by {
        if before.len() < other_before.len() {
            assert(short_pieces(other_before, other_after)[before.len() as int].len() > 0);
        }
        if other_before.len() < before.len() {
            assert(short_pieces(before, after)[other_before.len() as int].len() > 0);
        }
    }
    let width = pieces(before).len() as int;
    assert(pieces(before) =~= all.take(width));
    assert(pieces(other_before) =~= all.take(width));
    assert(pieces(after) =~= all.skip(width + 1));
    assert(pieces(other_after) =~= all.skip(width + 1));
    lemma_pieces_tell_segments_apart(before, other_before);
    lemma_pieces_tell_segments_apart(after, other_after);
}

/// A run of zeros is zeros.
proof fn lemma_zeros(all: Seq<u16>, at: int)
    requires
        0 <= at <= all.len(),
    ensures
        at + zeros_from(all, at) <= all.len(),
        forall|i: int| at <= i < at + zeros_from(all, at) ==> all[i] == 0,
    decreases all.len() - at,
{
    if at < all.len() && all[at] == 0 {
        lemma_zeros(all, at + 1);
    }
}

/// The place with the most zeros is one of those looked at.
proof fn lemma_longest_zeros(all: Seq<u16>, last: nat)
    ensures
        0 <= longest_zeros(all, last) <= last,
    decreases last,
{
    if last > 0 {
        lemma_longest_zeros(all, (last - 1) as nat);
    }
}

/// Addresses of the same segments are the same address.
proof fn lemma_segments_tell_apart(a: Seq<u8>, b: Seq<u8>)
    requires
        a.len() == 16,
        b.len() == 16,
        segments(a) == segments(b),
    ensures
        a == b,
{
    assert forall|k: int| 0 <= k < 16 implies a[k] == b[k] by {
        let i = k / 2;
        assert(segments(a)[i] == joined(a[2 * i], a[2 * i + 1]));
        assert(segments(b)[i] == joined(b[2 * i], b[2 * i + 1]));
        lemma_halves_of_joined(a[2 * i], a[2 * i + 1]);
        lemma_halves_of_joined(b[2 * i], b[2 * i + 1]);
        assert(k == 2 * i || k == 2 * i + 1);
    }
    assert(a =~= b);
}

/// The last four octets in decimal, dots between them.
spec fn dotted(octets: Seq<u8>) -> Seq<char> {
    decimal(octets[12] as nat) + seq!['.'] + decimal(octets[13] as nat) + seq!['.'] + decimal(
        octets[14] as nat,
    ) + seq!['.'] + decimal(octets[15] as nat)
}

/// An IPv4 address is cut into its octets.
proof fn lemma_cut_dotted(octets: Seq<u8>)
    ensures
        cut(dotted(octets), '.') == seq![
            decimal(octets[12] as nat),
            decimal(octets[13] as nat),
            decimal(octets[14] as nat),
            decimal(octets[15] as nat),
        ],
        free_of(dotted(octets), ':'),
        free_of(dotted(octets), ']'),
        dotted(octets).contains('.'),
{
    let (a, b, c, d) = (
        decimal(octets[12] as nat),
        decimal(octets[13] as nat),
        decimal(octets[14] as nat),
        decimal(octets[15] as nat),
    );
    lemma_decimal_is_digits(octets[12] as nat);
    lemma_decimal_is_digits(octets[13] as nat);
    lemma_decimal_is_digits(octets[14] as nat);
    lemma_decimal_is_digits(octets[15] as nat);
    lemma_cut_whole(a, '.');
    lemma_cut_whole(b, '.');
    lemma_cut_whole(c, '.');
    lemma_cut_whole(d, '.');
    lemma_cut_at(a, '.', b);
    lemma_cut_at(a + seq!['.'] + b, '.', c);
    lemma_cut_at(a + seq!['.'] + b + seq!['.'] + c, '.', d);
    assert(cut(dotted(octets), '.') =~= seq![a, b, c, d]);
    assert(dotted(octets)[a.len() as int] == '.');
}

/// IPv4 addresses that are written alike are the same four octets.
proof fn lemma_dotted_tells_apart(a: Seq<u8>, b: Seq<u8>)
    requires
        dotted(a) == dotted(b),
    ensures
        a[12] == b[12],
        a[13] == b[13],
        a[14] == b[14],
        a[15] == b[15],
{
    lemma_cut_dotted(a);
    lemma_cut_dotted(b);
    let all = cut(dotted(a), '.');
    assert(all[0] == decimal(a[12] as nat) && all[0] == decimal(b[12] as nat));
    assert(all[1] == decimal(a[13] as nat) && all[1] == decimal(b[13] as nat));
    assert(all[2] == decimal(a[14] as nat) && all[2] == decimal(b[14] as nat));
    assert(all[3] == decimal(a[15] as nat) && all[3] == decimal(b[15] as nat));
    decimal_tells_numbers_apart(a[12] as nat, b[12] as nat);
    decimal_tells_numbers_apart(a[13] as nat, b[13] as nat);
    decimal_tells_numbers_apart(a[14] as nat, b[14] as nat);
    decimal_tells_numbers_apart(a[15] as nat, b[15] as nat);
}

/// What follows the same opening in the same text is the same.
proof fn lemma_same_after(opening: Seq<char>, a: Seq<char>, b: Seq<char>)
    requires
        opening + a == opening + b,
    ensures
        a == b,
{
    let at = opening.len() as int;
    assert((opening + a).skip(at) =~= a);
    assert((opening + b).skip(at) =~= b);
}

/// The text of an address that holds an IPv4 address.
proof fn lemma_ipv4_text(octets: Seq<u8>)
    requires
        octets.len() == 16,
        holds_ipv4(octets),
    ensures
        address_text(octets) == "::ffff:"@ + dotted(octets),
        address_text(octets).contains('.'),
        free_of(address_text(octets), ']'),
{
    reveal_strlit("::ffff:");
    reveal_strlit(".");
    lemma_cut_dotted(octets);
    assert("."@ =~= seq!['.']);
    assert(address_text(octets) =~= "::ffff:"@ + dotted(octets));
    let at = choose|at: int| 0 <= at < dotted(octets).len() && dotted(octets)[at] == '.';
    assert(address_text(octets)[7 + at] == '.');
}

/// Addresses that hold IPv4 addresses and are written alike are the same
/// address.
proof fn lemma_ipv4_texts_tell_apart(a: Seq<u8>, b: Seq<u8>)
    requires
        a.len() == 16,
        b.len() == 16,
        holds_ipv4(a),
        holds_ipv4(b),
        address_text(a) == address_text(b),
    ensures
        a == b,
{
    lemma_ipv4_text(a);
    lemma_ipv4_text(b);
    lemma_same_after("::ffff:"@, dotted(a), dotted(b));
    lemma_dotted_tells_apart(a, b);
    assert forall|k: int| 0 <= k < 16 implies a[k] == b[k] by {
        if k >= 12 {
            assert(k == 12 || k == 13 || k == 14 || k == 15);
        }
    }
    assert(a =~= b);
}

/// Where a shortened address has its zeros, and what is around them.
spec fn shortened(octets: Seq<u8>) -> (Seq<u16>, Seq<u16>) {
    let all = segments(octets);
    let start = longest_zeros(all, 7);
    (all.take(start), all.skip(start + zeros_from(all, start)))
}

/// Whether an address is shortened.
spec fn is_shortened(octets: Seq<u8>) -> bool {
    let all = segments(octets);
    !holds_ipv4(octets) && zeros_from(all, longest_zeros(all, 7)) > 1
}

/// The pieces of an address that holds no IPv4 address.
proof fn lemma_address_pieces(octets: Seq<u8>)
    requires
        octets.len() == 16,
        !holds_ipv4(octets),
    ensures
        cut(address_text(octets), ':') == if is_shortened(octets) {
            short_pieces(shortened(octets).0, shortened(octets).1)
        } else {
            pieces(segments(octets))
        },
        free_of(address_text(octets), '.'),
        free_of(address_text(octets), ']'),
{
    let all = segments(octets);
    let (before, after) = shortened(octets);
    lemma_cut_groups(all);
    lemma_cut_shortened(before, after);
}

/// Shortened addresses with the same segments around their zeros have the
/// same segments.
proof fn lemma_shortened_tell_apart(a: Seq<u8>, b: Seq<u8>)
    requires
        a.len() == 16,
        b.len() == 16,
        shortened(a) == shortened(b),
    ensures
        a == b,
{
    let all = segments(a);
    let other = segments(b);
    let start = longest_zeros(all, 7);
    lemma_longest_zeros(all, 7);
    lemma_longest_zeros(other, 7);
    lemma_zeros(all, start);
    lemma_zeros(other, longest_zeros(other, 7));
    let end = start + zeros_from(all, start);
    assert(all.take(start).len() == start);
    assert(other.take(longest_zeros(other, 7)).len() == longest_zeros(other, 7));
    assert(all.skip(end).len() == 8 - end);
    assert(other.skip(longest_zeros(other, 7) + zeros_from(other, longest_zeros(other, 7))).len()
        == 8 - end);
    assert forall|i: int| 0 <= i < 8 implies all[i] == other[i] by {
        if i < start {
            assert(all.take(start)[i] == other.take(start)[i]);
        } else if i >= end {
            assert(all.skip(end)[i - end] == other.skip(end)[i - end]);
        }
    }
    assert(all =~= other);
    lemma_segments_tell_apart(a, b);
}

/// Addresses that are written alike are the same address.
pub proof fn text_tells_addresses_apart(a: Seq<u8>, b: Seq<u8>)
    requires
        a.len() == 16,
        b.len() == 16,
        address_text(a) == address_text(b),
    ensures
        a == b,
{
    if holds_ipv4(a) && holds_ipv4(b) {
        lemma_ipv4_texts_tell_apart(a, b);
    } else if holds_ipv4(a) {
        lemma_ipv4_text(a);
        lemma_address_pieces(b);
    } else if holds_ipv4(b) {
        lemma_ipv4_text(b);
        lemma_address_pieces(a);
    } else {
        lemma_address_pieces(a);
        lemma_address_pieces(b);
        if is_shortened(a) && is_shortened(b) {
            lemma_short_pieces_tell_apart(
                shortened(a).0,
                shortened(a).1,
                shortened(b).0,
                shortened(b).1,
            );
            lemma_shortened_tell_apart(a, b);
        } else if !is_shortened(a) && !is_shortened(b) {
            lemma_pieces_tell_segments_apart(segments(a), segments(b));
            lemma_segments_tell_apart(a, b);
        } else if is_shortened(a) {
            lemma_no_piece_is_empty(shortened(a).0, shortened(a).1, segments(b));
        } else {
            lemma_no_piece_is_empty(shortened(b).0, shortened(b).1, segments(a));
        }
    }
}

/// A shortened address is not written as one that is not.
proof fn lemma_no_piece_is_empty(before: Seq<u16>, after: Seq<u16>, all: Seq<u16>)
    requires
        all.len() == 8,
    ensures
        short_pieces(before, after) != pieces(all),
{
    lemma_first_empty_piece(before, after);
    if short_pieces(before, after) == pieces(all) {
        let at = before.len() as int;
        assert(at < short_pieces(before, after).len());
        assert(pieces(all)[at].len() == 0);
        lemma_hexadecimal_is_digits(all[at] as nat);
    }
}

/// Two origins on one radio that are written alike name the same sender: the
/// same address and the same port.
pub proof fn origin_names_its_sender(
    radio: Seq<char>,
    address: Seq<u8>,
    port: u16,
    other_address: Seq<u8>,
    other_port: u16,
)
    requires
        address.len() == 16,
        other_address.len() == 16,
        origin_text(radio, address, port) == origin_text(radio, other_address, other_port),
    ensures
        address == other_address,
        port == other_port,
{
    reveal_strlit("]:");
    let opening = "thread://"@ + radio + "/["@;
    let (text, number) = (address_text(address), decimal(port as nat));
    let (other_text, other_number) = (address_text(other_address), decimal(other_port as nat));
    let rest = text + "]:"@ + number;
    let other_rest = other_text + "]:"@ + other_number;
    assert(opening + rest =~= origin_text(radio, address, port));
    assert(opening + other_rest =~= origin_text(radio, other_address, other_port));
    lemma_same_after(opening, rest, other_rest);
    lemma_address_free_of_brackets(address);
    lemma_address_free_of_brackets(other_address);
    assert(text.len() == other_text.len()) by {
        assert(rest[text.len() as int] == ']');
        assert(other_rest[other_text.len() as int] == ']');
        if text.len() < other_text.len() {
            assert(other_rest[text.len() as int] == other_text[text.len() as int]);
        }
        if other_text.len() < text.len() {
            assert(rest[other_text.len() as int] == text[other_text.len() as int]);
        }
    }
    assert(text =~= rest.take(text.len() as int));
    assert(other_text =~= rest.take(text.len() as int));
    assert(number =~= rest.skip(text.len() as int + 2));
    assert(other_number =~= rest.skip(text.len() as int + 2));
    text_tells_addresses_apart(address, other_address);
    decimal_tells_numbers_apart(port as nat, other_port as nat);
}

/// No bracket is in the text of an address.
proof fn lemma_address_free_of_brackets(octets: Seq<u8>)
    requires
        octets.len() == 16,
    ensures
        free_of(address_text(octets), ']'),
{
    if holds_ipv4(octets) {
        lemma_ipv4_text(octets);
    } else {
        lemma_address_pieces(octets);
    }
}

} // verus!
