//! IPv6 addresses: the mesh-local address that Thread derives from a short
//! address, the short address that a mesh-local address names, and the text
//! an address is written as.
use vstd::prelude::*;
use vstd::string::StringExecFns;

use crate::bytes::{big, join, joined};
use crate::text::{decimal, hexadecimal, push_decimal, push_hexadecimal};

verus! {

/// An IPv6 address, as its sixteen octets.
#[derive(Clone, Copy, Debug, PartialEq, Eq)]
pub struct Address {
    pub octets: [u8; 16],
}

impl View for Address {
    type V = Seq<u8>;

    open spec fn view(&self) -> Seq<u8> {
        self.octets@
    }
}

/// What every mesh-local address begins with: the mesh prefix `fd00::/64`,
/// then `0000:00ff:fe00` of the interface identifier.
pub open spec fn mesh_prefix() -> Seq<u8> {
    seq![0xfdu8, 0, 0, 0, 0, 0, 0, 0, 0, 0, 0, 0xff, 0xfe, 0]
}

/// The octets of the mesh-local address of the node at `rloc16`.
pub open spec fn mesh_local(rloc16: u16) -> Seq<u8> {
    mesh_prefix() + big(rloc16)
}

/// The short address that the address of these octets names, or `None` off
/// the mesh.
pub open spec fn short_address(octets: Seq<u8>) -> Option<u16> {
    if octets.take(14) == mesh_prefix() {
        Some(joined(octets[14], octets[15]))
    } else {
        None
    }
}

/// The eight segments of an address.
pub open spec fn segments(octets: Seq<u8>) -> Seq<u16> {
    Seq::new(8, |i: int| joined(octets[2 * i], octets[2 * i + 1]))
}

/// How many zero segments follow one another from `at`.
pub open spec fn zeros_from(segments: Seq<u16>, at: int) -> nat
    decreases segments.len() - at,
{
    if 0 <= at < segments.len() && segments[at] == 0 {
        1 + zeros_from(segments, at + 1)
    } else {
        0
    }
}

/// Of the places up to `last`, the first with the most zero segments from
/// it.
pub open spec fn longest_zeros(segments: Seq<u16>, last: nat) -> int
    decreases last,
{
    if last == 0 {
        0
    } else {
        let before = longest_zeros(segments, (last - 1) as nat);
        if zeros_from(segments, last as int) > zeros_from(segments, before) {
            last as int
        } else {
            before
        }
    }
}

/// Segments in hexadecimal, colons between them.
pub open spec fn groups(segments: Seq<u16>) -> Seq<char>
    decreases segments.len(),
{
    if segments.len() == 0 {
        Seq::empty()
    } else if segments.len() == 1 {
        hexadecimal(segments[0] as nat)
    } else {
        groups(segments.drop_last()) + ":"@ + hexadecimal(segments.last() as nat)
    }
}

/// Whether the address of these octets holds an IPv4 address.
pub open spec fn holds_ipv4(octets: Seq<u8>) -> bool {
    &&& forall|i: int| 0 <= i < 10 ==> octets[i] == 0
    &&& octets[10] == 0xff
    &&& octets[11] == 0xff
}

/// The text of the address of these octets: its segments in hexadecimal, the
/// longest run of two zero segments or more left out, and the last four
/// octets in decimal where they are an IPv4 address.
pub open spec fn address_text(octets: Seq<u8>) -> Seq<char> {
    let all = segments(octets);
    let start = longest_zeros(all, 7);
    let end = start + zeros_from(all, start);
    if holds_ipv4(octets) {
        "::ffff:"@ + decimal(octets[12] as nat) + "."@ + decimal(octets[13] as nat) + "."@
            + decimal(octets[14] as nat) + "."@ + decimal(octets[15] as nat)
    } else if end - start > 1 {
        groups(all.take(start)) + "::"@ + groups(all.skip(end))
    } else {
        groups(all)
    }
}

/// How many zero segments follow one another from `at`.
fn count_zeros(segments: &[u16; 8], at: usize) -> (count: usize)
    requires
        at <= 8,
    ensures
        count == zeros_from(segments@, at as int),
        at + count <= 8,
    decreases 8 - at,
{
    if at < 8 && segments[at] == 0 {
        1 + count_zeros(segments, at + 1)
    } else {
        0
    }
}

/// Appends the segments from `from` up to `to`, colons between them.
fn push_groups(out: &mut String, segments: &[u16; 8], from: usize, to: usize)
    requires
        from <= to <= 8,
    ensures
        final(out)@ == old(out)@ + groups(segments@.subrange(from as int, to as int)),
{
    let mut at: usize = from;
    assert(segments@.subrange(from as int, from as int) =~= Seq::empty());
    assert(out@ =~= old(out)@ + groups(segments@.subrange(from as int, at as int)));
    while at < to
        invariant
            from <= at <= to <= 8,
            out@ == old(out)@ + groups(segments@.subrange(from as int, at as int)),
        decreases to - at,
    {
        let ghost before = segments@.subrange(from as int, at as int);
        let ghost after = segments@.subrange(from as int, at + 1);
        assert(after.drop_last() =~= before);
        if at > from {
            out.append(":");
        }
        push_hexadecimal(out, segments[at]);
        assert(out@ =~= old(out)@ + groups(after));
        at += 1;
    }
}

impl Address {
    /// The short address this address names, or `None` off the mesh.
    #[must_use]
    pub fn rloc16(&self) -> (rloc16: Option<u16>)
        ensures
            rloc16 == short_address(self@),
    {
        let o = &self.octets;
        let prefix: [u8; 14] = [0xfd, 0, 0, 0, 0, 0, 0, 0, 0, 0, 0, 0xff, 0xfe, 0];
        assert(prefix@ =~= mesh_prefix());
        let mut at: usize = 0;
        while at < 14
            invariant
                at <= 14,
                o == &self.octets,
                prefix@ == mesh_prefix(),
                forall|i: int| 0 <= i < at ==> o@[i] == prefix@[i],
            decreases 14 - at,
        {
            if o[at] != prefix[at] {
                assert(self@.take(14)[at as int] != mesh_prefix()[at as int]);
                return None;
            }
            at += 1;
        }
        assert(self@.take(14) =~= mesh_prefix());
        Some(join(o[14], o[15]))
    }

    /// The eight segments.
    fn segments(&self) -> (all: [u16; 8])
        ensures
            all@ == segments(self@),
    {
        let o = &self.octets;
        let all = [
            join(o[0], o[1]),
            join(o[2], o[3]),
            join(o[4], o[5]),
            join(o[6], o[7]),
            join(o[8], o[9]),
            join(o[10], o[11]),
            join(o[12], o[13]),
            join(o[14], o[15]),
        ];
        assert(all@ =~= segments(self@));
        all
    }

    /// Whether the address holds an IPv4 address.
    fn holds_ipv4(&self) -> (holds: bool)
        ensures
            holds == holds_ipv4(self@),
    {
        let mut at: usize = 0;
        while at < 10
            invariant
                at <= 10,
                forall|i: int| 0 <= i < at ==> self@[i] == 0,
            decreases 10 - at,
        {
            if self.octets[at] != 0 {
                return false;
            }
            at += 1;
        }
        self.octets[10] == 0xff && self.octets[11] == 0xff
    }

    /// The address as text, `fd00::ff:fe00:1a2b`.
    #[must_use]
    pub fn text(&self) -> (text: String)
        ensures
            text@ == address_text(self@),
    {
        let mut out = String::new();
        if self.holds_ipv4() {
            out.append("::ffff:");
            push_decimal(&mut out, self.octets[12] as usize);
            out.append(".");
            push_decimal(&mut out, self.octets[13] as usize);
            out.append(".");
            push_decimal(&mut out, self.octets[14] as usize);
            out.append(".");
            push_decimal(&mut out, self.octets[15] as usize);
            assert(out@ =~= address_text(self@));
            return out;
        }
        let all = self.segments();
        let mut start: usize = 0;
        let mut run: usize = count_zeros(&all, 0);
        let mut at: usize = 0;
        while at < 7
            invariant
                at <= 7,
                start <= 7,
                start == longest_zeros(all@, at as nat),
                run == zeros_from(all@, start as int),
                start + run <= 8,
            decreases 7 - at,
        {
            at += 1;
            let next = count_zeros(&all, at);
            if next > run {
                start = at;
                run = next;
            }
        }
        if run > 1 {
            push_groups(&mut out, &all, 0, start);
            out.append("::");
            push_groups(&mut out, &all, start + run, 8);
            assert(all@.subrange(0, start as int) =~= all@.take(start as int));
            assert(all@.subrange(start + run, 8) =~= all@.skip(start + run));
        } else {
            push_groups(&mut out, &all, 0, 8);
            assert(all@.subrange(0, 8) =~= all@);
        }
        assert(out@ =~= address_text(self@));
        out
    }
}

} // verus!
