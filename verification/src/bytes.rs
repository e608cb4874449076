//! Sixteen-bit numbers on the wire: low byte first in the MAC header, high
//! byte first in the 6LoWPAN, IPv6 and UDP headers.
use vstd::prelude::*;

verus! {

/// The low byte of `value`.
pub open spec fn low(value: u16) -> u8 {
    (value % 256) as u8
}

/// The high byte of `value`.
pub open spec fn high(value: u16) -> u8 {
    (value / 256) as u8
}

/// The number whose high byte is `high` and whose low byte is `low`.
pub open spec fn joined(high: u8, low: u8) -> u16 {
    (high * 256 + low) as u16
}

/// `value` low byte first.
pub open spec fn little(value: u16) -> Seq<u8> {
    seq![low(value), high(value)]
}

/// `value` high byte first.
pub open spec fn big(value: u16) -> Seq<u8> {
    seq![high(value), low(value)]
}

/// Joining the two bytes of a number gives the number.
pub proof fn lemma_joined_of_halves(value: u16)
    ensures
        joined(high(value), low(value)) == value,
{
}

/// The two bytes of a joined number are the bytes it was joined from.
pub proof fn lemma_halves_of_joined(h: u8, l: u8)
    ensures
        high(joined(h, l)) == h,
        low(joined(h, l)) == l,
{
}

/// Appends `value` low byte first.
pub fn push_little(out: &mut Vec<u8>, value: u16)
    ensures
        final(out)@ == old(out)@ + little(value),
{
    out.push((value % 256) as u8);
    out.push((value / 256) as u8);
    assert(out@ =~= old(out)@ + little(value));
}

/// Appends `value` high byte first.
pub fn push_big(out: &mut Vec<u8>, value: u16)
    ensures
        final(out)@ == old(out)@ + big(value),
{
    out.push((value / 256) as u8);
    out.push((value % 256) as u8);
    assert(out@ =~= old(out)@ + big(value));
}

/// The number whose high byte is `high` and whose low byte is `low`.
pub fn join(high: u8, low: u8) -> (value: u16)
    ensures
        value == joined(high, low),
{
    high as u16 * 256 + low as u16
}

/// Appends `bytes`.
pub fn push_bytes(out: &mut Vec<u8>, bytes: &[u8])
    ensures
        final(out)@ == old(out)@ + bytes@,
{
    out.extend_from_slice(bytes);
    assert(out@ =~= old(out)@ + bytes@);
}

/// The bytes of `bytes` from `from` up to `to`, as a vector of their own.
pub fn part(bytes: &[u8], from: usize, to: usize) -> (out: Vec<u8>)
    requires
        from <= to <= bytes@.len(),
    ensures
        out@ == bytes@.subrange(from as int, to as int),
{
    let mut out: Vec<u8> = Vec::new();
    push_bytes(&mut out, vstd::slice::slice_subrange(bytes, from, to));
    assert(out@ =~= bytes@.subrange(from as int, to as int));
    out
}

/// Whether `left` and `right` are the same bytes.
pub fn same(left: &[u8], right: &[u8]) -> (same: bool)
    ensures
        same == (left@ == right@),
{
    if left.len() != right.len() {
        return false;
    }
    let mut at: usize = 0;
    while at < left.len()
        invariant
            at <= left@.len() == right@.len(),
            forall|i: int| 0 <= i < at ==> left@[i] == right@[i],
        decreases left@.len() - at,
    {
        if left[at] != right[at] {
            return false;
        }
        at += 1;
    }
    assert(left@ =~= right@);
    true
}

} // verus!
