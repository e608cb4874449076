//! CRC-16/KERMIT, the check sequence at the end of an 802.15.4 frame: the
//! polynomial `x^16 + x^12 + x^5 + 1` taken low bit first, from zero.
use vstd::prelude::*;

verus! {

/// The polynomial, its coefficients reversed: the register shifts right.
pub const POLYNOMIAL: u16 = 0x8408;

/// The register after one more bit: the lowest bit leaves it, and a one
/// takes the polynomial with it.
pub open spec fn after_bit(register: u16) -> u16 {
    if register & 1 == 1 {
        (register >> 1) ^ POLYNOMIAL
    } else {
        register >> 1
    }
}

/// The register after `bits` more bits.
pub open spec fn after_bits(register: u16, bits: nat) -> u16
    decreases bits,
{
    if bits == 0 {
        register
    } else {
        after_bit(after_bits(register, (bits - 1) as nat))
    }
}

/// The register after one more byte.
pub open spec fn after_byte(register: u16, byte: u8) -> u16 {
    after_bits(register ^ byte as u16, 8)
}

/// The check value of `bytes`.
pub open spec fn crc(bytes: Seq<u8>) -> u16
    decreases bytes.len(),
{
    if bytes.len() == 0 {
        0
    } else {
        after_byte(crc(bytes.drop_last()), bytes.last())
    }
}

/// The CRC-16/KERMIT check value of `bytes`.
pub fn check_value(bytes: &[u8]) -> (check: u16)
    ensures
        check == crc(bytes@),
{
    let mut register: u16 = 0;
    let mut at: usize = 0;
    while at < bytes.len()
        invariant
            at <= bytes@.len(),
            register == crc(bytes@.take(at as int)),
        decreases bytes@.len() - at,
    {
        let ghost before = register;
        register = register ^ bytes[at] as u16;
        let ghost start = register;
        let mut bit: usize = 0;
        while bit < 8
            invariant
                bit <= 8,
                register == after_bits(start, bit as nat),
            decreases 8 - bit,
        {
            if register & 1 == 1 {
                register = (register >> 1) ^ POLYNOMIAL;
            } else {
                register = register >> 1;
            }
            bit += 1;
        }
        proof {
            assert(bytes@.take(at + 1).drop_last() =~= bytes@.take(at as int));
        }
        at += 1;
    }
    assert(bytes@.take(at as int) =~= bytes@);
    register
}

} // verus!
