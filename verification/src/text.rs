//! Numbers as text.
use vstd::prelude::*;
use vstd::string::StringExecFns;

verus! {

/// The digit for `value`, below sixteen.
pub open spec fn digit(value: nat) -> char {
    if value < 10 {
        ('0' as u8 + value) as char
    } else {
        ('a' as u8 + (value - 10)) as char
    }
}

/// `value` in decimal, without leading zeros.
pub open spec fn decimal(value: nat) -> Seq<char>
    decreases value,
{
    if value < 10 {
        seq![digit(value)]
    } else {
        decimal(value / 10).push(digit(value % 10))
    }
}

/// `value` in lower-case hexadecimal, without leading zeros.
pub open spec fn hexadecimal(value: nat) -> Seq<char>
    decreases value,
{
    if value < 16 {
        seq![digit(value)]
    } else {
        hexadecimal(value / 16).push(digit(value % 16))
    }
}

/// The digit for `value`, as text.
fn digit_text(value: u8) -> (text: &'static str)
    requires
        value < 16,
    ensures
        text@ == seq![digit(value as nat)],
{
    proof {
        reveal_strlit("0");
        reveal_strlit("1");
        reveal_strlit("2");
        reveal_strlit("3");
        reveal_strlit("4");
        reveal_strlit("5");
        reveal_strlit("6");
        reveal_strlit("7");
        reveal_strlit("8");
        reveal_strlit("9");
        reveal_strlit("a");
        reveal_strlit("b");
        reveal_strlit("c");
        reveal_strlit("d");
        reveal_strlit("e");
        reveal_strlit("f");
    }
    let text = match value {
        0 => "0",
        1 => "1",
        2 => "2",
        3 => "3",
        4 => "4",
        5 => "5",
        6 => "6",
        7 => "7",
        8 => "8",
        9 => "9",
        10 => "a",
        11 => "b",
        12 => "c",
        13 => "d",
        14 => "e",
        _ => "f",
    };
    assert(text@ =~= seq![digit(value as nat)]);
    text
}

/// Appends `value` in decimal.
pub fn push_decimal(out: &mut String, value: usize)
    ensures
        final(out)@ == old(out)@ + decimal(value as nat),
    decreases value,
{
    if value >= 10 {
        push_decimal(out, value / 10);
    }
    out.append(digit_text((value % 10) as u8));
    assert(out@ =~= old(out)@ + decimal(value as nat));
}

/// Appends `value` in lower-case hexadecimal.
pub fn push_hexadecimal(out: &mut String, value: u16)
    ensures
        final(out)@ == old(out)@ + hexadecimal(value as nat),
    decreases value,
{
    if value >= 16 {
        push_hexadecimal(out, value / 16);
    }
    out.append(digit_text((value % 16) as u8));
    assert(out@ =~= old(out)@ + hexadecimal(value as nat));
}

} // verus!
