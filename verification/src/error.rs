//! What can be wrong with a frame, a header, a datagram or a target, and
//! what is said of it.
use vstd::prelude::*;
use vstd::string::StringExecFns;

use crate::datagram::MAX_UDP_PAYLOAD;
use crate::text::{decimal, digit, push_decimal, push_hexadecimal};

verus! {

/// Why a frame, a header, a datagram or a target was refused.
#[derive(Clone, Debug, PartialEq, Eq)]
pub enum Error {
    /// More payload than one 802.15.4 frame holds.
    FramePayload,
    /// More bytes than the PHY holds.
    Phy,
    /// A frame cut off inside its header.
    FrameCutOff,
    /// A check sequence that does not check.
    CheckSequence,
    /// Not a data frame with short addresses.
    NotDataFrame,
    /// A 6LoWPAN header cut off.
    LowpanCutOff,
    /// A first fragment without its IPv6 dispatch.
    FirstWithoutIpv6,
    /// A dispatch that is not carried: the dispatch bits of the first byte.
    Dispatch(u8),
    /// More payload, this many bytes, than one datagram carries.
    DatagramPayload(usize),
    /// A datagram cut off inside its IPv6 header.
    DatagramCutOff,
    /// Not IPv6 carrying UDP.
    NotUdp,
    /// A length the datagram does not match.
    Length,
    /// A UDP length that disagrees with IPv6.
    UdpLength,
    /// A checksum that does not check.
    Checksum,
    /// A datagram over what eleven bits size.
    DatagramSize,
    /// A fragment of a datagram that did not start.
    NotStarted,
    /// A fragment past the datagram's size.
    PastSize,
    /// More fragment than datagram.
    MoreThanSize,
    /// A datagram for another port.
    OtherPort,
    /// The fragments of a datagram stopped coming.
    FragmentsStopped,
    /// No datagram came together.
    NothingTogether,
    /// What the leader took is not what was sent.
    Differs,
    /// A target whose path does not read as an address and a port.
    Target(String),
    /// What a radio says that refused a frame or could not be read.
    Radio { message: String, retryable: bool },
}

/// `text` in quotes, as a programmer would write it down: what std's `Debug`
/// for `str` makes of it.
pub uninterp spec fn quoted_text(text: Seq<char>) -> Seq<char>;

/// `text` in quotes, by std's `Debug` for `str` through `format!`. Trusted:
/// that what it makes depends on the characters of `text` alone.
#[verifier::external_body]
fn quoted(text: &str) -> (out: String)
    ensures
        out@ == quoted_text(text@),
{
    format!("{:?}", text)
}

/// What is said of an error.
pub open spec fn message_text(error: Error) -> Seq<char> {
    match error {
        Error::FramePayload => "more than one 802.15.4 frame holds"@,
        Error::Phy => "more than the PHY holds"@,
        Error::FrameCutOff => "a frame cut off inside its header"@,
        Error::CheckSequence => "a check sequence that does not check"@,
        Error::NotDataFrame => "not a data frame with short addresses"@,
        Error::LowpanCutOff => "a 6LoWPAN header cut off"@,
        Error::FirstWithoutIpv6 => "a first fragment without its IPv6 dispatch"@,
        Error::Dispatch(bits) => "a dispatch this crate does not carry: 0x"@ + seq![
            digit(bits as nat / 16),
            digit(bits as nat % 16),
        ],
        Error::DatagramPayload(length) => decimal(length as nat) + " bytes, over the "@ + decimal(
            MAX_UDP_PAYLOAD as nat,
        ) + " one 6LoWPAN datagram carries"@,
        Error::DatagramCutOff => "a datagram cut off inside its IPv6 header"@,
        Error::NotUdp => "not IPv6 carrying UDP"@,
        Error::Length => "a length the datagram does not match"@,
        Error::UdpLength => "a UDP length that disagrees with IPv6"@,
        Error::Checksum => "a checksum that does not check"@,
        Error::DatagramSize => "a datagram over what eleven bits size"@,
        Error::NotStarted => "a fragment of a datagram that did not start"@,
        Error::PastSize => "a fragment past the datagram's size"@,
        Error::MoreThanSize => "more fragment than datagram"@,
        Error::OtherPort => "a datagram for another port"@,
        Error::FragmentsStopped => "the fragments stopped coming"@,
        Error::NothingTogether => "no datagram came together"@,
        Error::Differs => "sent, but what the leader took differs"@,
        Error::Target(path) => quoted_text(path@) + " is not [address]:port"@,
        Error::Radio { message, retryable: _ } => message@,
    }
}

impl Error {
    /// What is said of the error.
    #[must_use]
    pub fn message(&self) -> (message: String)
        ensures
            message@ == message_text(*self),
    {
        let text = match self {
            Error::FramePayload => "more than one 802.15.4 frame holds",
            Error::Phy => "more than the PHY holds",
            Error::FrameCutOff => "a frame cut off inside its header",
            Error::CheckSequence => "a check sequence that does not check",
            Error::NotDataFrame => "not a data frame with short addresses",
            Error::LowpanCutOff => "a 6LoWPAN header cut off",
            Error::FirstWithoutIpv6 => "a first fragment without its IPv6 dispatch",
            Error::Dispatch(bits) => {
                let mut out = String::from_str("a dispatch this crate does not carry: 0x");
                push_hexadecimal(&mut out, (*bits / 16) as u16);
                push_hexadecimal(&mut out, (*bits % 16) as u16);
                assert(out@ =~= message_text(*self));
                return out;
            },
            Error::DatagramPayload(length) => {
                let mut out = String::new();
                push_decimal(&mut out, *length);
                out.append(" bytes, over the ");
                push_decimal(&mut out, MAX_UDP_PAYLOAD);
                out.append(" one 6LoWPAN datagram carries");
                assert(out@ =~= message_text(*self));
                return out;
            },
            Error::DatagramCutOff => "a datagram cut off inside its IPv6 header",
            Error::NotUdp => "not IPv6 carrying UDP",
            Error::Length => "a length the datagram does not match",
            Error::UdpLength => "a UDP length that disagrees with IPv6",
            Error::Checksum => "a checksum that does not check",
            Error::DatagramSize => "a datagram over what eleven bits size",
            Error::NotStarted => "a fragment of a datagram that did not start",
            Error::PastSize => "a fragment past the datagram's size",
            Error::MoreThanSize => "more fragment than datagram",
            Error::OtherPort => "a datagram for another port",
            Error::FragmentsStopped => "the fragments stopped coming",
            Error::NothingTogether => "no datagram came together",
            Error::Differs => "sent, but what the leader took differs",
            Error::Target(path) => {
                let mut out = quoted(path.as_str());
                out.append(" is not [address]:port");
                return out;
            },
            Error::Radio { message, retryable: _ } => message.as_str(),
        };
        String::from_str(text)
    }

    /// Whether the same call may do better another time: where the fragments
    /// stopped coming, or the radio says so.
    #[must_use]
    pub fn is_retryable(&self) -> (retryable: bool)
        ensures
            retryable == (*self is FragmentsStopped || (*self matches Error::Radio {
                message: _,
                retryable: says_so,
            } && says_so)),
    {
        match self {
            Error::FragmentsStopped => true,
            Error::Radio { message: _, retryable } => *retryable,
            _ => false,
        }
    }
}

} // verus!
