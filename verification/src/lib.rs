//! Streams that arrive over Thread. One UDP datagram is one Stream: whole
//! in one 802.15.4 frame where it fits, else in 6LoWPAN fragments put back
//! together by tag at the node it was sent to.
//!
//! Thread is IPv6 on the 802.15.4 radio of a building's locks, lights and
//! thermostats: a mesh of routers and end devices with mesh-local addresses
//! derived from their short addresses, and a border router where the mesh
//! meets the rest of the network. What is here is the data frame, the
//! uncompressed IPv6 dispatch and the FRAG1 and FRAGN headers, the IPv6 and
//! UDP headers with the checksum, and the reassembly.
//!
//! The radio is a trait: [`LoopbackRadio`] is the receiving node in-process.
//! The origin of a Stream names the radio and the sender:
//! `thread://loopback/[fd00::ff:fe00:1a2b]:49152`.
//!
//! Every type has a model, its view, and every function says over the models
//! what it returns and what it changes. What follows for the library as a
//! whole is proved in [`laws`].
pub mod address;
pub mod bytes;
pub mod checksum;
pub mod crc;
pub mod datagram;
pub mod error;
pub mod fragment;
pub mod frame;
pub mod laws;
pub mod loopback;
pub mod radio;
pub mod reception;
pub mod sending;
pub mod text;
pub mod transport;

pub use address::Address;
pub use datagram::{Datagram, Reassembly, MAX_UDP_PAYLOAD};
pub use error::Error;
pub use frame::{Frame, Lowpan};
pub use radio::{LoopbackRadio, Radio, Timeout};
pub use reception::{Arrived, Heard, Reception};
pub use transport::{Endpoint, Named, ThreadTransport};
