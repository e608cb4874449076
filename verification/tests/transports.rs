//! Nodes on radios.
use std::collections::VecDeque;
use std::sync::{Arc, Mutex};

use thread_transport::datagram::Datagram;
use thread_transport::frame::Frame;
use thread_transport::sending::frames_of;
use thread_transport::{
    Address, Arrived, Endpoint, Error, Heard, LoopbackRadio, Named, Radio, Reception,
    ThreadTransport, Timeout, MAX_UDP_PAYLOAD,
};

const TIMEOUT: Timeout = Timeout { secs: 2, nanos: 0 };

/// The shapes a protocol breaks on, up to the ceiling.
fn edge_payloads() -> Vec<(&'static str, Vec<u8>)> {
    let patterned = |len: usize| -> Vec<u8> {
        (0..len)
            .map(|at| u8::try_from((at * 31 + at / 251) % 256).unwrap_or(0))
            .collect()
    };
    vec![
        ("empty", Vec::new()),
        ("one byte", vec![0x2a]),
        ("every byte", (0..=255).collect()),
        ("nul run", vec![0; 512]),
        ("high bytes", vec![0xff; 512]),
        ("crlf storm", b"\r\n".repeat(400)),
        ("mtu", patterned(1_472)),
        ("the brim", patterned(MAX_UDP_PAYLOAD)),
    ]
}

fn named(path: &str, endpoint: Option<Endpoint>) -> Option<Named> {
    Some(Named {
        path: path.to_string(),
        endpoint,
    })
}

#[test]
fn a_loopback_round_carries_a_datagram_to_the_leader() {
    let mut loopback = ThreadTransport::loopback(TIMEOUT);
    let arrived = loopback.round(b"unlock").expect("round");
    assert_eq!(arrived.bytes, b"unlock");
    assert_eq!(
        arrived.origin_uri,
        "thread://loopback/[fd00::ff:fe00:1a2b]:5683"
    );
    let long = vec![7; 1000];
    assert_eq!(loopback.round(&long).expect("fragments").bytes, long);
    assert_eq!(loopback.ceiling(), Some(1_999));
    assert_eq!(loopback.name(), "thread");
}

#[test]
fn the_loopback_returns_the_edges_whole_and_refuses_over_the_brim() {
    let mut loopback = ThreadTransport::loopback(TIMEOUT);
    for (name, bytes) in edge_payloads() {
        let arrived = loopback
            .round(&bytes)
            .unwrap_or_else(|error| panic!("{name}: {error:?}"));
        assert_eq!(arrived.bytes, bytes, "{name}");
    }
    let error = loopback
        .round(&vec![0; MAX_UDP_PAYLOAD + 1])
        .expect_err("over");
    assert!(error.message().contains("over the 1999"), "{error:?}");
}

#[test]
fn a_target_names_an_address_and_port_and_a_bad_one_is_refused() {
    let mut loopback = ThreadTransport::loopback(TIMEOUT);
    let seven = Endpoint {
        address: Datagram::address_of(7),
        port: 61631,
    };
    loopback
        .send(named("[fd00::ff:fe00:7]:61631", Some(seven)), b"to seven")
        .expect("sending");
    let datagram = loopback.radio_mut().take().expect("taken");
    assert_eq!(datagram.destination, Datagram::address_of(7));
    assert_eq!(datagram.destination_port, 61631);
    assert_eq!(datagram.payload, b"to seven");
    assert_eq!(
        ThreadTransport::<LoopbackRadio>::rloc16_of(&datagram.destination),
        Some(7)
    );
    let off_mesh = Address {
        octets: [0x20, 1, 0x0d, 0xb8, 0, 0, 0, 0, 0, 0, 0, 0, 0, 0, 0, 1],
    };
    assert_eq!(off_mesh.text(), "2001:db8::1");
    assert!(ThreadTransport::<LoopbackRadio>::rloc16_of(&off_mesh).is_none());
    assert!(loopback.send(named("seven", None), b"x").is_err());
}

/// Takes one datagram, or nothing where the air is quiet.
fn receive_one<R: Radio>(node: &mut ThreadTransport<R>) -> Result<Option<Arrived>, Error> {
    let mut reception = Reception::new();
    loop {
        match node.receive_one(&mut reception)? {
            Heard::More => {}
            Heard::Quiet => return Ok(None),
            Heard::Whole(arrived) => return Ok(Some(arrived)),
        }
    }
}

/// The datagrams there are to take: one, or none.
fn receive<R: Radio>(node: &mut ThreadTransport<R>) -> Result<Vec<Arrived>, Error> {
    Ok(receive_one(node)?.into_iter().collect())
}

/// Two ends of one air: what one transmits, the other receives.
struct End {
    air: Arc<Mutex<VecDeque<Vec<u8>>>>,
    hears: bool,
}

impl Radio for End {
    fn name(&self) -> &str {
        "air"
    }

    fn transmit(&mut self, frame: &[u8]) -> Result<(), Error> {
        self.air.lock().expect("lock").push_back(frame.to_vec());
        Ok(())
    }

    fn receive(&mut self, _timeout: Timeout) -> Result<Option<Vec<u8>>, Error> {
        if !self.hears {
            return Ok(None);
        }
        Ok(self.air.lock().expect("lock").pop_front())
    }
}

fn ends() -> (End, End) {
    let air = Arc::new(Mutex::new(VecDeque::new()));
    (
        End {
            air: Arc::clone(&air),
            hears: true,
        },
        End { air, hears: false },
    )
}

#[test]
fn the_node_takes_a_datagram_over_any_radio() {
    let (hearing, speaking) = ends();
    let mut node = ThreadTransport::new(hearing, 0).timing_out_after(TIMEOUT);
    assert!(
        receive(&mut node).expect("quiet").is_empty(),
        "nothing is not an error"
    );
    let mut sender = ThreadTransport::new(speaking, 0x1a2b);
    sender.send(None, &[9; 300]).expect("sending");
    let arrived = receive(&mut node).expect("taking");
    assert_eq!(arrived.len(), 1);
    assert_eq!(arrived[0].bytes, [9; 300]);
    assert_eq!(
        arrived[0].origin_uri,
        "thread://air/[fd00::ff:fe00:1a2b]:5683"
    );
    assert!(receive_one(&mut node).expect("quiet").is_none(), "one only");
    let (_, speaking) = ends();
    let mut sender = ThreadTransport::new(speaking, 1);
    let off_mesh = Endpoint {
        address: Address {
            octets: [0xfd, 0, 0, 0, 0, 0, 0, 0, 0, 0, 0, 0, 0, 0, 0, 1],
        },
        port: 9,
    };
    assert!(
        sender
            .send(named("[fd00::1]:9", Some(off_mesh)), b"x")
            .is_ok(),
        "off-mesh goes to the leader"
    );
    let frame = sender.radio_mut().air.lock().expect("lock").pop_front();
    assert_eq!(
        Frame::decode(&frame.expect("frame")).expect("decode").destination,
        0x0000
    );
}

#[test]
fn a_refused_target_sends_nothing_and_says_which() {
    let (mut hearing, speaking) = ends();
    let mut sender = ThreadTransport::new(speaking, 1);
    let error = sender.send(named("seven", None), b"x").expect_err("refused");
    assert_eq!(error, Error::Target("seven".to_string()));
    assert_eq!(error.message(), "\"seven\" is not [address]:port");
    assert_eq!(hearing.receive(TIMEOUT), Ok(None));
    sender.send(named("", None), b"x").expect("no path");
    let frame = hearing.receive(TIMEOUT).expect("air").expect("frame");
    assert_eq!(Frame::decode(&frame).expect("decode").sequence, 0, "unused");
}

#[test]
fn the_frames_of_one_datagram_follow_one_another() {
    let (mut hearing, speaking) = ends();
    let mut sender = ThreadTransport::new(speaking, 0x0401);
    let to = Endpoint {
        address: Datagram::address_of(0x2c00),
        port: 5683,
    };
    for _ in 0..255 {
        sender.send_datagram(to, b"").expect("sending");
        assert!(hearing.receive(TIMEOUT).expect("air").is_some());
    }
    sender.send_datagram(to, &[1; 200]).expect("sending");
    let mut sequences = Vec::new();
    while let Some(bytes) = hearing.receive(TIMEOUT).expect("air") {
        let frame = Frame::decode(&bytes).expect("decode");
        assert_eq!(frame.pan, 0xface);
        assert_eq!(frame.destination, 0x2c00);
        assert_eq!(frame.source, 0x0401);
        assert_eq!(&frame.payload[2..4], &[0, 255], "the tag");
        sequences.push(frame.sequence);
    }
    assert_eq!(sequences, [255, 0, 1]);
}

#[test]
fn a_payload_over_the_brim_is_refused_before_anything_is_sent() {
    let (mut hearing, speaking) = ends();
    let mut sender = ThreadTransport::new(speaking, 1);
    assert_eq!(
        sender.send(None, &[0; 2000]),
        Err(Error::DatagramPayload(2000))
    );
    assert_eq!(hearing.receive(TIMEOUT), Ok(None));
    sender.send(None, b"x").expect("sending");
    let frame = hearing.receive(TIMEOUT).expect("air").expect("frame");
    assert_eq!(
        Frame::decode(&frame).expect("decode").sequence,
        1,
        "the refused one had a sequence too"
    );
}

/// A radio that refuses what it is given once it has taken so many.
struct Failing(usize);

impl Radio for Failing {
    fn name(&self) -> &str {
        "failing"
    }

    fn transmit(&mut self, _frame: &[u8]) -> Result<(), Error> {
        if self.0 == 0 {
            return Err(Error::Radio {
                message: "no air".to_string(),
                retryable: true,
            });
        }
        self.0 -= 1;
        Ok(())
    }

    fn receive(&mut self, _timeout: Timeout) -> Result<Option<Vec<u8>>, Error> {
        Err(Error::Radio {
            message: "no ear".to_string(),
            retryable: false,
        })
    }
}

#[test]
fn what_a_radio_refuses_is_refused() {
    let mut node = ThreadTransport::new(Failing(2), 1);
    let error = node.send(None, &[0; 300]).expect_err("refused");
    assert_eq!(error.message(), "no air");
    assert!(error.is_retryable());
    assert_eq!(receive(&mut node).expect_err("deaf").message(), "no ear");
    let error = receive_one(&mut node).expect_err("deaf");
    assert_eq!(error.message(), "no ear");
    assert!(!error.is_retryable());
    assert!(ThreadTransport::new(Failing(4), 1)
        .send(None, &[0; 300])
        .is_ok());
}

#[test]
fn fragments_that_stop_coming_are_an_error_to_try_again() {
    let (hearing, speaking) = ends();
    let mut sender = ThreadTransport::new(speaking, 1);
    sender.send(None, &[9; 300]).expect("sending");
    sender.radio_mut().air.lock().expect("lock").pop_back();
    let error = receive_one(&mut ThreadTransport::new(hearing, 0)).expect_err("stopped");
    assert_eq!(error, Error::FragmentsStopped);
    assert!(error.is_retryable());
    assert_eq!(error.message(), "the fragments stopped coming");
}

#[test]
fn a_lost_fragment_is_missed_though_another_came_twice() {
    let (hearing, speaking) = ends();
    let mut sender = ThreadTransport::new(speaking, 1);
    let mut payload = vec![7; 160];
    payload.extend_from_slice(&[0xff; 104]);
    payload.extend_from_slice(&[8; 8]);
    sender.send(None, &payload).expect("sending");
    {
        let mut air = sender.radio_mut().air.lock().expect("lock");
        assert_eq!(air.len(), 4);
        let second = air[1].clone();
        air[2] = second;
    }
    let mut node = ThreadTransport::new(hearing, 0);
    assert_eq!(
        receive_one(&mut node),
        Err(Error::FragmentsStopped),
        "the bytes of the third never came"
    );
    sender.send(None, &payload).expect("sending");
    let arrived = receive_one(&mut node).expect("taking").expect("one");
    assert_eq!(arrived.bytes, payload);
}

#[test]
fn the_counters_start_at_zero_and_wrap() {
    let (hearing, speaking) = ends();
    let air = Arc::clone(&hearing.air);
    let mut sender = ThreadTransport::new(speaking, 1);
    let mut numbers = |payload: &[u8]| {
        sender.send(None, payload).expect("sending");
        let frame = air.lock().expect("lock").drain(..).next().expect("frame");
        let frame = Frame::decode(&frame).expect("decode");
        (frame.sequence, [frame.payload[2], frame.payload[3]])
    };
    assert_eq!(numbers(&[1; 200]), (0, [0, 0]));
    for k in 1..65535u32 {
        let (sequence, _) = numbers(&[]);
        assert_eq!(u32::from(sequence), k % 256);
    }
    assert_eq!(numbers(&[1; 200]), (255, [0xff, 0xff]));
    assert_eq!(numbers(&[1; 200]), (0, [0, 0]));
    assert_eq!(numbers(&[1; 200]), (1, [0, 1]));
}

#[test]
fn the_counters_are_handed_out_in_turn() {
    let mut node = ThreadTransport::new(LoopbackRadio::new(), 1);
    for k in 0..70_000u32 {
        let (sequence, tag) = node.next_counters();
        assert_eq!(u32::from(sequence), k % 256);
        assert_eq!(u32::from(tag), k % 65536);
    }
}

#[test]
fn a_reception_is_taken_up_where_it_was_left() {
    let (hearing, speaking) = ends();
    let mut sender = ThreadTransport::new(speaking, 1);
    sender.send(None, &[9; 300]).expect("sending");
    let mut node = ThreadTransport::new(hearing, 0);
    let mut reception = Reception::new();
    let first = node.radio_mut().receive(TIMEOUT);
    assert_eq!(reception.hear(first, 5683, "air"), Ok(Heard::More));
    assert_eq!(
        node.receive_one(&mut reception),
        Ok(Heard::Whole(Arrived {
            origin_uri: "thread://air/[fd00::ff:fe00:1]:5683".to_string(),
            bytes: vec![9; 300],
        }))
    );
}

#[test]
fn a_datagram_for_another_port_is_refused() {
    let (hearing, speaking) = ends();
    let mut sender = ThreadTransport::new(speaking, 1);
    let to = Endpoint {
        address: Datagram::address_of(0),
        port: 5684,
    };
    sender.send_datagram(to, b"x").expect("sending");
    assert_eq!(
        receive_one(&mut ThreadTransport::new(hearing, 0)),
        Err(Error::OtherPort)
    );
}

#[test]
fn a_reception_says_what_has_come_so_far() {
    let datagram = Datagram {
        source: Datagram::address_of(3),
        destination: Datagram::address_of(0),
        source_port: 49152,
        destination_port: 5683,
        payload: vec![5; 80],
    };
    let frames = frames_of(&datagram, 3, 0, 0).expect("frames");
    assert_eq!(frames.len(), 2);
    let mut reception = Reception::new();
    assert_eq!(reception.hear(Ok(None), 5683, "air"), Ok(Heard::Quiet));
    assert_eq!(
        reception.hear(Ok(Some(frames[0].clone())), 5683, "air"),
        Ok(Heard::More)
    );
    assert_eq!(
        reception.hear(Ok(None), 5683, "air"),
        Err(Error::FragmentsStopped)
    );
    assert_eq!(
        reception.hear(Ok(Some(frames[1].clone())), 5683, "air"),
        Ok(Heard::Whole(Arrived {
            origin_uri: "thread://air/[fd00::ff:fe00:3]:49152".to_string(),
            bytes: vec![5; 80],
        }))
    );
    assert_eq!(
        reception.hear(Ok(Some(vec![1])), 5683, "air"),
        Err(Error::FrameCutOff)
    );
}

#[test]
fn the_leader_holds_datagrams_in_the_order_they_came() {
    let mut loopback = ThreadTransport::loopback(TIMEOUT);
    assert_eq!(loopback.take_one(), Err(Error::NothingTogether));
    loopback.send(None, b"first").expect("sending");
    loopback.send(None, &[2; 500]).expect("sending");
    assert_eq!(loopback.take_one().expect("one").bytes, b"first");
    assert_eq!(loopback.round(b"third"), Err(Error::Differs));
    assert_eq!(loopback.take_one().expect("two").bytes, b"third");
    assert!(receive_one(&mut loopback).expect("quiet").is_none());
    assert!(LoopbackRadio::new().take().is_none());
}

#[test]
fn the_loopback_refuses_a_frame_that_does_not_read() {
    let mut radio = LoopbackRadio::new();
    assert_eq!(radio.name(), "loopback");
    assert_eq!(radio.transmit(&[1, 2, 3]), Err(Error::FrameCutOff));
    let frame = Frame::new(0, 0, 1, &[0x60, 0, 0, 0]).expect("frame");
    assert_eq!(radio.transmit(&frame.encode()), Err(Error::Dispatch(0x60)));
    let frame = Frame::new(0, 0, 1, &[0x41, 0x60]).expect("frame");
    assert_eq!(radio.transmit(&frame.encode()), Err(Error::DatagramCutOff));
    assert!(radio.take().is_none());
}

#[test]
fn a_node_knows_its_address_and_where_it_sends() {
    let mut loopback = ThreadTransport::loopback(TIMEOUT);
    assert_eq!(loopback.address(), Datagram::address_of(0x1a2b));
    assert_eq!(
        loopback.destination(),
        Endpoint {
            address: Datagram::address_of(0),
            port: 5683
        }
    );
    assert_eq!(
        loopback.origin(&Datagram::address_of(0xffff), 65535),
        "thread://loopback/[fd00::ff:fe00:ffff]:65535"
    );
    assert_eq!(
        ThreadTransport::<LoopbackRadio>::rloc16_of(&loopback.address()),
        Some(0x1a2b)
    );
    let _ = loopback.radio_mut();
}

#[test]
fn an_error_says_what_is_wrong() {
    assert_eq!(
        Error::Dispatch(0x60).message(),
        "a dispatch this crate does not carry: 0x60"
    );
    assert_eq!(
        Error::Dispatch(0x08).message(),
        "a dispatch this crate does not carry: 0x08"
    );
    assert_eq!(
        Error::DatagramPayload(2000).message(),
        "2000 bytes, over the 1999 one 6LoWPAN datagram carries"
    );
    assert_eq!(
        Error::CheckSequence.message(),
        "a check sequence that does not check"
    );
    assert_eq!(
        Error::Target("a\"b".to_string()).message(),
        "\"a\\\"b\" is not [address]:port"
    );
    assert!(!Error::Checksum.is_retryable());
}
