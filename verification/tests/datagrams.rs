//! Datagrams, their fragments and the reassembly.
use thread_transport::address::Address;
use thread_transport::datagram::{
    checksum, fragments, Datagram, Reassembly, FRAG1_BYTES, FRAGN_BYTES, MAX_UDP_PAYLOAD,
    MAX_UNFRAGMENTED,
};
use thread_transport::frame::{Lowpan, MAX_DATAGRAM, MAX_PAYLOAD};
use thread_transport::Error;

fn datagram(payload: &[u8]) -> Datagram {
    Datagram {
        source: Datagram::address_of(0x1a2b),
        destination: Datagram::address_of(0x0000),
        source_port: 49152,
        destination_port: 5683,
        payload: payload.to_vec(),
    }
}

#[test]
fn a_datagram_carries_its_checksum_and_reads_back() {
    let sent = datagram(b"hello");
    let bytes = sent.encode().expect("encode");
    assert_eq!(bytes.len(), 48 + 5);
    assert_eq!(bytes[0], 0x60);
    assert_eq!(&bytes[4..8], &[0, 13, 17, 64]);
    assert_eq!(&bytes[40..46], &[0xc0, 0x00, 0x16, 0x33, 0, 13]);
    assert_eq!(Datagram::decode(&bytes).expect("decode"), sent);
    let mut bad = bytes.clone();
    bad[50] ^= 1;
    assert!(Datagram::decode(&bad).is_err(), "checksum");
    assert!(Datagram::decode(&bytes[..52]).is_err(), "length");
    let mut tcp = bytes.clone();
    tcp[6] = 6;
    assert!(Datagram::decode(&tcp).is_err(), "not UDP");
    assert!(Datagram::decode(&bytes[..30]).is_err(), "cut off");
    assert!(datagram(&[0; MAX_UDP_PAYLOAD + 1]).encode().is_err());
    assert!(datagram(&[0; MAX_UDP_PAYLOAD]).encode().is_ok());
    assert_eq!(
        Datagram::address_of(0x1a2b).text(),
        "fd00::ff:fe00:1a2b"
    );
}

#[test]
fn a_long_datagram_is_fragments_that_come_back_together() {
    let payload: Vec<u8> = (0..600u32)
        .map(|n| u8::try_from(n % 256).unwrap_or(0))
        .collect();
    let bytes = datagram(&payload).encode().expect("encode");
    let cut = fragments(&bytes, 0x0042).expect("fragments");
    assert_eq!(cut.len(), 7, "648 bytes: 104 and six of up to 104");
    assert!(matches!(cut[0], Lowpan::Frag1 { size: 648, .. }));
    assert!(matches!(cut[1], Lowpan::FragN { offset: 13, .. }));
    for fragment in &cut {
        assert!(fragment.encode().len() <= MAX_PAYLOAD);
    }
    let mut reassembly = Reassembly::default();
    let mut whole = None;
    for fragment in cut {
        assert!(whole.is_none(), "not complete before the last");
        whole = reassembly.take(fragment).expect("fragment");
    }
    assert_eq!(whole, Some(bytes));
    let short = fragments(&[6; 100], 1).expect("whole");
    assert_eq!(short, vec![Lowpan::Ipv6(vec![6; 100])]);
    assert!(fragments(&[0; MAX_DATAGRAM + 1], 1).is_err());
}

#[test]
fn a_fragment_out_of_place_is_refused() {
    let mut reassembly = Reassembly::default();
    let stray = Lowpan::FragN {
        size: 200,
        tag: 1,
        offset: 13,
        bytes: vec![0; 8],
    };
    assert!(reassembly.take(stray.clone()).is_err(), "no first");
    let first = Lowpan::Frag1 {
        size: 200,
        tag: 2,
        bytes: vec![0; 104],
    };
    assert!(reassembly.take(first).expect("first").is_none());
    assert!(reassembly.take(stray).is_err(), "another tag");
    let beyond = Lowpan::FragN {
        size: 200,
        tag: 2,
        offset: 25,
        bytes: vec![0; 8],
    };
    assert!(reassembly.take(beyond).is_err(), "past the size");
    let last = Lowpan::FragN {
        size: 200,
        tag: 2,
        offset: 13,
        bytes: vec![1; 96],
    };
    let whole = reassembly.take(last).expect("last").expect("complete");
    assert_eq!(whole.len(), 200);
    assert_eq!(whole[104], 1);
}

#[test]
fn the_checksum_is_the_one_the_standard_computes() {
    let bytes = datagram(b"hello").encode().expect("encode");
    assert_eq!(&bytes[46..48], &[0xd3, 0xa1]);
    let node = Datagram::address_of(0x1a2b);
    let leader = Datagram::address_of(0);
    assert_eq!(checksum(&node, &leader, &bytes[40..]), 0, "filled in");
    assert_eq!(checksum(&leader, &leader, &[0, 0, 0, 0, 0, 8, 0, 0]), 0x07dd);
}

#[test]
fn a_computed_zero_travels_as_all_ones() {
    let sent = datagram(&[0x17, 0x7a]);
    let bytes = sent.encode().expect("encode");
    assert_eq!(&bytes[46..48], &[0xff, 0xff]);
    assert_eq!(Datagram::decode(&bytes).expect("decode"), sent);
}

#[test]
fn each_thing_wrong_with_a_datagram_has_its_own_error() {
    let bytes = datagram(b"hello").encode().expect("encode");
    assert_eq!(Datagram::decode(&bytes[..39]), Err(Error::DatagramCutOff));
    let mut four = bytes.clone();
    four[0] = 0x40;
    assert_eq!(Datagram::decode(&four), Err(Error::NotUdp));
    assert_eq!(Datagram::decode(&bytes[..52]), Err(Error::Length));
    let mut short = bytes[..47].to_vec();
    short[5] = 7;
    assert_eq!(Datagram::decode(&short), Err(Error::Length), "under a header");
    let mut disagreeing = bytes.clone();
    disagreeing[45] = 12;
    assert_eq!(Datagram::decode(&disagreeing), Err(Error::UdpLength));
    let mut other = bytes.clone();
    other[40] ^= 0x80;
    assert_eq!(Datagram::decode(&other), Err(Error::Checksum));
    assert_eq!(
        datagram(&[0; 2000]).encode(),
        Err(Error::DatagramPayload(2000))
    );
    assert_eq!(fragments(&[0; 2048], 1), Err(Error::DatagramSize));
}

#[test]
fn any_changed_byte_the_checksum_covers_is_refused() {
    let sent = datagram(&[0, 0xff, 7]);
    let bytes = sent.encode().expect("encode");
    for at in 0..bytes.len() {
        for by in 1..=255u8 {
            let mut changed = bytes.clone();
            changed[at] ^= by;
            let read = Datagram::decode(&changed);
            if at == 1 || at == 2 || at == 3 || at == 7 || (at == 0 && by < 16) {
                assert_eq!(read, Ok(sent.clone()), "on the way these may change");
            } else {
                assert!(read.is_err(), "{at} by {by}");
            }
        }
    }
}

#[test]
fn what_fits_one_frame_goes_whole_and_one_byte_more_does_not() {
    assert_eq!(MAX_UNFRAGMENTED, 67);
    let whole = datagram(&[1; MAX_UNFRAGMENTED]).encode().expect("encode");
    assert_eq!(whole.len(), MAX_PAYLOAD - 1);
    assert_eq!(
        fragments(&whole, 9).expect("whole"),
        vec![Lowpan::Ipv6(whole.clone())]
    );
    let over = datagram(&[1; MAX_UNFRAGMENTED + 1])
        .encode()
        .expect("encode");
    let cut = fragments(&over, 9).expect("fragments");
    assert_eq!(cut.len(), 2);
    assert_eq!(
        cut[1],
        Lowpan::FragN {
            size: 116,
            tag: 9,
            offset: 13,
            bytes: over[104..].to_vec()
        }
    );
}

#[test]
fn the_largest_datagram_is_twenty_fragments_that_fit() {
    assert_eq!((FRAG1_BYTES, FRAGN_BYTES), (104, 104));
    let bytes = datagram(&[3; MAX_UDP_PAYLOAD]).encode().expect("encode");
    assert_eq!(bytes.len(), MAX_DATAGRAM);
    let cut = fragments(&bytes, 1).expect("fragments");
    assert_eq!(cut.len(), 20);
    assert!(matches!(cut[19], Lowpan::FragN { offset: 247, .. }));
    for fragment in &cut {
        assert!(fragment.encode().len() <= MAX_PAYLOAD);
    }
}

#[test]
fn the_later_fragments_may_come_in_any_order() {
    let bytes: Vec<u8> = (0..500u32).map(|n| (n * 7 % 251) as u8).collect();
    let cut = fragments(&bytes, 0xbeef).expect("fragments");
    assert_eq!(cut.len(), 5);
    for order in [[1, 2, 3, 4], [4, 3, 2, 1], [2, 4, 1, 3], [4, 1, 2, 3]] {
        let mut reassembly = Reassembly::default();
        assert_eq!(reassembly.take(cut[0].clone()), Ok(None));
        for at in &order[..3] {
            assert_eq!(reassembly.take(cut[*at].clone()), Ok(None));
        }
        assert_eq!(
            reassembly.take(cut[order[3]].clone()),
            Ok(Some(bytes.clone()))
        );
    }
}

#[test]
fn each_thing_wrong_with_a_fragment_has_its_own_error() {
    let later = |tag: u16, offset: u8, len: usize| Lowpan::FragN {
        size: 200,
        tag,
        offset,
        bytes: vec![5; len],
    };
    let mut reassembly = Reassembly::default();
    assert_eq!(reassembly.take(later(1, 13, 8)), Err(Error::NotStarted));
    let first = Lowpan::Frag1 {
        size: 200,
        tag: 1,
        bytes: vec![0; 104],
    };
    assert_eq!(reassembly.take(first), Ok(None));
    assert_eq!(reassembly.take(later(2, 13, 8)), Err(Error::NotStarted));
    assert_eq!(reassembly.take(later(1, 25, 1)), Err(Error::PastSize));
    assert_eq!(reassembly.take(later(1, 0, 104)), Err(Error::MoreThanSize));
    assert_eq!(reassembly.take(later(1, 13, 8)), Err(Error::MoreThanSize));
    let over = Lowpan::Frag1 {
        size: 4,
        tag: 1,
        bytes: vec![0; 5],
    };
    assert_eq!(reassembly.take(over), Err(Error::PastSize));
}

#[test]
fn strays_leave_the_datagram_under_way() {
    let bytes: Vec<u8> = (0..150u8).collect();
    let cut = fragments(&bytes, 7).expect("fragments");
    let mut reassembly = Reassembly::default();
    assert_eq!(reassembly.take(cut[0].clone()), Ok(None));
    assert_eq!(
        reassembly.take(Lowpan::Ipv6(vec![1, 2])),
        Ok(Some(vec![1, 2]))
    );
    let stray = Lowpan::FragN {
        size: 150,
        tag: 8,
        offset: 13,
        bytes: vec![0; 46],
    };
    assert_eq!(reassembly.take(stray), Err(Error::NotStarted));
    assert_eq!(reassembly.take(cut[1].clone()), Ok(Some(bytes)));
    assert_eq!(
        reassembly.take(cut[1].clone()),
        Err(Error::NotStarted),
        "it came together already"
    );
}

#[test]
fn a_repeated_fragment_does_not_fill_a_gap() {
    let first = Lowpan::Frag1 {
        size: 24,
        tag: 3,
        bytes: vec![1; 8],
    };
    let later = |offset: u8, byte: u8| Lowpan::FragN {
        size: 24,
        tag: 3,
        offset,
        bytes: vec![byte; 8],
    };
    let mut reassembly = Reassembly::default();
    assert_eq!(reassembly.take(first.clone()), Ok(None));
    assert_eq!(reassembly.take(later(1, 2)), Ok(None));
    assert_eq!(reassembly.take(later(1, 2)), Ok(None), "a gap is left");
    assert_eq!(
        reassembly.take(later(2, 3)),
        Err(Error::MoreThanSize),
        "more has come than the size"
    );
    assert_eq!(reassembly.take(first.clone()), Ok(None), "it starts over");
    assert_eq!(reassembly.take(later(2, 3)), Ok(None));
    let mut whole = vec![1; 8];
    whole.extend_from_slice(&[2; 8]);
    whole.extend_from_slice(&[3; 8]);
    assert_eq!(reassembly.take(later(1, 2)), Ok(Some(whole)));
}

#[test]
fn a_fragment_that_overlaps_does_not_fill_a_gap() {
    let mut reassembly = Reassembly::default();
    let first = Lowpan::Frag1 {
        size: 20,
        tag: 3,
        bytes: vec![1; 10],
    };
    let later = Lowpan::FragN {
        size: 20,
        tag: 3,
        offset: 1,
        bytes: vec![2; 10],
    };
    assert_eq!(reassembly.take(first), Ok(None));
    assert_eq!(reassembly.take(later), Ok(None));
}

#[test]
fn a_first_fragment_starts_over() {
    let bytes: Vec<u8> = (0..150u8).collect();
    let cut = fragments(&bytes, 7).expect("fragments");
    let mut reassembly = Reassembly::default();
    assert_eq!(reassembly.take(cut[0].clone()), Ok(None));
    assert_eq!(reassembly.take(cut[0].clone()), Ok(None));
    assert_eq!(reassembly.take(cut[1].clone()), Ok(Some(bytes)));
    let nothing = Lowpan::Frag1 {
        size: 0,
        tag: 1,
        bytes: vec![],
    };
    assert_eq!(reassembly.take(nothing), Ok(Some(vec![])));
}

#[test]
fn an_address_is_written_as_short_as_it_goes() {
    let text = |octets: [u8; 16]| Address { octets }.text();
    assert_eq!(text([0; 16]), "::");
    assert_eq!(text([0, 0, 0, 0, 0, 0, 0, 0, 0, 0, 0, 0, 0, 0, 0, 1]), "::1");
    assert_eq!(
        text([0x20, 1, 0x0d, 0xb8, 0, 0, 0, 0, 0, 0, 0, 0, 0, 0, 0, 1]),
        "2001:db8::1"
    );
    assert_eq!(
        text([0, 1, 0, 0, 0, 0, 0, 2, 0, 0, 0, 0, 0, 3, 0, 4]),
        "1::2:0:0:3:4",
        "the first of two runs alike"
    );
    assert_eq!(
        text([0, 1, 0, 0, 0, 0, 0, 2, 0, 0, 0, 0, 0, 0, 0, 4]),
        "1:0:0:2::4",
        "the longer of two runs"
    );
    assert_eq!(
        text([0, 1, 0, 0, 0, 2, 0, 3, 0, 4, 0, 5, 0xab, 0xcd, 0, 0x70]),
        "1:0:2:3:4:5:abcd:70",
        "one zero is no run"
    );
    assert_eq!(
        text([0xfe, 0x80, 0, 0, 0, 0, 0, 0, 0, 0, 0, 0, 0, 0, 0, 0]),
        "fe80::"
    );
    assert_eq!(
        text([0, 0, 0, 0, 0, 0, 0, 0, 0, 0, 0xff, 0xff, 192, 0, 2, 10]),
        "::ffff:192.0.2.10"
    );
}
