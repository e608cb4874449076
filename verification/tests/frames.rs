//! Frames and 6LoWPAN headers.
use thread_transport::crc::check_value;
use thread_transport::frame::{Frame, Lowpan, MAX_PAYLOAD, MAX_PHY};
use thread_transport::Error;

#[test]
fn a_data_frame_ends_in_the_check_sequence_the_standard_computes() {
    let frame = Frame::new(7, 0x0000, 0x1a2b, b"hi").expect("frame");
    let bytes = frame.encode();
    assert_eq!(&bytes[..9], &[0x41, 0x88, 7, 0xce, 0xfa, 0, 0, 0x2b, 0x1a]);
    assert_eq!(bytes.len(), 9 + 2 + 2);
    assert_eq!(Frame::decode(&bytes).expect("decode"), frame);
    let mut bad = bytes.clone();
    bad[10] ^= 1;
    assert!(Frame::decode(&bad).is_err(), "check sequence");
    assert!(Frame::decode(&bytes[..8]).is_err(), "cut off");
    assert!(Frame::decode(&[0; MAX_PHY + 1]).is_err(), "too long");
    let mut beacon = bytes;
    beacon[0] = 0x40;
    let crc = check_value(&beacon[..beacon.len() - 2]).to_le_bytes();
    beacon.truncate(beacon.len() - 2);
    beacon.extend_from_slice(&crc);
    assert!(Frame::decode(&beacon).is_err(), "not a data frame");
    assert!(Frame::new(0, 0, 0, &[0; MAX_PAYLOAD + 1]).is_err());
    assert!(Frame::new(0, 0, 0, &[0; MAX_PAYLOAD]).is_ok());
}

#[test]
fn the_three_lowpan_headers_read_back_as_written() {
    let whole = Lowpan::Ipv6(vec![6, 0, 0, 0]);
    assert_eq!(whole.encode(), [0x41, 6, 0, 0, 0]);
    assert_eq!(Lowpan::decode(&whole.encode()).expect("decode"), whole);
    let first = Lowpan::Frag1 {
        size: 1000,
        tag: 0x1234,
        bytes: vec![6, 0],
    };
    assert_eq!(first.encode(), [0xc3, 0xe8, 0x12, 0x34, 0x41, 6, 0]);
    assert_eq!(Lowpan::decode(&first.encode()).expect("decode"), first);
    let later = Lowpan::FragN {
        size: 1000,
        tag: 0x1234,
        offset: 13,
        bytes: vec![9],
    };
    assert_eq!(later.encode(), [0xe3, 0xe8, 0x12, 0x34, 13, 9]);
    assert_eq!(Lowpan::decode(&later.encode()).expect("decode"), later);
    assert!(Lowpan::decode(&[]).is_err(), "empty");
    assert!(Lowpan::decode(&[0xc3, 0xe8]).is_err(), "cut off");
    assert!(
        Lowpan::decode(&[0xc3, 0xe8, 0x12, 0x34, 0x00]).is_err(),
        "no IPv6"
    );
    assert!(
        Lowpan::decode(&[0x60, 0, 0, 0]).is_err(),
        "IPHC is not carried"
    );
}

#[test]
fn the_check_value_is_the_one_in_the_catalogue() {
    assert_eq!(check_value(b"123456789"), 0x2189);
    assert_eq!(check_value(b""), 0);
}

#[test]
fn the_check_sequence_travels_low_byte_first() {
    let bytes = Frame::new(7, 0x0000, 0x1a2b, b"hi").expect("frame").encode();
    assert_eq!(&bytes[9..], &[b'h', b'i', 0x4a, 0xb6]);
}

#[test]
fn each_thing_wrong_with_a_frame_has_its_own_error() {
    let bytes = Frame::new(7, 0x0000, 0x1a2b, b"hi").expect("frame").encode();
    assert_eq!(Frame::decode(&[0; 128]), Err(Error::Phy));
    assert_eq!(Frame::decode(&bytes[..10]), Err(Error::FrameCutOff));
    assert_eq!(Frame::decode(&bytes[..12]), Err(Error::CheckSequence));
    let mut acknowledgement = vec![0x42, 0x88, 7, 0xce, 0xfa, 0, 0, 0x2b, 0x1a];
    let check = check_value(&acknowledgement);
    acknowledgement.extend_from_slice(&check.to_le_bytes());
    assert_eq!(Frame::decode(&acknowledgement), Err(Error::NotDataFrame));
    assert_eq!(
        Frame::new(0, 0, 0, &[0; 117]).expect_err("long"),
        Error::FramePayload
    );
}

#[test]
fn any_changed_byte_of_a_frame_is_refused() {
    let bytes = Frame::new(255, 0x1234, 0xfffe, &[0, 0xff, 0x41])
        .expect("frame")
        .encode();
    for at in 0..bytes.len() {
        for by in 1..=255u8 {
            let mut changed = bytes.clone();
            changed[at] ^= by;
            assert_eq!(Frame::decode(&changed), Err(Error::CheckSequence));
        }
    }
}

#[test]
fn a_frame_that_reads_is_written_the_same_way() {
    let mut bytes = vec![0x41, 0x88, 9, 0x34, 0x12, 1, 2, 3, 4, 5];
    let check = check_value(&bytes);
    bytes.extend_from_slice(&check.to_le_bytes());
    let frame = Frame::decode(&bytes).expect("decode");
    assert_eq!(frame.pan, 0x1234);
    assert_eq!(frame.destination, 0x0201);
    assert_eq!(frame.source, 0x0403);
    assert_eq!(frame.payload, [5]);
    assert_eq!(frame.encode(), bytes);
}

#[test]
fn each_thing_wrong_with_a_header_has_its_own_error() {
    assert_eq!(Lowpan::decode(&[]), Err(Error::LowpanCutOff));
    assert_eq!(Lowpan::decode(&[0xc0, 0, 0]), Err(Error::LowpanCutOff));
    assert_eq!(Lowpan::decode(&[0xe0, 0, 0, 0]), Err(Error::LowpanCutOff));
    assert_eq!(
        Lowpan::decode(&[0xc0, 0, 0, 0]),
        Err(Error::FirstWithoutIpv6)
    );
    assert_eq!(
        Lowpan::decode(&[0xc0, 0, 0, 0, 0x42]),
        Err(Error::FirstWithoutIpv6)
    );
    assert_eq!(
        Lowpan::decode(&[0x65, 0, 0, 0]),
        Err(Error::Dispatch(0x60))
    );
    assert_eq!(
        Lowpan::decode(&[0x65, 0, 0]),
        Err(Error::LowpanCutOff),
        "the header is cut off before its dispatch is looked at"
    );
}

#[test]
fn a_size_past_eleven_bits_does_not_reach_the_dispatch() {
    let first = Lowpan::Frag1 {
        size: 0xffff,
        tag: 1,
        bytes: vec![],
    };
    assert_eq!(first.encode(), [0xc7, 0xff, 0, 1, 0x41]);
    assert_eq!(
        Lowpan::decode(&first.encode()),
        Ok(Lowpan::Frag1 {
            size: 2047,
            tag: 1,
            bytes: vec![]
        })
    );
}

#[test]
fn a_header_that_reads_is_written_the_same_way() {
    for payload in [
        vec![0x41],
        vec![0xc7, 0xff, 1, 2, 0x41, 3],
        vec![0xe0, 0, 1, 2, 255, 3],
    ] {
        assert_eq!(Lowpan::decode(&payload).expect("decode").encode(), payload);
    }
}
