use butterfly::frame::{decode_rumor, encode_rumor, frame_extent, Extent};
use butterfly::member::{Address, Health, Member, MemberId};
use butterfly::message::{
    decode_swim, encode_swim, get_member, put_member, DecodeError, Swim, SwimKind, MAX_DATAGRAM,
};
use butterfly::rumor::{DataKind, Datum, Rumor};
use butterfly::wire::{get_u128, get_varint, put_u128, put_varint};

fn member(n: u128) -> Member {
    Member {
        id: MemberId(n),
        address: Address { ip: 0xffff_c0a8_0000 + n, swim_port: 9638, gossip_port: 19638 },
        incarnation: (n as u64) * 1000,
        health: match n % 3 {
            0 => Health::Alive,
            1 => Health::Suspect,
            _ => Health::Confirmed,
        },
        persistent: n % 2 == 0,
        departed: n % 5 == 0,
    }
}

fn swim(kind: SwimKind, rumors: u128) -> Swim {
    Swim {
        kind,
        sender: MemberId(0xaaaa),
        subject: MemberId(u128::MAX - 3),
        membership: (1..=rumors).map(member).collect(),
    }
}

#[test]
fn varint_bytes() {
    let cases: [(u64, Vec<u8>); 7] = [
        (0, vec![0]),
        (1, vec![1]),
        (127, vec![127]),
        (128, vec![0x80, 1]),
        (300, vec![0xac, 2]),
        (16384, vec![0x80, 0x80, 1]),
        (u64::MAX, vec![0xff, 0xff, 0xff, 0xff, 0xff, 0xff, 0xff, 0xff, 0xff, 1]),
    ];
    for (value, bytes) in cases.iter() {
        let mut out = vec![9u8];
        put_varint(&mut out, *value);
        assert_eq!(&out[1..], &bytes[..]);
        assert_eq!(get_varint(&out, 1), Some((*value, out.len())));
    }
}

#[test]
fn varint_that_does_not_fit_or_end() {
    assert_eq!(get_varint(&[], 0), None);
    assert_eq!(get_varint(&[0x80], 0), None);
    assert_eq!(get_varint(&[1], 1), None);
    assert_eq!(get_varint(&[1], 7), None);
    let over = [0xff, 0xff, 0xff, 0xff, 0xff, 0xff, 0xff, 0xff, 0xff, 2];
    assert_eq!(get_varint(&over, 0), None);
    let long = [0x80, 0x80, 0x80, 0x80, 0x80, 0x80, 0x80, 0x80, 0x80, 0x80, 0];
    assert_eq!(get_varint(&long, 0), None);
    assert_eq!(get_varint(&[0x80, 0], 0), Some((0, 2)));
}

#[test]
fn varint_agrees_with_protobuf() {
    for value in [0u64, 1, 127, 128, 255, 256, 65535, 1 << 32, (1 << 56) - 1, 1 << 63, u64::MAX] {
        let mut mine = Vec::new();
        put_varint(&mut mine, value);
        let mut theirs = Vec::new();
        {
            let mut out = protobuf::CodedOutputStream::vec(&mut theirs);
            out.write_raw_varint64(value).unwrap();
            out.flush().unwrap();
        }
        assert_eq!(mine, theirs);
        let mut input = protobuf::CodedInputStream::from_bytes(&mine);
        assert_eq!(input.read_raw_varint64().unwrap(), value);
    }
}

#[test]
fn sixteen_bytes_most_significant_first() {
    let mut out = Vec::new();
    put_u128(&mut out, 0x0102030405060708090a0b0c0d0e0f10);
    assert_eq!(out, (1..=16).collect::<Vec<u8>>());
    assert_eq!(get_u128(&out, 0), Some((0x0102030405060708090a0b0c0d0e0f10, 16)));
    assert_eq!(get_u128(&out, 1), None);
    out.push(0xff);
    assert_eq!(get_u128(&out, 1), Some((0x02030405060708090a0b0c0d0e0f10ff, 17)));
    for value in [0u128, 1, u128::MAX, 1 << 127] {
        let mut out = Vec::new();
        put_u128(&mut out, value);
        assert_eq!(out, value.to_be_bytes().to_vec());
        assert_eq!(get_u128(&out, 0), Some((value, 16)));
    }
}

#[test]
fn member_record_reads_back() {
    for n in [0u128, 1, 2, 3, 10, 65535, u128::MAX / 7] {
        let mut m = member(n);
        m.incarnation = u64::MAX - (n as u64 % 3);
        let mut out = Vec::new();
        put_member(&mut out, &m);
        assert!(out.len() >= 48 && out.len() <= 61);
        assert_eq!(get_member(&out, 0), Some((m, out.len())));
        assert_eq!(get_member(&out[..out.len() - 1], 0), None);
    }
}

#[test]
fn member_record_is_a_protobuf_record() {
    let m = member(4);
    let mut mine = Vec::new();
    put_member(&mut mine, &m);

    let mut theirs = Vec::new();
    {
        let mut out = protobuf::CodedOutputStream::vec(&mut theirs);
        out.write_bytes(1, &m.id.0.to_be_bytes()).unwrap();
        out.write_bytes(2, &m.address.ip.to_be_bytes()).unwrap();
        out.write_uint32(3, m.address.swim_port as u32).unwrap();
        out.write_uint32(4, m.address.gossip_port as u32).unwrap();
        out.write_uint64(5, m.incarnation).unwrap();
        out.write_uint32(6, 1).unwrap();
        out.write_uint32(7, 1).unwrap();
        out.write_uint32(8, 0).unwrap();
        out.flush().unwrap();
    }
    assert_eq!(mine, theirs);
    assert_eq!(get_member(&theirs, 0), Some((m, theirs.len())));

    let mut input = protobuf::CodedInputStream::from_bytes(&mine);
    assert_eq!(input.read_raw_tag_or_eof().unwrap(), Some((1 << 3) | 2));
    assert_eq!(input.read_bytes().unwrap(), m.id.0.to_be_bytes().to_vec());
    assert_eq!(input.read_raw_tag_or_eof().unwrap(), Some((2 << 3) | 2));
    assert_eq!(input.read_bytes().unwrap(), m.address.ip.to_be_bytes().to_vec());
    assert_eq!(input.read_raw_tag_or_eof().unwrap(), Some(3 << 3));
    assert_eq!(input.read_uint32().unwrap(), 9638);
}

#[test]
fn smallest_datagram_byte_for_byte() {
    let msg = Swim {
        kind: SwimKind::PingReq,
        sender: MemberId(1),
        subject: MemberId(2),
        membership: Vec::new(),
    };
    let (bytes, kept) = encode_swim(&msg);
    assert_eq!(kept, 0);
    let mut expected = vec![1u8, 38, 0x08, 2, 0x12, 16];
    expected.extend_from_slice(&[0; 15]);
    expected.push(1);
    expected.extend_from_slice(&[0x1a, 16]);
    expected.extend_from_slice(&[0; 15]);
    expected.push(2);
    assert_eq!(bytes, expected);
    assert_eq!(decode_swim(&bytes), Ok(msg));
}

#[test]
fn datagrams_read_back() {
    for kind in [SwimKind::Ping, SwimKind::Ack, SwimKind::PingReq] {
        for rumors in 0..=7 {
            let msg = swim(kind, rumors);
            let (bytes, kept) = encode_swim(&msg);
            assert_eq!(kept, rumors as usize);
            assert!(bytes.len() <= MAX_DATAGRAM);
            assert_eq!(decode_swim(&bytes), Ok(msg));
        }
    }
}

#[test]
fn no_datagram_exceeds_512_bytes() {
    for rumors in [10u128, 11, 20, 100] {
        let msg = swim(SwimKind::Ping, rumors);
        let (bytes, kept) = encode_swim(&msg);
        assert!(bytes.len() <= MAX_DATAGRAM);
        assert!(kept < rumors as usize);
        assert!(kept >= 7);
        let mut cut = swim(SwimKind::Ping, rumors);
        cut.membership.truncate(kept);
        assert_eq!(decode_swim(&bytes), Ok(cut.clone()));
        assert_eq!(encode_swim(&cut), (bytes.clone(), kept));
        let mut more = swim(SwimKind::Ping, rumors);
        more.membership.truncate(kept + 1);
        let mut record = Vec::new();
        put_member(&mut record, &more.membership[kept]);
        assert!(bytes.len() + 2 + record.len() > MAX_DATAGRAM);
    }
}

#[test]
fn the_tail_is_what_is_cut() {
    let msg = swim(SwimKind::Ack, 30);
    let (bytes, kept) = encode_swim(&msg);
    let back = decode_swim(&bytes).unwrap();
    assert_eq!(back.membership.len(), kept);
    assert_eq!(&back.membership[..], &msg.membership[..kept]);
}

#[test]
fn unknown_version_is_told_apart() {
    let (mut bytes, _) = encode_swim(&swim(SwimKind::Ping, 2));
    bytes[0] = 2;
    assert_eq!(decode_swim(&bytes), Err(DecodeError::UnknownVersion(2)));
    bytes[0] = 0;
    assert_eq!(decode_swim(&bytes), Err(DecodeError::UnknownVersion(0)));
    let huge = vec![7u8; 4000];
    assert_eq!(decode_swim(&huge), Err(DecodeError::UnknownVersion(7)));
}

#[test]
fn malformed_datagrams() {
    assert_eq!(decode_swim(&[]), Err(DecodeError::Malformed));
    assert_eq!(decode_swim(&[1]), Err(DecodeError::Malformed));
    let (bytes, _) = encode_swim(&swim(SwimKind::Ping, 3));
    for cut in 1..bytes.len() {
        assert_eq!(decode_swim(&bytes[..cut]), Err(DecodeError::Malformed));
    }
    let mut longer = bytes.clone();
    longer.push(0);
    assert_eq!(decode_swim(&longer), Err(DecodeError::Malformed));
    let mut kind = bytes.clone();
    kind[3] = 3;
    assert_eq!(decode_swim(&kind), Err(DecodeError::Malformed));
    let mut key = bytes.clone();
    key[4] = 0x13;
    assert_eq!(decode_swim(&key), Err(DecodeError::Malformed));
    let mut big = vec![1u8; 513];
    big[1] = 0xff;
    assert_eq!(decode_swim(&big), Err(DecodeError::Malformed));
}

#[test]
fn member_rumor_frame_reads_back() {
    for n in [1u128, 2, 3, 99] {
        let rumor = Rumor::Member(member(n));
        let bytes = encode_rumor(&rumor);
        assert_eq!(bytes[0], 1);
        assert_eq!(bytes[1] as usize, bytes.len() - 2);
        assert_eq!(decode_rumor(&bytes), Ok(rumor));
    }
}

#[test]
fn data_rumor_frames_read_back() {
    let kinds = [
        DataKind::Service,
        DataKind::ServiceConfig,
        DataKind::ServiceFile,
        DataKind::Election,
        DataKind::ElectionUpdate,
    ];
    for (i, kind) in kinds.iter().enumerate() {
        for secondary in [None, Some(Vec::new()), Some(b"redis.default@acme".to_vec())] {
            for size in [0usize, 1, 127, 128, 5000] {
                let rumor = Rumor::Data(Datum {
                    kind: *kind,
                    primary: MemberId(500 + i as u128),
                    secondary: secondary.clone(),
                    version: (size as u64) << 20,
                    payload: (0..size).map(|b| (b % 251) as u8).collect(),
                });
                let bytes = encode_rumor(&rumor);
                assert_eq!(decode_rumor(&bytes), Ok(rumor));
            }
        }
    }
}

#[test]
fn smallest_data_frame_byte_for_byte() {
    let rumor = Rumor::Data(Datum {
        kind: DataKind::Election,
        primary: MemberId(3),
        secondary: Some(vec![b'a', b'.', b'b']),
        version: 300,
        payload: vec![0xde, 0xad],
    });
    let mut expected = vec![1u8, 32, 0x08, 4, 0x1a, 16];
    expected.extend_from_slice(&[0; 15]);
    expected.push(3);
    expected.extend_from_slice(&[0x22, 3, b'a', b'.', b'b']);
    expected.extend_from_slice(&[0x28, 0xac, 2]);
    expected.extend_from_slice(&[0x32, 2, 0xde, 0xad]);
    assert_eq!(encode_rumor(&rumor), expected);
}

#[test]
fn malformed_frames() {
    assert_eq!(decode_rumor(&[]), Err(DecodeError::Malformed));
    assert_eq!(decode_rumor(&[9, 0]), Err(DecodeError::UnknownVersion(9)));
    let rumor = Rumor::Data(Datum {
        kind: DataKind::Service,
        primary: MemberId(3),
        secondary: None,
        version: 1,
        payload: vec![1, 2, 3],
    });
    let bytes = encode_rumor(&rumor);
    for cut in 1..bytes.len() {
        assert_eq!(decode_rumor(&bytes[..cut]), Err(DecodeError::Malformed));
    }
    let mut longer = bytes.clone();
    longer.push(0);
    assert_eq!(decode_rumor(&longer), Err(DecodeError::Malformed));
    let mut kind = bytes.clone();
    kind[3] = 6;
    assert_eq!(decode_rumor(&kind), Err(DecodeError::Malformed));
    let mut as_member = bytes.clone();
    as_member[3] = 0;
    assert_eq!(decode_rumor(&as_member), Err(DecodeError::Malformed));
}

#[test]
fn frames_are_found_in_a_stream() {
    let first = encode_rumor(&Rumor::Member(member(1)));
    let second = encode_rumor(&Rumor::Data(Datum {
        kind: DataKind::ServiceFile,
        primary: MemberId(8),
        secondary: None,
        version: 2,
        payload: vec![3; 300],
    }));
    let mut stream = first.clone();
    stream.extend_from_slice(&second);
    stream.extend_from_slice(&[1, 0x80]);

    assert_eq!(frame_extent(&[]), Extent::Incomplete);
    for cut in 1..first.len() {
        assert_eq!(frame_extent(&stream[..cut]), Extent::Incomplete);
    }
    assert_eq!(frame_extent(&stream), Extent::Whole(first.len()));
    assert_eq!(frame_extent(&stream[..first.len()]), Extent::Whole(first.len()));
    let rest = &stream[first.len()..];
    assert_eq!(frame_extent(&rest[..second.len() - 1]), Extent::Incomplete);
    assert_eq!(frame_extent(rest), Extent::Whole(second.len()));
    assert_eq!(decode_rumor(&rest[..second.len()]).unwrap(), decode_rumor(&second).unwrap());
    assert_eq!(frame_extent(&rest[second.len()..]), Extent::Incomplete);
}

#[test]
fn broken_streams_are_told() {
    assert_eq!(frame_extent(&[2]), Extent::Broken(DecodeError::UnknownVersion(2)));
    assert_eq!(frame_extent(&[0, 1, 2]), Extent::Broken(DecodeError::UnknownVersion(0)));
    let mut endless = vec![1u8];
    endless.extend_from_slice(&[0x80; 9]);
    assert_eq!(frame_extent(&endless), Extent::Incomplete);
    endless.push(0x80);
    assert_eq!(frame_extent(&endless), Extent::Broken(DecodeError::Malformed));
    let mut over = vec![1u8];
    over.extend_from_slice(&[0xff; 9]);
    over.push(0x7f);
    assert_eq!(frame_extent(&over), Extent::Broken(DecodeError::Malformed));
    let mut huge = vec![1u8];
    huge.extend_from_slice(&[0xff; 9]);
    huge.push(0x01);
    assert_eq!(frame_extent(&huge), Extent::Broken(DecodeError::Malformed));
    assert_eq!(frame_extent(&[1, 0]), Extent::Whole(2));
}
