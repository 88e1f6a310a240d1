//! The wire form of messages and of the values they are made of.

use mirra::packet::{Message, Packet, PacketKind};
use mirra::wire::{
    fits, list_fits, read_bool, read_string, read_string_list, read_strings, read_u32, read_u64,
    read_u8, write_bool, write_string, write_string_list, write_u32, write_u64, write_u8,
    DecodeError,
};

fn all_messages() -> Vec<Message> {
    vec![
        Message::Okay,
        Message::Close,
        Message::Handshake { module: "docs".to_string() },
        Message::Handshake { module: String::new() },
        Message::NotFound,
        Message::Heartbeat,
        Message::BeginSync,
        Message::EndSync,
        Message::FileHeader {
            path: "sub/b.txt".to_string(),
            hash: "af1349b9f5f9a1a6a0404dea36dcc9499bcb25c9adc112b7cc9a93cae41f3262".to_string(),
            cert: "c2lnbmF0dXJl".to_string(),
        },
        Message::FileHeader {
            path: "gr\u{fc}\u{df}e/\u{4e16}\u{754c}/\u{1f600}.txt".to_string(),
            hash: String::new(),
            cert: String::new(),
        },
        Message::File { size: 0 },
        Message::File { size: 5 },
        Message::File { size: u64::MAX },
        Message::File { size: 0x0102_0304_0506_0708 },
        Message::Remove { path: "a.txt".to_string() },
        Message::Rename { old: "a.txt".to_string(), new: "a2.txt".to_string() },
        Message::Skip,
    ]
}

#[test]
fn kind_bytes_are_the_protocol_numbers() {
    let table = [
        (PacketKind::Okay, 0x1u8),
        (PacketKind::Close, 0x2),
        (PacketKind::Handshake, 0x3),
        (PacketKind::NotFound, 0x4),
        (PacketKind::Heartbeat, 0x5),
        (PacketKind::BeginSync, 0x6),
        (PacketKind::EndSync, 0x7),
        (PacketKind::FileHeader, 0x8),
        (PacketKind::File, 0x9),
        (PacketKind::Remove, 0xA),
        (PacketKind::Rename, 0xB),
        (PacketKind::Skip, 0xC),
    ];
    for (kind, byte) in table {
        assert_eq!(kind.code(), byte);
        assert_eq!(PacketKind::from_u8(byte), Some(kind));
    }
}

#[test]
fn unknown_kind_bytes_are_no_kind() {
    assert_eq!(PacketKind::from_u8(0), None);
    for byte in 13..=255u8 {
        assert_eq!(PacketKind::from_u8(byte), None);
    }
}

#[test]
fn every_message_survives_the_round_trip() {
    for m in all_messages() {
        let bytes = m.encode().expect("encodable");
        assert_eq!(bytes[0], m.kind().code());
        assert_eq!(Message::decode(&bytes), Ok((m.clone(), bytes.len())));
    }
}

#[test]
fn round_trip_ignores_what_follows() {
    for m in all_messages() {
        let mut bytes = m.encode().unwrap();
        let len = bytes.len();
        bytes.extend_from_slice(&[0x0C, 0xFF, 0x00]);
        assert_eq!(Message::decode(&bytes), Ok((m, len)));
    }
}

#[test]
fn messages_on_one_stream_are_read_one_by_one() {
    let mut stream = Vec::new();
    for m in all_messages() {
        let written = m.write_to(&mut stream);
        assert_eq!(written, m.encode().unwrap().len());
    }
    let mut at = 0;
    for m in all_messages() {
        let (got, used) = Message::decode(&stream[at..]).unwrap();
        assert_eq!(got, m);
        at += used;
    }
    assert_eq!(at, stream.len());
}

#[test]
fn exact_bytes_of_some_messages() {
    assert_eq!(Message::Okay.encode().unwrap(), vec![1]);
    assert_eq!(Message::Skip.encode().unwrap(), vec![12]);
    assert_eq!(
        Message::Handshake { module: "m".to_string() }.encode().unwrap(),
        vec![3, 0, 0, 0, 1, b'm']
    );
    assert_eq!(
        Message::File { size: 0x0102_0304_0506_0708 }.encode().unwrap(),
        vec![9, 1, 2, 3, 4, 5, 6, 7, 8]
    );
    assert_eq!(
        Message::Rename { old: "a".to_string(), new: "bc".to_string() }.encode().unwrap(),
        vec![11, 0, 0, 0, 1, b'a', 0, 0, 0, 2, b'b', b'c']
    );
    assert_eq!(
        Message::FileHeader { path: "p".to_string(), hash: "h".to_string(), cert: String::new() }
            .encode()
            .unwrap(),
        vec![8, 0, 0, 0, 1, b'p', 0, 0, 0, 1, b'h', 0, 0, 0, 0]
    );
    assert_eq!(
        Message::Remove { path: "\u{e9}".to_string() }.encode().unwrap(),
        vec![10, 0, 0, 0, 2, 0xC3, 0xA9]
    );
}

#[test]
fn every_prefix_of_a_message_is_incomplete() {
    for m in all_messages() {
        let bytes = m.encode().unwrap();
        for cut in 0..bytes.len() {
            match Message::decode(&bytes[..cut]) {
                Err(DecodeError::Incomplete(n)) => {
                    assert!(n >= 1 && cut + n <= bytes.len(), "{:?} cut at {}", m, cut)
                }
                other => panic!("{:?} cut at {} gave {:?}", m, cut, other),
            }
        }
    }
}

#[test]
fn incomplete_says_how_much_is_missing() {
    assert_eq!(Message::decode(&[]), Err(DecodeError::Incomplete(1)));
    assert_eq!(Message::decode(&[3]), Err(DecodeError::Incomplete(4)));
    assert_eq!(Message::decode(&[3, 0, 0]), Err(DecodeError::Incomplete(2)));
    assert_eq!(Message::decode(&[3, 0, 0, 0, 5, b'a']), Err(DecodeError::Incomplete(4)));
    assert_eq!(Message::decode(&[9, 0, 0, 0]), Err(DecodeError::Incomplete(5)));
    // The second string of a Rename is asked for once the first is whole.
    assert_eq!(Message::decode(&[11, 0, 0, 0, 1, b'a']), Err(DecodeError::Incomplete(4)));
}

#[test]
fn a_reader_that_follows_incomplete_gets_the_message() {
    for m in all_messages() {
        let bytes = m.encode().unwrap();
        let mut have = 0;
        let mut rounds = 0;
        let got = loop {
            match Message::decode(&bytes[..have]) {
                Ok((got, used)) => {
                    assert_eq!(used, have);
                    break got;
                }
                Err(DecodeError::Incomplete(n)) => have += n,
                Err(DecodeError::Invalid) => panic!("invalid"),
            }
            rounds += 1;
            assert!(rounds < 10);
        };
        assert_eq!(got, m);
    }
}

#[test]
fn unknown_kind_is_invalid() {
    assert_eq!(Message::decode(&[0]), Err(DecodeError::Invalid));
    assert_eq!(Message::decode(&[13, 0, 0, 0, 0]), Err(DecodeError::Invalid));
    assert_eq!(Message::decode(&[0xFF]), Err(DecodeError::Invalid));
}

#[test]
fn bad_utf8_is_invalid() {
    assert_eq!(Message::decode(&[3, 0, 0, 0, 1, 0xFF]), Err(DecodeError::Invalid));
    assert_eq!(Message::decode(&[10, 0, 0, 0, 2, 0xC3, 0x28]), Err(DecodeError::Invalid));
    // An overlong encoding and a lone surrogate are no UTF-8 either.
    assert_eq!(Message::decode(&[10, 0, 0, 0, 2, 0xC0, 0x80]), Err(DecodeError::Invalid));
    assert_eq!(Message::decode(&[10, 0, 0, 0, 3, 0xED, 0xA0, 0x80]), Err(DecodeError::Invalid));
    // The second string of a header may be the bad one.
    assert_eq!(
        Message::decode(&[8, 0, 0, 0, 1, b'p', 0, 0, 0, 1, 0x80, 0, 0, 0, 0]),
        Err(DecodeError::Invalid)
    );
}

#[test]
fn integers_are_big_endian() {
    let mut out = Vec::new();
    write_u8(&mut out, 0xAB);
    write_u32(&mut out, 0x0102_0304);
    write_u64(&mut out, 0x1122_3344_5566_7788);
    assert_eq!(
        out,
        vec![0xAB, 1, 2, 3, 4, 0x11, 0x22, 0x33, 0x44, 0x55, 0x66, 0x77, 0x88]
    );
    assert_eq!(read_u8(&out, 0), Ok((0xAB, 1)));
    assert_eq!(read_u32(&out, 1), Ok((0x0102_0304, 5)));
    assert_eq!(read_u64(&out, 5), Ok((0x1122_3344_5566_7788, 13)));
    assert_eq!(read_u32(&out, 11), Err(DecodeError::Incomplete(2)));
    assert_eq!(read_u64(&out, 13), Err(DecodeError::Incomplete(8)));
    assert_eq!(read_u8(&out, 13), Err(DecodeError::Incomplete(1)));
}

#[test]
fn integer_extremes_round_trip() {
    for v in [0u32, 1, 255, 256, 65_535, 65_536, 0x00FF_FFFF, 0x0100_0000, u32::MAX] {
        let mut out = Vec::new();
        write_u32(&mut out, v);
        assert_eq!(out, v.to_be_bytes().to_vec());
        assert_eq!(read_u32(&out, 0), Ok((v, 4)));
    }
    for v in [0u64, 1, u32::MAX as u64, u32::MAX as u64 + 1, u64::MAX - 1, u64::MAX] {
        let mut out = Vec::new();
        write_u64(&mut out, v);
        assert_eq!(out, v.to_be_bytes().to_vec());
        assert_eq!(read_u64(&out, 0), Ok((v, 8)));
    }
}

#[test]
fn bool_is_one_byte_and_non_zero_is_true() {
    let mut out = Vec::new();
    write_bool(&mut out, true);
    write_bool(&mut out, false);
    assert_eq!(out, vec![1, 0]);
    assert_eq!(read_bool(&out, 0), Ok((true, 1)));
    assert_eq!(read_bool(&out, 1), Ok((false, 2)));
    assert_eq!(read_bool(&[7], 0), Ok((true, 1)));
    assert_eq!(read_bool(&[0xFF], 0), Ok((true, 1)));
    assert_eq!(read_bool(&[], 0), Err(DecodeError::Incomplete(1)));
}

#[test]
fn string_is_length_then_utf8() {
    let mut out = vec![0xEE];
    assert!(fits("h\u{e9}llo"));
    write_string(&mut out, "h\u{e9}llo");
    assert_eq!(out, vec![0xEE, 0, 0, 0, 6, b'h', 0xC3, 0xA9, b'l', b'l', b'o']);
    assert_eq!(read_string(&out, 1), Ok(("h\u{e9}llo".to_string(), 11)));
    assert_eq!(read_string(&out[..8], 1), Err(DecodeError::Incomplete(3)));
    assert_eq!(read_string(&[0, 0, 0, 0], 0), Ok((String::new(), 4)));
    assert_eq!(read_string(&[0, 0, 0, 1, 0x80], 0), Err(DecodeError::Invalid));
    assert_eq!(read_string(&[0xFF, 0xFF, 0xFF, 0xFF], 0), Err(DecodeError::Incomplete(0xFFFF_FFFF)));
}

#[test]
fn string_list_is_count_then_strings() {
    let list = vec!["a".to_string(), String::new(), "bc".to_string()];
    assert!(list_fits(&list));
    let mut out = Vec::new();
    write_string_list(&mut out, &list);
    assert_eq!(
        out,
        vec![0, 0, 0, 3, 0, 0, 0, 1, b'a', 0, 0, 0, 0, 0, 0, 0, 2, b'b', b'c']
    );
    assert_eq!(read_string_list(&out, 0), Ok((list.clone(), out.len())));
    assert_eq!(read_string_list(&out[..out.len() - 1], 0), Err(DecodeError::Incomplete(1)));
    assert_eq!(read_strings(&out, 4, 2), Ok((vec!["a".to_string(), String::new()], 13)));
    assert_eq!(read_strings(&out, 4, 0), Ok((Vec::new(), 4)));

    let empty: Vec<String> = Vec::new();
    let mut out = Vec::new();
    write_string_list(&mut out, &empty);
    assert_eq!(out, vec![0, 0, 0, 0]);
    assert_eq!(read_string_list(&out, 0), Ok((empty, 4)));
    // A count that promises more strings than are there.
    assert_eq!(read_string_list(&[0, 0, 0, 2, 0, 0, 0, 0], 0), Err(DecodeError::Incomplete(4)));
    assert_eq!(read_string_list(&[0, 0, 0, 1, 0, 0, 0, 1, 0xFF], 0), Err(DecodeError::Invalid));
}

#[test]
fn clone_keeps_the_message() {
    for m in all_messages() {
        assert_eq!(m.clone(), m);
        assert!(m.can_encode());
    }
}
