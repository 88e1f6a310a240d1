//! Typed writing to and reading from a stream of bytes.

use mirra::packet::Message;
use mirra::stream::{ReadAny, Reader, WriteAny};
use mirra::wire::DecodeError;

#[test]
fn values_written_are_read_back_in_order() {
    let header = Message::FileHeader {
        path: "sub/b.txt".to_string(),
        hash: "00ff".to_string(),
        cert: "c2ln".to_string(),
    };
    let list = vec!["x".to_string(), "yz".to_string()];
    let mut stream: Vec<u8> = Vec::new();
    assert_eq!(stream.write_any(true), Ok(1));
    assert_eq!(stream.write_any("h\u{e9}".to_string()), Ok(7));
    assert_eq!(stream.write_any(list.clone()), Ok(15));
    assert_eq!(stream.write_any(header.clone()), Ok(30));
    assert_eq!(stream.write_any(false), Ok(1));
    assert_eq!(stream.write_any(Message::Skip), Ok(1));
    assert_eq!(stream.len(), 55);

    let mut reader = Reader::new(&stream);
    assert_eq!(reader.remaining(), 55);
    let flag: Result<bool, DecodeError> = reader.read_any();
    assert_eq!(flag, Ok(true));
    let text: Result<String, DecodeError> = reader.read_any();
    assert_eq!(text, Ok("h\u{e9}".to_string()));
    let names: Result<Vec<String>, DecodeError> = reader.read_any();
    assert_eq!(names, Ok(list));
    let message: Result<Message, DecodeError> = reader.read_any();
    assert_eq!(message, Ok(header));
    let flag: Result<bool, DecodeError> = reader.read_any();
    assert_eq!(flag, Ok(false));
    let message: Result<Message, DecodeError> = reader.read_any();
    assert_eq!(message, Ok(Message::Skip));
    assert_eq!(reader.remaining(), 0);
    let none: Result<bool, DecodeError> = reader.read_any();
    assert_eq!(none, Err(DecodeError::Incomplete(1)));
}

#[test]
fn a_failed_read_takes_nothing() {
    let bytes = [0, 0, 0, 2, 0xC3, 0x28, 7];
    let mut reader = Reader::new(&bytes);
    let text: Result<String, DecodeError> = reader.read_any();
    assert_eq!(text, Err(DecodeError::Invalid));
    assert_eq!(reader.remaining(), 7);
    let message: Result<Message, DecodeError> = reader.read_any();
    assert_eq!(message, Err(DecodeError::Invalid));
    assert_eq!(reader.remaining(), 7);
    let flag: Result<bool, DecodeError> = reader.read_any();
    assert_eq!(flag, Ok(false));
    assert_eq!(reader.remaining(), 6);

    let short = [3, 0, 0, 0, 4, b'd', b'o'];
    let mut reader = Reader::new(&short);
    let message: Result<Message, DecodeError> = reader.read_any();
    assert_eq!(message, Err(DecodeError::Incomplete(2)));
    assert_eq!(reader.remaining(), 7);
    let names: Result<Vec<String>, DecodeError> = reader.read_any();
    assert!(matches!(names, Err(DecodeError::Incomplete(_))));
    assert_eq!(reader.remaining(), 7);
}

#[test]
fn writing_appends_to_what_is_there() {
    let mut stream = vec![0xAA, 0xBB];
    assert_eq!(stream.write_any(Message::Handshake { module: "m".to_string() }), Ok(6));
    assert_eq!(stream, vec![0xAA, 0xBB, 3, 0, 0, 0, 1, b'm']);
    let empty: Vec<String> = Vec::new();
    assert_eq!(stream.write_any(empty), Ok(4));
    assert_eq!(stream.len(), 12);
}
