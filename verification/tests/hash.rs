//! Content digests and the text form of signatures.

use mirra::hash::{hash_bytes, hash_chunks, ContentHasher};
use mirra::keys::{certificate, KeyRecovery};
use mirra::transfer::{FileReceiver, CHUNK_SIZE};

const EMPTY: &str = "af1349b9f5f9a1a6a0404dea36dcc9499bcb25c9adc112b7cc9a93cae41f3262";

#[test]
fn digest_of_nothing() {
    assert_eq!(hash_bytes(b""), EMPTY);
    assert_eq!(ContentHasher::new().finish(), EMPTY);
    assert_eq!(hash_chunks(&Vec::new()), EMPTY);
    assert_eq!(hash_chunks(&vec![Vec::new(), Vec::new()]), EMPTY);
}

#[test]
fn digest_is_that_of_blake3() {
    for data in [&b"hello"[..], b"world", b"a", &[0u8; 5000]] {
        let ours = hash_bytes(data);
        assert_eq!(ours, blake3::hash(data).to_hex().to_string());
        assert_eq!(ours.len(), 64);
        assert!(ours.chars().all(|c| matches!(c, '0'..='9' | 'a'..='f')));
    }
    assert_ne!(hash_bytes(b"hello"), hash_bytes(b"world"));
    assert_ne!(hash_bytes(b"hello"), hash_bytes(b"hello "));
}

#[test]
fn hashing_twice_gives_the_same_digest() {
    let data = b"the same bytes";
    assert_eq!(hash_bytes(data), hash_bytes(data));
    let mut hasher = ContentHasher::new();
    hasher.update(data);
    let first = hasher.finish();
    assert_eq!(hasher.finish(), first);
    assert_eq!(first, hash_bytes(data));
}

#[test]
fn chunking_does_not_matter() {
    let data: Vec<u8> = (0..10_000u32).map(|i| (i % 251) as u8).collect();
    let whole = hash_bytes(&data);
    for size in [1usize, 7, 64, 1024, CHUNK_SIZE, 9_999, 20_000] {
        let chunks: Vec<Vec<u8>> = data.chunks(size).map(|c| c.to_vec()).collect();
        assert_eq!(hash_chunks(&chunks), whole, "chunks of {}", size);
        let mut hasher = ContentHasher::new();
        for chunk in &chunks {
            hasher.update(chunk);
        }
        assert_eq!(hasher.finish(), whole);
    }
}

#[test]
fn more_can_be_fed_after_a_digest_was_taken() {
    let mut hasher = ContentHasher::new();
    hasher.update(b"foo");
    assert_eq!(hasher.finish(), hash_bytes(b"foo"));
    hasher.update(b"bar");
    assert_eq!(hasher.finish(), hash_bytes(b"foobar"));
}

#[test]
fn certificate_is_standard_base64() {
    assert_eq!(certificate(b"").unwrap(), "");
    assert_eq!(certificate(b"f").unwrap(), "Zg==");
    assert_eq!(certificate(b"fo").unwrap(), "Zm8=");
    assert_eq!(certificate(b"foo").unwrap(), "Zm9v");
    assert_eq!(certificate(b"hello").unwrap(), "aGVsbG8=");
    assert_eq!(certificate(&[0xFB, 0xFF, 0xFE]).unwrap(), "+//+");
    let signature = [0x5Au8; 256];
    assert_eq!(certificate(&signature).unwrap(), base64::encode(signature));
    assert_eq!(certificate(&signature).unwrap().len(), 344);
}

#[test]
fn key_recovery_follows_what_could_be_read() {
    assert_eq!(KeyRecovery::decide(true, true), KeyRecovery::Keep);
    assert_eq!(KeyRecovery::decide(true, false), KeyRecovery::RestorePublic);
    assert_eq!(KeyRecovery::decide(false, true), KeyRecovery::Regenerate);
    assert_eq!(KeyRecovery::decide(false, false), KeyRecovery::Regenerate);
    assert!(KeyRecovery::Keep.keeps_private());
    assert!(KeyRecovery::RestorePublic.keeps_private());
    assert!(!KeyRecovery::Regenerate.keeps_private());
}

#[test]
fn chunk_size_is_four_kibibytes() {
    assert_eq!(CHUNK_SIZE, 4096);
}

#[test]
fn receiver_never_asks_for_more_than_is_outstanding() {
    let mut receiver = FileReceiver::new(10_000);
    assert_eq!(receiver.next_read(), 4096);
    assert!(receiver.advance(4096));
    assert_eq!(receiver.missing(), 5904);
    assert_eq!(receiver.next_read(), 4096);
    // A read may give less than was asked for.
    assert!(receiver.advance(1000));
    assert_eq!(receiver.next_read(), 4096);
    assert!(receiver.advance(4096));
    assert_eq!(receiver.next_read(), 808);
    assert!(!receiver.is_complete());
    assert!(!receiver.advance(808));
    assert!(receiver.is_complete());
    assert_eq!(receiver.next_read(), 0);
    assert_eq!(receiver.missing(), 0);
}

#[test]
fn receiver_stops_on_an_empty_read() {
    let mut receiver = FileReceiver::new(100);
    assert!(receiver.advance(60));
    assert!(!receiver.advance(0));
    assert_eq!(receiver.missing(), 40);
    assert!(!receiver.is_complete());
}

#[test]
fn receiver_of_nothing_is_complete_at_once() {
    let receiver = FileReceiver::new(0);
    assert!(receiver.is_complete());
    assert_eq!(receiver.next_read(), 0);
    let huge = FileReceiver::new(u64::MAX);
    assert_eq!(huge.next_read(), CHUNK_SIZE);
}
