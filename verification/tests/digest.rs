use bytes::BytesMut;
use sha2::Digest as _;
use wirecheck::accumulate::Accumulator;
use wirecheck::digest::{digest_chunks, hex_lower, Digest, DigestEngine};

const EMPTY: &str = "e3b0c44298fc1c149afbf4c8996fb92427ae41e4649b934ca495991b7852b855";
const ABC: &str = "ba7816bf8f01cfea414140de5dae2223b00361a396177a9cb410ff61f20015ad";
const DIGITS: &str = "84d89877f0d4041efb6bf91a16f0248f2fd573e6af05c19f96bedb9f882f7882";

fn hex(bytes: &[u8]) -> String {
    String::from_utf8(hex_lower(bytes)).unwrap()
}

fn digest_of_pieces(pieces: &[&[u8]]) -> Digest {
    let mut engine = DigestEngine::new();
    for piece in pieces {
        engine.update(piece);
    }
    engine.finish()
}

#[test]
fn hex_is_lower_case_with_two_digits_a_byte() {
    assert_eq!(hex(&[]), "");
    assert_eq!(hex(&[0x00]), "00");
    assert_eq!(hex(&[0x0f, 0xf0, 0xa9, 0x9a]), "0ff0a99a");
    assert_eq!(hex(&[0x01, 0x23, 0x45, 0x67, 0x89, 0xab, 0xcd, 0xef]), "0123456789abcdef");
    assert_eq!(hex(&[0xff]), "ff");
}

#[test]
fn digest_of_nothing() {
    let digest = DigestEngine::new().finish();
    assert_eq!(digest.length, 0);
    assert_eq!(hex(&digest.bytes), EMPTY);
}

#[test]
fn digest_of_known_messages() {
    let digest = digest_of_pieces(&[b"abc"]);
    assert_eq!(digest.length, 3);
    assert_eq!(hex(&digest.bytes), ABC);
    let digest = digest_of_pieces(&[b"0123456789"]);
    assert_eq!(digest.length, 10);
    assert_eq!(hex(&digest.bytes), DIGITS);
}

#[test]
fn digest_agrees_with_the_hash_function() {
    let message: Vec<u8> = (0..5000u32).map(|k| (k % 256) as u8).collect();
    let digest = digest_of_pieces(&[&message]);
    let direct: [u8; 32] = sha2::Sha256::digest(&message).into();
    assert_eq!(digest.bytes, direct);
    assert_eq!(digest.length, 5000);
}

#[test]
fn digest_does_not_depend_on_the_split() {
    let whole = digest_of_pieces(&[b"0123456789"]);
    assert_eq!(digest_of_pieces(&[b"0123", b"456789"]), whole);
    assert_eq!(digest_of_pieces(&[b"", b"0123456789", b""]), whole);
    assert_eq!(digest_of_pieces(&[b"0", b"1", b"2", b"3", b"4", b"5", b"6", b"7", b"8", b"9"]), whole);
    for at in 0..=10 {
        let message = b"0123456789";
        assert_eq!(digest_of_pieces(&[&message[..at], &message[at..]]), whole);
    }
}

#[test]
fn digest_depends_on_the_order() {
    assert_ne!(digest_of_pieces(&[b"ab", b"cd"]).bytes, digest_of_pieces(&[b"cd", b"ab"]).bytes);
}

#[test]
fn count_follows_the_updates() {
    let mut engine = DigestEngine::new();
    assert_eq!(engine.count(), 0);
    engine.update(b"0123");
    assert_eq!(engine.count(), 4);
    engine.update(b"");
    assert_eq!(engine.count(), 4);
    engine.update(b"456789");
    assert_eq!(engine.count(), 10);
}

#[test]
fn digest_of_what_was_accumulated() {
    let mut acc = Accumulator::new();
    acc.push(BytesMut::from(&b"0123"[..]));
    acc.push(BytesMut::from(&b"456789"[..]));
    let report = digest_chunks(&acc);
    assert_eq!(report.bytes_read, 10);
    assert_eq!(hex(&report.digest), DIGITS);
    assert_eq!(report.zero_chunks, vec![]);
}

#[test]
fn digest_of_an_empty_accumulator() {
    let report = digest_chunks(&Accumulator::new());
    assert_eq!(report.bytes_read, 0);
    assert_eq!(hex(&report.digest), EMPTY);
    assert_eq!(report.zero_chunks, vec![]);
}

#[test]
fn zero_chunks_are_noted_where_they_start() {
    let mut acc = Accumulator::new();
    acc.push(BytesMut::from(&[0u8, 0, 0][..]));
    acc.push(BytesMut::from(&b"abcd"[..]));
    acc.push(BytesMut::from(&[0u8; 5][..]));
    acc.push(BytesMut::from(&[0u8, 1][..]));
    acc.push(BytesMut::from(&[0u8][..]));
    let report = digest_chunks(&acc);
    assert_eq!(report.bytes_read, 15);
    assert_eq!(report.zero_chunks, vec![0, 7, 14]);
}
