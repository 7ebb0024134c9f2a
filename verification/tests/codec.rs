//! The log codec: round trips, malformation errors, and agreement with
//! the reference ABI coder and hash.

use creation_dev_buy::abi::{decode_two_strings, encode_two_strings, DecodeError};
use creation_dev_buy::listener::TokenCreated;
use creation_dev_buy::types::{Address, RawLog};
use creation_dev_buy::utils::{encode_token_created, keccak256_hex, parse_token_created_log};

fn addr(last: u8) -> Address {
    let mut b = vec![0u8; 20];
    b[19] = last;
    Address::new(b)
}

fn sig_topic() -> Vec<u8> {
    keccak256_hex("TokenCreate(address,address,string,string)").to_vec()
}

fn sample_log(token_last: u8) -> RawLog {
    let ev = TokenCreated {
        creator: addr(0x11),
        token: addr(token_last),
        name: b"My Token".to_vec(),
        symbol: b"MTK".to_vec(),
    };
    encode_token_created(&ev, &sig_topic())
}

#[test]
fn payload_round_trip() {
    let data = encode_two_strings(b"hello world", b"HW");
    let (a, b) = decode_two_strings(&data).expect("canonical payload decodes");
    assert_eq!(a, b"hello world".to_vec());
    assert_eq!(b, b"HW".to_vec());
    let re = encode_two_strings(&a, &b);
    assert_eq!(re, data);
}

#[test]
fn payload_round_trip_empty_strings() {
    let data = encode_two_strings(b"", b"");
    let (a, b) = decode_two_strings(&data).expect("empty strings decode");
    assert!(a.is_empty());
    assert!(b.is_empty());
    assert_eq!(encode_two_strings(&a, &b), data);
}

#[test]
fn payload_round_trip_boundary_length() {
    // exactly one 32-byte block, and one byte over it
    let s32 = vec![0x41u8; 32];
    let s33 = vec![0x42u8; 33];
    let data = encode_two_strings(&s32, &s33);
    let (a, b) = decode_two_strings(&data).expect("boundary lengths decode");
    assert_eq!(a, s32);
    assert_eq!(b, s33);
    assert_eq!(encode_two_strings(&a, &b), data);
}

#[test]
fn payload_agrees_with_reference_coder() {
    let mine = encode_two_strings(b"Some Name", b"SN");
    let theirs = ethabi::encode(&[
        ethabi::Token::String("Some Name".to_string()),
        ethabi::Token::String("SN".to_string()),
    ]);
    assert_eq!(mine, theirs);

    let decoded = ethabi::decode(
        &[ethabi::ParamType::String, ethabi::ParamType::String],
        &mine,
    )
    .expect("reference coder accepts the payload");
    assert_eq!(decoded[0], ethabi::Token::String("Some Name".to_string()));
    assert_eq!(decoded[1], ethabi::Token::String("SN".to_string()));
}

#[test]
fn garbage_payload_is_rejected() {
    assert_eq!(
        decode_two_strings(&[0u8; 64]),
        Err(DecodeError::BadPayload)
    );
    assert_eq!(decode_two_strings(b"short"), Err(DecodeError::BadPayload));
}

#[test]
fn log_round_trip() {
    let sig = sig_topic();
    let log = sample_log(0xAA);
    let ev = parse_token_created_log(&log, &sig).expect("canonical log parses");
    assert_eq!(ev.creator.bytes, addr(0x11).bytes);
    assert_eq!(ev.token.bytes, addr(0xAA).bytes);
    assert_eq!(ev.name, b"My Token".to_vec());
    assert_eq!(ev.symbol, b"MTK".to_vec());
    let re = encode_token_created(&ev, &sig);
    assert_eq!(re.topics, log.topics);
    assert_eq!(re.data, log.data);
}

#[test]
fn wrong_topic_count_is_rejected() {
    let sig = sig_topic();
    let mut log = sample_log(0xAA);
    log.topics.pop();
    assert_eq!(
        parse_token_created_log(&log, &sig),
        Err(DecodeError::WrongTopicCount)
    );
}

#[test]
fn wrong_topic_length_is_rejected() {
    let sig = sig_topic();
    let mut log = sample_log(0xAA);
    log.topics[1].pop();
    assert_eq!(
        parse_token_created_log(&log, &sig),
        Err(DecodeError::WrongTopicLength)
    );
}

#[test]
fn wrong_signature_is_rejected() {
    let other = keccak256_hex("SomethingElse(uint256)").to_vec();
    let log = sample_log(0xAA);
    assert_eq!(
        parse_token_created_log(&log, &other),
        Err(DecodeError::WrongSignature)
    );
}

#[test]
fn bad_address_padding_is_rejected() {
    let sig = sig_topic();
    let mut log = sample_log(0xAA);
    log.topics[2][0] = 1;
    assert_eq!(
        parse_token_created_log(&log, &sig),
        Err(DecodeError::BadAddressPadding)
    );
}

#[test]
fn bad_payload_is_rejected_at_log_level() {
    let sig = sig_topic();
    let mut log = sample_log(0xAA);
    log.data[0] = 0xFF;
    assert_eq!(
        parse_token_created_log(&log, &sig),
        Err(DecodeError::BadPayload)
    );
}

#[test]
fn keccak_matches_known_digests() {
    // the empty string's Keccak-256 digest, and a reference implementation
    let empty = keccak256_hex("");
    let expected = [
        0xc5u8, 0xd2, 0x46, 0x01, 0x86, 0xf7, 0x23, 0x3c, 0x92, 0x7e, 0x7d, 0xb2, 0xdc, 0xc7,
        0x03, 0xc0, 0xe5, 0x00, 0xb6, 0x53, 0xca, 0x82, 0x27, 0x3b, 0x7b, 0xfa, 0xd8, 0x04, 0x5d,
        0x85, 0xa4, 0x70,
    ];
    assert_eq!(empty, expected);
    let sig = keccak256_hex("transfer(address,uint256)");
    assert_eq!(&sig[0..4], &[0xa9, 0x05, 0x9c, 0xbb]);
    assert_eq!(sig, ethers::utils::keccak256("transfer(address,uint256)"));
}
