//! Tests of the stamp text codec: exact encodings, the round trip on
//! concrete stamps, and every decode error.
use hashcash::codec::decode;
use hashcash::codec::encode;
use hashcash::stamp::Stamp;
use hashcash::stamp::StampError;

fn sample_stamp() -> Stamp {
    Stamp {
        version: 1,
        bits: 4,
        timestamp: 123,
        resource: String::from("user@example.com"),
        extension: String::new(),
        salt: String::from("abc123"),
        counter: 7,
    }
}

#[test]
fn encode_exact_text() {
    let text = encode(&sample_stamp());
    assert_eq!(text, "1:4:123:user@example.com::abc123:7");
}

#[test]
fn encode_zero_fields() {
    let s = Stamp {
        version: 0,
        bits: 0,
        timestamp: 0,
        resource: String::from("r"),
        extension: String::new(),
        salt: String::from("s"),
        counter: 0,
    };
    assert_eq!(encode(&s), "0:0:0:r::s:0");
}

#[test]
fn round_trip_concrete() {
    let original = sample_stamp();
    let text = encode(&original);
    let back = decode(&text).unwrap();
    assert_eq!(back.version, original.version);
    assert_eq!(back.bits, original.bits);
    assert_eq!(back.timestamp, original.timestamp);
    assert_eq!(back.resource, original.resource);
    assert_eq!(back.extension, original.extension);
    assert_eq!(back.salt, original.salt);
    assert_eq!(back.counter, original.counter);
}

#[test]
fn round_trip_extension_and_large_counter() {
    let original = Stamp {
        version: 2,
        bits: 32,
        timestamp: 1700000000,
        resource: String::from("api-key-55"),
        extension: String::from("meta.data"),
        salt: String::from("ABCDEFabcdef0123"),
        counter: u64::MAX,
    };
    let text = encode(&original);
    assert_eq!(text, "2:32:1700000000:api-key-55:meta.data:ABCDEFabcdef0123:18446744073709551615");
    let back = decode(&text).unwrap();
    assert_eq!(back.counter, u64::MAX);
    assert_eq!(back.extension, "meta.data");
}

#[test]
fn decode_missing_field_is_malformed() {
    assert_eq!(decode("1:4:123:user@example.com::abc123").unwrap_err(), StampError::MalformedStamp);
}

#[test]
fn decode_extra_field_is_malformed() {
    assert_eq!(
        decode("1:4:123:user@example.com::abc123:7:extra").unwrap_err(),
        StampError::MalformedStamp
    );
}

#[test]
fn decode_empty_text_is_malformed() {
    assert_eq!(decode("").unwrap_err(), StampError::MalformedStamp);
}

#[test]
fn decode_non_numeric_bits_is_invalid_field() {
    assert_eq!(decode("1:xx:123:r::abc:7").unwrap_err(), StampError::InvalidField);
}

#[test]
fn decode_non_numeric_version_is_invalid_field() {
    assert_eq!(decode("v1:4:123:r::abc:7").unwrap_err(), StampError::InvalidField);
}

#[test]
fn decode_empty_counter_is_invalid_field() {
    assert_eq!(decode("1:4:123:r::abc:").unwrap_err(), StampError::InvalidField);
}

#[test]
fn decode_salt_outside_alphabet_is_invalid_field() {
    assert_eq!(decode("1:4:123:r::a@c:7").unwrap_err(), StampError::InvalidField);
}

#[test]
fn decode_counter_overflow_is_invalid_field() {
    // one more than u64::MAX
    assert_eq!(
        decode("1:4:123:r::abc:18446744073709551616").unwrap_err(),
        StampError::InvalidField
    );
}

#[test]
fn decode_version_overflow_is_invalid_field() {
    // one more than u32::MAX
    assert_eq!(decode("4294967296:4:123:r::abc:7").unwrap_err(), StampError::InvalidField);
}

#[test]
fn decode_accepts_empty_salt() {
    let s = decode("1:4:123:r:::7").unwrap();
    assert_eq!(s.salt, "");
}
