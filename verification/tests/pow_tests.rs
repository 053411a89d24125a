//! Tests of the proof-of-work engine: minting in a small practical range of
//! difficulties, verification and each of its failure modes, tamper
//! detection, and the leading-zero-bit metric on known digests.
use hashcash::codec::decode;
use hashcash::pow::leading_zero_bits;
use hashcash::pow::mint;
use hashcash::pow::verify;
use hashcash::pow::verify_at;
use hashcash::pow::SALT_LENGTH;
use hashcash::stamp::StampError;

/// A stamp text whose real SHA-256 digest begins with a zero byte
/// (00c5b365...), so it carries exactly 8 leading zero bits.
const KNOWN_STAMP: &str = "1:8:123:user@example.com::aaaaaaaaaaaaaaaa:85";

#[test]
fn leading_zero_bits_of_known_digests() {
    assert_eq!(leading_zero_bits(&vec![]), 0);
    assert_eq!(leading_zero_bits(&vec![0xff]), 0);
    assert_eq!(leading_zero_bits(&vec![0x80]), 0);
    assert_eq!(leading_zero_bits(&vec![0x40]), 1);
    assert_eq!(leading_zero_bits(&vec![0x0f, 0xff]), 4);
    assert_eq!(leading_zero_bits(&vec![0x01]), 7);
    assert_eq!(leading_zero_bits(&vec![0x00, 0xff]), 8);
    assert_eq!(leading_zero_bits(&vec![0x00, 0x20]), 10);
    assert_eq!(leading_zero_bits(&vec![0x00, 0x00]), 16);
    assert_eq!(leading_zero_bits(&vec![0x00, 0x00, 0x01, 0x00]), 23);
}

#[test]
fn known_stamp_verifies_at_eight_bits() {
    // Pins the cost hash to real SHA-256: the digest of this text was
    // computed independently and has exactly 8 leading zero bits.
    assert_eq!(verify_at(KNOWN_STAMP, "user@example.com", 8, None, 0), Ok(()));
}

#[test]
fn known_stamp_fails_at_nine_bits() {
    // The same digest continues 0xc5, so the ninth leading bit is set; a
    // stamp advertising 9 bits with this salt and counter is a false proof.
    let tampered = "1:9:123:user@example.com::aaaaaaaaaaaaaaaa:85";
    assert_eq!(
        verify_at(tampered, "user@example.com", 9, None, 0),
        Err(StampError::ProofInvalid)
    );
}

#[test]
fn mint_small_practical_range_verifies() {
    for bits in 0..=10u32 {
        let text = mint("some-resource", Some(bits)).unwrap();
        assert_eq!(verify(&text, "some-resource", bits, None), Ok(()));
    }
}

#[test]
fn mint_concrete_scenario() {
    let text = mint("user@example.com", Some(8)).unwrap();
    assert_eq!(verify(&text, "user@example.com", 8, None), Ok(()));
    assert_eq!(
        verify(&text, "someone-else@example.com", 8, None),
        Err(StampError::ResourceMismatch)
    );
}

#[test]
fn mint_resource_binding() {
    let text = mint("first", Some(4)).unwrap();
    assert_eq!(verify(&text, "second", 4, None), Err(StampError::ResourceMismatch));
}

#[test]
fn mint_rejects_resource_with_delimiter() {
    assert_eq!(mint("a:b", Some(4)), None);
}

#[test]
fn minted_stamp_fields() {
    let text = mint("res-x", Some(6)).unwrap();
    let stamp = decode(&text).unwrap();
    assert_eq!(stamp.version, 1);
    assert_eq!(stamp.bits, 6);
    assert_eq!(stamp.resource, "res-x");
    assert_eq!(stamp.extension, "");
    assert_eq!(stamp.salt.len(), SALT_LENGTH);
    // the mint draws its timestamp from the system clock
    assert!(stamp.timestamp >= 1_000_000_000);
}

#[test]
fn difficulty_monotonic_zero_bits_fails_at_one() {
    // A stamp minted at difficulty 0 advertises 0 bits, so a verifier
    // demanding 1 bit rejects it on every trial.
    for _ in 0..20 {
        let text = mint("mono", Some(0)).unwrap();
        assert_eq!(verify(&text, "mono", 1, None), Err(StampError::InsufficientDifficulty));
    }
}

#[test]
fn tamper_with_counter_invalidates_proof() {
    // the counter field multiplied by ten; the text still decodes, but its
    // real digest (07a7a808...) has only 5 leading zero bits
    let tampered = "1:8:123:user@example.com::aaaaaaaaaaaaaaaa:850";
    assert_eq!(verify_at(tampered, "user@example.com", 8, None, 0), Err(StampError::ProofInvalid));
}

#[test]
fn tamper_with_salt_invalidates_proof() {
    // the first salt character flipped; the real digest (8341b207...) has
    // no leading zero bit
    let tampered = "1:8:123:user@example.com::baaaaaaaaaaaaaaa:85";
    assert_eq!(verify_at(tampered, "user@example.com", 8, None, 0), Err(StampError::ProofInvalid));
}

#[test]
fn tamper_with_resource_is_caught() {
    // one resource character changed
    let tampered = "1:8:123:user2example.com::aaaaaaaaaaaaaaaa:85";
    // against the original resource the mismatch is reported first
    assert_eq!(
        verify_at(tampered, "user@example.com", 8, None, 0),
        Err(StampError::ResourceMismatch)
    );
    // against the substituted resource the real digest (3a33b261...) no
    // longer qualifies
    assert_eq!(verify_at(tampered, "user2example.com", 8, None, 0), Err(StampError::ProofInvalid));
}

#[test]
fn verify_propagates_decode_errors() {
    assert_eq!(verify("1:4:123:r::abc", "r", 4, None), Err(StampError::MalformedStamp));
    assert_eq!(verify("1:xx:123:r::abc:7", "r", 4, None), Err(StampError::InvalidField));
}

#[test]
fn verify_expiry_bound() {
    let text = mint("age-check", Some(4)).unwrap();
    let stamp = decode(&text).unwrap();
    let ts = stamp.timestamp;
    // within the bound
    assert_eq!(verify_at(&text, "age-check", 4, Some(100), ts + 50), Ok(()));
    // exactly at the bound
    assert_eq!(verify_at(&text, "age-check", 4, Some(100), ts + 100), Ok(()));
    // beyond the bound
    assert_eq!(
        verify_at(&text, "age-check", 4, Some(100), ts + 101),
        Err(StampError::StampExpired)
    );
    // a clock behind the stamp is not an expiry
    assert_eq!(verify_at(&text, "age-check", 4, Some(100), 0), Ok(()));
}

#[test]
fn verify_checks_resource_before_difficulty() {
    let text = mint("order", Some(2)).unwrap();
    assert_eq!(verify(&text, "other", 30, None), Err(StampError::ResourceMismatch));
}
