//! The proof-of-work engine: the cost hash, the leading-zero-bit metric,
//! the search loop that mints a stamp, and the verification predicate.
use vstd::prelude::*;

use crate::codec::decode;
use crate::codec::decode_view;
use crate::codec::encode;
use crate::codec::encode_view;
use crate::codec::lemma_round_trip;
use crate::decimal::digit_char;
use crate::decimal::digit_str;
use crate::stamp::eq_str;
use crate::stamp::is_salt_char;
use crate::stamp::is_salt_seq;
use crate::stamp::no_delim;
use crate::stamp::no_delim_str;
use crate::stamp::Stamp;
use crate::stamp::StampError;
use crate::stamp::StampV;

verus! {

/// Version tag of the current encoding scheme.
pub const STAMP_VERSION: u32 = 1;

/// Difficulty used when the caller does not choose one.
pub const DEFAULT_BITS: u32 = 20;

/// Number of characters in a freshly drawn salt.
pub const SALT_LENGTH: usize = 16;

/// The cost digest of a text: the SHA-256 digest of its UTF-8 bytes. The
/// hash algorithm is fixed between mint and verify; changing it would
/// invalidate every issued stamp, so it belongs to the protocol version.
pub uninterp spec fn digest_of(t: Seq<char>) -> Seq<u8>;

/// Relies on sha2::Sha256 through digest::Digest::digest: the digest is a
/// function of the input bytes alone, 32 bytes wide.
#[verifier::external_body]
fn cost_hash(s: &str) -> (r: Vec<u8>)
    ensures
        r@ == digest_of(s@),
        r@.len() == 32,
{
    let d = <sha2::Sha256 as sha2::Digest>::digest(s.as_bytes());
    d.as_slice().to_vec()
}

/// Relies on rand::fill with the thread-local generator, seeded from the
/// operating system: it fills the buffer with random bytes and promises
/// nothing of the values. It propagates a failure of the entropy source by
/// panicking rather than weakening the salt.
#[verifier::external_body]
fn random_bytes(n: usize) -> (r: Vec<u8>)
    ensures
        r@.len() == n,
{
    let mut buf = vec![0u8; n];
    rand::fill(&mut buf[..]);
    buf
}

/// Relies on std::time::SystemTime::now and duration_since: whole seconds
/// since the Unix epoch by the system clock; nothing is promised of the
/// value.
#[verifier::external_body]
fn now_seconds() -> u64 {
    match std::time::SystemTime::now().duration_since(std::time::UNIX_EPOCH) {
        Ok(d) => d.as_secs(),
        Err(_) => 0,
    }
}

/// How many leading bits of one byte are zero.
pub open spec fn byte_leading_zeros(b: u8) -> nat {
    if b >= 128 {
        0
    } else if b >= 64 {
        1
    } else if b >= 32 {
        2
    } else if b >= 16 {
        3
    } else if b >= 8 {
        4
    } else if b >= 4 {
        5
    } else if b >= 2 {
        6
    } else if b >= 1 {
        7
    } else {
        8
    }
}

/// Zero bits at the head of a digest, read as a big-endian bit string:
/// whole zero bytes count eight each, then the first set bit of the first
/// non-zero byte stops the count.
pub open spec fn leading_zero_bits_of(d: Seq<u8>) -> nat
    decreases d.len(),
{
    if d.len() == 0 {
        0
    } else if d[0] == 0 {
        8 + leading_zero_bits_of(d.drop_first())
    } else {
        byte_leading_zeros(d[0])
    }
}

/// The cost predicate: the digest has at least `bits` leading zero bits.
pub open spec fn satisfies(d: Seq<u8>, bits: nat) -> bool {
    leading_zero_bits_of(d) >= bits
}

/// How many leading bits of one byte are zero.
fn byte_lz(b: u8) -> (r: usize)
    ensures
        r == byte_leading_zeros(b),
{
    if b >= 128 {
        0
    } else if b >= 64 {
        1
    } else if b >= 32 {
        2
    } else if b >= 16 {
        3
    } else if b >= 8 {
        4
    } else if b >= 4 {
        5
    } else if b >= 2 {
        6
    } else if b >= 1 {
        7
    } else {
        8
    }
}

/// Counts the leading zero bits of a digest.
pub fn leading_zero_bits(d: &Vec<u8>) -> (r: usize)
    requires
        d@.len() * 8 <= usize::MAX,
    ensures
        r == leading_zero_bits_of(d@),
{
    let len = d.len();
    let mut i: usize = 0;
    proof {
        assert(d@.skip(0) =~= d@);
    }
    while i < len && d[i] == 0
        invariant
            len == d@.len(),
            d@.len() * 8 <= usize::MAX,
            0 <= i <= len,
            leading_zero_bits_of(d@) == 8 * i + leading_zero_bits_of(d@.skip(i as int)),
        decreases len - i,
    {
        proof {
            assert(d@.skip(i as int)[0] == d@[i as int]);
            assert(d@.skip(i as int).drop_first() =~= d@.skip(i as int + 1));
        }
        i = i + 1;
    }
    if i < len {
        proof {
            assert(d@.skip(i as int)[0] == d@[i as int]);
        }
        i * 8 + byte_lz(d[i])
    } else {
        proof {
            assert(d@.skip(len as int) =~= Seq::<u8>::empty());
        }
        i * 8
    }
}

/// The character for a four-bit value: a decimal digit or a lowercase
/// letter, all inside the salt alphabet.
pub open spec fn hex_char(d: nat) -> char
    recommends
        d < 16,
{
    if d < 10 {
        digit_char(d)
    } else {
        ((97 + (d - 10)) as u8) as char
    }
}

/// The one-character string for a four-bit value.
fn hex_char_str(d: u8) -> (r: &'static str)
    requires
        d < 16,
    ensures
        r@ == seq![hex_char(d as nat)],
{
    proof {
        reveal_strlit("a");
        reveal_strlit("b");
        reveal_strlit("c");
        reveal_strlit("d");
        reveal_strlit("e");
        reveal_strlit("f");
    }
    if d < 10 {
        digit_str(d as u64)
    } else if d == 10 {
        let r = "a";
        proof {
            assert(r@ =~= seq![hex_char(d as nat)]);
        }
        r
    } else if d == 11 {
        let r = "b";
        proof {
            assert(r@ =~= seq![hex_char(d as nat)]);
        }
        r
    } else if d == 12 {
        let r = "c";
        proof {
            assert(r@ =~= seq![hex_char(d as nat)]);
        }
        r
    } else if d == 13 {
        let r = "d";
        proof {
            assert(r@ =~= seq![hex_char(d as nat)]);
        }
        r
    } else if d == 14 {
        let r = "e";
        proof {
            assert(r@ =~= seq![hex_char(d as nat)]);
        }
        r
    } else {
        let r = "f";
        proof {
            assert(r@ =~= seq![hex_char(d as nat)]);
        }
        r
    }
}

/// Every such character is in the salt alphabet.
proof fn lemma_hex_char_salt(d: nat)
    requires
        d < 16,
    ensures
        is_salt_char(hex_char(d)),
{
}

/// Draws a fresh random salt of the fixed length.
fn fresh_salt() -> (r: String)
    ensures
        is_salt_seq(r@),
        r@.len() == SALT_LENGTH as nat,
{
    let bytes = random_bytes(SALT_LENGTH);
    let mut out = String::new();
    let mut i: usize = 0;
    while i < SALT_LENGTH
        invariant
            bytes@.len() == SALT_LENGTH as nat,
            0 <= i <= SALT_LENGTH,
            out@.len() == i,
            is_salt_seq(out@),
        decreases SALT_LENGTH - i,
    {
        let b = bytes[i] & 15;
        proof {
            let b0 = bytes@[i as int];
            assert(b0 & 15 < 16) by (bit_vector);
            lemma_hex_char_salt((b0 & 15) as nat);
        }
        let ghost prev = out@;
        let piece = hex_char_str(b);
        out.append(piece);
        proof {
            assert(out@ =~= prev.push(hex_char(b as nat)));
        }
        i = i + 1;
    }
    out
}

/// The difficulty a mint call works at: the requested one, or the default.
pub open spec fn chosen_bits(bits: Option<u32>) -> nat {
    match bits {
        Some(b) => b as nat,
        None => DEFAULT_BITS as nat,
    }
}

/// What mint promises of a stamp it returns for `resource` at difficulty
/// `bits`: well-formed, current version, bound to the resource, carrying
/// that difficulty, an empty extension, a full-length salt, and an encoding
/// whose digest has at least `bits` leading zero bits.
pub open spec fn minted_stamp(v: StampV, resource: Seq<char>, bits: nat) -> bool {
    &&& v.wf()
    &&& v.version == STAMP_VERSION as nat
    &&& v.resource == resource
    &&& v.extension == Seq::<char>::empty()
    &&& v.bits == bits
    &&& v.salt.len() == SALT_LENGTH as nat
    &&& satisfies(digest_of(encode_view(v)), bits)
}

/// Mints a stamp for a resource: draws a salt and a timestamp, then
/// searches counter values until the encoded stamp's digest satisfies the
/// difficulty, re-salting if the counter range is ever exhausted. Returns
/// the encoded stamp text, or nothing when the resource holds the
/// delimiter (or, beyond any practical reach, when the whole search space
/// is exhausted without a hit). At difficulty zero every digest qualifies,
/// so the first attempt succeeds and a stamp is owed.
pub fn mint(resource: &str, bits: Option<u32>) -> (r: Option<String>)
    ensures
        r is Some ==> exists|v: StampV|
            #[trigger] minted_stamp(v, resource@, chosen_bits(bits)) && r->0@ == encode_view(v),
        !no_delim(resource@) ==> r is None,
        no_delim(resource@) && chosen_bits(bits) == 0 ==> r is Some,
{
    if !no_delim_str(resource) {
        return None;
    }
    let b: u32 = match bits {
        Some(x) => x,
        None => DEFAULT_BITS,
    };
    let ts = now_seconds();
    let mut rerolls: u64 = 0;
    while rerolls < u64::MAX
        invariant
            no_delim(resource@),
            b as nat == chosen_bits(bits),
            rerolls > 0 ==> b > 0,
        decreases u64::MAX - rerolls,
    {
        let salt = fresh_salt();
        let mut stamp = Stamp {
            version: STAMP_VERSION,
            bits: b,
            timestamp: ts,
            resource: String::from_str(resource),
            extension: String::new(),
            salt,
            counter: 0,
        };
        loop
            invariant
                no_delim(resource@),
                b as nat == chosen_bits(bits),
                stamp@.version == STAMP_VERSION as nat,
                stamp@.bits == b as nat,
                stamp@.resource == resource@,
                stamp@.extension == Seq::<char>::empty(),
                is_salt_seq(stamp@.salt),
                stamp@.salt.len() == SALT_LENGTH as nat,
            ensures
                b > 0,
            decreases u64::MAX - stamp.counter,
        {
            let text = encode(&stamp);
            let digest = cost_hash(text.as_str());
            let lz = leading_zero_bits(&digest);
            if (b as usize) <= lz {
                proof {
                    assert(minted_stamp(stamp@, resource@, chosen_bits(bits)));
                }
                return Some(text);
            }
            if stamp.counter == u64::MAX {
                break;
            }
            stamp.counter = stamp.counter + 1;
        }
        rerolls = rerolls + 1;
    }
    None
}

/// What verifying a stamp text yields, at a given current time: the decode
/// error if it does not decode; otherwise the first failed check among
/// resource binding, advertised difficulty, the recomputed cost predicate
/// over the text itself, and, when an age bound is given, expiry.
pub open spec fn verify_view(
    t: Seq<char>,
    resource: Seq<char>,
    min_bits: nat,
    max_age: Option<u64>,
    now: nat,
) -> Result<(), StampError> {
    match decode_view(t) {
        Err(e) => Err(e),
        Ok(v) => if v.resource != resource {
            Err(StampError::ResourceMismatch)
        } else if v.bits < min_bits {
            Err(StampError::InsufficientDifficulty)
        } else if !satisfies(digest_of(t), v.bits) {
            Err(StampError::ProofInvalid)
        } else {
            match max_age {
                Some(m) => if now - v.timestamp > m as int {
                    Err(StampError::StampExpired)
                } else {
                    Ok(())
                },
                None => Ok(()),
            }
        },
    }
}

/// Verifies a stamp text against an expected resource, a required
/// difficulty and an optional age bound, taking the current time as an
/// argument.
pub fn verify_at(
    stamp_text: &str,
    resource: &str,
    min_bits: u32,
    max_age: Option<u64>,
    now: u64,
) -> (r: Result<(), StampError>)
    ensures
        r == verify_view(stamp_text@, resource@, min_bits as nat, max_age, now as nat),
{
    let stamp = match decode(stamp_text) {
        Ok(s) => s,
        Err(e) => {
            return Err(e);
        },
    };
    if !eq_str(stamp.resource.as_str(), resource) {
        return Err(StampError::ResourceMismatch);
    }
    if stamp.bits < min_bits {
        return Err(StampError::InsufficientDifficulty);
    }
    let digest = cost_hash(stamp_text);
    let lz = leading_zero_bits(&digest);
    if lz < stamp.bits as usize {
        return Err(StampError::ProofInvalid);
    }
    match max_age {
        Some(m) => {
            if now > stamp.timestamp && now - stamp.timestamp > m {
                Err(StampError::StampExpired)
            } else {
                Ok(())
            }
        },
        None => Ok(()),
    }
}

/// With no age bound, the verdict does not depend on the current time.
pub proof fn lemma_verify_no_age(t: Seq<char>, resource: Seq<char>, min_bits: nat, now: nat)
    ensures
        verify_view(t, resource, min_bits, None, now) == verify_view(
            t,
            resource,
            min_bits,
            None,
            0,
        ),
{
}

/// Verifies a stamp text at the current system time.
pub fn verify(stamp_text: &str, resource: &str, min_bits: u32, max_age: Option<u64>) -> (r: Result<
    (),
    StampError,
>)
    ensures
        exists|now: nat|
            now <= u64::MAX && r == #[trigger] verify_view(
                stamp_text@,
                resource@,
                min_bits as nat,
                max_age,
                now,
            ),
        max_age is None ==> r == verify_view(stamp_text@, resource@, min_bits as nat, None, 0),
{
    let now = now_seconds();
    let r = verify_at(stamp_text, resource, min_bits, max_age, now);
    proof {
        if max_age is None {
            lemma_verify_no_age(stamp_text@, resource@, min_bits as nat, now as nat);
        }
    }
    r
}

/// Law: a stamp that mint promises verifies against its own resource at
/// any required difficulty up to the minted one, at any time, when no age
/// bound is set.
pub proof fn lemma_mint_verifies(
    v: StampV,
    resource: Seq<char>,
    bits: nat,
    min_bits: nat,
    now: nat,
)
    requires
        minted_stamp(v, resource, bits),
        min_bits <= bits,
    ensures
        verify_view(encode_view(v), resource, min_bits, None, now) == Ok::<(), StampError>(()),
{
    lemma_round_trip(v);
}

/// Law: a verifier that demands more bits than a stamp advertises rejects
/// it as under-difficult, whatever its digest.
pub proof fn lemma_difficulty_monotonic(
    v: StampV,
    min_bits: nat,
    max_age: Option<u64>,
    now: nat,
)
    requires
        v.wf(),
        v.bits < min_bits,
    ensures
        verify_view(encode_view(v), v.resource, min_bits, max_age, now) == Err::<
            (),
            StampError,
        >(StampError::InsufficientDifficulty),
{
    lemma_round_trip(v);
}

/// Law: a stamp presented for a resource other than the one it is bound to
/// is rejected with a resource mismatch, before any other check.
pub proof fn lemma_resource_binding(
    v: StampV,
    resource: Seq<char>,
    min_bits: nat,
    max_age: Option<u64>,
    now: nat,
)
    requires
        v.wf(),
        v.resource != resource,
    ensures
        verify_view(encode_view(v), resource, min_bits, max_age, now) == Err::<
            (),
            StampError,
        >(StampError::ResourceMismatch),
{
    lemma_round_trip(v);
}

/// Law: tamper detection, the deterministic core. A stamp text that still
/// decodes, names the expected resource and at least the required
/// difficulty, but whose digest no longer clears its advertised
/// difficulty, is rejected as an invalid proof. That a tampered text's
/// digest indeed fails the difficulty is overwhelmingly probable, not
/// certain, so it stands here as a hypothesis.
pub proof fn lemma_tamper_proof_invalid(
    t: Seq<char>,
    resource: Seq<char>,
    min_bits: nat,
    max_age: Option<u64>,
    now: nat,
)
    requires
        decode_view(t) is Ok,
        decode_view(t)->Ok_0.resource == resource,
        min_bits <= decode_view(t)->Ok_0.bits,
        !satisfies(digest_of(t), decode_view(t)->Ok_0.bits),
    ensures
        verify_view(t, resource, min_bits, max_age, now) == Err::<(), StampError>(
            StampError::ProofInvalid,
        ),
{
}

/// Law: tamper detection on the resource field. A stamp text that still
/// decodes but names a resource other than the expected one is rejected
/// with a resource mismatch, whatever its digest.
pub proof fn lemma_tamper_resource_mismatch(
    t: Seq<char>,
    resource: Seq<char>,
    min_bits: nat,
    max_age: Option<u64>,
    now: nat,
)
    requires
        decode_view(t) is Ok,
        decode_view(t)->Ok_0.resource != resource,
    ensures
        verify_view(t, resource, min_bits, max_age, now) == Err::<(), StampError>(
            StampError::ResourceMismatch,
        ),
{
}

} // verus!
