//! The stamp value and its mathematical model: a ghost view of the fields,
//! the well-formedness predicate, the delimiter rule, and the salt alphabet.
use vstd::prelude::*;

verus! {

/// The character that separates the encoded fields; it may not occur
/// unescaped inside `resource`, `extension` or `salt`.
pub const DELIMITER: char = ':';

/// The mathematical model of a stamp: the field values as sequences and
/// unbounded naturals.
pub ghost struct StampV {
    pub version: nat,
    pub bits: nat,
    pub timestamp: nat,
    pub resource: Seq<char>,
    pub extension: Seq<char>,
    pub salt: Seq<char>,
    pub counter: nat,
}

/// Text that contains no field delimiter.
pub open spec fn no_delim(s: Seq<char>) -> bool {
    forall|i: int| 0 <= i < s.len() ==> #[trigger] s[i] != DELIMITER
}

/// Whether a character belongs to the base-64-style salt alphabet
/// (letters, digits, `+` and `/`); none of these is the delimiter.
pub open spec fn is_salt_char(c: char) -> bool {
    ('A' <= c && c <= 'Z') || ('a' <= c && c <= 'z') || ('0' <= c && c <= '9') || c == '+' || c
        == '/'
}

/// Text made only of salt-alphabet characters.
pub open spec fn is_salt_seq(s: Seq<char>) -> bool {
    forall|i: int| 0 <= i < s.len() ==> is_salt_char(#[trigger] s[i])
}

/// Salt-alphabet text never contains the delimiter.
pub proof fn lemma_salt_seq_no_delim(s: Seq<char>)
    requires
        is_salt_seq(s),
    ensures
        no_delim(s),
{
}

impl StampV {
    /// A well-formed stamp: the numeric fields fit their machine types,
    /// resource and extension are free of the delimiter, and the salt is
    /// drawn from the salt alphabet.
    pub open spec fn wf(self) -> bool {
        &&& self.version <= u32::MAX
        &&& self.bits <= u32::MAX
        &&& self.timestamp <= u64::MAX
        &&& self.counter <= u64::MAX
        &&& no_delim(self.resource)
        &&& no_delim(self.extension)
        &&& is_salt_seq(self.salt)
    }
}

/// A proof-of-work stamp: the token a mint operation produces and a verify
/// operation consumes.
#[derive(Debug)]
pub struct Stamp {
    /// Tag of the encoding scheme.
    pub version: u32,
    /// Required number of leading zero bits in the cost hash.
    pub bits: u32,
    /// Seconds since the Unix epoch at which the stamp was minted.
    pub timestamp: u64,
    /// The identifier the stamp is bound to.
    pub resource: String,
    /// Caller-defined field; round-trips but is not interpreted.
    pub extension: String,
    /// Random value chosen per mint attempt.
    pub salt: String,
    /// The value varied during the proof-of-work search.
    pub counter: u64,
}

impl View for Stamp {
    type V = StampV;

    open spec fn view(&self) -> StampV {
        StampV {
            version: self.version as nat,
            bits: self.bits as nat,
            timestamp: self.timestamp as nat,
            resource: self.resource@,
            extension: self.extension@,
            salt: self.salt@,
            counter: self.counter as nat,
        }
    }
}

/// Why a stamp failed to decode or to verify.
#[derive(Clone, Copy, Debug, PartialEq, Eq, Structural)]
pub enum StampError {
    /// The text does not split into the expected number of fields.
    MalformedStamp,
    /// A field fails to parse as its declared type.
    InvalidField,
    /// The decoded resource differs from the one the verifier expects.
    ResourceMismatch,
    /// The stamp advertises less work than the verifier requires.
    InsufficientDifficulty,
    /// The digest of the stamp text lacks the advertised zero bits.
    ProofInvalid,
    /// The stamp is older than the verifier accepts.
    StampExpired,
}

/// Whether a string is free of the field delimiter.
pub fn no_delim_str(s: &str) -> (r: bool)
    ensures
        r == no_delim(s@),
{
    let len = s.unicode_len();
    let mut i: usize = 0;
    while i < len
        invariant
            len == s@.len(),
            0 <= i <= len,
            forall|j: int| 0 <= j < i ==> #[trigger] s@[j] != DELIMITER,
        decreases len - i,
    {
        let c = s.get_char(i);
        if c == ':' {
            return false;
        }
        i = i + 1;
    }
    true
}

/// Whether a string consists only of salt-alphabet characters.
pub fn is_salt_str(s: &str) -> (r: bool)
    ensures
        r == is_salt_seq(s@),
{
    let len = s.unicode_len();
    let mut i: usize = 0;
    while i < len
        invariant
            len == s@.len(),
            0 <= i <= len,
            forall|j: int| 0 <= j < i ==> is_salt_char(#[trigger] s@[j]),
        decreases len - i,
    {
        let c = s.get_char(i);
        let v = c as u32;
        let ok = (65 <= v && v <= 90) || (97 <= v && v <= 122) || (48 <= v && v <= 57) || v == 43
            || v == 47;
        if !ok {
            proof {
                assert(!is_salt_char(s@[i as int]));
            }
            return false;
        }
        i = i + 1;
    }
    true
}

/// Whether two strings hold the same characters.
pub fn eq_str(a: &str, b: &str) -> (r: bool)
    ensures
        r == (a@ == b@),
{
    let la = a.unicode_len();
    let lb = b.unicode_len();
    if la != lb {
        return false;
    }
    let mut i: usize = 0;
    while i < la
        invariant
            la == a@.len() && lb == b@.len() && la == lb,
            0 <= i <= la,
            forall|j: int| 0 <= j < i ==> a@[j] == b@[j],
        decreases la - i,
    {
        if a.get_char(i) != b.get_char(i) {
            return false;
        }
        i = i + 1;
    }
    proof {
        assert(a@ =~= b@);
    }
    true
}

} // verus!
