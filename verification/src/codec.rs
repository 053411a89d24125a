//! Lossless, deterministic text encoding of a stamp: the seven fields joined
//! by the delimiter, numeric fields as decimal text, and the decoding path
//! that recovers a stamp or reports exactly why it cannot.
use vstd::prelude::*;

use crate::decimal::dec_digits;
use crate::decimal::dec_val;
use crate::decimal::is_dec_seq;
use crate::decimal::is_digit_char;
use crate::decimal::lemma_dec_digits_val;
use crate::decimal::parse_u64;
use crate::decimal::u64_to_string;
use crate::stamp::is_salt_seq;
use crate::stamp::is_salt_str;
use crate::stamp::no_delim;
use crate::stamp::Stamp;
use crate::stamp::StampError;
use crate::stamp::StampV;
use crate::stamp::DELIMITER;

verus! {

/// The delimiter as a one-character sequence.
pub open spec fn colon() -> Seq<char> {
    seq![DELIMITER]
}

/// Splitting text on the delimiter, carrying the segment read so far.
pub open spec fn split_acc(t: Seq<char>, cur: Seq<char>) -> Seq<Seq<char>>
    decreases t.len(),
{
    if t.len() == 0 {
        seq![cur]
    } else if t[0] == DELIMITER {
        seq![cur] + split_acc(t.drop_first(), Seq::empty())
    } else {
        split_acc(t.drop_first(), cur.push(t[0]))
    }
}

/// The segments of a text, split on the delimiter.
pub open spec fn spec_split(t: Seq<char>) -> Seq<Seq<char>> {
    split_acc(t, Seq::empty())
}

/// Joining segments with the delimiter between them.
pub open spec fn join_colon(segs: Seq<Seq<char>>) -> Seq<char>
    decreases segs.len(),
{
    if segs.len() == 0 {
        Seq::empty()
    } else if segs.len() == 1 {
        segs[0]
    } else {
        segs[0] + colon() + join_colon(segs.drop_first())
    }
}

/// Reading delimiter-free text only lengthens the current segment.
proof fn lemma_split_acc_append(a: Seq<char>, b: Seq<char>, cur: Seq<char>)
    requires
        no_delim(a),
    ensures
        split_acc(a + b, cur) == split_acc(b, cur + a),
    decreases a.len(),
{
    if a.len() == 0 {
        assert(a + b =~= b);
        assert(cur + a =~= cur);
    } else {
        assert(a[0] != DELIMITER);
        assert((a + b)[0] == a[0]);
        assert((a + b).drop_first() =~= a.drop_first() + b);
        assert(no_delim(a.drop_first())) by {
            assert forall|i: int| 0 <= i < a.drop_first().len() implies #[trigger] a.drop_first()[i]
                != DELIMITER by {
                assert(a.drop_first()[i] == a[i + 1]);
            }
        }
        lemma_split_acc_append(a.drop_first(), b, cur.push(a[0]));
        assert(cur.push(a[0]) + a.drop_first() =~= cur + a);
    }
}

/// Splitting delimiter-free text yields that text as the one segment.
proof fn lemma_split_acc_no_delim(a: Seq<char>, cur: Seq<char>)
    requires
        no_delim(a),
    ensures
        split_acc(a, cur) == seq![cur + a],
    decreases a.len(),
{
    if a.len() == 0 {
        assert(cur + a =~= cur);
    } else {
        assert(a[0] != DELIMITER);
        assert(no_delim(a.drop_first())) by {
            assert forall|i: int| 0 <= i < a.drop_first().len() implies #[trigger] a.drop_first()[i]
                != DELIMITER by {
                assert(a.drop_first()[i] == a[i + 1]);
            }
        }
        lemma_split_acc_no_delim(a.drop_first(), cur.push(a[0]));
        assert(cur.push(a[0]) + a.drop_first() =~= cur + a);
    }
}

/// Splitting undoes joining, as long as no segment holds the delimiter.
pub proof fn lemma_split_join(segs: Seq<Seq<char>>)
    requires
        segs.len() >= 1,
        forall|k: int| 0 <= k < segs.len() ==> no_delim(#[trigger] segs[k]),
    ensures
        spec_split(join_colon(segs)) == segs,
    decreases segs.len(),
{
    if segs.len() == 1 {
        lemma_split_acc_no_delim(segs[0], Seq::empty());
        assert(Seq::empty() + segs[0] =~= segs[0]);
        assert(seq![segs[0]] =~= segs);
    } else {
        let rest = join_colon(segs.drop_first());
        assert(join_colon(segs) == segs[0] + colon() + rest);
        assert((segs[0] + colon()) + rest =~= segs[0] + (colon() + rest));
        lemma_split_acc_append(segs[0], colon() + rest, Seq::empty());
        assert(Seq::empty() + segs[0] =~= segs[0]);
        let tail = colon() + rest;
        assert(tail[0] == DELIMITER);
        assert(tail.drop_first() =~= rest);
        assert(split_acc(tail, segs[0]) == seq![segs[0]] + split_acc(rest, Seq::empty()));
        assert forall|k: int| 0 <= k < segs.drop_first().len() implies no_delim(
            #[trigger] segs.drop_first()[k],
        ) by {
            assert(segs.drop_first()[k] == segs[k + 1]);
        }
        lemma_split_join(segs.drop_first());
        assert(seq![segs[0]] + segs.drop_first() =~= segs);
    }
}

/// Every segment a split yields is free of the delimiter.
proof fn lemma_split_acc_segments(t: Seq<char>, cur: Seq<char>)
    requires
        no_delim(cur),
    ensures
        forall|k: int|
            0 <= k < split_acc(t, cur).len() ==> no_delim(#[trigger] split_acc(t, cur)[k]),
    decreases t.len(),
{
    if t.len() == 0 {
        assert(split_acc(t, cur) =~= seq![cur]);
        assert(seq![cur][0] == cur);
    } else if t[0] == DELIMITER {
        lemma_split_acc_segments(t.drop_first(), Seq::empty());
        assert forall|k: int| 0 <= k < split_acc(t, cur).len() implies no_delim(
            #[trigger] split_acc(t, cur)[k],
        ) by {
            if k > 0 {
                assert(split_acc(t, cur)[k] == split_acc(t.drop_first(), Seq::empty())[k - 1]);
            }
        }
    } else {
        assert(no_delim(cur.push(t[0]))) by {
            assert forall|i: int| 0 <= i < cur.push(t[0]).len() implies #[trigger] cur.push(
                t[0],
            )[i] != DELIMITER by {
                if i < cur.len() {
                    assert(cur.push(t[0])[i] == cur[i]);
                }
            }
        }
        lemma_split_acc_segments(t.drop_first(), cur.push(t[0]));
        assert(split_acc(t, cur) == split_acc(t.drop_first(), cur.push(t[0])));
    }
}

/// The seven fields of a stamp, in encoding order.
pub open spec fn stamp_fields(v: StampV) -> Seq<Seq<char>> {
    seq![
        dec_digits(v.version),
        dec_digits(v.bits),
        dec_digits(v.timestamp),
        v.resource,
        v.extension,
        v.salt,
        dec_digits(v.counter),
    ]
}

/// The encoded text of a stamp.
pub open spec fn encode_view(v: StampV) -> Seq<char> {
    join_colon(stamp_fields(v))
}

/// Digit text never holds the delimiter.
pub proof fn lemma_dec_digits_no_delim(n: nat)
    ensures
        no_delim(dec_digits(n)),
{
    lemma_dec_digits_val(n);
    assert forall|i: int| 0 <= i < dec_digits(n).len() implies #[trigger] dec_digits(n)[i]
        != DELIMITER by {
        assert(is_digit_char(dec_digits(n)[i]));
    }
}

/// Joining seven segments, written out.
proof fn lemma_join7(f: Seq<Seq<char>>)
    requires
        f.len() == 7,
    ensures
        join_colon(f) == f[0] + colon() + f[1] + colon() + f[2] + colon() + f[3] + colon() + f[4]
            + colon() + f[5] + colon() + f[6],
{
    let f1 = f.drop_first();
    let f2 = f1.drop_first();
    let f3 = f2.drop_first();
    let f4 = f3.drop_first();
    let f5 = f4.drop_first();
    let f6 = f5.drop_first();
    assert(f6.len() == 1);
    assert(f1[0] == f[1] && f2[0] == f[2] && f3[0] == f[3] && f4[0] == f[4] && f5[0] == f[5]
        && f6[0] == f[6]);
    assert(join_colon(f6) == f6[0]);
    assert(join_colon(f5) == f5[0] + colon() + join_colon(f6));
    assert(join_colon(f4) == f4[0] + colon() + join_colon(f5));
    assert(join_colon(f3) == f3[0] + colon() + join_colon(f4));
    assert(join_colon(f2) == f2[0] + colon() + join_colon(f3));
    assert(join_colon(f1) == f1[0] + colon() + join_colon(f2));
    assert(join_colon(f) == f[0] + colon() + join_colon(f1));
    assert(join_colon(f) == f[0] + colon() + (f[1] + colon() + (f[2] + colon() + (f[3] + colon() + (
    f[4] + colon() + (f[5] + colon() + f[6]))))));
    assert(f[0] + colon() + (f[1] + colon() + (f[2] + colon() + (f[3] + colon() + (f[4] + colon()
        + (f[5] + colon() + f[6]))))) =~= f[0] + colon() + f[1] + colon() + f[2] + colon() + f[3]
        + colon() + f[4] + colon() + f[5] + colon() + f[6]);
}

/// Encodes a stamp as delimited text. Total for every stamp value; the
/// result is exactly the encoding the model describes.
pub fn encode(s: &Stamp) -> (r: String)
    ensures
        r@ == encode_view(s@),
{
    let mut out = u64_to_string(s.version as u64);
    out.append(":");
    let bits = u64_to_string(s.bits as u64);
    out.append(bits.as_str());
    out.append(":");
    let ts = u64_to_string(s.timestamp);
    out.append(ts.as_str());
    out.append(":");
    out.append(s.resource.as_str());
    out.append(":");
    out.append(s.extension.as_str());
    out.append(":");
    out.append(s.salt.as_str());
    out.append(":");
    let counter = u64_to_string(s.counter);
    out.append(counter.as_str());
    proof {
        reveal_strlit(":");
        assert((":")@ =~= colon());
        lemma_join7(stamp_fields(s@));
        let f = stamp_fields(s@);
        assert(out@ =~= f[0] + colon() + f[1] + colon() + f[2] + colon() + f[3] + colon() + f[4]
            + colon() + f[5] + colon() + f[6]);
    }
    out
}

/// Splits text on the delimiter into its segments.
pub fn split_fields(s: &str) -> (r: Vec<String>)
    ensures
        r.deep_view() == spec_split(s@),
{
    let len = s.unicode_len();
    let mut segs: Vec<String> = Vec::new();
    let mut cur = String::new();
    let mut i: usize = 0;
    proof {
        assert(segs.deep_view() =~= Seq::<Seq<char>>::empty());
        assert(s@.skip(0) =~= s@);
        assert(Seq::<Seq<char>>::empty() + split_acc(s@, cur@) =~= split_acc(s@, cur@));
    }
    while i < len
        invariant
            len == s@.len(),
            0 <= i <= len,
            spec_split(s@) == segs.deep_view() + split_acc(s@.skip(i as int), cur@),
        decreases len - i,
    {
        let ghost prev_segs = segs.deep_view();
        let ghost prev_cur = cur@;
        proof {
            assert(s@.skip(i as int)[0] == s@[i as int]);
            assert(s@.skip(i as int).drop_first() =~= s@.skip(i as int + 1));
        }
        let c = s.get_char(i);
        if c == ':' {
            segs.push(cur);
            cur = String::new();
            proof {
                assert(segs.deep_view() =~= prev_segs.push(prev_cur));
                assert(split_acc(s@.skip(i as int), prev_cur) == seq![prev_cur] + split_acc(
                    s@.skip(i as int + 1),
                    Seq::empty(),
                ));
                assert(prev_segs + (seq![prev_cur] + split_acc(s@.skip(i as int + 1), Seq::empty()))
                    =~= prev_segs.push(prev_cur) + split_acc(s@.skip(i as int + 1), Seq::empty()));
            }
        } else {
            let piece = s.substring_char(i, i + 1);
            cur.append(piece);
            proof {
                assert(cur@ =~= prev_cur.push(s@[i as int]));
                assert(split_acc(s@.skip(i as int), prev_cur) == split_acc(
                    s@.skip(i as int + 1),
                    prev_cur.push(s@[i as int]),
                ));
            }
        }
        i = i + 1;
    }
    let ghost prev_segs = segs.deep_view();
    let ghost prev_cur = cur@;
    segs.push(cur);
    proof {
        assert(s@.skip(len as int) =~= Seq::<char>::empty());
        assert(split_acc(Seq::<char>::empty(), prev_cur) == seq![prev_cur]);
        assert(segs.deep_view() =~= prev_segs + seq![prev_cur]);
    }
    segs
}

/// Non-empty digit text denoting a value within a bound.
pub open spec fn valid_num(s: Seq<char>, max: nat) -> bool {
    is_dec_seq(s) && dec_val(s) <= max
}

/// What decoding a text yields: the stamp it denotes, or the first reason
/// it is rejected. The text must split into exactly seven fields; the
/// numeric fields must be decimal text within their machine types, and the
/// salt must stay inside the salt alphabet.
pub open spec fn decode_view(t: Seq<char>) -> Result<StampV, StampError> {
    let segs = spec_split(t);
    if segs.len() != 7 {
        Err(StampError::MalformedStamp)
    } else if !(valid_num(segs[0], u32::MAX as nat) && valid_num(segs[1], u32::MAX as nat)
        && valid_num(segs[2], u64::MAX as nat) && valid_num(segs[6], u64::MAX as nat)
        && is_salt_seq(segs[5])) {
        Err(StampError::InvalidField)
    } else {
        Ok(
            StampV {
                version: dec_val(segs[0]),
                bits: dec_val(segs[1]),
                timestamp: dec_val(segs[2]),
                resource: segs[3],
                extension: segs[4],
                salt: segs[5],
                counter: dec_val(segs[6]),
            },
        )
    }
}

/// A decoded stamp is well-formed.
pub proof fn lemma_decode_wf(t: Seq<char>)
    ensures
        decode_view(t) is Ok ==> decode_view(t)->Ok_0.wf(),
{
    if decode_view(t) is Ok {
        lemma_split_acc_segments(t, Seq::empty());
    }
}

/// Decodes stamp text, returning a complete stamp or an error, atomically.
pub fn decode(s: &str) -> (r: Result<Stamp, StampError>)
    ensures
        decode_view(s@) is Ok ==> r is Ok && r->Ok_0@ == decode_view(s@)->Ok_0 && r->Ok_0@.wf(),
        decode_view(s@) is Err ==> r is Err && r->Err_0 == decode_view(s@)->Err_0,
{
    let segs = split_fields(s);
    if segs.len() != 7 {
        return Err(StampError::MalformedStamp);
    }
    let version64 = match parse_u64(segs[0].as_str()) {
        Some(x) => x,
        None => {
            return Err(StampError::InvalidField);
        },
    };
    if version64 > u32::MAX as u64 {
        return Err(StampError::InvalidField);
    }
    let bits64 = match parse_u64(segs[1].as_str()) {
        Some(x) => x,
        None => {
            return Err(StampError::InvalidField);
        },
    };
    if bits64 > u32::MAX as u64 {
        return Err(StampError::InvalidField);
    }
    let timestamp = match parse_u64(segs[2].as_str()) {
        Some(x) => x,
        None => {
            return Err(StampError::InvalidField);
        },
    };
    let counter = match parse_u64(segs[6].as_str()) {
        Some(x) => x,
        None => {
            return Err(StampError::InvalidField);
        },
    };
    if !is_salt_str(segs[5].as_str()) {
        return Err(StampError::InvalidField);
    }
    let stamp = Stamp {
        version: version64 as u32,
        bits: bits64 as u32,
        timestamp,
        resource: segs[3].clone(),
        extension: segs[4].clone(),
        salt: segs[5].clone(),
        counter,
    };
    proof {
        lemma_decode_wf(s@);
    }
    Ok(stamp)
}

/// Decoding undoes encoding: every well-formed stamp comes back from its
/// own encoded text, unchanged.
pub proof fn lemma_round_trip(v: StampV)
    requires
        v.wf(),
    ensures
        decode_view(encode_view(v)) == Ok::<StampV, StampError>(v),
{
    let f = stamp_fields(v);
    lemma_dec_digits_val(v.version);
    lemma_dec_digits_val(v.bits);
    lemma_dec_digits_val(v.timestamp);
    lemma_dec_digits_val(v.counter);
    lemma_dec_digits_no_delim(v.version);
    lemma_dec_digits_no_delim(v.bits);
    lemma_dec_digits_no_delim(v.timestamp);
    lemma_dec_digits_no_delim(v.counter);
    assert(no_delim(v.salt)) by {
        crate::stamp::lemma_salt_seq_no_delim(v.salt);
    }
    assert forall|k: int| 0 <= k < f.len() implies no_delim(#[trigger] f[k]) by {}
    lemma_split_join(f);
    assert(decode_view(encode_view(v))->Ok_0 == v);
}

} // verus!
