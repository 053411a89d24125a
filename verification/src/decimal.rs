//! Decimal text for the numeric stamp fields: rendering a number as digit
//! characters and parsing such text back, with an exact correspondence
//! between the two directions.
use vstd::prelude::*;

verus! {

/// Whether a character is a decimal digit.
pub open spec fn is_digit_char(c: char) -> bool {
    '0' <= c && c <= '9'
}

/// The digit character for a value below ten.
pub open spec fn digit_char(d: nat) -> char
    recommends
        d < 10,
{
    ((48 + d) as u8) as char
}

/// The numeric value a digit character denotes.
pub open spec fn digit_val(c: char) -> nat
    recommends
        is_digit_char(c),
{
    if is_digit_char(c) {
        (c as nat - 48) as nat
    } else {
        0
    }
}

/// The decimal rendering of a number, most significant digit first,
/// without leading zeros (except for the number zero itself).
pub open spec fn dec_digits(n: nat) -> Seq<char>
    decreases n,
{
    if n < 10 {
        seq![digit_char(n)]
    } else {
        dec_digits(n / 10).push(digit_char(n % 10))
    }
}

/// A non-empty sequence consisting only of decimal digit characters.
pub open spec fn is_dec_seq(s: Seq<char>) -> bool {
    s.len() > 0 && (forall|i: int| 0 <= i < s.len() ==> is_digit_char(#[trigger] s[i]))
}

/// The number a sequence of digit characters denotes.
pub open spec fn dec_val(s: Seq<char>) -> nat
    decreases s.len(),
{
    if s.len() == 0 {
        0
    } else {
        dec_val(s.drop_last()) * 10 + digit_val(s.last())
    }
}

/// Rendering a number gives digit characters that denote it again.
pub proof fn lemma_dec_digits_val(n: nat)
    ensures
        is_dec_seq(dec_digits(n)),
        dec_val(dec_digits(n)) == n,
    decreases n,
{
    if n < 10 {
        let s = dec_digits(n);
        assert(s.drop_last() =~= Seq::<char>::empty());
        assert(dec_val(Seq::<char>::empty()) == 0);
        assert(s.last() == digit_char(n));
        assert(dec_val(s) == digit_val(digit_char(n)));
        assert(digit_val(digit_char(n)) == n);
    } else {
        lemma_dec_digits_val(n / 10);
        let s = dec_digits(n / 10);
        let t = dec_digits(n);
        assert(t.drop_last() =~= s);
        assert(t.last() == digit_char((n % 10) as nat));
        assert(digit_val(digit_char((n % 10) as nat)) == n % 10);
        assert(dec_val(t) == (n / 10) * 10 + n % 10);
        assert((n / 10) * 10 + n % 10 == n) by (nonlinear_arith);
        assert forall|i: int| 0 <= i < t.len() implies is_digit_char(#[trigger] t[i]) by {
            if i < s.len() {
                assert(t[i] == s[i]);
            } else {
                assert(t[i] == digit_char((n % 10) as nat));
            }
        }
    }
}

/// Extending digit text to the right never lowers the value it denotes.
pub proof fn lemma_dec_val_take_mono(s: Seq<char>, i: int)
    requires
        0 <= i <= s.len(),
    ensures
        dec_val(s.take(i)) <= dec_val(s),
    decreases s.len() - i,
{
    if i == s.len() {
        assert(s.take(i) =~= s);
    } else {
        assert(s.take(i + 1).drop_last() =~= s.take(i));
        assert(s.take(i + 1).last() == s[i]);
        assert(dec_val(s.take(i + 1)) == dec_val(s.take(i)) * 10 + digit_val(s[i]));
        lemma_dec_val_take_mono(s, i + 1);
    }
}

/// The one-character string for a digit value.
pub(crate) fn digit_str(d: u64) -> (r: &'static str)
    requires
        d < 10,
    ensures
        r@ == seq![digit_char(d as nat)],
{
    proof {
        reveal_strlit("0");
        reveal_strlit("1");
        reveal_strlit("2");
        reveal_strlit("3");
        reveal_strlit("4");
        reveal_strlit("5");
        reveal_strlit("6");
        reveal_strlit("7");
        reveal_strlit("8");
        reveal_strlit("9");
    }
    if d == 0 {
        let r = "0";
        proof {
            assert(r@ =~= seq![digit_char(d as nat)]);
        }
        r
    } else if d == 1 {
        let r = "1";
        proof {
            assert(r@ =~= seq![digit_char(d as nat)]);
        }
        r
    } else if d == 2 {
        let r = "2";
        proof {
            assert(r@ =~= seq![digit_char(d as nat)]);
        }
        r
    } else if d == 3 {
        let r = "3";
        proof {
            assert(r@ =~= seq![digit_char(d as nat)]);
        }
        r
    } else if d == 4 {
        let r = "4";
        proof {
            assert(r@ =~= seq![digit_char(d as nat)]);
        }
        r
    } else if d == 5 {
        let r = "5";
        proof {
            assert(r@ =~= seq![digit_char(d as nat)]);
        }
        r
    } else if d == 6 {
        let r = "6";
        proof {
            assert(r@ =~= seq![digit_char(d as nat)]);
        }
        r
    } else if d == 7 {
        let r = "7";
        proof {
            assert(r@ =~= seq![digit_char(d as nat)]);
        }
        r
    } else if d == 8 {
        let r = "8";
        proof {
            assert(r@ =~= seq![digit_char(d as nat)]);
        }
        r
    } else {
        let r = "9";
        proof {
            assert(r@ =~= seq![digit_char(d as nat)]);
        }
        r
    }
}

/// Renders a number as decimal text.
pub fn u64_to_string(n: u64) -> (r: String)
    ensures
        r@ == dec_digits(n as nat),
    decreases n,
{
    if n < 10 {
        String::from_str(digit_str(n))
    } else {
        let mut s = u64_to_string(n / 10);
        let d = digit_str(n % 10);
        s.append(d);
        proof {
            assert(s@ =~= dec_digits((n as nat) / 10).push(digit_char((n as nat) % 10)));
        }
        s
    }
}

/// Parses decimal text back to a number; exactly the non-empty all-digit
/// strings whose value fits in the result type are accepted.
pub fn parse_u64(s: &str) -> (r: Option<u64>)
    ensures
        r is Some <==> is_dec_seq(s@) && dec_val(s@) <= u64::MAX,
        r is Some ==> r->0 == dec_val(s@),
{
    let len = s.unicode_len();
    if len == 0 {
        return None;
    }
    let mut i: usize = 0;
    let mut acc: u64 = 0;
    while i < len
        invariant
            0 < len == s@.len(),
            0 <= i <= len,
            forall|j: int| 0 <= j < i ==> is_digit_char(#[trigger] s@[j]),
            acc == dec_val(s@.take(i as int)),
        decreases len - i,
    {
        let c = s.get_char(i);
        let v = c as u32;
        if v < 48 || v > 57 {
            proof {
                assert(!is_digit_char(s@[i as int]));
            }
            return None;
        }
        let d = (v - 48) as u64;
        proof {
            assert(s@.take(i as int + 1).drop_last() =~= s@.take(i as int));
            assert(s@.take(i as int + 1).last() == s@[i as int]);
            assert(dec_val(s@.take(i as int + 1)) == acc * 10 + digit_val(s@[i as int]));
            assert(digit_val(s@[i as int]) == d);
        }
        let acc10 = match acc.checked_mul(10) {
            Some(x) => x,
            None => {
                proof {
                    lemma_dec_val_take_mono(s@, i as int + 1);
                }
                return None;
            },
        };
        let acc2 = match acc10.checked_add(d) {
            Some(x) => x,
            None => {
                proof {
                    lemma_dec_val_take_mono(s@, i as int + 1);
                }
                return None;
            },
        };
        acc = acc2;
        i = i + 1;
    }
    proof {
        assert(s@.take(len as int) =~= s@);
    }
    Some(acc)
}

} // verus!
