//! Decimal parsing of unsigned 64-bit integers, shared by the
//! time-to-live override and the issue-reference parser.

use vstd::prelude::*;
use vstd::assert_seqs_equal;

verus! {

/// An ASCII decimal digit.
pub open spec fn is_ascii_digit(b: u8) -> bool {
    0x30 <= b <= 0x39
}

/// The numeric value of an ASCII digit.
pub open spec fn digit_val(b: u8) -> nat {
    (b - 0x30) as nat
}

/// Every byte of the sequence is an ASCII digit.
pub open spec fn all_digits(s: Seq<u8>) -> bool {
    forall|j: int| 0 <= j < s.len() ==> is_ascii_digit(#[trigger] s[j])
}

/// The value of a digit string, most significant digit first.
pub open spec fn dec_value(s: Seq<u8>) -> nat
    decreases s.len(),
{
    if s.len() == 0 {
        0
    } else {
        dec_value(s.drop_last()) * 10 + digit_val(s.last())
    }
}

/// The digits of a numeral, with one optional leading plus sign
/// stripped, as the standard integer parser accepts it.
pub open spec fn numeral_digits(s: Seq<u8>) -> Seq<u8> {
    if s.len() > 0 && s[0] == 0x2b {
        s.skip(1)
    } else {
        s
    }
}

/// The byte sequence is a numeral the 64-bit parser accepts: an
/// optional plus sign, then at least one digit, with a value that fits.
pub open spec fn valid_u64_numeral(s: Seq<u8>) -> bool {
    let t = numeral_digits(s);
    t.len() > 0 && all_digits(t) && dec_value(t) <= u64::MAX
}

/// The value of a valid numeral.
pub open spec fn u64_numeral_value(s: Seq<u8>) -> nat {
    dec_value(numeral_digits(s))
}

/// A longer digit prefix never has a smaller value.
proof fn lemma_dec_value_prefix_le(s: Seq<u8>, i: int)
    requires
        0 <= i <= s.len(),
    ensures
        dec_value(s.take(i)) <= dec_value(s),
    decreases s.len() - i,
{
    if i < s.len() {
        lemma_dec_value_prefix_le(s, i + 1);
        let p = s.take(i + 1);
        assert(p.drop_last() == s.take(i)) by {
            assert_seqs_equal!(s.take(i + 1).drop_last(), s.take(i));
        }
        assert(dec_value(s.take(i)) * 10 >= dec_value(s.take(i))) by (nonlinear_arith);
        assert(dec_value(s.take(i)) <= dec_value(s.take(i + 1)));
    } else {
        assert(s.take(i) == s) by {
            assert_seqs_equal!(s.take(i), s);
        }
    }
}

/// Parse an unsigned 64-bit decimal numeral, exactly as the standard
/// parser accepts it: `Some` if and only if the input is an optional
/// plus sign followed by one or more digits whose value fits in 64
/// bits.
pub fn parse_u64_numeral(s: &[u8]) -> (r: Option<u64>)
    ensures
        (match r {
            Some(v) => valid_u64_numeral(s@) && v == u64_numeral_value(s@),
            None => !valid_u64_numeral(s@),
        }),
{
    let ghost t = numeral_digits(s@);
    let start: usize = if s.len() > 0 && s[0] == 0x2b {
        1
    } else {
        0
    };
    proof {
        assert(t == s@.skip(start as int)) by {
            assert_seqs_equal!(numeral_digits(s@), s@.skip(start as int));
        }
    }
    if s.len() == start {
        return None;
    }
    let mut acc: u64 = 0;
    let mut i: usize = start;
    while i < s.len()
        invariant
            start <= i <= s@.len(),
            start <= 1,
            t == s@.skip(start as int),
            t == numeral_digits(s@),
            all_digits(t.take(i - start)),
            acc == dec_value(t.take(i - start)),
        decreases s@.len() - i,
    {
        let b = s[i];
        proof {
            assert(t[i - start] == s@[i as int]);
            assert(t.take(i + 1 - start).drop_last() == t.take(i - start)) by {
                assert_seqs_equal!(t.take(i + 1 - start).drop_last(), t.take(i - start));
            }
            assert(t.take(i + 1 - start).last() == t[i - start]);
        }
        if !(0x30 <= b && b <= 0x39) {
            proof {
                assert(!is_ascii_digit(t[i - start]));
                assert(!all_digits(t));
            }
            return None;
        }
        let d = (b - 0x30) as u64;
        let next = match acc.checked_mul(10) {
            Some(p) => p.checked_add(d),
            None => None,
        };
        match next {
            None => {
                proof {
                    let v = dec_value(t.take(i + 1 - start));
                    assert(v == acc * 10 + digit_val(b));
                    assert(acc * 10 + d > u64::MAX);
                    lemma_dec_value_prefix_le(t, i + 1 - start);
                    assert(dec_value(t) > u64::MAX);
                }
                return None;
            },
            Some(v) => {
                proof {
                    assert(all_digits(t.take(i + 1 - start))) by {
                        assert(forall|j: int|
                            0 <= j < i - start ==> is_ascii_digit(
                                #[trigger] t.take(i - start)[j],
                            ));
                        assert(forall|j: int|
                            0 <= j < i + 1 - start ==> is_ascii_digit(
                                #[trigger] t.take(i + 1 - start)[j],
                            ));
                    }
                    assert(v == dec_value(t.take(i + 1 - start)));
                }
                acc = v;
            },
        }
        i = i + 1;
    }
    proof {
        assert(t.take(i - start) == t) by {
            assert_seqs_equal!(t.take(i - start), t);
        }
    }
    Some(acc)
}

/// The default time-to-live for cache entries, in seconds: one hour.
pub const DEFAULT_TTL_SECONDS: u64 = 3600;

/// The time-to-live a raw override value yields: its value when it is a
/// valid non-negative numeral, the default otherwise.
pub open spec fn spec_ttl(raw: Option<Seq<u8>>) -> u64 {
    match raw {
        None => DEFAULT_TTL_SECONDS,
        Some(s) => if valid_u64_numeral(s) {
            u64_numeral_value(s) as u64
        } else {
            DEFAULT_TTL_SECONDS
        },
    }
}

/// The cache time-to-live in seconds for the raw bytes of the override
/// variable: the parsed number of seconds, or the default of one hour
/// when the variable is absent or unparseable.
pub fn cache_ttl_seconds(raw: Option<&Vec<u8>>) -> (r: u64)
    ensures
        r == spec_ttl(
            match raw {
                Some(v) => Some(v@),
                None => None,
            },
        ),
{
    match raw {
        None => DEFAULT_TTL_SECONDS,
        Some(v) => match parse_u64_numeral(v.as_slice()) {
            Some(n) => n,
            None => DEFAULT_TTL_SECONDS,
        },
    }
}

} // verus!
