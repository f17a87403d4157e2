//! A verified decimal integer parser over the character view of `&str`:
//! an optional sign, then one or more ASCII digits, rejected when the
//! value falls outside the 64-bit signed range.

use vstd::prelude::*;
use vstd::string::StrSliceExecFns;

verus! {

/// `c` is an ASCII decimal digit.
pub open spec fn is_dec_digit(c: char) -> bool {
    48 <= c as u32 <= 57
}

/// The numeric value of an ASCII decimal digit.
pub open spec fn digit_val(c: char) -> int {
    c as u32 - 48
}

/// Every character of `s` is an ASCII decimal digit.
pub open spec fn all_digits(s: Seq<char>) -> bool {
    forall|i: int| 0 <= i < s.len() ==> is_dec_digit(#[trigger] s[i])
}

/// The value of a digit string, most significant digit first.
pub open spec fn digits_val(s: Seq<char>) -> int
    decreases s.len(),
{
    if s.len() == 0 {
        0
    } else {
        digits_val(s.drop_last()) * 10 + digit_val(s.last())
    }
}

/// What parsing `s` as a signed 64-bit decimal yields: an optional `+`
/// or `-`, then at least one ASCII digit and nothing else, with the
/// signed value inside the 64-bit range; anything else is rejected.
pub open spec fn parse_i64_spec(s: Seq<char>) -> Option<int> {
    if s.len() > 0 && s[0] == '-' {
        let ds = s.skip(1);
        if ds.len() == 0 || !all_digits(ds) {
            None
        } else if -digits_val(ds) >= i64::MIN {
            Some(-digits_val(ds))
        } else {
            None
        }
    } else {
        let ds = if s.len() > 0 && s[0] == '+' {
            s.skip(1)
        } else {
            s
        };
        if ds.len() == 0 || !all_digits(ds) {
            None
        } else if digits_val(ds) <= i64::MAX {
            Some(digits_val(ds))
        } else {
            None
        }
    }
}

proof fn lemma_digits_val_nonneg(s: Seq<char>)
    requires
        all_digits(s),
    ensures
        digits_val(s) >= 0,
    decreases s.len(),
{
    if s.len() > 0 {
        assert(all_digits(s.drop_last()));
        lemma_digits_val_nonneg(s.drop_last());
        assert(is_dec_digit(s[s.len() - 1]));
    }
}

proof fn lemma_digits_val_prefix_le(s: Seq<char>, k: int)
    requires
        all_digits(s),
        0 <= k <= s.len(),
    ensures
        digits_val(s) >= digits_val(s.take(k)),
    decreases s.len() - k,
{
    if k == s.len() {
        assert(s.take(k) =~= s);
    } else {
        lemma_digits_val_prefix_le(s, k + 1);
        let p = s.take(k + 1);
        assert(p.drop_last() =~= s.take(k));
        assert(p.last() == s[k]);
        assert(all_digits(s.take(k)));
        lemma_digits_val_nonneg(s.take(k));
        assert(is_dec_digit(s[k]));
        assert(digits_val(p) == digits_val(s.take(k)) * 10 + digit_val(s[k]));
    }
}

/// Parses a signed 64-bit decimal integer from `s`, accepting exactly
/// the strings `parse_i64_spec` accepts.
#[verifier::loop_isolation(false)]
pub fn parse_i64_dec(s: &str) -> (r: Option<i64>)
    ensures
        match r {
            Some(v) => parse_i64_spec(s@) == Some(v as int),
            None => parse_i64_spec(s@) is None,
        },
{
    let n = s.unicode_len();
    if n == 0 {
        return None;
    }
    let c0 = s.get_char(0);
    let neg = c0 == '-';
    let start: usize = if c0 == '-' || c0 == '+' {
        1
    } else {
        0
    };
    let ghost ds = if c0 == '-' || c0 == '+' {
        s@.skip(1)
    } else {
        s@
    };
    if start >= n {
        return None;
    }
    let mut acc: i64 = 0;
    let mut i: usize = start;
    while i < n
        invariant
            n == s@.len(),
            start <= i <= n,
            ds.len() == n - start,
            forall|q: int| 0 <= q < ds.len() ==> ds[q] == s@[start + q],
            forall|q: int| start <= q < i ==> is_dec_digit(#[trigger] s@[q]),
            acc <= 0,
            acc == -digits_val(ds.take(i - start)),
        decreases n - i,
    {
        let c = s.get_char(i);
        let cv = c as u32;
        proof {
            assert(ds.take(i + 1 - start).drop_last() =~= ds.take(i - start));
            assert(ds.take(i + 1 - start).last() == s@[i as int]);
        }
        if cv < 48 || cv > 57 {
            proof {
                assert(!is_dec_digit(s@[i as int]));
                assert(ds[i - start] == s@[i as int]);
                assert(!all_digits(ds));
                assert(s@.len() > 0);
                assert(c0 == s@[0]);
                assert(parse_i64_spec(s@) is None);
            }
            return None;
        }
        let d = (cv - 48) as i64;
        let a1 = match acc.checked_mul(10) {
            Some(a) => a,
            None => {
                proof {
                    assert(s@.len() > 0);
                    assert(c0 == s@[0]);
                    if all_digits(ds) {
                        lemma_digits_val_nonneg(ds.take(i - start));
                        lemma_digits_val_prefix_le(ds, i + 1 - start);
                        assert(digit_val(ds[i - start]) >= 0);
                        assert(digits_val(ds.take(i + 1 - start)) >= digits_val(
                            ds.take(i - start),
                        ) * 10);
                        assert(digits_val(ds) > 9223372036854775808);
                        assert(parse_i64_spec(s@) is None);
                    } else {
                        assert(parse_i64_spec(s@) is None);
                    }
                }
                return None;
            },
        };
        let a2 = match a1.checked_sub(d) {
            Some(a) => a,
            None => {
                proof {
                    assert(s@.len() > 0);
                    assert(c0 == s@[0]);
                    if all_digits(ds) {
                        lemma_digits_val_prefix_le(ds, i + 1 - start);
                        assert(digit_val(ds[i - start]) == d as int);
                        assert(digits_val(ds.take(i + 1 - start)) == digits_val(
                            ds.take(i - start),
                        ) * 10 + d);
                        assert(digits_val(ds) > 9223372036854775808);
                        assert(parse_i64_spec(s@) is None);
                    } else {
                        assert(parse_i64_spec(s@) is None);
                    }
                }
                return None;
            },
        };
        acc = a2;
        proof {
            assert(acc == -digits_val(ds.take(i + 1 - start)));
        }
        i = i + 1;
    }
    proof {
        assert(ds.take(i - start) =~= ds);
        assert forall|q: int| 0 <= q < ds.len() implies is_dec_digit(#[trigger] ds[q]) by {
            assert(ds[q] == s@[start + q]);
            assert(is_dec_digit(s@[start + q]));
        }
        assert(all_digits(ds));
        lemma_digits_val_nonneg(ds);
        assert(acc == -digits_val(ds));
        assert(ds.len() > 0);
        assert(s@.len() > 0);
        assert(c0 == s@[0]);
        assert(neg ==> parse_i64_spec(s@) == Some(acc as int));
        assert(!neg && acc == i64::MIN ==> parse_i64_spec(s@) is None);
        assert(!neg && acc != i64::MIN ==> parse_i64_spec(s@) == Some(-(acc as int)));
    }
    if neg {
        Some(acc)
    } else {
        if acc == i64::MIN {
            return None;
        }
        Some(0 - acc)
    }
}

} // verus!
