//! Decimal digit strings: their mathematical value and a verified scanner
//! with an exact overflow bound, shared by the count-spec parser and the
//! range-list parser.

use vstd::prelude::*;
use vstd::string::StrSliceExecFns;

verus! {

/// `c` is an ASCII decimal digit.
pub open spec fn is_digit(c: char) -> bool {
    48 <= c as u32 <= 57
}

/// The numeric value of a digit character.
pub open spec fn digit_val(c: char) -> int {
    c as u32 - 48
}

/// Every character of `s` is an ASCII decimal digit.
pub open spec fn all_digits(s: Seq<char>) -> bool {
    forall|i: int| 0 <= i < s.len() ==> is_digit(#[trigger] s[i])
}

/// The value of `s` read as a decimal numeral.
pub open spec fn dec_value(s: Seq<char>) -> int
    decreases s.len(),
{
    if s.len() == 0 {
        0
    } else {
        dec_value(s.drop_last()) * 10 + digit_val(s.last())
    }
}

pub proof fn lemma_dec_value_nonneg(s: Seq<char>)
    requires
        all_digits(s),
    ensures
        dec_value(s) >= 0,
    decreases s.len(),
{
    if s.len() > 0 {
        assert forall|i: int| 0 <= i < s.drop_last().len() implies is_digit(
            #[trigger] s.drop_last()[i],
        ) by {
            assert(s.drop_last()[i] == s[i]);
        }
        lemma_dec_value_nonneg(s.drop_last());
        assert(is_digit(s[s.len() - 1]));
    }
}

/// A prefix of a digit string never exceeds the whole string's value.
pub proof fn lemma_dec_value_prefix(s: Seq<char>, j: int)
    requires
        all_digits(s),
        0 <= j <= s.len(),
    ensures
        dec_value(s.take(j)) <= dec_value(s),
    decreases s.len(),
{
    if j == s.len() {
        assert(s.take(j) =~= s);
    } else {
        let head = s.drop_last();
        assert forall|i: int| 0 <= i < head.len() implies is_digit(#[trigger] head[i]) by {
            assert(head[i] == s[i]);
        }
        assert(head.take(j) =~= s.take(j));
        lemma_dec_value_prefix(head, j);
        lemma_dec_value_nonneg(head);
        assert(is_digit(s[s.len() - 1]));
    }
}

/// Read the decimal numeral that starts at character `from` of `s` and runs
/// to the end of `s`. Returns its value when that whole suffix is one or more
/// digits and the value is at most `limit`; returns `None` when the suffix is
/// empty, holds a non-digit, or its value exceeds `limit`.
pub fn scan_decimal(s: &str, from: usize, limit: u64) -> (r: Option<u64>)
    requires
        from <= s@.len(),
    ensures
        ({
            let digits = s@.skip(from as int);
            match r {
                Some(v) => digits.len() > 0 && all_digits(digits) && v == dec_value(digits)
                    && v <= limit,
                None => digits.len() == 0 || !all_digits(digits) || dec_value(digits) > limit,
            }
        }),
{
    let ghost digits = s@.skip(from as int);
    let n = s.unicode_len();
    if from == n {
        return None;
    }
    let mut acc: u64 = 0;
    let mut i: usize = from;
    while i < n
        invariant
            from <= i <= n,
            n == s@.len(),
            digits == s@.skip(from as int),
            acc <= limit,
            all_digits(s@.subrange(from as int, i as int)),
            acc == dec_value(s@.subrange(from as int, i as int)),
        decreases n - i,
    {
        let c = s.get_char(i);
        let cu = c as u32;
        if cu < 48 || cu > 57 {
            proof {
                assert(digits[i - from] == c);
                assert(!is_digit(digits[i - from]));
            }
            return None;
        }
        let d: u64 = (cu - 48) as u64;
        let ghost scanned = s@.subrange(from as int, i as int + 1);
        proof {
            assert(scanned.drop_last() =~= s@.subrange(from as int, i as int));
            assert(scanned.last() == c);
            assert(dec_value(scanned) == acc * 10 + d);
        }
        if d > limit || acc > (limit - d) / 10 {
            proof {
                assert(acc * 10 + d > limit) by (nonlinear_arith)
                    requires
                        d <= 9,
                        acc >= 0,
                        d > limit || acc > (limit - d) / 10,
                ;
                if all_digits(digits) {
                    assert(digits.take(i - from + 1) =~= scanned);
                    lemma_dec_value_prefix(digits, i - from + 1);
                }
            }
            return None;
        }
        proof {
            assert(acc * 10 + d <= limit) by (nonlinear_arith)
                requires
                    d <= limit,
                    acc <= (limit - d) / 10,
            ;
            assert forall|j: int| 0 <= j < scanned.len() implies is_digit(
                #[trigger] scanned[j],
            ) by {
                if j < scanned.len() - 1 {
                    assert(scanned[j] == s@.subrange(from as int, i as int)[j]);
                } else {
                    assert(scanned[j] == c);
                }
            }
        }
        acc = acc * 10 + d;
        i = i + 1;
    }
    proof {
        assert(s@.subrange(from as int, n as int) =~= digits);
    }
    Some(acc)
}

} // verus!
