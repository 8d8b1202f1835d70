//! The parsed form of a count argument and the offset engine that evaluates
//! it against a file's total line or byte count.

use crate::digits::all_digits;
use crate::digits::dec_value;
use crate::digits::scan_decimal;
use vstd::prelude::*;
use vstd::string::StrSliceExecFns;

verus! {

/// A parsed count argument.
///
/// A bare number `N` means "the last N units" and is normalized to
/// `TakeNum(-N)`; an explicit `+N` means "from unit N (1-indexed) onward" and
/// becomes `TakeNum(N)`. The argument `+0` is kept apart as `PlusZero`
/// ("emit from the very first unit onward"), while `-0` and `0` become
/// `TakeNum(0)` ("emit nothing").
#[derive(Debug, Clone, Copy, PartialEq, Eq, Structural)]
pub enum TakeValue {
    PlusZero,
    TakeNum(i64),
}

/// The start offset demanded by a directive against a total unit count:
/// `None` means "emit nothing", `Some(i)` means "emit from zero-based unit
/// `i` onward".
pub open spec fn start_index_spec(take_val: TakeValue, total: int) -> Option<int> {
    match take_val {
        TakeValue::PlusZero => if total > 0 {
            Some(0int)
        } else {
            None
        },
        TakeValue::TakeNum(num) => {
            if num == 0 || total == 0 || num > total {
                None
            } else if num < 0 {
                if total + num < 0 {
                    Some(0int)
                } else {
                    Some(total + num)
                }
            } else {
                Some(num - 1)
            }
        },
    }
}

/// Every start offset the engine yields lies inside the file.
pub proof fn lemma_start_index_in_range(take_val: TakeValue, total: int)
    requires
        0 <= total,
        start_index_spec(take_val, total) is Some,
    ensures
        0 <= start_index_spec(take_val, total)->0 < total,
{
}

/// Evaluate a directive against a total unit count, yielding the zero-based
/// unit at which streaming starts, or `None` when nothing is to be emitted.
pub fn get_start_index(take_val: &TakeValue, total: i64) -> (r: Option<u64>)
    requires
        0 <= total,
    ensures
        match start_index_spec(*take_val, total as int) {
            Some(s) => r matches Some(v) && v == s,
            None => r is None,
        },
{
    match take_val {
        TakeValue::PlusZero => {
            if total > 0 {
                Some(0)
            } else {
                None
            }
        },
        TakeValue::TakeNum(num) => {
            let num = *num;
            if num == 0 || total == 0 || num > total {
                None
            } else {
                let start: i64 = if num < 0 {
                    total + num
                } else {
                    num - 1
                };
                Some(if start < 0 {
                    0
                } else {
                    start as u64
                })
            }
        },
    }
}

/// The directive denoted by a count argument: an optional leading sign
/// (`+` or `-`) followed by one or more decimal digits. A missing sign is
/// read as `-` (a bare number counts back from the end), `+0` is the distinct
/// `PlusZero`, and the signed value must fit `i64`; anything else is no
/// directive at all.
pub open spec fn parse_num_spec(s: Seq<char>) -> Option<TakeValue> {
    if s.len() == 0 {
        None
    } else {
        let explicit_plus = s[0] == '+';
        let has_sign = explicit_plus || s[0] == '-';
        let digits = if has_sign {
            s.drop_first()
        } else {
            s
        };
        if digits.len() == 0 || !all_digits(digits) {
            None
        } else {
            let v = dec_value(digits);
            if explicit_plus {
                if v == 0 {
                    Some(TakeValue::PlusZero)
                } else if v <= i64::MAX {
                    Some(TakeValue::TakeNum(v as i64))
                } else {
                    None
                }
            } else {
                if v <= 0x8000_0000_0000_0000 {
                    Some(TakeValue::TakeNum((-v) as i64))
                } else {
                    None
                }
            }
        }
    }
}

/// Parse a count argument. A malformed or out-of-range argument is rejected,
/// handing the offending text back verbatim.
pub fn parse_num(val: String) -> (r: Result<TakeValue, String>)
    ensures
        match parse_num_spec(val@) {
            Some(t) => r matches Ok(got) && got == t,
            None => r matches Err(e) && e@ == val@,
        },
{
    let n = val.as_str().unicode_len();
    if n == 0 {
        return Err(val);
    }
    let first = val.as_str().get_char(0);
    let explicit_plus = first == '+';
    let has_sign = explicit_plus || first == '-';
    let from: usize = if has_sign {
        1
    } else {
        0
    };
    let limit: u64 = if explicit_plus {
        0x7fff_ffff_ffff_ffff
    } else {
        0x8000_0000_0000_0000
    };
    proof {
        if has_sign {
            assert(val@.skip(1) =~= val@.drop_first());
        } else {
            assert(val@.skip(0) =~= val@);
        }
    }
    match scan_decimal(val.as_str(), from, limit) {
        None => Err(val),
        Some(mag) => {
            if explicit_plus {
                if mag == 0 {
                    Ok(TakeValue::PlusZero)
                } else {
                    Ok(TakeValue::TakeNum(mag as i64))
                }
            } else {
                let num: i64 = if mag == 0x8000_0000_0000_0000 {
                    i64::MIN
                } else {
                    -(mag as i64)
                };
                Ok(TakeValue::TakeNum(num))
            }
        },
    }
}

/// Parsing a count argument is deterministic: any two parses of the same text
/// denote the same directive.
pub proof fn lemma_parse_deterministic(s: Seq<char>, r1: Option<TakeValue>, r2: Option<TakeValue>)
    requires
        r1 == parse_num_spec(s),
        r2 == parse_num_spec(s),
    ensures
        r1 == r2,
{
}

/// A zero count emits nothing, whatever the total.
pub proof fn lemma_zero_count_emits_nothing(total: int)
    ensures
        start_index_spec(TakeValue::TakeNum(0), total) is None,
{
}

/// `+0` emits the whole file when there is one, and nothing from an empty
/// file.
pub proof fn lemma_plus_zero(total: int)
    ensures
        total <= 0 ==> start_index_spec(TakeValue::PlusZero, total) is None,
        total > 0 ==> start_index_spec(TakeValue::PlusZero, total) == Some(0int),
{
}

/// A request for the last `k` units of a nonempty file clamps to the start of
/// the file when `k` covers it all, and otherwise starts `k` units before the
/// end. (An empty file emits nothing whatever `k` is, so `total > 0` is
/// required here.)
pub proof fn lemma_negative_count_clamps(k: i64, total: i64)
    requires
        0 < k,
        0 < total,
    ensures
        k >= total ==> start_index_spec(TakeValue::TakeNum((-(k as int)) as i64), total as int)
            == Some(0int),
        k < total ==> start_index_spec(TakeValue::TakeNum((-(k as int)) as i64), total as int)
            == Some(total - k as int),
{
}

/// `+k` emits nothing when `k` lies beyond the total, and otherwise starts at
/// the zero-based unit `k - 1`.
pub proof fn lemma_positive_count(k: i64, total: i64)
    requires
        0 < k,
        0 <= total,
    ensures
        k > total ==> start_index_spec(TakeValue::TakeNum(k), total as int) is None,
        k <= total ==> start_index_spec(TakeValue::TakeNum(k), total as int) == Some(k - 1 as int),
{
}

} // verus!
