//! The offset engine's scanning half: counting the lines and bytes of a
//! source, and emitting the suffix that a directive demands. A line is
//! delimited by a single newline byte; a final unterminated line still
//! counts and is still emitted.

use crate::directive::TakeValue;
use crate::directive::lemma_start_index_in_range;
use crate::directive::start_index_spec;
use vstd::prelude::*;

verus! {

/// The line terminator byte.
pub const NL: u8 = 10;

/// How many newline bytes `s` holds.
pub open spec fn count_nl(s: Seq<u8>) -> nat
    decreases s.len(),
{
    if s.len() == 0 {
        0
    } else {
        (if s[0] == NL {
            1nat
        } else {
            0nat
        }) + count_nl(s.drop_first())
    }
}

/// How many lines `s` holds: one per newline byte, plus a final unterminated
/// line when the source is nonempty and does not end in a newline.
pub open spec fn line_count(s: Seq<u8>) -> nat {
    count_nl(s) + if s.len() > 0 && s[s.len() - 1] != NL {
        1nat
    } else {
        0nat
    }
}

/// What remains of `s` after dropping its first `k` lines: every byte up to
/// and including the `k`-th newline is removed.
pub open spec fn skip_lines(s: Seq<u8>, k: nat) -> Seq<u8>
    decreases s.len(),
{
    if k == 0 || s.len() == 0 {
        s
    } else if s[0] == NL {
        skip_lines(s.drop_first(), (k - 1) as nat)
    } else {
        skip_lines(s.drop_first(), k)
    }
}

pub proof fn lemma_count_nl_bounds(s: Seq<u8>)
    ensures
        count_nl(s) <= s.len(),
        s.len() > 0 && s[s.len() - 1] != NL ==> count_nl(s) < s.len(),
        s.len() > 0 && s[s.len() - 1] == NL ==> 1 <= count_nl(s),
    decreases s.len(),
{
    if s.len() > 0 {
        lemma_count_nl_bounds(s.drop_first());
        if s.len() > 1 {
            assert(s.drop_first()[s.len() - 2] == s[s.len() - 1]);
        }
    }
}

/// A nonempty source holds at least one line; only the empty source holds
/// none.
pub proof fn lemma_line_count_pos(s: Seq<u8>)
    ensures
        s.len() > 0 ==> line_count(s) >= 1,
        line_count(s) == 0 ==> s == Seq::<u8>::empty(),
{
    lemma_count_nl_bounds(s);
    if s.len() == 0 {
        assert(s =~= Seq::<u8>::empty());
    }
}

/// Count the lines and bytes of a source in one forward pass.
pub fn count_line_bytes(data: &Vec<u8>) -> (r: (u64, u64))
    ensures
        r.0 == line_count(data@),
        r.1 == data@.len(),
{
    let n = data.len();
    let mut i: usize = 0;
    let mut nl: u64 = 0;
    proof {
        assert(data@.skip(0) =~= data@);
    }
    while i < n
        invariant
            i <= n,
            n == data@.len(),
            nl <= i,
            nl + count_nl(data@.skip(i as int)) == count_nl(data@),
        decreases n - i,
    {
        proof {
            assert(data@.skip(i as int)[0] == data@[i as int]);
            assert(data@.skip(i as int).drop_first() =~= data@.skip(i as int + 1));
        }
        if data[i] == NL {
            nl = nl + 1;
        }
        i = i + 1;
    }
    proof {
        assert(data@.skip(n as int) =~= Seq::<u8>::empty());
    }
    let lines: u64 = if n > 0 && data[n - 1] != NL {
        proof {
            lemma_count_nl_bounds(data@);
        }
        nl + 1
    } else {
        nl
    };
    (lines, n as u64)
}

/// Emit the byte suffix that a directive demands: everything at or after the
/// computed start offset, or nothing when the directive yields no start.
pub fn tail_bytes(data: &Vec<u8>, take_val: &TakeValue, total_bytes: i64) -> (r: Vec<u8>)
    requires
        total_bytes == data@.len(),
    ensures
        match start_index_spec(*take_val, total_bytes as int) {
            Some(s) => r@ == data@.skip(s),
            None => r@ == Seq::<u8>::empty(),
        },
{
    let mut out: Vec<u8> = Vec::new();
    let n = data.len();
    if let Some(start) = crate::directive::get_start_index(take_val, total_bytes) {
        proof {
            lemma_start_index_in_range(*take_val, total_bytes as int);
            assert(start < n);
        }
        let ghost s0 = start as int;
        let mut i: usize = start as usize;
        proof {
            assert(i == s0);
            assert(out@ =~= data@.subrange(s0, s0));
        }
        while i < n
            invariant
                n == data@.len(),
                0 <= s0 <= i <= n,
                out@ == data@.subrange(s0, i as int),
            decreases n - i,
        {
            out.push(data[i]);
            proof {
                assert(out@ =~= data@.subrange(s0, i as int + 1));
            }
            i = i + 1;
        }
        proof {
            assert(data@.subrange(s0, data@.len() as int) =~= data@.skip(s0));
        }
    }
    out
}

/// Emit the line suffix that a directive demands: the computed start line and
/// every line after it, or nothing when the directive yields no start.
pub fn tail_lines(data: &Vec<u8>, take_val: &TakeValue, total_lines: i64) -> (r: Vec<u8>)
    requires
        total_lines == line_count(data@),
    ensures
        match start_index_spec(*take_val, total_lines as int) {
            Some(s) => r@ == skip_lines(data@, s as nat),
            None => r@ == Seq::<u8>::empty(),
        },
{
    let mut out: Vec<u8> = Vec::new();
    let n = data.len();
    if let Some(start) = crate::directive::get_start_index(take_val, total_lines) {
        proof {
            lemma_start_index_in_range(*take_val, total_lines as int);
            lemma_count_nl_bounds(data@);
            assert(data@.skip(0) =~= data@);
        }
        let ghost k0 = start as nat;
        let mut i: usize = 0;
        let mut skipped: u64 = 0;
        while skipped < start
            invariant
                n == data@.len(),
                i <= n,
                skipped <= start,
                count_nl(data@.skip(i as int)) >= start - skipped,
                skip_lines(data@, k0) == skip_lines(data@.skip(i as int), (start - skipped) as nat),
                k0 == start,
            decreases n - i,
        {
            proof {
                if i == n {
                    assert(data@.skip(i as int) =~= Seq::<u8>::empty());
                    assert(count_nl(Seq::<u8>::empty()) == 0);
                }
                assert(i < n);
                assert(data@.skip(i as int)[0] == data@[i as int]);
                assert(data@.skip(i as int).drop_first() =~= data@.skip(i as int + 1));
            }
            if data[i] == NL {
                skipped = skipped + 1;
            }
            i = i + 1;
        }
        let ghost cut = i as int;
        let mut j: usize = i;
        proof {
            assert(out@ =~= data@.subrange(cut, cut));
        }
        while j < n
            invariant
                n == data@.len(),
                0 <= cut <= j <= n,
                out@ == data@.subrange(cut, j as int),
            decreases n - j,
        {
            out.push(data[j]);
            proof {
                assert(out@ =~= data@.subrange(cut, j as int + 1));
            }
            j = j + 1;
        }
        proof {
            assert(data@.subrange(cut, data@.len() as int) =~= data@.skip(cut));
        }
    }
    out
}

/// Requesting the last `L` lines of a source with `L` lines yields the whole
/// source: for a nonempty source the computed start is line zero and skipping
/// no lines keeps every byte, and a source with no lines is empty, so that
/// emitting nothing is again the whole source.
pub proof fn lemma_full_round_trip(s: Seq<u8>)
    requires
        line_count(s) <= i64::MAX,
    ensures
        line_count(s) > 0 ==> start_index_spec(
            TakeValue::TakeNum((-(line_count(s) as int)) as i64),
            line_count(s) as int,
        ) == Some(0int) && skip_lines(s, 0) == s,
        line_count(s) == 0 ==> s == Seq::<u8>::empty(),
{
    lemma_line_count_pos(s);
}

} // verus!
