//! The line bookkeeping of a `grep`-style search: all matching is delegated
//! to a compiled regular expression, and this module keeps exactly the lines
//! whose answer, after optional inversion, is set.

use vstd::prelude::*;

verus! {

/// `regex::Regex`, declared so that a compiled pattern can be carried through
/// verified code; which lines a pattern matches is named, not modeled.
#[verifier::external_type_specification]
#[verifier::external_body]
pub struct ExRegex(regex::Regex);

/// The verdict of `regex::Regex::is_match`: whether a compiled pattern
/// matches a line. A function of the pattern and the line alone; what it
/// holds on given values is never assumed.
pub uninterp spec fn regex_match_of(pattern: regex::Regex, line: Seq<char>) -> bool;

/// Relies on regex::Regex::is_match: its verdict depends on the compiled
/// pattern and the line alone, so the result carries the name
/// `regex_match_of` and nothing more.
#[verifier::external_body]
fn regex_is_match(pattern: &regex::Regex, line: &str) -> (r: bool)
    ensures
        r == regex_match_of(*pattern, line@),
{
    pattern.is_match(line)
}

/// The engine's verdict on every line in turn.
pub open spec fn match_flags_of(pattern: regex::Regex, lines: Seq<String>) -> Seq<bool> {
    Seq::new(lines.len(), |i: int| regex_match_of(pattern, lines[i]@))
}

/// The lines whose flag, after optional inversion, is set.
pub open spec fn filter_flagged(lines: Seq<String>, flags: Seq<bool>, invert: bool) -> Seq<String>
    decreases lines.len(),
{
    if lines.len() == 0 {
        Seq::empty()
    } else {
        let rest = filter_flagged(lines.drop_last(), flags.drop_last(), invert);
        if flags.last() != invert {
            rest.push(lines.last())
        } else {
            rest
        }
    }
}

/// Keep, in order, exactly the lines whose flag differs from `invert`.
pub fn select_lines(lines: &Vec<String>, flags: &Vec<bool>, invert: bool) -> (r: Vec<String>)
    requires
        lines@.len() == flags@.len(),
    ensures
        r@ == filter_flagged(lines@, flags@, invert),
{
    let mut out: Vec<String> = Vec::new();
    let n = lines.len();
    let mut i: usize = 0;
    proof {
        assert(lines@.take(0) =~= Seq::<String>::empty());
        assert(flags@.take(0) =~= Seq::<bool>::empty());
    }
    while i < n
        invariant
            n == lines@.len(),
            lines@.len() == flags@.len(),
            i <= n,
            out@ == filter_flagged(lines@.take(i as int), flags@.take(i as int), invert),
        decreases n - i,
    {
        proof {
            assert(lines@.take(i as int + 1).drop_last() =~= lines@.take(i as int));
            assert(flags@.take(i as int + 1).drop_last() =~= flags@.take(i as int));
            assert(lines@.take(i as int + 1).last() == lines@[i as int]);
            assert(flags@.take(i as int + 1).last() == flags@[i as int]);
        }
        if flags[i] != invert {
            out.push(lines[i].clone());
        }
        i = i + 1;
    }
    proof {
        assert(lines@.take(n as int) =~= lines@);
        assert(flags@.take(n as int) =~= flags@);
    }
    out
}

/// Search the lines with a compiled pattern: a line is kept exactly when the
/// engine's verdict on it, after optional inversion, is set.
pub fn find_lines(lines: &Vec<String>, pattern: &regex::Regex, invert: bool) -> (r: Vec<String>)
    ensures
        r@ == filter_flagged(lines@, match_flags_of(*pattern, lines@), invert),
{
    let n = lines.len();
    let mut flags: Vec<bool> = Vec::new();
    let mut i: usize = 0;
    while i < n
        invariant
            n == lines@.len(),
            i <= n,
            flags@.len() == i,
            forall|j: int| 0 <= j < i ==> flags@[j] == regex_match_of(*pattern, lines@[j]@),
        decreases n - i,
    {
        let m = regex_is_match(pattern, lines[i].as_str());
        flags.push(m);
        i = i + 1;
    }
    proof {
        assert(flags@ =~= match_flags_of(*pattern, lines@));
    }
    select_lines(lines, &flags, invert)
}

/// A matching run and an inverted run over the same lines and the same
/// per-line verdicts partition them: every line lands in exactly one of the
/// two results.
pub proof fn lemma_filter_partition(lines: Seq<String>, flags: Seq<bool>)
    requires
        flags.len() == lines.len(),
    ensures
        filter_flagged(lines, flags, false).len() + filter_flagged(lines, flags, true).len()
            == lines.len(),
    decreases lines.len(),
{
    if lines.len() > 0 {
        lemma_filter_partition(lines.drop_last(), flags.drop_last());
    }
}

} // verus!
