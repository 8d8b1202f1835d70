//! The range-list grammar of a `cut`-style utility: a comma-separated list of
//! 1-indexed selections, each either a single number or a pair `A-B`, turned
//! into zero-based half-open ranges.

use crate::digits::all_digits;
use crate::digits::dec_value;
use crate::digits::is_digit;
use crate::digits::scan_decimal;
use vstd::prelude::*;
use vstd::string::StrSliceExecFns;

verus! {

/// Why a range list is rejected: a piece that is no legal selection value
/// (reported verbatim), or a pair whose first zero-based index exceeds its
/// second.
#[derive(Debug, PartialEq, Eq)]
pub enum RangeError {
    IllegalValue(String),
    Reversed(usize, usize),
}

/// The index of the first occurrence of `c` in `s`, or `s.len()` when `c`
/// does not occur.
pub open spec fn find_char(s: Seq<char>, c: char) -> nat
    decreases s.len(),
{
    if s.len() == 0 {
        0
    } else if s[0] == c {
        0
    } else {
        1 + find_char(s.drop_first(), c)
    }
}

pub proof fn lemma_find_char_at(s: Seq<char>, c: char, m: int)
    requires
        0 <= m <= s.len(),
        forall|i: int| 0 <= i < m ==> s[i] != c,
        m < s.len() ==> s[m] == c,
    ensures
        find_char(s, c) == m,
    decreases s.len(),
{
    if s.len() == 0 {
    } else if m == 0 {
    } else {
        assert(s[0] != c);
        let t = s.drop_first();
        assert forall|i: int| 0 <= i < m - 1 implies t[i] != c by {
            assert(t[i] == s[i + 1]);
        }
        if m - 1 < t.len() {
            assert(t[m - 1] == s[m]);
        }
        lemma_find_char_at(t, c, m - 1);
    }
}

/// The index denoted by one selection value: one or more decimal digits (a
/// leading `+` is rejected) whose value is nonzero and fits the machine,
/// shifted to a zero-based index.
pub open spec fn parse_index_spec(s: Seq<char>) -> Option<int> {
    if s.len() == 0 || s[0] == '+' || !all_digits(s) {
        None
    } else {
        let v = dec_value(s);
        if 1 <= v <= usize::MAX {
            Some(v - 1)
        } else {
            None
        }
    }
}

/// Parse one selection value. A malformed, zero or oversized value is
/// rejected with the offending text verbatim.
pub fn parse_index(input: &str) -> (r: Result<usize, RangeError>)
    ensures
        match parse_index_spec(input@) {
            Some(v) => r matches Ok(got) && got == v,
            None => r matches Err(RangeError::IllegalValue(t)) && t@ == input@,
        },
{
    if input.unicode_len() > 0 && input.get_char(0) == '+' {
        return Err(RangeError::IllegalValue(input.to_owned()));
    }
    proof {
        assert(input@.skip(0) =~= input@);
    }
    match scan_decimal(input, 0, usize::MAX as u64) {
        None => Err(RangeError::IllegalValue(input.to_owned())),
        Some(v) => {
            if v == 0 {
                Err(RangeError::IllegalValue(input.to_owned()))
            } else {
                Ok((v - 1) as usize)
            }
        },
    }
}

/// The meaning of one comma-separated piece of a range list.
pub enum PieceSpec {
    Range(int, int),
    Illegal(Seq<char>),
    Reversed(int, int),
}

/// What one piece denotes: a single selection value `N` means the half-open
/// range `[N-1, N)`; a pair `A-B` of selection values means `[A-1, B)` and is
/// rejected when reversed; anything else is illegal, reported as the piece
/// itself except that a pair of digit strings reports whichever side is a bad
/// selection value.
pub open spec fn parse_piece_spec(p: Seq<char>) -> PieceSpec {
    match parse_index_spec(p) {
        Some(n) => PieceSpec::Range(n, n + 1),
        None => {
            let k = find_char(p, '-');
            if !(0 < k < p.len()) {
                PieceSpec::Illegal(p)
            } else {
                let left = p.take(k as int);
                let right = p.skip(k + 1 as int);
                if right.len() == 0 || !all_digits(left) || !all_digits(right) {
                    PieceSpec::Illegal(p)
                } else {
                    match parse_index_spec(left) {
                        None => PieceSpec::Illegal(left),
                        Some(n1) => match parse_index_spec(right) {
                            None => PieceSpec::Illegal(right),
                            Some(n2) => if n1 > n2 {
                                PieceSpec::Reversed(n1, n2)
                            } else {
                                PieceSpec::Range(n1, n2 + 1)
                            },
                        },
                    }
                }
            }
        },
    }
}

/// `s` is one or more decimal digits.
fn digits_only(s: &str) -> (r: bool)
    ensures
        r == (s@.len() > 0 && all_digits(s@)),
{
    let n = s.unicode_len();
    if n == 0 {
        return false;
    }
    let mut i: usize = 0;
    while i < n
        invariant
            i <= n,
            n == s@.len(),
            forall|j: int| 0 <= j < i ==> is_digit(#[trigger] s@[j]),
        decreases n - i,
    {
        let c = s.get_char(i);
        let cu = c as u32;
        if cu < 48 || cu > 57 {
            proof {
                assert(!is_digit(s@[i as int]));
            }
            return false;
        }
        i = i + 1;
    }
    true
}

/// Parse one comma-separated piece of a range list.
fn parse_piece(piece: &str) -> (r: Result<(usize, usize), RangeError>)
    ensures
        match parse_piece_spec(piece@) {
            PieceSpec::Range(a, b) => r matches Ok(p) && p.0 == a && p.1 == b,
            PieceSpec::Illegal(t) => r matches Err(RangeError::IllegalValue(w)) && w@ == t,
            PieceSpec::Reversed(a, b) => r matches Err(RangeError::Reversed(x, y)) && x == a && y
                == b,
        },
{
    let n = piece.unicode_len();
    match parse_index(piece) {
        Ok(idx) => Ok((idx, idx + 1)),
        Err(_) => {
            let mut k: usize = 0;
            while k < n && piece.get_char(k) != '-'
                invariant
                    k <= n,
                    n == piece@.len(),
                    forall|j: int| 0 <= j < k ==> piece@[j] != '-',
                decreases n - k,
            {
                k = k + 1;
            }
            proof {
                lemma_find_char_at(piece@, '-', k as int);
            }
            if k == 0 || k == n {
                return Err(RangeError::IllegalValue(piece.to_owned()));
            }
            let left = piece.substring_char(0, k);
            let right = piece.substring_char(k + 1, n);
            proof {
                assert(left@ =~= piece@.take(k as int));
                assert(right@ =~= piece@.skip(k as int + 1));
            }
            if !digits_only(left) || !digits_only(right) {
                return Err(RangeError::IllegalValue(piece.to_owned()));
            }
            let n1 = match parse_index(left) {
                Ok(v) => v,
                Err(e) => return Err(e),
            };
            let n2 = match parse_index(right) {
                Ok(v) => v,
                Err(e) => return Err(e),
            };
            if n1 > n2 {
                return Err(RangeError::Reversed(n1, n2));
            }
            Ok((n1, n2 + 1))
        },
    }
}

/// `s` split at every comma; splitting keeps empty pieces, and a text with no
/// comma is one piece.
pub open spec fn split_commas(s: Seq<char>) -> Seq<Seq<char>>
    decreases s.len(),
{
    let k = find_char(s, ',');
    if k >= s.len() {
        seq![s]
    } else {
        seq![s.take(k as int)] + split_commas(s.skip(k as int + 1))
    }
}

/// The sequence of views of a sequence of strings.
pub open spec fn views_of(v: Seq<String>) -> Seq<Seq<char>> {
    v.map_values(|p: String| p@)
}

/// The mathematical ranges denoted by machine ranges.
pub open spec fn ranges_of(v: Seq<(usize, usize)>) -> Seq<(int, int)> {
    v.map_values(|p: (usize, usize)| (p.0 as int, p.1 as int))
}

/// The meaning of a whole range-list argument.
pub enum ListSpec {
    Ranges(Seq<(int, int)>),
    Illegal(Seq<char>),
    Reversed(int, int),
}

/// What a list of pieces denotes: the pieces' ranges in order, or the first
/// piece's rejection.
pub open spec fn parse_pieces_spec(ps: Seq<Seq<char>>) -> ListSpec
    decreases ps.len(),
{
    if ps.len() == 0 {
        ListSpec::Ranges(Seq::empty())
    } else {
        match parse_piece_spec(ps[0]) {
            PieceSpec::Range(a, b) => match parse_pieces_spec(ps.drop_first()) {
                ListSpec::Ranges(rest) => ListSpec::Ranges(seq![(a, b)] + rest),
                e => e,
            },
            PieceSpec::Illegal(t) => ListSpec::Illegal(t),
            PieceSpec::Reversed(a, b) => ListSpec::Reversed(a, b),
        }
    }
}

/// What a range-list argument denotes.
pub open spec fn parse_pos_spec(s: Seq<char>) -> ListSpec {
    parse_pieces_spec(split_commas(s))
}

/// Split a text at every comma.
fn split_commas_exec(s: &str) -> (r: Vec<String>)
    ensures
        views_of(r@) == split_commas(s@),
{
    let n = s.unicode_len();
    let mut pieces: Vec<String> = Vec::new();
    let mut pos: usize = 0;
    proof {
        assert(s@.skip(0) =~= s@);
        assert(views_of(pieces@) =~= Seq::<Seq<char>>::empty());
        assert(views_of(pieces@) + split_commas(s@) =~= split_commas(s@));
    }
    loop
        invariant_except_break
            n == s@.len(),
            pos <= n,
            split_commas(s@) == views_of(pieces@) + split_commas(s@.skip(pos as int)),
        ensures
            views_of(pieces@) == split_commas(s@),
        decreases n - pos,
    {
        let mut k: usize = pos;
        while k < n && s.get_char(k) != ','
            invariant
                n == s@.len(),
                pos <= k <= n,
                forall|j: int| pos <= j < k ==> s@[j] != ',',
            decreases n - k,
        {
            k = k + 1;
        }
        proof {
            let rem = s@.skip(pos as int);
            assert forall|j: int| 0 <= j < k - pos implies rem[j] != ',' by {
                assert(rem[j] == s@[pos + j]);
            }
            if k < n {
                assert(rem[k - pos] == s@[k as int]);
            }
            lemma_find_char_at(rem, ',', k - pos);
        }
        let ghost pm = views_of(pieces@);
        let piece = s.substring_char(pos, k).to_owned();
        pieces.push(piece);
        proof {
            assert(views_of(pieces@) =~= pm.push(piece@));
        }
        if k == n {
            proof {
                let rem = s@.skip(pos as int);
                assert(piece@ =~= rem);
                assert(pm + split_commas(rem) =~= views_of(pieces@));
            }
            break ;
        }
        proof {
            let rem = s@.skip(pos as int);
            assert(rem.take(k - pos) =~= s@.subrange(pos as int, k as int));
            assert(rem.skip(k - pos + 1) =~= s@.skip(k as int + 1));
            assert(split_commas(rem) == seq![piece@] + split_commas(s@.skip(k as int + 1)));
            assert(pm + (seq![piece@] + split_commas(s@.skip(k as int + 1))) =~= views_of(pieces@)
                + split_commas(s@.skip(k as int + 1)));
        }
        pos = k + 1;
    }
    pieces
}

/// Parse a range-list argument into zero-based half-open ranges. The first
/// bad piece is rejected: a piece that is no legal selection value verbatim,
/// a reversed pair with its two indices.
pub fn parse_pos(range: String) -> (r: Result<Vec<(usize, usize)>, RangeError>)
    ensures
        match parse_pos_spec(range@) {
            ListSpec::Ranges(rs) => r matches Ok(v) && ranges_of(v@) == rs,
            ListSpec::Illegal(t) => r matches Err(RangeError::IllegalValue(w)) && w@ == t,
            ListSpec::Reversed(a, b) => r matches Err(RangeError::Reversed(x, y)) && x == a && y
                == b,
        },
{
    let pieces = split_commas_exec(range.as_str());
    let ghost ps = views_of(pieces@);
    let mut out: Vec<(usize, usize)> = Vec::new();
    let mut idx: usize = 0;
    proof {
        assert(ps.skip(0) =~= ps);
        if let ListSpec::Ranges(rest) = parse_pieces_spec(ps) {
            assert(ranges_of(out@) + rest =~= rest);
        }
    }
    while idx < pieces.len()
        invariant
            ps == views_of(pieces@),
            ps == split_commas(range@),
            idx <= pieces@.len(),
            parse_pieces_spec(ps) == (match parse_pieces_spec(ps.skip(idx as int)) {
                ListSpec::Ranges(rest) => ListSpec::Ranges(ranges_of(out@) + rest),
                e => e,
            }),
        decreases pieces@.len() - idx,
    {
        let ghost rem = ps.skip(idx as int);
        proof {
            assert(rem[0] == ps[idx as int]);
            assert(ps[idx as int] == pieces@[idx as int]@);
            assert(rem.drop_first() =~= ps.skip(idx as int + 1));
        }
        let piece = &pieces[idx];
        match parse_piece(piece.as_str()) {
            Err(e) => {
                proof {
                    assert(rem.len() > 0);
                    match parse_piece_spec(rem[0]) {
                        PieceSpec::Range(a, b) => {
                            assert(false);
                        },
                        PieceSpec::Illegal(t) => {
                            assert(parse_pieces_spec(rem) == ListSpec::Illegal(t));
                        },
                        PieceSpec::Reversed(a, b) => {
                            assert(parse_pieces_spec(rem) == ListSpec::Reversed(a, b));
                        },
                    }
                }
                return Err(e);
            },
            Ok(pr) => {
                let ghost om = ranges_of(out@);
                out.push(pr);
                proof {
                    assert(ranges_of(out@) =~= om.push((pr.0 as int, pr.1 as int)));
                    if let ListSpec::Ranges(rest) = parse_pieces_spec(ps.skip(idx as int + 1)) {
                        assert(om + (seq![(pr.0 as int, pr.1 as int)] + rest) =~= ranges_of(out@)
                            + rest);
                    }
                }
            },
        }
        idx = idx + 1;
    }
    proof {
        assert(ps.skip(pieces@.len() as int) =~= Seq::<Seq<char>>::empty());
        if let ListSpec::Ranges(rest) = parse_pieces_spec(ps.skip(pieces@.len() as int)) {
            assert(ranges_of(out@) + rest =~= ranges_of(out@));
        }
    }
    Ok(out)
}

} // verus!
