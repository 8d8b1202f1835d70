//! Range-driven sub-selection for a `cut`-style utility: picking fields,
//! bytes or characters of a line by a list of half-open ranges. Indices that
//! lie beyond the line are silently skipped.

use vstd::prelude::*;
use vstd::string::StrSliceExecFns;
use vstd::string::StringSliceAdditionalSpecFns;
use vstd::utf8::decode_utf8;
use vstd::utf8::valid_utf8;

verus! {

/// The part of `items` that one half-open range `[a, b)` selects: the range
/// clipped to the items that exist.
pub open spec fn range_slice<T>(items: Seq<T>, a: int, b: int) -> Seq<T> {
    let hi = if b <= items.len() {
        b
    } else {
        items.len() as int
    };
    if 0 <= a <= hi {
        items.subrange(a, hi)
    } else {
        Seq::empty()
    }
}

/// The items that a list of ranges selects, range by range in list order.
pub open spec fn select_ranges<T>(items: Seq<T>, ranges: Seq<(usize, usize)>) -> Seq<T>
    decreases ranges.len(),
{
    if ranges.len() == 0 {
        Seq::empty()
    } else {
        select_ranges(items, ranges.drop_last()) + range_slice(
            items,
            ranges.last().0 as int,
            ranges.last().1 as int,
        )
    }
}

/// Select the items of a copyable slice that a list of ranges picks.
fn select_copied<T: Copy>(items: &Vec<T>, ranges: &Vec<(usize, usize)>) -> (r: Vec<T>)
    ensures
        r@ == select_ranges(items@, ranges@),
{
    let mut out: Vec<T> = Vec::new();
    let nr = ranges.len();
    let len = items.len();
    let mut ri: usize = 0;
    proof {
        assert(ranges@.take(0) =~= Seq::<(usize, usize)>::empty());
    }
    while ri < nr
        invariant
            nr == ranges@.len(),
            len == items@.len(),
            ri <= nr,
            out@ == select_ranges(items@, ranges@.take(ri as int)),
        decreases nr - ri,
    {
        let p = ranges[ri];
        let hi = if p.1 <= len {
            p.1
        } else {
            len
        };
        let lo = if p.0 <= hi {
            p.0
        } else {
            hi
        };
        let ghost base = out@;
        let mut i: usize = lo;
        proof {
            assert(out@ =~= base + items@.subrange(lo as int, lo as int));
        }
        while i < hi
            invariant
                len == items@.len(),
                lo <= i <= hi <= len,
                out@ == base + items@.subrange(lo as int, i as int),
            decreases hi - i,
        {
            out.push(items[i]);
            proof {
                assert(out@ =~= base + items@.subrange(lo as int, i as int + 1));
            }
            i = i + 1;
        }
        proof {
            assert(items@.subrange(lo as int, hi as int) =~= range_slice(
                items@,
                p.0 as int,
                p.1 as int,
            ));
            assert(ranges@.take(ri as int + 1).drop_last() =~= ranges@.take(ri as int));
            assert(ranges@.take(ri as int + 1).last() == ranges@[ri as int]);
        }
        ri = ri + 1;
    }
    proof {
        assert(ranges@.take(nr as int) =~= ranges@);
    }
    out
}

/// Pick the fields of a record that a list of ranges selects.
pub fn extract_fields(record: &Vec<String>, field_pos: &Vec<(usize, usize)>) -> (r: Vec<String>)
    ensures
        r@ == select_ranges(record@, field_pos@),
{
    let mut out: Vec<String> = Vec::new();
    let nr = field_pos.len();
    let len = record.len();
    let mut ri: usize = 0;
    proof {
        assert(field_pos@.take(0) =~= Seq::<(usize, usize)>::empty());
    }
    while ri < nr
        invariant
            nr == field_pos@.len(),
            len == record@.len(),
            ri <= nr,
            out@ == select_ranges(record@, field_pos@.take(ri as int)),
        decreases nr - ri,
    {
        let p = field_pos[ri];
        let hi = if p.1 <= len {
            p.1
        } else {
            len
        };
        let lo = if p.0 <= hi {
            p.0
        } else {
            hi
        };
        let ghost base = out@;
        let mut i: usize = lo;
        proof {
            assert(out@ =~= base + record@.subrange(lo as int, lo as int));
        }
        while i < hi
            invariant
                len == record@.len(),
                lo <= i <= hi <= len,
                out@ == base + record@.subrange(lo as int, i as int),
            decreases hi - i,
        {
            out.push(record[i].clone());
            proof {
                assert(out@ =~= base + record@.subrange(lo as int, i as int + 1));
            }
            i = i + 1;
        }
        proof {
            assert(record@.subrange(lo as int, hi as int) =~= range_slice(
                record@,
                p.0 as int,
                p.1 as int,
            ));
            assert(field_pos@.take(ri as int + 1).drop_last() =~= field_pos@.take(ri as int));
            assert(field_pos@.take(ri as int + 1).last() == field_pos@[ri as int]);
        }
        ri = ri + 1;
    }
    proof {
        assert(field_pos@.take(nr as int) =~= field_pos@);
    }
    out
}

/// The characters that `String::from_utf8_lossy` makes of a byte sequence.
pub uninterp spec fn lossy_utf8_of(bytes: Seq<u8>) -> Seq<char>;

/// Relies on String::from_utf8_lossy: the characters produced are a function
/// of the input bytes alone; valid UTF-8 decodes to exactly its scalar
/// values, and no bytes decode to no characters.
#[verifier::external_body]
fn utf8_lossy(bytes: &Vec<u8>) -> (r: String)
    ensures
        r@ == lossy_utf8_of(bytes@),
        valid_utf8(bytes@) ==> r@ == decode_utf8(bytes@),
        bytes@.len() == 0 ==> r@.len() == 0,
{
    String::from_utf8_lossy(bytes).into_owned()
}

/// Relies on String's FromIterator over char: collecting characters yields
/// the string of exactly those characters.
#[verifier::external_body]
fn chars_to_string(chars: &Vec<char>) -> (r: String)
    ensures
        r@ == chars@,
{
    chars.iter().collect()
}

/// Pick the bytes of a line that a list of ranges selects, read back as text
/// the way `from_utf8_lossy` reads arbitrary bytes.
pub fn extract_bytes(line: &str, byte_pos: &Vec<(usize, usize)>) -> (r: String)
    ensures
        r@ == lossy_utf8_of(select_ranges(line.spec_bytes(), byte_pos@)),
        select_ranges(line.spec_bytes(), byte_pos@).len() == 0 ==> r@.len() == 0,
{
    let bytes = line.as_bytes_vec();
    let selected = select_copied(&bytes, byte_pos);
    utf8_lossy(&selected)
}

/// Pick the characters of a line that a list of ranges selects.
pub fn extract_chars(line: &str, char_pos: &Vec<(usize, usize)>) -> (r: String)
    ensures
        r@ == select_ranges(line@, char_pos@),
{
    let n = line.unicode_len();
    let mut chars: Vec<char> = Vec::new();
    let mut i: usize = 0;
    proof {
        assert(line@.take(0) =~= Seq::<char>::empty());
    }
    while i < n
        invariant
            i <= n,
            n == line@.len(),
            chars@ == line@.take(i as int),
        decreases n - i,
    {
        chars.push(line.get_char(i));
        proof {
            assert(chars@ =~= line@.take(i as int + 1));
        }
        i = i + 1;
    }
    proof {
        assert(line@.take(n as int) =~= line@);
    }
    let selected = select_copied(&chars, char_pos);
    chars_to_string(&selected)
}

} // verus!
