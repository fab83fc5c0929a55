//! The files of the cache directory: the order in which they are read
//! back, and the elements that their lines hold.

use vstd::prelude::*;
use vstd::string::StringSliceAdditionalSpecFns;
use crate::arith::radix_value;
use crate::felt::Felt;

verus! {

/// The number that decimal digits denote, where the text holds nothing
/// else and at least one.
pub open spec fn decimal_value(s: Seq<u8>) -> Option<nat>
    decreases s.len(),
{
    if s.len() == 0 {
        None
    } else if !(0x30 <= s.last() <= 0x39) {
        None
    } else if s.len() == 1 {
        Some((s.last() - 0x30) as nat)
    } else {
        match decimal_value(s.drop_last()) {
            None => None,
            Some(v) => Some(v * 10 + (s.last() - 0x30) as nat),
        }
    }
}

/// The `u64` that a text denotes: decimal digits, which a plus sign may
/// lead.
pub open spec fn spec_parse_u64(s: Seq<u8>) -> Option<u64> {
    let digits = if s.len() > 0 && s[0] == 0x2b {
        s.skip(1)
    } else {
        s
    };
    match decimal_value(digits) {
        Some(v) => if v <= u64::MAX {
            Some(v as u64)
        } else {
            None
        },
        None => None,
    }
}

/// The `i32` that a text denotes: decimal digits, which a sign may lead.
pub open spec fn spec_parse_i32(s: Seq<u8>) -> Option<i32> {
    if s.len() > 0 && s[0] == 0x2d {
        match decimal_value(s.skip(1)) {
            Some(v) => if v <= 0x8000_0000 {
                Some((-(v as int)) as i32)
            } else {
                None
            },
            None => None,
        }
    } else {
        let digits = if s.len() > 0 && s[0] == 0x2b {
            s.skip(1)
        } else {
            s
        };
        match decimal_value(digits) {
            Some(v) => if v <= 0x7fff_ffff {
                Some(v as i32)
            } else {
                None
            },
            None => None,
        }
    }
}

/// The digits before a position denote no more than the whole text.
pub proof fn lemma_decimal_prefix(s: Seq<u8>, k: int)
    requires
        1 <= k <= s.len(),
        decimal_value(s) is Some,
    ensures
        decimal_value(s.take(k)) is Some,
        decimal_value(s.take(k))->Some_0 <= decimal_value(s)->Some_0,
    decreases s.len() - k,
{
    if k == s.len() {
        assert(s.take(k) =~= s);
    } else {
        assert(s.drop_last().take(k) =~= s.take(k));
        lemma_decimal_prefix(s.drop_last(), k);
    }
}

/// A text with a character that is no digit denotes nothing.
pub proof fn lemma_decimal_invalid(s: Seq<u8>, k: int)
    requires
        0 <= k < s.len(),
        !(0x30 <= s[k] <= 0x39),
    ensures
        decimal_value(s) is None,
    decreases s.len(),
{
    if k < s.len() - 1 {
        lemma_decimal_invalid(s.drop_last(), k);
    }
}

/// The number that the digits from `from` up to `to` denote, where it is
/// at most `max`.
fn parse_digits(text: &[u8], from: usize, to: usize, max: u64) -> (r: Option<u64>)
    requires
        from <= to <= text@.len(),
        max >= 9,
    ensures
        r == match decimal_value(text@.subrange(from as int, to as int)) {
            Some(v) => if v <= max {
                Some(v as u64)
            } else {
                None
            },
            None => None,
        },
{
    let ghost s = text@.subrange(from as int, to as int);
    if from == to {
        return None;
    }
    let mut acc: u64 = 0;
    let mut i: usize = from;
    while i < to
        invariant
            from <= i <= to <= text@.len(),
            s == text@.subrange(from as int, to as int),
            i > from ==> decimal_value(s.take(i - from)) == Some(acc as nat),
            i == from ==> acc == 0,
            acc <= max,
            max >= 9,
        decreases to - i,
    {
        let b = text[i];
        assert(s[i - from] == b);
        if b < 0x30 || b > 0x39 {
            proof {
                lemma_decimal_invalid(s, i - from);
            }
            return None;
        }
        let d = (b - 0x30) as u64;
        proof {
            assert(s.take(i - from + 1).drop_last() =~= s.take(i - from));
            assert(s.take(i - from + 1).last() == b);
            if decimal_value(s) is Some {
                lemma_decimal_prefix(s, i - from + 1);
            }
        }
        if acc > (max - d) / 10 {
            return None;
        }
        acc = acc * 10 + d;
        i = i + 1;
    }
    assert(s.take(to - from) =~= s);
    Some(acc)
}

/// Reads a `u64` as `str::parse` does.
pub fn parse_u64(text: &[u8], from: usize, to: usize) -> (r: Option<u64>)
    requires
        from <= to <= text@.len(),
    ensures
        r == spec_parse_u64(text@.subrange(from as int, to as int)),
{
    let ghost s = text@.subrange(from as int, to as int);
    let start = if from < to && text[from] == 0x2b {
        from + 1
    } else {
        from
    };
    assert(text@.subrange(start as int, to as int) =~= if s.len() > 0 && s[0] == 0x2b {
        s.skip(1)
    } else {
        s
    });
    parse_digits(text, start, to, u64::MAX)
}

/// Reads an `i32` as `str::parse` does.
pub fn parse_i32(text: &[u8], from: usize, to: usize) -> (r: Option<i32>)
    requires
        from <= to <= text@.len(),
    ensures
        r == spec_parse_i32(text@.subrange(from as int, to as int)),
{
    let ghost s = text@.subrange(from as int, to as int);
    if from < to && text[from] == 0x2d {
        assert(text@.subrange(from + 1, to as int) =~= s.skip(1));
        match parse_digits(text, from + 1, to, 0x8000_0000) {
            None => None,
            Some(v) => if v == 0x8000_0000 {
                Some(i32::MIN)
            } else {
                Some(-(v as i32))
            },
        }
    } else {
        let start = if from < to && text[from] == 0x2b {
            from + 1
        } else {
            from
        };
        assert(text@.subrange(start as int, to as int) =~= if s.len() > 0 && s[0] == 0x2b {
            s.skip(1)
        } else {
            s
        });
        match parse_digits(text, start, to, 0x7fff_ffff) {
            None => None,
            Some(v) => Some(v as i32),
        }
    }
}

/// The element that a line of a cached sequence denotes: hexadecimal
/// behind `0x`, decimal otherwise.
pub open spec fn spec_element_line(line: Seq<u8>) -> Option<nat> {
    if line.len() >= 2 && line[0] == 0x30 && line[1] == 0x78 {
        radix_value(line.skip(2), 16)
    } else {
        radix_value(line, 10)
    }
}

/// Reads the element of a line of a cached sequence.
pub fn parse_element_line(line: &str) -> (r: Option<Felt>)
    ensures
        match r {
            Some(f) => spec_element_line(line.spec_bytes()) == Some(f@),
            None => spec_element_line(line.spec_bytes()) is None,
        },
{
    let text = line.as_bytes();
    if text.len() >= 2 && text[0] == 0x30 && text[1] == 0x78 {
        assert(text@.subrange(2, text@.len() as int) =~= text@.skip(2));
        Felt::parse_bytes(text, 2, text.len(), 16)
    } else {
        assert(text@.subrange(0, text@.len() as int) =~= text@);
        Felt::parse_bytes(text, 0, text.len(), 10)
    }
}

/// The stem of a file's name, as far as it can be had.
#[derive(Debug)]
pub enum FileStem {
    /// The path names no file.
    Missing,
    /// The stem is no text.
    NotText,
    Text(String),
}

/// The position of the first hyphen of a text, or its length where it has
/// none.
pub open spec fn first_hyphen(s: Seq<u8>) -> int
    decreases s.len(),
{
    if s.len() == 0 {
        0
    } else if s[0] == 0x2d {
        0
    } else {
        1 + first_hyphen(s.skip(1))
    }
}

/// The block number and the repeat count that a stem holds. Where a part
/// is not as it should be, the count is negative and tells which.
pub open spec fn spec_cache_key(s: Seq<u8>) -> (u64, i32) {
    let pos = first_hyphen(s);
    if pos < s.len() {
        match spec_parse_u64(s.subrange(0, pos)) {
            Some(n) => match spec_parse_i32(s.subrange(pos + 1, s.len() as int)) {
                Some(r) => (n, r),
                None => (n, -1i32),
            },
            None => (0u64, -2i32),
        }
    } else {
        match spec_parse_u64(s) {
            Some(n) => (n, 0i32),
            None => (0u64, -3i32),
        }
    }
}

fn find_hyphen(text: &[u8]) -> (r: usize)
    ensures
        r == first_hyphen(text@),
        r <= text@.len(),
{
    let mut i: usize = 0;
    assert(text@.skip(0) =~= text@);
    while i < text.len() && text[i] != 0x2d
        invariant
            i <= text@.len(),
            first_hyphen(text@) == i + first_hyphen(text@.skip(i as int)),
        decreases text@.len() - i,
    {
        assert(text@.skip(i as int).skip(1) =~= text@.skip(i + 1));
        i = i + 1;
    }
    i
}

/// The key by which the files of the cache are ordered: the block number
/// of a file and its repeat count, from the stem `block` or `block-repeat`
/// of its name.
pub fn convert_cache_file(stem: &FileStem) -> (r: (u64, i32))
    ensures
        r == match *stem {
            FileStem::Missing => (0u64, -5i32),
            FileStem::NotText => (0u64, -4i32),
            FileStem::Text(s) => spec_cache_key(vstd::utf8::encode_utf8(s@)),
        },
{
    match stem {
        FileStem::Missing => (0, -5),
        FileStem::NotText => (0, -4),
        FileStem::Text(s) => {
            let text = s.as_str().as_bytes();
            let pos = find_hyphen(text);
            if pos < text.len() {
                match parse_u64(text, 0, pos) {
                    Some(n) => match parse_i32(text, pos + 1, text.len()) {
                        Some(r) => (n, r),
                        None => (n, -1),
                    },
                    None => (0, -2),
                }
            } else {
                assert(text@.subrange(0, text@.len() as int) =~= text@);
                match parse_u64(text, 0, text.len()) {
                    Some(n) => (n, 0),
                    None => (0, -3),
                }
            }
        },
    }
}

} // verus!
