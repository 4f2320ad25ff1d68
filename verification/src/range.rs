//! The `Range` request header of the streaming endpoint (RFC 7233, single
//! byte range only).

use vstd::prelude::*;
use crate::text::{trim, has_prefix, first_index, lemma_first_index, trim_vec, starts_with_str,
    slice_vec, contains_char, find_first, chars_of};

verus! {

/// What a `Range` header asks of a file of a given size.
#[derive(Debug, Clone, Copy, PartialEq, Eq)]
pub enum RangeOutcome {
    /// No header: serve the whole file.
    Whole,
    /// Serve bytes `start..=end`.
    Partial { start: u64, end: u64 },
    /// A header that is malformed, multi-range, or not satisfiable.
    Invalid,
}

pub open spec fn is_digit(c: char) -> bool {
    '0' <= c && c <= '9'
}

pub open spec fn digit_value(c: char) -> nat {
    (c as u32 - '0' as u32) as nat
}

/// Decimal value of a digit string.
pub open spec fn decimal_value(d: Seq<char>) -> nat
    decreases d.len(),
{
    if d.len() == 0 {
        0
    } else {
        decimal_value(d.drop_last()) * 10 + digit_value(d.last())
    }
}

/// The digits `u64::from_str` reads: one leading `+` is allowed.
pub open spec fn unsigned_digits(s: Seq<char>) -> Seq<char> {
    if s.len() > 0 && s[0] == '+' {
        s.drop_first()
    } else {
        s
    }
}

/// `u64::from_str`: an optional `+`, then at least one decimal digit and
/// nothing else, with a value that fits.
pub open spec fn parse_u64(s: Seq<char>) -> Option<u64> {
    let d = unsigned_digits(s);
    if d.len() > 0 && (forall|i: int| 0 <= i < d.len() ==> is_digit(d[i])) && decimal_value(d)
        <= u64::MAX {
        Some(decimal_value(d) as u64)
    } else {
        None
    }
}

/// The outcome `parse_range` computes for the byte range `a-b` (both sides
/// already trimmed) of a file of `size` bytes.
pub open spec fn range_of(a: Seq<char>, b: Seq<char>, size: u64) -> RangeOutcome {
    if a.len() == 0 && b.len() == 0 {
        RangeOutcome::Invalid
    } else if a.len() == 0 {
        // suffix form: the last `n` bytes
        match parse_u64(b) {
            Some(n) => if n > 0 && size > 0 {
                let n = if n < size {
                    n
                } else {
                    size
                };
                RangeOutcome::Partial { start: (size - n) as u64, end: (size - 1) as u64 }
            } else {
                RangeOutcome::Invalid
            },
            None => RangeOutcome::Invalid,
        }
    } else {
        match parse_u64(a) {
            None => RangeOutcome::Invalid,
            Some(start) => if start >= size {
                RangeOutcome::Invalid
            } else if b.len() == 0 {
                RangeOutcome::Partial { start, end: (size - 1) as u64 }
            } else {
                match parse_u64(b) {
                    Some(e) => if e >= start {
                        RangeOutcome::Partial {
                            start,
                            end: if e < size - 1 {
                                e
                            } else {
                                (size - 1) as u64
                            },
                        }
                    } else {
                        RangeOutcome::Invalid
                    },
                    None => RangeOutcome::Invalid,
                }
            },
        }
    }
}

/// What a `Range` header value means for a file of `size` bytes.
pub open spec fn spec_parse_range(value: Option<Seq<char>>, size: u64) -> RangeOutcome {
    match value {
        None => RangeOutcome::Whole,
        Some(v) => {
            let t = trim(v);
            if !has_prefix(t, "bytes="@) {
                RangeOutcome::Invalid
            } else {
                let r = t.subrange("bytes="@.len() as int, t.len() as int);
                if r.contains(',') {
                    RangeOutcome::Invalid
                } else {
                    match first_index(r, '-') {
                        None => RangeOutcome::Invalid,
                        Some(k) => range_of(
                            trim(r.subrange(0, k)),
                            trim(r.subrange(k + 1, r.len() as int)),
                            size,
                        ),
                    }
                }
            }
        },
    }
}

proof fn lemma_decimal_monotone(d: Seq<char>, i: int)
    requires
        0 <= i <= d.len(),
    ensures
        decimal_value(d.subrange(0, i)) <= decimal_value(d),
    decreases d.len() - i,
{
    if i < d.len() {
        lemma_decimal_monotone(d, i + 1);
        assert(d.subrange(0, i + 1).drop_last() =~= d.subrange(0, i));
    } else {
        assert(d.subrange(0, i) =~= d);
    }
}

/// `u64::from_str` on a character sequence.
pub fn parse_u64_chars(s: &[char]) -> (r: Option<u64>)
    ensures
        r == parse_u64(s@),
{
    let start: usize = if s.len() > 0 && s[0] == '+' {
        1
    } else {
        0
    };
    let ghost d = unsigned_digits(s@);
    assert(d =~= s@.subrange(start as int, s@.len() as int));
    if start >= s.len() {
        return None;
    }
    let mut acc: u64 = 0;
    let mut i: usize = start;
    while i < s.len()
        invariant
            start <= i <= s@.len(),
            start < s@.len(),
            d == s@.subrange(start as int, s@.len() as int),
            d == unsigned_digits(s@),
            forall|j: int| 0 <= j < i - start ==> is_digit(d[j]),
            acc == decimal_value(d.subrange(0, i - start)),
        decreases s@.len() - i,
    {
        let c = s[i];
        if !('0' <= c && c <= '9') {
            assert(d[i - start] == c);
            return None;
        }
        let digit: u64 = (c as u32 - '0' as u32) as u64;
        assert(d.subrange(0, i + 1 - start).drop_last() =~= d.subrange(0, i - start));
        assert(d.subrange(0, i + 1 - start).last() == c);
        assert(decimal_value(d.subrange(0, i + 1 - start)) == acc * 10 + digit);
        match acc.checked_mul(10) {
            None => {
                proof {
                    lemma_decimal_monotone(d, i + 1 - start);
                }
                return None;
            },
            Some(m) => match m.checked_add(digit) {
                None => {
                    proof {
                        lemma_decimal_monotone(d, i + 1 - start);
                    }
                    return None;
                },
                Some(n) => {
                    acc = n;
                },
            },
        }
        i += 1;
    }
    assert(d.subrange(0, i - start) =~= d);
    Some(acc)
}

fn range_of_exec(a: &[char], b: &[char], size: u64) -> (r: RangeOutcome)
    ensures
        r == range_of(a@, b@, size),
{
    if a.len() == 0 && b.len() == 0 {
        return RangeOutcome::Invalid;
    }
    if a.len() == 0 {
        return match parse_u64_chars(b) {
            Some(n) => if n > 0 && size > 0 {
                let n = if n < size {
                    n
                } else {
                    size
                };
                RangeOutcome::Partial { start: size - n, end: size - 1 }
            } else {
                RangeOutcome::Invalid
            },
            None => RangeOutcome::Invalid,
        };
    }
    match parse_u64_chars(a) {
        None => RangeOutcome::Invalid,
        Some(start) => if start >= size {
            RangeOutcome::Invalid
        } else if b.len() == 0 {
            RangeOutcome::Partial { start, end: size - 1 }
        } else {
            match parse_u64_chars(b) {
                Some(e) => if e >= start {
                    RangeOutcome::Partial {
                        start,
                        end: if e < size - 1 {
                            e
                        } else {
                            size - 1
                        },
                    }
                } else {
                    RangeOutcome::Invalid
                },
                None => RangeOutcome::Invalid,
            }
        },
    }
}

/// Interpret a `Range` header for a file of `file_size` bytes. A range
/// whose end lies at or past the end of the file is clamped to its last
/// byte; a suffix longer than the file covers the whole file.
pub fn parse_range(value: Option<&str>, file_size: u64) -> (r: RangeOutcome)
    ensures
        r == spec_parse_range(
            match value {
                Some(v) => Some(v@),
                None => None,
            },
            file_size,
        ),
        r matches RangeOutcome::Partial { start, end } ==> start <= end < file_size,
{
    let Some(v) = value else {
        return RangeOutcome::Whole;
    };
    let raw = chars_of(v);
    let t = trim_vec(raw.as_slice());
    if !starts_with_str(t.as_slice(), "bytes=") {
        return RangeOutcome::Invalid;
    }
    proof {
        reveal_strlit("bytes=");
    }
    let r = slice_vec(t.as_slice(), 6, t.len());
    if contains_char(r.as_slice(), ',') {
        return RangeOutcome::Invalid;
    }
    proof {
        lemma_first_index(r@, '-');
    }
    match find_first(r.as_slice(), '-') {
        None => RangeOutcome::Invalid,
        Some(k) => {
            let a = slice_vec(r.as_slice(), 0, k);
            let b = slice_vec(r.as_slice(), k + 1, r.len());
            let at = trim_vec(a.as_slice());
            let bt = trim_vec(b.as_slice());
            range_of_exec(at.as_slice(), bt.as_slice(), file_size)
        },
    }
}

} // verus!
