//! The pieces of the lexer: runs of characters, closing quotes, numbers,
//! durations and dotted quads.

use vstd::prelude::*;
use super::grammar;
use super::grammar::{decimal, digit, Quad};

verus! {

pub(super) fn is_digit(c: char) -> (yes: bool)
    ensures
        yes == grammar::is_digit(c),
{
    '0' <= c && c <= '9'
}

pub(super) fn is_lower(c: char) -> (yes: bool)
    ensures
        yes == grammar::is_lower(c),
{
    'a' <= c && c <= 'z'
}

pub(super) fn is_alphanumeric(c: char) -> (yes: bool)
    ensures
        yes == grammar::is_alphanumeric(c),
{
    is_digit(c) || is_lower(c) || ('A' <= c && c <= 'Z')
}

pub(super) fn is_delimiter(c: char) -> (yes: bool)
    ensures
        yes == grammar::is_delimiter(c),
{
    !is_alphanumeric(c) && c != '_' && !(c == ' ' || c == '\t' || c == '\n' || c == '\r' || c
        == '\x0b' || c == '\x0c')
}

/// The index after the digits that start at `from`.
pub(crate) fn skip_digits(chars: &Vec<char>, from: usize) -> (end: usize)
    requires
        from <= chars@.len(),
    ensures
        end == grammar::digits_end(chars@, from as int),
        from <= end <= chars@.len(),
        forall|i: int| from <= i < end ==> grammar::is_digit(chars@[i]),
{
    let mut i: usize = from;
    while i < chars.len() && is_digit(chars[i])
        invariant
            from <= i <= chars@.len(),
            grammar::digits_end(chars@, from as int) == grammar::digits_end(chars@, i as int),
            forall|j: int| from <= j < i ==> grammar::is_digit(chars@[j]),
        decreases chars@.len() - i,
    {
        i += 1;
    }
    i
}

/// The index after the letters and digits that start at `from`.
pub(super) fn skip_word(chars: &Vec<char>, from: usize) -> (end: usize)
    requires
        from <= chars@.len(),
    ensures
        end == grammar::word_end(chars@, from as int),
        from <= end <= chars@.len(),
{
    let mut i: usize = from;
    while i < chars.len() && is_alphanumeric(chars[i])
        invariant
            from <= i <= chars@.len(),
            grammar::word_end(chars@, from as int) == grammar::word_end(chars@, i as int),
        decreases chars@.len() - i,
    {
        i += 1;
    }
    i
}

/// The index after the spaces that start at `from`.
pub(super) fn skip_spaces(chars: &Vec<char>, from: usize) -> (end: usize)
    requires
        from <= chars@.len(),
    ensures
        end == grammar::spaces_end(chars@, from as int),
        from <= end <= chars@.len(),
{
    let mut i: usize = from;
    while i < chars.len() && chars[i] == ' '
        invariant
            from <= i <= chars@.len(),
            grammar::spaces_end(chars@, from as int) == grammar::spaces_end(chars@, i as int),
        decreases chars@.len() - i,
    {
        i += 1;
    }
    i
}

/// The index of the quote that closes what was opened before `from`.
pub(super) fn find_closing(chars: &Vec<char>, from: usize, opening: char) -> (close: Option<usize>)
    requires
        from <= chars@.len(),
    ensures
        match close {
            Some(index) => grammar::closing(chars@, from as int, opening) == Some(index as int)
                && from <= index < chars@.len(),
            None => grammar::closing(chars@, from as int, opening) is None,
        },
{
    let mut i: usize = from;
    while i < chars.len()
        invariant
            from <= i <= chars@.len(),
            grammar::closing(chars@, from as int, opening) == grammar::closing(
                chars@,
                i as int,
                opening,
            ),
        decreases chars@.len() - i,
    {
        let c = chars[i];
        if c == '\\' {
            if chars.len() - i < 2 {
                assert(grammar::closing(chars@, i + 2, opening) is None);
                return None;
            }
            i += 2;
        } else if c == opening {
            return Some(i);
        } else {
            i += 1;
        }
    }
    None
}

/// A longer run of digits spells no smaller number.
pub proof fn lemma_decimal_grows(text: Seq<char>, from: int, middle: int, to: int)
    requires
        0 <= from <= middle <= to <= text.len(),
    ensures
        decimal(text.subrange(from, middle)) <= decimal(text.subrange(from, to)),
    decreases to - middle,
{
    if middle < to {
        lemma_decimal_grows(text, from, middle, to - 1);
        assert(text.subrange(from, to).drop_last() =~= text.subrange(from, to - 1));
    }
}

/// Up to three digits spell a number below a thousand.
pub proof fn lemma_decimal_small(digits: Seq<char>)
    requires
        digits.len() <= 3,
        forall|i: int| 0 <= i < digits.len() ==> grammar::is_digit(digits[i]),
    ensures
        decimal(digits) <= 999,
        digits.len() <= 2 ==> decimal(digits) <= 99,
        digits.len() <= 1 ==> decimal(digits) <= 9,
        digits.len() == 0 ==> decimal(digits) == 0,
    decreases digits.len(),
{
    if digits.len() > 0 {
        lemma_decimal_small(digits.drop_last());
        assert(grammar::is_digit(digits[digits.len() - 1]));
    }
}

/// The number that the digits from `from` up to `to` spell, where it fits.
pub(crate) fn parse_decimal(chars: &Vec<char>, from: usize, to: usize) -> (value: Option<u64>)
    requires
        from <= to <= chars@.len(),
        forall|i: int| from <= i < to ==> grammar::is_digit(chars@[i]),
    ensures
        match value {
            Some(number) => number == decimal(chars@.subrange(from as int, to as int)),
            None => decimal(chars@.subrange(from as int, to as int)) > u64::MAX,
        },
{
    let mut number: u64 = 0;
    let mut i: usize = from;
    while i < to
        invariant
            from <= i <= to <= chars@.len(),
            forall|j: int| from <= j < to ==> grammar::is_digit(chars@[j]),
            number == decimal(chars@.subrange(from as int, i as int)),
        decreases to - i,
    {
        let c = chars[i];
        let value: u64 = (c as u32 - '0' as u32) as u64;
        proof {
            assert(chars@.subrange(from as int, i + 1).drop_last() =~= chars@.subrange(
                from as int,
                i as int,
            ));
            lemma_decimal_grows(chars@, from as int, i + 1, to as int);
        }
        let scaled = match number.checked_mul(10) {
            Some(scaled) => scaled,
            None => {
                return None;
            },
        };
        number = match scaled.checked_add(value) {
            Some(sum) => sum,
            None => {
                return None;
            },
        };
        i += 1;
    }
    Some(number)
}

/// The rank of a unit of time and its length in seconds.
fn unit(c: char) -> (found: Option<(u8, u64)>)
    ensures
        match found {
            Some((rank, seconds)) => grammar::unit(c) == Some((rank as nat, seconds as nat)),
            None => grammar::unit(c) is None,
        },
{
    if c == 'w' {
        Some((0, 604800))
    } else if c == 'd' {
        Some((1, 86400))
    } else if c == 'h' {
        Some((2, 3600))
    } else if c == 'm' {
        Some((3, 60))
    } else if c == 's' {
        Some((4, 1))
    } else {
        None
    }
}

/// The duration that starts at `from`: the index after it and its length in
/// seconds, or `None` where that length does not fit.
pub(super) fn parse_duration(chars: &Vec<char>, from: usize) -> (found: Option<(usize, u64)>)
    requires
        from <= chars@.len(),
    ensures
        match found {
            Some((end, seconds)) => grammar::duration(chars@, from as int, 0) == (
                end as int,
                seconds as nat,
            ) && from <= end <= chars@.len(),
            None => grammar::duration(chars@, from as int, 0).1 > u64::MAX,
        },
{
    let mut overall: u64 = 0;
    let mut at: usize = from;
    let mut rank: u8 = 0;
    loop
        invariant
            from <= at <= chars@.len(),
            rank <= 5,
            grammar::duration(chars@, from as int, 0) == (
                grammar::duration(chars@, at as int, rank as nat).0,
                (overall + grammar::duration(chars@, at as int, rank as nat).1) as nat,
            ),
        decreases chars@.len() - at,
    {
        let stop = skip_digits(chars, at);
        if stop == at || stop >= chars.len() {
            return Some((at, overall));
        }
        let (found, multiplier) = match unit(chars[stop]) {
            Some((found, multiplier)) => (found, multiplier),
            None => {
                return Some((at, overall));
            },
        };
        if found < rank {
            return Some((at, overall));
        }
        let current = match parse_decimal(chars, at, stop) {
            Some(current) => current,
            None => {
                assert(decimal(chars@.subrange(at as int, stop as int)) * (multiplier as nat)
                    >= decimal(chars@.subrange(at as int, stop as int))) by (nonlinear_arith)
                    requires
                        multiplier >= 1,
                ;
                return None;
            },
        };
        let scaled = match current.checked_mul(multiplier) {
            Some(scaled) => scaled,
            None => {
                return None;
            },
        };
        overall = match overall.checked_add(scaled) {
            Some(sum) => sum,
            None => {
                return None;
            },
        };
        at = stop + 1;
        rank = found + 1;
    }
}

/// The dotted quad that starts at `from`, if one does.
pub(super) fn find_quad(chars: &Vec<char>, from: usize) -> (found: Option<[usize; 8]>)
    requires
        from <= chars@.len(),
    ensures
        match found {
            Some(at) => grammar::quad(chars@, from as int) == Some(places(at)) && ordered(
                at,
                chars@.len(),
            ) && forall|i: int|
                (at[0] <= i < at[1] || at[2] <= i < at[3] || at[4] <= i < at[5] || at[6] <= i
                    < at[7]) ==> grammar::is_digit(chars@[i]),
            None => grammar::quad(chars@, from as int) is None,
        },
{
    let a = skip_digits(chars, from);
    if a == from || a - from > 3 || a >= chars.len() || chars[a] != '.' {
        return None;
    }
    let b = skip_digits(chars, a + 1);
    if b == a + 1 || b - (a + 1) > 3 || b >= chars.len() || chars[b] != '.' {
        return None;
    }
    let c = skip_digits(chars, b + 1);
    if c == b + 1 || c - (b + 1) > 3 || c >= chars.len() || chars[c] != '.' {
        return None;
    }
    let d = skip_digits(chars, c + 1);
    if d == c + 1 {
        return None;
    }
    let end = if d - (c + 1) <= 3 {
        d
    } else {
        c + 4
    };
    Some([from, a, a + 1, b, b + 1, c, c + 1, end])
}

/// The places of the octets as the grammar names them.
pub open spec fn places(at: [usize; 8]) -> Quad {
    Quad {
        first: (at[0] as int, at[1] as int),
        second: (at[2] as int, at[3] as int),
        third: (at[4] as int, at[5] as int),
        fourth: (at[6] as int, at[7] as int),
    }
}

/// Whether each octet is one to three characters long and lies in a text of
/// `length` characters.
pub open spec fn ordered(at: [usize; 8], length: nat) -> bool {
    &&& at[0] < at[1] <= at[0] + 3
    &&& at[1] < at[2] < at[3] <= at[2] + 3
    &&& at[3] < at[4] < at[5] <= at[4] + 3
    &&& at[5] < at[6] < at[7] <= at[6] + 3
    &&& at[7] <= length
}

/// The index after the prefix length that follows a dotted quad, if one
/// does.
pub(super) fn find_prefix(chars: &Vec<char>, at: &[usize; 8]) -> (end: Option<usize>)
    requires
        ordered(*at, chars@.len()),
    ensures
        match end {
            Some(end) => grammar::prefix_end(chars@, places(*at)) == Some(end as int) && at[7] + 1
                < end <= at[7] + 3 && end <= chars@.len() && forall|i: int|
                at[7] < i < end ==> grammar::is_digit(chars@[i]),
            None => grammar::prefix_end(chars@, places(*at)) is None,
        },
{
    let slash = at[7];
    if skip_digits(chars, at[6]) != slash || slash >= chars.len() || chars[slash] != '/' {
        return None;
    }
    let stop = skip_digits(chars, slash + 1);
    if stop == slash + 1 {
        return None;
    }
    Some(if stop - (slash + 1) <= 2 {
        stop
    } else {
        slash + 3
    })
}

/// The number that an octet of one to three digits spells.
fn parse_octet(chars: &Vec<char>, from: usize, to: usize) -> (value: u32)
    requires
        from < to <= from + 3,
        to <= chars@.len(),
        forall|i: int| from <= i < to ==> grammar::is_digit(chars@[i]),
    ensures
        value == decimal(chars@.subrange(from as int, to as int)),
        value <= 999,
{
    proof {
        lemma_decimal_small(chars@.subrange(from as int, to as int));
    }
    match parse_decimal(chars, from, to) {
        Some(value) => value as u32,
        None => 0,
    }
}

/// The 32 bits that the octets of a dotted quad spell, where each octet is at
/// most 255 and has no leading zero.
pub(super) fn parse_quad(chars: &Vec<char>, at: &[usize; 8]) -> (bits: Option<u32>)
    requires
        ordered(*at, chars@.len()),
        forall|i: int|
            (at[0] <= i < at[1] || at[2] <= i < at[3] || at[4] <= i < at[5] || at[6] <= i < at[7])
                ==> grammar::is_digit(chars@[i]),
    ensures
        bits == match grammar::address(chars@, places(*at)) {
            Some(crate::address::Ip::V4(value)) => Some(value),
            _ => None,
        },
{
    let a = parse_octet(chars, at[0], at[1]);
    let b = parse_octet(chars, at[2], at[3]);
    let c = parse_octet(chars, at[4], at[5]);
    let d = parse_octet(chars, at[6], at[7]);
    if a > 255 || b > 255 || c > 255 || d > 255 {
        return None;
    }
    if leading_zero(chars, at[0], at[1]) || leading_zero(chars, at[2], at[3]) || leading_zero(
        chars,
        at[4],
        at[5],
    ) || leading_zero(chars, at[6], at[7]) {
        return None;
    }
    Some(a * 0x100_0000 + b * 0x1_0000 + c * 0x100 + d)
}

/// Whether more than one digit stands from `from` up to `to`, the first a
/// zero.
fn leading_zero(chars: &Vec<char>, from: usize, to: usize) -> (yes: bool)
    requires
        from < to <= chars@.len(),
    ensures
        yes == !(chars@.subrange(from as int, to as int).len() == 1 || chars@.subrange(
            from as int,
            to as int,
        )[0] != '0'),
{
    to - from > 1 && chars[from] == '0'
}

} // verus!
