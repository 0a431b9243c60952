//! The grammar of tokens: what the lexer makes of a text, as mathematics.

use vstd::prelude::*;
use crate::address::{network_spelled, Cidr, Ip};
use crate::pattern::regex_compiles;

verus! {

/// What a token stands for: a string by its characters, a regular expression
/// by its pattern text.
pub enum Lexeme {
    ParenthesisOpen,
    ParenthesisClose,
    Duration(u64),
    Identifier(Seq<char>),
    Ip(Ip),
    Cidr(Cidr),
    Number(Seq<char>),
    Operator(Seq<char>),
    Regex(Seq<char>),
    Space(Seq<char>),
    String(Seq<char>),
}

/// Why a text is no sequence of tokens.
pub enum Fault {
    BadSyntax,
    AddrParseError,
    NetworkParseError,
    Unfinished,
    Regex,
}

/// A token and the index of the first character after it.
pub struct Scanned {
    pub token: Lexeme,
    pub end: int,
}

pub open spec fn is_digit(c: char) -> bool {
    '0' <= c <= '9'
}

pub open spec fn is_lower(c: char) -> bool {
    'a' <= c <= 'z'
}

pub open spec fn is_alphanumeric(c: char) -> bool {
    is_digit(c) || is_lower(c) || 'A' <= c <= 'Z'
}

/// The space characters of ASCII.
pub open spec fn is_blank(c: char) -> bool {
    c == ' ' || c == '\t' || c == '\n' || c == '\r' || c == '\x0b' || c == '\x0c'
}

/// Whether `c` can open and close a regular expression: any character that
/// is neither an ASCII letter or digit, nor `_`, nor an ASCII space.
pub open spec fn is_delimiter(c: char) -> bool {
    !is_alphanumeric(c) && c != '_' && !is_blank(c)
}

/// The index after the digits that start at `from`.
pub open spec fn digits_end(text: Seq<char>, from: int) -> int
    decreases text.len() - from,
{
    if 0 <= from < text.len() && is_digit(text[from]) {
        digits_end(text, from + 1)
    } else {
        from
    }
}

/// The index after the letters and digits that start at `from`.
pub open spec fn word_end(text: Seq<char>, from: int) -> int
    decreases text.len() - from,
{
    if 0 <= from < text.len() && is_alphanumeric(text[from]) {
        word_end(text, from + 1)
    } else {
        from
    }
}

/// The index after the spaces that start at `from`.
pub open spec fn spaces_end(text: Seq<char>, from: int) -> int
    decreases text.len() - from,
{
    if 0 <= from < text.len() && text[from] == ' ' {
        spaces_end(text, from + 1)
    } else {
        from
    }
}

/// The index of the first `quote` at or after `from` that no backslash
/// escapes, where a backslash escapes the character after it.
pub open spec fn closing(text: Seq<char>, from: int, quote: char) -> Option<int>
    decreases
            (if from < text.len() {
                text.len() - from
            } else {
                0
            }),
{
    if from < 0 || from >= text.len() {
        None
    } else if text[from] == '\\' {
        closing(text, from + 2, quote)
    } else if text[from] == quote {
        Some(from)
    } else {
        closing(text, from + 1, quote)
    }
}

/// The number that a digit stands for.
pub open spec fn digit(c: char) -> nat {
    (c as u32 - '0' as u32) as nat
}

/// The number that a sequence of digits spells in base ten.
pub open spec fn decimal(digits: Seq<char>) -> nat
    decreases digits.len(),
{
    if digits.len() == 0 {
        0
    } else {
        decimal(digits.drop_last()) * 10 + digit(digits.last())
    }
}

/// The rank of a unit of time among the units, largest unit first, and its
/// length in seconds.
pub open spec fn unit(c: char) -> Option<(nat, nat)> {
    if c == 'w' {
        Some((0nat, 604800nat))
    } else if c == 'd' {
        Some((1nat, 86400nat))
    } else if c == 'h' {
        Some((2nat, 3600nat))
    } else if c == 'm' {
        Some((3nat, 60nat))
    } else if c == 's' {
        Some((4nat, 1nat))
    } else {
        None
    }
}

/// The longest duration that starts at `from` and uses units of rank `rank`
/// and later, each at most once and in order: the index after it and its
/// length in seconds.
pub open spec fn duration(text: Seq<char>, from: int, rank: nat) -> (int, nat)
    decreases text.len() - from,
{
    let stop = digits_end(text, from);
    if from >= 0 && from < stop < text.len() {
        match unit(text[stop]) {
            Some((found, seconds)) => if found >= rank {
                let rest = duration(text, stop + 1, found + 1);
                (rest.0, decimal(text.subrange(from, stop)) * seconds + rest.1)
            } else {
                (from, 0nat)
            },
            None => (from, 0nat),
        }
    } else {
        (from, 0nat)
    }
}

/// The index after the longest number that starts at `from`: digits, digits
/// with a fraction, or a fraction alone. It is `from` where none starts there.
pub open spec fn number_end(text: Seq<char>, from: int) -> int {
    let whole = digits_end(text, from);
    if whole < text.len() && text[whole] == '.' && digits_end(text, whole + 1) > whole + 1 {
        digits_end(text, whole + 1)
    } else {
        whole
    }
}

/// Where the four octets of a dotted quad lie.
pub struct Quad {
    pub first: (int, int),
    pub second: (int, int),
    pub third: (int, int),
    pub fourth: (int, int),
}

/// The dotted quad that starts at `from`, if one does: three times one to
/// three digits and a dot, then one to three digits, as many as there are.
pub open spec fn quad(text: Seq<char>, from: int) -> Option<Quad> {
    let a = digits_end(text, from);
    let b = digits_end(text, a + 1);
    let c = digits_end(text, b + 1);
    let d = digits_end(text, c + 1);
    if from >= 0 && 1 <= a - from <= 3 && a < text.len() && text[a] == '.' && 1 <= b - (a + 1) <= 3
        && b < text.len() && text[b] == '.' && 1 <= c - (b + 1) <= 3 && c < text.len() && text[c]
        == '.' && 1 <= d - (c + 1) {
        Some(
            Quad {
                first: (from, a),
                second: (a + 1, b),
                third: (b + 1, c),
                fourth: (c + 1, if d - (c + 1) <= 3 {
                    d
                } else {
                    c + 4
                }),
            },
        )
    } else {
        None
    }
}

/// The index after the prefix length that follows the dotted quad `found`,
/// if one does: a slash and one or two digits, right after a last octet that
/// stands in full.
pub open spec fn prefix_end(text: Seq<char>, found: Quad) -> Option<int> {
    let slash = found.fourth.1;
    let stop = digits_end(text, slash + 1);
    if slash == digits_end(text, found.fourth.0) && slash < text.len() && text[slash] == '/'
        && stop > slash + 1 {
        Some(if stop - (slash + 1) <= 2 {
            stop
        } else {
            slash + 3
        })
    } else {
        None
    }
}

/// The digits of `text` from `span.0` up to `span.1`.
pub open spec fn piece(text: Seq<char>, span: (int, int)) -> Seq<char> {
    text.subrange(span.0, span.1)
}

/// Whether `digits` spell an octet the strict way: a number up to 255
/// without a leading zero.
pub open spec fn strict_octet(digits: Seq<char>) -> bool {
    decimal(digits) <= 255 && (digits.len() == 1 || digits[0] != '0')
}

/// The 32 bits of the address whose octets are the four numbers.
pub open spec fn join(a: nat, b: nat, c: nat, d: nat) -> u32 {
    (a * 0x100_0000 + b * 0x1_0000 + c * 0x100 + d) as u32
}

/// The address that the dotted quad `found` spells, octet by octet.
pub open spec fn quad_bits(text: Seq<char>, found: Quad) -> u32 {
    join(
        decimal(piece(text, found.first)),
        decimal(piece(text, found.second)),
        decimal(piece(text, found.third)),
        decimal(piece(text, found.fourth)),
    )
}

/// The address that the dotted quad `found` spells, where every octet is
/// spelled the strict way.
pub open spec fn address(text: Seq<char>, found: Quad) -> Option<Ip> {
    if strict_octet(piece(text, found.first)) && strict_octet(piece(text, found.second))
        && strict_octet(piece(text, found.third)) && strict_octet(piece(text, found.fourth)) {
        Some(Ip::V4(quad_bits(text, found)))
    } else {
        None
    }
}

/// The token that starts with the digit at `start`: a duration where a unit
/// follows the digits; else a network, read as the `cidr` crate reads it,
/// where a dotted quad with a prefix length starts here; else an address
/// where a dotted quad does; else a number.
pub open spec fn scan_numeric(text: Seq<char>, start: int) -> Result<Scanned, Fault> {
    let digits = digits_end(text, start);
    if digits < text.len() && unit(text[digits]) is Some {
        let found = duration(text, start, 0);
        if found.1 <= u64::MAX {
            Ok(Scanned { token: Lexeme::Duration(found.1 as u64), end: found.0 })
        } else {
            Err(Fault::BadSyntax)
        }
    } else {
        match quad(text, start) {
            Some(found) => match prefix_end(text, found) {
                Some(end) => match network_spelled(text.subrange(start, end)) {
                    Some(network) => Ok(Scanned { token: Lexeme::Cidr(network), end }),
                    None => Err(Fault::NetworkParseError),
                },
                None => match address(text, found) {
                    Some(ip) => Ok(Scanned { token: Lexeme::Ip(ip), end: found.fourth.1 }),
                    None => Err(Fault::AddrParseError),
                },
            },
            None => Ok(
                Scanned {
                    token: Lexeme::Number(text.subrange(start, number_end(text, start))),
                    end: number_end(text, start),
                },
            ),
        }
    }
}

/// The token that starts at `start`, and where it ends.
pub open spec fn scan(text: Seq<char>, start: int) -> Result<Scanned, Fault>
    recommends
        0 <= start < text.len(),
{
    let c = text[start];
    let next = start + 1;
    if c == '(' {
        Ok(Scanned { token: Lexeme::ParenthesisOpen, end: next })
    } else if c == ')' {
        Ok(Scanned { token: Lexeme::ParenthesisClose, end: next })
    } else if c == ' ' {
        Ok(
            Scanned {
                token: Lexeme::Space(text.subrange(start, spaces_end(text, start))),
                end: spaces_end(text, start),
            },
        )
    } else if c == '\'' || c == '"' {
        match closing(text, next, c) {
            Some(close) => Ok(
                Scanned { token: Lexeme::String(text.subrange(next, close)), end: close + 1 },
            ),
            None => Err(Fault::Unfinished),
        }
    } else if c == 'm' && next < text.len() && is_delimiter(text[next]) {
        match closing(text, next + 1, text[next]) {
            Some(close) => if regex_compiles(text.subrange(next + 1, close)) {
                Ok(
                    Scanned {
                        token: Lexeme::Regex(text.subrange(next + 1, close)),
                        end: close + 1,
                    },
                )
            } else {
                Err(Fault::Regex)
            },
            None => Err(Fault::Unfinished),
        }
    } else if is_lower(c) {
        Ok(
            Scanned {
                token: Lexeme::Identifier(text.subrange(start, word_end(text, next))),
                end: word_end(text, next),
            },
        )
    } else if is_digit(c) {
        scan_numeric(text, start)
    } else if c == '.' {
        if number_end(text, start) > start {
            Ok(
                Scanned {
                    token: Lexeme::Number(text.subrange(start, number_end(text, start))),
                    end: number_end(text, start),
                },
            )
        } else {
            Err(Fault::BadSyntax)
        }
    } else if c == '+' || c == '-' || c == '~' {
        Ok(Scanned { token: Lexeme::Operator(text.subrange(start, next)), end: next })
    } else if (c == '&' || c == '|' || c == '=') && next < text.len() && text[next] == c {
        Ok(Scanned { token: Lexeme::Operator(text.subrange(start, next + 1)), end: next + 1 })
    } else {
        Err(Fault::BadSyntax)
    }
}

} // verus!
