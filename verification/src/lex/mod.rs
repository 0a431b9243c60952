//! The lexer: from a text to tokens with their spans.

use vstd::prelude::*;
use vstd::string::*;
use vstd::utf8::encode_utf8;
use core::ops::Range;

pub mod grammar;
pub mod util;

use self::grammar::{Fault, Lexeme, Scanned};
use crate::address::{cidr_from_str, Cidr, Ip};
use crate::pattern::Pattern;

verus! {

/// Why a text is no sequence of tokens.
#[derive(Debug, PartialEq)]
pub enum Error {
    /// No token starts here.
    BadSyntax,
    /// A dotted quad is no address.
    AddrParseError,
    /// A dotted quad with a prefix length is no network.
    NetworkParseError,
    /// A string or a regular expression is not closed.
    Unfinished,
    /// The regex engine refuses a pattern; its message.
    Regex(String),
}

impl View for Error {
    type V = Fault;

    open spec fn view(&self) -> Fault {
        match self {
            Error::BadSyntax => Fault::BadSyntax,
            Error::AddrParseError => Fault::AddrParseError,
            Error::NetworkParseError => Fault::NetworkParseError,
            Error::Unfinished => Fault::Unfinished,
            Error::Regex(_) => Fault::Regex,
        }
    }
}

impl Default for Error {
    fn default() -> (error: Error)
        ensures
            error == Error::BadSyntax,
    {
        Error::BadSyntax
    }
}

/// A token of the language.
#[derive(Debug, PartialEq)]
pub enum Token {
    ParenthesisOpen,
    ParenthesisClose,
    Duration(u64),
    Identifier(String),
    Ip(Ip),
    Cidr(Cidr),
    Number(String),
    Operator(String),
    Regex(Pattern),
    Space(String),
    String(String),
}

impl View for Token {
    type V = Lexeme;

    open spec fn view(&self) -> Lexeme {
        match self {
            Token::ParenthesisOpen => Lexeme::ParenthesisOpen,
            Token::ParenthesisClose => Lexeme::ParenthesisClose,
            Token::Duration(seconds) => Lexeme::Duration(*seconds),
            Token::Identifier(name) => Lexeme::Identifier(name@),
            Token::Ip(address) => Lexeme::Ip(*address),
            Token::Cidr(network) => Lexeme::Cidr(*network),
            Token::Number(digits) => Lexeme::Number(digits@),
            Token::Operator(sign) => Lexeme::Operator(sign@),
            Token::Regex(pattern) => Lexeme::Regex(pattern@),
            Token::Space(spaces) => Lexeme::Space(spaces@),
            Token::String(body) => Lexeme::String(body@),
        }
    }
}

/// The number of bytes that the first `index` characters of `text` take in
/// UTF-8.
pub open spec fn offset(text: Seq<char>, index: int) -> nat {
    encode_utf8(text.take(index)).len()
}

/// A token with the bytes of the text that it spans.
pub type Spanned = (Lexeme, nat, nat);

/// `found` before the tokens of `rest`, where there are any.
pub open spec fn before(found: Seq<Spanned>, rest: Result<Seq<Spanned>, Fault>) -> Result<
    Seq<Spanned>,
    Fault,
> {
    match rest {
        Ok(tokens) => Ok(found + tokens),
        Err(fault) => Err(fault),
    }
}

/// The tokens of `text` from the character at `start` on, each with the
/// bytes it spans, or why the text is no sequence of tokens.
pub open spec fn tokens(text: Seq<char>, start: int) -> Result<Seq<Spanned>, Fault>
    decreases text.len() - start,
{
    if start < 0 || start >= text.len() {
        Ok(Seq::empty())
    } else {
        match grammar::scan(text, start) {
            Ok(scanned) => {
                proof {
                    lemma_scan_advances(text, start);
                }
                before(
                    seq![(scanned.token, offset(text, start), offset(text, scanned.end))],
                    tokens(text, scanned.end),
                )
            },
            Err(fault) => Err(fault),
        }
    }
}

pub proof fn lemma_digits_end(text: Seq<char>, from: int)
    requires
        0 <= from <= text.len(),
    ensures
        from <= grammar::digits_end(text, from) <= text.len(),
    decreases text.len() - from,
{
    if from < text.len() && grammar::is_digit(text[from]) {
        lemma_digits_end(text, from + 1);
    }
}

pub proof fn lemma_word_end(text: Seq<char>, from: int)
    requires
        0 <= from <= text.len(),
    ensures
        from <= grammar::word_end(text, from) <= text.len(),
    decreases text.len() - from,
{
    if from < text.len() && grammar::is_alphanumeric(text[from]) {
        lemma_word_end(text, from + 1);
    }
}

pub proof fn lemma_spaces_end(text: Seq<char>, from: int)
    requires
        0 <= from <= text.len(),
    ensures
        from <= grammar::spaces_end(text, from) <= text.len(),
        from < text.len() && text[from] == ' ' ==> from < grammar::spaces_end(text, from),
    decreases text.len() - from,
{
    if from < text.len() && text[from] == ' ' {
        lemma_spaces_end(text, from + 1);
    }
}

pub proof fn lemma_closing(text: Seq<char>, from: int, quote: char)
    requires
        0 <= from,
    ensures
        grammar::closing(text, from, quote) matches Some(close) ==> from <= close < text.len(),
    decreases
            (if from < text.len() {
                text.len() - from
            } else {
                0
            }),
{
    if from < text.len() {
        if text[from] == '\\' {
            lemma_closing(text, from + 2, quote);
        } else if text[from] != quote {
            lemma_closing(text, from + 1, quote);
        }
    }
}

pub proof fn lemma_duration(text: Seq<char>, from: int, rank: nat)
    requires
        0 <= from <= text.len(),
    ensures
        from <= grammar::duration(text, from, rank).0 <= text.len(),
        ({
            let stop = grammar::digits_end(text, from);
            from < stop < text.len() && (grammar::unit(text[stop]) matches Some((found, _))
                && found >= rank) ==> from < grammar::duration(text, from, rank).0
        }),
    decreases text.len() - from,
{
    let stop = grammar::digits_end(text, from);
    lemma_digits_end(text, from);
    if from < stop < text.len() {
        match grammar::unit(text[stop]) {
            Some((found, seconds)) => {
                if found >= rank {
                    lemma_duration(text, stop + 1, found + 1);
                }
            },
            None => {},
        }
    }
}

/// A token is at least one character long and ends within the text.
pub proof fn lemma_scan_advances(text: Seq<char>, start: int)
    requires
        0 <= start < text.len(),
    ensures
        grammar::scan(text, start) matches Ok(scanned) ==> start < scanned.end <= text.len(),
{
    let c = text[start];
    lemma_spaces_end(text, start);
    lemma_word_end(text, start + 1);
    lemma_closing(text, start + 1, c);
    if start + 1 < text.len() {
        lemma_closing(text, start + 2, text[start + 1]);
    }
    lemma_digits_end(text, start);
    let whole = grammar::digits_end(text, start);
    if whole < text.len() {
        lemma_digits_end(text, whole + 1);
    }
    if grammar::is_digit(c) {
        lemma_digits_end(text, start + 1);
        lemma_duration(text, start, 0);
        let a = grammar::digits_end(text, start);
        if a < text.len() {
            lemma_digits_end(text, a + 1);
            let b = grammar::digits_end(text, a + 1);
            if b < text.len() {
                lemma_digits_end(text, b + 1);
                let c = grammar::digits_end(text, b + 1);
                if c < text.len() {
                    lemma_digits_end(text, c + 1);
                    let d = grammar::digits_end(text, c + 1);
                    if d < text.len() {
                        lemma_digits_end(text, d + 1);
                    }
                }
            }
        }
    }
}

/// The UTF-8 form of two texts, one after the other, is as long as the two
/// forms together.
pub proof fn lemma_encoding_length(first: Seq<char>, second: Seq<char>)
    ensures
        encode_utf8(first + second).len() == encode_utf8(first).len() + encode_utf8(second).len(),
    decreases first.len(),
{
    if first.len() == 0 {
        assert(first + second =~= second);
    } else {
        assert((first + second).drop_first() =~= first.drop_first() + second);
        lemma_encoding_length(first.drop_first(), second);
    }
}

/// The bytes before a character are the bytes before an earlier character
/// and the bytes of the characters between the two.
pub proof fn lemma_offset(text: Seq<char>, from: int, to: int)
    requires
        0 <= from <= to <= text.len(),
    ensures
        offset(text, to) == offset(text, from) + encode_utf8(text.subrange(from, to)).len(),
        offset(text, to) <= encode_utf8(text).len(),
        offset(text, 0) == 0,
{
    assert(text.take(to) =~= text.take(from) + text.subrange(from, to));
    lemma_encoding_length(text.take(from), text.subrange(from, to));
    assert(text =~= text.take(to) + text.skip(to));
    lemma_encoding_length(text.take(to), text.skip(to));
    assert(text.take(0) =~= Seq::<char>::empty());
}

/// The characters of `expression` from `from` up to `to`, as a string.
fn slice(expression: &str, from: usize, to: usize) -> (text: String)
    requires
        from <= to <= expression@.len(),
    ensures
        text@ == expression@.subrange(from as int, to as int),
{
    expression.substring_char(from, to).to_owned()
}

/// What the scanner has found at `start` where the grammar finds `expected`.
pub open spec fn scanned_as(
    found: Result<(Token, usize), Error>,
    expected: Result<Scanned, Fault>,
) -> bool {
    match expected {
        Ok(scanned) => found matches Ok((token, end)) && token@ == scanned.token && end
            == scanned.end,
        Err(fault) => found matches Err(error) && error@ == fault,
    }
}

/// The token that starts with the digit at `start`.
fn scan_numeric(expression: &str, chars: &Vec<char>, start: usize) -> (found: Result<
    (Token, usize),
    Error,
>)
    requires
        chars@ == expression@,
        start < chars@.len(),
        grammar::is_digit(chars@[start as int]),
    ensures
        scanned_as(found, grammar::scan_numeric(chars@, start as int)),
{
    let digits = util::skip_digits(chars, start);
    if digits < chars.len() && is_unit(chars[digits]) {
        return match util::parse_duration(chars, start) {
            Some((end, seconds)) => Ok((Token::Duration(seconds), end)),
            None => Err(Error::BadSyntax),
        };
    }
    let at = match util::find_quad(chars, start) {
        Some(at) => at,
        None => {
            let end = number_end(chars, start);
            return Ok((Token::Number(slice(expression, start, end)), end));
        },
    };
    match util::find_prefix(chars, &at) {
        Some(end) => match cidr_from_str(slice(expression, start, end).as_str()) {
            Ok(network) => Ok((Token::Cidr(network), end)),
            Err(_) => Err(Error::NetworkParseError),
        },
        None => match util::parse_quad(chars, &at) {
            Some(bits) => Ok((Token::Ip(Ip::V4(bits)), at[7])),
            None => Err(Error::AddrParseError),
        },
    }
}

/// Whether `c` names a unit of time.
fn is_unit(c: char) -> (yes: bool)
    ensures
        yes == grammar::unit(c) is Some,
{
    c == 'w' || c == 'd' || c == 'h' || c == 'm' || c == 's'
}

/// The index after the number that starts at `from`.
fn number_end(chars: &Vec<char>, from: usize) -> (end: usize)
    requires
        from <= chars@.len(),
    ensures
        end == grammar::number_end(chars@, from as int),
        from <= end <= chars@.len(),
{
    let whole = util::skip_digits(chars, from);
    if whole < chars.len() && chars[whole] == '.' {
        let fraction = util::skip_digits(chars, whole + 1);
        if fraction > whole + 1 {
            return fraction;
        }
    }
    whole
}

/// The token that starts at `start`, and the index after it.
fn scan(expression: &str, chars: &Vec<char>, start: usize) -> (found: Result<
    (Token, usize),
    Error,
>)
    requires
        chars@ == expression@,
        start < chars@.len(),
    ensures
        scanned_as(found, grammar::scan(chars@, start as int)),
{
    let total = chars.len();
    let c = chars[start];
    let next = start + 1;
    if c == '(' {
        Ok((Token::ParenthesisOpen, next))
    } else if c == ')' {
        Ok((Token::ParenthesisClose, next))
    } else if c == ' ' {
        let end = util::skip_spaces(chars, start);
        Ok((Token::Space(slice(expression, start, end)), end))
    } else if c == '\'' || c == '"' {
        match util::find_closing(chars, next, c) {
            Some(close) => Ok((Token::String(slice(expression, next, close)), close + 1)),
            None => Err(Error::Unfinished),
        }
    } else if c == 'm' && next < total && util::is_delimiter(chars[next]) {
        match util::find_closing(chars, next + 1, chars[next]) {
            Some(close) => {
                let body = slice(expression, next + 1, close);
                match Pattern::new(body.as_str()) {
                    Ok(pattern) => Ok((Token::Regex(pattern), close + 1)),
                    Err(message) => Err(Error::Regex(message)),
                }
            },
            None => Err(Error::Unfinished),
        }
    } else if util::is_lower(c) {
        let end = util::skip_word(chars, next);
        Ok((Token::Identifier(slice(expression, start, end)), end))
    } else if util::is_digit(c) {
        scan_numeric(expression, chars, start)
    } else if c == '.' {
        let end = number_end(chars, start);
        if end > start {
            Ok((Token::Number(slice(expression, start, end)), end))
        } else {
            Err(Error::BadSyntax)
        }
    } else if c == '+' || c == '-' || c == '~' {
        Ok((Token::Operator(slice(expression, start, next)), next))
    } else if (c == '&' || c == '|' || c == '=') && next < total && chars[next] == c {
        Ok((Token::Operator(slice(expression, start, next + 1)), next + 1))
    } else {
        Err(Error::BadSyntax)
    }
}

/// What a list of tokens with their spans stands for.
pub open spec fn spanned(list: Seq<(Token, Range<usize>)>) -> Seq<Spanned> {
    Seq::new(list.len(), |i: int| (list[i].0@, list[i].1.start as nat, list[i].1.end as nat))
}

/// What the lexer has found where the grammar finds `expected`.
pub open spec fn lexed_as(
    found: Result<Vec<(Token, Range<usize>)>, Error>,
    expected: Result<Seq<Spanned>, Fault>,
) -> bool {
    match expected {
        Ok(tokens) => found matches Ok(list) && spanned(list@) == tokens,
        Err(fault) => found matches Err(error) && error@ == fault,
    }
}

/// The tokens of `expression` in order, each with the bytes of the text that
/// it spans, or the first reason why the text is no sequence of tokens.
pub fn lex(expression: &str) -> (found: Result<Vec<(Token, Range<usize>)>, Error>)
    ensures
        lexed_as(found, tokens(expression@, 0)),
{
    let mut chars: Vec<char> = Vec::new();
    for c in it: expression.chars()
        invariant
            chars@ == it.seq().take(it.index() as int),
            it.seq() == expression@,
    {
        chars.push(c);
    }
    let ghost text = expression@;
    assert(chars@ =~= text);
    let length = expression.as_bytes().len();
    assert(length == encode_utf8(text).len());
    let mut list: Vec<(Token, Range<usize>)> = Vec::new();
    let mut start: usize = 0;
    let mut bytes: usize = 0;
    proof {
        lemma_offset(text, 0, 0);
        assert(spanned(list@) + Seq::<Spanned>::empty() =~= Seq::<Spanned>::empty());
    }
    while start < chars.len()
        invariant
            text == expression@,
            chars@ == text,
            start <= chars@.len(),
            length == encode_utf8(text).len(),
            bytes == offset(text, start as int),
            tokens(text, 0) == before(spanned(list@), tokens(text, start as int)),
        decreases chars@.len() - start,
    {
        proof {
            lemma_scan_advances(text, start as int);
        }
        let (token, end) = match scan(expression, &chars, start) {
            Ok(found) => found,
            Err(error) => {
                return Err(error);
            },
        };
        proof {
            lemma_offset(text, start as int, end as int);
        }
        let size = expression.substring_char(start, end).as_bytes().len();
        let ghost earlier = spanned(list@);
        let ghost lexeme = token@;
        list.push((token, bytes..bytes + size));
        proof {
            let one = seq![(lexeme, offset(text, start as int), offset(text, end as int))];
            assert(spanned(list@) =~= earlier + one);
            match tokens(text, end as int) {
                Ok(rest) => {
                    assert(earlier + (one + rest) =~= (earlier + one) + rest);
                },
                Err(_) => {},
            }
        }
        bytes = bytes + size;
        start = end;
    }
    proof {
        assert(spanned(list@) + Seq::<Spanned>::empty() =~= spanned(list@));
    }
    Ok(list)
}

/// The tokens of a text lie end to end: the first starts where the reading
/// starts, each next one where the one before it ends, none is empty, and
/// the last ends where the text ends.
pub proof fn lemma_tokens_tile(text: Seq<char>, start: int)
    requires
        0 <= start <= text.len(),
    ensures
        tokens(text, start) matches Ok(found) ==> {
            &&& found.len() == 0 <==> start == text.len()
            &&& found.len() > 0 ==> found[0].1 == offset(text, start) && found.last().2 == offset(
                text,
                text.len() as int,
            )
            &&& forall|i: int| 0 <= i < found.len() ==> (#[trigger] found[i]).1 < found[i].2
            &&& forall|i: int|
                0 <= i < found.len() - 1 ==> (#[trigger] found[i]).2 == found[i + 1].1
        },
    decreases text.len() - start,
{
    if start < text.len() {
        lemma_scan_advances(text, start);
        match grammar::scan(text, start) {
            Ok(scanned) => {
                lemma_tokens_tile(text, scanned.end);
                lemma_offset(text, start, scanned.end);
                lemma_positive(text.subrange(start, scanned.end));
                match tokens(text, scanned.end) {
                    Ok(rest) => {
                        let one = seq![
                            (scanned.token, offset(text, start), offset(text, scanned.end)),
                        ];
                        let found = one + rest;
                        assert forall|i: int| 0 <= i < found.len() implies (#[trigger] found[i]).1
                            < found[i].2 by {
                            if i > 0 {
                                assert(found[i] == rest[i - 1]);
                            }
                        }
                        assert forall|i: int| 0 <= i < found.len() - 1 implies (
                        #[trigger] found[i]).2 == found[i + 1].1 by {
                            assert(found[i + 1] == rest[i]);
                            if i > 0 {
                                assert(found[i] == rest[i - 1]);
                            }
                        }
                        if rest.len() > 0 {
                            assert(found.last() == rest.last());
                        }
                    },
                    Err(_) => {},
                }
            },
            Err(_) => {},
        }
    }
}

/// A text that is not empty takes at least one byte.
pub proof fn lemma_positive(text: Seq<char>)
    requires
        text.len() > 0,
    ensures
        encode_utf8(text).len() > 0,
{
}

} // verus!
