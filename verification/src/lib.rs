//! A small expression language for matching many boolean predicates against
//! typed records: a lexer, a typed shunting-yard parser, a compiler to a flat
//! instruction stream and an evaluator of that stream.

use vstd::prelude::*;
use vstd::std_specs::convert::FromSpecImpl;
use core::ops::Range;

pub mod address;
pub mod compile;
pub mod lex;
pub mod parse;
pub mod pattern;
pub mod text;
pub mod variables;

pub use crate::compile::{compile, compile_unsafe, Engine};
pub use crate::parse::{nodes::boolean::NodeBoolean, Ast};

use crate::lex::{spanned, tokens, Token};
use crate::parse::yard::parsed_boolean;
use crate::parse::bare;
use crate::variables::{Fields, Schema};

verus! {

/// Why a text is no predicate: it is no sequence of tokens, or its tokens
/// spell no predicate.
#[derive(Debug)]
pub enum ParseError {
    Lex(crate::lex::Error),
    Parse(crate::parse::Error),
}

impl From<crate::lex::Error> for ParseError {
    fn from(value: crate::lex::Error) -> (error: Self) {
        Self::Lex(value)
    }
}

impl FromSpecImpl<crate::lex::Error> for ParseError {
    open spec fn obeys_from_spec() -> bool {
        true
    }

    open spec fn from_spec(value: crate::lex::Error) -> Self {
        Self::Lex(value)
    }
}

impl From<crate::parse::Error> for ParseError {
    fn from(value: crate::parse::Error) -> (error: Self) {
        Self::Parse(value)
    }
}

impl FromSpecImpl<crate::parse::Error> for ParseError {
    open spec fn obeys_from_spec() -> bool {
        true
    }

    open spec fn from_spec(value: crate::parse::Error) -> Self {
        Self::Parse(value)
    }
}

/// Whether `outcome` is what reading `expression` as a predicate over
/// `fields` gives: the fault of the lexer where the text is no sequence of
/// tokens, and else what the parser makes of its tokens.
pub open spec fn reads(
    expression: Seq<char>,
    fields: Fields,
    outcome: Result<Ast<NodeBoolean>, ParseError>,
) -> bool {
    match tokens(expression, 0) {
        Err(fault) => outcome matches Err(ParseError::Lex(error)) && error@ == fault,
        Ok(expected) => exists|list: Seq<(Token, Range<usize>)>|
            #![trigger spanned(list)]
            spanned(list) == expected && match parsed_boolean(bare(list), fields) {
                Ok(root) => outcome matches Ok(ast) && ast@ == root && root.typed(fields),
                Err(error) => outcome matches Err(ParseError::Parse(found)) && found == error,
            },
    }
}

/// Reads `expression` as a predicate over the schema `variables`.
pub fn parse(expression: &str, variables: &Schema) -> (outcome: Result<
    Ast<NodeBoolean>,
    ParseError,
>)
    ensures
        reads(expression@, variables@, outcome),
{
    let list = match crate::lex::lex(expression) {
        Ok(list) => list,
        Err(error) => {
            return Err(ParseError::from(error));
        },
    };
    let ghost found = list@;
    assert(spanned(found) == tokens(expression@, 0)->Ok_0);
    match crate::parse::parse_boolean(list, variables) {
        Ok(ast) => Ok(ast),
        Err(error) => Err(ParseError::from(error)),
    }
}

} // verus!
