//! The parser: from tokens to a typed tree.

use vstd::prelude::*;

pub mod nodes;
pub mod operators;
pub mod yard;

use self::nodes::boolean::NodeBoolean;
use self::nodes::cidr::NodeCidr;
use self::nodes::int64::NodeInt64;
use self::nodes::ip::NodeIp;
use self::nodes::regex::NodeRegex;
use self::nodes::string::NodeString;
use self::nodes::uint64::NodeUint64;
use self::nodes::Node;
use self::operators::{Associativity, BinaryOperator, Operator, ScopeOperator, UnaryOperator};
use self::yard::{
    close, empty, integer, keyword, lemma_parsed_typed, parsed, parsed_boolean, reduce, step,
    steps, unwind, variable, yields, Keyword, Yard,
};
use crate::lex::util::{parse_decimal, skip_digits};
use crate::lex::Token;
use crate::text::str_eq;
use crate::variables::{Schema, Variable};
use core::ops::Range;

verus! {

/// Why a sequence of tokens spells no tree.
#[allow(inconsistent_fields)]
#[derive(Debug)]
pub enum Error {
    /// A name is neither a keyword nor a field of the schema.
    UnknownIdentifier(String),
    /// A binary operator does not take operands of these types.
    BadBinaryOperands { operator: BinaryOperator, left: Node, right: Node },
    /// A unary operator does not take an operand of this type.
    BadUnaryOperands { operator: UnaryOperator, node: Node },
    /// A sign stands where a binary operator must, and is none.
    UnknownBinaryOperator(String),
    /// A sign stands where a unary operator must, and is none.
    UnknownUnaryOperator(String),
    /// An operator lacks an operand.
    MissingOperand,
    /// More than one tree is left at the end.
    Unfinished,
    /// There is no tree at all.
    Empty,
    /// A parenthesis closes what none opened.
    NonexistentScopeClose,
    /// The tree is no predicate.
    NotBoolean,
    /// A token is reserved, as a duration is, or spells a number too large
    /// for 64 bits.
    BadSyntax,
}

/// A parsed expression: a tree with root `R`, whose variables are fields of
/// the schema it was parsed against.
#[derive(Debug)]
pub struct Ast<R> {
    pub(crate) root: R,
}

impl<R> View for Ast<R> {
    type V = R;

    /// The root of the tree.
    closed spec fn view(&self) -> R {
        self.root
    }
}

impl<R> Ast<R> {
    /// The root of the tree.
    pub fn get_root(&self) -> (root: &R)
        ensures
            *root == self@,
    {
        &self.root
    }

    /// The tree, by its root.
    pub fn into_root(self) -> (root: R)
        ensures
            root == self@,
    {
        self.root
    }
}

fn get_keyword(name: &str) -> (found: Option<Keyword>)
    ensures
        found == keyword(name@),
{
    if str_eq(name, "true") {
        Some(Keyword::Operand(Node::Boolean(NodeBoolean::Constant(true))))
    } else if str_eq(name, "false") {
        Some(Keyword::Operand(Node::Boolean(NodeBoolean::Constant(false))))
    } else if str_eq(name, "and") {
        Some(Keyword::Operator(Operator::Binary(BinaryOperator::Both)))
    } else if str_eq(name, "or") {
        Some(Keyword::Operator(Operator::Binary(BinaryOperator::Either)))
    } else if str_eq(name, "in") {
        Some(Keyword::Operator(Operator::Binary(BinaryOperator::Within)))
    } else {
        None
    }
}

/// Lets `operator` take its operands from the top of the stack and leave its
/// node there.
fn apply(operator: Operator, operands: &mut Vec<Node>) -> (done: Result<(), Error>)
    ensures
        match reduce(operator, old(operands)@) {
            Ok(reduced) => done is Ok && final(operands)@ == reduced,
            Err(error) => done == Err::<(), Error>(error),
        },
{
    match operator {
        Operator::Scope(_) => Ok(()),
        Operator::Binary(operator) => {
            let right = match operands.pop() {
                Some(right) => right,
                None => {
                    return Err(Error::MissingOperand);
                },
            };
            let left = match operands.pop() {
                Some(left) => left,
                None => {
                    return Err(Error::MissingOperand);
                },
            };
            match operator.to_node(left, right) {
                Ok(node) => {
                    operands.push(node);
                    assert(operands@ =~= old(operands)@.subrange(
                        0,
                        old(operands)@.len() - 2,
                    ).push(node));
                    Ok(())
                },
                Err((left, right)) => Err(Error::BadBinaryOperands { operator, left, right }),
            }
        },
        Operator::Unary(operator) => {
            let node = match operands.pop() {
                Some(node) => node,
                None => {
                    return Err(Error::MissingOperand);
                },
            };
            match operator.to_node(node) {
                Ok(node) => {
                    operands.push(node);
                    assert(operands@ =~= old(operands)@.subrange(
                        0,
                        old(operands)@.len() - 1,
                    ).push(node));
                    Ok(())
                },
                Err(node) => Err(Error::BadUnaryOperands { operator, node }),
            }
        },
    }
}

/// Applies every operator on top of the stack that yields to `new_operator`.
fn pop_ops(
    new_operator: &Operator,
    operators: &mut Vec<Operator>,
    operands: &mut Vec<Node>,
) -> (done: Result<(), Error>)
    ensures
        match unwind(*new_operator, old(operators)@, old(operands)@) {
            Ok((left, reduced)) => done is Ok && final(operators)@ == left && final(operands)@
                == reduced,
            Err(error) => done == Err::<(), Error>(error),
        },
{
    while operators.len() > 0
        invariant
            unwind(*new_operator, old(operators)@, old(operands)@) == unwind(
                *new_operator,
                operators@,
                operands@,
            ),
        decreases operators@.len(),
    {
        let operator = operators[operators.len() - 1];
        let applies = match operator.associativity() {
            Associativity::Left => operator.specificity() >= new_operator.specificity(),
            Associativity::Right => operator.specificity() > new_operator.specificity(),
        };
        if !applies {
            return Ok(());
        }
        operators.pop();
        match apply(operator, operands) {
            Ok(()) => {},
            Err(error) => {
                return Err(error);
            },
        }
    }
    Ok(())
}

/// Applies every operator above the last open parenthesis, and takes that
/// parenthesis away.
fn close_scope(operators: &mut Vec<Operator>, operands: &mut Vec<Node>) -> (done: Result<(), Error>)
    ensures
        match close(old(operators)@, old(operands)@) {
            Ok((left, reduced)) => done is Ok && final(operators)@ == left && final(operands)@
                == reduced,
            Err(error) => done == Err::<(), Error>(error),
        },
{
    while operators.len() > 0
        invariant
            close(old(operators)@, old(operands)@) == close(operators@, operands@),
        decreases operators@.len(),
    {
        let operator = match operators.pop() {
            Some(operator) => operator,
            None => {
                return Err(Error::NonexistentScopeClose);
            },
        };
        match operator {
            Operator::Scope(_) => {
                return Ok(());
            },
            _ => {},
        }
        match apply(operator, operands) {
            Ok(()) => {},
            Err(error) => {
                return Err(error);
            },
        }
    }
    Err(Error::NonexistentScopeClose)
}

/// The number that the integer part of a number token spells, where it fits
/// 64 bits.
fn parse_integer(digits: &String) -> (value: Option<u64>)
    ensures
        match value {
            Some(number) => number == integer(digits@),
            None => integer(digits@) > u64::MAX,
        },
{
    let mut chars: Vec<char> = Vec::new();
    for c in it: digits.as_str().chars()
        invariant
            chars@ == it.seq().take(it.index() as int),
            it.seq() == digits@,
    {
        chars.push(c);
    }
    assert(chars@ =~= digits@);
    let end = skip_digits(&chars, 0);
    parse_decimal(&chars, 0, end)
}

/// The node of the field `name` of type `kind`.
fn make_variable(name: String, kind: Variable) -> (node: Node)
    ensures
        node == variable(name, kind),
{
    match kind {
        Variable::Boolean => Node::Boolean(NodeBoolean::Variable { name }),
        Variable::Cidr => Node::Cidr(NodeCidr::Variable { name }),
        Variable::Int64 => Node::Int64(NodeInt64::Variable { name }),
        Variable::Ip => Node::Ip(NodeIp::Variable { name }),
        Variable::String => Node::String(NodeString::Variable { name }),
        Variable::Uint64 => Node::Uint64(NodeUint64::Variable { name }),
        Variable::Regex => Node::Regex(NodeRegex::Variable { name }),
    }
}

/// The tokens of a list of tokens with their spans.
pub open spec fn bare(tokens: Seq<(Token, Range<usize>)>) -> Seq<Token> {
    Seq::new(tokens.len(), |i: int| tokens[i].0)
}

/// What stands on the two stacks, as a yard.
pub open spec fn yard_of(
    operators: Seq<Operator>,
    operands: Seq<Node>,
    last_was_operand: bool,
) -> Yard {
    Yard { operators, operands, last_was_operand }
}

fn parse_inner(tokens: Vec<(Token, Range<usize>)>, variables: &Schema) -> (root: Result<
    Node,
    Error,
>)
    ensures
        root == parsed(bare(tokens@), variables@),
        root matches Ok(tree) ==> tree.typed(variables@),
{
    proof {
        lemma_parsed_typed(bare(tokens@), variables@);
    }
    let ghost list = bare(tokens@);
    let ghost batch = tokens@;
    let ghost fields = variables@;
    let mut operands: Vec<Node> = Vec::new();
    let mut operators: Vec<Operator> = Vec::new();
    let mut last_was_operand = false;
    assert(yard_of(operators@, operands@, last_was_operand) =~= empty());
    for item in it: tokens
        invariant
            it.seq() == batch,
            list == bare(batch),
            fields == variables@,
            steps(empty(), list, 0, fields) == steps(
                yard_of(operators@, operands@, last_was_operand),
                list,
                it.index() as int,
                fields,
            ),
    {
        let ghost yard = yard_of(operators@, operands@, last_was_operand);
        assert(list[it.index() as int] == item.0);
        let (token, _span) = item;
        let operand = match token {
            Token::String(value) => Some(Node::String(NodeString::Constant(value))),
            Token::Number(value) => match parse_integer(&value) {
                Some(number) => Some(Node::Uint64(NodeUint64::Constant(number))),
                None => {
                    return Err(Error::BadSyntax);
                },
            },
            Token::Ip(value) => Some(Node::Ip(NodeIp::Constant(value))),
            Token::Cidr(value) => Some(Node::Cidr(NodeCidr::Constant(value))),
            Token::Regex(value) => Some(Node::Regex(NodeRegex::Constant(value))),
            Token::Identifier(name) => {
                match get_keyword(name.as_str()) {
                    Some(Keyword::Operand(operand)) => Some(operand),
                    Some(Keyword::Operator(operator)) => {
                        match pop_ops(&operator, &mut operators, &mut operands) {
                            Ok(()) => {},
                            Err(error) => {
                                return Err(error);
                            },
                        }
                        operators.push(operator);
                        last_was_operand = false;
                        None
                    },
                    None => match variables.find(name.as_str()) {
                        Some(index) => {
                            let kind = variables.kind(index);
                            Some(make_variable(name, kind))
                        },
                        None => {
                            return Err(Error::UnknownIdentifier(name));
                        },
                    },
                }
            },
            Token::ParenthesisOpen => {
                last_was_operand = false;
                operators.push(Operator::Scope(ScopeOperator::Open('(')));
                None
            },
            Token::ParenthesisClose => {
                last_was_operand = true;
                match close_scope(&mut operators, &mut operands) {
                    Ok(()) => {},
                    Err(error) => {
                        return Err(error);
                    },
                }
                None
            },
            Token::Operator(operator) => {
                let operator = if last_was_operand {
                    match BinaryOperator::parse(operator.as_str()) {
                        Some(found) => Operator::Binary(found),
                        None => {
                            return Err(Error::UnknownBinaryOperator(operator));
                        },
                    }
                } else {
                    match UnaryOperator::parse(operator.as_str()) {
                        Some(found) => Operator::Unary(found),
                        None => {
                            return Err(Error::UnknownUnaryOperator(operator));
                        },
                    }
                };
                match pop_ops(&operator, &mut operators, &mut operands) {
                    Ok(()) => {},
                    Err(error) => {
                        return Err(error);
                    },
                }
                operators.push(operator);
                last_was_operand = false;
                None
            },
            Token::Space(_) => None,
            Token::Duration(_) => {
                return Err(Error::BadSyntax);
            },
        };
        if let Some(operand) = operand {
            last_was_operand = true;
            operands.push(operand);
        }
        assert(step(yard, list[it.index() as int], fields) == Ok::<Yard, Error>(
            yard_of(operators@, operands@, last_was_operand),
        ));
    }
    match pop_ops(&Operator::Scope(ScopeOperator::Close), &mut operators, &mut operands) {
        Ok(()) => {},
        Err(error) => {
            return Err(error);
        },
    }
    match operands.pop() {
        Some(root) => {
            if operands.len() > 0 {
                Err(Error::Unfinished)
            } else {
                Ok(root)
            }
        },
        None => Err(Error::Empty),
    }
}

/// The tree that `tokens` spell over the schema `variables`. Its variables
/// are fields of the schema, each of the type that its place asks for.
pub fn parse(tokens: Vec<(Token, Range<usize>)>, variables: &Schema) -> (tree: Result<
    Ast<Node>,
    Error,
>)
    ensures
        match parsed(bare(tokens@), variables@) {
            Ok(root) => tree matches Ok(ast) && ast@ == root && root.typed(variables@),
            Err(error) => tree matches Err(found) && found == error,
        },
{
    match parse_inner(tokens, variables) {
        Ok(root) => Ok(Ast { root }),
        Err(error) => Err(error),
    }
}

/// The predicate that `tokens` spell over the schema `variables`. A tree of
/// another type is refused.
pub fn parse_boolean(tokens: Vec<(Token, Range<usize>)>, variables: &Schema) -> (tree: Result<
    Ast<NodeBoolean>,
    Error,
>)
    ensures
        match parsed_boolean(bare(tokens@), variables@) {
            Ok(root) => tree matches Ok(ast) && ast@ == root && root.typed(variables@),
            Err(error) => tree matches Err(found) && found == error,
        },
{
    proof {
        lemma_parsed_typed(bare(tokens@), variables@);
    }
    match parse_inner(tokens, variables) {
        Ok(Node::Boolean(root)) => Ok(Ast { root }),
        Ok(_) => Err(Error::NotBoolean),
        Err(error) => Err(error),
    }
}

} // verus!
