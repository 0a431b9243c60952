//! The shunting yard as mathematics: what the parser makes of a sequence of
//! tokens, step by step over a stack of operators and a stack of operands.

use vstd::prelude::*;
use super::nodes::boolean::NodeBoolean;
use super::nodes::cidr::NodeCidr;
use super::nodes::int64::NodeInt64;
use super::nodes::ip::NodeIp;
use super::nodes::regex::NodeRegex;
use super::nodes::string::NodeString;
use super::nodes::uint64::NodeUint64;
use super::nodes::Node;
use super::operators::{Associativity, BinaryOperator, Operator, ScopeOperator, UnaryOperator};
use super::Error;
use crate::lex::grammar::{decimal, digits_end};
use crate::lex::Token;
use crate::variables::{kind_of, Fields, Variable};

verus! {

/// What a name means that is no field: a constant or an operator.
pub enum Keyword {
    Operand(Node),
    Operator(Operator),
}

/// The meaning of `name` where it is a keyword.
pub open spec fn keyword(name: Seq<char>) -> Option<Keyword> {
    if name == "true"@ {
        Some(Keyword::Operand(Node::Boolean(NodeBoolean::Constant(true))))
    } else if name == "false"@ {
        Some(Keyword::Operand(Node::Boolean(NodeBoolean::Constant(false))))
    } else if name == "and"@ {
        Some(Keyword::Operator(Operator::Binary(BinaryOperator::Both)))
    } else if name == "or"@ {
        Some(Keyword::Operator(Operator::Binary(BinaryOperator::Either)))
    } else if name == "in"@ {
        Some(Keyword::Operator(Operator::Binary(BinaryOperator::Within)))
    } else {
        None
    }
}

/// The node of the field `name` of type `kind`.
pub open spec fn variable(name: String, kind: Variable) -> Node {
    match kind {
        Variable::Boolean => Node::Boolean(NodeBoolean::Variable { name }),
        Variable::Cidr => Node::Cidr(NodeCidr::Variable { name }),
        Variable::Int64 => Node::Int64(NodeInt64::Variable { name }),
        Variable::Ip => Node::Ip(NodeIp::Variable { name }),
        Variable::String => Node::String(NodeString::Variable { name }),
        Variable::Uint64 => Node::Uint64(NodeUint64::Variable { name }),
        Variable::Regex => Node::Regex(NodeRegex::Variable { name }),
    }
}

/// The number that the integer part of a number token spells: the digits it
/// starts with.
pub open spec fn integer(digits: Seq<char>) -> nat {
    decimal(digits.subrange(0, digits_end(digits, 0)))
}

/// The two stacks of the shunting yard, and whether the token before was an
/// operand, which tells a binary sign from a unary one.
pub struct Yard {
    pub operators: Seq<Operator>,
    pub operands: Seq<Node>,
    pub last_was_operand: bool,
}

/// Whether the operator `top` on the stack is applied before `new` is pushed:
/// it binds tighter, or as tight and groups to the left.
pub open spec fn yields(top: Operator, new: Operator) -> bool {
    match top.grouping() {
        Associativity::Left => top.precedence() >= new.precedence(),
        Associativity::Right => top.precedence() > new.precedence(),
    }
}

/// The operands after `operator` has taken its operands from the top and
/// left its node there.
pub open spec fn reduce(operator: Operator, operands: Seq<Node>) -> Result<Seq<Node>, Error> {
    match operator {
        Operator::Binary(operator) => if operands.len() < 2 {
            Err(Error::MissingOperand)
        } else {
            let right = operands[operands.len() - 1];
            let left = operands[operands.len() - 2];
            match operator.applied(left, right) {
                Ok(node) => Ok(operands.subrange(0, operands.len() - 2).push(node)),
                Err((left, right)) => Err(Error::BadBinaryOperands { operator, left, right }),
            }
        },
        Operator::Unary(operator) => if operands.len() < 1 {
            Err(Error::MissingOperand)
        } else {
            match operator.applied(operands[operands.len() - 1]) {
                Ok(node) => Ok(operands.subrange(0, operands.len() - 1).push(node)),
                Err(node) => Err(Error::BadUnaryOperands { operator, node }),
            }
        },
        Operator::Scope(_) => Ok(operands),
    }
}

/// The stacks after every operator on top that yields to `new` has been
/// applied. An open parenthesis yields to nothing.
pub open spec fn unwind(new: Operator, operators: Seq<Operator>, operands: Seq<Node>) -> Result<
    (Seq<Operator>, Seq<Node>),
    Error,
>
    decreases operators.len(),
{
    if operators.len() == 0 || !yields(operators.last(), new) {
        Ok((operators, operands))
    } else {
        match reduce(operators.last(), operands) {
            Ok(reduced) => unwind(new, operators.drop_last(), reduced),
            Err(error) => Err(error),
        }
    }
}

/// The stacks after a closing parenthesis: every operator above the last
/// open parenthesis has been applied, and that parenthesis is gone.
pub open spec fn close(operators: Seq<Operator>, operands: Seq<Node>) -> Result<
    (Seq<Operator>, Seq<Node>),
    Error,
>
    decreases operators.len(),
{
    if operators.len() == 0 {
        Err(Error::NonexistentScopeClose)
    } else if operators.last() is Scope {
        Ok((operators.drop_last(), operands))
    } else {
        match reduce(operators.last(), operands) {
            Ok(reduced) => close(operators.drop_last(), reduced),
            Err(error) => Err(error),
        }
    }
}

/// The yard after the operand `node`.
pub open spec fn shift(yard: Yard, node: Node) -> Result<Yard, Error> {
    Ok(Yard { operands: yard.operands.push(node), last_was_operand: true, ..yard })
}

/// The yard after the operator `operator`.
pub open spec fn engage(yard: Yard, operator: Operator) -> Result<Yard, Error> {
    match unwind(operator, yard.operators, yard.operands) {
        Ok((operators, operands)) => Ok(
            Yard { operators: operators.push(operator), operands, last_was_operand: false },
        ),
        Err(error) => Err(error),
    }
}

/// The yard after `token`.
pub open spec fn step(yard: Yard, token: Token, fields: Fields) -> Result<Yard, Error> {
    match token {
        Token::String(value) => shift(yard, Node::String(NodeString::Constant(value))),
        Token::Number(value) => if integer(value@) <= u64::MAX {
            shift(yard, Node::Uint64(NodeUint64::Constant(integer(value@) as u64)))
        } else {
            Err(Error::BadSyntax)
        },
        Token::Ip(value) => shift(yard, Node::Ip(NodeIp::Constant(value))),
        Token::Cidr(value) => shift(yard, Node::Cidr(NodeCidr::Constant(value))),
        Token::Regex(value) => shift(yard, Node::Regex(NodeRegex::Constant(value))),
        Token::Identifier(name) => match keyword(name@) {
            Some(Keyword::Operand(node)) => shift(yard, node),
            Some(Keyword::Operator(operator)) => engage(yard, operator),
            None => match kind_of(fields, name@) {
                Some(kind) => shift(yard, variable(name, kind)),
                None => Err(Error::UnknownIdentifier(name)),
            },
        },
        Token::ParenthesisOpen => Ok(
            Yard {
                operators: yard.operators.push(Operator::Scope(ScopeOperator::Open('('))),
                last_was_operand: false,
                ..yard
            },
        ),
        Token::ParenthesisClose => match close(yard.operators, yard.operands) {
            Ok((operators, operands)) => Ok(Yard { operators, operands, last_was_operand: true }),
            Err(error) => Err(error),
        },
        Token::Operator(sign) => if yard.last_was_operand {
            match BinaryOperator::spelled(sign@) {
                Some(operator) => engage(yard, Operator::Binary(operator)),
                None => Err(Error::UnknownBinaryOperator(sign)),
            }
        } else {
            match UnaryOperator::spelled(sign@) {
                Some(operator) => engage(yard, Operator::Unary(operator)),
                None => Err(Error::UnknownUnaryOperator(sign)),
            }
        },
        Token::Space(_) => Ok(yard),
        Token::Duration(_) => Err(Error::BadSyntax),
    }
}

/// The yard after the tokens from `index` on.
pub open spec fn steps(yard: Yard, tokens: Seq<Token>, index: int, fields: Fields) -> Result<
    Yard,
    Error,
>
    decreases tokens.len() - index,
{
    if index < 0 || index >= tokens.len() {
        Ok(yard)
    } else {
        match step(yard, tokens[index], fields) {
            Ok(next) => steps(next, tokens, index + 1, fields),
            Err(error) => Err(error),
        }
    }
}

/// The yard before the first token.
pub open spec fn empty() -> Yard {
    Yard { operators: Seq::empty(), operands: Seq::empty(), last_was_operand: false }
}

/// The root that is left when the operators that remain have been applied,
/// down to an open parenthesis that was never closed.
pub open spec fn finish(yard: Yard) -> Result<Node, Error> {
    match unwind(Operator::Scope(ScopeOperator::Close), yard.operators, yard.operands) {
        Ok((_, operands)) => if operands.len() == 0 {
            Err(Error::Empty)
        } else if operands.len() > 1 {
            Err(Error::Unfinished)
        } else {
            Ok(operands[0])
        },
        Err(error) => Err(error),
    }
}

/// The tree that the tokens spell over `fields`, or why they spell none.
pub open spec fn parsed(tokens: Seq<Token>, fields: Fields) -> Result<Node, Error> {
    match steps(empty(), tokens, 0, fields) {
        Ok(yard) => finish(yard),
        Err(error) => Err(error),
    }
}

/// The boolean tree that the tokens spell over `fields`, or why they spell
/// none.
pub open spec fn parsed_boolean(tokens: Seq<Token>, fields: Fields) -> Result<NodeBoolean, Error> {
    match parsed(tokens, fields) {
        Ok(Node::Boolean(root)) => Ok(root),
        Ok(_) => Err(Error::NotBoolean),
        Err(error) => Err(error),
    }
}

/// Whether every operand is typed over `fields`.
pub open spec fn all_typed(operands: Seq<Node>, fields: Fields) -> bool {
    forall|i: int| 0 <= i < operands.len() ==> (#[trigger] operands[i]).typed(fields)
}

pub proof fn lemma_reduce_typed(operator: Operator, operands: Seq<Node>, fields: Fields)
    requires
        all_typed(operands, fields),
    ensures
        reduce(operator, operands) matches Ok(reduced) ==> all_typed(reduced, fields),
{
    match reduce(operator, operands) {
        Ok(reduced) => {
            assert forall|i: int| 0 <= i < reduced.len() implies (#[trigger] reduced[i]).typed(
                fields,
            ) by {
                if i < reduced.len() - 1 {
                    assert(reduced[i] == operands[i]);
                } else {
                    match operator {
                        Operator::Binary(operator) => {
                            assert(operands[operands.len() - 1].typed(fields));
                            assert(operands[operands.len() - 2].typed(fields));
                        },
                        Operator::Unary(operator) => {
                            assert(operands[operands.len() - 1].typed(fields));
                        },
                        Operator::Scope(_) => {},
                    }
                }
            }
        },
        Err(_) => {},
    }
}

pub proof fn lemma_unwind_typed(
    new: Operator,
    operators: Seq<Operator>,
    operands: Seq<Node>,
    fields: Fields,
)
    requires
        all_typed(operands, fields),
    ensures
        unwind(new, operators, operands) matches Ok((_, reduced)) ==> all_typed(reduced, fields),
    decreases operators.len(),
{
    if operators.len() > 0 && yields(operators.last(), new) {
        lemma_reduce_typed(operators.last(), operands, fields);
        match reduce(operators.last(), operands) {
            Ok(reduced) => lemma_unwind_typed(new, operators.drop_last(), reduced, fields),
            Err(_) => {},
        }
    }
}

pub proof fn lemma_close_typed(operators: Seq<Operator>, operands: Seq<Node>, fields: Fields)
    requires
        all_typed(operands, fields),
    ensures
        close(operators, operands) matches Ok((_, reduced)) ==> all_typed(reduced, fields),
    decreases operators.len(),
{
    if operators.len() > 0 && !(operators.last() is Scope) {
        lemma_reduce_typed(operators.last(), operands, fields);
        match reduce(operators.last(), operands) {
            Ok(reduced) => lemma_close_typed(operators.drop_last(), reduced, fields),
            Err(_) => {},
        }
    }
}

pub proof fn lemma_step_typed(yard: Yard, token: Token, fields: Fields)
    requires
        all_typed(yard.operands, fields),
    ensures
        step(yard, token, fields) matches Ok(next) ==> all_typed(next.operands, fields),
{
    match token {
        Token::Identifier(name) => {
            match keyword(name@) {
                Some(Keyword::Operator(operator)) => {
                    lemma_unwind_typed(operator, yard.operators, yard.operands, fields);
                },
                _ => {},
            }
        },
        Token::ParenthesisClose => {
            lemma_close_typed(yard.operators, yard.operands, fields);
        },
        Token::Operator(sign) => {
            if yard.last_was_operand {
                match BinaryOperator::spelled(sign@) {
                    Some(operator) => lemma_unwind_typed(
                        Operator::Binary(operator),
                        yard.operators,
                        yard.operands,
                        fields,
                    ),
                    None => {},
                }
            } else {
                match UnaryOperator::spelled(sign@) {
                    Some(operator) => lemma_unwind_typed(
                        Operator::Unary(operator),
                        yard.operators,
                        yard.operands,
                        fields,
                    ),
                    None => {},
                }
            }
        },
        _ => {},
    }
}

pub proof fn lemma_steps_typed(yard: Yard, tokens: Seq<Token>, index: int, fields: Fields)
    requires
        all_typed(yard.operands, fields),
    ensures
        steps(yard, tokens, index, fields) matches Ok(next) ==> all_typed(next.operands, fields),
    decreases tokens.len() - index,
{
    if 0 <= index < tokens.len() {
        lemma_step_typed(yard, tokens[index], fields);
        match step(yard, tokens[index], fields) {
            Ok(next) => lemma_steps_typed(next, tokens, index + 1, fields),
            Err(_) => {},
        }
    }
}

/// Every variable of a parsed tree names a field of the schema, of the type
/// that its place in the tree asks for.
pub proof fn lemma_parsed_typed(tokens: Seq<Token>, fields: Fields)
    ensures
        parsed(tokens, fields) matches Ok(root) ==> root.typed(fields),
        parsed_boolean(tokens, fields) matches Ok(root) ==> root.typed(fields),
{
    lemma_steps_typed(empty(), tokens, 0, fields);
    match steps(empty(), tokens, 0, fields) {
        Ok(yard) => {
            lemma_unwind_typed(
                Operator::Scope(ScopeOperator::Close),
                yard.operators,
                yard.operands,
                fields,
            );
        },
        Err(_) => {},
    }
}

} // verus!
