//! The operators of the language, their precedence and the nodes they build.

use vstd::prelude::*;
use super::nodes::boolean::{
    NodeBoolean, NodeBooleanBoth, NodeBooleanEither, NodeBooleanEquals, NodeBooleanMatches,
    NodeBooleanNot, NodeBooleanWithin,
};
use super::nodes::int64::{NodeInt64, NodeInt64Negative};
use super::nodes::string::{NodeString, NodeStringAdd};
use super::nodes::uint64::{NodeUint64, NodeUint64Add, NodeUint64Subtract};
use super::nodes::Node;
use crate::text::str_eq;

verus! {

/// An operator with one operand.
#[derive(Clone, Copy, Debug, PartialEq, Eq, Structural)]
pub enum UnaryOperator {
    Negative,
    Not,
    Positive,
}

/// An operator with two operands. The arithmetic operators beyond `+` and
/// `-` have their place in the order of precedence, and build no node.
#[derive(Clone, Copy, Debug, PartialEq, Eq, Structural)]
pub enum BinaryOperator {
    Exponent,
    Multiply,
    Divide,
    Modulo,
    Both,
    Either,
    Add,
    Subtract,
    Within,
    Equals,
    Matches,
}

/// A parenthesis.
#[derive(Clone, Copy, Debug, PartialEq, Eq, Structural)]
pub enum ScopeOperator {
    Open(char),
    Close,
}

/// What can stand on the stack of operators.
#[derive(Clone, Copy, Debug, PartialEq, Eq, Structural)]
pub enum Operator {
    Unary(UnaryOperator),
    Binary(BinaryOperator),
    Scope(ScopeOperator),
}

/// Why an operator builds no node.
#[derive(Clone, Copy, Debug, PartialEq, Eq, Structural)]
pub enum Error {
    UnknownOperator,
    BadOperands,
}

/// The side to which operators of equal precedence group.
#[derive(Clone, Copy, Debug, PartialEq, Eq, Structural)]
pub enum Associativity {
    Left,
    Right,
}

impl UnaryOperator {
    /// The unary operator that `token` spells.
    pub open spec fn spelled(token: Seq<char>) -> Option<UnaryOperator> {
        if token == "!"@ {
            Some(UnaryOperator::Not)
        } else if token == "+"@ {
            Some(UnaryOperator::Positive)
        } else if token == "-"@ {
            Some(UnaryOperator::Negative)
        } else {
            None
        }
    }

    /// The node that the operator builds over `node`, or the operand back
    /// where its type is not one the operator takes.
    pub open spec fn applied(self, node: Node) -> Result<Node, Node> {
        match (self, node) {
            (UnaryOperator::Not, Node::Boolean(inner)) => Ok(
                Node::Boolean(NodeBoolean::Not(NodeBooleanNot::Boolean(Box::new(inner)))),
            ),
            (UnaryOperator::Positive, Node::Uint64(inner)) => Ok(Node::Uint64(inner)),
            (UnaryOperator::Negative, Node::Uint64(inner)) => Ok(
                Node::Int64(NodeInt64::Negative(NodeInt64Negative::Uint64(Box::new(inner)))),
            ),
            (_, node) => Err(node),
        }
    }

    /// The unary operator that `token` spells.
    pub fn parse(token: &str) -> (operator: Option<Self>)
        ensures
            operator == Self::spelled(token@),
    {
        if str_eq(token, "!") {
            Some(Self::Not)
        } else if str_eq(token, "+") {
            Some(Self::Positive)
        } else if str_eq(token, "-") {
            Some(Self::Negative)
        } else {
            None
        }
    }

    /// The node that the operator builds over `node`, or the operand back
    /// where its type is not one the operator takes.
    pub fn to_node(&self, node: Node) -> (built: Result<Node, Node>)
        ensures
            built == self.applied(node),
    {
        match self {
            Self::Not => match node {
                Node::Boolean(node) => Ok(
                    Node::Boolean(NodeBoolean::Not(NodeBooleanNot::Boolean(Box::new(node)))),
                ),
                node => Err(node),
            },
            Self::Positive => match node {
                Node::Uint64(node) => Ok(Node::Uint64(node)),
                node => Err(node),
            },
            Self::Negative => match node {
                Node::Uint64(node) => Ok(
                    Node::Int64(NodeInt64::Negative(NodeInt64Negative::Uint64(Box::new(node)))),
                ),
                node => Err(node),
            },
        }
    }
}

impl BinaryOperator {
    /// The binary operator that `token` spells.
    pub open spec fn spelled(token: Seq<char>) -> Option<BinaryOperator> {
        if token == "**"@ {
            Some(BinaryOperator::Exponent)
        } else if token == "&&"@ {
            Some(BinaryOperator::Both)
        } else if token == "||"@ {
            Some(BinaryOperator::Either)
        } else if token == "=="@ {
            Some(BinaryOperator::Equals)
        } else if token == "+"@ {
            Some(BinaryOperator::Add)
        } else if token == "-"@ {
            Some(BinaryOperator::Subtract)
        } else if token == "~"@ {
            Some(BinaryOperator::Matches)
        } else {
            None
        }
    }

    /// The node that the operator builds over `left` and `right`, or the two
    /// operands back where their types are not a pair the operator takes.
    pub open spec fn applied(self, left: Node, right: Node) -> Result<Node, (Node, Node)> {
        match (self, left, right) {
            (BinaryOperator::Both, Node::Boolean(left), Node::Boolean(right)) => Ok(
                Node::Boolean(
                    NodeBoolean::Both(
                        NodeBooleanBoth::BooleanBoolean {
                            left: Box::new(left),
                            right: Box::new(right),
                        },
                    ),
                ),
            ),
            (BinaryOperator::Either, Node::Boolean(left), Node::Boolean(right)) => Ok(
                Node::Boolean(
                    NodeBoolean::Either(
                        NodeBooleanEither::BooleanBoolean {
                            left: Box::new(left),
                            right: Box::new(right),
                        },
                    ),
                ),
            ),
            (BinaryOperator::Equals, Node::Boolean(left), Node::Boolean(right)) => Ok(
                Node::Boolean(
                    NodeBoolean::Equals(
                        NodeBooleanEquals::BooleanBoolean {
                            left: Box::new(left),
                            right: Box::new(right),
                        },
                    ),
                ),
            ),
            (BinaryOperator::Equals, Node::String(left), Node::String(right)) => Ok(
                Node::Boolean(NodeBoolean::Equals(NodeBooleanEquals::StringString { left, right })),
            ),
            (BinaryOperator::Equals, Node::Uint64(left), Node::Uint64(right)) => Ok(
                Node::Boolean(NodeBoolean::Equals(NodeBooleanEquals::Uint64Uint64 { left, right })),
            ),
            (BinaryOperator::Equals, Node::Int64(left), Node::Int64(right)) => Ok(
                Node::Boolean(NodeBoolean::Equals(NodeBooleanEquals::Int64Int64 { left, right })),
            ),
            (BinaryOperator::Equals, Node::Ip(left), Node::Ip(right)) => Ok(
                Node::Boolean(NodeBoolean::Equals(NodeBooleanEquals::IpIp { left, right })),
            ),
            (BinaryOperator::Add, Node::String(left), Node::String(right)) => Ok(
                Node::String(
                    NodeString::Add(
                        NodeStringAdd::StringString {
                            left: Box::new(left),
                            right: Box::new(right),
                        },
                    ),
                ),
            ),
            (BinaryOperator::Add, Node::Uint64(left), Node::Uint64(right)) => Ok(
                Node::Uint64(
                    NodeUint64::Add(
                        NodeUint64Add::Uint64Uint64 {
                            left: Box::new(left),
                            right: Box::new(right),
                        },
                    ),
                ),
            ),
            (BinaryOperator::Subtract, Node::Uint64(left), Node::Uint64(right)) => Ok(
                Node::Uint64(
                    NodeUint64::Subtract(
                        NodeUint64Subtract::Uint64Uint64 {
                            left: Box::new(left),
                            right: Box::new(right),
                        },
                    ),
                ),
            ),
            (BinaryOperator::Within, Node::Ip(left), Node::Cidr(right)) => Ok(
                Node::Boolean(NodeBoolean::Within(NodeBooleanWithin::IpCidr { left, right })),
            ),
            (BinaryOperator::Matches, Node::String(left), Node::Regex(right)) => Ok(
                Node::Boolean(
                    NodeBoolean::Matches(NodeBooleanMatches::StringRegex { left, right }),
                ),
            ),
            (_, left, right) => Err((left, right)),
        }
    }

    /// The binary operator that `token` spells.
    pub fn parse(token: &str) -> (operator: Option<Self>)
        ensures
            operator == Self::spelled(token@),
    {
        if str_eq(token, "**") {
            Some(Self::Exponent)
        } else if str_eq(token, "&&") {
            Some(Self::Both)
        } else if str_eq(token, "||") {
            Some(Self::Either)
        } else if str_eq(token, "==") {
            Some(Self::Equals)
        } else if str_eq(token, "+") {
            Some(Self::Add)
        } else if str_eq(token, "-") {
            Some(Self::Subtract)
        } else if str_eq(token, "~") {
            Some(Self::Matches)
        } else {
            None
        }
    }

    /// The node that the operator builds over `left` and `right`, or the two
    /// operands back where their types are not a pair the operator takes.
    pub fn to_node(&self, left: Node, right: Node) -> (built: Result<Node, (Node, Node)>)
        ensures
            built == self.applied(left, right),
    {
        match self {
            Self::Both => match (left, right) {
                (Node::Boolean(left), Node::Boolean(right)) => Ok(
                    Node::Boolean(
                        NodeBoolean::Both(
                            NodeBooleanBoth::BooleanBoolean {
                                left: Box::new(left),
                                right: Box::new(right),
                            },
                        ),
                    ),
                ),
                (left, right) => Err((left, right)),
            },
            Self::Either => match (left, right) {
                (Node::Boolean(left), Node::Boolean(right)) => Ok(
                    Node::Boolean(
                        NodeBoolean::Either(
                            NodeBooleanEither::BooleanBoolean {
                                left: Box::new(left),
                                right: Box::new(right),
                            },
                        ),
                    ),
                ),
                (left, right) => Err((left, right)),
            },
            Self::Equals => match (left, right) {
                (Node::Boolean(left), Node::Boolean(right)) => Ok(
                    Node::Boolean(
                        NodeBoolean::Equals(
                            NodeBooleanEquals::BooleanBoolean {
                                left: Box::new(left),
                                right: Box::new(right),
                            },
                        ),
                    ),
                ),
                (Node::String(left), Node::String(right)) => Ok(
                    Node::Boolean(
                        NodeBoolean::Equals(NodeBooleanEquals::StringString { left, right }),
                    ),
                ),
                (Node::Uint64(left), Node::Uint64(right)) => Ok(
                    Node::Boolean(
                        NodeBoolean::Equals(NodeBooleanEquals::Uint64Uint64 { left, right }),
                    ),
                ),
                (Node::Int64(left), Node::Int64(right)) => Ok(
                    Node::Boolean(
                        NodeBoolean::Equals(NodeBooleanEquals::Int64Int64 { left, right }),
                    ),
                ),
                (Node::Ip(left), Node::Ip(right)) => Ok(
                    Node::Boolean(NodeBoolean::Equals(NodeBooleanEquals::IpIp { left, right })),
                ),
                (left, right) => Err((left, right)),
            },
            Self::Add => match (left, right) {
                (Node::String(left), Node::String(right)) => Ok(
                    Node::String(
                        NodeString::Add(
                            NodeStringAdd::StringString {
                                left: Box::new(left),
                                right: Box::new(right),
                            },
                        ),
                    ),
                ),
                (Node::Uint64(left), Node::Uint64(right)) => Ok(
                    Node::Uint64(
                        NodeUint64::Add(
                            NodeUint64Add::Uint64Uint64 {
                                left: Box::new(left),
                                right: Box::new(right),
                            },
                        ),
                    ),
                ),
                (left, right) => Err((left, right)),
            },
            Self::Subtract => match (left, right) {
                (Node::Uint64(left), Node::Uint64(right)) => Ok(
                    Node::Uint64(
                        NodeUint64::Subtract(
                            NodeUint64Subtract::Uint64Uint64 {
                                left: Box::new(left),
                                right: Box::new(right),
                            },
                        ),
                    ),
                ),
                (left, right) => Err((left, right)),
            },
            Self::Within => match (left, right) {
                (Node::Ip(left), Node::Cidr(right)) => Ok(
                    Node::Boolean(NodeBoolean::Within(NodeBooleanWithin::IpCidr { left, right })),
                ),
                (left, right) => Err((left, right)),
            },
            Self::Matches => match (left, right) {
                (Node::String(left), Node::Regex(right)) => Ok(
                    Node::Boolean(
                        NodeBoolean::Matches(NodeBooleanMatches::StringRegex { left, right }),
                    ),
                ),
                (left, right) => Err((left, right)),
            },
            _ => Err((left, right)),
        }
    }
}

impl Operator {
    /// The side to which operators of equal precedence group.
    pub open spec fn grouping(self) -> Associativity {
        match self {
            Operator::Unary(_) | Operator::Scope(_) => Associativity::Right,
            Operator::Binary(BinaryOperator::Exponent) => Associativity::Right,
            Operator::Binary(_) => Associativity::Left,
        }
    }

    /// The precedence of the operator: the higher, the tighter it binds.
    /// From loosest to tightest: a parenthesis; `or`; `and`; `==`; `~` and
    /// `in`; `+` and `-`; `*`, `/` and `%`; `**`; the unary operators.
    pub open spec fn precedence(self) -> u8 {
        match self {
            Operator::Scope(_) => 0,
            Operator::Binary(operator) => match operator {
                BinaryOperator::Either => 1,
                BinaryOperator::Both => 2,
                BinaryOperator::Equals => 3,
                BinaryOperator::Matches | BinaryOperator::Within => 4,
                BinaryOperator::Add | BinaryOperator::Subtract => 6,
                BinaryOperator::Multiply | BinaryOperator::Divide | BinaryOperator::Modulo => 7,
                BinaryOperator::Exponent => 8,
            },
            Operator::Unary(_) => 255,
        }
    }

    /// The side to which operators of equal precedence group.
    pub fn associativity(&self) -> (side: Associativity)
        ensures
            side == self.grouping(),
    {
        match self {
            Self::Unary(_) | Self::Scope(_) => Associativity::Right,
            Self::Binary(operator) => match operator {
                BinaryOperator::Exponent => Associativity::Right,
                _ => Associativity::Left,
            },
        }
    }

    /// The precedence of the operator: the higher, the tighter it binds.
    pub fn specificity(&self) -> (level: u8)
        ensures
            level == self.precedence(),
    {
        match self {
            Self::Scope(_) => 0,
            Self::Binary(operator) => match operator {
                BinaryOperator::Either => 1,
                BinaryOperator::Both => 2,
                BinaryOperator::Equals => 3,
                BinaryOperator::Matches | BinaryOperator::Within => 4,
                BinaryOperator::Add | BinaryOperator::Subtract => 6,
                BinaryOperator::Multiply | BinaryOperator::Divide | BinaryOperator::Modulo => 7,
                BinaryOperator::Exponent => 8,
            },
            Self::Unary(_) => 255,
        }
    }
}

} // verus!
