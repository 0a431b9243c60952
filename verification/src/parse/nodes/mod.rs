//! The typed tree of an expression: one kind of node for each type of value.

use vstd::prelude::*;

pub mod boolean;
pub mod cidr;
pub mod int64;
pub mod ip;
pub mod regex;
pub mod string;
pub mod uint64;

use self::boolean::NodeBoolean;
use self::cidr::NodeCidr;
use self::int64::NodeInt64;
use self::ip::NodeIp;
use self::regex::NodeRegex;
use self::string::NodeString;
use self::uint64::NodeUint64;
use crate::variables::{Fields, Variable};

verus! {

/// An expression of any type.
#[derive(Debug)]
pub enum Node {
    Boolean(NodeBoolean),
    Cidr(NodeCidr),
    Int64(NodeInt64),
    Ip(NodeIp),
    Regex(NodeRegex),
    String(NodeString),
    Uint64(NodeUint64),
}

impl Node {
    /// The type of the expression's value.
    pub open spec fn kind(self) -> Variable {
        match self {
            Node::Boolean(_) => Variable::Boolean,
            Node::Cidr(_) => Variable::Cidr,
            Node::Int64(_) => Variable::Int64,
            Node::Ip(_) => Variable::Ip,
            Node::Regex(_) => Variable::Regex,
            Node::String(_) => Variable::String,
            Node::Uint64(_) => Variable::Uint64,
        }
    }

    /// Whether every variable of the expression is one of `fields`, of the
    /// type that its place asks for.
    pub open spec fn typed(self, fields: Fields) -> bool {
        match self {
            Node::Boolean(node) => node.typed(fields),
            Node::Cidr(node) => node.typed(fields),
            Node::Int64(node) => node.typed(fields),
            Node::Ip(node) => node.typed(fields),
            Node::Regex(node) => node.typed(fields),
            Node::String(node) => node.typed(fields),
            Node::Uint64(node) => node.typed(fields),
        }
    }
}

} // verus!
