use vstd::prelude::*;
use super::uint64::NodeUint64;
use crate::variables::{kind_of, Bindings, Datum, Fields, Schema, Variable};

verus! {

/// The negation of an unsigned integer.
#[derive(Debug)]
pub enum NodeInt64Negative {
    Uint64(Box<NodeUint64>),
}

/// An expression whose value is a signed 64-bit integer.
#[derive(Debug)]
pub enum NodeInt64 {
    Variable { name: String },
    Negative(NodeInt64Negative),
}

/// The negation of `value` in 64-bit two's complement: `-value` where that
/// fits, and otherwise what is left after wrapping.
pub open spec fn negated(value: u64) -> i64 {
    if value <= 0x8000_0000_0000_0000 {
        (-(value as int)) as i64
    } else {
        (0x1_0000_0000_0000_0000 - (value as int)) as i64
    }
}

impl NodeInt64 {
    /// Whether the expression negates a constant above 2^63, whose negation
    /// does not fit 64 bits and wraps.
    pub open spec fn wrapping(self) -> bool {
        self matches NodeInt64::Negative(NodeInt64Negative::Uint64(inner))
            && (*inner) matches NodeUint64::Constant(value) && value > 0x8000_0000_0000_0000
    }

    /// Whether the expression negates a constant above 2^63: a caller may
    /// want to warn of it.
    pub fn wraps(&self) -> (yes: bool)
        ensures
            yes == self.wrapping(),
    {
        match self {
            NodeInt64::Negative(node) => match node {
                NodeInt64Negative::Uint64(inner) => match &**inner {
                    NodeUint64::Constant(value) => *value > 0x8000_0000_0000_0000,
                    _ => false,
                },
            },
            _ => false,
        }
    }

    /// The value of the expression under `env`.
    pub open spec fn value(self, env: Bindings) -> i64 {
        match self {
            NodeInt64::Variable { name } => match env[name@] {
                Datum::Int64(value) => value,
                _ => 0,
            },
            NodeInt64::Negative(NodeInt64Negative::Uint64(inner)) => negated(inner.value(env)),
        }
    }

    /// Whether every variable of the expression is one of `fields`, of the
    /// type that its place asks for.
    pub open spec fn typed(self, fields: Fields) -> bool {
        match self {
            NodeInt64::Variable { name } => kind_of(fields, name@) == Some(Variable::Int64),
            NodeInt64::Negative(NodeInt64Negative::Uint64(inner)) => inner.typed(fields),
        }
    }

    /// Whether every variable of the expression is a field of `variables`, of
    /// the type that its place asks for.
    pub fn check(&self, variables: &Schema) -> (fits: bool)
        ensures
            fits == self.typed(variables@),
    {
        match self {
            NodeInt64::Variable { name } => variables.has(name.as_str(), Variable::Int64),
            NodeInt64::Negative(node) => match node {
                NodeInt64Negative::Uint64(inner) => inner.check(variables),
            },
        }
    }

    /// Whether the two expressions are written alike: the same operators
    /// over the same names and constants, a string by its characters and a
    /// regular expression by its pattern text.
    pub open spec fn alike(self, other: NodeInt64) -> bool {
        match (self, other) {
            (NodeInt64::Variable { name: a }, NodeInt64::Variable { name: b }) => a@ == b@,
            (
                NodeInt64::Negative(NodeInt64Negative::Uint64(a)),
                NodeInt64::Negative(NodeInt64Negative::Uint64(b)),
            ) => a.alike(*b),
            _ => false,
        }
    }

    /// Expressions that are written alike have the same value under every
    /// record, and fit the same schemas.
    pub proof fn lemma_alike(self, other: NodeInt64, env: Bindings, fields: Fields)
        requires
            self.alike(other),
        ensures
            self.value(env) == other.value(env),
            self.typed(fields) == other.typed(fields),
    {
        match (self, other) {
            (
                NodeInt64::Negative(NodeInt64Negative::Uint64(a)),
                NodeInt64::Negative(NodeInt64Negative::Uint64(b)),
            ) => {
                a.lemma_alike(*b, env, fields);
            },
            _ => {},
        }
    }
}

} // verus!
