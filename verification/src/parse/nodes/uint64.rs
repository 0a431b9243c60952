use vstd::prelude::*;
use crate::variables::{kind_of, Bindings, Datum, Fields, Schema, Variable};

verus! {

/// The sum of two unsigned integers.
#[derive(Debug)]
pub enum NodeUint64Add {
    Uint64Uint64 { left: Box<NodeUint64>, right: Box<NodeUint64> },
}

/// The difference of two unsigned integers.
#[derive(Debug)]
pub enum NodeUint64Subtract {
    Uint64Uint64 { left: Box<NodeUint64>, right: Box<NodeUint64> },
}

/// An expression whose value is an unsigned 64-bit integer.
#[derive(Debug)]
pub enum NodeUint64 {
    Variable { name: String },
    Constant(u64),
    Add(NodeUint64Add),
    Subtract(NodeUint64Subtract),
}

impl NodeUint64 {
    /// The value of the expression under `env`. Sums and differences wrap.
    pub open spec fn value(self, env: Bindings) -> u64
        decreases self,
    {
        match self {
            NodeUint64::Variable { name } => match env[name@] {
                Datum::Uint64(value) => value,
                _ => 0,
            },
            NodeUint64::Constant(value) => value,
            NodeUint64::Add(NodeUint64Add::Uint64Uint64 { left, right }) => left.value(
                env,
            ).wrapping_add(right.value(env)),
            NodeUint64::Subtract(NodeUint64Subtract::Uint64Uint64 { left, right }) => left.value(
                env,
            ).wrapping_sub(right.value(env)),
        }
    }

    /// Whether every variable of the expression is one of `fields`, of the
    /// type that its place asks for.
    pub open spec fn typed(self, fields: Fields) -> bool
        decreases self,
    {
        match self {
            NodeUint64::Variable { name } => kind_of(fields, name@) == Some(Variable::Uint64),
            NodeUint64::Constant(_) => true,
            NodeUint64::Add(NodeUint64Add::Uint64Uint64 { left, right }) => left.typed(fields)
                && right.typed(fields),
            NodeUint64::Subtract(NodeUint64Subtract::Uint64Uint64 { left, right }) => left.typed(
                fields,
            ) && right.typed(fields),
        }
    }

    /// Whether every variable of the expression is a field of `variables`, of
    /// the type that its place asks for.
    pub fn check(&self, variables: &Schema) -> (fits: bool)
        ensures
            fits == self.typed(variables@),
        decreases self,
    {
        match self {
            NodeUint64::Variable { name } => variables.has(name.as_str(), Variable::Uint64),
            NodeUint64::Constant(_) => true,
            NodeUint64::Add(node) => match node {
                NodeUint64Add::Uint64Uint64 { left, right } => left.check(variables) && right.check(
                    variables,
                ),
            },
            NodeUint64::Subtract(node) => match node {
                NodeUint64Subtract::Uint64Uint64 { left, right } => left.check(variables)
                    && right.check(variables),
            },
        }
    }

    /// Whether the two expressions are written alike: the same operators
    /// over the same names and constants, a string by its characters and a
    /// regular expression by its pattern text.
    pub open spec fn alike(self, other: NodeUint64) -> bool
        decreases self,
    {
        match (self, other) {
            (NodeUint64::Variable { name: a }, NodeUint64::Variable { name: b }) => a@ == b@,
            (NodeUint64::Constant(a), NodeUint64::Constant(b)) => a == b,
            (
                NodeUint64::Add(NodeUint64Add::Uint64Uint64 { left: a, right: b }),
                NodeUint64::Add(NodeUint64Add::Uint64Uint64 { left: c, right: d }),
            ) => a.alike(*c) && b.alike(*d),
            (
                NodeUint64::Subtract(NodeUint64Subtract::Uint64Uint64 { left: a, right: b }),
                NodeUint64::Subtract(NodeUint64Subtract::Uint64Uint64 { left: c, right: d }),
            ) => a.alike(*c) && b.alike(*d),
            _ => false,
        }
    }

    /// Expressions that are written alike have the same value under every
    /// record, and fit the same schemas.
    pub proof fn lemma_alike(self, other: NodeUint64, env: Bindings, fields: Fields)
        requires
            self.alike(other),
        ensures
            self.value(env) == other.value(env),
            self.typed(fields) == other.typed(fields),
        decreases self,
    {
        match (self, other) {
            (
                NodeUint64::Add(NodeUint64Add::Uint64Uint64 { left: a, right: b }),
                NodeUint64::Add(NodeUint64Add::Uint64Uint64 { left: c, right: d }),
            ) => {
                a.lemma_alike(*c, env, fields);
                b.lemma_alike(*d, env, fields);
            },
            (
                NodeUint64::Subtract(NodeUint64Subtract::Uint64Uint64 { left: a, right: b }),
                NodeUint64::Subtract(NodeUint64Subtract::Uint64Uint64 { left: c, right: d }),
            ) => {
                a.lemma_alike(*c, env, fields);
                b.lemma_alike(*d, env, fields);
            },
            _ => {},
        }
    }
}

} // verus!
