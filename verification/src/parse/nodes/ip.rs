use vstd::prelude::*;
use crate::address::Ip;
use crate::variables::{kind_of, Bindings, Datum, Fields, Schema, Variable};

verus! {

/// An expression whose value is an internet address.
#[derive(Debug)]
pub enum NodeIp {
    Variable { name: String },
    Constant(Ip),
}

impl NodeIp {
    /// The value of the expression under `env`.
    pub open spec fn value(self, env: Bindings) -> Ip {
        match self {
            NodeIp::Variable { name } => match env[name@] {
                Datum::Ip(value) => value,
                _ => Ip::V4(0),
            },
            NodeIp::Constant(value) => value,
        }
    }

    /// Whether every variable of the expression is one of `fields`, of the
    /// type that its place asks for.
    pub open spec fn typed(self, fields: Fields) -> bool {
        match self {
            NodeIp::Variable { name } => kind_of(fields, name@) == Some(Variable::Ip),
            NodeIp::Constant(_) => true,
        }
    }

    /// Whether every variable of the expression is a field of `variables`, of
    /// the type that its place asks for.
    pub fn check(&self, variables: &Schema) -> (fits: bool)
        ensures
            fits == self.typed(variables@),
    {
        match self {
            NodeIp::Variable { name } => variables.has(name.as_str(), Variable::Ip),
            NodeIp::Constant(_) => true,
        }
    }

    /// Whether the two expressions are written alike: the same operators
    /// over the same names and constants, a string by its characters and a
    /// regular expression by its pattern text.
    pub open spec fn alike(self, other: NodeIp) -> bool {
        match (self, other) {
            (NodeIp::Variable { name: a }, NodeIp::Variable { name: b }) => a@ == b@,
            (NodeIp::Constant(a), NodeIp::Constant(b)) => a == b,
            _ => false,
        }
    }

    /// Expressions that are written alike have the same value under every
    /// record, and fit the same schemas.
    pub proof fn lemma_alike(self, other: NodeIp, env: Bindings, fields: Fields)
        requires
            self.alike(other),
        ensures
            self.value(env) == other.value(env),
            self.typed(fields) == other.typed(fields),
    {
    }
}

} // verus!
