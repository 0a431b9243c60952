use vstd::prelude::*;
use crate::address::Cidr;
use crate::variables::{kind_of, Bindings, Datum, Fields, Schema, Variable};

verus! {

/// An expression whose value is a network.
#[derive(Debug)]
pub enum NodeCidr {
    Variable { name: String },
    Constant(Cidr),
}

impl NodeCidr {
    /// The value of the expression under `env`.
    pub open spec fn value(self, env: Bindings) -> Cidr {
        match self {
            NodeCidr::Variable { name } => match env[name@] {
                Datum::Cidr(value) => value,
                _ => arbitrary(),
            },
            NodeCidr::Constant(value) => value,
        }
    }

    /// Whether every variable of the expression is one of `fields`, of the
    /// type that its place asks for.
    pub open spec fn typed(self, fields: Fields) -> bool {
        match self {
            NodeCidr::Variable { name } => kind_of(fields, name@) == Some(Variable::Cidr),
            NodeCidr::Constant(_) => true,
        }
    }

    /// Whether every variable of the expression is a field of `variables`, of
    /// the type that its place asks for.
    pub fn check(&self, variables: &Schema) -> (fits: bool)
        ensures
            fits == self.typed(variables@),
    {
        match self {
            NodeCidr::Variable { name } => variables.has(name.as_str(), Variable::Cidr),
            NodeCidr::Constant(_) => true,
        }
    }

    /// Whether the two expressions are written alike: the same operators
    /// over the same names and constants, a string by its characters and a
    /// regular expression by its pattern text.
    pub open spec fn alike(self, other: NodeCidr) -> bool {
        match (self, other) {
            (NodeCidr::Variable { name: a }, NodeCidr::Variable { name: b }) => a@ == b@,
            (NodeCidr::Constant(a), NodeCidr::Constant(b)) => a == b,
            _ => false,
        }
    }

    /// Expressions that are written alike have the same value under every
    /// record, and fit the same schemas.
    pub proof fn lemma_alike(self, other: NodeCidr, env: Bindings, fields: Fields)
        requires
            self.alike(other),
        ensures
            self.value(env) == other.value(env),
            self.typed(fields) == other.typed(fields),
    {
    }
}

} // verus!
