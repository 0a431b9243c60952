use vstd::prelude::*;
use crate::pattern::Pattern;
use crate::variables::{kind_of, Bindings, Datum, Fields, Schema, Variable};

verus! {

/// An expression whose value is a regular expression.
#[derive(Debug)]
pub enum NodeRegex {
    Variable { name: String },
    Constant(Pattern),
}

impl NodeRegex {
    /// The pattern text of the expression's value under `env`.
    pub open spec fn value(self, env: Bindings) -> Seq<char> {
        match self {
            NodeRegex::Variable { name } => match env[name@] {
                Datum::Regex(value) => value,
                _ => Seq::empty(),
            },
            NodeRegex::Constant(value) => value@,
        }
    }

    /// Whether every variable of the expression is one of `fields`, of the
    /// type that its place asks for.
    pub open spec fn typed(self, fields: Fields) -> bool {
        match self {
            NodeRegex::Variable { name } => kind_of(fields, name@) == Some(Variable::Regex),
            NodeRegex::Constant(_) => true,
        }
    }

    /// Whether every variable of the expression is a field of `variables`, of
    /// the type that its place asks for.
    pub fn check(&self, variables: &Schema) -> (fits: bool)
        ensures
            fits == self.typed(variables@),
    {
        match self {
            NodeRegex::Variable { name } => variables.has(name.as_str(), Variable::Regex),
            NodeRegex::Constant(_) => true,
        }
    }

    /// Whether the two expressions are written alike: the same operators
    /// over the same names and constants, a string by its characters and a
    /// regular expression by its pattern text.
    pub open spec fn alike(self, other: NodeRegex) -> bool {
        match (self, other) {
            (NodeRegex::Variable { name: a }, NodeRegex::Variable { name: b }) => a@ == b@,
            (NodeRegex::Constant(a), NodeRegex::Constant(b)) => a@ == b@,
            _ => false,
        }
    }

    /// Expressions that are written alike have the same value under every
    /// record, and fit the same schemas.
    pub proof fn lemma_alike(self, other: NodeRegex, env: Bindings, fields: Fields)
        requires
            self.alike(other),
        ensures
            self.value(env) == other.value(env),
            self.typed(fields) == other.typed(fields),
    {
    }
}

} // verus!
