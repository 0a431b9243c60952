use vstd::prelude::*;
use crate::variables::{kind_of, Bindings, Datum, Fields, Schema, Variable};

verus! {

/// Two strings, one after the other.
#[derive(Debug)]
pub enum NodeStringAdd {
    StringString { left: Box<NodeString>, right: Box<NodeString> },
}

/// An expression whose value is a string.
#[derive(Debug)]
pub enum NodeString {
    Variable { name: String },
    Constant(String),
    Add(NodeStringAdd),
}

impl NodeString {
    /// The value of the expression under `env`.
    pub open spec fn value(self, env: Bindings) -> Seq<char>
        decreases self,
    {
        match self {
            NodeString::Variable { name } => match env[name@] {
                Datum::String(value) => value,
                _ => Seq::empty(),
            },
            NodeString::Constant(value) => value@,
            NodeString::Add(NodeStringAdd::StringString { left, right }) => left.value(env)
                + right.value(env),
        }
    }

    /// Whether every variable of the expression is one of `fields`, of the
    /// type that its place asks for.
    pub open spec fn typed(self, fields: Fields) -> bool
        decreases self,
    {
        match self {
            NodeString::Variable { name } => kind_of(fields, name@) == Some(Variable::String),
            NodeString::Constant(_) => true,
            NodeString::Add(NodeStringAdd::StringString { left, right }) => left.typed(fields)
                && right.typed(fields),
        }
    }

    /// Whether every variable of the expression is a field of `variables`, of
    /// the type that its place asks for.
    pub fn check(&self, variables: &Schema) -> (fits: bool)
        ensures
            fits == self.typed(variables@),
        decreases self,
    {
        match self {
            NodeString::Variable { name } => variables.has(name.as_str(), Variable::String),
            NodeString::Constant(_) => true,
            NodeString::Add(node) => match node {
                NodeStringAdd::StringString { left, right } => left.check(variables) && right.check(
                    variables,
                ),
            },
        }
    }

    /// Whether the two expressions are written alike: the same operators
    /// over the same names and constants, a string by its characters and a
    /// regular expression by its pattern text.
    pub open spec fn alike(self, other: NodeString) -> bool
        decreases self,
    {
        match (self, other) {
            (NodeString::Variable { name: a }, NodeString::Variable { name: b }) => a@ == b@,
            (NodeString::Constant(a), NodeString::Constant(b)) => a@ == b@,
            (
                NodeString::Add(NodeStringAdd::StringString { left: a, right: b }),
                NodeString::Add(NodeStringAdd::StringString { left: c, right: d }),
            ) => a.alike(*c) && b.alike(*d),
            _ => false,
        }
    }

    /// Expressions that are written alike have the same value under every
    /// record, and fit the same schemas.
    pub proof fn lemma_alike(self, other: NodeString, env: Bindings, fields: Fields)
        requires
            self.alike(other),
        ensures
            self.value(env) == other.value(env),
            self.typed(fields) == other.typed(fields),
        decreases self,
    {
        match (self, other) {
            (
                NodeString::Add(NodeStringAdd::StringString { left: a, right: b }),
                NodeString::Add(NodeStringAdd::StringString { left: c, right: d }),
            ) => {
                a.lemma_alike(*c, env, fields);
                b.lemma_alike(*d, env, fields);
            },
            _ => {},
        }
    }
}

} // verus!
