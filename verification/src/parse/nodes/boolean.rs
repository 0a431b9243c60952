use vstd::prelude::*;
use super::cidr::NodeCidr;
use super::int64::NodeInt64;
use super::ip::NodeIp;
use super::regex::NodeRegex;
use super::string::NodeString;
use super::uint64::NodeUint64;
use crate::pattern::regex_matches;
use crate::variables::{kind_of, Bindings, Datum, Fields, Schema, Variable};

verus! {

/// Whether an address lies in a network.
#[derive(Debug)]
pub enum NodeBooleanWithin {
    IpCidr { left: NodeIp, right: NodeCidr },
}

/// The negation of a predicate.
#[derive(Debug)]
pub enum NodeBooleanNot {
    Boolean(Box<NodeBoolean>),
}

/// Whether two predicates both hold.
#[derive(Debug)]
pub enum NodeBooleanBoth {
    BooleanBoolean { left: Box<NodeBoolean>, right: Box<NodeBoolean> },
}

/// Whether one of two predicates holds.
#[derive(Debug)]
pub enum NodeBooleanEither {
    BooleanBoolean { left: Box<NodeBoolean>, right: Box<NodeBoolean> },
}

/// Whether two values of one type are equal.
#[allow(inconsistent_fields)]
#[derive(Debug)]
pub enum NodeBooleanEquals {
    BooleanBoolean { left: Box<NodeBoolean>, right: Box<NodeBoolean> },
    StringString { left: NodeString, right: NodeString },
    Uint64Uint64 { left: NodeUint64, right: NodeUint64 },
    Int64Int64 { left: NodeInt64, right: NodeInt64 },
    IpIp { left: NodeIp, right: NodeIp },
}

/// Whether a regular expression finds an occurrence in a string.
#[derive(Debug)]
pub enum NodeBooleanMatches {
    StringRegex { left: NodeString, right: NodeRegex },
}

/// An expression whose value is a truth value: a predicate.
#[derive(Debug)]
pub enum NodeBoolean {
    Variable { name: String },
    Constant(bool),
    Not(NodeBooleanNot),
    Both(NodeBooleanBoth),
    Either(NodeBooleanEither),
    Within(NodeBooleanWithin),
    Equals(NodeBooleanEquals),
    Matches(NodeBooleanMatches),
}

impl NodeBoolean {
    /// The predicate `!inner`.
    pub open spec fn not(inner: NodeBoolean) -> NodeBoolean {
        NodeBoolean::Not(NodeBooleanNot::Boolean(Box::new(inner)))
    }

    /// The predicate `left and right`.
    pub open spec fn both(left: NodeBoolean, right: NodeBoolean) -> NodeBoolean {
        NodeBoolean::Both(
            NodeBooleanBoth::BooleanBoolean { left: Box::new(left), right: Box::new(right) },
        )
    }

    /// The predicate `left or right`.
    pub open spec fn either(left: NodeBoolean, right: NodeBoolean) -> NodeBoolean {
        NodeBoolean::Either(
            NodeBooleanEither::BooleanBoolean { left: Box::new(left), right: Box::new(right) },
        )
    }

    /// The predicate `left in right`.
    pub open spec fn within(left: NodeIp, right: NodeCidr) -> NodeBoolean {
        NodeBoolean::Within(NodeBooleanWithin::IpCidr { left, right })
    }

    /// The predicate `left ~ right`.
    pub open spec fn matches(left: NodeString, right: NodeRegex) -> NodeBoolean {
        NodeBoolean::Matches(NodeBooleanMatches::StringRegex { left, right })
    }

    /// The predicate `left == right` of two predicates.
    pub open spec fn equals_boolean(left: NodeBoolean, right: NodeBoolean) -> NodeBoolean {
        NodeBoolean::Equals(
            NodeBooleanEquals::BooleanBoolean { left: Box::new(left), right: Box::new(right) },
        )
    }

    /// The predicate `left == right` of two strings.
    pub open spec fn equals_string(left: NodeString, right: NodeString) -> NodeBoolean {
        NodeBoolean::Equals(NodeBooleanEquals::StringString { left, right })
    }

    /// The predicate `left == right` of two unsigned integers.
    pub open spec fn equals_uint64(left: NodeUint64, right: NodeUint64) -> NodeBoolean {
        NodeBoolean::Equals(NodeBooleanEquals::Uint64Uint64 { left, right })
    }

    /// The predicate `left == right` of two signed integers.
    pub open spec fn equals_int64(left: NodeInt64, right: NodeInt64) -> NodeBoolean {
        NodeBoolean::Equals(NodeBooleanEquals::Int64Int64 { left, right })
    }

    /// The predicate `left == right` of two addresses.
    pub open spec fn equals_ip(left: NodeIp, right: NodeIp) -> NodeBoolean {
        NodeBoolean::Equals(NodeBooleanEquals::IpIp { left, right })
    }

    /// The value of the predicate under `env`.
    pub open spec fn value(self, env: Bindings) -> bool
        decreases self,
    {
        match self {
            NodeBoolean::Variable { name } => match env[name@] {
                Datum::Boolean(value) => value,
                _ => false,
            },
            NodeBoolean::Constant(value) => value,
            NodeBoolean::Not(NodeBooleanNot::Boolean(inner)) => !inner.value(env),
            NodeBoolean::Both(NodeBooleanBoth::BooleanBoolean { left, right }) => left.value(env)
                && right.value(env),
            NodeBoolean::Either(NodeBooleanEither::BooleanBoolean { left, right }) => left.value(
                env,
            ) || right.value(env),
            NodeBoolean::Within(NodeBooleanWithin::IpCidr { left, right }) => right.value(
                env,
            ).holds(left.value(env)),
            NodeBoolean::Equals(NodeBooleanEquals::BooleanBoolean { left, right }) => left.value(
                env,
            ) == right.value(env),
            NodeBoolean::Equals(NodeBooleanEquals::StringString { left, right }) => left.value(env)
                == right.value(env),
            NodeBoolean::Equals(NodeBooleanEquals::Uint64Uint64 { left, right }) => left.value(env)
                == right.value(env),
            NodeBoolean::Equals(NodeBooleanEquals::Int64Int64 { left, right }) => left.value(env)
                == right.value(env),
            NodeBoolean::Equals(NodeBooleanEquals::IpIp { left, right }) => left.value(env)
                == right.value(env),
            NodeBoolean::Matches(NodeBooleanMatches::StringRegex { left, right }) => regex_matches(
                right.value(env),
                left.value(env),
            ),
        }
    }

    /// Whether every variable of the predicate is one of `fields`, of the
    /// type that its place asks for.
    pub open spec fn typed(self, fields: Fields) -> bool
        decreases self,
    {
        match self {
            NodeBoolean::Variable { name } => kind_of(fields, name@) == Some(Variable::Boolean),
            NodeBoolean::Constant(_) => true,
            NodeBoolean::Not(NodeBooleanNot::Boolean(inner)) => inner.typed(fields),
            NodeBoolean::Both(NodeBooleanBoth::BooleanBoolean { left, right }) => left.typed(fields)
                && right.typed(fields),
            NodeBoolean::Either(NodeBooleanEither::BooleanBoolean { left, right }) => left.typed(
                fields,
            ) && right.typed(fields),
            NodeBoolean::Within(NodeBooleanWithin::IpCidr { left, right }) => left.typed(fields)
                && right.typed(fields),
            NodeBoolean::Equals(NodeBooleanEquals::BooleanBoolean { left, right }) => left.typed(
                fields,
            ) && right.typed(fields),
            NodeBoolean::Equals(NodeBooleanEquals::StringString { left, right }) => left.typed(
                fields,
            ) && right.typed(fields),
            NodeBoolean::Equals(NodeBooleanEquals::Uint64Uint64 { left, right }) => left.typed(
                fields,
            ) && right.typed(fields),
            NodeBoolean::Equals(NodeBooleanEquals::Int64Int64 { left, right }) => left.typed(fields)
                && right.typed(fields),
            NodeBoolean::Equals(NodeBooleanEquals::IpIp { left, right }) => left.typed(fields)
                && right.typed(fields),
            NodeBoolean::Matches(NodeBooleanMatches::StringRegex { left, right }) => left.typed(
                fields,
            ) && right.typed(fields),
        }
    }

    /// Whether every variable of the expression is a field of `variables`, of
    /// the type that its place asks for.
    pub fn check(&self, variables: &Schema) -> (fits: bool)
        ensures
            fits == self.typed(variables@),
        decreases self,
    {
        match self {
            NodeBoolean::Variable { name } => variables.has(name.as_str(), Variable::Boolean),
            NodeBoolean::Constant(_) => true,
            NodeBoolean::Not(node) => match node {
                NodeBooleanNot::Boolean(inner) => inner.check(variables),
            },
            NodeBoolean::Both(node) => match node {
                NodeBooleanBoth::BooleanBoolean { left, right } => left.check(variables)
                    && right.check(variables),
            },
            NodeBoolean::Either(node) => match node {
                NodeBooleanEither::BooleanBoolean { left, right } => left.check(variables)
                    && right.check(variables),
            },
            NodeBoolean::Within(node) => match node {
                NodeBooleanWithin::IpCidr { left, right } => left.check(variables) && right.check(
                    variables,
                ),
            },
            NodeBoolean::Equals(node) => match node {
                NodeBooleanEquals::BooleanBoolean { left, right } => left.check(variables)
                    && right.check(variables),
                NodeBooleanEquals::StringString { left, right } => left.check(variables)
                    && right.check(variables),
                NodeBooleanEquals::Uint64Uint64 { left, right } => left.check(variables)
                    && right.check(variables),
                NodeBooleanEquals::Int64Int64 { left, right } => left.check(variables)
                    && right.check(variables),
                NodeBooleanEquals::IpIp { left, right } => left.check(variables) && right.check(
                    variables,
                ),
            },
            NodeBoolean::Matches(node) => match node {
                NodeBooleanMatches::StringRegex { left, right } => left.check(variables)
                    && right.check(variables),
            },
        }
    }

    /// Whether the two expressions are written alike: the same operators
    /// over the same names and constants, a string by its characters and a
    /// regular expression by its pattern text.
    pub open spec fn alike(self, other: NodeBoolean) -> bool
        decreases self,
    {
        match (self, other) {
            (NodeBoolean::Variable { name: a }, NodeBoolean::Variable { name: b }) => a@ == b@,
            (NodeBoolean::Constant(a), NodeBoolean::Constant(b)) => a == b,
            (
                NodeBoolean::Not(NodeBooleanNot::Boolean(a)),
                NodeBoolean::Not(NodeBooleanNot::Boolean(b)),
            ) => a.alike(*b),
            (
                NodeBoolean::Both(NodeBooleanBoth::BooleanBoolean { left: a, right: b }),
                NodeBoolean::Both(NodeBooleanBoth::BooleanBoolean { left: c, right: d }),
            ) => a.alike(*c) && b.alike(*d),
            (
                NodeBoolean::Either(NodeBooleanEither::BooleanBoolean { left: a, right: b }),
                NodeBoolean::Either(NodeBooleanEither::BooleanBoolean { left: c, right: d }),
            ) => a.alike(*c) && b.alike(*d),
            (
                NodeBoolean::Within(NodeBooleanWithin::IpCidr { left: a, right: b }),
                NodeBoolean::Within(NodeBooleanWithin::IpCidr { left: c, right: d }),
            ) => a.alike(c) && b.alike(d),
            (
                NodeBoolean::Equals(NodeBooleanEquals::BooleanBoolean { left: a, right: b }),
                NodeBoolean::Equals(NodeBooleanEquals::BooleanBoolean { left: c, right: d }),
            ) => a.alike(*c) && b.alike(*d),
            (
                NodeBoolean::Equals(NodeBooleanEquals::StringString { left: a, right: b }),
                NodeBoolean::Equals(NodeBooleanEquals::StringString { left: c, right: d }),
            ) => a.alike(c) && b.alike(d),
            (
                NodeBoolean::Equals(NodeBooleanEquals::Uint64Uint64 { left: a, right: b }),
                NodeBoolean::Equals(NodeBooleanEquals::Uint64Uint64 { left: c, right: d }),
            ) => a.alike(c) && b.alike(d),
            (
                NodeBoolean::Equals(NodeBooleanEquals::Int64Int64 { left: a, right: b }),
                NodeBoolean::Equals(NodeBooleanEquals::Int64Int64 { left: c, right: d }),
            ) => a.alike(c) && b.alike(d),
            (
                NodeBoolean::Equals(NodeBooleanEquals::IpIp { left: a, right: b }),
                NodeBoolean::Equals(NodeBooleanEquals::IpIp { left: c, right: d }),
            ) => a.alike(c) && b.alike(d),
            (
                NodeBoolean::Matches(NodeBooleanMatches::StringRegex { left: a, right: b }),
                NodeBoolean::Matches(NodeBooleanMatches::StringRegex { left: c, right: d }),
            ) => a.alike(c) && b.alike(d),
            _ => false,
        }
    }

    /// Expressions that are written alike have the same value under every
    /// record, and fit the same schemas.
    pub proof fn lemma_alike(self, other: NodeBoolean, env: Bindings, fields: Fields)
        requires
            self.alike(other),
        ensures
            self.value(env) == other.value(env),
            self.typed(fields) == other.typed(fields),
        decreases self,
    {
        match (self, other) {
            (
                NodeBoolean::Not(NodeBooleanNot::Boolean(a)),
                NodeBoolean::Not(NodeBooleanNot::Boolean(b)),
            ) => {
                a.lemma_alike(*b, env, fields);
            },
            (
                NodeBoolean::Both(NodeBooleanBoth::BooleanBoolean { left: a, right: b }),
                NodeBoolean::Both(NodeBooleanBoth::BooleanBoolean { left: c, right: d }),
            ) => {
                a.lemma_alike(*c, env, fields);
                b.lemma_alike(*d, env, fields);
            },
            (
                NodeBoolean::Either(NodeBooleanEither::BooleanBoolean { left: a, right: b }),
                NodeBoolean::Either(NodeBooleanEither::BooleanBoolean { left: c, right: d }),
            ) => {
                a.lemma_alike(*c, env, fields);
                b.lemma_alike(*d, env, fields);
            },
            (
                NodeBoolean::Within(NodeBooleanWithin::IpCidr { left: a, right: b }),
                NodeBoolean::Within(NodeBooleanWithin::IpCidr { left: c, right: d }),
            ) => {
                a.lemma_alike(c, env, fields);
                b.lemma_alike(d, env, fields);
            },
            (
                NodeBoolean::Equals(NodeBooleanEquals::BooleanBoolean { left: a, right: b }),
                NodeBoolean::Equals(NodeBooleanEquals::BooleanBoolean { left: c, right: d }),
            ) => {
                a.lemma_alike(*c, env, fields);
                b.lemma_alike(*d, env, fields);
            },
            (
                NodeBoolean::Equals(NodeBooleanEquals::StringString { left: a, right: b }),
                NodeBoolean::Equals(NodeBooleanEquals::StringString { left: c, right: d }),
            ) => {
                a.lemma_alike(c, env, fields);
                b.lemma_alike(d, env, fields);
            },
            (
                NodeBoolean::Equals(NodeBooleanEquals::Uint64Uint64 { left: a, right: b }),
                NodeBoolean::Equals(NodeBooleanEquals::Uint64Uint64 { left: c, right: d }),
            ) => {
                a.lemma_alike(c, env, fields);
                b.lemma_alike(d, env, fields);
            },
            (
                NodeBoolean::Equals(NodeBooleanEquals::Int64Int64 { left: a, right: b }),
                NodeBoolean::Equals(NodeBooleanEquals::Int64Int64 { left: c, right: d }),
            ) => {
                a.lemma_alike(c, env, fields);
                b.lemma_alike(d, env, fields);
            },
            (
                NodeBoolean::Equals(NodeBooleanEquals::IpIp { left: a, right: b }),
                NodeBoolean::Equals(NodeBooleanEquals::IpIp { left: c, right: d }),
            ) => {
                a.lemma_alike(c, env, fields);
                b.lemma_alike(d, env, fields);
            },
            (
                NodeBoolean::Matches(NodeBooleanMatches::StringRegex { left: a, right: b }),
                NodeBoolean::Matches(NodeBooleanMatches::StringRegex { left: c, right: d }),
            ) => {
                a.lemma_alike(c, env, fields);
                b.lemma_alike(d, env, fields);
            },
            _ => {},
        }
    }
}

} // verus!
