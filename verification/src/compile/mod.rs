//! The compiler and the evaluator: from predicates to a flat program over
//! pooled scratch storage, and from a record to the predicates that hold of it.

use vstd::prelude::*;

pub mod batch;
pub mod lower;
pub mod machine;
pub mod meaning;
pub mod sound;
pub mod trace;

use self::lower::{
    base, field_pointer, lower_boolean, lower_cidr, lower_int64, lower_ip, lower_regex,
    lower_string, lower_uint64, program, Layout, Lowered, Placed, Sizes,
};
use self::batch::{
    compilable, lemma_program_grows, lemma_program_matches, lemma_program_sound, matching, start,
};
use self::machine::{
    raised, read_boolean, read_cidr, read_int64, read_ip, read_regex, read_string, read_uint64,
    run, stride, written, Memory, Operation,
};
use self::meaning::{datum_at, ready};
use self::sound::{extends, fits, indexable, pointer_fits, sound, within};
use crate::address::{Cidr, Ip};
use crate::parse::nodes::boolean::{
    NodeBoolean, NodeBooleanBoth, NodeBooleanEither, NodeBooleanEquals, NodeBooleanMatches,
    NodeBooleanNot, NodeBooleanWithin,
};
use crate::parse::nodes::cidr::NodeCidr;
use crate::parse::nodes::int64::{NodeInt64, NodeInt64Negative};
use crate::parse::nodes::ip::NodeIp;
use crate::parse::nodes::regex::NodeRegex;
use crate::parse::nodes::string::{NodeString, NodeStringAdd};
use crate::parse::nodes::uint64::{NodeUint64, NodeUint64Add, NodeUint64Subtract};
use crate::pattern::Pattern;
use crate::parse::nodes::int64::negated;
use crate::parse::Ast;
use crate::variables::{
    admits, count, data, kind_of, lemma_count_bound, lemma_count_monotone, slot, Datum, Fields,
    Schema, Value, Variable,
};

verus! {

/// Scratch storage: one vector of values for each primitive type.
#[derive(Clone, Debug)]
pub struct Scratch {
    boolean: Vec<bool>,
    cidr: Vec<Cidr>,
    int64: Vec<i64>,
    ip: Vec<Ip>,
    string: Vec<String>,
    uint64: Vec<u64>,
    regex: Vec<Pattern>,
}

impl View for Scratch {
    type V = Memory;

    closed spec fn view(&self) -> Memory {
        Memory {
            boolean: self.boolean@,
            cidr: self.cidr@,
            int64: self.int64@,
            ip: self.ip@,
            string: Seq::new(self.string@.len(), |i: int| self.string@[i]@),
            uint64: self.uint64@,
            regex: Seq::new(self.regex@.len(), |i: int| self.regex@[i]@),
        }
    }
}

/// A slot of scratch storage: in the pool of constants, or in the storage of
/// one evaluation.
#[derive(Clone, Copy, Debug, PartialEq, Eq, Structural)]
pub enum Pointer {
    Constant(usize),
    Dynamic(usize),
}

/// What one entry of a program does. Operands are slots of the type that the
/// name of the instruction gives.
#[derive(Clone, Debug)]
pub enum Instruction<H> {
    /// Does nothing: it keeps the place of a skip until the skip is known.
    Nothing,
    /// Writes the boolean at `check` to the output slot and, where it is
    /// true, passes over the `forward` operations that follow.
    SkipIfTrue { check: Pointer, forward: usize },
    /// Writes the boolean at `check` to the output slot and, where it is
    /// false, passes over the `forward` operations that follow.
    SkipIfFalse { check: Pointer, forward: usize },
    /// Reports `id` where the boolean at `boolean` is true.
    RaiseOutput { boolean: Pointer, id: H },
    AddStringString { left: Pointer, right: Pointer },
    AddUint64Uint64 { left: Pointer, right: Pointer },
    BothBoolBool { left: Pointer, right: Pointer },
    EitherBoolBool { left: Pointer, right: Pointer },
    EqualsBoolBool { left: Pointer, right: Pointer },
    EqualsStringString { left: Pointer, right: Pointer },
    EqualsUint64Uint64 { left: Pointer, right: Pointer },
    EqualsInt64Int64 { left: Pointer, right: Pointer },
    EqualsIpIP { left: Pointer, right: Pointer },
    NegativeUint64(Pointer),
    NotBool(Pointer),
    SubtractUint64Uint64 { left: Pointer, right: Pointer },
    WithinIpCidr { left: Pointer, right: Pointer },
    MatchesStringRegex { left: Pointer, right: Pointer },
}

/// The dynamic slots in use: what `dynamics` holds, and for regular
/// expressions, which no operator produces, the slots of the fields.
pub open spec fn in_use(dynamics: Memory, fields: Fields) -> Sizes {
    Sizes { regex: count(fields, Variable::Regex, fields.len() as int), ..dynamics.sizes() }
}

impl Scratch {
    /// Storage without slots.
    pub fn new() -> (scratch: Scratch)
        ensures
            scratch@ == Memory::empty(),
    {
        let scratch = Scratch {
            boolean: Vec::new(),
            cidr: Vec::new(),
            int64: Vec::new(),
            ip: Vec::new(),
            string: Vec::new(),
            uint64: Vec::new(),
            regex: Vec::new(),
        };
        assert(scratch@ =~= Memory::empty());
        scratch
    }
}

/// The slot of the field called `name`.
fn compile_variable(name: &String, variables: &Schema) -> (pointer: Pointer)
    requires
        kind_of(variables@, name@) is Some,
    ensures
        pointer == field_pointer(variables@, name@),
{
    match variables.find(name.as_str()) {
        Some(index) => Pointer::Dynamic(variables.slot(index)),
        None => {
            assert(false);
            Pointer::Dynamic(0)
        },
    }
}

fn compile_ip(
    node: &NodeIp,
    variables: &Schema,
    constants: &mut Scratch,
    Ghost(sizes): Ghost<Sizes>,
) -> (pointer: Pointer)
    requires
        node.typed(variables@),
    ensures
        lower_ip(*node, variables@, Layout { constants: old(constants)@, sizes }) == (Placed {
            pointer,
            layout: Layout { constants: final(constants)@, sizes },
        }),
{
    match node {
        NodeIp::Constant(value) => {
            constants.ip.push(*value);
            assert(constants@ =~= Memory {
                ip: old(constants)@.ip.push(*value),
                ..old(constants)@
            });
            Pointer::Constant(constants.ip.len() - 1)
        },
        NodeIp::Variable { name } => compile_variable(name, variables),
    }
}

fn compile_cidr(
    node: &NodeCidr,
    variables: &Schema,
    constants: &mut Scratch,
    Ghost(sizes): Ghost<Sizes>,
) -> (pointer: Pointer)
    requires
        node.typed(variables@),
    ensures
        lower_cidr(*node, variables@, Layout { constants: old(constants)@, sizes }) == (Placed {
            pointer,
            layout: Layout { constants: final(constants)@, sizes },
        }),
{
    match node {
        NodeCidr::Constant(value) => {
            constants.cidr.push(*value);
            assert(constants@ =~= Memory {
                cidr: old(constants)@.cidr.push(*value),
                ..old(constants)@
            });
            Pointer::Constant(constants.cidr.len() - 1)
        },
        NodeCidr::Variable { name } => compile_variable(name, variables),
    }
}

fn compile_regex(
    node: &NodeRegex,
    variables: &Schema,
    constants: &mut Scratch,
    Ghost(sizes): Ghost<Sizes>,
) -> (pointer: Pointer)
    requires
        node.typed(variables@),
    ensures
        lower_regex(*node, variables@, Layout { constants: old(constants)@, sizes }) == (Placed {
            pointer,
            layout: Layout { constants: final(constants)@, sizes },
        }),
{
    match node {
        NodeRegex::Constant(value) => {
            constants.regex.push(value.clone());
            assert(constants@ =~= Memory {
                regex: old(constants)@.regex.push(value@),
                ..old(constants)@
            });
            Pointer::Constant(constants.regex.len() - 1)
        },
        NodeRegex::Variable { name } => compile_variable(name, variables),
    }
}

/// What a compiling function has done where it stands for `lowered`: the
/// code is appended, the pool and the slots in use are those of the layout
/// after it, and the dynamic slots that were there keep what they held.
pub open spec fn emitted<H>(
    lowered: Lowered<H>,
    pointer: Pointer,
    fields: Fields,
    constants: Memory,
    dynamics: Memory,
    operations: Seq<Operation<H>>,
    before: Seq<Operation<H>>,
    held: Memory,
) -> bool {
    &&& operations == before + lowered.code
    &&& pointer == lowered.pointer
    &&& constants == lowered.layout.constants
    &&& in_use(dynamics, fields) == lowered.layout.sizes
    &&& extends(dynamics, held)
}

fn compile_uint64<H>(
    node: &NodeUint64,
    variables: &Schema,
    constants: &mut Scratch,
    dynamics: &mut Scratch,
    operations: &mut Vec<(usize, Instruction<H>)>,
) -> (pointer: Pointer)
    requires
        node.typed(variables@),
    ensures
        emitted(
            lower_uint64::<H>(
                *node,
                variables@,
                Layout { constants: old(constants)@, sizes: in_use(old(dynamics)@, variables@) },
            ),
            pointer,
            variables@,
            final(constants)@,
            final(dynamics)@,
            final(operations)@,
            old(operations)@,
            old(dynamics)@,
        ),
    decreases node,
{
    match node {
        NodeUint64::Constant(value) => {
            constants.uint64.push(*value);
            assert(constants@ =~= Memory {
                uint64: old(constants)@.uint64.push(*value),
                ..old(constants)@
            });
            assert(operations@ =~= old(operations)@ + Seq::<Operation<H>>::empty());
            Pointer::Constant(constants.uint64.len() - 1)
        },
        NodeUint64::Variable { name } => {
            assert(operations@ =~= old(operations)@ + Seq::<Operation<H>>::empty());
            compile_variable(name, variables)
        },
        NodeUint64::Add(node) => match node {
            NodeUint64Add::Uint64Uint64 { left, right } => {
                let left = compile_uint64(left, variables, constants, dynamics, operations);
                let right = compile_uint64(right, variables, constants, dynamics, operations);
                dynamics.uint64.push(0);
                let index = dynamics.uint64.len() - 1;
                operations.push((index, Instruction::AddUint64Uint64 { left, right }));
                proof {
                    let at = Layout {
                        constants: old(constants)@,
                        sizes: in_use(old(dynamics)@, variables@),
                    };
                    let lowered = lower_uint64::<H>(NodeUint64::Add(*node), variables@, at);
                    assert(operations@ =~= old(operations)@ + lowered.code);
                    assert(in_use(dynamics@, variables@) =~= lowered.layout.sizes);
                }
                Pointer::Dynamic(index)
            },
        },
        NodeUint64::Subtract(node) => match node {
            NodeUint64Subtract::Uint64Uint64 { left, right } => {
                let left = compile_uint64(left, variables, constants, dynamics, operations);
                let right = compile_uint64(right, variables, constants, dynamics, operations);
                dynamics.uint64.push(0);
                let index = dynamics.uint64.len() - 1;
                operations.push((index, Instruction::SubtractUint64Uint64 { left, right }));
                proof {
                    let at = Layout {
                        constants: old(constants)@,
                        sizes: in_use(old(dynamics)@, variables@),
                    };
                    let lowered = lower_uint64::<H>(NodeUint64::Subtract(*node), variables@, at);
                    assert(operations@ =~= old(operations)@ + lowered.code);
                    assert(in_use(dynamics@, variables@) =~= lowered.layout.sizes);
                }
                Pointer::Dynamic(index)
            },
        },
    }
}

fn compile_int64<H>(
    node: &NodeInt64,
    variables: &Schema,
    constants: &mut Scratch,
    dynamics: &mut Scratch,
    operations: &mut Vec<(usize, Instruction<H>)>,
) -> (pointer: Pointer)
    requires
        node.typed(variables@),
    ensures
        emitted(
            lower_int64::<H>(
                *node,
                variables@,
                Layout { constants: old(constants)@, sizes: in_use(old(dynamics)@, variables@) },
            ),
            pointer,
            variables@,
            final(constants)@,
            final(dynamics)@,
            final(operations)@,
            old(operations)@,
            old(dynamics)@,
        ),
{
    match node {
        NodeInt64::Variable { name } => {
            assert(operations@ =~= old(operations)@ + Seq::<Operation<H>>::empty());
            compile_variable(name, variables)
        },
        NodeInt64::Negative(node) => match node {
            NodeInt64Negative::Uint64(inner) => {
                let child = compile_uint64(inner, variables, constants, dynamics, operations);
                dynamics.int64.push(0);
                let index = dynamics.int64.len() - 1;
                operations.push((index, Instruction::NegativeUint64(child)));
                proof {
                    let at = Layout {
                        constants: old(constants)@,
                        sizes: in_use(old(dynamics)@, variables@),
                    };
                    let lowered = lower_int64::<H>(NodeInt64::Negative(*node), variables@, at);
                    assert(operations@ =~= old(operations)@ + lowered.code);
                    assert(in_use(dynamics@, variables@) =~= lowered.layout.sizes);
                }
                Pointer::Dynamic(index)
            },
        },
    }
}

fn compile_string<H>(
    node: &NodeString,
    variables: &Schema,
    constants: &mut Scratch,
    dynamics: &mut Scratch,
    operations: &mut Vec<(usize, Instruction<H>)>,
) -> (pointer: Pointer)
    requires
        node.typed(variables@),
    ensures
        emitted(
            lower_string::<H>(
                *node,
                variables@,
                Layout { constants: old(constants)@, sizes: in_use(old(dynamics)@, variables@) },
            ),
            pointer,
            variables@,
            final(constants)@,
            final(dynamics)@,
            final(operations)@,
            old(operations)@,
            old(dynamics)@,
        ),
    decreases node,
{
    match node {
        NodeString::Constant(value) => {
            constants.string.push(value.clone());
            assert(constants@ =~= Memory {
                string: old(constants)@.string.push(value@),
                ..old(constants)@
            });
            assert(operations@ =~= old(operations)@ + Seq::<Operation<H>>::empty());
            Pointer::Constant(constants.string.len() - 1)
        },
        NodeString::Variable { name } => {
            assert(operations@ =~= old(operations)@ + Seq::<Operation<H>>::empty());
            compile_variable(name, variables)
        },
        NodeString::Add(node) => match node {
            NodeStringAdd::StringString { left, right } => {
                let left = compile_string(left, variables, constants, dynamics, operations);
                let right = compile_string(right, variables, constants, dynamics, operations);
                dynamics.string.push(String::new());
                let index = dynamics.string.len() - 1;
                operations.push((index, Instruction::AddStringString { left, right }));
                proof {
                    let at = Layout {
                        constants: old(constants)@,
                        sizes: in_use(old(dynamics)@, variables@),
                    };
                    let lowered = lower_string::<H>(NodeString::Add(*node), variables@, at);
                    assert(operations@ =~= old(operations)@ + lowered.code);
                    assert(in_use(dynamics@, variables@) =~= lowered.layout.sizes);
                }
                Pointer::Dynamic(index)
            },
        },
    }
}

fn compile_not<H>(
    node: &NodeBooleanNot,
    variables: &Schema,
    constants: &mut Scratch,
    dynamics: &mut Scratch,
    operations: &mut Vec<(usize, Instruction<H>)>,
) -> (pointer: Pointer)
    requires
        (NodeBoolean::Not(*node)).typed(variables@),
    ensures
        emitted(
            lower_boolean::<H>(
                NodeBoolean::Not(*node),
                variables@,
                Layout { constants: old(constants)@, sizes: in_use(old(dynamics)@, variables@) },
            ),
            pointer,
            variables@,
            final(constants)@,
            final(dynamics)@,
            final(operations)@,
            old(operations)@,
            old(dynamics)@,
        ),
    decreases node,
{
    match node {
        NodeBooleanNot::Boolean(inner) => {
            let child = compile_boolean(inner, variables, constants, dynamics, operations);
            dynamics.boolean.push(false);
            let index = dynamics.boolean.len() - 1;
            operations.push((index, Instruction::NotBool(child)));
            proof {
                let at = Layout {
                    constants: old(constants)@,
                    sizes: in_use(old(dynamics)@, variables@),
                };
                let lowered = lower_boolean::<H>(NodeBoolean::Not(*node), variables@, at);
                assert(operations@ =~= old(operations)@ + lowered.code);
                assert(in_use(dynamics@, variables@) =~= lowered.layout.sizes);
            }
            Pointer::Dynamic(index)
        },
    }
}

fn compile_both<H>(
    node: &NodeBooleanBoth,
    variables: &Schema,
    constants: &mut Scratch,
    dynamics: &mut Scratch,
    operations: &mut Vec<(usize, Instruction<H>)>,
) -> (pointer: Pointer)
    requires
        (NodeBoolean::Both(*node)).typed(variables@),
    ensures
        emitted(
            lower_boolean::<H>(
                NodeBoolean::Both(*node),
                variables@,
                Layout { constants: old(constants)@, sizes: in_use(old(dynamics)@, variables@) },
            ),
            pointer,
            variables@,
            final(constants)@,
            final(dynamics)@,
            final(operations)@,
            old(operations)@,
            old(dynamics)@,
        ),
    decreases node,
{
    match node {
        NodeBooleanBoth::BooleanBoolean { left, right } => {
            let left = compile_boolean(left, variables, constants, dynamics, operations);
            let jump_insert = operations.len();
            operations.push((0, Instruction::Nothing));
            let right = compile_boolean(right, variables, constants, dynamics, operations);
            let output = dynamics.boolean.len();
            dynamics.boolean.push(false);
            let forward = operations.len() - jump_insert;
            operations.set(
                jump_insert,
                (output, Instruction::SkipIfFalse { check: left, forward }),
            );
            operations.push((output, Instruction::BothBoolBool { left, right }));
            proof {
                let at = Layout {
                    constants: old(constants)@,
                    sizes: in_use(old(dynamics)@, variables@),
                };
                let lowered = lower_boolean::<H>(NodeBoolean::Both(*node), variables@, at);
                assert(operations@ =~= old(operations)@ + lowered.code);
                assert(in_use(dynamics@, variables@) =~= lowered.layout.sizes);
            }
            Pointer::Dynamic(output)
        },
    }
}

fn compile_either<H>(
    node: &NodeBooleanEither,
    variables: &Schema,
    constants: &mut Scratch,
    dynamics: &mut Scratch,
    operations: &mut Vec<(usize, Instruction<H>)>,
) -> (pointer: Pointer)
    requires
        (NodeBoolean::Either(*node)).typed(variables@),
    ensures
        emitted(
            lower_boolean::<H>(
                NodeBoolean::Either(*node),
                variables@,
                Layout { constants: old(constants)@, sizes: in_use(old(dynamics)@, variables@) },
            ),
            pointer,
            variables@,
            final(constants)@,
            final(dynamics)@,
            final(operations)@,
            old(operations)@,
            old(dynamics)@,
        ),
    decreases node,
{
    match node {
        NodeBooleanEither::BooleanBoolean { left, right } => {
            let left = compile_boolean(left, variables, constants, dynamics, operations);
            let jump_insert = operations.len();
            operations.push((0, Instruction::Nothing));
            let right = compile_boolean(right, variables, constants, dynamics, operations);
            let output = dynamics.boolean.len();
            dynamics.boolean.push(false);
            let forward = operations.len() - jump_insert;
            operations.set(
                jump_insert,
                (output, Instruction::SkipIfTrue { check: left, forward }),
            );
            operations.push((output, Instruction::EitherBoolBool { left, right }));
            proof {
                let at = Layout {
                    constants: old(constants)@,
                    sizes: in_use(old(dynamics)@, variables@),
                };
                let lowered = lower_boolean::<H>(NodeBoolean::Either(*node), variables@, at);
                assert(operations@ =~= old(operations)@ + lowered.code);
                assert(in_use(dynamics@, variables@) =~= lowered.layout.sizes);
            }
            Pointer::Dynamic(output)
        },
    }
}

fn compile_within<H>(
    node: &NodeBooleanWithin,
    variables: &Schema,
    constants: &mut Scratch,
    dynamics: &mut Scratch,
    operations: &mut Vec<(usize, Instruction<H>)>,
) -> (pointer: Pointer)
    requires
        (NodeBoolean::Within(*node)).typed(variables@),
    ensures
        emitted(
            lower_boolean::<H>(
                NodeBoolean::Within(*node),
                variables@,
                Layout { constants: old(constants)@, sizes: in_use(old(dynamics)@, variables@) },
            ),
            pointer,
            variables@,
            final(constants)@,
            final(dynamics)@,
            final(operations)@,
            old(operations)@,
            old(dynamics)@,
        ),
    decreases node,
{
    match node {
        NodeBooleanWithin::IpCidr { left, right } => {
            let left = compile_ip(left, variables, constants, Ghost(in_use(dynamics@, variables@)));
            let right = compile_cidr(
                right,
                variables,
                constants,
                Ghost(in_use(dynamics@, variables@)),
            );
            dynamics.boolean.push(false);
            let index = dynamics.boolean.len() - 1;
            operations.push((index, Instruction::WithinIpCidr { left, right }));
            proof {
                let at = Layout {
                    constants: old(constants)@,
                    sizes: in_use(old(dynamics)@, variables@),
                };
                let lowered = lower_boolean::<H>(NodeBoolean::Within(*node), variables@, at);
                assert(operations@ =~= old(operations)@ + lowered.code);
                assert(in_use(dynamics@, variables@) =~= lowered.layout.sizes);
            }
            Pointer::Dynamic(index)
        },
    }
}

/// Compiles the comparison of two operands of one type.
fn compile_equals_string<H>(
    left: &NodeString,
    right: &NodeString,
    variables: &Schema,
    constants: &mut Scratch,
    dynamics: &mut Scratch,
    operations: &mut Vec<(usize, Instruction<H>)>,
) -> (pointer: Pointer)
    requires
        (NodeBoolean::equals_string(*left, *right)).typed(variables@),
    ensures
        emitted(
            lower_boolean::<H>(
                NodeBoolean::equals_string(*left, *right),
                variables@,
                Layout { constants: old(constants)@, sizes: in_use(old(dynamics)@, variables@) },
            ),
            pointer,
            variables@,
            final(constants)@,
            final(dynamics)@,
            final(operations)@,
            old(operations)@,
            old(dynamics)@,
        ),
{
    let first = compile_string(left, variables, constants, dynamics, operations);
    let second = compile_string(right, variables, constants, dynamics, operations);
    dynamics.boolean.push(false);
    let index = dynamics.boolean.len() - 1;
    operations.push((index, Instruction::EqualsStringString { left: first, right: second }));
    proof {
        let at = Layout {
            constants: old(constants)@,
            sizes: in_use(old(dynamics)@, variables@),
        };
        let lowered = lower_boolean::<H>(
            NodeBoolean::equals_string(*left, *right),
            variables@,
            at,
        );
        assert(operations@ =~= old(operations)@ + lowered.code);
        assert(in_use(dynamics@, variables@) =~= lowered.layout.sizes);
    }
    Pointer::Dynamic(index)
}

/// Compiles the comparison of two operands of one type.
fn compile_equals_uint64<H>(
    left: &NodeUint64,
    right: &NodeUint64,
    variables: &Schema,
    constants: &mut Scratch,
    dynamics: &mut Scratch,
    operations: &mut Vec<(usize, Instruction<H>)>,
) -> (pointer: Pointer)
    requires
        (NodeBoolean::equals_uint64(*left, *right)).typed(variables@),
    ensures
        emitted(
            lower_boolean::<H>(
                NodeBoolean::equals_uint64(*left, *right),
                variables@,
                Layout { constants: old(constants)@, sizes: in_use(old(dynamics)@, variables@) },
            ),
            pointer,
            variables@,
            final(constants)@,
            final(dynamics)@,
            final(operations)@,
            old(operations)@,
            old(dynamics)@,
        ),
{
    let first = compile_uint64(left, variables, constants, dynamics, operations);
    let second = compile_uint64(right, variables, constants, dynamics, operations);
    dynamics.boolean.push(false);
    let index = dynamics.boolean.len() - 1;
    operations.push((index, Instruction::EqualsUint64Uint64 { left: first, right: second }));
    proof {
        let at = Layout {
            constants: old(constants)@,
            sizes: in_use(old(dynamics)@, variables@),
        };
        let lowered = lower_boolean::<H>(
            NodeBoolean::equals_uint64(*left, *right),
            variables@,
            at,
        );
        assert(operations@ =~= old(operations)@ + lowered.code);
        assert(in_use(dynamics@, variables@) =~= lowered.layout.sizes);
    }
    Pointer::Dynamic(index)
}

/// Compiles the comparison of two operands of one type.
fn compile_equals_int64<H>(
    left: &NodeInt64,
    right: &NodeInt64,
    variables: &Schema,
    constants: &mut Scratch,
    dynamics: &mut Scratch,
    operations: &mut Vec<(usize, Instruction<H>)>,
) -> (pointer: Pointer)
    requires
        (NodeBoolean::equals_int64(*left, *right)).typed(variables@),
    ensures
        emitted(
            lower_boolean::<H>(
                NodeBoolean::equals_int64(*left, *right),
                variables@,
                Layout { constants: old(constants)@, sizes: in_use(old(dynamics)@, variables@) },
            ),
            pointer,
            variables@,
            final(constants)@,
            final(dynamics)@,
            final(operations)@,
            old(operations)@,
            old(dynamics)@,
        ),
{
    let first = compile_int64(left, variables, constants, dynamics, operations);
    let second = compile_int64(right, variables, constants, dynamics, operations);
    dynamics.boolean.push(false);
    let index = dynamics.boolean.len() - 1;
    operations.push((index, Instruction::EqualsInt64Int64 { left: first, right: second }));
    proof {
        let at = Layout {
            constants: old(constants)@,
            sizes: in_use(old(dynamics)@, variables@),
        };
        let lowered = lower_boolean::<H>(
            NodeBoolean::equals_int64(*left, *right),
            variables@,
            at,
        );
        assert(operations@ =~= old(operations)@ + lowered.code);
        assert(in_use(dynamics@, variables@) =~= lowered.layout.sizes);
    }
    Pointer::Dynamic(index)
}

/// Compiles the comparison of two operands of one type.
fn compile_equals_ip<H>(
    left: &NodeIp,
    right: &NodeIp,
    variables: &Schema,
    constants: &mut Scratch,
    dynamics: &mut Scratch,
    operations: &mut Vec<(usize, Instruction<H>)>,
) -> (pointer: Pointer)
    requires
        (NodeBoolean::equals_ip(*left, *right)).typed(variables@),
    ensures
        emitted(
            lower_boolean::<H>(
                NodeBoolean::equals_ip(*left, *right),
                variables@,
                Layout { constants: old(constants)@, sizes: in_use(old(dynamics)@, variables@) },
            ),
            pointer,
            variables@,
            final(constants)@,
            final(dynamics)@,
            final(operations)@,
            old(operations)@,
            old(dynamics)@,
        ),
{
    let first = compile_ip(left, variables, constants, Ghost(in_use(dynamics@, variables@)));
    let second = compile_ip(right, variables, constants, Ghost(in_use(dynamics@, variables@)));
    dynamics.boolean.push(false);
    let index = dynamics.boolean.len() - 1;
    operations.push((index, Instruction::EqualsIpIP { left: first, right: second }));
    proof {
        let at = Layout {
            constants: old(constants)@,
            sizes: in_use(old(dynamics)@, variables@),
        };
        let lowered = lower_boolean::<H>(
            NodeBoolean::equals_ip(*left, *right),
            variables@,
            at,
        );
        assert(operations@ =~= old(operations)@ + lowered.code);
        assert(in_use(dynamics@, variables@) =~= lowered.layout.sizes);
    }
    Pointer::Dynamic(index)
}

fn compile_equals<H>(
    node: &NodeBooleanEquals,
    variables: &Schema,
    constants: &mut Scratch,
    dynamics: &mut Scratch,
    operations: &mut Vec<(usize, Instruction<H>)>,
) -> (pointer: Pointer)
    requires
        (NodeBoolean::Equals(*node)).typed(variables@),
    ensures
        emitted(
            lower_boolean::<H>(
                NodeBoolean::Equals(*node),
                variables@,
                Layout { constants: old(constants)@, sizes: in_use(old(dynamics)@, variables@) },
            ),
            pointer,
            variables@,
            final(constants)@,
            final(dynamics)@,
            final(operations)@,
            old(operations)@,
            old(dynamics)@,
        ),
    decreases node,
{
    match node {
        NodeBooleanEquals::BooleanBoolean { left, right } => {
            let left = compile_boolean(left, variables, constants, dynamics, operations);
            let right = compile_boolean(right, variables, constants, dynamics, operations);
            dynamics.boolean.push(false);
            let index = dynamics.boolean.len() - 1;
            operations.push((index, Instruction::EqualsBoolBool { left, right }));
            proof {
                let at = Layout {
                    constants: old(constants)@,
                    sizes: in_use(old(dynamics)@, variables@),
                };
                let lowered = lower_boolean::<H>(NodeBoolean::Equals(*node), variables@, at);
                assert(operations@ =~= old(operations)@ + lowered.code);
                assert(in_use(dynamics@, variables@) =~= lowered.layout.sizes);
            }
            Pointer::Dynamic(index)
        },
        NodeBooleanEquals::StringString { left, right } => compile_equals_string(
            left,
            right,
            variables,
            constants,
            dynamics,
            operations,
        ),
        NodeBooleanEquals::Uint64Uint64 { left, right } => compile_equals_uint64(
            left,
            right,
            variables,
            constants,
            dynamics,
            operations,
        ),
        NodeBooleanEquals::Int64Int64 { left, right } => compile_equals_int64(
            left,
            right,
            variables,
            constants,
            dynamics,
            operations,
        ),
        NodeBooleanEquals::IpIp { left, right } => compile_equals_ip(
            left,
            right,
            variables,
            constants,
            dynamics,
            operations,
        ),
    }
}

fn compile_matches<H>(
    node: &NodeBooleanMatches,
    variables: &Schema,
    constants: &mut Scratch,
    dynamics: &mut Scratch,
    operations: &mut Vec<(usize, Instruction<H>)>,
) -> (pointer: Pointer)
    requires
        (NodeBoolean::Matches(*node)).typed(variables@),
    ensures
        emitted(
            lower_boolean::<H>(
                NodeBoolean::Matches(*node),
                variables@,
                Layout { constants: old(constants)@, sizes: in_use(old(dynamics)@, variables@) },
            ),
            pointer,
            variables@,
            final(constants)@,
            final(dynamics)@,
            final(operations)@,
            old(operations)@,
            old(dynamics)@,
        ),
    decreases node,
{
    match node {
        NodeBooleanMatches::StringRegex { left, right } => {
            let left = compile_string(left, variables, constants, dynamics, operations);
            let right = compile_regex(
                right,
                variables,
                constants,
                Ghost(in_use(dynamics@, variables@)),
            );
            dynamics.boolean.push(false);
            let index = dynamics.boolean.len() - 1;
            operations.push((index, Instruction::MatchesStringRegex { left, right }));
            proof {
                let at = Layout {
                    constants: old(constants)@,
                    sizes: in_use(old(dynamics)@, variables@),
                };
                let lowered = lower_boolean::<H>(NodeBoolean::Matches(*node), variables@, at);
                assert(operations@ =~= old(operations)@ + lowered.code);
                assert(in_use(dynamics@, variables@) =~= lowered.layout.sizes);
            }
            Pointer::Dynamic(index)
        },
    }
}

fn compile_boolean<H>(
    node: &NodeBoolean,
    variables: &Schema,
    constants: &mut Scratch,
    dynamics: &mut Scratch,
    operations: &mut Vec<(usize, Instruction<H>)>,
) -> (pointer: Pointer)
    requires
        (*node).typed(variables@),
    ensures
        emitted(
            lower_boolean::<H>(
                *node,
                variables@,
                Layout { constants: old(constants)@, sizes: in_use(old(dynamics)@, variables@) },
            ),
            pointer,
            variables@,
            final(constants)@,
            final(dynamics)@,
            final(operations)@,
            old(operations)@,
            old(dynamics)@,
        ),
    decreases node,
{
    match node {
        NodeBoolean::Constant(value) => {
            constants.boolean.push(*value);
            assert(constants@ =~= Memory {
                boolean: old(constants)@.boolean.push(*value),
                ..old(constants)@
            });
            assert(operations@ =~= old(operations)@ + Seq::<Operation<H>>::empty());
            Pointer::Constant(constants.boolean.len() - 1)
        },
        NodeBoolean::Variable { name } => {
            assert(operations@ =~= old(operations)@ + Seq::<Operation<H>>::empty());
            compile_variable(name, variables)
        },
        NodeBoolean::Not(node) => compile_not(node, variables, constants, dynamics, operations),
        NodeBoolean::Both(node) => compile_both(node, variables, constants, dynamics, operations),
        NodeBoolean::Either(node) => compile_either(
            node,
            variables,
            constants,
            dynamics,
            operations,
        ),
        NodeBoolean::Within(node) => compile_within(
            node,
            variables,
            constants,
            dynamics,
            operations,
        ),
        NodeBoolean::Equals(node) => compile_equals(
            node,
            variables,
            constants,
            dynamics,
            operations,
        ),
        NodeBoolean::Matches(node) => compile_matches(
            node,
            variables,
            constants,
            dynamics,
            operations,
        ),
    }
}

/// A copy of a vector of plain values.
fn copy_plain<T: Copy>(values: &Vec<T>) -> (copy: Vec<T>)
    ensures
        copy@ == values@,
{
    let mut copy: Vec<T> = Vec::new();
    let mut i: usize = 0;
    while i < values.len()
        invariant
            i <= values@.len(),
            copy@ == values@.take(i as int),
        decreases values.len() - i,
    {
        copy.push(values[i]);
        assert(copy@ =~= values@.take(i + 1));
        i += 1;
    }
    assert(values@.take(values@.len() as int) =~= values@);
    copy
}

impl Scratch {
    /// Storage has no more slots of a type than the machine can index.
    proof fn lemma_indexable(&self)
        ensures
            indexable(self@.sizes()),
    {
        assert(self.boolean.len() == self.boolean@.len());
        assert(self.cidr.len() == self.cidr@.len());
        assert(self.int64.len() == self.int64@.len());
        assert(self.ip.len() == self.ip@.len());
        assert(self.string.len() == self.string@.len());
        assert(self.uint64.len() == self.uint64@.len());
        assert(self.regex.len() == self.regex@.len());
    }

    /// A copy of the storage: the same values in the same slots.
    pub fn copy(&self) -> (copy: Scratch)
        ensures
            copy@ == self@,
    {
        let mut string: Vec<String> = Vec::new();
        let mut i: usize = 0;
        while i < self.string.len()
            invariant
                i <= self.string@.len(),
                string@.len() == i,
                forall|j: int| 0 <= j < i ==> string@[j]@ == self.string@[j]@,
            decreases self.string.len() - i,
        {
            string.push(self.string[i].clone());
            i += 1;
        }
        let mut regex: Vec<Pattern> = Vec::new();
        let mut k: usize = 0;
        while k < self.regex.len()
            invariant
                k <= self.regex@.len(),
                regex@.len() == k,
                forall|j: int| 0 <= j < k ==> regex@[j]@ == self.regex@[j]@,
            decreases self.regex.len() - k,
        {
            regex.push(self.regex[k].clone());
            k += 1;
        }
        let copy = Scratch {
            boolean: copy_plain(&self.boolean),
            cidr: copy_plain(&self.cidr),
            int64: copy_plain(&self.int64),
            ip: copy_plain(&self.ip),
            string,
            uint64: copy_plain(&self.uint64),
            regex,
        };
        assert(copy@ =~= self@);
        copy
    }

    /// Storage with one slot for each field of `variables` that is no
    /// regular expression, each holding the default of its type.
    fn for_fields(variables: &Schema) -> (scratch: Scratch)
        ensures
            in_use(scratch@, variables@) == base(variables@),
            scratch@.regex.len() == 0,
    {
        let mut scratch = Scratch::new();
        let mut i: usize = 0;
        while i < variables.len()
            invariant
                i <= variables@.len(),
                scratch@.regex.len() == 0,
                scratch@.boolean.len() == count(variables@, Variable::Boolean, i as int),
                scratch@.cidr.len() == count(variables@, Variable::Cidr, i as int),
                scratch@.int64.len() == count(variables@, Variable::Int64, i as int),
                scratch@.ip.len() == count(variables@, Variable::Ip, i as int),
                scratch@.string.len() == count(variables@, Variable::String, i as int),
                scratch@.uint64.len() == count(variables@, Variable::Uint64, i as int),
            decreases variables@.len() - i,
        {
            match variables.kind(i) {
                Variable::Boolean => scratch.boolean.push(false),
                Variable::Cidr => scratch.cidr.push(Cidr::new_host(Ip::V4(0))),
                Variable::Int64 => scratch.int64.push(0),
                Variable::Ip => scratch.ip.push(Ip::V4(0)),
                Variable::String => scratch.string.push(String::new()),
                Variable::Uint64 => scratch.uint64.push(0),
                Variable::Regex => {},
            }
            i += 1;
        }
        assert(in_use(scratch@, variables@) =~= base(variables@));
        scratch
    }

    /// Lengthens each kind of slot, with the default of its type, to the
    /// length that `other` has of it.
    fn widen(&mut self, other: &Scratch)
        requires
            old(self)@.regex.len() == 0,
        ensures
            final(self)@.regex.len() == 0,
            final(self)@.sizes() == (Sizes {
                regex: 0,
                ..old(self)@.sizes().max(other@.sizes())
            }),
    {
        while self.boolean.len() < other.boolean.len()
            invariant
                self.boolean@.len() <= old(self).boolean@.len() || self.boolean@.len()
                    <= other.boolean@.len(),
                self.boolean@.len() >= old(self).boolean@.len(),
                self.cidr == old(self).cidr,
                self.int64 == old(self).int64,
                self.ip == old(self).ip,
                self.string == old(self).string,
                self.uint64 == old(self).uint64,
                self.regex == old(self).regex,
            decreases other.boolean.len() - self.boolean.len(),
        {
            self.boolean.push(false);
        }
        while self.cidr.len() < other.cidr.len()
            invariant
                self.cidr@.len() <= old(self).cidr@.len() || self.cidr@.len() <= other.cidr@.len(),
                self.cidr@.len() >= old(self).cidr@.len(),
                self.boolean@.len() == old(self)@.sizes().max(other@.sizes()).boolean,
                self.int64 == old(self).int64,
                self.ip == old(self).ip,
                self.string == old(self).string,
                self.uint64 == old(self).uint64,
                self.regex == old(self).regex,
            decreases other.cidr.len() - self.cidr.len(),
        {
            self.cidr.push(Cidr::new_host(Ip::V4(0)));
        }
        while self.int64.len() < other.int64.len()
            invariant
                self.int64@.len() <= old(self).int64@.len() || self.int64@.len()
                    <= other.int64@.len(),
                self.int64@.len() >= old(self).int64@.len(),
                self.boolean@.len() == old(self)@.sizes().max(other@.sizes()).boolean,
                self.cidr@.len() == old(self)@.sizes().max(other@.sizes()).cidr,
                self.ip == old(self).ip,
                self.string == old(self).string,
                self.uint64 == old(self).uint64,
                self.regex == old(self).regex,
            decreases other.int64.len() - self.int64.len(),
        {
            self.int64.push(0);
        }
        while self.ip.len() < other.ip.len()
            invariant
                self.ip@.len() <= old(self).ip@.len() || self.ip@.len() <= other.ip@.len(),
                self.ip@.len() >= old(self).ip@.len(),
                self.boolean@.len() == old(self)@.sizes().max(other@.sizes()).boolean,
                self.cidr@.len() == old(self)@.sizes().max(other@.sizes()).cidr,
                self.int64@.len() == old(self)@.sizes().max(other@.sizes()).int64,
                self.string == old(self).string,
                self.uint64 == old(self).uint64,
                self.regex == old(self).regex,
            decreases other.ip.len() - self.ip.len(),
        {
            self.ip.push(Ip::V4(0));
        }
        while self.string.len() < other.string.len()
            invariant
                self.string@.len() <= old(self).string@.len() || self.string@.len()
                    <= other.string@.len(),
                self.string@.len() >= old(self).string@.len(),
                self.boolean@.len() == old(self)@.sizes().max(other@.sizes()).boolean,
                self.cidr@.len() == old(self)@.sizes().max(other@.sizes()).cidr,
                self.int64@.len() == old(self)@.sizes().max(other@.sizes()).int64,
                self.ip@.len() == old(self)@.sizes().max(other@.sizes()).ip,
                self.uint64 == old(self).uint64,
                self.regex == old(self).regex,
            decreases other.string.len() - self.string.len(),
        {
            self.string.push(String::new());
        }
        while self.uint64.len() < other.uint64.len()
            invariant
                self.uint64@.len() <= old(self).uint64@.len() || self.uint64@.len()
                    <= other.uint64@.len(),
                self.uint64@.len() >= old(self).uint64@.len(),
                self.boolean@.len() == old(self)@.sizes().max(other@.sizes()).boolean,
                self.cidr@.len() == old(self)@.sizes().max(other@.sizes()).cidr,
                self.int64@.len() == old(self)@.sizes().max(other@.sizes()).int64,
                self.ip@.len() == old(self)@.sizes().max(other@.sizes()).ip,
                self.string@.len() == old(self)@.sizes().max(other@.sizes()).string,
                self.regex == old(self).regex,
            decreases other.uint64.len() - self.uint64.len(),
        {
            self.uint64.push(0);
        }
        assert(self@.sizes() =~= (Sizes { regex: 0, ..old(self)@.sizes().max(other@.sizes()) }));
    }
}

/// A compiled batch of predicates over one schema.
pub struct Engine<H> {
    operations: Vec<(usize, Instruction<H>)>,
    constants: Scratch,
    reference_dynamics: Scratch,
    variables: Schema,
    predicates: Ghost<Seq<(H, NodeBoolean)>>,
}

/// The identifiers that references point to.
pub open spec fn targets<H>(references: Seq<&H>) -> Seq<H> {
    Seq::new(references.len(), |i: int| *references[i])
}

impl<H> Engine<H> {
    #[verifier::type_invariant]
    spec fn well_formed(self) -> bool {
        let compiled = program(self.predicates@, self.variables@);
        &&& compilable(self.predicates@, self.variables@)
        &&& self.operations@ == compiled.code
        &&& self.constants@ == compiled.constants
        &&& in_use(self.reference_dynamics@, self.variables@) == compiled.sizes
        &&& self.reference_dynamics@.regex.len() == 0
    }

    /// The predicates that the engine was compiled from, each with its
    /// identifier, in order.
    pub closed spec fn predicates(self) -> Seq<(H, NodeBoolean)> {
        self.predicates@
    }

    /// The fields of the schema that the engine was compiled over.
    pub closed spec fn schema(self) -> Fields {
        self.variables@
    }

    /// The program of the engine.
    pub closed spec fn instructions(self) -> Seq<Operation<H>> {
        self.operations@
    }

    /// The pool of constants of the engine.
    pub closed spec fn pool(self) -> Memory {
        self.constants@
    }

    /// The number of dynamic slots of each type that one evaluation takes.
    pub closed spec fn room(self) -> Sizes {
        in_use(self.reference_dynamics@, self.variables@)
    }

    /// What an engine is made of: the program, the pool and the room that
    /// its predicates are lowered to over its schema.
    pub open spec fn compiled_from(
        self,
        predicates: Seq<(H, NodeBoolean)>,
        fields: Fields,
    ) -> bool {
        &&& self.predicates() == predicates
        &&& self.schema() == fields
        &&& self.instructions() == program(predicates, fields).code
        &&& self.pool() == program(predicates, fields).constants
        &&& self.room() == program(predicates, fields).sizes
    }
}

/// A copy of an instruction.
fn copy_instruction<H: Copy>(instruction: &Instruction<H>) -> (copy: Instruction<H>)
    ensures
        copy == *instruction,
{
    match instruction {
        Instruction::Nothing => Instruction::Nothing,
        Instruction::SkipIfTrue { check, forward } => Instruction::SkipIfTrue {
            check: *check,
            forward: *forward,
        },
        Instruction::SkipIfFalse { check, forward } => Instruction::SkipIfFalse {
            check: *check,
            forward: *forward,
        },
        Instruction::RaiseOutput { boolean, id } => Instruction::RaiseOutput {
            boolean: *boolean,
            id: *id,
        },
        Instruction::AddStringString { left, right } => Instruction::AddStringString {
            left: *left,
            right: *right,
        },
        Instruction::AddUint64Uint64 { left, right } => Instruction::AddUint64Uint64 {
            left: *left,
            right: *right,
        },
        Instruction::BothBoolBool { left, right } => Instruction::BothBoolBool {
            left: *left,
            right: *right,
        },
        Instruction::EitherBoolBool { left, right } => Instruction::EitherBoolBool {
            left: *left,
            right: *right,
        },
        Instruction::EqualsBoolBool { left, right } => Instruction::EqualsBoolBool {
            left: *left,
            right: *right,
        },
        Instruction::EqualsStringString { left, right } => Instruction::EqualsStringString {
            left: *left,
            right: *right,
        },
        Instruction::EqualsUint64Uint64 { left, right } => Instruction::EqualsUint64Uint64 {
            left: *left,
            right: *right,
        },
        Instruction::EqualsInt64Int64 { left, right } => Instruction::EqualsInt64Int64 {
            left: *left,
            right: *right,
        },
        Instruction::EqualsIpIP { left, right } => Instruction::EqualsIpIP {
            left: *left,
            right: *right,
        },
        Instruction::NegativeUint64(child) => Instruction::NegativeUint64(*child),
        Instruction::NotBool(child) => Instruction::NotBool(*child),
        Instruction::SubtractUint64Uint64 { left, right } => Instruction::SubtractUint64Uint64 {
            left: *left,
            right: *right,
        },
        Instruction::WithinIpCidr { left, right } => Instruction::WithinIpCidr {
            left: *left,
            right: *right,
        },
        Instruction::MatchesStringRegex { left, right } => Instruction::MatchesStringRegex {
            left: *left,
            right: *right,
        },
    }
}

impl<H: Copy> Clone for Engine<H> {
    /// An engine of the same predicates over the same schema.
    fn clone(&self) -> (copy: Self)
        ensures
            copy.compiled_from(self.predicates(), self.schema()),
    {
        proof {
            use_type_invariant(self);
        }
        let mut operations: Vec<(usize, Instruction<H>)> = Vec::new();
        let mut i: usize = 0;
        while i < self.operations.len()
            invariant
                i <= self.operations@.len(),
                operations@ == self.operations@.take(i as int),
            decreases self.operations.len() - i,
        {
            operations.push((self.operations[i].0, copy_instruction(&self.operations[i].1)));
            assert(operations@ =~= self.operations@.take(i + 1));
            i += 1;
        }
        assert(self.operations@.take(self.operations@.len() as int) =~= self.operations@);
        Engine {
            operations,
            constants: self.constants.copy(),
            reference_dynamics: self.reference_dynamics.copy(),
            variables: self.variables.copy(),
            predicates: Ghost(self.predicates@),
        }
    }
}

/// The negation of `value` in 64-bit two's complement.
fn negate(value: u64) -> (negative: i64)
    ensures
        negative == negated(value),
{
    if value <= 0x7fff_ffff_ffff_ffff {
        -(value as i64)
    } else if value == 0x8000_0000_0000_0000 {
        i64::MIN
    } else {
        (u64::MAX - value + 1) as i64
    }
}

impl<H> Engine<H> {
    /// The program, the pool and the storage of an engine fit the machine's
    /// index type.
    proof fn lemma_within(&self)
        requires
            self.well_formed(),
        ensures
            within(
                Layout {
                    constants: program(self.predicates@, self.variables@).constants,
                    sizes: program(self.predicates@, self.variables@).sizes,
                },
                program(self.predicates@, self.variables@).code.len(),
            ),
    {
        self.constants.lemma_indexable();
        self.reference_dynamics.lemma_indexable();
        self.variables.lemma_len_bounded();
        lemma_count_bound(self.variables@, Variable::Regex, self.variables@.len() as int);
        assert(self.operations.len() == self.operations@.len());
    }

    fn make_scratch(&self) -> (scratch: Scratch)
        ensures
            scratch@ == self.reference_dynamics@,
    {
        self.reference_dynamics.copy()
    }

    fn resolve_uint64<'a>(&'a self, dynamics: &'a Scratch, pointer: &Pointer) -> (value: &'a u64)
        requires
            pointer_fits(*pointer, self.constants@.uint64.len(), dynamics@.uint64.len()),
        ensures
            *value == read_uint64(self.constants@, dynamics@, *pointer),
    {
        match pointer {
            Pointer::Constant(i) => &self.constants.uint64[*i],
            Pointer::Dynamic(i) => &dynamics.uint64[*i],
        }
    }

    fn resolve_int64<'a>(&'a self, dynamics: &'a Scratch, pointer: &Pointer) -> (value: &'a i64)
        requires
            pointer_fits(*pointer, self.constants@.int64.len(), dynamics@.int64.len()),
        ensures
            *value == read_int64(self.constants@, dynamics@, *pointer),
    {
        match pointer {
            Pointer::Constant(i) => &self.constants.int64[*i],
            Pointer::Dynamic(i) => &dynamics.int64[*i],
        }
    }

    fn resolve_cidr<'a>(&'a self, dynamics: &'a Scratch, pointer: &Pointer) -> (value: &'a Cidr)
        requires
            pointer_fits(*pointer, self.constants@.cidr.len(), dynamics@.cidr.len()),
        ensures
            *value == read_cidr(self.constants@, dynamics@, *pointer),
    {
        match pointer {
            Pointer::Constant(i) => &self.constants.cidr[*i],
            Pointer::Dynamic(i) => &dynamics.cidr[*i],
        }
    }

    fn resolve_ip<'a>(&'a self, dynamics: &'a Scratch, pointer: &Pointer) -> (value: &'a Ip)
        requires
            pointer_fits(*pointer, self.constants@.ip.len(), dynamics@.ip.len()),
        ensures
            *value == read_ip(self.constants@, dynamics@, *pointer),
    {
        match pointer {
            Pointer::Constant(i) => &self.constants.ip[*i],
            Pointer::Dynamic(i) => &dynamics.ip[*i],
        }
    }

    fn resolve_regex<'a>(&'a self, dynamics: &'a Scratch, pointer: &Pointer) -> (value: &'a Pattern)
        requires
            pointer_fits(*pointer, self.constants@.regex.len(), dynamics@.regex.len()),
        ensures
            value@ == read_regex(self.constants@, dynamics@, *pointer),
    {
        match pointer {
            Pointer::Constant(i) => &self.constants.regex[*i],
            Pointer::Dynamic(i) => &dynamics.regex[*i],
        }
    }

    fn resolve_string<'a>(&'a self, dynamics: &'a Scratch, pointer: &Pointer) -> (value: &'a String)
        requires
            pointer_fits(*pointer, self.constants@.string.len(), dynamics@.string.len()),
        ensures
            value@ == read_string(self.constants@, dynamics@, *pointer),
    {
        match pointer {
            Pointer::Constant(i) => &self.constants.string[*i],
            Pointer::Dynamic(i) => &dynamics.string[*i],
        }
    }

    fn resolve_boolean<'a>(&'a self, dynamics: &'a Scratch, pointer: &Pointer) -> (value: &'a bool)
        requires
            pointer_fits(*pointer, self.constants@.boolean.len(), dynamics@.boolean.len()),
        ensures
            *value == read_boolean(self.constants@, dynamics@, *pointer),
    {
        match pointer {
            Pointer::Constant(i) => &self.constants.boolean[*i],
            Pointer::Dynamic(i) => &dynamics.boolean[*i],
        }
    }

    /// Writes the values of `record` to the slots of the fields.
    fn load(&self, dynamics: &mut Scratch, record: &Vec<Value>)
        requires
            admits(self.variables@, data(record@)),
            old(dynamics)@ == self.reference_dynamics@,
        ensures
            ready(
                final(dynamics)@,
                self.variables@,
                data(record@),
                program(self.predicates@, self.variables@).sizes,
            ),
            final(dynamics)@.sizes() == program(self.predicates@, self.variables@).sizes,
    {
        proof {
            use_type_invariant(self);
            lemma_program_grows(self.predicates@, self.variables@);
        }
        let ghost fields = self.variables@;
        let ghost values = data(record@);
        let ghost room = program(self.predicates@, self.variables@).sizes;
        let mut i: usize = 0;
        while i < record.len()
            invariant
                i <= record@.len(),
                fields == self.variables@,
                values == data(record@),
                admits(fields, values),
                room.covers(base(fields)),
                dynamics@.sizes() == (Sizes {
                    regex: count(fields, Variable::Regex, i as int),
                    ..room
                }),
                forall|j: int|
                    0 <= j < i ==> datum_at(dynamics@, fields[j].1, slot(fields, j) as int)
                        == #[trigger] values[j],
            decreases record.len() - i,
        {
            let at = self.variables.slot(i);
            let ghost before = dynamics@;
            proof {
                lemma_count_monotone(fields, fields[i as int].1, i as int, fields.len() as int);
                assert(values[i as int].kind() == fields[i as int].1);
                assert(values[i as int] == record@[i as int]@);
            }
            match &record[i] {
                Value::Boolean(value) => {
                    dynamics.boolean.set(at, *value);
                },
                Value::Cidr(value) => {
                    dynamics.cidr.set(at, *value);
                },
                Value::Int64(value) => {
                    dynamics.int64.set(at, *value);
                },
                Value::Ip(value) => {
                    dynamics.ip.set(at, *value);
                },
                Value::String(value) => {
                    dynamics.string.set(at, value.clone());
                },
                Value::Uint64(value) => {
                    dynamics.uint64.set(at, *value);
                },
                Value::Regex(value) => {
                    dynamics.regex.push(value.clone());
                },
            }
            proof {
                assert forall|j: int| 0 <= j < i + 1 implies datum_at(
                    dynamics@,
                    fields[j].1,
                    slot(fields, j) as int,
                ) == #[trigger] values[j] by {
                    if j < i {
                        assert(datum_at(before, fields[j].1, slot(fields, j) as int) == values[j]);
                        if fields[j].1 == fields[i as int].1 {
                            lemma_count_monotone(fields, fields[j].1, j, i as int);
                        }
                        lemma_count_monotone(fields, fields[j].1, j, fields.len() as int);
                    }
                }
                assert(dynamics@.sizes() =~= (Sizes {
                    regex: count(fields, Variable::Regex, i + 1),
                    ..room
                }));
            }
            i += 1;
        }
        assert(dynamics@.sizes() =~= room);
    }

    /// Does what `instruction` does to the storage.
    fn execute(&self, dynamics: &mut Scratch, output: usize, instruction: &Instruction<H>)
        requires
            fits((output, *instruction), self.constants@.sizes(), old(dynamics)@.sizes()),
        ensures
            final(dynamics)@ == written(output, *instruction, self.constants@, old(dynamics)@),
    {
        match instruction {
            Instruction::Nothing => {},
            Instruction::SkipIfTrue { check, forward } => {
                let check = *self.resolve_boolean(dynamics, check);
                dynamics.boolean.set(output, check);
            },
            Instruction::SkipIfFalse { check, forward } => {
                let check = *self.resolve_boolean(dynamics, check);
                dynamics.boolean.set(output, check);
            },
            Instruction::RaiseOutput { boolean, id } => {},
            Instruction::AddUint64Uint64 { left, right } => {
                let value = self.resolve_uint64(dynamics, left).wrapping_add(
                    *self.resolve_uint64(dynamics, right),
                );
                dynamics.uint64.set(output, value);
            },
            Instruction::SubtractUint64Uint64 { left, right } => {
                let value = self.resolve_uint64(dynamics, left).wrapping_sub(
                    *self.resolve_uint64(dynamics, right),
                );
                dynamics.uint64.set(output, value);
            },
            Instruction::EqualsUint64Uint64 { left, right } => {
                let value = *self.resolve_uint64(dynamics, left) == *self.resolve_uint64(
                    dynamics,
                    right,
                );
                dynamics.boolean.set(output, value);
            },
            Instruction::EqualsInt64Int64 { left, right } => {
                let value = *self.resolve_int64(dynamics, left) == *self.resolve_int64(
                    dynamics,
                    right,
                );
                dynamics.boolean.set(output, value);
            },
            Instruction::WithinIpCidr { left, right } => {
                let value = self.resolve_cidr(dynamics, right).contains(
                    self.resolve_ip(dynamics, left),
                );
                dynamics.boolean.set(output, value);
            },
            Instruction::MatchesStringRegex { left, right } => {
                let value = self.resolve_regex(dynamics, right).is_match(
                    self.resolve_string(dynamics, left).as_str(),
                );
                dynamics.boolean.set(output, value);
            },
            Instruction::AddStringString { left, right } => {
                let value = self.resolve_string(dynamics, left).clone().concat(
                    self.resolve_string(dynamics, right).as_str(),
                );
                dynamics.string.set(output, value);
            },
            Instruction::BothBoolBool { left, right } => {
                let value = *self.resolve_boolean(dynamics, left) && *self.resolve_boolean(
                    dynamics,
                    right,
                );
                dynamics.boolean.set(output, value);
            },
            Instruction::EitherBoolBool { left, right } => {
                let value = *self.resolve_boolean(dynamics, left) || *self.resolve_boolean(
                    dynamics,
                    right,
                );
                dynamics.boolean.set(output, value);
            },
            Instruction::EqualsBoolBool { left, right } => {
                let value = *self.resolve_boolean(dynamics, left) == *self.resolve_boolean(
                    dynamics,
                    right,
                );
                dynamics.boolean.set(output, value);
            },
            Instruction::EqualsStringString { left, right } => {
                let value = *self.resolve_string(dynamics, left) == *self.resolve_string(
                    dynamics,
                    right,
                );
                dynamics.boolean.set(output, value);
            },
            Instruction::NegativeUint64(child) => {
                let value = negate(*self.resolve_uint64(dynamics, child));
                dynamics.int64.set(output, value);
            },
            Instruction::NotBool(child) => {
                let value = !*self.resolve_boolean(dynamics, child);
                dynamics.boolean.set(output, value);
            },
            Instruction::EqualsIpIP { left, right } => {
                let value = *self.resolve_ip(dynamics, left) == *self.resolve_ip(dynamics, right);
                dynamics.boolean.set(output, value);
            },
        }
        assert(dynamics@ =~= written(output, *instruction, self.constants@, old(dynamics)@));
    }

    /// The identifiers of the predicates whose value under `record` is true,
    /// in the order of the batch.
    pub fn eval(&self, record: &Vec<Value>) -> (matched: Vec<&H>)
        requires
            admits(self.schema(), data(record@)),
        ensures
            targets(matched@) == matching(self.predicates(), self.schema(), data(record@)),
    {
        proof {
            use_type_invariant(self);
            self.lemma_within();
            lemma_program_grows(self.predicates@, self.variables@);
            lemma_program_sound(self.predicates@, self.variables@);
        }
        let mut dynamics = self.make_scratch();
        self.load(&mut dynamics, record);
        let ghost code = self.operations@;
        let ghost pool = self.constants@;
        let ghost start = dynamics@;
        let ghost room = program(self.predicates@, self.variables@).sizes;
        proof {
            lemma_program_matches(
                self.predicates@,
                self.variables@,
                pool,
                start,
                data(record@),
            );
        }
        let mut matched: Vec<&H> = Vec::new();
        let mut cursor: usize = 0;
        while cursor < self.operations.len()
            invariant
                cursor <= code.len(),
                code == self.operations@,
                pool == self.constants@,
                sound(code, pool.sizes(), room),
                dynamics@.sizes() == room,
                run(code, pool, start, 0).matched == targets(matched@) + run(
                    code,
                    pool,
                    dynamics@,
                    cursor as int,
                ).matched,
            decreases code.len() - cursor,
        {
            let ghost before = dynamics@;
            let ghost reported = targets(matched@);
            let output = self.operations[cursor].0;
            let instruction = &self.operations[cursor].1;
            assert(fits(code[cursor as int], pool.sizes(), room));
            let mut step: usize = 1;
            match instruction {
                Instruction::SkipIfTrue { check, forward } => {
                    if *self.resolve_boolean(&dynamics, check) {
                        step = *forward + 1;
                    }
                },
                Instruction::SkipIfFalse { check, forward } => {
                    if !*self.resolve_boolean(&dynamics, check) {
                        step = *forward + 1;
                    }
                },
                Instruction::RaiseOutput { boolean, id } => {
                    if *self.resolve_boolean(&dynamics, boolean) {
                        matched.push(id);
                    }
                },
                _ => {},
            }
            self.execute(&mut dynamics, output, instruction);
            proof {
                assert(step == stride(*instruction, pool, before));
                assert(targets(matched@) =~= reported + raised(*instruction, pool, before));
                let rest = run(code, pool, dynamics@, cursor + step);
                assert(reported + (raised(*instruction, pool, before) + rest.matched) =~= (reported
                    + raised(*instruction, pool, before)) + rest.matched);
            }
            cursor = cursor + step;
        }
        proof {
            assert(targets(matched@) + Seq::<H>::empty() =~= targets(matched@));
        }
        matched
    }
}

/// Whether every predicate of `expressions` can be compiled over the schema
/// `variables`.
pub fn check<H>(variables: &Schema, expressions: &Vec<(H, NodeBoolean)>) -> (fits: bool)
    ensures
        fits == compilable(expressions@, variables@),
{
    let mut i: usize = 0;
    while i < expressions.len()
        invariant
            i <= expressions@.len(),
            forall|j: int| 0 <= j < i ==> (#[trigger] expressions@[j]).1.typed(variables@),
        decreases expressions.len() - i,
    {
        if !expressions[i].1.check(variables) {
            return false;
        }
        i += 1;
    }
    true
}

impl<H> Engine<H> {
    /// Two lists of matches that `eval` may hand out for one record name the
    /// same predicates in the same order: the matches depend on the engine
    /// and the record alone, and evaluating changes neither.
    pub proof fn lemma_eval_repeatable(self, record: Seq<Datum>, first: Seq<&H>, second: Seq<&H>)
        requires
            targets(first) == matching(self.predicates(), self.schema(), record),
            targets(second) == matching(self.predicates(), self.schema(), record),
        ensures
            targets(first) == targets(second),
            first.len() == second.len(),
            forall|i: int| 0 <= i < first.len() ==> *first[i] == *second[i],
    {
        assert(targets(first).len() == first.len());
        assert(targets(second).len() == second.len());
        assert forall|i: int| 0 <= i < first.len() implies *first[i] == *second[i] by {
            assert(targets(first)[i] == *first[i]);
            assert(targets(second)[i] == *second[i]);
        }
    }
}

/// Compiles a batch of parsed predicates, each with the identifier to report
/// it by, into an engine over the schema `variables`.
pub fn compile<H>(variables: Schema, expressions: Vec<(H, Ast<NodeBoolean>)>) -> (engine: Engine<H>)
    requires
        compilable(roots(expressions@), variables@),
    ensures
        engine.compiled_from(roots(expressions@), variables@),
{
    let ghost batch = expressions@;
    let mut predicates: Vec<(H, NodeBoolean)> = Vec::new();
    for item in it: expressions
        invariant
            it.seq() == batch,
            predicates@ == roots(batch.take(it.index())),
    {
        let (id, ast) = item;
        predicates.push((id, ast.into_root()));
        proof {
            assert(predicates@ =~= roots(batch.take(it.index() + 1)));
        }
    }
    assert(batch.take(batch.len() as int) =~= batch);
    compile_unsafe(variables, predicates)
}

/// The predicates of a batch of parsed predicates.
pub open spec fn roots<H>(expressions: Seq<(H, Ast<NodeBoolean>)>) -> Seq<(H, NodeBoolean)> {
    Seq::new(expressions.len(), |i: int| (expressions[i].0, expressions[i].1@))
}

/// Compiles a batch of predicates that did not come from the parser, each
/// with the identifier to report it by, into an engine over the schema
/// `variables`. It is for the caller to see that the predicates fit the
/// schema.
pub fn compile_unsafe<H>(variables: Schema, expressions: Vec<(H, NodeBoolean)>) -> (engine: Engine<
    H,
>)
    requires
        compilable(expressions@, variables@),
    ensures
        engine.compiled_from(expressions@, variables@),
{
    let ghost batch = expressions@;
    let ghost fields = variables@;
    let mut constants = Scratch::new();
    let initial_dynamics = Scratch::for_fields(&variables);
    let mut max_size_dynamics = initial_dynamics.copy();
    let mut operations: Vec<(usize, Instruction<H>)> = Vec::new();
    for item in it: expressions
        invariant
            it.seq() == batch,
            fields == variables@,
            compilable(batch, fields),
            in_use(initial_dynamics@, fields) == base(fields),
            initial_dynamics@.regex.len() == 0,
            max_size_dynamics@.regex.len() == 0,
            operations@ == program(batch.take(it.index()), fields).code,
            constants@ == program(batch.take(it.index()), fields).constants,
            in_use(max_size_dynamics@, fields) == program(batch.take(it.index()), fields).sizes,
    {
        let ghost done = batch.take(it.index() + 1);
        proof {
            assert(done.drop_last() =~= batch.take(it.index()));
            assert(done.last() == batch[it.index()]);
            assert forall|i: int| 0 <= i < done.len() implies (#[trigger] done[i]).1.typed(
                fields,
            ) by {
                assert(done[i] == batch[i]);
            }
            lemma_program_grows(done, fields);
        }
        let (id, expression) = item;
        let mut dynamics = initial_dynamics.copy();
        let boolean = compile_boolean(
            &expression,
            &variables,
            &mut constants,
            &mut dynamics,
            &mut operations,
        );
        operations.push((0, Instruction::RaiseOutput { boolean, id }));
        max_size_dynamics.widen(&dynamics);
        proof {
            let compiled = program(done, fields);
            assert(operations@ =~= compiled.code);
            assert(in_use(max_size_dynamics@, fields) =~= compiled.sizes);
        }
    }
    assert(batch.take(batch.len() as int) =~= batch);
    Engine {
        operations,
        constants,
        reference_dynamics: max_size_dynamics,
        variables,
        predicates: Ghost(batch),
    }
}

} // verus!
