//! The compiler as mathematics: the program that a batch of predicates is
//! lowered to, the constants it pools and the scratch storage it needs.

use vstd::prelude::*;
use super::machine::{Memory, Operation};
use super::{Instruction, Pointer};
use crate::parse::nodes::boolean::{
    NodeBoolean, NodeBooleanBoth, NodeBooleanEither, NodeBooleanEquals, NodeBooleanMatches,
    NodeBooleanNot, NodeBooleanWithin,
};
use crate::parse::nodes::cidr::NodeCidr;
use crate::parse::nodes::int64::{NodeInt64, NodeInt64Negative};
use crate::parse::nodes::ip::NodeIp;
use crate::parse::nodes::regex::NodeRegex;
use crate::parse::nodes::string::{NodeString, NodeStringAdd};
use crate::parse::nodes::uint64::{NodeUint64, NodeUint64Add, NodeUint64Subtract};
use crate::variables::{count, position, slot, Fields, Variable};

verus! {

/// The number of slots of each primitive type.
#[verifier::ext_equal]
pub struct Sizes {
    pub boolean: nat,
    pub cidr: nat,
    pub int64: nat,
    pub ip: nat,
    pub string: nat,
    pub uint64: nat,
    pub regex: nat,
}

/// What the compiler has handed out so far: the pool of constants and the
/// number of dynamic slots in use.
#[verifier::ext_equal]
pub struct Layout {
    pub constants: Memory,
    pub sizes: Sizes,
}

/// An operand that needs no code: where it lies, and the layout after it.
#[verifier::ext_equal]
pub struct Placed {
    pub pointer: Pointer,
    pub layout: Layout,
}

/// A compiled expression: its code, where its value lies once the code has
/// run, and the layout after it.
#[verifier::ext_equal]
pub struct Lowered<H> {
    pub code: Seq<Operation<H>>,
    pub pointer: Pointer,
    pub layout: Layout,
}

/// A compiled batch of predicates.
#[verifier::ext_equal]
pub struct Program<H> {
    pub code: Seq<Operation<H>>,
    pub constants: Memory,
    pub sizes: Sizes,
}

impl Memory {
    /// Storage without slots.
    pub open spec fn empty() -> Memory {
        Memory {
            boolean: Seq::empty(),
            cidr: Seq::empty(),
            int64: Seq::empty(),
            ip: Seq::empty(),
            string: Seq::empty(),
            uint64: Seq::empty(),
            regex: Seq::empty(),
        }
    }

    /// The number of slots of each type.
    pub open spec fn sizes(self) -> Sizes {
        Sizes {
            boolean: self.boolean.len(),
            cidr: self.cidr.len(),
            int64: self.int64.len(),
            ip: self.ip.len(),
            string: self.string.len(),
            uint64: self.uint64.len(),
            regex: self.regex.len(),
        }
    }
}

impl Sizes {
    /// Whether there is room for all that `other` counts.
    pub open spec fn covers(self, other: Sizes) -> bool {
        &&& self.boolean >= other.boolean
        &&& self.cidr >= other.cidr
        &&& self.int64 >= other.int64
        &&& self.ip >= other.ip
        &&& self.string >= other.string
        &&& self.uint64 >= other.uint64
        &&& self.regex >= other.regex
    }

    /// For each type the larger of the two numbers.
    pub open spec fn max(self, other: Sizes) -> Sizes {
        Sizes {
            boolean: if self.boolean >= other.boolean {
                self.boolean
            } else {
                other.boolean
            },
            cidr: if self.cidr >= other.cidr {
                self.cidr
            } else {
                other.cidr
            },
            int64: if self.int64 >= other.int64 {
                self.int64
            } else {
                other.int64
            },
            ip: if self.ip >= other.ip {
                self.ip
            } else {
                other.ip
            },
            string: if self.string >= other.string {
                self.string
            } else {
                other.string
            },
            uint64: if self.uint64 >= other.uint64 {
                self.uint64
            } else {
                other.uint64
            },
            regex: if self.regex >= other.regex {
                self.regex
            } else {
                other.regex
            },
        }
    }
}

/// The slots that the fields of a schema take: one for each field, among the
/// slots of its type.
pub open spec fn base(fields: Fields) -> Sizes {
    let all = fields.len() as int;
    Sizes {
        boolean: count(fields, Variable::Boolean, all),
        cidr: count(fields, Variable::Cidr, all),
        int64: count(fields, Variable::Int64, all),
        ip: count(fields, Variable::Ip, all),
        string: count(fields, Variable::String, all),
        uint64: count(fields, Variable::Uint64, all),
        regex: count(fields, Variable::Regex, all),
    }
}

/// The slot of the field called `name`.
pub open spec fn field_pointer(fields: Fields, name: Seq<char>) -> Pointer {
    Pointer::Dynamic(slot(fields, position(fields, name) as int) as usize)
}

pub open spec fn lower_ip(node: NodeIp, fields: Fields, at: Layout) -> Placed {
    match node {
        NodeIp::Constant(value) => Placed {
            pointer: Pointer::Constant(at.constants.ip.len() as usize),
            layout: Layout {
                constants: Memory { ip: at.constants.ip.push(value), ..at.constants },
                sizes: at.sizes,
            },
        },
        NodeIp::Variable { name } => Placed { pointer: field_pointer(fields, name@), layout: at },
    }
}

pub open spec fn lower_cidr(node: NodeCidr, fields: Fields, at: Layout) -> Placed {
    match node {
        NodeCidr::Constant(value) => Placed {
            pointer: Pointer::Constant(at.constants.cidr.len() as usize),
            layout: Layout {
                constants: Memory { cidr: at.constants.cidr.push(value), ..at.constants },
                sizes: at.sizes,
            },
        },
        NodeCidr::Variable { name } => Placed { pointer: field_pointer(fields, name@), layout: at },
    }
}

pub open spec fn lower_regex(node: NodeRegex, fields: Fields, at: Layout) -> Placed {
    match node {
        NodeRegex::Constant(value) => Placed {
            pointer: Pointer::Constant(at.constants.regex.len() as usize),
            layout: Layout {
                constants: Memory { regex: at.constants.regex.push(value@), ..at.constants },
                sizes: at.sizes,
            },
        },
        NodeRegex::Variable { name } => Placed {
            pointer: field_pointer(fields, name@),
            layout: at,
        },
    }
}

pub open spec fn lower_uint64<H>(node: NodeUint64, fields: Fields, at: Layout) -> Lowered<H>
    decreases node,
{
    match node {
        NodeUint64::Constant(value) => Lowered {
            code: Seq::empty(),
            pointer: Pointer::Constant(at.constants.uint64.len() as usize),
            layout: Layout {
                constants: Memory { uint64: at.constants.uint64.push(value), ..at.constants },
                sizes: at.sizes,
            },
        },
        NodeUint64::Variable { name } => Lowered {
            code: Seq::empty(),
            pointer: field_pointer(fields, name@),
            layout: at,
        },
        NodeUint64::Add(NodeUint64Add::Uint64Uint64 { left, right }) => {
            let l = lower_uint64::<H>(*left, fields, at);
            let r = lower_uint64::<H>(*right, fields, l.layout);
            let output = r.layout.sizes.uint64 as usize;
            Lowered {
                code: l.code + r.code + seq![
                    (output, Instruction::AddUint64Uint64 { left: l.pointer, right: r.pointer }),
                ],
                pointer: Pointer::Dynamic(output),
                layout: Layout {
                    constants: r.layout.constants,
                    sizes: Sizes { uint64: r.layout.sizes.uint64 + 1, ..r.layout.sizes },
                },
            }
        },
        NodeUint64::Subtract(NodeUint64Subtract::Uint64Uint64 { left, right }) => {
            let l = lower_uint64::<H>(*left, fields, at);
            let r = lower_uint64::<H>(*right, fields, l.layout);
            let output = r.layout.sizes.uint64 as usize;
            Lowered {
                code: l.code + r.code + seq![
                    (
                        output,
                        Instruction::SubtractUint64Uint64 { left: l.pointer, right: r.pointer },
                    ),
                ],
                pointer: Pointer::Dynamic(output),
                layout: Layout {
                    constants: r.layout.constants,
                    sizes: Sizes { uint64: r.layout.sizes.uint64 + 1, ..r.layout.sizes },
                },
            }
        },
    }
}

pub open spec fn lower_int64<H>(node: NodeInt64, fields: Fields, at: Layout) -> Lowered<H> {
    match node {
        NodeInt64::Variable { name } => Lowered {
            code: Seq::empty(),
            pointer: field_pointer(fields, name@),
            layout: at,
        },
        NodeInt64::Negative(NodeInt64Negative::Uint64(inner)) => {
            let child = lower_uint64::<H>(*inner, fields, at);
            let output = child.layout.sizes.int64 as usize;
            Lowered {
                code: child.code + seq![(output, Instruction::NegativeUint64(child.pointer))],
                pointer: Pointer::Dynamic(output),
                layout: Layout {
                    constants: child.layout.constants,
                    sizes: Sizes { int64: child.layout.sizes.int64 + 1, ..child.layout.sizes },
                },
            }
        },
    }
}

pub open spec fn lower_string<H>(node: NodeString, fields: Fields, at: Layout) -> Lowered<H>
    decreases node,
{
    match node {
        NodeString::Constant(value) => Lowered {
            code: Seq::empty(),
            pointer: Pointer::Constant(at.constants.string.len() as usize),
            layout: Layout {
                constants: Memory { string: at.constants.string.push(value@), ..at.constants },
                sizes: at.sizes,
            },
        },
        NodeString::Variable { name } => Lowered {
            code: Seq::empty(),
            pointer: field_pointer(fields, name@),
            layout: at,
        },
        NodeString::Add(NodeStringAdd::StringString { left, right }) => {
            let l = lower_string::<H>(*left, fields, at);
            let r = lower_string::<H>(*right, fields, l.layout);
            let output = r.layout.sizes.string as usize;
            Lowered {
                code: l.code + r.code + seq![
                    (output, Instruction::AddStringString { left: l.pointer, right: r.pointer }),
                ],
                pointer: Pointer::Dynamic(output),
                layout: Layout {
                    constants: r.layout.constants,
                    sizes: Sizes { string: r.layout.sizes.string + 1, ..r.layout.sizes },
                },
            }
        },
    }
}

/// The code of an operator with a boolean result: the code of its operands,
/// then `instruction` writing to a fresh boolean slot.
pub open spec fn finish<H>(
    code: Seq<Operation<H>>,
    instruction: Instruction<H>,
    after: Layout,
) -> Lowered<H> {
    let output = after.sizes.boolean as usize;
    Lowered {
        code: code + seq![(output, instruction)],
        pointer: Pointer::Dynamic(output),
        layout: Layout {
            constants: after.constants,
            sizes: Sizes { boolean: after.sizes.boolean + 1, ..after.sizes },
        },
    }
}

pub open spec fn lower_boolean<H>(node: NodeBoolean, fields: Fields, at: Layout) -> Lowered<H>
    decreases node,
{
    match node {
        NodeBoolean::Constant(value) => Lowered {
            code: Seq::empty(),
            pointer: Pointer::Constant(at.constants.boolean.len() as usize),
            layout: Layout {
                constants: Memory { boolean: at.constants.boolean.push(value), ..at.constants },
                sizes: at.sizes,
            },
        },
        NodeBoolean::Variable { name } => Lowered {
            code: Seq::empty(),
            pointer: field_pointer(fields, name@),
            layout: at,
        },
        NodeBoolean::Not(NodeBooleanNot::Boolean(inner)) => {
            let child = lower_boolean::<H>(*inner, fields, at);
            finish(child.code, Instruction::NotBool(child.pointer), child.layout)
        },
        NodeBoolean::Both(NodeBooleanBoth::BooleanBoolean { left, right }) => {
            let l = lower_boolean::<H>(*left, fields, at);
            let r = lower_boolean::<H>(*right, fields, l.layout);
            let output = r.layout.sizes.boolean as usize;
            finish(
                l.code + seq![
                    (
                        output,
                        Instruction::SkipIfFalse {
                            check: l.pointer,
                            forward: (r.code.len() + 1) as usize,
                        },
                    ),
                ] + r.code,
                Instruction::BothBoolBool { left: l.pointer, right: r.pointer },
                r.layout,
            )
        },
        NodeBoolean::Either(NodeBooleanEither::BooleanBoolean { left, right }) => {
            let l = lower_boolean::<H>(*left, fields, at);
            let r = lower_boolean::<H>(*right, fields, l.layout);
            let output = r.layout.sizes.boolean as usize;
            finish(
                l.code + seq![
                    (
                        output,
                        Instruction::SkipIfTrue {
                            check: l.pointer,
                            forward: (r.code.len() + 1) as usize,
                        },
                    ),
                ] + r.code,
                Instruction::EitherBoolBool { left: l.pointer, right: r.pointer },
                r.layout,
            )
        },
        NodeBoolean::Within(NodeBooleanWithin::IpCidr { left, right }) => {
            let l = lower_ip(left, fields, at);
            let r = lower_cidr(right, fields, l.layout);
            finish(
                Seq::empty(),
                Instruction::WithinIpCidr { left: l.pointer, right: r.pointer },
                r.layout,
            )
        },
        NodeBoolean::Equals(NodeBooleanEquals::BooleanBoolean { left, right }) => {
            let l = lower_boolean::<H>(*left, fields, at);
            let r = lower_boolean::<H>(*right, fields, l.layout);
            finish(
                l.code + r.code,
                Instruction::EqualsBoolBool { left: l.pointer, right: r.pointer },
                r.layout,
            )
        },
        NodeBoolean::Equals(NodeBooleanEquals::StringString { left, right }) => {
            let l = lower_string::<H>(left, fields, at);
            let r = lower_string::<H>(right, fields, l.layout);
            finish(
                l.code + r.code,
                Instruction::EqualsStringString { left: l.pointer, right: r.pointer },
                r.layout,
            )
        },
        NodeBoolean::Equals(NodeBooleanEquals::Uint64Uint64 { left, right }) => {
            let l = lower_uint64::<H>(left, fields, at);
            let r = lower_uint64::<H>(right, fields, l.layout);
            finish(
                l.code + r.code,
                Instruction::EqualsUint64Uint64 { left: l.pointer, right: r.pointer },
                r.layout,
            )
        },
        NodeBoolean::Equals(NodeBooleanEquals::Int64Int64 { left, right }) => {
            let l = lower_int64::<H>(left, fields, at);
            let r = lower_int64::<H>(right, fields, l.layout);
            finish(
                l.code + r.code,
                Instruction::EqualsInt64Int64 { left: l.pointer, right: r.pointer },
                r.layout,
            )
        },
        NodeBoolean::Equals(NodeBooleanEquals::IpIp { left, right }) => {
            let l = lower_ip(left, fields, at);
            let r = lower_ip(right, fields, l.layout);
            finish(
                Seq::empty(),
                Instruction::EqualsIpIP { left: l.pointer, right: r.pointer },
                r.layout,
            )
        },
        NodeBoolean::Matches(NodeBooleanMatches::StringRegex { left, right }) => {
            let l = lower_string::<H>(left, fields, at);
            let r = lower_regex(right, fields, l.layout);
            finish(
                l.code,
                Instruction::MatchesStringRegex { left: l.pointer, right: r.pointer },
                r.layout,
            )
        },
    }
}

/// The program of a batch of predicates: for each in turn the code of its
/// root over fresh dynamic slots, then the instruction that reports its
/// identifier where the slot of the root's value holds true. For a root that
/// is an operator that slot is the last boolean slot in use.
pub open spec fn program<H>(predicates: Seq<(H, NodeBoolean)>, fields: Fields) -> Program<H>
    decreases predicates.len(),
{
    if predicates.len() == 0 {
        Program { code: Seq::empty(), constants: Memory::empty(), sizes: base(fields) }
    } else {
        let earlier = program(predicates.drop_last(), fields);
        let lowered = lower_boolean::<H>(
            predicates.last().1,
            fields,
            Layout { constants: earlier.constants, sizes: base(fields) },
        );
        Program {
            code: earlier.code + lowered.code + seq![
                (
                    0usize,
                    Instruction::RaiseOutput {
                        boolean: lowered.pointer,
                        id: predicates.last().0,
                    },
                ),
            ],
            constants: lowered.layout.constants,
            sizes: earlier.sizes.max(lowered.layout.sizes),
        }
    }
}

} // verus!
