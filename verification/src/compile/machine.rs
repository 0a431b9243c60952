//! What the instructions of a compiled program do to the scratch storage.

use vstd::prelude::*;
use super::{Instruction, Pointer};
use crate::address::{Cidr, Ip};
use crate::parse::nodes::int64::negated;
use crate::pattern::regex_matches;

verus! {

/// Scratch storage as mathematics: one sequence of values for each primitive
/// type, a string by its characters and a regular expression by its pattern
/// text.
#[verifier::ext_equal]
pub struct Memory {
    pub boolean: Seq<bool>,
    pub cidr: Seq<Cidr>,
    pub int64: Seq<i64>,
    pub ip: Seq<Ip>,
    pub string: Seq<Seq<char>>,
    pub uint64: Seq<u64>,
    pub regex: Seq<Seq<char>>,
}

/// One entry of a program: the slot it writes and what it does.
pub type Operation<H> = (usize, Instruction<H>);

pub open spec fn read_boolean(constants: Memory, dynamics: Memory, pointer: Pointer) -> bool {
    match pointer {
        Pointer::Constant(index) => constants.boolean[index as int],
        Pointer::Dynamic(index) => dynamics.boolean[index as int],
    }
}

pub open spec fn read_cidr(constants: Memory, dynamics: Memory, pointer: Pointer) -> Cidr {
    match pointer {
        Pointer::Constant(index) => constants.cidr[index as int],
        Pointer::Dynamic(index) => dynamics.cidr[index as int],
    }
}

pub open spec fn read_int64(constants: Memory, dynamics: Memory, pointer: Pointer) -> i64 {
    match pointer {
        Pointer::Constant(index) => constants.int64[index as int],
        Pointer::Dynamic(index) => dynamics.int64[index as int],
    }
}

pub open spec fn read_ip(constants: Memory, dynamics: Memory, pointer: Pointer) -> Ip {
    match pointer {
        Pointer::Constant(index) => constants.ip[index as int],
        Pointer::Dynamic(index) => dynamics.ip[index as int],
    }
}

pub open spec fn read_string(constants: Memory, dynamics: Memory, pointer: Pointer) -> Seq<char> {
    match pointer {
        Pointer::Constant(index) => constants.string[index as int],
        Pointer::Dynamic(index) => dynamics.string[index as int],
    }
}

pub open spec fn read_uint64(constants: Memory, dynamics: Memory, pointer: Pointer) -> u64 {
    match pointer {
        Pointer::Constant(index) => constants.uint64[index as int],
        Pointer::Dynamic(index) => dynamics.uint64[index as int],
    }
}

pub open spec fn read_regex(constants: Memory, dynamics: Memory, pointer: Pointer) -> Seq<char> {
    match pointer {
        Pointer::Constant(index) => constants.regex[index as int],
        Pointer::Dynamic(index) => dynamics.regex[index as int],
    }
}

/// The dynamic storage after `instruction` has written its result to the slot
/// `output`.
pub open spec fn written<H>(
    output: usize,
    instruction: Instruction<H>,
    constants: Memory,
    dynamics: Memory,
) -> Memory {
    let at = output as int;
    match instruction {
        Instruction::Nothing => dynamics,
        Instruction::SkipIfTrue { check, forward } => Memory {
            boolean: dynamics.boolean.update(at, read_boolean(constants, dynamics, check)),
            ..dynamics
        },
        Instruction::SkipIfFalse { check, forward } => Memory {
            boolean: dynamics.boolean.update(at, read_boolean(constants, dynamics, check)),
            ..dynamics
        },
        Instruction::RaiseOutput { boolean, id } => dynamics,
        Instruction::AddStringString { left, right } => Memory {
            string: dynamics.string.update(
                at,
                read_string(constants, dynamics, left) + read_string(constants, dynamics, right),
            ),
            ..dynamics
        },
        Instruction::AddUint64Uint64 { left, right } => Memory {
            uint64: dynamics.uint64.update(
                at,
                read_uint64(constants, dynamics, left).wrapping_add(
                    read_uint64(constants, dynamics, right),
                ),
            ),
            ..dynamics
        },
        Instruction::BothBoolBool { left, right } => Memory {
            boolean: dynamics.boolean.update(
                at,
                read_boolean(constants, dynamics, left) && read_boolean(constants, dynamics, right),
            ),
            ..dynamics
        },
        Instruction::EitherBoolBool { left, right } => Memory {
            boolean: dynamics.boolean.update(
                at,
                read_boolean(constants, dynamics, left) || read_boolean(constants, dynamics, right),
            ),
            ..dynamics
        },
        Instruction::EqualsBoolBool { left, right } => Memory {
            boolean: dynamics.boolean.update(
                at,
                read_boolean(constants, dynamics, left) == read_boolean(constants, dynamics, right),
            ),
            ..dynamics
        },
        Instruction::EqualsStringString { left, right } => Memory {
            boolean: dynamics.boolean.update(
                at,
                read_string(constants, dynamics, left) == read_string(constants, dynamics, right),
            ),
            ..dynamics
        },
        Instruction::EqualsUint64Uint64 { left, right } => Memory {
            boolean: dynamics.boolean.update(
                at,
                read_uint64(constants, dynamics, left) == read_uint64(constants, dynamics, right),
            ),
            ..dynamics
        },
        Instruction::EqualsInt64Int64 { left, right } => Memory {
            boolean: dynamics.boolean.update(
                at,
                read_int64(constants, dynamics, left) == read_int64(constants, dynamics, right),
            ),
            ..dynamics
        },
        Instruction::EqualsIpIP { left, right } => Memory {
            boolean: dynamics.boolean.update(
                at,
                read_ip(constants, dynamics, left) == read_ip(constants, dynamics, right),
            ),
            ..dynamics
        },
        Instruction::NegativeUint64(child) => Memory {
            int64: dynamics.int64.update(at, negated(read_uint64(constants, dynamics, child))),
            ..dynamics
        },
        Instruction::NotBool(child) => Memory {
            boolean: dynamics.boolean.update(at, !read_boolean(constants, dynamics, child)),
            ..dynamics
        },
        Instruction::SubtractUint64Uint64 { left, right } => Memory {
            uint64: dynamics.uint64.update(
                at,
                read_uint64(constants, dynamics, left).wrapping_sub(
                    read_uint64(constants, dynamics, right),
                ),
            ),
            ..dynamics
        },
        Instruction::WithinIpCidr { left, right } => Memory {
            boolean: dynamics.boolean.update(
                at,
                read_cidr(constants, dynamics, right).holds(read_ip(constants, dynamics, left)),
            ),
            ..dynamics
        },
        Instruction::MatchesStringRegex { left, right } => Memory {
            boolean: dynamics.boolean.update(
                at,
                regex_matches(
                    read_regex(constants, dynamics, right),
                    read_string(constants, dynamics, left),
                ),
            ),
            ..dynamics
        },
    }
}

/// How far the cursor moves over `instruction`: one step, and `forward`
/// further steps over a skip whose branch is taken.
pub open spec fn stride<H>(
    instruction: Instruction<H>,
    constants: Memory,
    dynamics: Memory,
) -> nat {
    match instruction {
        Instruction::SkipIfTrue { check, forward } => if read_boolean(constants, dynamics, check) {
            (forward + 1) as nat
        } else {
            1
        },
        Instruction::SkipIfFalse { check, forward } => if !read_boolean(
            constants,
            dynamics,
            check,
        ) {
            (forward + 1) as nat
        } else {
            1
        },
        _ => 1,
    }
}

/// The identifier that `instruction` reports, if it reports one.
pub open spec fn raised<H>(instruction: Instruction<H>, constants: Memory, dynamics: Memory) -> Seq<
    H,
> {
    match instruction {
        Instruction::RaiseOutput { boolean, id } => if read_boolean(constants, dynamics, boolean) {
            seq![id]
        } else {
            Seq::empty()
        },
        _ => Seq::empty(),
    }
}

/// Where a run of a program ends: the dynamic storage, the identifiers
/// reported in order, and the cursor.
pub struct Outcome<H> {
    pub dynamics: Memory,
    pub matched: Seq<H>,
    pub cursor: int,
}

/// Runs `code` from `cursor` until the cursor leaves it.
pub open spec fn run<H>(
    code: Seq<Operation<H>>,
    constants: Memory,
    dynamics: Memory,
    cursor: int,
) -> Outcome<H>
    decreases
            (if cursor < code.len() {
                code.len() - cursor
            } else {
                0
            }),
{
    if cursor < 0 || cursor >= code.len() {
        Outcome { dynamics, matched: Seq::empty(), cursor }
    } else {
        let rest = run(
            code,
            constants,
            written(code[cursor].0, code[cursor].1, constants, dynamics),
            cursor + stride(code[cursor].1, constants, dynamics),
        );
        Outcome {
            dynamics: rest.dynamics,
            matched: raised(code[cursor].1, constants, dynamics) + rest.matched,
            cursor: rest.cursor,
        }
    }
}

} // verus!
