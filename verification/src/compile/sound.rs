//! Every pointer of a lowered program lies within the storage that the
//! program asks for, and every skip lands within the program.

use vstd::prelude::*;
use super::lower::{
    base, finish, lower_boolean, lower_cidr, lower_int64, lower_ip, lower_regex, lower_string,
    lower_uint64, program, Layout, Lowered, Sizes,
};
use super::machine::{Memory, Operation};
use super::{Instruction, Pointer};
use crate::parse::nodes::boolean::{
    NodeBoolean, NodeBooleanBoth, NodeBooleanEither, NodeBooleanEquals, NodeBooleanMatches,
    NodeBooleanNot, NodeBooleanWithin,
};
use crate::parse::nodes::cidr::NodeCidr;
use crate::parse::nodes::int64::{NodeInt64, NodeInt64Negative};
use crate::parse::nodes::ip::NodeIp;
use crate::parse::nodes::regex::NodeRegex;
use crate::parse::nodes::string::{NodeString, NodeStringAdd};
use crate::parse::nodes::uint64::{NodeUint64, NodeUint64Add, NodeUint64Subtract};
use crate::variables::{
    count, kind_of, lemma_count_monotone, lemma_position_bound, position, slot, Fields, Variable,
};

verus! {

/// Whether `long` begins with everything in `short`.
pub open spec fn begins<T>(long: Seq<T>, short: Seq<T>) -> bool {
    &&& short.len() <= long.len()
    &&& forall|i: int| 0 <= i < short.len() ==> long[i] == short[i]
}

/// Whether the pool `later` begins, for each type, with the pool `earlier`.
pub open spec fn extends(later: Memory, earlier: Memory) -> bool {
    &&& begins(later.boolean, earlier.boolean)
    &&& begins(later.cidr, earlier.cidr)
    &&& begins(later.int64, earlier.int64)
    &&& begins(later.ip, earlier.ip)
    &&& begins(later.string, earlier.string)
    &&& begins(later.uint64, earlier.uint64)
    &&& begins(later.regex, earlier.regex)
}

/// Whether the layout `later` can follow the layout `earlier`: nothing is
/// taken back.
pub open spec fn grows(later: Layout, earlier: Layout) -> bool {
    &&& extends(later.constants, earlier.constants)
    &&& later.sizes.covers(earlier.sizes)
}

/// Whether slot numbers up to `sizes` fit the machine's index type.
pub open spec fn indexable(sizes: Sizes) -> bool {
    &&& sizes.boolean <= usize::MAX
    &&& sizes.cidr <= usize::MAX
    &&& sizes.int64 <= usize::MAX
    &&& sizes.ip <= usize::MAX
    &&& sizes.string <= usize::MAX
    &&& sizes.uint64 <= usize::MAX
    &&& sizes.regex <= usize::MAX
}

/// Whether a layout and a length of code fit the machine's index type.
pub open spec fn within(layout: Layout, length: nat) -> bool {
    &&& indexable(layout.constants.sizes())
    &&& indexable(layout.sizes)
    &&& length <= usize::MAX
}

/// Whether `pointer` names one of `pool` constants or one of `room` dynamic
/// slots.
pub open spec fn pointer_fits(pointer: Pointer, pool: nat, room: nat) -> bool {
    match pointer {
        Pointer::Constant(index) => index < pool,
        Pointer::Dynamic(index) => index < room,
    }
}

/// Whether the output slot and the operands of `operation` exist, in a pool
/// of `pool` constants and over `room` dynamic slots.
pub open spec fn fits<H>(operation: Operation<H>, pool: Sizes, room: Sizes) -> bool {
    let output = operation.0;
    match operation.1 {
        Instruction::Nothing => true,
        Instruction::SkipIfTrue { check, forward } => output < room.boolean && pointer_fits(
            check,
            pool.boolean,
            room.boolean,
        ),
        Instruction::SkipIfFalse { check, forward } => output < room.boolean && pointer_fits(
            check,
            pool.boolean,
            room.boolean,
        ),
        Instruction::RaiseOutput { boolean, id } => pointer_fits(
            boolean,
            pool.boolean,
            room.boolean,
        ),
        Instruction::AddStringString { left, right } => output < room.string && pointer_fits(
            left,
            pool.string,
            room.string,
        ) && pointer_fits(right, pool.string, room.string),
        Instruction::AddUint64Uint64 { left, right } => output < room.uint64 && pointer_fits(
            left,
            pool.uint64,
            room.uint64,
        ) && pointer_fits(right, pool.uint64, room.uint64),
        Instruction::BothBoolBool { left, right } => output < room.boolean && pointer_fits(
            left,
            pool.boolean,
            room.boolean,
        ) && pointer_fits(right, pool.boolean, room.boolean),
        Instruction::EitherBoolBool { left, right } => output < room.boolean && pointer_fits(
            left,
            pool.boolean,
            room.boolean,
        ) && pointer_fits(right, pool.boolean, room.boolean),
        Instruction::EqualsBoolBool { left, right } => output < room.boolean && pointer_fits(
            left,
            pool.boolean,
            room.boolean,
        ) && pointer_fits(right, pool.boolean, room.boolean),
        Instruction::EqualsStringString { left, right } => output < room.boolean && pointer_fits(
            left,
            pool.string,
            room.string,
        ) && pointer_fits(right, pool.string, room.string),
        Instruction::EqualsUint64Uint64 { left, right } => output < room.boolean && pointer_fits(
            left,
            pool.uint64,
            room.uint64,
        ) && pointer_fits(right, pool.uint64, room.uint64),
        Instruction::EqualsInt64Int64 { left, right } => output < room.boolean && pointer_fits(
            left,
            pool.int64,
            room.int64,
        ) && pointer_fits(right, pool.int64, room.int64),
        Instruction::EqualsIpIP { left, right } => output < room.boolean && pointer_fits(
            left,
            pool.ip,
            room.ip,
        ) && pointer_fits(right, pool.ip, room.ip),
        Instruction::NegativeUint64(child) => output < room.int64 && pointer_fits(
            child,
            pool.uint64,
            room.uint64,
        ),
        Instruction::NotBool(child) => output < room.boolean && pointer_fits(
            child,
            pool.boolean,
            room.boolean,
        ),
        Instruction::SubtractUint64Uint64 { left, right } => output < room.uint64 && pointer_fits(
            left,
            pool.uint64,
            room.uint64,
        ) && pointer_fits(right, pool.uint64, room.uint64),
        Instruction::WithinIpCidr { left, right } => output < room.boolean && pointer_fits(
            left,
            pool.ip,
            room.ip,
        ) && pointer_fits(right, pool.cidr, room.cidr),
        Instruction::MatchesStringRegex { left, right } => output < room.boolean && pointer_fits(
            left,
            pool.string,
            room.string,
        ) && pointer_fits(right, pool.regex, room.regex),
    }
}

/// The furthest that the cursor can move over `instruction`.
pub open spec fn reach<H>(instruction: Instruction<H>) -> nat {
    match instruction {
        Instruction::SkipIfTrue { check, forward } => (forward + 1) as nat,
        Instruction::SkipIfFalse { check, forward } => (forward + 1) as nat,
        _ => 1,
    }
}

/// Whether every operation of `code` fits the storage, and no skip leads
/// past the end of the code.
pub open spec fn sound<H>(code: Seq<Operation<H>>, pool: Sizes, room: Sizes) -> bool {
    forall|i: int|
        0 <= i < code.len() ==> fits(#[trigger] code[i], pool, room) && i + reach(code[i].1)
            <= code.len()
}

pub proof fn lemma_fits_more<H>(
    operation: Operation<H>,
    pool: Sizes,
    room: Sizes,
    more_pool: Sizes,
    more_room: Sizes,
)
    requires
        fits(operation, pool, room),
        more_pool.covers(pool),
        more_room.covers(room),
    ensures
        fits(operation, more_pool, more_room),
{
}

/// Code that is sound stays so where there is more storage.
pub proof fn lemma_sound_more<H>(
    code: Seq<Operation<H>>,
    pool: Sizes,
    room: Sizes,
    more_pool: Sizes,
    more_room: Sizes,
)
    requires
        sound(code, pool, room),
        more_pool.covers(pool),
        more_room.covers(room),
    ensures
        sound(code, more_pool, more_room),
{
    assert forall|i: int| 0 <= i < code.len() implies fits(#[trigger] code[i], more_pool, more_room)
        && i + reach(code[i].1) <= code.len() by {
        lemma_fits_more(code[i], pool, room, more_pool, more_room);
    }
}

/// Two pieces of sound code, one after the other, are sound.
pub proof fn lemma_sound_concat<H>(
    first: Seq<Operation<H>>,
    second: Seq<Operation<H>>,
    pool: Sizes,
    room: Sizes,
)
    requires
        sound(first, pool, room),
        sound(second, pool, room),
    ensures
        sound(first + second, pool, room),
{
    let code = first + second;
    assert forall|i: int| 0 <= i < code.len() implies fits(#[trigger] code[i], pool, room) && i
        + reach(code[i].1) <= code.len() by {
        if i < first.len() {
            assert(code[i] == first[i]);
        } else {
            assert(code[i] == second[i - first.len()]);
        }
    }
}

/// A field of the schema has a slot among the slots of the schema's fields.
pub proof fn lemma_field_slot(fields: Fields, name: Seq<char>, kind: Variable)
    requires
        kind_of(fields, name) == Some(kind),
    ensures
        position(fields, name) < fields.len(),
        fields[position(fields, name) as int].1 == kind,
        slot(fields, position(fields, name) as int) < count(fields, kind, fields.len() as int),
{
    lemma_position_bound(fields, name);
    lemma_count_monotone(fields, kind, position(fields, name) as int, fields.len() as int);
}

/// One operation that fits and moves the cursor by one is sound code.
pub proof fn lemma_sound_single<H>(operation: Operation<H>, pool: Sizes, room: Sizes)
    requires
        fits(operation, pool, room),
        reach(operation.1) == 1,
    ensures
        sound(seq![operation], pool, room),
{
}

/// What holds of the layout after a leaf: nothing is taken back, and the
/// pointer names a slot that exists.
pub open spec fn placed_well(
    pointer: Pointer,
    after: Layout,
    at: Layout,
    pool: nat,
    room: nat,
) -> bool {
    &&& grows(after, at)
    &&& (indexable(after.constants.sizes()) && indexable(after.sizes) ==> pointer_fits(
        pointer,
        pool,
        room,
    ))
}

/// What [`lower_uint64`] hands back for `node` is well formed.
pub open spec fn uint64_well<H>(node: NodeUint64, fields: Fields, at: Layout) -> bool {
    lowered_well(
        lower_uint64::<H>(node, fields, at),
        at,
        lower_uint64::<H>(node, fields, at).layout.constants.uint64.len(),
        lower_uint64::<H>(node, fields, at).layout.sizes.uint64,
    )
}

/// What [`lower_int64`] hands back for `node` is well formed.
pub open spec fn int64_well<H>(node: NodeInt64, fields: Fields, at: Layout) -> bool {
    lowered_well(
        lower_int64::<H>(node, fields, at),
        at,
        lower_int64::<H>(node, fields, at).layout.constants.int64.len(),
        lower_int64::<H>(node, fields, at).layout.sizes.int64,
    )
}

/// What [`lower_string`] hands back for `node` is well formed.
pub open spec fn string_well<H>(node: NodeString, fields: Fields, at: Layout) -> bool {
    lowered_well(
        lower_string::<H>(node, fields, at),
        at,
        lower_string::<H>(node, fields, at).layout.constants.string.len(),
        lower_string::<H>(node, fields, at).layout.sizes.string,
    )
}

/// What [`lower_ip`] hands back for `node` is well formed.
pub open spec fn ip_well(node: NodeIp, fields: Fields, at: Layout) -> bool {
    placed_well(
        lower_ip(node, fields, at).pointer,
        lower_ip(node, fields, at).layout,
        at,
        lower_ip(node, fields, at).layout.constants.ip.len(),
        lower_ip(node, fields, at).layout.sizes.ip,
    )
}

/// What [`lower_cidr`] hands back for `node` is well formed.
pub open spec fn cidr_well(node: NodeCidr, fields: Fields, at: Layout) -> bool {
    placed_well(
        lower_cidr(node, fields, at).pointer,
        lower_cidr(node, fields, at).layout,
        at,
        lower_cidr(node, fields, at).layout.constants.cidr.len(),
        lower_cidr(node, fields, at).layout.sizes.cidr,
    )
}

/// What [`lower_regex`] hands back for `node` is well formed.
pub open spec fn regex_well(node: NodeRegex, fields: Fields, at: Layout) -> bool {
    placed_well(
        lower_regex(node, fields, at).pointer,
        lower_regex(node, fields, at).layout,
        at,
        lower_regex(node, fields, at).layout.constants.regex.len(),
        lower_regex(node, fields, at).layout.sizes.regex,
    )
}

pub proof fn lemma_lower_ip(node: NodeIp, fields: Fields, at: Layout)
    requires
        node.typed(fields),
        at.sizes.covers(base(fields)),
    ensures
        ip_well(node, fields, at),
{
    match node {
        NodeIp::Variable { name } => {
            lemma_field_slot(fields, name@, Variable::Ip);
        },
        NodeIp::Constant(_) => {},
    }
}

pub proof fn lemma_lower_cidr(node: NodeCidr, fields: Fields, at: Layout)
    requires
        node.typed(fields),
        at.sizes.covers(base(fields)),
    ensures
        cidr_well(node, fields, at),
{
    match node {
        NodeCidr::Variable { name } => {
            lemma_field_slot(fields, name@, Variable::Cidr);
        },
        NodeCidr::Constant(_) => {},
    }
}

pub proof fn lemma_lower_regex(node: NodeRegex, fields: Fields, at: Layout)
    requires
        node.typed(fields),
        at.sizes.covers(base(fields)),
    ensures
        regex_well(node, fields, at),
{
    match node {
        NodeRegex::Variable { name } => {
            lemma_field_slot(fields, name@, Variable::Regex);
        },
        NodeRegex::Constant(_) => {},
    }
}

/// What holds of lowered code: nothing of the layout is taken back, and where
/// all fits the machine's index type, the pointer names a slot that exists
/// and the code is sound.
pub open spec fn lowered_well<H>(lowered: Lowered<H>, at: Layout, pool: nat, room: nat) -> bool {
    &&& grows(lowered.layout, at)
    &&& (within(lowered.layout, lowered.code.len()) ==> pointer_fits(lowered.pointer, pool, room)
        && sound(lowered.code, lowered.layout.constants.sizes(), lowered.layout.sizes))
}

/// Sound operand code followed by one fitting operation is sound.
pub proof fn lemma_sound_then<H>(
    code: Seq<Operation<H>>,
    operation: Operation<H>,
    pool: Sizes,
    room: Sizes,
    more_pool: Sizes,
    more_room: Sizes,
)
    requires
        sound(code, pool, room),
        more_pool.covers(pool),
        more_room.covers(room),
        fits(operation, more_pool, more_room),
        reach(operation.1) == 1,
    ensures
        sound(code + seq![operation], more_pool, more_room),
{
    lemma_sound_more(code, pool, room, more_pool, more_room);
    lemma_sound_single(operation, more_pool, more_room);
    lemma_sound_concat(code, seq![operation], more_pool, more_room);
}

/// The code of two operands, one after the other, is sound in the layout of
/// the second.
pub proof fn lemma_sound_pair<H>(l: Lowered<H>, r: Lowered<H>)
    requires
        grows(r.layout, l.layout),
        sound(l.code, l.layout.constants.sizes(), l.layout.sizes),
        sound(r.code, r.layout.constants.sizes(), r.layout.sizes),
    ensures
        sound(l.code + r.code, r.layout.constants.sizes(), r.layout.sizes),
{
    lemma_sound_more(
        l.code,
        l.layout.constants.sizes(),
        l.layout.sizes,
        r.layout.constants.sizes(),
        r.layout.sizes,
    );
    lemma_sound_concat(l.code, r.code, r.layout.constants.sizes(), r.layout.sizes);
}

pub proof fn lemma_lower_uint64<H>(node: NodeUint64, fields: Fields, at: Layout)
    requires
        node.typed(fields),
        at.sizes.covers(base(fields)),
    ensures
        uint64_well::<H>(node, fields, at),
    decreases node,
{
    let lowered = lower_uint64::<H>(node, fields, at);
    match node {
        NodeUint64::Variable { name } => {
            lemma_field_slot(fields, name@, Variable::Uint64);
        },
        NodeUint64::Constant(_) => {},
        NodeUint64::Add(NodeUint64Add::Uint64Uint64 { left, right }) => {
            lemma_lower_uint64::<H>(*left, fields, at);
            let l = lower_uint64::<H>(*left, fields, at);
            lemma_lower_uint64::<H>(*right, fields, l.layout);
            let r = lower_uint64::<H>(*right, fields, l.layout);
            if within(lowered.layout, lowered.code.len()) {
                lemma_sound_pair(l, r);
                lemma_sound_then(
                    l.code + r.code,
                    lowered.code.last(),
                    r.layout.constants.sizes(),
                    r.layout.sizes,
                    lowered.layout.constants.sizes(),
                    lowered.layout.sizes,
                );
            }
        },
        NodeUint64::Subtract(NodeUint64Subtract::Uint64Uint64 { left, right }) => {
            lemma_lower_uint64::<H>(*left, fields, at);
            let l = lower_uint64::<H>(*left, fields, at);
            lemma_lower_uint64::<H>(*right, fields, l.layout);
            let r = lower_uint64::<H>(*right, fields, l.layout);
            if within(lowered.layout, lowered.code.len()) {
                lemma_sound_pair(l, r);
                lemma_sound_then(
                    l.code + r.code,
                    lowered.code.last(),
                    r.layout.constants.sizes(),
                    r.layout.sizes,
                    lowered.layout.constants.sizes(),
                    lowered.layout.sizes,
                );
            }
        },
    }
}

pub proof fn lemma_lower_int64<H>(node: NodeInt64, fields: Fields, at: Layout)
    requires
        node.typed(fields),
        at.sizes.covers(base(fields)),
    ensures
        int64_well::<H>(node, fields, at),
{
    let lowered = lower_int64::<H>(node, fields, at);
    match node {
        NodeInt64::Variable { name } => {
            lemma_field_slot(fields, name@, Variable::Int64);
        },
        NodeInt64::Negative(NodeInt64Negative::Uint64(inner)) => {
            lemma_lower_uint64::<H>(*inner, fields, at);
            let child = lower_uint64::<H>(*inner, fields, at);
            if within(lowered.layout, lowered.code.len()) {
                lemma_sound_then(
                    child.code,
                    lowered.code.last(),
                    child.layout.constants.sizes(),
                    child.layout.sizes,
                    lowered.layout.constants.sizes(),
                    lowered.layout.sizes,
                );
            }
        },
    }
}

pub proof fn lemma_lower_string<H>(node: NodeString, fields: Fields, at: Layout)
    requires
        node.typed(fields),
        at.sizes.covers(base(fields)),
    ensures
        string_well::<H>(node, fields, at),
    decreases node,
{
    let lowered = lower_string::<H>(node, fields, at);
    match node {
        NodeString::Variable { name } => {
            lemma_field_slot(fields, name@, Variable::String);
        },
        NodeString::Constant(_) => {},
        NodeString::Add(NodeStringAdd::StringString { left, right }) => {
            lemma_lower_string::<H>(*left, fields, at);
            let l = lower_string::<H>(*left, fields, at);
            lemma_lower_string::<H>(*right, fields, l.layout);
            let r = lower_string::<H>(*right, fields, l.layout);
            if within(lowered.layout, lowered.code.len()) {
                lemma_sound_pair(l, r);
                lemma_sound_then(
                    l.code + r.code,
                    lowered.code.last(),
                    r.layout.constants.sizes(),
                    r.layout.sizes,
                    lowered.layout.constants.sizes(),
                    lowered.layout.sizes,
                );
            }
        },
    }
}

/// Operand code, a skip over the second operand's code and the operation
/// after it, that code, and that operation: sound where each part is.
pub proof fn lemma_sound_guarded<H>(
    first: Seq<Operation<H>>,
    skip: Operation<H>,
    second: Seq<Operation<H>>,
    last: Operation<H>,
    pool: Sizes,
    room: Sizes,
)
    requires
        sound(first, pool, room),
        sound(second, pool, room),
        fits(skip, pool, room),
        fits(last, pool, room),
        reach(skip.1) == second.len() + 2,
        reach(last.1) == 1,
    ensures
        sound(first + seq![skip] + second + seq![last], pool, room),
{
    let code = first + seq![skip] + second + seq![last];
    assert forall|i: int| 0 <= i < code.len() implies fits(#[trigger] code[i], pool, room) && i
        + reach(code[i].1) <= code.len() by {
        if i < first.len() {
            assert(code[i] == first[i]);
        } else if i == first.len() {
            assert(code[i] == skip);
        } else if i < first.len() + 1 + second.len() {
            assert(code[i] == second[i - first.len() - 1]);
        } else {
            assert(code[i] == last);
        }
    }
}

/// The soundness of a guarded pair of boolean operands in the layout that
/// holds the result slot.
proof fn lemma_lower_guarded<H>(
    l: Lowered<H>,
    r: Lowered<H>,
    skip: Operation<H>,
    last: Operation<H>,
    lowered: Lowered<H>,
)
    requires
        grows(r.layout, l.layout),
        lowered == finish(l.code + seq![skip] + r.code, last.1, r.layout),
        last.0 == r.layout.sizes.boolean as usize,
        within(lowered.layout, lowered.code.len()),
        sound(l.code, l.layout.constants.sizes(), l.layout.sizes),
        sound(r.code, r.layout.constants.sizes(), r.layout.sizes),
        fits(skip, lowered.layout.constants.sizes(), lowered.layout.sizes),
        fits(last, lowered.layout.constants.sizes(), lowered.layout.sizes),
        reach(skip.1) == r.code.len() + 2,
        reach(last.1) == 1,
    ensures
        sound(lowered.code, lowered.layout.constants.sizes(), lowered.layout.sizes),
{
    let pool = lowered.layout.constants.sizes();
    let room = lowered.layout.sizes;
    lemma_sound_more(l.code, l.layout.constants.sizes(), l.layout.sizes, pool, room);
    lemma_sound_more(r.code, r.layout.constants.sizes(), r.layout.sizes, pool, room);
    lemma_sound_guarded(l.code, skip, r.code, last, pool, room);
    assert(lowered.code =~= l.code + seq![skip] + r.code + seq![last]);
}

/// What [`lower_boolean`] hands back for `node` is well formed.
pub open spec fn boolean_well<H>(node: NodeBoolean, fields: Fields, at: Layout) -> bool {
    lowered_well(
        lower_boolean::<H>(node, fields, at),
        at,
        lower_boolean::<H>(node, fields, at).layout.constants.boolean.len(),
        lower_boolean::<H>(node, fields, at).layout.sizes.boolean,
    )
}

proof fn lemma_well_both<H>(left: NodeBoolean, right: NodeBoolean, fields: Fields, at: Layout)
    requires
        boolean_well::<H>(left, fields, at),
        boolean_well::<H>(right, fields, lower_boolean::<H>(left, fields, at).layout),
    ensures
        boolean_well::<H>(NodeBoolean::both(left, right), fields, at),
{
    let l = lower_boolean::<H>(left, fields, at);
    let r = lower_boolean::<H>(right, fields, l.layout);
    let lowered = lower_boolean::<H>(NodeBoolean::both(left, right), fields, at);
    let pool = lowered.layout.constants.sizes();
    let room = lowered.layout.sizes;
    if within(lowered.layout, lowered.code.len()) {
        let output = r.layout.sizes.boolean as usize;
        let skip = (
            output,
            Instruction::<H>::SkipIfFalse {
                check: l.pointer,
                forward: (r.code.len() + 1) as usize,
            },
        );
        let last = (output, Instruction::<H>::BothBoolBool { left: l.pointer, right: r.pointer });
        lemma_lower_guarded(l, r, skip, last, lowered);
    }
}

proof fn lemma_well_either<H>(left: NodeBoolean, right: NodeBoolean, fields: Fields, at: Layout)
    requires
        boolean_well::<H>(left, fields, at),
        boolean_well::<H>(right, fields, lower_boolean::<H>(left, fields, at).layout),
    ensures
        boolean_well::<H>(NodeBoolean::either(left, right), fields, at),
{
    let l = lower_boolean::<H>(left, fields, at);
    let r = lower_boolean::<H>(right, fields, l.layout);
    let lowered = lower_boolean::<H>(NodeBoolean::either(left, right), fields, at);
    let pool = lowered.layout.constants.sizes();
    let room = lowered.layout.sizes;
    if within(lowered.layout, lowered.code.len()) {
        let output = r.layout.sizes.boolean as usize;
        let skip = (
            output,
            Instruction::<H>::SkipIfTrue { check: l.pointer, forward: (r.code.len() + 1) as usize },
        );
        let last = (output, Instruction::<H>::EitherBoolBool { left: l.pointer, right: r.pointer });
        lemma_lower_guarded(l, r, skip, last, lowered);
    }
}

proof fn lemma_well_equals_boolean<H>(
    left: NodeBoolean,
    right: NodeBoolean,
    fields: Fields,
    at: Layout,
)
    requires
        boolean_well::<H>(left, fields, at),
        boolean_well::<H>(right, fields, lower_boolean::<H>(left, fields, at).layout),
    ensures
        boolean_well::<H>(NodeBoolean::equals_boolean(left, right), fields, at),
{
    let l = lower_boolean::<H>(left, fields, at);
    let r = lower_boolean::<H>(right, fields, l.layout);
    let lowered = lower_boolean::<H>(NodeBoolean::equals_boolean(left, right), fields, at);
    let pool = lowered.layout.constants.sizes();
    let room = lowered.layout.sizes;
    if within(lowered.layout, lowered.code.len()) {
        lemma_sound_pair(l, r);
        lemma_sound_then(
            l.code + r.code,
            lowered.code.last(),
            r.layout.constants.sizes(),
            r.layout.sizes,
            pool,
            room,
        );
    }
}

proof fn lemma_well_equals_string<H>(
    left: NodeString,
    right: NodeString,
    fields: Fields,
    at: Layout,
)
    requires
        string_well::<H>(left, fields, at),
        string_well::<H>(right, fields, lower_string::<H>(left, fields, at).layout),
    ensures
        boolean_well::<H>(NodeBoolean::equals_string(left, right), fields, at),
{
    let l = lower_string::<H>(left, fields, at);
    let r = lower_string::<H>(right, fields, l.layout);
    let lowered = lower_boolean::<H>(NodeBoolean::equals_string(left, right), fields, at);
    let pool = lowered.layout.constants.sizes();
    let room = lowered.layout.sizes;
    if within(lowered.layout, lowered.code.len()) {
        lemma_sound_pair(l, r);
        lemma_sound_then(
            l.code + r.code,
            lowered.code.last(),
            r.layout.constants.sizes(),
            r.layout.sizes,
            pool,
            room,
        );
    }
}

proof fn lemma_well_equals_uint64<H>(
    left: NodeUint64,
    right: NodeUint64,
    fields: Fields,
    at: Layout,
)
    requires
        uint64_well::<H>(left, fields, at),
        uint64_well::<H>(right, fields, lower_uint64::<H>(left, fields, at).layout),
    ensures
        boolean_well::<H>(NodeBoolean::equals_uint64(left, right), fields, at),
{
    let l = lower_uint64::<H>(left, fields, at);
    let r = lower_uint64::<H>(right, fields, l.layout);
    let lowered = lower_boolean::<H>(NodeBoolean::equals_uint64(left, right), fields, at);
    let pool = lowered.layout.constants.sizes();
    let room = lowered.layout.sizes;
    if within(lowered.layout, lowered.code.len()) {
        lemma_sound_pair(l, r);
        lemma_sound_then(
            l.code + r.code,
            lowered.code.last(),
            r.layout.constants.sizes(),
            r.layout.sizes,
            pool,
            room,
        );
    }
}

proof fn lemma_well_equals_int64<H>(left: NodeInt64, right: NodeInt64, fields: Fields, at: Layout)
    requires
        int64_well::<H>(left, fields, at),
        int64_well::<H>(right, fields, lower_int64::<H>(left, fields, at).layout),
    ensures
        boolean_well::<H>(NodeBoolean::equals_int64(left, right), fields, at),
{
    let l = lower_int64::<H>(left, fields, at);
    let r = lower_int64::<H>(right, fields, l.layout);
    let lowered = lower_boolean::<H>(NodeBoolean::equals_int64(left, right), fields, at);
    let pool = lowered.layout.constants.sizes();
    let room = lowered.layout.sizes;
    if within(lowered.layout, lowered.code.len()) {
        lemma_sound_pair(l, r);
        lemma_sound_then(
            l.code + r.code,
            lowered.code.last(),
            r.layout.constants.sizes(),
            r.layout.sizes,
            pool,
            room,
        );
    }
}

proof fn lemma_well_equals_ip<H>(left: NodeIp, right: NodeIp, fields: Fields, at: Layout)
    requires
        ip_well(left, fields, at),
        ip_well(right, fields, lower_ip(left, fields, at).layout),
    ensures
        boolean_well::<H>(NodeBoolean::equals_ip(left, right), fields, at),
{
    let l = lower_ip(left, fields, at);
    let r = lower_ip(right, fields, l.layout);
    let lowered = lower_boolean::<H>(NodeBoolean::equals_ip(left, right), fields, at);
    let pool = lowered.layout.constants.sizes();
    let room = lowered.layout.sizes;
    if within(lowered.layout, lowered.code.len()) {
        lemma_sound_single(lowered.code.last(), pool, room);
        assert(lowered.code =~= seq![lowered.code.last()]);
    }
}

proof fn lemma_well_within<H>(left: NodeIp, right: NodeCidr, fields: Fields, at: Layout)
    requires
        ip_well(left, fields, at),
        cidr_well(right, fields, lower_ip(left, fields, at).layout),
    ensures
        boolean_well::<H>(NodeBoolean::within(left, right), fields, at),
{
    let l = lower_ip(left, fields, at);
    let r = lower_cidr(right, fields, l.layout);
    let lowered = lower_boolean::<H>(NodeBoolean::within(left, right), fields, at);
    let pool = lowered.layout.constants.sizes();
    let room = lowered.layout.sizes;
    if within(lowered.layout, lowered.code.len()) {
        lemma_sound_single(lowered.code.last(), pool, room);
        assert(lowered.code =~= seq![lowered.code.last()]);
    }
}

proof fn lemma_well_matches<H>(left: NodeString, right: NodeRegex, fields: Fields, at: Layout)
    requires
        string_well::<H>(left, fields, at),
        regex_well(right, fields, lower_string::<H>(left, fields, at).layout),
    ensures
        boolean_well::<H>(NodeBoolean::matches(left, right), fields, at),
{
    let l = lower_string::<H>(left, fields, at);
    let r = lower_regex(right, fields, l.layout);
    let lowered = lower_boolean::<H>(NodeBoolean::matches(left, right), fields, at);
    let pool = lowered.layout.constants.sizes();
    let room = lowered.layout.sizes;
    if within(lowered.layout, lowered.code.len()) {
        lemma_sound_then(
            l.code,
            lowered.code.last(),
            l.layout.constants.sizes(),
            l.layout.sizes,
            pool,
            room,
        );
    }
}

proof fn lemma_well_not<H>(inner: NodeBoolean, fields: Fields, at: Layout)
    requires
        boolean_well::<H>(inner, fields, at),
    ensures
        boolean_well::<H>(NodeBoolean::not(inner), fields, at),
{
    let child = lower_boolean::<H>(inner, fields, at);
    let lowered = lower_boolean::<H>(NodeBoolean::not(inner), fields, at);
    if within(lowered.layout, lowered.code.len()) {
        lemma_sound_then(
            child.code,
            lowered.code.last(),
            child.layout.constants.sizes(),
            child.layout.sizes,
            lowered.layout.constants.sizes(),
            lowered.layout.sizes,
        );
    }
}

/// What [`lower_boolean`] hands back is well formed.
pub proof fn lemma_lower_boolean<H>(node: NodeBoolean, fields: Fields, at: Layout)
    requires
        node.typed(fields),
        at.sizes.covers(base(fields)),
    ensures
        boolean_well::<H>(node, fields, at),
    decreases node,
{
    match node {
        NodeBoolean::Variable { name } => {
            lemma_field_slot(fields, name@, Variable::Boolean);
        },
        NodeBoolean::Constant(_) => {},
        NodeBoolean::Not(NodeBooleanNot::Boolean(inner)) => {
            lemma_lower_boolean::<H>(*inner, fields, at);
            lemma_well_not::<H>(*inner, fields, at);
        },
        NodeBoolean::Both(NodeBooleanBoth::BooleanBoolean { left, right }) => {
            lemma_lower_boolean::<H>(*left, fields, at);
            lemma_lower_boolean::<H>(*right, fields, lower_boolean::<H>(*left, fields, at).layout);
            lemma_well_both::<H>(*left, *right, fields, at);
        },
        NodeBoolean::Either(NodeBooleanEither::BooleanBoolean { left, right }) => {
            lemma_lower_boolean::<H>(*left, fields, at);
            lemma_lower_boolean::<H>(*right, fields, lower_boolean::<H>(*left, fields, at).layout);
            lemma_well_either::<H>(*left, *right, fields, at);
        },
        NodeBoolean::Within(NodeBooleanWithin::IpCidr { left, right }) => {
            lemma_lower_ip(left, fields, at);
            lemma_lower_cidr(right, fields, lower_ip(left, fields, at).layout);
            lemma_well_within::<H>(left, right, fields, at);
        },
        NodeBoolean::Equals(NodeBooleanEquals::BooleanBoolean { left, right }) => {
            lemma_lower_boolean::<H>(*left, fields, at);
            lemma_lower_boolean::<H>(*right, fields, lower_boolean::<H>(*left, fields, at).layout);
            lemma_well_equals_boolean::<H>(*left, *right, fields, at);
        },
        NodeBoolean::Equals(NodeBooleanEquals::StringString { left, right }) => {
            lemma_lower_string::<H>(left, fields, at);
            lemma_lower_string::<H>(right, fields, lower_string::<H>(left, fields, at).layout);
            lemma_well_equals_string::<H>(left, right, fields, at);
        },
        NodeBoolean::Equals(NodeBooleanEquals::Uint64Uint64 { left, right }) => {
            lemma_lower_uint64::<H>(left, fields, at);
            lemma_lower_uint64::<H>(right, fields, lower_uint64::<H>(left, fields, at).layout);
            lemma_well_equals_uint64::<H>(left, right, fields, at);
        },
        NodeBoolean::Equals(NodeBooleanEquals::Int64Int64 { left, right }) => {
            lemma_lower_int64::<H>(left, fields, at);
            lemma_lower_int64::<H>(right, fields, lower_int64::<H>(left, fields, at).layout);
            lemma_well_equals_int64::<H>(left, right, fields, at);
        },
        NodeBoolean::Equals(NodeBooleanEquals::IpIp { left, right }) => {
            lemma_lower_ip(left, fields, at);
            lemma_lower_ip(right, fields, lower_ip(left, fields, at).layout);
            lemma_well_equals_ip::<H>(left, right, fields, at);
        },
        NodeBoolean::Matches(NodeBooleanMatches::StringRegex { left, right }) => {
            lemma_lower_string::<H>(left, fields, at);
            lemma_lower_regex(right, fields, lower_string::<H>(left, fields, at).layout);
            lemma_well_matches::<H>(left, right, fields, at);
        },
    }
}

} // verus!
