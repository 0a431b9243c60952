//! Lowered code computes the value of the expression it was lowered from.

use vstd::prelude::*;
use super::lower::{
    base, field_pointer, finish, lower_boolean, lower_cidr, lower_int64, lower_ip, lower_regex,
    lower_string, lower_uint64, Layout, Lowered, Placed, Sizes,
};
use super::machine::{
    raised, read_boolean, read_cidr, read_int64, read_ip, read_regex, read_string, read_uint64,
    run, stride, written, Memory, Operation, Outcome,
};
use super::sound::{
    extends, indexable, lemma_field_slot, lemma_lower_boolean, lemma_lower_cidr, lemma_lower_int64,
    lemma_lower_ip, lemma_lower_regex, lemma_lower_string, lemma_lower_uint64, lowered_well,
    placed_well, within,
};
use super::{Instruction, Pointer};
use crate::parse::nodes::boolean::{
    NodeBoolean, NodeBooleanBoth, NodeBooleanEither, NodeBooleanEquals, NodeBooleanMatches,
    NodeBooleanNot, NodeBooleanWithin,
};
use crate::parse::nodes::cidr::NodeCidr;
use crate::parse::nodes::int64::{NodeInt64, NodeInt64Negative};
use crate::parse::nodes::ip::NodeIp;
use crate::parse::nodes::regex::NodeRegex;
use crate::parse::nodes::string::{NodeString, NodeStringAdd};
use crate::parse::nodes::uint64::{NodeUint64, NodeUint64Add, NodeUint64Subtract};
use crate::variables::{
    admits, bindings, count, kind_of, lemma_count_monotone, position, slot, Datum, Fields,
    Variable,
};

verus! {

/// Whether two storages agree on every slot below `below`.
pub open spec fn agrees(a: Memory, b: Memory, below: Sizes) -> bool {
    &&& forall|i: int| 0 <= i < below.boolean ==> a.boolean[i] == b.boolean[i]
    &&& forall|i: int| 0 <= i < below.cidr ==> a.cidr[i] == b.cidr[i]
    &&& forall|i: int| 0 <= i < below.int64 ==> a.int64[i] == b.int64[i]
    &&& forall|i: int| 0 <= i < below.ip ==> a.ip[i] == b.ip[i]
    &&& forall|i: int| 0 <= i < below.string ==> a.string[i] == b.string[i]
    &&& forall|i: int| 0 <= i < below.uint64 ==> a.uint64[i] == b.uint64[i]
    &&& forall|i: int| 0 <= i < below.regex ==> a.regex[i] == b.regex[i]
}

/// The value in slot `index` of the slots of type `kind`.
pub open spec fn datum_at(dynamics: Memory, kind: Variable, index: int) -> Datum {
    match kind {
        Variable::Boolean => Datum::Boolean(dynamics.boolean[index]),
        Variable::Cidr => Datum::Cidr(dynamics.cidr[index]),
        Variable::Int64 => Datum::Int64(dynamics.int64[index]),
        Variable::Ip => Datum::Ip(dynamics.ip[index]),
        Variable::String => Datum::String(dynamics.string[index]),
        Variable::Uint64 => Datum::Uint64(dynamics.uint64[index]),
        Variable::Regex => Datum::Regex(dynamics.regex[index]),
    }
}

/// Whether the slot of each field holds the value that `record` has for it.
pub open spec fn loaded(dynamics: Memory, fields: Fields, record: Seq<Datum>) -> bool {
    forall|i: int|
        0 <= i < fields.len() ==> datum_at(dynamics, fields[i].1, slot(fields, i) as int)
            == #[trigger] record[i]
}

/// Whether `dynamics` is storage on which code for `record` can run: the
/// record fits the schema, its values are loaded, and there are at least
/// `room` slots.
pub open spec fn ready(dynamics: Memory, fields: Fields, record: Seq<Datum>, room: Sizes) -> bool {
    &&& admits(fields, record)
    &&& loaded(dynamics, fields, record)
    &&& dynamics.sizes().covers(room)
}

/// Whether a run of `code` on `dynamics` ends at the end of the code, reports
/// nothing, and keeps the number of slots and every slot below `floor`.
pub open spec fn settles<H>(
    code: Seq<Operation<H>>,
    constants: Memory,
    dynamics: Memory,
    floor: Sizes,
) -> bool {
    let end = run(code, constants, dynamics, 0);
    &&& end.cursor == code.len()
    &&& end.matched =~= Seq::<H>::empty()
    &&& end.dynamics.sizes() == dynamics.sizes()
    &&& agrees(end.dynamics, dynamics, floor)
}

/// A run from past the end of the first of two pieces of code is a run of the
/// second.
pub proof fn lemma_run_shift<H>(
    first: Seq<Operation<H>>,
    second: Seq<Operation<H>>,
    constants: Memory,
    dynamics: Memory,
    cursor: int,
)
    requires
        0 <= cursor,
    ensures
        run(first + second, constants, dynamics, first.len() + cursor) == (Outcome {
            cursor: first.len() + run(second, constants, dynamics, cursor).cursor,
            ..run(second, constants, dynamics, cursor)
        }),
    decreases
            (if cursor < second.len() {
                second.len() - cursor
            } else {
                0
            }),
{
    let code = first + second;
    if cursor < second.len() {
        assert(code[first.len() + cursor] == second[cursor]);
        lemma_run_shift(
            first,
            second,
            constants,
            written(second[cursor].0, second[cursor].1, constants, dynamics),
            cursor + stride(second[cursor].1, constants, dynamics),
        );
    }
}

/// A run of two pieces of code, where the run of the first ends at its end,
/// is the run of the first and then the run of the second.
pub proof fn lemma_run_concat<H>(
    first: Seq<Operation<H>>,
    second: Seq<Operation<H>>,
    constants: Memory,
    dynamics: Memory,
    cursor: int,
)
    requires
        0 <= cursor <= first.len(),
        run(first, constants, dynamics, cursor).cursor == first.len(),
    ensures
        ({
            let head = run(first, constants, dynamics, cursor);
            let tail = run(second, constants, head.dynamics, 0);
            run(first + second, constants, dynamics, cursor) == (Outcome {
                dynamics: tail.dynamics,
                matched: head.matched + tail.matched,
                cursor: first.len() + tail.cursor,
            })
        }),
    decreases first.len() - cursor,
{
    let code = first + second;
    if cursor == first.len() {
        lemma_run_shift(first, second, constants, dynamics, 0);
        let tail = run(second, constants, dynamics, 0);
        assert(Seq::<H>::empty() + tail.matched =~= tail.matched);
    } else {
        assert(code[cursor] == first[cursor]);
        let after = written(first[cursor].0, first[cursor].1, constants, dynamics);
        let next = cursor + stride(first[cursor].1, constants, dynamics);
        assert(run(first, constants, dynamics, cursor).cursor == run(
            first,
            constants,
            after,
            next,
        ).cursor);
        assert(next <= first.len());
        lemma_run_concat(first, second, constants, after, next);
        let head = run(first, constants, after, next);
        let tail = run(second, constants, head.dynamics, 0);
        let now = raised(first[cursor].1, constants, dynamics);
        assert(now + (head.matched + tail.matched) =~= (now + head.matched) + tail.matched);
    }
}

/// A run of one operation.
pub proof fn lemma_run_single<H>(operation: Operation<H>, constants: Memory, dynamics: Memory)
    ensures
        run(seq![operation], constants, dynamics, 0) == (Outcome {
            dynamics: written(operation.0, operation.1, constants, dynamics),
            matched: raised(operation.1, constants, dynamics),
            cursor: stride(operation.1, constants, dynamics) as int,
        }),
{
    let code = seq![operation];
    let after = written(operation.0, operation.1, constants, dynamics);
    let next = stride(operation.1, constants, dynamics) as int;
    assert(code[0] == operation);
    assert(run(code, constants, after, next) == (Outcome::<H> {
        dynamics: after,
        matched: Seq::empty(),
        cursor: next,
    }));
    assert(raised(operation.1, constants, dynamics) + Seq::<H>::empty() =~= raised(
        operation.1,
        constants,
        dynamics,
    ));
}

/// Code that settles, followed by one operation that moves the cursor by one
/// and reports nothing: what the whole leaves behind.
pub proof fn lemma_run_then<H>(
    code: Seq<Operation<H>>,
    operation: Operation<H>,
    constants: Memory,
    dynamics: Memory,
    floor: Sizes,
)
    requires
        settles(code, constants, dynamics, floor),
        stride(operation.1, constants, run(code, constants, dynamics, 0).dynamics) == 1,
        raised(operation.1, constants, run(code, constants, dynamics, 0).dynamics)
            =~= Seq::<H>::empty(),
    ensures
        ({
            let middle = run(code, constants, dynamics, 0).dynamics;
            run(code + seq![operation], constants, dynamics, 0) == (Outcome::<H> {
                dynamics: written(operation.0, operation.1, constants, middle),
                matched: Seq::empty(),
                cursor: code.len() as int + 1,
            })
        }),
{
    let head = run(code, constants, dynamics, 0);
    lemma_run_concat(code, seq![operation], constants, dynamics, 0);
    lemma_run_single(operation, constants, head.dynamics);
    assert(head.matched + Seq::<H>::empty() =~= Seq::<H>::empty());
}

/// Two pieces of code that settle one after the other settle together.
pub proof fn lemma_settles_pair<H>(
    first: Seq<Operation<H>>,
    second: Seq<Operation<H>>,
    constants: Memory,
    dynamics: Memory,
    floor: Sizes,
    middle: Sizes,
)
    requires
        settles(first, constants, dynamics, floor),
        settles(second, constants, run(first, constants, dynamics, 0).dynamics, middle),
        middle.covers(floor),
    ensures
        settles(first + second, constants, dynamics, floor),
        run(first + second, constants, dynamics, 0).dynamics == run(
            second,
            constants,
            run(first, constants, dynamics, 0).dynamics,
            0,
        ).dynamics,
{
    lemma_run_concat(first, second, constants, dynamics, 0);
    let head = run(first, constants, dynamics, 0);
    let tail = run(second, constants, head.dynamics, 0);
    assert(head.matched + tail.matched =~= Seq::<H>::empty());
}

/// Storage that agrees with ready storage on the slots of the fields is ready
/// for the same record.
pub proof fn lemma_ready_kept(
    after: Memory,
    before: Memory,
    fields: Fields,
    record: Seq<Datum>,
    floor: Sizes,
    room: Sizes,
)
    requires
        ready(before, fields, record, room),
        after.sizes() == before.sizes(),
        agrees(after, before, floor),
        floor.covers(base(fields)),
    ensures
        ready(after, fields, record, room),
{
    assert forall|i: int| 0 <= i < fields.len() implies datum_at(
        after,
        fields[i].1,
        slot(fields, i) as int,
    ) == #[trigger] record[i] by {
        lemma_count_monotone(fields, fields[i].1, i, fields.len() as int);
        assert(datum_at(before, fields[i].1, slot(fields, i) as int) == record[i]);
    }
}

/// The slot of a field in ready storage holds the value bound to its name.
pub proof fn lemma_field_value(
    dynamics: Memory,
    fields: Fields,
    record: Seq<Datum>,
    room: Sizes,
    name: Seq<char>,
    kind: Variable,
)
    requires
        ready(dynamics, fields, record, room),
        room.covers(base(fields)),
        indexable(room),
        kind_of(fields, name) == Some(kind),
    ensures
        bindings(fields, record)[name].kind() == kind,
        field_pointer(fields, name) matches Pointer::Dynamic(index) && datum_at(
            dynamics,
            kind,
            index as int,
        ) == bindings(fields, record)[name],
        slot(fields, position(fields, name) as int) < count(fields, kind, fields.len() as int),
{
    lemma_field_slot(fields, name, kind);
    let index = position(fields, name) as int;
    assert(datum_at(dynamics, fields[index].1, slot(fields, index) as int) == record[index]);
    crate::variables::lemma_count_bound(fields, kind, fields.len() as int);
}

/// Whether code lowered at `at` into `after`, `length` operations long, can
/// run on `dynamics` against the pool `constants` for `record`.
pub open spec fn operable(
    fields: Fields,
    at: Layout,
    after: Layout,
    length: nat,
    constants: Memory,
    dynamics: Memory,
    record: Seq<Datum>,
) -> bool {
    &&& at.sizes.covers(base(fields))
    &&& within(after, length)
    &&& extends(constants, after.constants)
    &&& ready(dynamics, fields, record, after.sizes)
}

/// The code of two operands and one operation that moves the cursor by one
/// and reports nothing: what a run of the whole leaves behind.
pub proof fn lemma_pair_then<H>(
    first: Seq<Operation<H>>,
    second: Seq<Operation<H>>,
    operation: Operation<H>,
    constants: Memory,
    dynamics: Memory,
    floor: Sizes,
    middle: Sizes,
)
    requires
        settles(first, constants, dynamics, floor),
        settles(second, constants, run(first, constants, dynamics, 0).dynamics, middle),
        middle.covers(floor),
        stride(
            operation.1,
            constants,
            run(second, constants, run(first, constants, dynamics, 0).dynamics, 0).dynamics,
        ) == 1,
        raised(
            operation.1,
            constants,
            run(second, constants, run(first, constants, dynamics, 0).dynamics, 0).dynamics,
        ) =~= Seq::<H>::empty(),
    ensures
        ({
            let middle = run(
                second,
                constants,
                run(first, constants, dynamics, 0).dynamics,
                0,
            ).dynamics;
            &&& run(first + second + seq![operation], constants, dynamics, 0) == (Outcome::<H> {
                dynamics: written(operation.0, operation.1, constants, middle),
                matched: Seq::empty(),
                cursor: first.len() as int + second.len() + 1,
            })
            &&& middle.sizes() == dynamics.sizes()
            &&& agrees(middle, dynamics, floor)
        }),
{
    lemma_settles_pair(first, second, constants, dynamics, floor, middle);
    lemma_run_then(first + second, operation, constants, dynamics, floor);
}

pub proof fn lemma_value_ip(
    node: NodeIp,
    fields: Fields,
    at: Layout,
    constants: Memory,
    dynamics: Memory,
    record: Seq<Datum>,
)
    requires
        node.typed(fields),
        operable(fields, at, lower_ip(node, fields, at).layout, 0, constants, dynamics, record),
    ensures
        read_ip(constants, dynamics, lower_ip(node, fields, at).pointer) == node.value(
            bindings(fields, record),
        ),
{
    match node {
        NodeIp::Variable { name } => {
            lemma_field_value(dynamics, fields, record, at.sizes, name@, Variable::Ip);
        },
        NodeIp::Constant(_) => {},
    }
}

pub proof fn lemma_value_cidr(
    node: NodeCidr,
    fields: Fields,
    at: Layout,
    constants: Memory,
    dynamics: Memory,
    record: Seq<Datum>,
)
    requires
        node.typed(fields),
        operable(fields, at, lower_cidr(node, fields, at).layout, 0, constants, dynamics, record),
    ensures
        read_cidr(constants, dynamics, lower_cidr(node, fields, at).pointer) == node.value(
            bindings(fields, record),
        ),
{
    match node {
        NodeCidr::Variable { name } => {
            lemma_field_value(dynamics, fields, record, at.sizes, name@, Variable::Cidr);
        },
        NodeCidr::Constant(_) => {},
    }
}

pub proof fn lemma_value_regex(
    node: NodeRegex,
    fields: Fields,
    at: Layout,
    constants: Memory,
    dynamics: Memory,
    record: Seq<Datum>,
)
    requires
        node.typed(fields),
        operable(fields, at, lower_regex(node, fields, at).layout, 0, constants, dynamics, record),
    ensures
        read_regex(constants, dynamics, lower_regex(node, fields, at).pointer) == node.value(
            bindings(fields, record),
        ),
{
    match node {
        NodeRegex::Variable { name } => {
            lemma_field_value(dynamics, fields, record, at.sizes, name@, Variable::Regex);
        },
        NodeRegex::Constant(_) => {},
    }
}

/// Whether a run of `lowered` on `dynamics` settles and leaves `value` where
/// the pointer of `lowered` reads an unsigned integer.
pub open spec fn yields_uint64<H>(
    lowered: Lowered<H>,
    at: Layout,
    constants: Memory,
    dynamics: Memory,
    value: u64,
) -> bool {
    &&& settles(lowered.code, constants, dynamics, at.sizes)
    &&& read_uint64(
        constants,
        run(lowered.code, constants, dynamics, 0).dynamics,
        lowered.pointer,
    ) == value
}

proof fn lemma_yields_uint64_pair<H>(
    l: Lowered<H>,
    r: Lowered<H>,
    lowered: Lowered<H>,
    add: bool,
    at: Layout,
    constants: Memory,
    dynamics: Memory,
    left: u64,
    right: u64,
)
    requires
        lowered_well(l, at, l.layout.constants.uint64.len(), l.layout.sizes.uint64),
        lowered_well(r, l.layout, r.layout.constants.uint64.len(), r.layout.sizes.uint64),
        within(lowered.layout, lowered.code.len()),
        extends(constants, lowered.layout.constants),
        dynamics.sizes().covers(lowered.layout.sizes),
        yields_uint64(l, at, constants, dynamics, left),
        yields_uint64(r, l.layout, constants, run(l.code, constants, dynamics, 0).dynamics, right),
        lowered.layout == (Layout {
            constants: r.layout.constants,
            sizes: Sizes { uint64: r.layout.sizes.uint64 + 1, ..r.layout.sizes },
        }),
        lowered.pointer == Pointer::Dynamic(r.layout.sizes.uint64 as usize),
        lowered.code == l.code + r.code + seq![
            (
                r.layout.sizes.uint64 as usize,
                if add {
                    Instruction::<H>::AddUint64Uint64 { left: l.pointer, right: r.pointer }
                } else {
                    Instruction::<H>::SubtractUint64Uint64 { left: l.pointer, right: r.pointer }
                },
            ),
        ],
    ensures
        yields_uint64(
            lowered,
            at,
            constants,
            dynamics,
            if add {
                left.wrapping_add(right)
            } else {
                left.wrapping_sub(right)
            },
        ),
{
    let operation = lowered.code.last();
    lemma_pair_then(l.code, r.code, operation, constants, dynamics, at.sizes, l.layout.sizes);
}

pub proof fn lemma_value_uint64<H>(
    node: NodeUint64,
    fields: Fields,
    at: Layout,
    constants: Memory,
    dynamics: Memory,
    record: Seq<Datum>,
)
    requires
        node.typed(fields),
        operable(
            fields,
            at,
            lower_uint64::<H>(node, fields, at).layout,
            lower_uint64::<H>(node, fields, at).code.len(),
            constants,
            dynamics,
            record,
        ),
    ensures
        yields_uint64(
            lower_uint64::<H>(node, fields, at),
            at,
            constants,
            dynamics,
            node.value(bindings(fields, record)),
        ),
    decreases node,
{
    let lowered = lower_uint64::<H>(node, fields, at);
    let env = bindings(fields, record);
    match node {
        NodeUint64::Variable { name } => {
            lemma_field_value(dynamics, fields, record, at.sizes, name@, Variable::Uint64);
        },
        NodeUint64::Constant(_) => {},
        NodeUint64::Add(NodeUint64Add::Uint64Uint64 { left, right }) => {
            let l = lower_uint64::<H>(*left, fields, at);
            let r = lower_uint64::<H>(*right, fields, l.layout);
            lemma_lower_uint64::<H>(*left, fields, at);
            lemma_lower_uint64::<H>(*right, fields, l.layout);
            lemma_value_uint64::<H>(*left, fields, at, constants, dynamics, record);
            let middle = run(l.code, constants, dynamics, 0).dynamics;
            lemma_ready_kept(middle, dynamics, fields, record, at.sizes, lowered.layout.sizes);
            lemma_value_uint64::<H>(*right, fields, l.layout, constants, middle, record);
            lemma_yields_uint64_pair(
                l,
                r,
                lowered,
                true,
                at,
                constants,
                dynamics,
                left.value(env),
                right.value(env),
            );
        },
        NodeUint64::Subtract(NodeUint64Subtract::Uint64Uint64 { left, right }) => {
            let l = lower_uint64::<H>(*left, fields, at);
            let r = lower_uint64::<H>(*right, fields, l.layout);
            lemma_lower_uint64::<H>(*left, fields, at);
            lemma_lower_uint64::<H>(*right, fields, l.layout);
            lemma_value_uint64::<H>(*left, fields, at, constants, dynamics, record);
            let middle = run(l.code, constants, dynamics, 0).dynamics;
            lemma_ready_kept(middle, dynamics, fields, record, at.sizes, lowered.layout.sizes);
            lemma_value_uint64::<H>(*right, fields, l.layout, constants, middle, record);
            lemma_yields_uint64_pair(
                l,
                r,
                lowered,
                false,
                at,
                constants,
                dynamics,
                left.value(env),
                right.value(env),
            );
        },
    }
}

/// Whether a run of `lowered` on `dynamics` settles and leaves `value` where
/// the pointer of `lowered` reads a value of its type.
pub open spec fn yields_int64<H>(
    lowered: Lowered<H>,
    at: Layout,
    constants: Memory,
    dynamics: Memory,
    value: i64,
) -> bool {
    &&& settles(lowered.code, constants, dynamics, at.sizes)
    &&& read_int64(
        constants,
        run(lowered.code, constants, dynamics, 0).dynamics,
        lowered.pointer,
    ) == value
}

/// Whether a run of `lowered` on `dynamics` settles and leaves `value` where
/// the pointer of `lowered` reads a value of its type.
pub open spec fn yields_string<H>(
    lowered: Lowered<H>,
    at: Layout,
    constants: Memory,
    dynamics: Memory,
    value: Seq<char>,
) -> bool {
    &&& settles(lowered.code, constants, dynamics, at.sizes)
    &&& read_string(
        constants,
        run(lowered.code, constants, dynamics, 0).dynamics,
        lowered.pointer,
    ) == value
}

/// Whether a run of `lowered` on `dynamics` settles and leaves `value` where
/// the pointer of `lowered` reads a value of its type.
pub open spec fn yields_boolean<H>(
    lowered: Lowered<H>,
    at: Layout,
    constants: Memory,
    dynamics: Memory,
    value: bool,
) -> bool {
    &&& settles(lowered.code, constants, dynamics, at.sizes)
    &&& read_boolean(
        constants,
        run(lowered.code, constants, dynamics, 0).dynamics,
        lowered.pointer,
    ) == value
}

proof fn lemma_yields_negative<H>(
    child: Lowered<H>,
    lowered: Lowered<H>,
    at: Layout,
    constants: Memory,
    dynamics: Memory,
    value: u64,
)
    requires
        lowered_well(child, at, child.layout.constants.uint64.len(), child.layout.sizes.uint64),
        within(lowered.layout, lowered.code.len()),
        extends(constants, lowered.layout.constants),
        dynamics.sizes().covers(lowered.layout.sizes),
        yields_uint64(child, at, constants, dynamics, value),
        lowered.layout == (Layout {
            constants: child.layout.constants,
            sizes: Sizes { int64: child.layout.sizes.int64 + 1, ..child.layout.sizes },
        }),
        lowered.pointer == Pointer::Dynamic(child.layout.sizes.int64 as usize),
        lowered.code == child.code + seq![
            (child.layout.sizes.int64 as usize, Instruction::<H>::NegativeUint64(child.pointer)),
        ],
    ensures
        yields_int64(lowered, at, constants, dynamics, crate::parse::nodes::int64::negated(value)),
{
    lemma_run_then(child.code, lowered.code.last(), constants, dynamics, at.sizes);
}

pub proof fn lemma_value_int64<H>(
    node: NodeInt64,
    fields: Fields,
    at: Layout,
    constants: Memory,
    dynamics: Memory,
    record: Seq<Datum>,
)
    requires
        node.typed(fields),
        operable(
            fields,
            at,
            lower_int64::<H>(node, fields, at).layout,
            lower_int64::<H>(node, fields, at).code.len(),
            constants,
            dynamics,
            record,
        ),
    ensures
        yields_int64(
            lower_int64::<H>(node, fields, at),
            at,
            constants,
            dynamics,
            node.value(bindings(fields, record)),
        ),
{
    let lowered = lower_int64::<H>(node, fields, at);
    let env = bindings(fields, record);
    match node {
        NodeInt64::Variable { name } => {
            lemma_field_value(dynamics, fields, record, at.sizes, name@, Variable::Int64);
        },
        NodeInt64::Negative(NodeInt64Negative::Uint64(inner)) => {
            let child = lower_uint64::<H>(*inner, fields, at);
            lemma_lower_uint64::<H>(*inner, fields, at);
            lemma_value_uint64::<H>(*inner, fields, at, constants, dynamics, record);
            lemma_yields_negative(child, lowered, at, constants, dynamics, inner.value(env));
        },
    }
}

proof fn lemma_yields_string_pair<H>(
    l: Lowered<H>,
    r: Lowered<H>,
    lowered: Lowered<H>,
    at: Layout,
    constants: Memory,
    dynamics: Memory,
    left: Seq<char>,
    right: Seq<char>,
)
    requires
        lowered_well(l, at, l.layout.constants.string.len(), l.layout.sizes.string),
        lowered_well(r, l.layout, r.layout.constants.string.len(), r.layout.sizes.string),
        within(lowered.layout, lowered.code.len()),
        extends(constants, lowered.layout.constants),
        dynamics.sizes().covers(lowered.layout.sizes),
        yields_string(l, at, constants, dynamics, left),
        yields_string(r, l.layout, constants, run(l.code, constants, dynamics, 0).dynamics, right),
        lowered.layout == (Layout {
            constants: r.layout.constants,
            sizes: Sizes { string: r.layout.sizes.string + 1, ..r.layout.sizes },
        }),
        lowered.pointer == Pointer::Dynamic(r.layout.sizes.string as usize),
        lowered.code == l.code + r.code + seq![
            (
                r.layout.sizes.string as usize,
                Instruction::<H>::AddStringString { left: l.pointer, right: r.pointer },
            ),
        ],
    ensures
        yields_string(lowered, at, constants, dynamics, left + right),
{
    let operation = lowered.code.last();
    lemma_pair_then(l.code, r.code, operation, constants, dynamics, at.sizes, l.layout.sizes);
}

pub proof fn lemma_value_string<H>(
    node: NodeString,
    fields: Fields,
    at: Layout,
    constants: Memory,
    dynamics: Memory,
    record: Seq<Datum>,
)
    requires
        node.typed(fields),
        operable(
            fields,
            at,
            lower_string::<H>(node, fields, at).layout,
            lower_string::<H>(node, fields, at).code.len(),
            constants,
            dynamics,
            record,
        ),
    ensures
        yields_string(
            lower_string::<H>(node, fields, at),
            at,
            constants,
            dynamics,
            node.value(bindings(fields, record)),
        ),
    decreases node,
{
    let lowered = lower_string::<H>(node, fields, at);
    let env = bindings(fields, record);
    match node {
        NodeString::Variable { name } => {
            lemma_field_value(dynamics, fields, record, at.sizes, name@, Variable::String);
        },
        NodeString::Constant(_) => {},
        NodeString::Add(NodeStringAdd::StringString { left, right }) => {
            let l = lower_string::<H>(*left, fields, at);
            let r = lower_string::<H>(*right, fields, l.layout);
            lemma_lower_string::<H>(*left, fields, at);
            lemma_lower_string::<H>(*right, fields, l.layout);
            lemma_value_string::<H>(*left, fields, at, constants, dynamics, record);
            let middle = run(l.code, constants, dynamics, 0).dynamics;
            lemma_ready_kept(middle, dynamics, fields, record, at.sizes, lowered.layout.sizes);
            lemma_value_string::<H>(*right, fields, l.layout, constants, middle, record);
            lemma_yields_string_pair(
                l,
                r,
                lowered,
                at,
                constants,
                dynamics,
                left.value(env),
                right.value(env),
            );
        },
    }
}

proof fn lemma_yields_equals_boolean<H>(
    l: Lowered<H>,
    r: Lowered<H>,
    lowered: Lowered<H>,
    at: Layout,
    constants: Memory,
    dynamics: Memory,
    left: bool,
    right: bool,
)
    requires
        lowered_well(l, at, l.layout.constants.boolean.len(), l.layout.sizes.boolean),
        lowered_well(r, l.layout, r.layout.constants.boolean.len(), r.layout.sizes.boolean),
        within(lowered.layout, lowered.code.len()),
        extends(constants, lowered.layout.constants),
        dynamics.sizes().covers(lowered.layout.sizes),
        yields_boolean(l, at, constants, dynamics, left),
        yields_boolean(r, l.layout, constants, run(l.code, constants, dynamics, 0).dynamics, right),
        lowered == finish(
            l.code + r.code,
            Instruction::<H>::EqualsBoolBool { left: l.pointer, right: r.pointer },
            r.layout,
        ),
    ensures
        yields_boolean(lowered, at, constants, dynamics, left == right),
{
    let operation = lowered.code.last();
    lemma_pair_then(l.code, r.code, operation, constants, dynamics, at.sizes, l.layout.sizes);
}

proof fn lemma_yields_equals_string<H>(
    l: Lowered<H>,
    r: Lowered<H>,
    lowered: Lowered<H>,
    at: Layout,
    constants: Memory,
    dynamics: Memory,
    left: Seq<char>,
    right: Seq<char>,
)
    requires
        lowered_well(l, at, l.layout.constants.string.len(), l.layout.sizes.string),
        lowered_well(r, l.layout, r.layout.constants.string.len(), r.layout.sizes.string),
        within(lowered.layout, lowered.code.len()),
        extends(constants, lowered.layout.constants),
        dynamics.sizes().covers(lowered.layout.sizes),
        yields_string(l, at, constants, dynamics, left),
        yields_string(r, l.layout, constants, run(l.code, constants, dynamics, 0).dynamics, right),
        lowered == finish(
            l.code + r.code,
            Instruction::<H>::EqualsStringString { left: l.pointer, right: r.pointer },
            r.layout,
        ),
    ensures
        yields_boolean(lowered, at, constants, dynamics, left == right),
{
    let operation = lowered.code.last();
    lemma_pair_then(l.code, r.code, operation, constants, dynamics, at.sizes, l.layout.sizes);
}

proof fn lemma_yields_equals_uint64<H>(
    l: Lowered<H>,
    r: Lowered<H>,
    lowered: Lowered<H>,
    at: Layout,
    constants: Memory,
    dynamics: Memory,
    left: u64,
    right: u64,
)
    requires
        lowered_well(l, at, l.layout.constants.uint64.len(), l.layout.sizes.uint64),
        lowered_well(r, l.layout, r.layout.constants.uint64.len(), r.layout.sizes.uint64),
        within(lowered.layout, lowered.code.len()),
        extends(constants, lowered.layout.constants),
        dynamics.sizes().covers(lowered.layout.sizes),
        yields_uint64(l, at, constants, dynamics, left),
        yields_uint64(r, l.layout, constants, run(l.code, constants, dynamics, 0).dynamics, right),
        lowered == finish(
            l.code + r.code,
            Instruction::<H>::EqualsUint64Uint64 { left: l.pointer, right: r.pointer },
            r.layout,
        ),
    ensures
        yields_boolean(lowered, at, constants, dynamics, left == right),
{
    let operation = lowered.code.last();
    lemma_pair_then(l.code, r.code, operation, constants, dynamics, at.sizes, l.layout.sizes);
}

proof fn lemma_yields_equals_int64<H>(
    l: Lowered<H>,
    r: Lowered<H>,
    lowered: Lowered<H>,
    at: Layout,
    constants: Memory,
    dynamics: Memory,
    left: i64,
    right: i64,
)
    requires
        lowered_well(l, at, l.layout.constants.int64.len(), l.layout.sizes.int64),
        lowered_well(r, l.layout, r.layout.constants.int64.len(), r.layout.sizes.int64),
        within(lowered.layout, lowered.code.len()),
        extends(constants, lowered.layout.constants),
        dynamics.sizes().covers(lowered.layout.sizes),
        yields_int64(l, at, constants, dynamics, left),
        yields_int64(r, l.layout, constants, run(l.code, constants, dynamics, 0).dynamics, right),
        lowered == finish(
            l.code + r.code,
            Instruction::<H>::EqualsInt64Int64 { left: l.pointer, right: r.pointer },
            r.layout,
        ),
    ensures
        yields_boolean(lowered, at, constants, dynamics, left == right),
{
    let operation = lowered.code.last();
    lemma_pair_then(l.code, r.code, operation, constants, dynamics, at.sizes, l.layout.sizes);
}

proof fn lemma_yields_matches<H>(
    l: Lowered<H>,
    r: Placed,
    lowered: Lowered<H>,
    at: Layout,
    constants: Memory,
    dynamics: Memory,
    left: Seq<char>,
    right: Seq<char>,
)
    requires
        lowered_well(l, at, l.layout.constants.string.len(), l.layout.sizes.string),
        placed_well(
            r.pointer,
            r.layout,
            l.layout,
            r.layout.constants.regex.len(),
            r.layout.sizes.regex,
        ),
        within(lowered.layout, lowered.code.len()),
        extends(constants, lowered.layout.constants),
        dynamics.sizes().covers(lowered.layout.sizes),
        yields_string(l, at, constants, dynamics, left),
        read_regex(constants, run(l.code, constants, dynamics, 0).dynamics, r.pointer) == right,
        lowered == finish(
            l.code,
            Instruction::<H>::MatchesStringRegex { left: l.pointer, right: r.pointer },
            r.layout,
        ),
    ensures
        yields_boolean(
            lowered,
            at,
            constants,
            dynamics,
            crate::pattern::regex_matches(right, left),
        ),
{
    lemma_run_then(l.code, lowered.code.last(), constants, dynamics, at.sizes);
}

proof fn lemma_yields_within<H>(
    l: Placed,
    r: Placed,
    lowered: Lowered<H>,
    at: Layout,
    constants: Memory,
    dynamics: Memory,
    left: crate::address::Ip,
    right: crate::address::Cidr,
)
    requires
        placed_well(l.pointer, l.layout, at, l.layout.constants.ip.len(), l.layout.sizes.ip),
        placed_well(
            r.pointer,
            r.layout,
            l.layout,
            r.layout.constants.cidr.len(),
            r.layout.sizes.cidr,
        ),
        within(lowered.layout, lowered.code.len()),
        extends(constants, lowered.layout.constants),
        dynamics.sizes().covers(lowered.layout.sizes),
        read_ip(constants, dynamics, l.pointer) == left,
        read_cidr(constants, dynamics, r.pointer) == right,
        lowered == finish(
            Seq::empty(),
            Instruction::<H>::WithinIpCidr { left: l.pointer, right: r.pointer },
            r.layout,
        ),
    ensures
        yields_boolean(lowered, at, constants, dynamics, right.holds(left)),
{
    lemma_run_single(lowered.code.last(), constants, dynamics);
    assert(lowered.code =~= seq![lowered.code.last()]);
}

proof fn lemma_yields_equals_ip<H>(
    l: Placed,
    r: Placed,
    lowered: Lowered<H>,
    at: Layout,
    constants: Memory,
    dynamics: Memory,
    left: crate::address::Ip,
    right: crate::address::Ip,
)
    requires
        placed_well(l.pointer, l.layout, at, l.layout.constants.ip.len(), l.layout.sizes.ip),
        placed_well(r.pointer, r.layout, l.layout, r.layout.constants.ip.len(), r.layout.sizes.ip),
        within(lowered.layout, lowered.code.len()),
        extends(constants, lowered.layout.constants),
        dynamics.sizes().covers(lowered.layout.sizes),
        read_ip(constants, dynamics, l.pointer) == left,
        read_ip(constants, dynamics, r.pointer) == right,
        lowered == finish(
            Seq::empty(),
            Instruction::<H>::EqualsIpIP { left: l.pointer, right: r.pointer },
            r.layout,
        ),
    ensures
        yields_boolean(lowered, at, constants, dynamics, left == right),
{
    lemma_run_single(lowered.code.last(), constants, dynamics);
    assert(lowered.code =~= seq![lowered.code.last()]);
}

proof fn lemma_yields_not<H>(
    child: Lowered<H>,
    lowered: Lowered<H>,
    at: Layout,
    constants: Memory,
    dynamics: Memory,
    value: bool,
)
    requires
        lowered_well(child, at, child.layout.constants.boolean.len(), child.layout.sizes.boolean),
        within(lowered.layout, lowered.code.len()),
        extends(constants, lowered.layout.constants),
        dynamics.sizes().covers(lowered.layout.sizes),
        yields_boolean(child, at, constants, dynamics, value),
        lowered == finish(child.code, Instruction::<H>::NotBool(child.pointer), child.layout),
    ensures
        yields_boolean(lowered, at, constants, dynamics, !value),
{
    lemma_run_then(child.code, lowered.code.last(), constants, dynamics, at.sizes);
}

/// Code, a skip, more code and one last operation: a run of the whole ends
/// after the skip where its branch is taken, and else goes through the rest.
pub proof fn lemma_run_guarded<H>(
    first: Seq<Operation<H>>,
    skip: Operation<H>,
    second: Seq<Operation<H>>,
    last: Operation<H>,
    constants: Memory,
    dynamics: Memory,
    floor: Sizes,
    middle: Sizes,
)
    requires
        settles(first, constants, dynamics, floor),
        ({
            let before = run(first, constants, dynamics, 0).dynamics;
            let checked = written(skip.0, skip.1, constants, before);
            let after = run(second, constants, checked, 0).dynamics;
            &&& raised(skip.1, constants, before) =~= Seq::<H>::empty()
            &&& stride(skip.1, constants, before) == 1 || stride(skip.1, constants, before)
                == second.len() + 2
            &&& stride(skip.1, constants, before) == 1 ==> {
                &&& settles(second, constants, checked, middle)
                &&& stride(last.1, constants, after) == 1
                &&& raised(last.1, constants, after) =~= Seq::<H>::empty()
            }
        }),
    ensures
        ({
            let before = run(first, constants, dynamics, 0).dynamics;
            let checked = written(skip.0, skip.1, constants, before);
            let after = run(second, constants, checked, 0).dynamics;
            run(first + seq![skip] + second + seq![last], constants, dynamics, 0) == (Outcome::<H> {
                dynamics: if stride(skip.1, constants, before) == 1 {
                    written(last.0, last.1, constants, after)
                } else {
                    checked
                },
                matched: Seq::empty(),
                cursor: first.len() as int + second.len() + 2,
            })
        }),
{
    let before = run(first, constants, dynamics, 0).dynamics;
    let checked = written(skip.0, skip.1, constants, before);
    let rest = seq![skip] + (second + seq![last]);
    let whole = first + seq![skip] + second + seq![last];
    assert(whole =~= first + rest);
    lemma_run_concat(first, rest, constants, dynamics, 0);
    assert(rest[0] == skip);
    let step = stride(skip.1, constants, before) as int;
    let tail = run(rest, constants, checked, step);
    assert(run(rest, constants, before, 0) == (Outcome::<H> {
        dynamics: tail.dynamics,
        matched: raised(skip.1, constants, before) + tail.matched,
        cursor: tail.cursor,
    }));
    if step == 1 {
        lemma_run_shift(seq![skip], second + seq![last], constants, checked, 0);
        lemma_run_then(second, last, constants, checked, middle);
    }
    assert(Seq::<H>::empty() + tail.matched =~= tail.matched);
    assert(Seq::<H>::empty() + Seq::<H>::empty() =~= Seq::<H>::empty());
}

proof fn lemma_yields_both<H>(
    l: Lowered<H>,
    r: Lowered<H>,
    lowered: Lowered<H>,
    at: Layout,
    constants: Memory,
    dynamics: Memory,
    left: bool,
    right: bool,
)
    requires
        lowered_well(l, at, l.layout.constants.boolean.len(), l.layout.sizes.boolean),
        lowered_well(r, l.layout, r.layout.constants.boolean.len(), r.layout.sizes.boolean),
        within(lowered.layout, lowered.code.len()),
        extends(constants, lowered.layout.constants),
        dynamics.sizes().covers(lowered.layout.sizes),
        yields_boolean(l, at, constants, dynamics, left),
        ({
            let before = run(l.code, constants, dynamics, 0).dynamics;
            let checked = Memory {
                boolean: before.boolean.update(r.layout.sizes.boolean as int, left),
                ..before
            };
            !(!left) ==> yields_boolean(r, l.layout, constants, checked, right)
        }),
        lowered == finish(
            l.code + seq![
                (
                    r.layout.sizes.boolean as usize,
                    Instruction::<H>::SkipIfFalse {
                        check: l.pointer,
                        forward: (r.code.len() + 1) as usize,
                    },
                ),
            ] + r.code,
            Instruction::<H>::BothBoolBool { left: l.pointer, right: r.pointer },
            r.layout,
        ),
    ensures
        yields_boolean(lowered, at, constants, dynamics, left && right),
{
    let output = r.layout.sizes.boolean as usize;
    let skip = (
        output,
        Instruction::<H>::SkipIfFalse { check: l.pointer, forward: (r.code.len() + 1) as usize },
    );
    let last = (output, Instruction::<H>::BothBoolBool { left: l.pointer, right: r.pointer });
    assert(lowered.code =~= l.code + seq![skip] + r.code + seq![last]);
    lemma_run_guarded(l.code, skip, r.code, last, constants, dynamics, at.sizes, l.layout.sizes);
}

proof fn lemma_yields_either<H>(
    l: Lowered<H>,
    r: Lowered<H>,
    lowered: Lowered<H>,
    at: Layout,
    constants: Memory,
    dynamics: Memory,
    left: bool,
    right: bool,
)
    requires
        lowered_well(l, at, l.layout.constants.boolean.len(), l.layout.sizes.boolean),
        lowered_well(r, l.layout, r.layout.constants.boolean.len(), r.layout.sizes.boolean),
        within(lowered.layout, lowered.code.len()),
        extends(constants, lowered.layout.constants),
        dynamics.sizes().covers(lowered.layout.sizes),
        yields_boolean(l, at, constants, dynamics, left),
        ({
            let before = run(l.code, constants, dynamics, 0).dynamics;
            let checked = Memory {
                boolean: before.boolean.update(r.layout.sizes.boolean as int, left),
                ..before
            };
            !(left) ==> yields_boolean(r, l.layout, constants, checked, right)
        }),
        lowered == finish(
            l.code + seq![
                (
                    r.layout.sizes.boolean as usize,
                    Instruction::<H>::SkipIfTrue {
                        check: l.pointer,
                        forward: (r.code.len() + 1) as usize,
                    },
                ),
            ] + r.code,
            Instruction::<H>::EitherBoolBool { left: l.pointer, right: r.pointer },
            r.layout,
        ),
    ensures
        yields_boolean(lowered, at, constants, dynamics, left || right),
{
    let output = r.layout.sizes.boolean as usize;
    let skip = (
        output,
        Instruction::<H>::SkipIfTrue { check: l.pointer, forward: (r.code.len() + 1) as usize },
    );
    let last = (output, Instruction::<H>::EitherBoolBool { left: l.pointer, right: r.pointer });
    assert(lowered.code =~= l.code + seq![skip] + r.code + seq![last]);
    lemma_run_guarded(l.code, skip, r.code, last, constants, dynamics, at.sizes, l.layout.sizes);
}

/// Whether the code of `node`, lowered at `at`, can run on `dynamics`
/// against the pool `constants` for `record`.
pub open spec fn runnable<H>(
    node: NodeBoolean,
    fields: Fields,
    at: Layout,
    constants: Memory,
    dynamics: Memory,
    record: Seq<Datum>,
) -> bool {
    &&& node.typed(fields)
    &&& operable(
        fields,
        at,
        lower_boolean::<H>(node, fields, at).layout,
        lower_boolean::<H>(node, fields, at).code.len(),
        constants,
        dynamics,
        record,
    )
}

/// Whether a run of the code of `node`, lowered at `at`, leaves the value of
/// `node` under `record` where its pointer points.
pub open spec fn computed<H>(
    node: NodeBoolean,
    fields: Fields,
    at: Layout,
    constants: Memory,
    dynamics: Memory,
    record: Seq<Datum>,
) -> bool {
    yields_boolean(
        lower_boolean::<H>(node, fields, at),
        at,
        constants,
        dynamics,
        node.value(bindings(fields, record)),
    )
}

proof fn lemma_value_not<H>(
    inner: NodeBoolean,
    fields: Fields,
    at: Layout,
    constants: Memory,
    dynamics: Memory,
    record: Seq<Datum>,
)
    requires
        runnable::<H>(NodeBoolean::not(inner), fields, at, constants, dynamics, record),
    ensures
        computed::<H>(NodeBoolean::not(inner), fields, at, constants, dynamics, record),
    decreases NodeBoolean::not(inner), 0nat,
{
    let lowered = lower_boolean::<H>(NodeBoolean::not(inner), fields, at);
    let env = bindings(fields, record);
    let child = lower_boolean::<H>(inner, fields, at);
    lemma_lower_boolean::<H>(inner, fields, at);
    lemma_value_boolean::<H>(inner, fields, at, constants, dynamics, record);
    lemma_yields_not(child, lowered, at, constants, dynamics, inner.value(env));
}

proof fn lemma_value_both<H>(
    left: NodeBoolean,
    right: NodeBoolean,
    fields: Fields,
    at: Layout,
    constants: Memory,
    dynamics: Memory,
    record: Seq<Datum>,
)
    requires
        runnable::<H>(NodeBoolean::both(left, right), fields, at, constants, dynamics, record),
    ensures
        computed::<H>(NodeBoolean::both(left, right), fields, at, constants, dynamics, record),
    decreases NodeBoolean::both(left, right), 0nat,
{
    let lowered = lower_boolean::<H>(NodeBoolean::both(left, right), fields, at);
    let env = bindings(fields, record);
    let l = lower_boolean::<H>(left, fields, at);
    let r = lower_boolean::<H>(right, fields, l.layout);
    lemma_lower_boolean::<H>(left, fields, at);
    lemma_lower_boolean::<H>(right, fields, l.layout);
    lemma_value_boolean::<H>(left, fields, at, constants, dynamics, record);
    let lv = left.value(env);
    let before = run(l.code, constants, dynamics, 0).dynamics;
    let checked = Memory {
        boolean: before.boolean.update(r.layout.sizes.boolean as int, lv),
        ..before
    };
    if !(!lv) {
        lemma_ready_kept(before, dynamics, fields, record, at.sizes, lowered.layout.sizes);
        lemma_ready_kept(checked, before, fields, record, at.sizes, lowered.layout.sizes);
        lemma_value_boolean::<H>(right, fields, l.layout, constants, checked, record);
    }
    lemma_yields_both(l, r, lowered, at, constants, dynamics, lv, right.value(env));
}

proof fn lemma_value_either<H>(
    left: NodeBoolean,
    right: NodeBoolean,
    fields: Fields,
    at: Layout,
    constants: Memory,
    dynamics: Memory,
    record: Seq<Datum>,
)
    requires
        runnable::<H>(NodeBoolean::either(left, right), fields, at, constants, dynamics, record),
    ensures
        computed::<H>(NodeBoolean::either(left, right), fields, at, constants, dynamics, record),
    decreases NodeBoolean::either(left, right), 0nat,
{
    let lowered = lower_boolean::<H>(NodeBoolean::either(left, right), fields, at);
    let env = bindings(fields, record);
    let l = lower_boolean::<H>(left, fields, at);
    let r = lower_boolean::<H>(right, fields, l.layout);
    lemma_lower_boolean::<H>(left, fields, at);
    lemma_lower_boolean::<H>(right, fields, l.layout);
    lemma_value_boolean::<H>(left, fields, at, constants, dynamics, record);
    let lv = left.value(env);
    let before = run(l.code, constants, dynamics, 0).dynamics;
    let checked = Memory {
        boolean: before.boolean.update(r.layout.sizes.boolean as int, lv),
        ..before
    };
    if !(lv) {
        lemma_ready_kept(before, dynamics, fields, record, at.sizes, lowered.layout.sizes);
        lemma_ready_kept(checked, before, fields, record, at.sizes, lowered.layout.sizes);
        lemma_value_boolean::<H>(right, fields, l.layout, constants, checked, record);
    }
    lemma_yields_either(l, r, lowered, at, constants, dynamics, lv, right.value(env));
}

proof fn lemma_value_within<H>(
    left: NodeIp,
    right: NodeCidr,
    fields: Fields,
    at: Layout,
    constants: Memory,
    dynamics: Memory,
    record: Seq<Datum>,
)
    requires
        runnable::<H>(NodeBoolean::within(left, right), fields, at, constants, dynamics, record),
    ensures
        computed::<H>(NodeBoolean::within(left, right), fields, at, constants, dynamics, record),
    decreases NodeBoolean::within(left, right), 0nat,
{
    let lowered = lower_boolean::<H>(NodeBoolean::within(left, right), fields, at);
    let env = bindings(fields, record);
    let l = lower_ip(left, fields, at);
    let r = lower_cidr(right, fields, l.layout);
    lemma_lower_ip(left, fields, at);
    lemma_lower_cidr(right, fields, l.layout);
    lemma_value_ip(left, fields, at, constants, dynamics, record);
    lemma_value_cidr(right, fields, l.layout, constants, dynamics, record);
    lemma_yields_within(
        l,
        r,
        lowered,
        at,
        constants,
        dynamics,
        left.value(env),
        right.value(env),
    );
}

proof fn lemma_value_equals_ip<H>(
    left: NodeIp,
    right: NodeIp,
    fields: Fields,
    at: Layout,
    constants: Memory,
    dynamics: Memory,
    record: Seq<Datum>,
)
    requires
        runnable::<H>(
            NodeBoolean::equals_ip(left, right),
            fields,
            at,
            constants,
            dynamics,
            record,
        ),
    ensures
        computed::<H>(
            NodeBoolean::equals_ip(left, right),
            fields,
            at,
            constants,
            dynamics,
            record,
        ),
    decreases NodeBoolean::equals_ip(left, right), 0nat,
{
    let lowered = lower_boolean::<H>(NodeBoolean::equals_ip(left, right), fields, at);
    let env = bindings(fields, record);
    let l = lower_ip(left, fields, at);
    let r = lower_ip(right, fields, l.layout);
    lemma_lower_ip(left, fields, at);
    lemma_lower_ip(right, fields, l.layout);
    lemma_value_ip(left, fields, at, constants, dynamics, record);
    lemma_value_ip(right, fields, l.layout, constants, dynamics, record);
    lemma_yields_equals_ip(
        l,
        r,
        lowered,
        at,
        constants,
        dynamics,
        left.value(env),
        right.value(env),
    );
}

proof fn lemma_value_matches<H>(
    left: NodeString,
    right: NodeRegex,
    fields: Fields,
    at: Layout,
    constants: Memory,
    dynamics: Memory,
    record: Seq<Datum>,
)
    requires
        runnable::<H>(NodeBoolean::matches(left, right), fields, at, constants, dynamics, record),
    ensures
        computed::<H>(NodeBoolean::matches(left, right), fields, at, constants, dynamics, record),
    decreases NodeBoolean::matches(left, right), 0nat,
{
    let lowered = lower_boolean::<H>(NodeBoolean::matches(left, right), fields, at);
    let env = bindings(fields, record);
    let l = lower_string::<H>(left, fields, at);
    let r = lower_regex(right, fields, l.layout);
    lemma_lower_string::<H>(left, fields, at);
    lemma_lower_regex(right, fields, l.layout);
    lemma_value_string::<H>(left, fields, at, constants, dynamics, record);
    let middle = run(l.code, constants, dynamics, 0).dynamics;
    lemma_ready_kept(middle, dynamics, fields, record, at.sizes, lowered.layout.sizes);
    lemma_value_regex(right, fields, l.layout, constants, middle, record);
    lemma_yields_matches(
        l,
        r,
        lowered,
        at,
        constants,
        dynamics,
        left.value(env),
        right.value(env),
    );
}

proof fn lemma_value_equals_boolean<H>(
    left: NodeBoolean,
    right: NodeBoolean,
    fields: Fields,
    at: Layout,
    constants: Memory,
    dynamics: Memory,
    record: Seq<Datum>,
)
    requires
        runnable::<H>(
            NodeBoolean::equals_boolean(left, right),
            fields,
            at,
            constants,
            dynamics,
            record,
        ),
    ensures
        computed::<H>(
            NodeBoolean::equals_boolean(left, right),
            fields,
            at,
            constants,
            dynamics,
            record,
        ),
    decreases NodeBoolean::equals_boolean(left, right), 0nat,
{
    let lowered = lower_boolean::<H>(NodeBoolean::equals_boolean(left, right), fields, at);
    let env = bindings(fields, record);
    let l = lower_boolean::<H>(left, fields, at);
    let r = lower_boolean::<H>(right, fields, l.layout);
    lemma_lower_boolean::<H>(left, fields, at);
    lemma_lower_boolean::<H>(right, fields, l.layout);
    lemma_value_boolean::<H>(left, fields, at, constants, dynamics, record);
    let middle = run(l.code, constants, dynamics, 0).dynamics;
    lemma_ready_kept(middle, dynamics, fields, record, at.sizes, lowered.layout.sizes);
    lemma_value_boolean::<H>(right, fields, l.layout, constants, middle, record);
    lemma_yields_equals_boolean(
        l,
        r,
        lowered,
        at,
        constants,
        dynamics,
        left.value(env),
        right.value(env),
    );
}

proof fn lemma_value_equals_string<H>(
    left: NodeString,
    right: NodeString,
    fields: Fields,
    at: Layout,
    constants: Memory,
    dynamics: Memory,
    record: Seq<Datum>,
)
    requires
        runnable::<H>(
            NodeBoolean::equals_string(left, right),
            fields,
            at,
            constants,
            dynamics,
            record,
        ),
    ensures
        computed::<H>(
            NodeBoolean::equals_string(left, right),
            fields,
            at,
            constants,
            dynamics,
            record,
        ),
    decreases NodeBoolean::equals_string(left, right), 0nat,
{
    let lowered = lower_boolean::<H>(NodeBoolean::equals_string(left, right), fields, at);
    let env = bindings(fields, record);
    let l = lower_string::<H>(left, fields, at);
    let r = lower_string::<H>(right, fields, l.layout);
    lemma_lower_string::<H>(left, fields, at);
    lemma_lower_string::<H>(right, fields, l.layout);
    lemma_value_string::<H>(left, fields, at, constants, dynamics, record);
    let middle = run(l.code, constants, dynamics, 0).dynamics;
    lemma_ready_kept(middle, dynamics, fields, record, at.sizes, lowered.layout.sizes);
    lemma_value_string::<H>(right, fields, l.layout, constants, middle, record);
    lemma_yields_equals_string(
        l,
        r,
        lowered,
        at,
        constants,
        dynamics,
        left.value(env),
        right.value(env),
    );
}

proof fn lemma_value_equals_uint64<H>(
    left: NodeUint64,
    right: NodeUint64,
    fields: Fields,
    at: Layout,
    constants: Memory,
    dynamics: Memory,
    record: Seq<Datum>,
)
    requires
        runnable::<H>(
            NodeBoolean::equals_uint64(left, right),
            fields,
            at,
            constants,
            dynamics,
            record,
        ),
    ensures
        computed::<H>(
            NodeBoolean::equals_uint64(left, right),
            fields,
            at,
            constants,
            dynamics,
            record,
        ),
    decreases NodeBoolean::equals_uint64(left, right), 0nat,
{
    let lowered = lower_boolean::<H>(NodeBoolean::equals_uint64(left, right), fields, at);
    let env = bindings(fields, record);
    let l = lower_uint64::<H>(left, fields, at);
    let r = lower_uint64::<H>(right, fields, l.layout);
    lemma_lower_uint64::<H>(left, fields, at);
    lemma_lower_uint64::<H>(right, fields, l.layout);
    lemma_value_uint64::<H>(left, fields, at, constants, dynamics, record);
    let middle = run(l.code, constants, dynamics, 0).dynamics;
    lemma_ready_kept(middle, dynamics, fields, record, at.sizes, lowered.layout.sizes);
    lemma_value_uint64::<H>(right, fields, l.layout, constants, middle, record);
    lemma_yields_equals_uint64(
        l,
        r,
        lowered,
        at,
        constants,
        dynamics,
        left.value(env),
        right.value(env),
    );
}

proof fn lemma_value_equals_int64<H>(
    left: NodeInt64,
    right: NodeInt64,
    fields: Fields,
    at: Layout,
    constants: Memory,
    dynamics: Memory,
    record: Seq<Datum>,
)
    requires
        runnable::<H>(
            NodeBoolean::equals_int64(left, right),
            fields,
            at,
            constants,
            dynamics,
            record,
        ),
    ensures
        computed::<H>(
            NodeBoolean::equals_int64(left, right),
            fields,
            at,
            constants,
            dynamics,
            record,
        ),
    decreases NodeBoolean::equals_int64(left, right), 0nat,
{
    let lowered = lower_boolean::<H>(NodeBoolean::equals_int64(left, right), fields, at);
    let env = bindings(fields, record);
    let l = lower_int64::<H>(left, fields, at);
    let r = lower_int64::<H>(right, fields, l.layout);
    lemma_lower_int64::<H>(left, fields, at);
    lemma_lower_int64::<H>(right, fields, l.layout);
    lemma_value_int64::<H>(left, fields, at, constants, dynamics, record);
    let middle = run(l.code, constants, dynamics, 0).dynamics;
    lemma_ready_kept(middle, dynamics, fields, record, at.sizes, lowered.layout.sizes);
    lemma_value_int64::<H>(right, fields, l.layout, constants, middle, record);
    lemma_yields_equals_int64(
        l,
        r,
        lowered,
        at,
        constants,
        dynamics,
        left.value(env),
        right.value(env),
    );
}

/// The code of a predicate computes its value.
pub proof fn lemma_value_boolean<H>(
    node: NodeBoolean,
    fields: Fields,
    at: Layout,
    constants: Memory,
    dynamics: Memory,
    record: Seq<Datum>,
)
    requires
        runnable::<H>(node, fields, at, constants, dynamics, record),
    ensures
        computed::<H>(node, fields, at, constants, dynamics, record),
    decreases node, 1nat,
{
    match node {
        NodeBoolean::Variable { name } => {
            lemma_field_value(dynamics, fields, record, at.sizes, name@, Variable::Boolean);
        },
        NodeBoolean::Constant(_) => {},
        NodeBoolean::Not(NodeBooleanNot::Boolean(inner)) => {
            lemma_value_not::<H>(*inner, fields, at, constants, dynamics, record);
        },
        NodeBoolean::Both(NodeBooleanBoth::BooleanBoolean { left, right }) => {
            lemma_value_both::<H>(*left, *right, fields, at, constants, dynamics, record);
        },
        NodeBoolean::Either(NodeBooleanEither::BooleanBoolean { left, right }) => {
            lemma_value_either::<H>(*left, *right, fields, at, constants, dynamics, record);
        },
        NodeBoolean::Within(NodeBooleanWithin::IpCidr { left, right }) => {
            lemma_value_within::<H>(left, right, fields, at, constants, dynamics, record);
        },
        NodeBoolean::Equals(NodeBooleanEquals::BooleanBoolean { left, right }) => {
            lemma_value_equals_boolean::<H>(*left, *right, fields, at, constants, dynamics, record);
        },
        NodeBoolean::Equals(NodeBooleanEquals::StringString { left, right }) => {
            lemma_value_equals_string::<H>(left, right, fields, at, constants, dynamics, record);
        },
        NodeBoolean::Equals(NodeBooleanEquals::Uint64Uint64 { left, right }) => {
            lemma_value_equals_uint64::<H>(left, right, fields, at, constants, dynamics, record);
        },
        NodeBoolean::Equals(NodeBooleanEquals::Int64Int64 { left, right }) => {
            lemma_value_equals_int64::<H>(left, right, fields, at, constants, dynamics, record);
        },
        NodeBoolean::Equals(NodeBooleanEquals::IpIp { left, right }) => {
            lemma_value_equals_ip::<H>(left, right, fields, at, constants, dynamics, record);
        },
        NodeBoolean::Matches(NodeBooleanMatches::StringRegex { left, right }) => {
            lemma_value_matches::<H>(left, right, fields, at, constants, dynamics, record);
        },
    }
}

} // verus!
