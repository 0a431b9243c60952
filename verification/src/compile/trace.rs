//! Which operations a run executes, and that the code of the second operand
//! of `and` and `or` is not among them where the first operand decides.

use vstd::prelude::*;
use super::lower::{lower_boolean, Layout};
use super::machine::{run, stride, written, Memory, Operation};
use super::meaning::{lemma_value_boolean, operable};
use super::sound::lemma_lower_boolean;

use crate::parse::nodes::boolean::NodeBoolean;
use crate::variables::{bindings, Datum, Fields};

verus! {

/// The indices of the operations that a run of `code` from `cursor`
/// executes, in order.
pub open spec fn visited<H>(
    code: Seq<Operation<H>>,
    constants: Memory,
    dynamics: Memory,
    cursor: int,
) -> Seq<int>
    decreases
            (if cursor < code.len() {
                code.len() - cursor
            } else {
                0
            }),
{
    if cursor < 0 || cursor >= code.len() {
        Seq::empty()
    } else {
        seq![cursor] + visited(
            code,
            constants,
            written(code[cursor].0, code[cursor].1, constants, dynamics),
            cursor + stride(code[cursor].1, constants, dynamics),
        )
    }
}

/// A run executes operations of the code only, none before its start.
pub proof fn lemma_visited_within<H>(
    code: Seq<Operation<H>>,
    constants: Memory,
    dynamics: Memory,
    cursor: int,
)
    ensures
        forall|i: int|
            0 <= i < visited(code, constants, dynamics, cursor).len() ==> cursor <= (
            #[trigger] visited(code, constants, dynamics, cursor)[i]) < code.len(),
    decreases
            (if cursor < code.len() {
                code.len() - cursor
            } else {
                0
            }),
{
    if 0 <= cursor < code.len() {
        let after = written(code[cursor].0, code[cursor].1, constants, dynamics);
        let next = cursor + stride(code[cursor].1, constants, dynamics);
        lemma_visited_within(code, constants, after, next);
        let rest = visited(code, constants, after, next);
        let all = visited(code, constants, dynamics, cursor);
        assert forall|i: int| 0 <= i < all.len() implies cursor <= (#[trigger] all[i])
            < code.len() by {
            if i > 0 {
                assert(all[i] == rest[i - 1]);
            }
        }
    }
}

/// A run that ends at the end of the first of two pieces of code executes of
/// the two together what it executes of the first, until it gets there.
pub proof fn lemma_visited_first<H>(
    first: Seq<Operation<H>>,
    second: Seq<Operation<H>>,
    constants: Memory,
    dynamics: Memory,
    cursor: int,
)
    requires
        0 <= cursor <= first.len(),
        run(first, constants, dynamics, cursor).cursor == first.len(),
    ensures
        visited(first + second, constants, dynamics, cursor) == visited(
            first,
            constants,
            dynamics,
            cursor,
        ) + visited(
            first + second,
            constants,
            run(first, constants, dynamics, cursor).dynamics,
            first.len() as int,
        ),
    decreases first.len() - cursor,
{
    let code = first + second;
    if cursor == first.len() {
        assert(Seq::<int>::empty() + visited(code, constants, dynamics, cursor) =~= visited(
            code,
            constants,
            dynamics,
            cursor,
        ));
    } else {
        assert(code[cursor] == first[cursor]);
        let after = written(first[cursor].0, first[cursor].1, constants, dynamics);
        let next = cursor + stride(first[cursor].1, constants, dynamics);
        assert(run(first, constants, dynamics, cursor).cursor == run(
            first,
            constants,
            after,
            next,
        ).cursor);
        assert(next <= first.len());
        lemma_visited_first(first, second, constants, after, next);
        let end = run(first, constants, after, next).dynamics;
        assert(seq![cursor] + (visited(first, constants, after, next) + visited(
            code,
            constants,
            end,
            first.len() as int,
        )) =~= (seq![cursor] + visited(first, constants, after, next)) + visited(
            code,
            constants,
            end,
            first.len() as int,
        ));
    }
}

/// The predicate `left and right`, or, if `either`, `left or right`.
pub open spec fn junction(left: NodeBoolean, right: NodeBoolean, either: bool) -> NodeBoolean {
    if either {
        NodeBoolean::either(left, right)
    } else {
        NodeBoolean::both(left, right)
    }
}

/// Short circuit: where the first operand of `and` is false, or that of `or`
/// is true, a run of the code of the whole executes the code of the first
/// operand and the skip after it, and then is at the end: no operation of
/// the second operand's code is executed, nor the one that combines the two.
pub proof fn lemma_short_circuit<H>(
    left: NodeBoolean,
    right: NodeBoolean,
    either: bool,
    fields: Fields,
    at: Layout,
    constants: Memory,
    dynamics: Memory,
    record: Seq<Datum>,
)
    requires
        junction(left, right, either).typed(fields),
        operable(
            fields,
            at,
            lower_boolean::<H>(junction(left, right, either), fields, at).layout,
            lower_boolean::<H>(junction(left, right, either), fields, at).code.len(),
            constants,
            dynamics,
            record,
        ),
        left.value(bindings(fields, record)) == either,
    ensures
        ({
            let whole = lower_boolean::<H>(junction(left, right, either), fields, at).code;
            let first = lower_boolean::<H>(left, fields, at).code;
            &&& visited(whole, constants, dynamics, 0) == visited(
                first,
                constants,
                dynamics,
                0,
            ).push(first.len() as int)
            &&& forall|i: int|
                0 <= i < visited(whole, constants, dynamics, 0).len() ==> (#[trigger] visited(
                    whole,
                    constants,
                    dynamics,
                    0,
                )[i]) <= first.len()
        }),
{
    let node = junction(left, right, either);
    let lowered = lower_boolean::<H>(node, fields, at);
    let l = lower_boolean::<H>(left, fields, at);
    let r = lower_boolean::<H>(right, fields, l.layout);
    lemma_lower_boolean::<H>(left, fields, at);
    lemma_lower_boolean::<H>(right, fields, l.layout);
    lemma_value_boolean::<H>(left, fields, at, constants, dynamics, record);
    let whole = lowered.code;
    let first = l.code;
    let rest = whole.subrange(first.len() as int, whole.len() as int);
    assert(whole =~= first + rest);
    lemma_visited_first(first, rest, constants, dynamics, 0);
    let before = run(first, constants, dynamics, 0).dynamics;
    let skip = whole[first.len() as int];
    let after = written(skip.0, skip.1, constants, before);
    let next = first.len() as int + stride(skip.1, constants, before);
    assert(next == whole.len());
    assert(visited(whole, constants, after, next) =~= Seq::<int>::empty());
    assert(visited(whole, constants, before, first.len() as int) =~= seq![first.len() as int]);
    let trace = visited(whole, constants, dynamics, 0);
    assert(trace =~= visited(first, constants, dynamics, 0).push(first.len() as int));
    lemma_visited_within(first, constants, dynamics, 0);
    assert forall|i: int| 0 <= i < trace.len() implies (#[trigger] trace[i]) <= first.len() by {
        if i < trace.len() - 1 {
            assert(trace[i] == visited(first, constants, dynamics, 0)[i]);
        }
    }
}

} // verus!
