//! The program of a batch of predicates reports the predicates that hold.

use vstd::prelude::*;
use super::lower::{base, lower_boolean, program, Layout};
use super::machine::{raised, read_boolean, run, Memory};
use super::meaning::{
    agrees, lemma_ready_kept, lemma_run_concat, lemma_run_single, lemma_value_boolean, ready,
};
use super::sound::{
    extends, fits, lemma_lower_boolean, lemma_sound_concat, lemma_sound_more, lemma_sound_single,
    lowered_well, sound, within,
};
use super::Instruction;
use crate::parse::nodes::boolean::NodeBoolean;
use crate::variables::{bindings, Datum, Fields};

verus! {

/// The identifiers of the predicates whose value under `record` is true, in
/// the order of the batch.
pub open spec fn matching<H>(
    predicates: Seq<(H, NodeBoolean)>,
    fields: Fields,
    record: Seq<Datum>,
) -> Seq<H>
    decreases predicates.len(),
{
    if predicates.len() == 0 {
        Seq::empty()
    } else {
        matching(predicates.drop_last(), fields, record) + if predicates.last().1.value(
            bindings(fields, record),
        ) {
            seq![predicates.last().0]
        } else {
            Seq::empty()
        }
    }
}

/// Whether every predicate of a batch can be compiled over `fields`: each of
/// its variables is a field of the schema, of the type that its place asks
/// for.
pub open spec fn compilable<H>(predicates: Seq<(H, NodeBoolean)>, fields: Fields) -> bool {
    forall|i: int| 0 <= i < predicates.len() ==> (#[trigger] predicates[i]).1.typed(fields)
}

/// The layout that the last predicate of a batch is lowered at.
pub open spec fn start<H>(predicates: Seq<(H, NodeBoolean)>, fields: Fields) -> Layout {
    Layout { constants: program(predicates.drop_last(), fields).constants, sizes: base(fields) }
}

/// The storage that a program asks for holds what each of its parts asks for.
pub proof fn lemma_program_grows<H>(predicates: Seq<(H, NodeBoolean)>, fields: Fields)
    requires
        compilable(predicates, fields),
    ensures
        program(predicates, fields).sizes.covers(base(fields)),
        predicates.len() > 0 ==> {
            let earlier = program(predicates.drop_last(), fields);
            let lowered = lower_boolean::<H>(
                predicates.last().1,
                fields,
                start(predicates, fields),
            );
            let whole = program(predicates, fields);
            &&& compilable(predicates.drop_last(), fields)
            &&& extends(whole.constants, earlier.constants)
            &&& whole.constants == lowered.layout.constants
            &&& whole.sizes.covers(earlier.sizes)
            &&& whole.sizes.covers(lowered.layout.sizes)
            &&& whole.code == earlier.code + (lowered.code + seq![whole.code.last()])
            &&& whole.code.last() == (
                0usize,
                Instruction::RaiseOutput { boolean: lowered.pointer, id: predicates.last().0 },
            )
            &&& lowered_well(
                lowered,
                start(predicates, fields),
                lowered.layout.constants.boolean.len(),
                lowered.layout.sizes.boolean,
            )
        },
    decreases predicates.len(),
{
    if predicates.len() > 0 {
        let rest = predicates.drop_last();
        assert forall|i: int| 0 <= i < rest.len() implies (#[trigger] rest[i]).1.typed(
            fields,
        ) by {
            assert(rest[i] == predicates[i]);
        }
        lemma_program_grows(rest, fields);
        assert(predicates.last() == predicates[predicates.len() - 1]);
        lemma_lower_boolean::<H>(predicates.last().1, fields, start(predicates, fields));
        let earlier = program(rest, fields);
        let lowered = lower_boolean::<H>(predicates.last().1, fields, start(predicates, fields));
        let whole = program(predicates, fields);
        assert(whole.code =~= earlier.code + (lowered.code + seq![whole.code.last()]));
    }
}

/// Every operation of a program fits the storage that the program asks for.
pub proof fn lemma_program_sound<H>(predicates: Seq<(H, NodeBoolean)>, fields: Fields)
    requires
        compilable(predicates, fields),
        within(
            Layout {
                constants: program(predicates, fields).constants,
                sizes: program(predicates, fields).sizes,
            },
            program(predicates, fields).code.len(),
        ),
    ensures
        sound(
            program(predicates, fields).code,
            program(predicates, fields).constants.sizes(),
            program(predicates, fields).sizes,
        ),
    decreases predicates.len(),
{
    let whole = program(predicates, fields);
    let pool = whole.constants.sizes();
    let room = whole.sizes;
    lemma_program_grows(predicates, fields);
    if predicates.len() > 0 {
        let rest = predicates.drop_last();
        let earlier = program(rest, fields);
        let lowered = lower_boolean::<H>(predicates.last().1, fields, start(predicates, fields));
        lemma_program_sound(rest, fields);
        lemma_sound_more(earlier.code, earlier.constants.sizes(), earlier.sizes, pool, room);
        lemma_sound_more(
            lowered.code,
            lowered.layout.constants.sizes(),
            lowered.layout.sizes,
            pool,
            room,
        );
        lemma_sound_single(whole.code.last(), pool, room);
        lemma_sound_concat(lowered.code, seq![whole.code.last()], pool, room);
        lemma_sound_concat(earlier.code, lowered.code + seq![whole.code.last()], pool, room);
    }
}

/// A run of the program of a batch on ready storage reports the predicates
/// whose value under the record is true, in order, and keeps the fields'
/// slots.
pub proof fn lemma_program_matches<H>(
    predicates: Seq<(H, NodeBoolean)>,
    fields: Fields,
    constants: Memory,
    dynamics: Memory,
    record: Seq<Datum>,
)
    requires
        compilable(predicates, fields),
        within(
            Layout {
                constants: program(predicates, fields).constants,
                sizes: program(predicates, fields).sizes,
            },
            program(predicates, fields).code.len(),
        ),
        extends(constants, program(predicates, fields).constants),
        ready(dynamics, fields, record, program(predicates, fields).sizes),
    ensures
        ({
            let end = run(program(predicates, fields).code, constants, dynamics, 0);
            &&& end.cursor == program(predicates, fields).code.len()
            &&& end.matched == matching(predicates, fields, record)
            &&& end.dynamics.sizes() == dynamics.sizes()
            &&& agrees(end.dynamics, dynamics, base(fields))
        }),
    decreases predicates.len(),
{
    let whole = program(predicates, fields);
    lemma_program_grows(predicates, fields);
    if predicates.len() > 0 {
        let rest = predicates.drop_last();
        let root = predicates.last().1;
        let earlier = program(rest, fields);
        let at = start(predicates, fields);
        let lowered = lower_boolean::<H>(root, fields, at);
        let raise = whole.code.last();
        lemma_program_matches(rest, fields, constants, dynamics, record);
        let head = run(earlier.code, constants, dynamics, 0);
        lemma_ready_kept(head.dynamics, dynamics, fields, record, base(fields), whole.sizes);
        lemma_value_boolean::<H>(root, fields, at, constants, head.dynamics, record);
        let middle = run(lowered.code, constants, head.dynamics, 0);
        lemma_run_concat(lowered.code, seq![raise], constants, head.dynamics, 0);
        lemma_run_single(raise, constants, middle.dynamics);
        lemma_run_concat(earlier.code, lowered.code + seq![raise], constants, dynamics, 0);
        let found = read_boolean(constants, middle.dynamics, lowered.pointer);
        assert(found == root.value(bindings(fields, record)));
        let tail = run(lowered.code + seq![raise], constants, head.dynamics, 0);
        assert(tail.matched =~= raised(raise.1, constants, middle.dynamics));
    }
}

/// Whether two batches hold the same identifiers in the same order, each
/// with a predicate that is written as the other's is.
pub open spec fn alike<H>(first: Seq<(H, NodeBoolean)>, second: Seq<(H, NodeBoolean)>) -> bool {
    &&& first.len() == second.len()
    &&& forall|i: int|
        0 <= i < first.len() ==> (#[trigger] first[i]).0 == second[i].0 && first[i].1.alike(
            second[i].1,
        )
}

/// Predicates that are written out and read back report the same: of two
/// batches that are written alike, one can be compiled over a schema where
/// the other can, and the same predicates hold of every record. So an engine
/// compiled from trees that were read back reports what the engine compiled
/// from the trees themselves reports.
pub proof fn lemma_alike_batches<H>(
    first: Seq<(H, NodeBoolean)>,
    second: Seq<(H, NodeBoolean)>,
    fields: Fields,
    record: Seq<Datum>,
)
    requires
        alike(first, second),
    ensures
        compilable(first, fields) == compilable(second, fields),
        matching(first, fields, record) == matching(second, fields, record),
    decreases first.len(),
{
    assert forall|i: int| 0 <= i < first.len() implies (#[trigger] first[i]).1.typed(fields)
        == second[i].1.typed(fields) by {
        first[i].1.lemma_alike(second[i].1, bindings(fields, record), fields);
    }
    if compilable(first, fields) {
        assert forall|i: int| 0 <= i < second.len() implies (#[trigger] second[i]).1.typed(
            fields,
        ) by {
            assert(first[i].1.typed(fields));
        }
    }
    if compilable(second, fields) {
        assert forall|i: int| 0 <= i < first.len() implies (#[trigger] first[i]).1.typed(
            fields,
        ) by {
            assert(second[i].1.typed(fields));
        }
    }
    if first.len() > 0 {
        let a = first.drop_last();
        let b = second.drop_last();
        assert forall|i: int| 0 <= i < a.len() implies (#[trigger] a[i]).0 == b[i].0
            && a[i].1.alike(b[i].1) by {
            assert(a[i] == first[i]);
            assert(b[i] == second[i]);
        }
        lemma_alike_batches(a, b, fields, record);
        let last = first.len() - 1;
        assert(first[last].0 == second[last].0);
        first[last].1.lemma_alike(second[last].1, bindings(fields, record), fields);
    }
}

} // verus!
