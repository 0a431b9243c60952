//! The schema of a record: its named, typed fields, and the values that a
//! record holds for them.

use vstd::prelude::*;
use crate::address::{Cidr, Ip};
use crate::pattern::Pattern;
use crate::text::str_eq;

verus! {

/// The primitive type of a field.
#[derive(Clone, Copy, Debug, PartialEq, Eq, Hash, Structural)]
pub enum Variable {
    Boolean,
    Cidr,
    Int64,
    Ip,
    String,
    Uint64,
    Regex,
}

/// The value of one field of a record.
#[derive(Debug)]
pub enum Value {
    Boolean(bool),
    Cidr(Cidr),
    Int64(i64),
    Ip(Ip),
    String(String),
    Uint64(u64),
    Regex(Pattern),
}

/// What a [`Value`] stands for: a string by its characters, a regular
/// expression by its pattern text.
pub enum Datum {
    Boolean(bool),
    Cidr(Cidr),
    Int64(i64),
    Ip(Ip),
    String(Seq<char>),
    Uint64(u64),
    Regex(Seq<char>),
}

impl Datum {
    /// The primitive type of the value.
    pub open spec fn kind(self) -> Variable {
        match self {
            Datum::Boolean(_) => Variable::Boolean,
            Datum::Cidr(_) => Variable::Cidr,
            Datum::Int64(_) => Variable::Int64,
            Datum::Ip(_) => Variable::Ip,
            Datum::String(_) => Variable::String,
            Datum::Uint64(_) => Variable::Uint64,
            Datum::Regex(_) => Variable::Regex,
        }
    }
}

impl View for Value {
    type V = Datum;

    open spec fn view(&self) -> Datum {
        match self {
            Value::Boolean(value) => Datum::Boolean(*value),
            Value::Cidr(value) => Datum::Cidr(*value),
            Value::Int64(value) => Datum::Int64(*value),
            Value::Ip(value) => Datum::Ip(*value),
            Value::String(value) => Datum::String(value@),
            Value::Uint64(value) => Datum::Uint64(*value),
            Value::Regex(value) => Datum::Regex(value@),
        }
    }
}

impl Value {
    /// The primitive type of the value.
    pub fn kind(&self) -> (kind: Variable)
        ensures
            kind == self@.kind(),
    {
        match self {
            Value::Boolean(_) => Variable::Boolean,
            Value::Cidr(_) => Variable::Cidr,
            Value::Int64(_) => Variable::Int64,
            Value::Ip(_) => Variable::Ip,
            Value::String(_) => Variable::String,
            Value::Uint64(_) => Variable::Uint64,
            Value::Regex(_) => Variable::Regex,
        }
    }
}

/// The fields of a schema in order, each a name and a primitive type.
pub type Fields = Seq<(Seq<char>, Variable)>;

/// The values of a record by field name.
pub type Bindings = Map<Seq<char>, Datum>;

/// The index of the first of `fields` called `name`, or the number of fields
/// where there is none.
pub open spec fn position(fields: Fields, name: Seq<char>) -> nat
    decreases fields.len(),
{
    if fields.len() == 0 {
        0
    } else if fields[0].0 == name {
        0
    } else {
        1 + position(fields.drop_first(), name)
    }
}

/// The primitive type of the field called `name`, if there is one.
pub open spec fn kind_of(fields: Fields, name: Seq<char>) -> Option<Variable> {
    if position(fields, name) < fields.len() {
        Some(fields[position(fields, name) as int].1)
    } else {
        None
    }
}

/// How many of the first `upto` of `fields` have the primitive type `kind`.
pub open spec fn count(fields: Fields, kind: Variable, upto: int) -> nat
    decreases upto,
{
    if upto <= 0 || upto > fields.len() {
        0
    } else {
        count(fields, kind, upto - 1) + if fields[upto - 1].1 == kind {
            1nat
        } else {
            0nat
        }
    }
}

/// The slot of the field at `index` among the fields of its own primitive
/// type: the number of earlier fields of that type.
pub open spec fn slot(fields: Fields, index: int) -> nat {
    count(fields, fields[index].1, index)
}

/// Whether no two of `fields` share a name.
pub open spec fn distinct(fields: Fields) -> bool {
    forall|i: int, j: int|
        0 <= i < fields.len() && 0 <= j < fields.len() && i != j ==> fields[i].0 != fields[j].0
}

/// What the values of a record look like.
pub open spec fn data(record: Seq<Value>) -> Seq<Datum> {
    Seq::new(record.len(), |i: int| record[i]@)
}

/// Whether `record` holds one value for each of `fields`, of the field's type.
pub open spec fn admits(fields: Fields, record: Seq<Datum>) -> bool {
    &&& record.len() == fields.len()
    &&& forall|i: int| 0 <= i < fields.len() ==> (#[trigger] record[i]).kind() == fields[i].1
}

/// The values of `record` by the names of `fields`.
pub open spec fn bindings(fields: Fields, record: Seq<Datum>) -> Bindings {
    Map::new(
        |name: Seq<char>| position(fields, name) < fields.len(),
        |name: Seq<char>| record[position(fields, name) as int],
    )
}

/// One field of a schema.
#[derive(Debug)]
pub struct Field {
    name: String,
    kind: Variable,
    slot: usize,
}

/// The ordered, typed set of named fields of a record.
#[derive(Debug)]
pub struct Schema {
    fields: Vec<Field>,
}

impl View for Schema {
    type V = Fields;

    closed spec fn view(&self) -> Fields {
        Seq::new(self.fields@.len(), |i: int| (self.fields@[i].name@, self.fields@[i].kind))
    }
}

impl Clone for Schema {
    fn clone(&self) -> (schema: Self)
        ensures
            schema@ == self@,
    {
        self.copy()
    }
}

pub proof fn lemma_position_bound(fields: Fields, name: Seq<char>)
    ensures
        position(fields, name) <= fields.len(),
        position(fields, name) < fields.len() ==> fields[position(fields, name) as int].0 == name,
        forall|i: int| 0 <= i < position(fields, name) ==> (#[trigger] fields[i]).0 != name,
    decreases fields.len(),
{
    if fields.len() != 0 && fields[0].0 != name {
        let rest = fields.drop_first();
        lemma_position_bound(rest, name);
        assert forall|i: int| 0 <= i < position(fields, name) implies (#[trigger] fields[i]).0
            != name by {
            if i > 0 {
                assert(fields[i] == rest[i - 1]);
            }
        }
    }
}

/// The first index at which a name stands is its position.
pub proof fn lemma_position_first(fields: Fields, name: Seq<char>, index: int)
    requires
        0 <= index < fields.len(),
        fields[index].0 == name,
        forall|i: int| 0 <= i < index ==> (#[trigger] fields[i]).0 != name,
    ensures
        position(fields, name) == index,
{
    lemma_position_bound(fields, name);
    let found = position(fields, name) as int;
    if found > index {
        assert(fields[index].0 != name);
    }
    if found < index {
        assert(fields[found].0 != name);
    }
}

pub proof fn lemma_count_bound(fields: Fields, kind: Variable, upto: int)
    ensures
        count(fields, kind, upto) <= upto || upto < 0,
        count(fields, kind, upto) <= fields.len(),
    decreases upto,
{
    if 0 < upto <= fields.len() {
        lemma_count_bound(fields, kind, upto - 1);
    }
}

/// Adding a field at the end leaves the counts over the earlier fields alone.
pub proof fn lemma_count_push(
    fields: Fields,
    added: (Seq<char>, Variable),
    kind: Variable,
    upto: int,
)
    requires
        0 <= upto <= fields.len(),
    ensures
        count(fields.push(added), kind, upto) == count(fields, kind, upto),
    decreases upto,
{
    if upto > 0 {
        lemma_count_push(fields, added, kind, upto - 1);
    }
}

/// Counts grow with the number of fields counted.
pub proof fn lemma_count_monotone(fields: Fields, kind: Variable, lower: int, upper: int)
    requires
        0 <= lower <= upper <= fields.len(),
    ensures
        count(fields, kind, lower) <= count(fields, kind, upper),
        lower < upper && fields[lower].1 == kind ==> count(fields, kind, lower) < count(
            fields,
            kind,
            upper,
        ),
    decreases upper - lower,
{
    if lower < upper {
        lemma_count_monotone(fields, kind, lower, upper - 1);
    }
}

impl Schema {
    #[verifier::type_invariant]
    spec fn well_formed(self) -> bool {
        &&& distinct(self@)
        &&& forall|i: int|
            0 <= i < self.fields@.len() ==> (#[trigger] self.fields@[i]).slot == slot(self@, i)
    }

    /// A schema without fields.
    pub fn new() -> (schema: Schema)
        ensures
            schema@ == Seq::<(Seq<char>, Variable)>::empty(),
    {
        let schema = Schema { fields: Vec::new() };
        assert(schema@ =~= Seq::<(Seq<char>, Variable)>::empty());
        schema
    }

    /// A schema with the same fields.
    pub fn copy(&self) -> (schema: Schema)
        ensures
            schema@ == self@,
    {
        proof {
            use_type_invariant(self);
        }
        let mut fields: Vec<Field> = Vec::new();
        let mut i: usize = 0;
        while i < self.fields.len()
            invariant
                i <= self.fields@.len(),
                fields@.len() == i,
                forall|j: int|
                    0 <= j < i ==> (#[trigger] fields@[j]).name@ == self.fields@[j].name@
                        && fields@[j].kind == self.fields@[j].kind && fields@[j].slot
                        == self.fields@[j].slot,
            decreases self.fields.len() - i,
        {
            fields.push(
                Field {
                    name: self.fields[i].name.clone(),
                    kind: self.fields[i].kind,
                    slot: self.fields[i].slot,
                },
            );
            i += 1;
        }
        assert(Seq::new(fields@.len(), |i: int| (fields@[i].name@, fields@[i].kind)) =~= self@);
        Schema { fields }
    }

    /// A schema has no more fields than the machine can index.
    pub proof fn lemma_len_bounded(&self)
        ensures
            self@.len() <= usize::MAX,
    {
        assert(self.fields.len() == self.fields@.len());
    }

    /// The number of fields.
    pub fn len(&self) -> (length: usize)
        ensures
            length == self@.len(),
    {
        self.fields.len()
    }

    /// The primitive type of the field at `index`.
    pub(crate) fn kind(&self, index: usize) -> (kind: Variable)
        requires
            index < self@.len(),
        ensures
            kind == self@[index as int].1,
    {
        self.fields[index].kind
    }

    /// The slot of the field at `index` among the fields of its type.
    pub(crate) fn slot(&self, index: usize) -> (at: usize)
        requires
            index < self@.len(),
        ensures
            at == slot(self@, index as int),
    {
        proof {
            use_type_invariant(self);
        }
        self.fields[index].slot
    }

    /// The index of the field called `name`, if there is one.
    pub fn find(&self, name: &str) -> (found: Option<usize>)
        ensures
            match found {
                Some(index) => index == position(self@, name@) && index < self@.len(),
                None => position(self@, name@) == self@.len(),
            },
    {
        let mut i: usize = 0;
        while i < self.fields.len()
            invariant
                i <= self.fields@.len(),
                self@.len() == self.fields@.len(),
                forall|j: int| 0 <= j < i ==> (#[trigger] self@[j]).0 != name@,
            decreases self.fields.len() - i,
        {
            if str_eq(self.fields[i].name.as_str(), name) {
                proof {
                    lemma_position_first(self@, name@, i as int);
                }
                return Some(i);
            }
            i += 1;
        }
        proof {
            lemma_position_bound(self@, name@);
        }
        None
    }

    /// Whether the schema has a field called `name` of type `kind`.
    pub fn has(&self, name: &str, kind: Variable) -> (yes: bool)
        ensures
            yes == (kind_of(self@, name@) == Some(kind)),
    {
        match self.find(name) {
            Some(index) => self.kind(index) == kind,
            None => false,
        }
    }

    /// How many fields have the primitive type `kind`.
    pub fn count(&self, kind: Variable) -> (number: usize)
        ensures
            number == count(self@, kind, self@.len() as int),
    {
        let mut number: usize = 0;
        let mut i: usize = 0;
        while i < self.fields.len()
            invariant
                i <= self.fields@.len(),
                self@.len() == self.fields@.len(),
                number == count(self@, kind, i as int),
            decreases self.fields.len() - i,
        {
            proof {
                lemma_count_bound(self@, kind, i as int);
            }
            if self.fields[i].kind == kind {
                number += 1;
            }
            i += 1;
        }
        number
    }

    /// Adds the field `name` of type `kind` after the others. A name that a
    /// field already has is refused, and the schema stays as it was.
    pub fn insert(&mut self, name: &str, kind: Variable) -> (added: bool)
        ensures
            added == (position(old(self)@, name@) == old(self)@.len()),
            added ==> final(self)@ == old(self)@.push((name@, kind)),
            !added ==> final(self)@ == old(self)@,
    {
        proof {
            use_type_invariant(&*self);
        }
        if self.find(name).is_some() {
            return false;
        }
        let slot = self.count(kind);
        let ghost before = self@;
        let ghost held = self.fields@;
        let mut taken = Schema::new();
        core::mem::swap(self, &mut taken);
        let Schema { fields } = taken;
        let mut fields = fields;
        fields.push(Field { name: name.to_owned(), kind, slot });
        assert(Seq::new(fields@.len(), |i: int| (fields@[i].name@, fields@[i].kind))
            =~= before.push((name@, kind)));
        proof {
            let after = before.push((name@, kind));
            lemma_position_bound(before, name@);
            assert forall|i: int, j: int|
                0 <= i < after.len() && 0 <= j < after.len() && i != j implies after[i].0
                != after[j].0 by {
                if i < before.len() && j < before.len() {
                    assert(before[i].0 != before[j].0);
                } else if i < before.len() {
                    assert(before[i].0 != name@);
                } else {
                    assert(before[j].0 != name@);
                }
            }
            assert forall|i: int| 0 <= i < fields@.len() implies (#[trigger] fields@[i]).slot
                == crate::variables::slot(after, i) by {
                lemma_count_push(before, (name@, kind), after[i].1, if i < before.len() {
                    i
                } else {
                    before.len() as int
                });
                if i < before.len() {
                    assert(fields@[i] == held[i]);
                    assert(after[i] == before[i]);
                }
            }
        }
        *self = Schema { fields };
        true
    }

    /// Whether `record` holds one value for each field, of the field's type.
    pub fn admits(&self, record: &Vec<Value>) -> (fits: bool)
        ensures
            fits == admits(self@, data(record@)),
    {
        if record.len() != self.fields.len() {
            return false;
        }
        let mut i: usize = 0;
        while i < record.len()
            invariant
                i <= record@.len(),
                record@.len() == self.fields@.len(),
                self@.len() == self.fields@.len(),
                forall|j: int| 0 <= j < i ==> (#[trigger] data(record@)[j]).kind() == self@[j].1,
            decreases record.len() - i,
        {
            if record[i].kind() != self.fields[i].kind {
                assert(data(record@)[i as int].kind() != self@[i as int].1);
                return false;
            }
            i += 1;
        }
        true
    }
}

} // verus!
