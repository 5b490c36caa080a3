//! Sets of fields, kept as lists in ascending order.

use vstd::prelude::*;
use crate::schema::Field;

verus! {

/// The fields come in strictly ascending order.
pub open spec fn ascending(fields: Seq<Field>) -> bool {
    forall|i: int, j: int|
        0 <= i < j < fields.len() ==> (#[trigger] fields[i]).0 < (#[trigger] fields[j]).0
}

/// Puts a field in its place, unless it is there already.
pub open spec fn inserted(fields: Seq<Field>, field: Field) -> Seq<Field>
    decreases fields.len(),
{
    if fields.len() == 0 || fields.last().0 < field.0 {
        fields.push(field)
    } else if fields.last() == field {
        fields
    } else {
        inserted(fields.drop_last(), field).push(fields.last())
    }
}

/// The fields in ascending order, each of them once.
pub open spec fn sorted_set(fields: Seq<Field>) -> Seq<Field>
    decreases fields.len(),
{
    if fields.len() == 0 {
        fields
    } else {
        inserted(sorted_set(fields.drop_last()), fields.last())
    }
}

proof fn inserted_properties(fields: Seq<Field>, field: Field)
    requires
        ascending(fields),
    ensures
        ascending(inserted(fields, field)),
        forall|other: Field| #[trigger]
            inserted(fields, field).contains(other) <==> fields.contains(other) || other == field,
        inserted(fields, field).len() > 0,
        inserted(fields, field).last() == field || fields.len() > 0 && inserted(
            fields,
            field,
        ).last() == fields.last(),
    decreases fields.len(),
{
    let result = inserted(fields, field);
    if fields.len() == 0 || fields.last().0 < field.0 {
        assert forall|i: int, j: int| 0 <= i < j < result.len() implies (
        #[trigger] result[i]).0 < (#[trigger] result[j]).0 by {
            if j == fields.len() && i < fields.len() - 1 {
                assert(fields[i].0 < fields[fields.len() - 1].0);
            }
        }
        assert forall|other: Field| #[trigger] result.contains(other) <==> fields.contains(other)
            || other == field by {
            if fields.contains(other) {
                let i = fields.index_of(other);
                assert(result[i] == other);
            }
            assert(result[fields.len() as int] == field);
        }
    } else if fields.last() == field {
        assert(fields[fields.len() - 1] == field);
    } else {
        let shorter = fields.drop_last();
        assert forall|i: int, j: int| 0 <= i < j < shorter.len() implies (
        #[trigger] shorter[i]).0 < (#[trigger] shorter[j]).0 by {
            assert(fields[i].0 < fields[j].0);
        }
        inserted_properties(shorter, field);
        let below = inserted(shorter, field);
        if shorter.len() > 0 {
            assert(fields[shorter.len() - 1].0 < fields[fields.len() - 1].0);
        }
        assert forall|i: int, j: int| 0 <= i < j < result.len() implies (
        #[trigger] result[i]).0 < (#[trigger] result[j]).0 by {
            if j == below.len() && i < below.len() - 1 {
                assert(below[i].0 < below[below.len() - 1].0);
            }
        }
        assert forall|other: Field| #[trigger] result.contains(other) <==> fields.contains(other)
            || other == field by {
            if result.contains(other) {
                let i = result.index_of(other);
                if i < below.len() {
                    assert(below[i] == other);
                    assert(below.contains(other));
                    if shorter.contains(other) {
                        let k = shorter.index_of(other);
                        assert(fields[k] == other);
                    }
                } else {
                    assert(fields[fields.len() - 1] == other);
                }
            }
            if fields.contains(other) {
                let i = fields.index_of(other);
                if i < shorter.len() {
                    assert(shorter[i] == other);
                    assert(below.contains(other));
                    let k = below.index_of(other);
                    assert(result[k] == other);
                } else {
                    assert(result[below.len() as int] == other);
                }
            }
            if other == field {
                assert(below.contains(field));
                let k = below.index_of(field);
                assert(result[k] == field);
            }
        }
    }
}

/// The sorted set comes in strictly ascending order, and holds the same fields.
pub proof fn sorted_set_is_a_set(fields: Seq<Field>)
    ensures
        ascending(sorted_set(fields)),
        forall|field: Field| #[trigger]
            sorted_set(fields).contains(field) <==> fields.contains(field),
    decreases fields.len(),
{
    if fields.len() > 0 {
        let shorter = fields.drop_last();
        sorted_set_is_a_set(shorter);
        inserted_properties(sorted_set(shorter), fields.last());
        assert forall|field: Field| #[trigger] sorted_set(fields).contains(field)
            <==> fields.contains(field) by {
            if shorter.contains(field) {
                let i = shorter.index_of(field);
                assert(fields[i] == field);
            }
            if fields.contains(field) {
                let i = fields.index_of(field);
                if i < shorter.len() {
                    assert(shorter[i] == field);
                }
            }
            assert(fields[fields.len() - 1] == fields.last());
        }
    }
}

/// Puts a field in its place, unless it is there already.
pub fn insert(fields: &mut Vec<Field>, field: Field)
    ensures
        final(fields)@ == inserted(old(fields)@, field),
{
    let ghost before = fields@;
    let mut place: usize = fields.len();
    assert(before.take(place as int) =~= before);
    assert(inserted(before, field) + before.skip(place as int) =~= inserted(before, field));
    while place > 0 && fields[place - 1].0 > field.0
        invariant
            place <= fields.len(),
            before == fields@,
            inserted(before, field) == inserted(before.take(place as int), field) + before.skip(
                place as int,
            ),
        decreases place,
    {
        let ghost n = place as int;
        assert(before.take(n).drop_last() =~= before.take(n - 1));
        assert(before.take(n).last() == before[n - 1]);
        assert(inserted(before.take(n), field) + before.skip(n) =~= inserted(
            before.take(n - 1),
            field,
        ) + before.skip(n - 1));
        place -= 1;
    }
    assert(place > 0 ==> before.take(place as int).last() == before[place - 1]);
    if place > 0 && fields[place - 1] == field {
        assert(before.take(place as int) + before.skip(place as int) =~= before);
    } else {
        fields.insert(place, field);
        assert(fields@ =~= before.take(place as int).push(field) + before.skip(place as int));
    }
}

/// Returns the fields in ascending order, each of them once.
pub fn to_sorted_set(fields: &[Field]) -> (r: Vec<Field>)
    ensures
        r@ == sorted_set(fields@),
{
    let mut r: Vec<Field> = Vec::new();
    let mut i: usize = 0;
    assert(r@ =~= sorted_set(fields@.take(0)));
    while i < fields.len()
        invariant
            i <= fields.len(),
            r@ == sorted_set(fields@.take(i as int)),
        decreases fields.len() - i,
    {
        assert(fields@.take(i + 1).drop_last() =~= fields@.take(i as int));
        insert(&mut r, fields[i]);
        i += 1;
    }
    assert(fields@.take(i as int) =~= fields@);
    r
}

/// Returns whether a list holds a field.
pub fn contains(fields: &[Field], field: Field) -> (r: bool)
    ensures
        r == fields@.contains(field),
{
    let mut i: usize = 0;
    while i < fields.len()
        invariant
            i <= fields.len(),
            forall|j: int| 0 <= j < i ==> #[trigger] fields@[j] != field,
        decreases fields.len() - i,
    {
        if fields[i] == field {
            return true;
        }
        i += 1;
    }
    false
}

/// Copies a list of fields.
pub fn copy_of(fields: &[Field]) -> (r: Vec<Field>)
    ensures
        r@ == fields@,
{
    let mut r: Vec<Field> = Vec::new();
    let mut i: usize = 0;
    while i < fields.len()
        invariant
            i <= fields.len(),
            r@ == fields@.take(i as int),
        decreases fields.len() - i,
    {
        r.push(fields[i]);
        assert(fields@.take(i + 1) =~= fields@.take(i as int).push(fields@[i as int]));
        i += 1;
    }
    assert(r@ =~= fields@);
    r
}

} // verus!
