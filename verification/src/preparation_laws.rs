//! Preparing a document for some of its fields gives the same for each of them as preparing it for
//! others too.

use vstd::prelude::*;
use crate::any_query;
use crate::any_query::AnyQuery;
use crate::document::{JsonLeafView, LeafValueView, ValueView};
use crate::error::ErrorView;
use crate::indexing;
use crate::indexing::{DocumentIndexing, FieldIndexing};
use crate::json_paths;
use crate::postings;
use crate::prepared_document;
use crate::prepared_document::PreparedDocumentView;
use crate::query_laws;
use crate::schema::{Field, FieldEntryView, Type};
use crate::single_document;
use crate::single_document::{BoundView, ContextView, TermInfoView};
use crate::term;
use crate::term::TermView;
use crate::term_map;
use crate::token_laws;

verus! {

/// Two intermediate terms differ at most in the number of their path, which is the same path.
pub open spec fn same_key(
    left: TermView,
    left_paths: Seq<Seq<char>>,
    right: TermView,
    right_paths: Seq<Seq<char>>,
) -> bool {
    &&& left.field == right.field
    &&& left.typ == right.typ
    &&& if left.typ == Type::Json {
        &&& left.value.len() >= 5
        &&& right.value.len() >= 5
        &&& json_paths::id_of(left.value) < left_paths.len()
        &&& json_paths::id_of(right.value) < right_paths.len()
        &&& left_paths[json_paths::id_of(left.value) as int] == right_paths[json_paths::id_of(
            right.value,
        ) as int]
        &&& left.value.skip(4) == right.value.skip(4)
    } else {
        left == right
    }
}

/// The occurrences of two lists are those of the same terms, up to the numbers of paths.
pub open spec fn renamed(
    left: Seq<(TermView, u32)>,
    left_paths: Seq<Seq<char>>,
    right: Seq<(TermView, u32)>,
    right_paths: Seq<Seq<char>>,
) -> bool {
    &&& left.len() == right.len()
    &&& forall|i: int|
        #![trigger left[i]]
        #![trigger right[i]]
        0 <= i < left.len() ==> same_key(left[i].0, left_paths, right[i].0, right_paths)
            && left[i].1 == right[i].1
}

/// Two states of indexing a field differ at most in what other fields gave.
pub open spec fn same_progress(left: FieldIndexing, right: FieldIndexing) -> bool {
    left.next == right.next && left.next_at_path == right.next_at_path && left.count == right.count
}

/// What a step of indexing added to the occurrences.
pub open spec fn delta(before: FieldIndexing, after: FieldIndexing) -> Seq<(TermView, u32)> {
    after.occurrences.skip(before.occurrences.len() as int)
}

/// A step of indexing a field adds occurrences of its terms, and paths.
pub open spec fn extends(field: Field, before: FieldIndexing, after: FieldIndexing) -> bool {
    &&& before.occurrences.is_prefix_of(after.occurrences)
    &&& before.paths.is_prefix_of(after.paths)
    &&& forall|i: int|
        before.occurrences.len() <= i < after.occurrences.len() ==> (
        #[trigger] after.occurrences[i]).0.field == field
}

/// Two steps of indexing the same field add the same, up to the numbers of paths.
pub open spec fn same_step(
    field: Field,
    left: FieldIndexing,
    left_after: FieldIndexing,
    right: FieldIndexing,
    right_after: FieldIndexing,
) -> bool {
    &&& extends(field, left, left_after)
    &&& extends(field, right, right_after)
    &&& same_progress(left_after, right_after)
    &&& forall|left_paths: Seq<Seq<char>>, right_paths: Seq<Seq<char>>|
        left_after.paths.is_prefix_of(left_paths) && left_paths.len() <= 0x1_0000_0000
            && right_after.paths.is_prefix_of(right_paths) && right_paths.len() <= 0x1_0000_0000
            ==> #[trigger] renamed(
            delta(left, left_after),
            left_paths,
            delta(right, right_after),
            right_paths,
        )
}

proof fn steps_follow(
    field: Field,
    left: FieldIndexing,
    left_middle: FieldIndexing,
    left_after: FieldIndexing,
    right: FieldIndexing,
    right_middle: FieldIndexing,
    right_after: FieldIndexing,
)
    requires
        same_step(field, left, left_middle, right, right_middle),
        same_step(field, left_middle, left_after, right_middle, right_after),
    ensures
        same_step(field, left, left_after, right, right_after),
{
    assert forall|i: int|
        left.occurrences.len() <= i < left_after.occurrences.len() implies (
    #[trigger] left_after.occurrences[i]).0.field == field by {
        if i < left_middle.occurrences.len() {
            assert(left_after.occurrences[i] == left_middle.occurrences[i]);
        }
    }
    assert forall|i: int|
        right.occurrences.len() <= i < right_after.occurrences.len() implies (
    #[trigger] right_after.occurrences[i]).0.field == field by {
        if i < right_middle.occurrences.len() {
            assert(right_after.occurrences[i] == right_middle.occurrences[i]);
        }
    }
    assert forall|left_paths: Seq<Seq<char>>, right_paths: Seq<Seq<char>>|
        left_after.paths.is_prefix_of(left_paths) && left_paths.len() <= 0x1_0000_0000
            && right_after.paths.is_prefix_of(right_paths) && right_paths.len()
            <= 0x1_0000_0000 implies #[trigger] renamed(
        delta(left, left_after),
        left_paths,
        delta(right, right_after),
        right_paths,
    ) by {
        let first_left = delta(left, left_middle);
        let first_right = delta(right, right_middle);
        let then_left = delta(left_middle, left_after);
        let then_right = delta(right_middle, right_after);
        assert(renamed(first_left, left_paths, first_right, right_paths));
        assert(renamed(then_left, left_paths, then_right, right_paths));
        assert(delta(left, left_after) =~= first_left + then_left);
        assert(delta(right, right_after) =~= first_right + then_right);
        let all_left = first_left + then_left;
        let all_right = first_right + then_right;
        assert forall|i: int|
            #![trigger all_left[i]]
            #![trigger all_right[i]]
            0 <= i < all_left.len() implies same_key(
            all_left[i].0,
            left_paths,
            all_right[i].0,
            right_paths,
        ) && all_left[i].1 == all_right[i].1 by {
            if i < first_left.len() {
                assert(all_left[i] == first_left[i]);
                assert(all_right[i] == first_right[i]);
            } else {
                assert(all_left[i] == then_left[i - first_left.len()]);
                assert(all_right[i] == then_right[i - first_left.len()]);
            }
        }
    }
}

proof fn heads_have_the_same_key(
    field: Field,
    path: Seq<char>,
    typ: Type,
    rest: Seq<u8>,
    left: Seq<Seq<char>>,
    left_paths: Seq<Seq<char>>,
    right: Seq<Seq<char>>,
    right_paths: Seq<Seq<char>>,
)
    requires
        json_paths::with_path(left, path).is_prefix_of(left_paths),
        json_paths::with_path(right, path).is_prefix_of(right_paths),
        left_paths.len() <= 0x1_0000_0000,
        right_paths.len() <= 0x1_0000_0000,
    ensures
        same_key(
            (TermView {
                field,
                typ: Type::Json,
                value: indexing::json_head(left, path, typ) + rest,
            }),
            left_paths,
            (TermView {
                field,
                typ: Type::Json,
                value: indexing::json_head(right, path, typ) + rest,
            }),
            right_paths,
        ),
{
    head_has_path(path, typ, rest, left, left_paths);
    head_has_path(path, typ, rest, right, right_paths);
}

proof fn head_has_path(
    path: Seq<char>,
    typ: Type,
    rest: Seq<u8>,
    paths: Seq<Seq<char>>,
    all_paths: Seq<Seq<char>>,
)
    requires
        json_paths::with_path(paths, path).is_prefix_of(all_paths),
        all_paths.len() <= 0x1_0000_0000,
    ensures
        ({
            let value = indexing::json_head(paths, path, typ) + rest;
            &&& value.len() >= 5
            &&& json_paths::id_of(value) < all_paths.len()
            &&& all_paths[json_paths::id_of(value) as int] == path
            &&& value.skip(4) == seq![typ.spec_code()] + rest
        }),
{
    let known = json_paths::with_path(paths, path);
    let value = indexing::json_head(paths, path, typ) + rest;
    let id = json_paths::first_index(paths, path);
    json_paths::first_index_is_first(paths, path);
    json_paths::id_round_trip(id as u32);
    assert(json_paths::id_of(value) == json_paths::id_of(json_paths::id_bytes(id as u32)));
    assert(known[id as int] == path);
    assert(all_paths[id as int] == known[id as int]);
    assert(value.skip(4) =~= seq![typ.spec_code()] + rest);
}

proof fn leaf_steps_are_the_same(
    field: Field,
    left: FieldIndexing,
    right: FieldIndexing,
    leaf: JsonLeafView,
)
    requires
        same_progress(left, right),
    ensures
        same_step(
            field,
            left,
            indexing::leaf_indexed(field, left, leaf),
            right,
            indexing::leaf_indexed(field, right, leaf),
        ),
{
    let left_after = indexing::leaf_indexed(field, left, leaf);
    let right_after = indexing::leaf_indexed(field, right, leaf);
    assert forall|left_paths: Seq<Seq<char>>, right_paths: Seq<Seq<char>>|
        left_after.paths.is_prefix_of(left_paths) && left_paths.len() <= 0x1_0000_0000
            && right_after.paths.is_prefix_of(right_paths) && right_paths.len()
            <= 0x1_0000_0000 implies #[trigger] renamed(
        delta(left, left_after),
        left_paths,
        delta(right, right_after),
        right_paths,
    ) by {
        let added_left = delta(left, left_after);
        let added_right = delta(right, right_after);
        assert forall|i: int|
            #![trigger added_left[i]]
            #![trigger added_right[i]]
            0 <= i < added_left.len() implies same_key(
            added_left[i].0,
            left_paths,
            added_right[i].0,
            right_paths,
        ) && added_left[i].1 == added_right[i].1 by {
            match leaf.value {
                LeafValueView::Text(tokens) => {
                    heads_have_the_same_key(
                        field,
                        leaf.path,
                        Type::Str,
                        vstd::utf8::encode_utf8(tokens[i].text),
                        left.paths,
                        left_paths,
                        right.paths,
                        right_paths,
                    );
                },
                LeafValueView::Exact(typ, bytes) => {
                    heads_have_the_same_key(
                        field,
                        leaf.path,
                        typ,
                        bytes,
                        left.paths,
                        left_paths,
                        right.paths,
                        right_paths,
                    );
                },
            }
        }
    }
}

proof fn no_steps_are_the_same(field: Field, left: FieldIndexing, right: FieldIndexing)
    requires
        same_progress(left, right),
    ensures
        same_step(field, left, left, right, right),
{
    assert(delta(left, left) =~= Seq::empty());
    assert(delta(right, right) =~= Seq::empty());
}

proof fn leaves_steps_are_the_same(
    field: Field,
    left: FieldIndexing,
    right: FieldIndexing,
    leaves: Seq<JsonLeafView>,
)
    requires
        same_progress(left, right),
    ensures
        same_step(
            field,
            left,
            indexing::leaves_indexed(field, left, leaves),
            right,
            indexing::leaves_indexed(field, right, leaves),
        ),
    decreases leaves.len(),
{
    if leaves.len() == 0 {
        no_steps_are_the_same(field, left, right);
    } else {
        let left_middle = indexing::leaves_indexed(field, left, leaves.drop_last());
        let right_middle = indexing::leaves_indexed(field, right, leaves.drop_last());
        leaves_steps_are_the_same(field, left, right, leaves.drop_last());
        leaf_steps_are_the_same(field, left_middle, right_middle, leaves.last());
        steps_follow(
            field,
            left,
            left_middle,
            indexing::leaves_indexed(field, left, leaves),
            right,
            right_middle,
            indexing::leaves_indexed(field, right, leaves),
        );
    }
}

proof fn value_steps_are_the_same(
    field: Field,
    entry: FieldEntryView,
    left: FieldIndexing,
    right: FieldIndexing,
    value: ValueView,
)
    requires
        same_progress(left, right),
        indexing::value_indexed(field, entry, left, value) is Ok,
    ensures
        indexing::value_indexed(field, entry, right, value) is Ok,
        same_step(
            field,
            left,
            indexing::value_indexed(field, entry, left, value)->Ok_0,
            right,
            indexing::value_indexed(field, entry, right, value)->Ok_0,
        ),
{
    let left_after = indexing::value_indexed(field, entry, left, value)->Ok_0;
    let right_after = indexing::value_indexed(field, entry, right, value)->Ok_0;
    if left_after == left {
        no_steps_are_the_same(field, left, right);
    }
    match value {
        ValueView::Null => {},
        ValueView::Json(leaves) => {
            if entry.field_type.value_type == Type::Json {
                leaves_steps_are_the_same(field, left, right, leaves);
            }
        },
        _ => {
            let added_left = delta(left, left_after);
            let added_right = delta(right, right_after);
            assert(added_left =~= added_right);
            assert forall|i: int| 0 <= i < added_left.len() implies (
            #[trigger] added_left[i]).0.typ != Type::Json by {
                assert(added_left[i] == left_after.occurrences[left.occurrences.len() + i]);
            }
        },
    }
}

pub(crate) proof fn values_steps_are_the_same(
    field: Field,
    entry: FieldEntryView,
    left: FieldIndexing,
    right: FieldIndexing,
    document: Seq<(Field, ValueView)>,
)
    requires
        same_progress(left, right),
        indexing::field_values_indexed(field, entry, left, document) is Ok,
    ensures
        indexing::field_values_indexed(field, entry, right, document) is Ok,
        same_step(
            field,
            left,
            indexing::field_values_indexed(field, entry, left, document)->Ok_0,
            right,
            indexing::field_values_indexed(field, entry, right, document)->Ok_0,
        ),
    decreases document.len(),
{
    if document.len() == 0 {
        no_steps_are_the_same(field, left, right);
    } else {
        let shorter = document.drop_last();
        values_steps_are_the_same(field, entry, left, right, shorter);
        let left_middle = indexing::field_values_indexed(field, entry, left, shorter)->Ok_0;
        let right_middle = indexing::field_values_indexed(field, entry, right, shorter)->Ok_0;
        if document.last().0 == field {
            value_steps_are_the_same(
                field,
                entry,
                left_middle,
                right_middle,
                document.last().1,
            );
            steps_follow(
                field,
                left,
                left_middle,
                indexing::field_values_indexed(field, entry, left, document)->Ok_0,
                right,
                right_middle,
                indexing::field_values_indexed(field, entry, right, document)->Ok_0,
            );
        }
    }
}

/// The occurrences of the terms of a field.
pub open spec fn field_part(occurrences: Seq<(TermView, u32)>, field: Field) -> Seq<(TermView, u32)>
    decreases occurrences.len(),
{
    if occurrences.len() == 0 {
        Seq::empty()
    } else {
        let before = field_part(occurrences.drop_last(), field);
        if occurrences.last().0.field == field {
            before.push(occurrences.last())
        } else {
            before
        }
    }
}

proof fn field_part_adds_up(
    left: Seq<(TermView, u32)>,
    right: Seq<(TermView, u32)>,
    field: Field,
)
    ensures
        field_part(left + right, field) == field_part(left, field) + field_part(right, field),
    decreases right.len(),
{
    if right.len() == 0 {
        assert(left + right =~= left);
        assert(field_part(left, field) + field_part(right, field) =~= field_part(left, field));
    } else {
        assert((left + right).drop_last() =~= left + right.drop_last());
        field_part_adds_up(left, right.drop_last(), field);
        assert(field_part(left + right, field) =~= field_part(left, field) + field_part(
            right,
            field,
        ));
    }
}

proof fn field_part_of_one_field(
    occurrences: Seq<(TermView, u32)>,
    field: Field,
    other: Field,
)
    requires
        forall|i: int| 0 <= i < occurrences.len() ==> (#[trigger] occurrences[i]).0.field == field,
    ensures
        field_part(occurrences, other) == if other == field {
            occurrences
        } else {
            Seq::empty()
        },
    decreases occurrences.len(),
{
    if occurrences.len() > 0 {
        let shorter = occurrences.drop_last();
        assert(occurrences[occurrences.len() - 1].0.field == field);
        assert forall|i: int| 0 <= i < shorter.len() implies (#[trigger] shorter[i]).0.field
            == field by {
            assert(shorter[i] == occurrences[i]);
        }
        field_part_of_one_field(shorter, field, other);
        assert(shorter.push(occurrences.last()) =~= occurrences);
    } else {
        assert(occurrences =~= Seq::empty());
    }
}

pub(crate) proof fn positions_in_field_part(occurrences: Seq<(TermView, u32)>, term: TermView)
    ensures
        postings::positions_in(occurrences, term) == postings::positions_in(
            field_part(occurrences, term.field),
            term,
        ),
    decreases occurrences.len(),
{
    if occurrences.len() > 0 {
        positions_in_field_part(occurrences.drop_last(), term);
        let before = field_part(occurrences.drop_last(), term.field);
        assert(before.push(occurrences.last()).drop_last() =~= before);
    }
}

/// What indexing a field after others adds to the index: nothing, or what its values give.
pub open spec fn field_step(
    schema: Seq<FieldEntryView>,
    document: Seq<(Field, ValueView)>,
    field: Field,
    start: FieldIndexing,
) -> Result<FieldIndexing, ErrorView> {
    if schema[field.0 as int].field_type.record_option is None || !indexing::has_contents(
        document,
        field,
    ) {
        Ok(start)
    } else {
        indexing::field_values_indexed(field, schema[field.0 as int], start, document)
    }
}

/// The state in which the indexing of a field began.
pub(crate) proof fn stage_of_field(
    schema: Seq<FieldEntryView>,
    fields: Seq<Field>,
    document: Seq<(Field, ValueView)>,
    field: Field,
) -> (start: FieldIndexing)
    requires
        fields.no_duplicates(),
        fields.contains(field),
        indexing::document_indexed(schema, fields, document) is Ok,
    ensures
        field_step(schema, document, field, start) is Ok,
        same_progress(start, indexing::start_of_field(indexing::no_indexing())),
        ({
            let indexed = indexing::document_indexed(schema, fields, document)->Ok_0;
            let after = field_step(schema, document, field, start)->Ok_0;
            &&& after.paths.is_prefix_of(indexed.paths)
            &&& field_part(indexed.occurrences, field) == delta(start, after)
        }),
    decreases fields.len(),
{
    let shorter = fields.drop_last();
    let last = fields.last();
    let state = indexing::document_indexed(schema, shorter, document)->Ok_0;
    let indexed = indexing::document_indexed(schema, fields, document)->Ok_0;
    let last_start = indexing::start_of_field(state);
    let last_after = field_step(schema, document, last, last_start)->Ok_0;
    assert(extends(last, last_start, last_after)) by {
        if schema[last.0 as int].field_type.record_option is Some && indexing::has_contents(
            document,
            last,
        ) {
            values_steps_are_the_same(
                last,
                schema[last.0 as int],
                last_start,
                last_start,
                document,
            );
        }
    }
    assert(indexed.occurrences == last_after.occurrences);
    assert(indexed.paths == last_after.paths);
    let added = delta(last_start, last_after);
    assert(indexed.occurrences =~= state.occurrences + added);
    assert forall|i: int| 0 <= i < added.len() implies (#[trigger] added[i]).0.field == last by {
        assert(added[i] == last_after.occurrences[last_start.occurrences.len() + i]);
    }
    field_part_adds_up(state.occurrences, added, field);
    field_part_of_one_field(added, last, field);
    assert forall|i: int, j: int|
        0 <= i < shorter.len() && 0 <= j < shorter.len() && i != j implies shorter[i]
        != shorter[j] by {
        assert(fields[i] != fields[j]);
    }
    if field == last {
        field_is_new(schema, fields, document);
        assert(field_part(state.occurrences, field) + added =~= added);
        last_start
    } else {
        let k = fields.index_of(field);
        assert(shorter[k] == field);
        let start = stage_of_field(schema, shorter, document, field);
        assert(field_part(state.occurrences, field) + Seq::<(TermView, u32)>::empty()
            =~= field_part(state.occurrences, field));
        start
    }
}

/// Before a field is indexed, there are no occurrences of its terms.
proof fn field_is_new(
    schema: Seq<FieldEntryView>,
    fields: Seq<Field>,
    document: Seq<(Field, ValueView)>,
)
    requires
        fields.len() > 0,
        fields.no_duplicates(),
        indexing::document_indexed(schema, fields, document) is Ok,
    ensures
        field_part(
            indexing::document_indexed(schema, fields.drop_last(), document)->Ok_0.occurrences,
            fields.last(),
        ) == Seq::<(TermView, u32)>::empty(),
{
    let shorter = fields.drop_last();
    let field = fields.last();
    let state = indexing::document_indexed(schema, shorter, document)->Ok_0;
    assert forall|i: int, j: int|
        0 <= i < shorter.len() && 0 <= j < shorter.len() && i != j implies shorter[i]
        != shorter[j] by {
        assert(fields[i] != fields[j]);
    }
    if shorter.contains(field) {
        let i = shorter.index_of(field);
        assert(fields[i] == fields[fields.len() - 1]);
    }
    token_laws::tokens_are_the_occurrences(schema, shorter, document, field);
    field_part_is_counted(state.occurrences, field);
}

proof fn field_part_is_counted(occurrences: Seq<(TermView, u32)>, field: Field)
    ensures
        field_part(occurrences, field).len() == token_laws::occurrences_of_field(
            occurrences,
            field,
        ),
        field_part(occurrences, field).len() == 0 ==> field_part(occurrences, field) == Seq::<
            (TermView, u32),
        >::empty(),
    decreases occurrences.len(),
{
    if occurrences.len() > 0 {
        field_part_is_counted(occurrences.drop_last(), field);
    }
    if field_part(occurrences, field).len() == 0 {
        assert(field_part(occurrences, field) =~= Seq::empty());
    }
}

/// The occurrences of a field are the same whatever other fields are indexed, up to the numbers of
/// paths.
proof fn field_occurrences_are_the_same(
    schema: Seq<FieldEntryView>,
    left: Seq<Field>,
    right: Seq<Field>,
    document: Seq<(Field, ValueView)>,
    field: Field,
)
    requires
        left.no_duplicates(),
        right.no_duplicates(),
        left.contains(field),
        right.contains(field),
        indexing::document_indexed(schema, left, document) is Ok,
        indexing::document_indexed(schema, right, document) is Ok,
        indexing::document_indexed(schema, left, document)->Ok_0.paths.len() <= 0x1_0000_0000,
        indexing::document_indexed(schema, right, document)->Ok_0.paths.len() <= 0x1_0000_0000,
    ensures
        ({
            let left = indexing::document_indexed(schema, left, document)->Ok_0;
            let right = indexing::document_indexed(schema, right, document)->Ok_0;
            renamed(
                field_part(left.occurrences, field),
                left.paths,
                field_part(right.occurrences, field),
                right.paths,
            )
        }),
{
    let left_indexed = indexing::document_indexed(schema, left, document)->Ok_0;
    let right_indexed = indexing::document_indexed(schema, right, document)->Ok_0;
    let left_start = stage_of_field(schema, left, document, field);
    let right_start = stage_of_field(schema, right, document, field);
    let left_after = field_step(schema, document, field, left_start)->Ok_0;
    let right_after = field_step(schema, document, field, right_start)->Ok_0;
    if schema[field.0 as int].field_type.record_option is Some && indexing::has_contents(
        document,
        field,
    ) {
        values_steps_are_the_same(
            field,
            schema[field.0 as int],
            left_start,
            right_start,
            document,
        );
    } else {
        no_steps_are_the_same(field, left_start, right_start);
    }
    assert(renamed(
        delta(left_start, left_after),
        left_indexed.paths,
        delta(right_start, right_after),
        right_indexed.paths,
    ));
}

proof fn leaves_keep_paths_distinct(field: Field, state: FieldIndexing, leaves: Seq<JsonLeafView>)
    requires
        state.paths.no_duplicates(),
    ensures
        indexing::leaves_indexed(field, state, leaves).paths.no_duplicates(),
    decreases leaves.len(),
{
    if leaves.len() > 0 {
        leaves_keep_paths_distinct(field, state, leaves.drop_last());
        json_paths::first_index_is_first(
            indexing::leaves_indexed(field, state, leaves.drop_last()).paths,
            leaves.last().path,
        );
    }
}

proof fn values_keep_paths_distinct(
    field: Field,
    entry: FieldEntryView,
    state: FieldIndexing,
    document: Seq<(Field, ValueView)>,
)
    requires
        state.paths.no_duplicates(),
        indexing::field_values_indexed(field, entry, state, document) is Ok,
    ensures
        indexing::field_values_indexed(field, entry, state, document)->Ok_0.paths.no_duplicates(),
    decreases document.len(),
{
    if document.len() > 0 {
        let shorter = document.drop_last();
        values_keep_paths_distinct(field, entry, state, shorter);
        let before = indexing::field_values_indexed(field, entry, state, shorter)->Ok_0;
        if let ValueView::Json(leaves) = document.last().1 {
            leaves_keep_paths_distinct(field, before, leaves);
        }
    }
}

proof fn paths_are_distinct(
    schema: Seq<FieldEntryView>,
    fields: Seq<Field>,
    document: Seq<(Field, ValueView)>,
)
    requires
        indexing::document_indexed(schema, fields, document) is Ok,
    ensures
        indexing::document_indexed(schema, fields, document)->Ok_0.paths.no_duplicates(),
    decreases fields.len(),
{
    if fields.len() > 0 {
        let shorter = fields.drop_last();
        paths_are_distinct(schema, shorter, document);
        let state = indexing::document_indexed(schema, shorter, document)->Ok_0;
        let field = fields.last();
        let entry = schema[field.0 as int];
        if entry.field_type.record_option is Some && indexing::has_contents(document, field) {
            values_keep_paths_distinct(field, entry, indexing::start_of_field(state), document);
        }
    }
}

/// Two numbers of four bytes are equal only where their bytes are.
#[verifier::spinoff_prover]
proof fn bytes_of_a_number_are_unique(left: (u8, u8, u8, u8), right: (u8, u8, u8, u8))
    requires
        left.0 * 16777216 + left.1 * 65536 + left.2 * 256 + left.3 == right.0 * 16777216 + right.1
            * 65536 + right.2 * 256 + right.3,
    ensures
        left == right,
{
    assert(left.0 == right.0);
    assert(left.1 == right.1);
    assert(left.2 == right.2);
    assert(left.3 == right.3);
}

/// A number determines its bytes.
proof fn id_determines_bytes(left: Seq<u8>, right: Seq<u8>)
    requires
        left.len() >= 4,
        right.len() >= 4,
        json_paths::id_of(left) == json_paths::id_of(right),
        left.skip(4) == right.skip(4),
    ensures
        left == right,
{
    bytes_of_a_number_are_unique(
        (left[0], left[1], left[2], left[3]),
        (right[0], right[1], right[2], right[3]),
    );
    assert(left.take(4) =~= right.take(4));
    assert(left =~= left.take(4) + left.skip(4));
    assert(right =~= right.take(4) + right.skip(4));
}

/// Terms with the same key are different exactly where those that they are compared to are.
proof fn keys_are_unique(
    first_left: TermView,
    first_right: TermView,
    second_left: TermView,
    second_right: TermView,
    left_paths: Seq<Seq<char>>,
    right_paths: Seq<Seq<char>>,
)
    requires
        left_paths.no_duplicates(),
        right_paths.no_duplicates(),
        same_key(first_left, left_paths, first_right, right_paths),
        same_key(second_left, left_paths, second_right, right_paths),
    ensures
        first_left == second_left <==> first_right == second_right,
{
    if first_left.typ == Type::Json {
        if first_left == second_left {
            assert(json_paths::id_of(first_right.value) == json_paths::id_of(second_right.value));
            id_determines_bytes(first_right.value, second_right.value);
        }
        if first_right == second_right {
            assert(json_paths::id_of(first_left.value) == json_paths::id_of(second_left.value));
            id_determines_bytes(first_left.value, second_left.value);
        }
    }
}

/// Terms with the same key have the same positions.
proof fn same_positions(
    left: Seq<(TermView, u32)>,
    left_paths: Seq<Seq<char>>,
    right: Seq<(TermView, u32)>,
    right_paths: Seq<Seq<char>>,
    left_term: TermView,
    right_term: TermView,
)
    requires
        left_paths.no_duplicates(),
        right_paths.no_duplicates(),
        renamed(left, left_paths, right, right_paths),
        same_key(left_term, left_paths, right_term, right_paths),
    ensures
        postings::positions_in(left, left_term) == postings::positions_in(right, right_term),
    decreases left.len(),
{
    if left.len() > 0 {
        let last = left.len() - 1;
        assert(same_key(left[last].0, left_paths, right[last].0, right_paths));
        keys_are_unique(
            left[last].0,
            right[last].0,
            left_term,
            right_term,
            left_paths,
            right_paths,
        );
        let shorter_left = left.drop_last();
        let shorter_right = right.drop_last();
        assert forall|i: int|
            #![trigger shorter_left[i]]
            #![trigger shorter_right[i]]
            0 <= i < shorter_left.len() implies same_key(
            shorter_left[i].0,
            left_paths,
            shorter_right[i].0,
            right_paths,
        ) && shorter_left[i].1 == shorter_right[i].1 by {
            assert(shorter_left[i] == left[i]);
            assert(shorter_right[i] == right[i]);
        }
        same_positions(
            shorter_left,
            left_paths,
            shorter_right,
            right_paths,
            left_term,
            right_term,
        );
    }
}

/// The entries for the intermediate terms that `term` stands for.
spec fn source_entries(
    raw: Seq<(TermView, Seq<u32>)>,
    paths: Seq<Seq<char>>,
    term: TermView,
) -> Seq<(TermView, Seq<u32>)>
    decreases raw.len(),
{
    if raw.len() == 0 {
        Seq::empty()
    } else {
        let before = source_entries(raw.drop_last(), paths, term);
        if postings::normalized_term(
            raw.last().0,
            json_paths::counting_ids(paths.len()),
            paths,
        ) == Ok::<TermView, ErrorView>(term) {
            before.push(raw.last())
        } else {
            before
        }
    }
}

/// The positions of a list of entries.
spec fn position_lists(entries: Seq<(TermView, Seq<u32>)>) -> Seq<Seq<u32>> {
    entries.map_values(|entry: (TermView, Seq<u32>)| entry.1)
}

proof fn source_entries_are_sources(
    raw: Seq<(TermView, Seq<u32>)>,
    paths: Seq<Seq<char>>,
    term: TermView,
)
    requires
        term_map::distinct(raw),
    ensures
        position_lists(source_entries(raw, paths, term)) == postings::sources(
            raw,
            json_paths::counting_ids(paths.len()),
            paths,
            term,
        ),
        term_map::distinct(source_entries(raw, paths, term)),
        forall|entry: (TermView, Seq<u32>)| #[trigger]
            source_entries(raw, paths, term).contains(entry) <==> raw.contains(entry)
                && postings::normalized_term(
                entry.0,
                json_paths::counting_ids(paths.len()),
                paths,
            ) == Ok::<TermView, ErrorView>(term),
    decreases raw.len(),
{
    let ids = json_paths::counting_ids(paths.len());
    let entries = source_entries(raw, paths, term);
    if raw.len() == 0 {
        assert(position_lists(entries) =~= Seq::empty());
    } else {
        let shorter = raw.drop_last();
        let before = source_entries(shorter, paths, term);
        let last = raw.last();
        assert(raw[raw.len() - 1] == last);
        assert forall|i: int, j: int| 0 <= i < j < shorter.len() implies (#[trigger] shorter[i]).0
            != (#[trigger] shorter[j]).0 by {
            assert(raw[i].0 != raw[j].0);
        }
        source_entries_are_sources(shorter, paths, term);
        let chosen = postings::normalized_term(last.0, ids, paths) == Ok::<TermView, ErrorView>(
            term,
        );
        if chosen {
            assert(position_lists(entries) =~= position_lists(before).push(last.1));
        }
        assert forall|entry: (TermView, Seq<u32>)| #[trigger] entries.contains(entry)
            <==> raw.contains(entry) && postings::normalized_term(entry.0, ids, paths) == Ok::<
            TermView,
            ErrorView,
        >(term) by {
            if shorter.contains(entry) {
                assert(raw[shorter.index_of(entry)] == entry);
            }
            if raw.contains(entry) {
                let i = raw.index_of(entry);
                if i < shorter.len() {
                    assert(shorter[i] == entry);
                }
            }
            if before.contains(entry) {
                assert(entries[before.index_of(entry)] == entry);
            }
            if chosen {
                assert(entries[before.len() as int] == last);
            }
            if entries.contains(entry) {
                let i = entries.index_of(entry);
                if i < before.len() {
                    assert(before[i] == entry);
                }
            }
        }
        assert forall|i: int, j: int| 0 <= i < j < entries.len() implies (#[trigger] entries[i]).0
            != (#[trigger] entries[j]).0 by {
            assert(entries[i] == before[i]);
            if j < before.len() {
                assert(entries[j] == before[j]);
            } else {
                assert(before.contains(before[i]));
                let k = shorter.index_of(before[i]);
                assert(raw[k].0 != raw[raw.len() - 1].0);
            }
        }
    }
}

proof fn all_positions_without(lists: Seq<Seq<u32>>, index: int)
    requires
        0 <= index < lists.len(),
    ensures
        postings::all_positions(lists) == postings::all_positions(lists.remove(index)).add(
            lists[index].to_multiset(),
        ),
    decreases lists.len(),
{
    let removed = lists.remove(index);
    if index == lists.len() - 1 {
        assert(removed =~= lists.drop_last());
    } else {
        let shorter = lists.drop_last();
        all_positions_without(shorter, index);
        assert(removed.drop_last() =~= shorter.remove(index));
        assert(removed.last() == lists.last());
        assert(postings::all_positions(lists) =~= postings::all_positions(removed).add(
            lists[index].to_multiset(),
        ));
    }
}

proof fn positions_without(entries: Seq<(TermView, Seq<u32>)>, index: int)
    requires
        0 <= index < entries.len(),
    ensures
        postings::all_positions(position_lists(entries)) == postings::all_positions(
            position_lists(entries.remove(index)),
        ).add(entries[index].1.to_multiset()),
{
    all_positions_without(position_lists(entries), index);
    assert(position_lists(entries).remove(index) =~= position_lists(entries.remove(index)));
}

/// Two entries have the same key and the same positions.
spec fn same_entry(
    left: (TermView, Seq<u32>),
    left_paths: Seq<Seq<char>>,
    right: (TermView, Seq<u32>),
    right_paths: Seq<Seq<char>>,
) -> bool {
    same_key(left.0, left_paths, right.0, right_paths) && left.1 == right.1
}

/// A list has an entry with the same key and the same positions.
spec fn has_same(
    entry: (TermView, Seq<u32>),
    paths: Seq<Seq<char>>,
    others: Seq<(TermView, Seq<u32>)>,
    other_paths: Seq<Seq<char>>,
) -> bool {
    exists|j: int|
        0 <= j < others.len() && same_entry(entry, paths, #[trigger] others[j], other_paths)
}

/// Each entry of a list has one with the same key and the same positions in another list.
spec fn covered(
    entries: Seq<(TermView, Seq<u32>)>,
    paths: Seq<Seq<char>>,
    others: Seq<(TermView, Seq<u32>)>,
    other_paths: Seq<Seq<char>>,
) -> bool {
    forall|i: int|
        0 <= i < entries.len() ==> has_same(#[trigger] entries[i], paths, others, other_paths)
}

/// What is covered stays covered where a pair of entries is left out.
proof fn covered_without(
    entries: Seq<(TermView, Seq<u32>)>,
    paths: Seq<Seq<char>>,
    others: Seq<(TermView, Seq<u32>)>,
    other_paths: Seq<Seq<char>>,
    index: int,
    other: int,
)
    requires
        paths.no_duplicates(),
        other_paths.no_duplicates(),
        term_map::distinct(entries),
        covered(entries, paths, others, other_paths),
        0 <= index < entries.len(),
        0 <= other < others.len(),
        same_entry(entries[index], paths, others[other], other_paths),
    ensures
        covered(entries.remove(index), paths, others.remove(other), other_paths),
{
    let rest = entries.remove(index);
    let rest_others = others.remove(other);
    assert forall|i: int| 0 <= i < rest.len() implies has_same(
        #[trigger] rest[i],
        paths,
        rest_others,
        other_paths,
    ) by {
        let k = if i < index {
            i
        } else {
            i + 1
        };
        assert(rest[i] == entries[k]);
        assert(has_same(entries[k], paths, others, other_paths));
        let j = choose|j: int|
            0 <= j < others.len() && same_entry(
                entries[k],
                paths,
                #[trigger] others[j],
                other_paths,
            );
        keys_are_unique(
            entries[k].0,
            others[j].0,
            entries[index].0,
            others[other].0,
            paths,
            other_paths,
        );
        assert(entries[k].0 != entries[index].0);
        assert(j != other);
        let l = if j < other {
            j
        } else {
            j - 1
        };
        assert(rest_others[l] == others[j]);
    }
}

/// Lists that cover each other have as many entries, and the same positions.
proof fn covered_lists_are_the_same(
    left: Seq<(TermView, Seq<u32>)>,
    left_paths: Seq<Seq<char>>,
    right: Seq<(TermView, Seq<u32>)>,
    right_paths: Seq<Seq<char>>,
)
    requires
        left_paths.no_duplicates(),
        right_paths.no_duplicates(),
        term_map::distinct(left),
        term_map::distinct(right),
        covered(left, left_paths, right, right_paths),
        covered(right, right_paths, left, left_paths),
    ensures
        left.len() == right.len(),
        postings::all_positions(position_lists(left)) == postings::all_positions(
            position_lists(right),
        ),
        left.len() == 1 ==> left[0].1 == right[0].1,
    decreases left.len(),
{
    if left.len() == 0 {
        if right.len() > 0 {
            assert(has_same(right[0], right_paths, left, left_paths));
        }
        assert(left =~= right);
    } else {
        let last = left.len() - 1;
        assert(has_same(left[last], left_paths, right, right_paths));
        let j = choose|j: int|
            0 <= j < right.len() && same_entry(
                left[last],
                left_paths,
                #[trigger] right[j],
                right_paths,
            );
        covered_without(left, left_paths, right, right_paths, last, j);
        covered_without(right, right_paths, left, left_paths, j, last);
        term_map::distinct_without(left, last);
        term_map::distinct_without(right, j);
        covered_lists_are_the_same(left.remove(last), left_paths, right.remove(j), right_paths);
        positions_without(left, last);
        positions_without(right, j);
    }
}

proof fn key_is_normalized(
    left: TermView,
    left_paths: Seq<Seq<char>>,
    right: TermView,
    right_paths: Seq<Seq<char>>,
)
    requires
        same_key(left, left_paths, right, right_paths),
        left_paths.len() <= 0x1_0000_0000,
        right_paths.len() <= 0x1_0000_0000,
    ensures
        postings::normalized_term(left, json_paths::counting_ids(left_paths.len()), left_paths)
            == postings::normalized_term(
            right,
            json_paths::counting_ids(right_paths.len()),
            right_paths,
        ),
{
}

pub(crate) proof fn occurrence_is_in_field_part(occurrences: Seq<(TermView, u32)>, k: int) -> (i: int)
    requires
        0 <= k < occurrences.len(),
    ensures
        0 <= i < field_part(occurrences, occurrences[k].0.field).len(),
        field_part(occurrences, occurrences[k].0.field)[i] == occurrences[k],
    decreases occurrences.len(),
{
    if k == occurrences.len() - 1 {
        field_part(occurrences, occurrences[k].0.field).len() - 1
    } else {
        occurrence_is_in_field_part(occurrences.drop_last(), k)
    }
}

/// The entries for the intermediate terms of a term are covered by those of another index.
proof fn sources_are_covered(
    raw: Seq<(TermView, Seq<u32>)>,
    indexed: DocumentIndexing,
    other_raw: Seq<(TermView, Seq<u32>)>,
    other: DocumentIndexing,
    term: TermView,
)
    requires
        postings::lists_occurrences(raw, indexed.occurrences),
        postings::lists_occurrences(other_raw, other.occurrences),
        indexed.paths.no_duplicates(),
        other.paths.no_duplicates(),
        indexed.paths.len() <= 0x1_0000_0000,
        other.paths.len() <= 0x1_0000_0000,
        renamed(
            field_part(indexed.occurrences, term.field),
            indexed.paths,
            field_part(other.occurrences, term.field),
            other.paths,
        ),
    ensures
        covered(
            source_entries(raw, indexed.paths, term),
            indexed.paths,
            source_entries(other_raw, other.paths, term),
            other.paths,
        ),
{
    term_map::ascending_is_distinct(raw);
    term_map::ascending_is_distinct(other_raw);
    source_entries_are_sources(raw, indexed.paths, term);
    source_entries_are_sources(other_raw, other.paths, term);
    let entries = source_entries(raw, indexed.paths, term);
    let others = source_entries(other_raw, other.paths, term);
    let part = field_part(indexed.occurrences, term.field);
    let other_part = field_part(other.occurrences, term.field);
    assert forall|i: int| 0 <= i < entries.len() implies has_same(
        #[trigger] entries[i],
        indexed.paths,
        others,
        other.paths,
    ) by {
        let raw_term = entries[i].0;
        assert(entries.contains(entries[i]));
        let r = raw.index_of(entries[i]);
        postings::listed_term_occurs(raw, indexed.occurrences, r);
        let k = choose|k: int|
            0 <= k < indexed.occurrences.len() && (#[trigger] indexed.occurrences[k]).0 == raw[r].0;
        assert(raw_term.field == term.field);
        let p = occurrence_is_in_field_part(indexed.occurrences, k);
        assert(part[p].0 == raw_term);
        let other_term = other_part[p].0;
        assert(same_key(raw_term, indexed.paths, other_term, other.paths));
        key_is_normalized(raw_term, indexed.paths, other_term, other.paths);
        same_positions(part, indexed.paths, other_part, other.paths, raw_term, other_term);
        positions_in_field_part(indexed.occurrences, raw_term);
        positions_in_field_part(other.occurrences, other_term);
        term_map::lookup_finds(raw, r);
        assert(term_map::lookup(raw, raw_term) == postings::listed(indexed.occurrences, raw_term));
        assert(term_map::lookup(other_raw, other_term) == postings::listed(
            other.occurrences,
            other_term,
        ));
        let o = term_map::lookup_is_listed(other_raw, other_term);
        assert(other_raw.contains(other_raw[o]));
        assert(others.contains(other_raw[o]));
        let j = others.index_of(other_raw[o]);
        assert(same_entry(entries[i], indexed.paths, others[j], other.paths));
    }
}

proof fn renaming_is_symmetric(
    left: Seq<(TermView, u32)>,
    left_paths: Seq<Seq<char>>,
    right: Seq<(TermView, u32)>,
    right_paths: Seq<Seq<char>>,
)
    requires
        renamed(left, left_paths, right, right_paths),
    ensures
        renamed(right, right_paths, left, left_paths),
{
}

/// Merging the same lists gives the same positions.
pub(crate) proof fn merged_is_unique(
    left: Seq<Seq<u32>>,
    right: Seq<Seq<u32>>,
    left_merged: Seq<u32>,
    right_merged: Seq<u32>,
)
    requires
        left.len() == right.len(),
        left.len() == 1 ==> left[0] == right[0],
        postings::all_positions(left) == postings::all_positions(right),
        postings::merges(left, left_merged),
        postings::merges(right, right_merged),
    ensures
        left_merged == right_merged,
{
    if left.len() != 1 {
        vstd::seq_lib::lemma_sorted_unique(left_merged, right_merged, not_behind());
    }
}

/// A position is not behind another one.
spec fn not_behind() -> spec_fn(u32, u32) -> bool {
    |left: u32, right: u32| left <= right
}

/// What a prepared document holds for a term does not depend on the other fields that were
/// prepared.
proof fn prepared_terms_are_the_same(
    left: PreparedDocumentView,
    left_indexed: DocumentIndexing,
    right: PreparedDocumentView,
    right_indexed: DocumentIndexing,
    term: TermView,
)
    requires
        prepared_document::holds_indexing(left, left_indexed),
        prepared_document::holds_indexing(right, right_indexed),
        left_indexed.paths.no_duplicates(),
        right_indexed.paths.no_duplicates(),
        left_indexed.paths.len() <= 0x1_0000_0000,
        right_indexed.paths.len() <= 0x1_0000_0000,
        renamed(
            field_part(left_indexed.occurrences, term.field),
            left_indexed.paths,
            field_part(right_indexed.occurrences, term.field),
            right_indexed.paths,
        ),
    ensures
        term_map::lookup(left.terms, term) == term_map::lookup(right.terms, term),
{
    let left_raw = choose|raw: Seq<(TermView, Seq<u32>)>| #[trigger]
        postings::lists_occurrences(raw, left_indexed.occurrences) && postings::normalizes(
            raw,
            json_paths::counting_ids(left_indexed.paths.len()),
            left_indexed.paths,
            left.terms,
        );
    let right_raw = choose|raw: Seq<(TermView, Seq<u32>)>| #[trigger]
        postings::lists_occurrences(raw, right_indexed.occurrences) && postings::normalizes(
            raw,
            json_paths::counting_ids(right_indexed.paths.len()),
            right_indexed.paths,
            right.terms,
        );
    sources_are_covered(left_raw, left_indexed, right_raw, right_indexed, term);
    renaming_is_symmetric(
        field_part(left_indexed.occurrences, term.field),
        left_indexed.paths,
        field_part(right_indexed.occurrences, term.field),
        right_indexed.paths,
    );
    sources_are_covered(right_raw, right_indexed, left_raw, left_indexed, term);
    term_map::ascending_is_distinct(left_raw);
    term_map::ascending_is_distinct(right_raw);
    source_entries_are_sources(left_raw, left_indexed.paths, term);
    source_entries_are_sources(right_raw, right_indexed.paths, term);
    let left_entries = source_entries(left_raw, left_indexed.paths, term);
    let right_entries = source_entries(right_raw, right_indexed.paths, term);
    covered_lists_are_the_same(
        left_entries,
        left_indexed.paths,
        right_entries,
        right_indexed.paths,
    );
    let left_found = term_map::lookup(left.terms, term);
    let right_found = term_map::lookup(right.terms, term);
    if left_found is Some && right_found is Some {
        merged_is_unique(
            position_lists(left_entries),
            position_lists(right_entries),
            left_found->0,
            right_found->0,
        );
    }
}

/// Lists in ascending order with the same entries are equal.
proof fn ascending_is_unique(
    left: Seq<(TermView, TermInfoView)>,
    right: Seq<(TermView, TermInfoView)>,
)
    requires
        single_document::ascending(left),
        single_document::ascending(right),
        forall|entry: (TermView, TermInfoView)|
            #![trigger left.contains(entry)]
            #![trigger right.contains(entry)]
            left.contains(entry) <==> right.contains(entry),
    ensures
        left == right,
    decreases left.len(),
{
    if left.len() == 0 {
        if right.len() > 0 {
            assert(right.contains(right[0]));
        }
        assert(left =~= right);
    } else {
        assert(left.contains(left.last()));
        assert(right.len() > 0);
        assert(right.contains(right.last()));
        let i = left.index_of(right.last());
        let j = right.index_of(left.last());
        assert(left.last() == right.last()) by {
            if i < left.len() - 1 && j < right.len() - 1 {
                assert(term::term_lt(left[i].0, left[left.len() - 1].0));
                assert(term::term_lt(right[j].0, right[right.len() - 1].0));
                term::term_order_is_total(left.last().0, right.last().0);
            }
        }
        let shorter_left = left.drop_last();
        let shorter_right = right.drop_last();
        assert(single_document::ascending(shorter_left)) by {
            assert forall|i: int, j: int|
                0 <= i < j < shorter_left.len() implies term::term_lt(
                (#[trigger] shorter_left[i]).0,
                (#[trigger] shorter_left[j]).0,
            ) by {
                assert(term::term_lt(left[i].0, left[j].0));
            }
        }
        assert(single_document::ascending(shorter_right)) by {
            assert forall|i: int, j: int|
                0 <= i < j < shorter_right.len() implies term::term_lt(
                (#[trigger] shorter_right[i]).0,
                (#[trigger] shorter_right[j]).0,
            ) by {
                assert(term::term_lt(right[i].0, right[j].0));
            }
        }
        assert forall|entry: (TermView, TermInfoView)|
            #![trigger shorter_left.contains(entry)]
            #![trigger shorter_right.contains(entry)]
            shorter_left.contains(entry) <==> shorter_right.contains(entry) by {
            entries_before_last(left, entry);
            entries_before_last(right, entry);
            assert(left.contains(entry) <==> right.contains(entry));
        }
        ascending_is_unique(shorter_left, shorter_right);
        assert(left =~= shorter_left.push(left.last()));
        assert(right =~= shorter_right.push(right.last()));
    }
}

proof fn entries_before_last(
    entries: Seq<(TermView, TermInfoView)>,
    entry: (TermView, TermInfoView),
)
    requires
        single_document::ascending(entries),
        entries.len() > 0,
    ensures
        entries.drop_last().contains(entry) <==> entries.contains(entry) && entry
            != entries.last(),
{
    let shorter = entries.drop_last();
    if shorter.contains(entry) {
        let i = shorter.index_of(entry);
        assert(entries[i] == entry);
        assert(term::term_lt(entries[i].0, entries[entries.len() - 1].0));
        term::term_order_is_total(entry.0, entries.last().0);
    }
    if entries.contains(entry) && entry != entries.last() {
        let i = entries.index_of(entry);
        assert(shorter[i] == entry);
    }
}

/// What a prepared document answers for a field does not depend on the other fields for which it
/// was prepared.
pub proof fn fields_are_prepared_independently(
    schema: Seq<FieldEntryView>,
    left_fields: Seq<Field>,
    right_fields: Seq<Field>,
    document: Seq<(Field, ValueView)>,
    left: PreparedDocumentView,
    right: PreparedDocumentView,
    fields: Seq<Field>,
)
    requires
        left_fields.no_duplicates(),
        right_fields.no_duplicates(),
        indexing::document_indexed(schema, left_fields, document) is Ok,
        indexing::document_indexed(schema, right_fields, document) is Ok,
        indexing::document_indexed(schema, left_fields, document)->Ok_0.paths.len()
            <= 0x1_0000_0000,
        indexing::document_indexed(schema, right_fields, document)->Ok_0.paths.len()
            <= 0x1_0000_0000,
        prepared_document::holds_indexing(
            left,
            indexing::document_indexed(schema, left_fields, document)->Ok_0,
        ),
        prepared_document::holds_indexing(
            right,
            indexing::document_indexed(schema, right_fields, document)->Ok_0,
        ),
        forall|i: int|
            0 <= i < fields.len() ==> left_fields.contains(#[trigger] fields[i])
                && right_fields.contains(fields[i]),
    ensures
        query_laws::agree_on(left.answers(), right.answers(), fields),
{
    let left_indexed = indexing::document_indexed(schema, left_fields, document)->Ok_0;
    let right_indexed = indexing::document_indexed(schema, right_fields, document)->Ok_0;
    paths_are_distinct(schema, left_fields, document);
    paths_are_distinct(schema, right_fields, document);
    assert forall|term: TermView| fields.contains(term.field) implies #[trigger] term_map::lookup(
        left.terms,
        term,
    ) == term_map::lookup(right.terms, term) by {
        assert(fields[fields.index_of(term.field)] == term.field);
        field_occurrences_are_the_same(schema, left_fields, right_fields, document, term.field);
        prepared_terms_are_the_same(left, left_indexed, right, right_indexed, term);
    }
    assert forall|field: Field, start: BoundView, end: BoundView|
        fields.contains(field) implies #[trigger] (left.answers().visited)(field, start, end) == (
    right.answers().visited)(field, start, end) by {
        let left_visited = (left.answers().visited)(field, start, end);
        let right_visited = (right.answers().visited)(field, start, end);
        listed_terms_are_ascending(left, field, start, end);
        listed_terms_are_ascending(right, field, start, end);
        assert forall|entry: (TermView, TermInfoView)|
            #![trigger left_visited.contains(entry)]
            #![trigger right_visited.contains(entry)]
            left_visited.contains(entry) <==> right_visited.contains(entry) by {
            prepared_document::listed_terms_are_those_held(
                left,
                field,
                start,
                end,
                entry.0,
                entry.1,
            );
            prepared_document::listed_terms_are_those_held(
                right,
                field,
                start,
                end,
                entry.0,
                entry.1,
            );
            if entry.0.field == field {
                assert(term_map::lookup(left.terms, entry.0) == term_map::lookup(
                    right.terms,
                    entry.0,
                ));
            }
        }
        ascending_is_unique(left_visited, right_visited);
    }
    assert forall|field: Field| fields.contains(field) implies #[trigger] (
    left.answers().fieldnorm_id)(field) == (right.answers().fieldnorm_id)(field) by {
        assert(fields[fields.index_of(field)] == field);
        token_laws::tokens_are_the_occurrences(schema, left_fields, document, field);
        token_laws::tokens_are_the_occurrences(schema, right_fields, document, field);
    }
}

proof fn listed_terms_are_ascending(
    document: PreparedDocumentView,
    field: Field,
    start: BoundView,
    end: BoundView,
)
    requires
        term_map::ascending(document.terms),
    ensures
        single_document::ascending((document.answers().visited)(field, start, end)),
{
    kept_terms_are_ascending(document.terms, prepared_document::in_range(field, start, end));
}

proof fn kept_terms_are_ascending(
    entries: Seq<(TermView, Seq<u32>)>,
    pred: spec_fn((TermView, Seq<u32>)) -> bool,
)
    requires
        term_map::ascending(entries),
    ensures
        term_map::ascending(entries.filter(pred)),
    decreases entries.len(),
{
    reveal(Seq::filter);
    if entries.len() > 0 {
        let shorter = entries.drop_last();
        assert(term_map::ascending(shorter)) by {
            assert forall|i: int, j: int| 0 <= i < j < shorter.len() implies term::term_lt(
                (#[trigger] shorter[i]).0,
                (#[trigger] shorter[j]).0,
            ) by {
                assert(term::term_lt(entries[i].0, entries[j].0));
            }
        }
        kept_terms_are_ascending(shorter, pred);
        let before = shorter.filter(pred);
        let kept = entries.filter(pred);
        assert forall|i: int, j: int| 0 <= i < j < kept.len() implies term::term_lt(
            (#[trigger] kept[i]).0,
            (#[trigger] kept[j]).0,
        ) by {
            if j < before.len() {
                assert(kept[i] == before[i] && kept[j] == before[j]);
            } else {
                assert(before.contains(before[i]));
                shorter.lemma_filter_contains_rev(pred, before[i]);
                let k = shorter.index_of(before[i]);
                assert(term::term_lt(entries[k].0, entries[entries.len() - 1].0));
            }
        }
    }
}

/// A query answers the same for a document however many fields it was prepared for, as long as the
/// fields that the query requires are among them.
pub proof fn preparing_more_fields_changes_nothing(
    schema: Seq<FieldEntryView>,
    left_fields: Seq<Field>,
    right_fields: Seq<Field>,
    document: Seq<(Field, ValueView)>,
    left: PreparedDocumentView,
    right: PreparedDocumentView,
    query: AnyQuery,
    context: ContextView,
)
    requires
        left_fields.no_duplicates(),
        right_fields.no_duplicates(),
        indexing::document_indexed(schema, left_fields, document) is Ok,
        indexing::document_indexed(schema, right_fields, document) is Ok,
        indexing::document_indexed(schema, left_fields, document)->Ok_0.paths.len()
            <= 0x1_0000_0000,
        indexing::document_indexed(schema, right_fields, document)->Ok_0.paths.len()
            <= 0x1_0000_0000,
        prepared_document::holds_indexing(
            left,
            indexing::document_indexed(schema, left_fields, document)->Ok_0,
        ),
        prepared_document::holds_indexing(
            right,
            indexing::document_indexed(schema, right_fields, document)->Ok_0,
        ),
        query_laws::valid(query),
        any_query::compilation_error(query, context) is None,
        forall|i: int|
            0 <= i < any_query::query_fields(query, context).len() ==> left_fields.contains(
                #[trigger] any_query::query_fields(query, context)[i],
            ) && right_fields.contains(any_query::query_fields(query, context)[i]),
    ensures
        any_query::query_result(query, context, left.answers()) == any_query::query_result(
            query,
            context,
            right.answers(),
        ),
{
    fields_are_prepared_independently(
        schema,
        left_fields,
        right_fields,
        document,
        left,
        right,
        any_query::query_fields(query, context),
    );
    query_laws::results_depend_on_required_fields(
        query,
        context,
        left.answers(),
        right.answers(),
    );
}

} // verus!
