//! What holds of the indexing of every document.

use vstd::prelude::*;
use crate::document::{JsonLeafView, LeafValueView, ValueView};
use crate::error::ErrorView;
use crate::indexing;
use crate::indexing::{DocumentIndexing, FieldIndexing};
use crate::json_paths;
use crate::postings;
use crate::prepared_document;
use crate::prepared_document::PreparedDocumentView;
use crate::schema::{Field, FieldEntryView, Type};
use crate::term::TermView;
use crate::term_map;
use crate::token_laws;

verus! {

/// The values with contents that a document has for a field, in their order.
pub open spec fn contents_of(document: Seq<(Field, ValueView)>, field: Field) -> Seq<ValueView>
    decreases document.len(),
{
    if document.len() == 0 {
        Seq::empty()
    } else {
        let before = contents_of(document.drop_last(), field);
        if document.last().0 == field && document.last().1 !is Null {
            before.push(document.last().1)
        } else {
            before
        }
    }
}

/// Indexes a list of values of a field.
spec fn values_indexed(
    field: Field,
    entry: FieldEntryView,
    state: FieldIndexing,
    values: Seq<ValueView>,
) -> Result<FieldIndexing, ErrorView>
    decreases values.len(),
{
    if values.len() == 0 {
        Ok(state)
    } else {
        match values_indexed(field, entry, state, values.drop_last()) {
            Err(error) => Err(error),
            Ok(state) => indexing::value_indexed(field, entry, state, values.last()),
        }
    }
}

proof fn contents_are_indexed(
    field: Field,
    entry: FieldEntryView,
    state: FieldIndexing,
    document: Seq<(Field, ValueView)>,
)
    ensures
        indexing::field_values_indexed(field, entry, state, document) == values_indexed(
            field,
            entry,
            state,
            contents_of(document, field),
        ),
        indexing::has_contents(document, field) <==> contents_of(document, field).len() > 0,
    decreases document.len(),
{
    if document.len() > 0 {
        let shorter = document.drop_last();
        let before = contents_of(shorter, field);
        contents_are_indexed(field, entry, state, shorter);
        if document.last().0 == field && document.last().1 !is Null {
            assert(before.push(document.last().1).drop_last() =~= before);
            assert(document[document.len() - 1].0 == field);
        } else if indexing::has_contents(shorter, field) {
            let i = choose|i: int|
                0 <= i < shorter.len() && (#[trigger] shorter[i]).0 == field
                    && shorter[i].1 !is Null;
            assert(document[i] == shorter[i]);
        } else if indexing::has_contents(document, field) {
            let i = choose|i: int|
                0 <= i < document.len() && (#[trigger] document[i]).0 == field
                    && document[i].1 !is Null;
            assert(document[i] == shorter[i]);
        }
    }
}

/// Indexing depends only on the values with contents of the indexed fields.
pub proof fn indexing_reads_contents_only(
    schema: Seq<FieldEntryView>,
    fields: Seq<Field>,
    left: Seq<(Field, ValueView)>,
    right: Seq<(Field, ValueView)>,
)
    requires
        forall|i: int|
            0 <= i < fields.len() ==> contents_of(left, #[trigger] fields[i]) == contents_of(
                right,
                fields[i],
            ),
    ensures
        indexing::document_indexed(schema, fields, left) == indexing::document_indexed(
            schema,
            fields,
            right,
        ),
    decreases fields.len(),
{
    if fields.len() > 0 {
        let shorter = fields.drop_last();
        assert forall|i: int| 0 <= i < shorter.len() implies contents_of(
            left,
            #[trigger] shorter[i],
        ) == contents_of(right, shorter[i]) by {
            assert(shorter[i] == fields[i]);
        }
        indexing_reads_contents_only(schema, shorter, left, right);
        if let Ok(state) = indexing::document_indexed(schema, shorter, left) {
            let field = fields.last();
            assert(field == fields[fields.len() - 1]);
            let start = indexing::start_of_field(state);
            let entry = schema[field.0 as int];
            contents_are_indexed(field, entry, start, left);
            contents_are_indexed(field, entry, start, right);
        }
    }
}

/// A value without contents leaves no trace in the index, wherever it stands in a document.
pub proof fn null_leaves_no_trace(
    schema: Seq<FieldEntryView>,
    fields: Seq<Field>,
    before: Seq<(Field, ValueView)>,
    field: Field,
    after: Seq<(Field, ValueView)>,
)
    ensures
        indexing::document_indexed(schema, fields, before.push((field, ValueView::Null)) + after)
            == indexing::document_indexed(schema, fields, before + after),
{
    let with_null = before.push((field, ValueView::Null)) + after;
    assert forall|i: int| 0 <= i < fields.len() implies contents_of(with_null, #[trigger] fields[i])
        == contents_of(before + after, fields[i]) by {
        contents_without_null(before, field, after, fields[i]);
    }
    indexing_reads_contents_only(schema, fields, with_null, before + after);
}

proof fn contents_without_null(
    before: Seq<(Field, ValueView)>,
    field: Field,
    after: Seq<(Field, ValueView)>,
    other: Field,
)
    ensures
        contents_of(before.push((field, ValueView::Null)) + after, other) == contents_of(
            before + after,
            other,
        ),
    decreases after.len(),
{
    let null = before.push((field, ValueView::Null));
    if after.len() == 0 {
        assert(null + after =~= null);
        assert(before + after =~= before);
        assert(null.drop_last() =~= before);
    } else {
        assert((null + after).drop_last() =~= null + after.drop_last());
        assert((before + after).drop_last() =~= before + after.drop_last());
        contents_without_null(before, field, after.drop_last(), other);
    }
}

/// A value of a field that is not indexed leaves no trace in the index.
pub proof fn other_fields_leave_no_trace(
    schema: Seq<FieldEntryView>,
    fields: Seq<Field>,
    before: Seq<(Field, ValueView)>,
    field: Field,
    value: ValueView,
    after: Seq<(Field, ValueView)>,
)
    requires
        !fields.contains(field),
    ensures
        indexing::document_indexed(schema, fields, before.push((field, value)) + after)
            == indexing::document_indexed(schema, fields, before + after),
{
    let with_value = before.push((field, value)) + after;
    assert forall|i: int| 0 <= i < fields.len() implies contents_of(
        with_value,
        #[trigger] fields[i],
    ) == contents_of(before + after, fields[i]) by {
        contents_without_other(before, field, value, after, fields[i]);
    }
    indexing_reads_contents_only(schema, fields, with_value, before + after);
}

proof fn contents_without_other(
    before: Seq<(Field, ValueView)>,
    field: Field,
    value: ValueView,
    after: Seq<(Field, ValueView)>,
    other: Field,
)
    requires
        field != other,
    ensures
        contents_of(before.push((field, value)) + after, other) == contents_of(
            before + after,
            other,
        ),
    decreases after.len(),
{
    let longer = before.push((field, value));
    if after.len() == 0 {
        assert(longer + after =~= longer);
        assert(before + after =~= before);
        assert(longer.drop_last() =~= before);
    } else {
        assert((longer + after).drop_last() =~= longer + after.drop_last());
        assert((before + after).drop_last() =~= before + after.drop_last());
        contents_without_other(before, field, value, after.drop_last(), other);
    }
}

/// A value inside a JSON object gives a term: the path, its end mark, the type and the value.
pub open spec fn leaf_has(leaf: JsonLeafView, term: TermView) -> bool {
    &&& term.typ == Type::Json
    &&& match leaf.value {
        LeafValueView::Text(tokens) => exists|i: int|
            0 <= i < tokens.len() && term.value == postings::json_term_value(
                leaf.path,
                seq![Type::Str.spec_code()] + vstd::utf8::encode_utf8((#[trigger] tokens[i]).text),
            ),
        LeafValueView::Exact(typ, bytes) => term.value == postings::json_term_value(
            leaf.path,
            seq![typ.spec_code()] + bytes,
        ),
    }
}

/// One of the values inside a JSON object gives a term.
pub open spec fn leaves_have(leaves: Seq<JsonLeafView>, term: TermView) -> bool {
    exists|i: int| 0 <= i < leaves.len() && leaf_has(#[trigger] leaves[i], term)
}

/// A value gives a term in a field of the given type.
pub open spec fn value_has(value_type: Type, value: ValueView, term: TermView) -> bool {
    match value {
        ValueView::Null => false,
        ValueView::Text(tokens) => value_type == Type::Str && term.typ == Type::Str && exists|
            i: int,
        |
            0 <= i < tokens.len() && term.value == vstd::utf8::encode_utf8(
                (#[trigger] tokens[i]).text,
            ),
        ValueView::Exact(typ, bytes) => value_type != Type::Str && value_type != Type::Json
            && term.typ == typ && term.value == bytes,
        ValueView::Json(leaves) => value_type == Type::Json && leaves_have(leaves, term),
    }
}

/// One of the values that a document has for the field of a term gives that term.
pub open spec fn document_has(
    value_type: Type,
    document: Seq<(Field, ValueView)>,
    term: TermView,
) -> bool {
    exists|i: int|
        0 <= i < document.len() && (#[trigger] document[i]).0 == term.field && value_has(
            value_type,
            document[i].1,
            term,
        )
}

/// One of the occurrences is of an intermediate term that `term` stands for.
spec fn occurs(occurrences: Seq<(TermView, u32)>, paths: Seq<Seq<char>>, term: TermView) -> bool {
    exists|i: int|
        0 <= i < occurrences.len() && postings::normalized_term(
            (#[trigger] occurrences[i]).0,
            json_paths::counting_ids(paths.len()),
            paths,
        ) == Ok::<TermView, ErrorView>(term)
}

proof fn occurs_in_either(
    left: Seq<(TermView, u32)>,
    right: Seq<(TermView, u32)>,
    paths: Seq<Seq<char>>,
    term: TermView,
)
    ensures
        occurs(left + right, paths, term) <==> occurs(left, paths, term) || occurs(
            right,
            paths,
            term,
        ),
{
    let ids = json_paths::counting_ids(paths.len());
    let both = left + right;
    if occurs(left, paths, term) {
        let i = choose|i: int|
            0 <= i < left.len() && postings::normalized_term((#[trigger] left[i]).0, ids, paths)
                == Ok::<TermView, ErrorView>(term);
        assert(both[i] == left[i]);
    }
    if occurs(right, paths, term) {
        let i = choose|i: int|
            0 <= i < right.len() && postings::normalized_term((#[trigger] right[i]).0, ids, paths)
                == Ok::<TermView, ErrorView>(term);
        assert(both[left.len() + i] == right[i]);
    }
    if occurs(both, paths, term) {
        let i = choose|i: int|
            0 <= i < both.len() && postings::normalized_term((#[trigger] both[i]).0, ids, paths)
                == Ok::<TermView, ErrorView>(term);
        if i < left.len() {
            assert(both[i] == left[i]);
        } else {
            assert(both[i] == right[i - left.len()]);
        }
    }
}

/// The intermediate term of a value inside a JSON object stands for the term with the path of that
/// value, however many paths are added later.
pub proof fn json_paths_are_written_out(
    field: Field,
    paths: Seq<Seq<char>>,
    path: Seq<char>,
    typ: Type,
    rest: Seq<u8>,
    all_paths: Seq<Seq<char>>,
)
    requires
        json_paths::with_path(paths, path).is_prefix_of(all_paths),
        all_paths.len() <= 0x1_0000_0000,
    ensures
        postings::normalized_term(
            (TermView {
                field,
                typ: Type::Json,
                value: indexing::json_head(paths, path, typ) + rest,
            }),
            json_paths::counting_ids(all_paths.len()),
            all_paths,
        ) == Ok::<TermView, ErrorView>(
            TermView {
                field,
                typ: Type::Json,
                value: postings::json_term_value(path, seq![typ.spec_code()] + rest),
            },
        ),
{
    let known = json_paths::with_path(paths, path);
    let value = indexing::json_head(paths, path, typ) + rest;
    let id = json_paths::first_index(paths, path);
    json_paths::first_index_is_first(paths, path);
    json_paths::id_round_trip(id as u32);
    assert(json_paths::id_of(value) == json_paths::id_of(json_paths::id_bytes(id as u32)));
    assert(known[id as int] == path);
    assert(all_paths[id as int] == known[id as int]);
    assert(value.skip(4) =~= seq![typ.spec_code()] + rest);
}

proof fn leaf_occurs(
    field: Field,
    state: FieldIndexing,
    leaf: JsonLeafView,
    all_paths: Seq<Seq<char>>,
    term: TermView,
)
    requires
        indexing::leaf_indexed(field, state, leaf).paths.is_prefix_of(all_paths),
        all_paths.len() <= 0x1_0000_0000,
    ensures
        occurs(indexing::leaf_indexed(field, state, leaf).occurrences, all_paths, term) <==> occurs(
            state.occurrences,
            all_paths,
            term,
        ) || (term.field == field && leaf_has(leaf, term)),
{
    let after = indexing::leaf_indexed(field, state, leaf);
    let ids = json_paths::counting_ids(all_paths.len());
    match leaf.value {
        LeafValueView::Text(tokens) => {
            let head = indexing::json_head(state.paths, leaf.path, Type::Str);
            let list = indexing::text_occurrences(
                field,
                Type::Json,
                head,
                state.next_at(leaf.path),
                tokens,
            );
            occurs_in_either(state.occurrences, list, all_paths, term);
            assert forall|i: int| 0 <= i < tokens.len() implies postings::normalized_term(
                (#[trigger] list[i]).0,
                ids,
                all_paths,
            ) == Ok::<TermView, ErrorView>(
                TermView {
                    field,
                    typ: Type::Json,
                    value: postings::json_term_value(
                        leaf.path,
                        seq![Type::Str.spec_code()] + vstd::utf8::encode_utf8(tokens[i].text),
                    ),
                },
            ) by {
                json_paths_are_written_out(
                    field,
                    state.paths,
                    leaf.path,
                    Type::Str,
                    vstd::utf8::encode_utf8(tokens[i].text),
                    all_paths,
                );
            }
            if term.field == field && leaf_has(leaf, term) {
                let i = choose|i: int|
                    0 <= i < tokens.len() && term.value == postings::json_term_value(
                        leaf.path,
                        seq![Type::Str.spec_code()] + vstd::utf8::encode_utf8(
                            (#[trigger] tokens[i]).text,
                        ),
                    );
                assert(list[i].0.field == field);
            }
            if occurs(list, all_paths, term) {
                let i = choose|i: int|
                    0 <= i < list.len() && postings::normalized_term(
                        (#[trigger] list[i]).0,
                        ids,
                        all_paths,
                    ) == Ok::<TermView, ErrorView>(term);
                assert(term.value == postings::json_term_value(
                    leaf.path,
                    seq![Type::Str.spec_code()] + vstd::utf8::encode_utf8(tokens[i].text),
                ));
            }
        },
        LeafValueView::Exact(typ, bytes) => {
            let raw = TermView {
                field,
                typ: Type::Json,
                value: indexing::json_head(state.paths, leaf.path, typ) + bytes,
            };
            let list = seq![(raw, 0u32)];
            assert(after.occurrences =~= state.occurrences + list);
            occurs_in_either(state.occurrences, list, all_paths, term);
            json_paths_are_written_out(field, state.paths, leaf.path, typ, bytes, all_paths);
            assert(list[0].0 == raw);
        },
    }
}

proof fn leaves_extend(field: Field, state: FieldIndexing, leaves: Seq<JsonLeafView>)
    ensures
        state.paths.is_prefix_of(indexing::leaves_indexed(field, state, leaves).paths),
    decreases leaves.len(),
{
    if leaves.len() > 0 {
        leaves_extend(field, state, leaves.drop_last());
    }
}

proof fn leaves_occur(
    field: Field,
    state: FieldIndexing,
    leaves: Seq<JsonLeafView>,
    all_paths: Seq<Seq<char>>,
    term: TermView,
)
    requires
        indexing::leaves_indexed(field, state, leaves).paths.is_prefix_of(all_paths),
        all_paths.len() <= 0x1_0000_0000,
    ensures
        occurs(indexing::leaves_indexed(field, state, leaves).occurrences, all_paths, term)
            <==> occurs(state.occurrences, all_paths, term) || (term.field == field && leaves_have(
            leaves,
            term,
        )),
    decreases leaves.len(),
{
    if leaves.len() > 0 {
        let shorter = leaves.drop_last();
        let before = indexing::leaves_indexed(field, state, shorter);
        let after = indexing::leaf_indexed(field, before, leaves.last());
        assert(before.paths.is_prefix_of(after.paths));
        leaves_occur(field, state, shorter, all_paths, term);
        leaf_occurs(field, before, leaves.last(), all_paths, term);
        if leaves_have(leaves, term) {
            let i = choose|i: int| 0 <= i < leaves.len() && leaf_has(#[trigger] leaves[i], term);
            if i < shorter.len() {
                assert(leaf_has(shorter[i], term));
            }
        }
        if leaves_have(shorter, term) {
            let i = choose|i: int| 0 <= i < shorter.len() && leaf_has(#[trigger] shorter[i], term);
            assert(leaf_has(leaves[i], term));
        }
        assert(leaves[leaves.len() - 1] == leaves.last());
    }
}

proof fn value_extends(
    field: Field,
    entry: FieldEntryView,
    state: FieldIndexing,
    value: ValueView,
)
    requires
        indexing::value_indexed(field, entry, state, value) is Ok,
    ensures
        state.paths.is_prefix_of(indexing::value_indexed(field, entry, state, value)->Ok_0.paths),
{
    if let ValueView::Json(leaves) = value {
        leaves_extend(field, state, leaves);
    }
}

proof fn value_occurs(
    field: Field,
    entry: FieldEntryView,
    state: FieldIndexing,
    value: ValueView,
    all_paths: Seq<Seq<char>>,
    term: TermView,
)
    requires
        indexing::value_indexed(field, entry, state, value) is Ok,
        indexing::value_indexed(field, entry, state, value)->Ok_0.paths.is_prefix_of(all_paths),
        all_paths.len() <= 0x1_0000_0000,
    ensures
        occurs(
            indexing::value_indexed(field, entry, state, value)->Ok_0.occurrences,
            all_paths,
            term,
        ) <==> occurs(state.occurrences, all_paths, term) || (term.field == field && value_has(
            entry.field_type.value_type,
            value,
            term,
        )),
{
    let after = indexing::value_indexed(field, entry, state, value)->Ok_0;
    let value_type = entry.field_type.value_type;
    let ids = json_paths::counting_ids(all_paths.len());
    match value {
        ValueView::Null => {},
        ValueView::Text(tokens) => {
            if value_type == Type::Str {
                let list = indexing::text_occurrences(
                    field,
                    Type::Str,
                    Seq::empty(),
                    state.next,
                    tokens,
                );
                occurs_in_either(state.occurrences, list, all_paths, term);
                assert forall|i: int| 0 <= i < tokens.len() implies (#[trigger] list[i]).0 == (
                TermView {
                    field,
                    typ: Type::Str,
                    value: vstd::utf8::encode_utf8(tokens[i].text),
                }) by {
                    assert(Seq::empty() + vstd::utf8::encode_utf8(tokens[i].text)
                        =~= vstd::utf8::encode_utf8(tokens[i].text));
                }
                if term.field == field && value_has(value_type, value, term) {
                    let i = choose|i: int|
                        0 <= i < tokens.len() && term.value == vstd::utf8::encode_utf8(
                            (#[trigger] tokens[i]).text,
                        );
                    assert(list[i].0 == term);
                }
                if occurs(list, all_paths, term) {
                    let i = choose|i: int|
                        0 <= i < list.len() && postings::normalized_term(
                            (#[trigger] list[i]).0,
                            ids,
                            all_paths,
                        ) == Ok::<TermView, ErrorView>(term);
                    assert(term.value == vstd::utf8::encode_utf8(tokens[i].text));
                }
            }
        },
        ValueView::Exact(typ, bytes) => {
            if value_type != Type::Str && value_type != Type::Json {
                let raw = TermView { field, typ, value: bytes };
                let list = seq![(raw, 0u32)];
                assert(after.occurrences =~= state.occurrences + list);
                occurs_in_either(state.occurrences, list, all_paths, term);
                assert(list[0].0 == raw);
            }
        },
        ValueView::Json(leaves) => {
            if value_type == Type::Json {
                leaves_occur(field, state, leaves, all_paths, term);
            }
        },
    }
}

proof fn values_occur(
    field: Field,
    entry: FieldEntryView,
    state: FieldIndexing,
    document: Seq<(Field, ValueView)>,
    all_paths: Seq<Seq<char>>,
    term: TermView,
)
    requires
        indexing::field_values_indexed(field, entry, state, document) is Ok,
        indexing::field_values_indexed(field, entry, state, document)->Ok_0.paths.is_prefix_of(
            all_paths,
        ),
        all_paths.len() <= 0x1_0000_0000,
    ensures
        state.paths.is_prefix_of(
            indexing::field_values_indexed(field, entry, state, document)->Ok_0.paths,
        ),
        occurs(
            indexing::field_values_indexed(field, entry, state, document)->Ok_0.occurrences,
            all_paths,
            term,
        ) <==> occurs(state.occurrences, all_paths, term) || (term.field == field && document_has(
            entry.field_type.value_type,
            document,
            term,
        )),
    decreases document.len(),
{
    if document.len() > 0 {
        let shorter = document.drop_last();
        let value_type = entry.field_type.value_type;
        let before = indexing::field_values_indexed(field, entry, state, shorter)->Ok_0;
        let value = document.last().1;
        if document.last().0 == field {
            value_extends(field, entry, before, value);
        }
        values_occur(field, entry, state, shorter, all_paths, term);
        if document.last().0 == field {
            value_occurs(field, entry, before, value, all_paths, term);
        }
        if document_has(value_type, document, term) {
            let i = choose|i: int|
                0 <= i < document.len() && (#[trigger] document[i]).0 == term.field && value_has(
                    value_type,
                    document[i].1,
                    term,
                );
            if i < shorter.len() {
                assert(shorter[i] == document[i]);
            }
        }
        if document_has(value_type, shorter, term) {
            let i = choose|i: int|
                0 <= i < shorter.len() && (#[trigger] shorter[i]).0 == term.field && value_has(
                    value_type,
                    shorter[i].1,
                    term,
                );
            assert(document[i] == shorter[i]);
        }
        assert(document[document.len() - 1] == document.last());
    }
}

/// One of the indexed values of a document gives a term.
pub open spec fn indexed_values_have(
    schema: Seq<FieldEntryView>,
    fields: Seq<Field>,
    document: Seq<(Field, ValueView)>,
    term: TermView,
) -> bool {
    let field_type = schema[term.field.0 as int].field_type;
    fields.contains(term.field) && field_type.record_option is Some && document_has(
        field_type.value_type,
        document,
        term,
    )
}

proof fn document_occurs(
    schema: Seq<FieldEntryView>,
    fields: Seq<Field>,
    document: Seq<(Field, ValueView)>,
    all_paths: Seq<Seq<char>>,
    term: TermView,
)
    requires
        indexing::document_indexed(schema, fields, document) is Ok,
        indexing::document_indexed(schema, fields, document)->Ok_0.paths.is_prefix_of(all_paths),
        all_paths.len() <= 0x1_0000_0000,
    ensures
        occurs(
            indexing::document_indexed(schema, fields, document)->Ok_0.occurrences,
            all_paths,
            term,
        ) <==> indexed_values_have(schema, fields, document, term),
    decreases fields.len(),
{
    if fields.len() > 0 {
        let shorter = fields.drop_last();
        let last = fields.last();
        let state = indexing::document_indexed(schema, shorter, document)->Ok_0;
        let entry = schema[last.0 as int];
        let value_type = entry.field_type.value_type;
        assert(fields.contains(term.field) <==> shorter.contains(term.field) || term.field
            == last) by {
            if fields.contains(term.field) {
                let i = fields.index_of(term.field);
                if i < shorter.len() {
                    assert(shorter[i] == term.field);
                }
            }
            if shorter.contains(term.field) {
                assert(fields[shorter.index_of(term.field)] == term.field);
            }
            assert(fields[fields.len() - 1] == last);
        }
        if entry.field_type.record_option is Some {
            if indexing::has_contents(document, last) {
                let start = indexing::start_of_field(state);
                values_occur(last, entry, start, document, all_paths, term);
            } else if term.field == last && document_has(value_type, document, term) {
                let i = choose|i: int|
                    0 <= i < document.len() && (#[trigger] document[i]).0 == term.field
                        && value_has(value_type, document[i].1, term);
                assert(document[i].1 is Null);
            }
        }
        document_occurs(schema, shorter, document, all_paths, term);
    }
}

proof fn sources_are_raw_terms(
    raw: Seq<(TermView, Seq<u32>)>,
    ordered_ids: Seq<u32>,
    paths: Seq<Seq<char>>,
    term: TermView,
)
    ensures
        postings::sources(raw, ordered_ids, paths, term).len() > 0 <==> exists|i: int|
            0 <= i < raw.len() && postings::normalized_term(
                (#[trigger] raw[i]).0,
                ordered_ids,
                paths,
            ) == Ok::<TermView, ErrorView>(term),
    decreases raw.len(),
{
    if raw.len() > 0 {
        let shorter = raw.drop_last();
        sources_are_raw_terms(shorter, ordered_ids, paths, term);
        if postings::sources(shorter, ordered_ids, paths, term).len() > 0 {
            let i = choose|i: int|
                0 <= i < shorter.len() && postings::normalized_term(
                    (#[trigger] shorter[i]).0,
                    ordered_ids,
                    paths,
                ) == Ok::<TermView, ErrorView>(term);
            assert(raw[i] == shorter[i]);
        }
        assert(raw[raw.len() - 1] == raw.last());
        if exists|i: int|
            0 <= i < raw.len() && postings::normalized_term(
                (#[trigger] raw[i]).0,
                ordered_ids,
                paths,
            ) == Ok::<TermView, ErrorView>(term) {
            let i = choose|i: int|
                0 <= i < raw.len() && postings::normalized_term(
                    (#[trigger] raw[i]).0,
                    ordered_ids,
                    paths,
                ) == Ok::<TermView, ErrorView>(term);
            if i < shorter.len() {
                assert(shorter[i] == raw[i]);
            }
        }
    }
}

/// The terms of a prepared document are those that the values of the indexed fields give: the
/// tokens of texts, the exact values, and the values inside JSON objects with their paths.
pub proof fn prepared_terms_are_those_of_the_values(
    schema: Seq<FieldEntryView>,
    fields: Seq<Field>,
    document: Seq<(Field, ValueView)>,
    prepared: PreparedDocumentView,
    term: TermView,
)
    requires
        indexing::document_indexed(schema, fields, document) is Ok,
        indexing::document_indexed(schema, fields, document)->Ok_0.paths.len() <= 0x1_0000_0000,
        prepared_document::holds_indexing(
            prepared,
            indexing::document_indexed(schema, fields, document)->Ok_0,
        ),
    ensures
        term_map::lookup(prepared.terms, term) is Some <==> indexed_values_have(
            schema,
            fields,
            document,
            term,
        ),
{
    let indexed = indexing::document_indexed(schema, fields, document)->Ok_0;
    let paths = indexed.paths;
    let ids = json_paths::counting_ids(paths.len());
    let raw = choose|raw: Seq<(TermView, Seq<u32>)>| #[trigger]
        postings::lists_occurrences(raw, indexed.occurrences) && postings::normalizes(
            raw,
            ids,
            paths,
            prepared.terms,
        );
    document_occurs(schema, fields, document, paths, term);
    sources_are_raw_terms(raw, ids, paths, term);
    if term_map::lookup(prepared.terms, term) is Some {
        let i = choose|i: int|
            0 <= i < raw.len() && postings::normalized_term((#[trigger] raw[i]).0, ids, paths)
                == Ok::<TermView, ErrorView>(term);
        postings::listed_term_occurs(raw, indexed.occurrences, i);
        let k = choose|k: int|
            0 <= k < indexed.occurrences.len() && (#[trigger] indexed.occurrences[k]).0
                == raw[i].0;
        assert(occurs(indexed.occurrences, paths, term));
    }
    if occurs(indexed.occurrences, paths, term) {
        let k = choose|k: int|
            0 <= k < indexed.occurrences.len() && postings::normalized_term(
                (#[trigger] indexed.occurrences[k]).0,
                ids,
                paths,
            ) == Ok::<TermView, ErrorView>(term);
        let raw_term = indexed.occurrences[k].0;
        occurrence_has_position(indexed.occurrences, k);
        assert(term_map::lookup(raw, raw_term) == postings::listed(indexed.occurrences, raw_term));
        let i = term_map::lookup_is_listed(raw, raw_term);
        assert(raw[i].0 == raw_term);
    }
}

proof fn occurrence_has_position(occurrences: Seq<(TermView, u32)>, k: int)
    requires
        0 <= k < occurrences.len(),
    ensures
        postings::positions_in(occurrences, occurrences[k].0).len() > 0,
    decreases occurrences.len(),
{
    if k < occurrences.len() - 1 {
        occurrence_has_position(occurrences.drop_last(), k);
    }
}

/// A term that is not of a JSON field has the positions at which it occurs, in their order.
pub proof fn plain_terms_keep_their_positions(
    prepared: PreparedDocumentView,
    indexed: DocumentIndexing,
    term: TermView,
)
    requires
        prepared_document::holds_indexing(prepared, indexed),
        term.typ != Type::Json,
    ensures
        term_map::lookup(prepared.terms, term) == postings::listed(indexed.occurrences, term),
{
    let paths = indexed.paths;
    let ids = json_paths::counting_ids(paths.len());
    let raw = choose|raw: Seq<(TermView, Seq<u32>)>| #[trigger]
        postings::lists_occurrences(raw, indexed.occurrences) && postings::normalizes(
            raw,
            ids,
            paths,
            prepared.terms,
        );
    term_map::ascending_is_distinct(raw);
    sources_of_plain_term(raw, ids, paths, term);
    assert(term_map::lookup(raw, term) == postings::listed(indexed.occurrences, term));
    assert(match term_map::lookup(prepared.terms, term) {
        Some(merged) => postings::sources(raw, ids, paths, term).len() > 0 && postings::merges(
            postings::sources(raw, ids, paths, term),
            merged,
        ),
        None => postings::sources(raw, ids, paths, term).len() == 0,
    });
}

proof fn sources_of_plain_term(
    raw: Seq<(TermView, Seq<u32>)>,
    ordered_ids: Seq<u32>,
    paths: Seq<Seq<char>>,
    term: TermView,
)
    requires
        term_map::distinct(raw),
        term.typ != Type::Json,
    ensures
        postings::sources(raw, ordered_ids, paths, term) == match term_map::lookup(raw, term) {
            Some(positions) => seq![positions],
            None => Seq::empty(),
        },
    decreases raw.len(),
{
    if raw.len() > 0 {
        let shorter = raw.drop_last();
        assert forall|i: int, j: int| 0 <= i < j < shorter.len() implies (#[trigger] shorter[i]).0
            != (#[trigger] shorter[j]).0 by {
            assert(raw[i].0 != raw[j].0);
        }
        sources_of_plain_term(shorter, ordered_ids, paths, term);
        if raw.last().0 == term {
            if term_map::lookup(shorter, term) is Some {
                let i = term_map::lookup_is_listed(shorter, term);
                assert(raw[i].0 != raw[raw.len() - 1].0);
            }
            assert(Seq::<Seq<u32>>::empty().push(raw.last().1) =~= seq![raw.last().1]);
        }
    }
}

/// The terms of a prepared document are terms of the fields that were prepared.
pub proof fn prepared_terms_are_of_the_fields(
    schema: Seq<FieldEntryView>,
    fields: Seq<Field>,
    document: Seq<(Field, ValueView)>,
    prepared: PreparedDocumentView,
    i: int,
)
    requires
        fields.no_duplicates(),
        indexing::document_indexed(schema, fields, document) is Ok,
        prepared_document::holds_indexing(
            prepared,
            indexing::document_indexed(schema, fields, document)->Ok_0,
        ),
        0 <= i < prepared.terms.len(),
    ensures
        fields.contains(prepared.terms[i].0.field),
{
    let indexed = indexing::document_indexed(schema, fields, document)->Ok_0;
    let term = prepared.terms[i].0;
    let ids = json_paths::counting_ids(indexed.paths.len());
    let raw = choose|raw: Seq<(TermView, Seq<u32>)>| #[trigger]
        postings::lists_occurrences(raw, indexed.occurrences) && postings::normalizes(
            raw,
            ids,
            indexed.paths,
            prepared.terms,
        );
    term_map::lookup_finds(prepared.terms, i);
    sources_are_raw_terms(raw, ids, indexed.paths, term);
    assert(postings::sources(raw, ids, indexed.paths, term).len() > 0) by {
        assert(term_map::lookup(prepared.terms, term) is Some);
    }
    let j = choose|j: int|
        0 <= j < raw.len() && postings::normalized_term((#[trigger] raw[j]).0, ids, indexed.paths)
            == Ok::<TermView, ErrorView>(term);
    postings::listed_term_occurs(raw, indexed.occurrences, j);
    let k = choose|k: int|
        0 <= k < indexed.occurrences.len() && (#[trigger] indexed.occurrences[k]).0 == raw[j].0;
    occurrence_is_counted(indexed.occurrences, k);
    token_laws::tokens_are_the_occurrences(schema, fields, document, term.field);
}

proof fn occurrence_is_counted(occurrences: Seq<(TermView, u32)>, k: int)
    requires
        0 <= k < occurrences.len(),
    ensures
        token_laws::occurrences_of_field(occurrences, occurrences[k].0.field) > 0,
    decreases occurrences.len(),
{
    if k < occurrences.len() - 1 {
        occurrence_is_counted(occurrences.drop_last(), k);
    }
}

} // verus!
