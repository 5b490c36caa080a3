//! Which documents are refused, and what is told of the length of their fields.

use vstd::prelude::*;
use crate::document::ValueView;
use crate::error;
use crate::error::ErrorView;
use crate::fieldnorm;
use crate::indexing;
use crate::indexing::FieldIndexing;
use crate::prepared_document;
use crate::prepared_document::{PreparedDocumentView, PreparerView};
use crate::schema::{Field, FieldEntryView, Type};
use crate::token_laws;

verus! {

/// A document has a value for a field, be it one without contents.
pub open spec fn has_value_for(document: Seq<(Field, ValueView)>, field: Field) -> bool {
    exists|n: int| 0 <= n < document.len() && (#[trigger] document[n]).0 == field
}

/// A value does not fit a field: the field is indexed and holds neither texts nor JSON objects, and
/// the value has contents, but not of the type of the field.
pub open spec fn is_misfit(entry: FieldEntryView, value: ValueView) -> bool {
    let field_type = entry.field_type;
    &&& field_type.record_option is Some
    &&& field_type.value_type != Type::Str
    &&& field_type.value_type != Type::Json
    &&& match value {
        ValueView::Null => false,
        ValueView::Exact(typ, _) => typ != field_type.value_type,
        _ => true,
    }
}

/// A document has a value that does not fit a field.
pub open spec fn has_misfit(
    document: Seq<(Field, ValueView)>,
    field: Field,
    entry: FieldEntryView,
) -> bool {
    exists|n: int|
        0 <= n < document.len() && (#[trigger] document[n]).0 == field && is_misfit(
            entry,
            document[n].1,
        )
}

proof fn misfits_are_refused(
    field: Field,
    entry: FieldEntryView,
    state: FieldIndexing,
    document: Seq<(Field, ValueView)>,
)
    requires
        entry.field_type.record_option is Some,
    ensures
        indexing::field_values_indexed(field, entry, state, document) is Err <==> has_misfit(
            document,
            field,
            entry,
        ),
        indexing::field_values_indexed(field, entry, state, document) matches Err(error)
            ==> error is SchemaError,
    decreases document.len(),
{
    if document.len() > 0 {
        let shorter = document.drop_last();
        misfits_are_refused(field, entry, state, shorter);
        assert(document[document.len() - 1] == document.last());
        if has_misfit(shorter, field, entry) {
            let n = choose|n: int|
                0 <= n < shorter.len() && (#[trigger] shorter[n]).0 == field && is_misfit(
                    entry,
                    shorter[n].1,
                );
            assert(document[n] == shorter[n]);
        }
        if has_misfit(document, field, entry) {
            let n = choose|n: int|
                0 <= n < document.len() && (#[trigger] document[n]).0 == field && is_misfit(
                    entry,
                    document[n].1,
                );
            if n < shorter.len() {
                assert(document[n] == shorter[n]);
            }
        }
    }
}

proof fn misfits_of_fields_are_refused(
    schema: Seq<FieldEntryView>,
    fields: Seq<Field>,
    document: Seq<(Field, ValueView)>,
)
    ensures
        indexing::document_indexed(schema, fields, document) is Err <==> exists|i: int|
            0 <= i < fields.len() && has_misfit(
                document,
                #[trigger] fields[i],
                schema[fields[i].0 as int],
            ),
        indexing::document_indexed(schema, fields, document) matches Err(error)
            ==> error is SchemaError,
    decreases fields.len(),
{
    if fields.len() > 0 {
        let shorter = fields.drop_last();
        let field = fields.last();
        let entry = schema[field.0 as int];
        misfits_of_fields_are_refused(schema, shorter, document);
        assert(fields[fields.len() - 1] == field);
        if let Ok(state) = indexing::document_indexed(schema, shorter, document) {
            if entry.field_type.record_option is Some {
                misfits_are_refused(field, entry, indexing::start_of_field(state), document);
                if has_misfit(document, field, entry) {
                    let n = choose|n: int|
                        0 <= n < document.len() && (#[trigger] document[n]).0 == field
                            && is_misfit(entry, document[n].1);
                    assert(document[n].0 == field && document[n].1 !is Null);
                    assert(indexing::has_contents(document, field));
                }
            }
        } else {
            let i = choose|i: int|
                0 <= i < shorter.len() && has_misfit(
                    document,
                    #[trigger] shorter[i],
                    schema[shorter[i].0 as int],
                );
            assert(fields[i] == shorter[i]);
        }
        if exists|i: int|
            0 <= i < fields.len() && has_misfit(
                document,
                #[trigger] fields[i],
                schema[fields[i].0 as int],
            ) {
            let i = choose|i: int|
                0 <= i < fields.len() && has_misfit(
                    document,
                    #[trigger] fields[i],
                    schema[fields[i].0 as int],
                );
            if i < shorter.len() {
                assert(shorter[i] == fields[i]);
            }
        }
    }
}

proof fn missing_fields_are_refused(
    preparer: PreparerView,
    required: Seq<Field>,
    document: Seq<(Field, ValueView)>,
)
    ensures
        prepared_document::missing_error(preparer, required, document) is Some <==> exists|i: int|
            0 <= i < required.len() && !has_value_for(document, #[trigger] required[i]),
        prepared_document::missing_error(preparer, required, document) matches Some(error)
            ==> error is InvalidArgument,
    decreases required.len(),
{
    if required.len() > 0 {
        let shorter = required.drop_last();
        missing_fields_are_refused(preparer, shorter, document);
        assert(required[required.len() - 1] == required.last());
        assert(prepared_document::supplies(document, required.last()) <==> has_value_for(
            document,
            required.last(),
        )) by {
            if prepared_document::supplies(document, required.last()) {
                let n = choose|n: int|
                    0 <= n < document.len() && (#[trigger] document[n]).0 == required.last();
                assert(document[n].0 == required.last());
            }
            if has_value_for(document, required.last()) {
                let n = choose|n: int|
                    0 <= n < document.len() && (#[trigger] document[n]).0 == required.last();
                assert(document[n].0 == required.last());
            }
        }
        if exists|i: int|
            0 <= i < shorter.len() && !has_value_for(document, #[trigger] shorter[i]) {
            let i = choose|i: int|
                0 <= i < shorter.len() && !has_value_for(document, #[trigger] shorter[i]);
            assert(required[i] == shorter[i]);
        }
        if exists|i: int|
            0 <= i < required.len() && !has_value_for(document, #[trigger] required[i]) {
            let i = choose|i: int|
                0 <= i < required.len() && !has_value_for(document, #[trigger] required[i]);
            if i < shorter.len() {
                assert(required[i] == shorter[i]);
            }
        }
    }
}

/// A document is refused exactly where it has no value for a required field, be it one without
/// contents, or where one of its values does not fit a required field. A missing field is a fault of
/// the document, and a value that does not fit is one of the schema. Otherwise the document is
/// prepared for the required fields.
pub proof fn documents_are_refused_for_missing_and_misfit_values(
    preparer: PreparerView,
    document: Seq<(Field, ValueView)>,
    after: PreparerView,
    outcome: Result<PreparedDocumentView, ErrorView>,
)
    requires
        prepared_document::prepares(preparer, document, after, outcome),
    ensures
        ({
            let required = preparer.required_fields;
            let missing = exists|i: int|
                0 <= i < required.len() && !has_value_for(document, #[trigger] required[i]);
            let misfit = exists|i: int|
                0 <= i < required.len() && has_misfit(
                    document,
                    #[trigger] required[i],
                    preparer.schema[required[i].0 as int],
                );
            &&& outcome is Err <==> missing || misfit
            &&& missing ==> (outcome matches Err(error) && error is InvalidArgument)
            &&& !missing && misfit ==> (outcome matches Err(error) && error is SchemaError)
            &&& outcome matches Ok(prepared) ==> prepared.prepared_fields == required
        }),
        after == preparer,
{
    missing_fields_are_refused(preparer, preparer.required_fields, document);
    misfits_of_fields_are_refused(preparer.schema, preparer.required_fields, document);
}

/// A prepared document tells the compressed number of tokens of a field that was prepared, is
/// indexed with fieldnorms, holds no JSON objects, and has contents; of other fields it tells none.
pub proof fn prepared_fieldnorms_are_those_of_the_tokens(
    schema: Seq<FieldEntryView>,
    fields: Seq<Field>,
    document: Seq<(Field, ValueView)>,
    prepared: PreparedDocumentView,
    field: Field,
)
    requires
        fields.no_duplicates(),
        indexing::document_indexed(schema, fields, document) is Ok,
        prepared_document::holds_indexing(
            prepared,
            indexing::document_indexed(schema, fields, document)->Ok_0,
        ),
    ensures
        ({
            let field_type = schema[field.0 as int].field_type;
            let tokens = token_laws::document_tokens(field_type.value_type, document, field);
            (prepared.answers().fieldnorm_id)(field) == if fields.contains(field)
                && field_type.record_option is Some && field_type.fieldnorms
                && field_type.value_type != Type::Json && (exists|n: int|
                0 <= n < document.len() && (#[trigger] document[n]).0 == field
                    && document[n].1 !is Null) {
                Some(fieldnorm::encoded((tokens % 0x1_0000_0000) as u32))
            } else {
                None
            }
        }),
{
    token_laws::tokens_are_the_occurrences(schema, fields, document, field);
}

/// The tokens of a document are those of its values: a document with one more value has as many more
/// tokens of a field as that value has, if it is one of the field. A text has its tokens in a text
/// field, a value of another type counts as one token in a field of its own, and the values inside a
/// JSON object count as they would by themselves.
pub proof fn tokens_add_up(
    value_type: Type,
    document: Seq<(Field, ValueView)>,
    field: Field,
    added: (Field, ValueView),
)
    ensures
        token_laws::document_tokens(value_type, document.push(added), field)
            == token_laws::document_tokens(value_type, document, field) + (if added.0 == field {
            match added.1 {
                ValueView::Null => 0,
                ValueView::Text(tokens) => if value_type == Type::Str {
                    tokens.len()
                } else {
                    0
                },
                ValueView::Exact(_, _) => if value_type != Type::Str && value_type != Type::Json {
                    1nat
                } else {
                    0
                },
                ValueView::Json(leaves) => if value_type == Type::Json {
                    token_laws::leaf_tokens(leaves)
                } else {
                    0
                },
            }
        } else {
            0
        }),
        token_laws::document_tokens(value_type, Seq::empty(), field) == 0,
{
    assert(document.push(added).drop_last() =~= document);
}

/// A prepared document refuses an evaluator that reads a field for which it was not prepared, and
/// names the first such field; it refuses one that does not tell what it reads.
pub proof fn uncovered_fields_are_named(
    prepared: PreparedDocumentView,
    required: Seq<Field>,
    n: int,
)
    requires
        0 <= n < required.len(),
        forall|i: int| 0 <= i < n ==> prepared.prepared_fields.contains(#[trigger] required[i]),
        !prepared.prepared_fields.contains(required[n]),
    ensures
        (prepared.answers().validated)(Some(required)) == Err::<(), ErrorView>(
            error::field_not_prepared(required[n]),
        ),
        (prepared.answers().validated)(None) matches Err(error) && error is InvalidArgument,
{
    first_uncovered_field(prepared.prepared_fields, required, n);
}

proof fn first_uncovered_field(prepared: Seq<Field>, required: Seq<Field>, n: int)
    requires
        0 <= n < required.len(),
        forall|i: int| 0 <= i < n ==> prepared.contains(#[trigger] required[i]),
        !prepared.contains(required[n]),
    ensures
        prepared_document::first_unprepared(required, prepared) == Some(required[n]),
    decreases required.len(),
{
    let shorter = required.drop_last();
    assert forall|i: int| 0 <= i < n implies prepared.contains(#[trigger] required[i]) by {}
    if n < shorter.len() {
        assert(shorter[n] == required[n]);
        assert forall|i: int| 0 <= i < n implies prepared.contains(#[trigger] shorter[i]) by {
            assert(shorter[i] == required[i]);
        }
        first_uncovered_field(prepared, shorter, n);
    } else {
        all_fields_are_covered(prepared, shorter, required);
        assert(required.last() == required[n]);
    }
}

proof fn all_fields_are_covered(prepared: Seq<Field>, some: Seq<Field>, all: Seq<Field>)
    requires
        some.len() <= all.len(),
        forall|i: int| 0 <= i < some.len() ==> some[i] == #[trigger] all[i],
        forall|i: int| 0 <= i < some.len() ==> prepared.contains(#[trigger] all[i]),
    ensures
        prepared_document::first_unprepared(some, prepared) is None,
    decreases some.len(),
{
    if some.len() > 0 {
        let shorter = some.drop_last();
        assert forall|i: int| 0 <= i < shorter.len() implies shorter[i] == #[trigger] all[i] by {
            assert(some[i] == all[i]);
        }
        all_fields_are_covered(prepared, shorter, all);
        assert(some[some.len() - 1] == all[some.len() - 1]);
    }
}

/// A document that lacks required fields is refused for the first of them, by its name.
pub proof fn missing_fields_are_named(
    preparer: PreparerView,
    document: Seq<(Field, ValueView)>,
    after: PreparerView,
    outcome: Result<PreparedDocumentView, ErrorView>,
    n: int,
)
    requires
        prepared_document::prepares(preparer, document, after, outcome),
        0 <= n < preparer.required_fields.len(),
        forall|i: int|
            0 <= i < n ==> has_value_for(document, #[trigger] preparer.required_fields[i]),
        !has_value_for(document, preparer.required_fields[n]),
    ensures
        outcome == Err::<PreparedDocumentView, ErrorView>(
            error::field_not_supplied(
                preparer.schema[preparer.required_fields[n].0 as int].name,
            ),
        ),
{
    first_missing_field(preparer, preparer.required_fields, document, n);
}

proof fn first_missing_field(
    preparer: PreparerView,
    required: Seq<Field>,
    document: Seq<(Field, ValueView)>,
    n: int,
)
    requires
        0 <= n < required.len(),
        forall|i: int| 0 <= i < n ==> has_value_for(document, #[trigger] required[i]),
        !has_value_for(document, required[n]),
    ensures
        prepared_document::missing_error(preparer, required, document) == Some(
            error::field_not_supplied(preparer.schema[required[n].0 as int].name),
        ),
    decreases required.len(),
{
    let shorter = required.drop_last();
    missing_fields_are_refused(preparer, shorter, document);
    if n < shorter.len() {
        assert(shorter[n] == required[n]);
        assert forall|i: int| 0 <= i < n implies has_value_for(
            document,
            #[trigger] shorter[i],
        ) by {
            assert(shorter[i] == required[i]);
        }
        first_missing_field(preparer, shorter, document, n);
    } else {
        assert(required.last() == required[n]);
        assert forall|i: int| 0 <= i < shorter.len() implies has_value_for(
            document,
            #[trigger] shorter[i],
        ) by {
            assert(shorter[i] == required[i]);
        }
        if prepared_document::supplies(document, required[n]) {
            let k = choose|k: int|
                0 <= k < document.len() && (#[trigger] document[k]).0 == required[n];
            assert(document[k].0 == required[n]);
        }
    }
}

} // verus!
