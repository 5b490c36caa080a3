//! Which term, field or number an error is about.

use vstd::prelude::*;
use crate::error;
use crate::error::ErrorView;
use crate::fields;
use crate::fuzzy_query;
use crate::fuzzy_query::{FuzzyEvaluatorView, FuzzyTermQueryView};
use crate::phrase;
use crate::phrase_prefix_evaluator::PhrasePrefixEvaluatorView;
use crate::phrase_prefix_query;
use crate::phrase_prefix_query::PhrasePrefixQueryView;
use crate::phrase_query;
use crate::phrase_query::{PhraseEvaluatorView, PhraseQuery, PhraseQueryView};
use crate::phrase_query::PhraseSingleDocumentEvaluator;
use crate::phrase_score_laws;
use crate::prepared_document;
use crate::prepared_document::PreparerView;
use crate::schema::{Field, FieldEntryView, IndexRecordOption, Type};
use crate::score::EvaluationView;
use crate::single_document::{ContextView, DocumentView, SingleDocumentEvaluator};
use crate::term;
use crate::term::TermView;
use crate::term_query;
use crate::term_query::{TermEvaluatorView, TermQueryView};

verus! {

/// A query on a field that does not exist is refused with the number of that field, and one on a
/// field that is not indexed with its name.
pub proof fn unfit_fields_are_named(
    query: TermQueryView,
    fuzzy: FuzzyTermQueryView,
    phrase: PhraseQueryView,
    prefix: PhrasePrefixQueryView,
    context: ContextView,
)
    requires
        fuzzy.term.field == query.term.field,
        phrase.field == query.term.field,
        prefix.field == query.term.field,
    ensures
        ({
            let field = query.term.field;
            let unknown = error::unknown_field(field);
            field.0 >= context.schema.len() ==> {
                &&& term_query::compiled(query, context) == Err::<TermEvaluatorView, ErrorView>(
                    unknown,
                )
                &&& fuzzy_query::compiled(fuzzy, context) == Err::<FuzzyEvaluatorView, ErrorView>(
                    unknown,
                )
                &&& phrase_query::compiled(phrase, context) == Err::<
                    PhraseEvaluatorView,
                    ErrorView,
                >(unknown)
                &&& phrase_prefix_query::compiled(prefix, context) == Err::<
                    PhrasePrefixEvaluatorView,
                    ErrorView,
                >(unknown)
            }
        }),
        ({
            let field = query.term.field;
            let entry = context.schema[field.0 as int];
            let hidden = error::not_indexed(entry.name);
            field.0 < context.schema.len() && entry.field_type.record_option is None ==> {
                &&& term_query::compiled(query, context) == Err::<TermEvaluatorView, ErrorView>(
                    hidden,
                )
                &&& fuzzy_query::compiled(fuzzy, context) == Err::<FuzzyEvaluatorView, ErrorView>(
                    hidden,
                )
                &&& phrase_query::compiled(phrase, context) == Err::<
                    PhraseEvaluatorView,
                    ErrorView,
                >(hidden)
            }
        }),
        ({
            let field = query.term.field;
            let entry = context.schema[field.0 as int];
            field.0 < context.schema.len() && entry.field_type.record_option is Some
                && entry.field_type.record_option->0 != IndexRecordOption::WithFreqsAndPositions
                ==> phrase_query::compiled(phrase, context) == Err::<
                PhraseEvaluatorView,
                ErrorView,
            >(error::no_positions_indexed(entry.name))
        }),
{
}

proof fn first_misfit_type(terms: Seq<(usize, TermView)>, value_type: Type, n: int)
    requires
        0 <= n < terms.len(),
        forall|i: int| 0 <= i < n ==> (#[trigger] terms[i]).1.typ == value_type,
        terms[n].1.typ != value_type,
    ensures
        phrase_prefix_query::type_error(terms, value_type) == Some(
            error::phrase_prefix_type(terms[n].1.typ, value_type),
        ),
    decreases terms.len(),
{
    let shorter = terms.drop_last();
    assert forall|i: int| 0 <= i < n implies (#[trigger] shorter[i]).1.typ == value_type by {
        assert(shorter[i] == terms[i]);
    }
    if n < shorter.len() {
        assert(shorter[n] == terms[n]);
        first_misfit_type(shorter, value_type, n);
    } else {
        fit_types_are_no_error(shorter, value_type);
        assert(terms.last() == terms[n]);
    }
}

proof fn fit_types_are_no_error(terms: Seq<(usize, TermView)>, value_type: Type)
    requires
        forall|i: int| 0 <= i < terms.len() ==> (#[trigger] terms[i]).1.typ == value_type,
    ensures
        phrase_prefix_query::type_error(terms, value_type) is None,
    decreases terms.len(),
{
    if terms.len() > 0 {
        let shorter = terms.drop_last();
        assert forall|i: int| 0 <= i < shorter.len() implies (#[trigger] shorter[i]).1.typ
            == value_type by {
            assert(shorter[i] == terms[i]);
        }
        fit_types_are_no_error(shorter, value_type);
        assert(terms[terms.len() - 1] == terms.last());
    }
}

/// A query for a phrase with a prefix is refused with the type of the first of its terms that does
/// not have the type of the field, the prefix being the last of them.
pub proof fn first_misfit_term_is_named(
    query: PhrasePrefixQueryView,
    context: ContextView,
    n: int,
)
    requires
        query.field.0 < context.schema.len(),
        0 <= n <= query.phrase_terms.len(),
        forall|i: int|
            0 <= i < n ==> (#[trigger] query.phrase_terms.push(query.prefix)[i]).1.typ
                == context.schema[query.field.0 as int].field_type.value_type,
        query.phrase_terms.push(query.prefix)[n].1.typ
            != context.schema[query.field.0 as int].field_type.value_type,
    ensures
        phrase_prefix_query::compiled(query, context) == Err::<
            PhrasePrefixEvaluatorView,
            ErrorView,
        >(
            error::phrase_prefix_type(
                query.phrase_terms.push(query.prefix)[n].1.typ,
                context.schema[query.field.0 as int].field_type.value_type,
            ),
        ),
{
    first_misfit_type(
        query.phrase_terms.push(query.prefix),
        context.schema[query.field.0 as int].field_type.value_type,
        n,
    );
}

proof fn first_without_positions(
    query: Seq<char>,
    terms: Seq<(usize, TermView)>,
    entry: FieldEntryView,
    n: int,
)
    requires
        0 <= n < terms.len(),
        entry.field_type.value_type == Type::Json,
        entry.field_type.record_option == Some(IndexRecordOption::WithFreqsAndPositions),
        forall|i: int|
            0 <= i < n ==> term::json_value_type((#[trigger] terms[i]).1) == Some(Type::Str),
        term::json_value_type(terms[n].1) != Some(Type::Str),
    ensures
        phrase::postings_error(
            query,
            terms,
            entry.field_type,
            IndexRecordOption::WithFreqsAndPositions,
        ) == Some(error::no_position_postings(query, terms[n].1)),
    decreases terms.len(),
{
    let shorter = terms.drop_last();
    assert forall|i: int| 0 <= i < n implies term::json_value_type((#[trigger] shorter[i]).1)
        == Some(Type::Str) by {
        assert(shorter[i] == terms[i]);
    }
    if n < shorter.len() {
        assert(shorter[n] == terms[n]);
        first_without_positions(query, shorter, entry, n);
    } else {
        texts_have_positions(query, shorter, entry);
        assert(terms.last() == terms[n]);
    }
}

proof fn texts_have_positions(
    query: Seq<char>,
    terms: Seq<(usize, TermView)>,
    entry: FieldEntryView,
)
    requires
        entry.field_type.value_type == Type::Json,
        entry.field_type.record_option == Some(IndexRecordOption::WithFreqsAndPositions),
        forall|i: int|
            0 <= i < terms.len() ==> term::json_value_type((#[trigger] terms[i]).1) == Some(
                Type::Str,
            ),
    ensures
        phrase::postings_error(
            query,
            terms,
            entry.field_type,
            IndexRecordOption::WithFreqsAndPositions,
        ) is None,
    decreases terms.len(),
{
    if terms.len() > 0 {
        let shorter = terms.drop_last();
        assert forall|i: int| 0 <= i < shorter.len() implies term::json_value_type(
            (#[trigger] shorter[i]).1,
        ) == Some(Type::Str) by {
            assert(shorter[i] == terms[i]);
        }
        texts_have_positions(query, shorter, entry);
        assert(terms[terms.len() - 1] == terms.last());
    }
}

/// A query for a phrase in a JSON field is not supported where one of its terms is not a text, and
/// the first such term is named.
pub proof fn first_term_without_positions_is_named(
    query: PhraseQueryView,
    context: ContextView,
    n: int,
)
    requires
        phrase_score_laws::indexes_positions(context.schema, query.field),
        context.schema[query.field.0 as int].field_type.value_type == Type::Json,
        0 <= n < query.phrase_terms.len(),
        forall|i: int|
            0 <= i < n ==> term::json_value_type((#[trigger] query.phrase_terms[i]).1) == Some(
                Type::Str,
            ),
        term::json_value_type(query.phrase_terms[n].1) != Some(Type::Str),
    ensures
        phrase_query::compiled(query, context) == Err::<PhraseEvaluatorView, ErrorView>(
            error::no_position_postings("PhraseQuery"@, query.phrase_terms[n].1),
        ),
{
    first_without_positions(
        "PhraseQuery"@,
        query.phrase_terms,
        context.schema[query.field.0 as int],
        n,
    );
}

/// The same holds of a query for a phrase with a prefix, of which the prefix is the last term.
pub proof fn first_prefixed_term_without_positions_is_named(
    query: PhrasePrefixQueryView,
    context: ContextView,
    n: int,
)
    requires
        phrase_score_laws::indexes_positions(context.schema, query.field),
        context.schema[query.field.0 as int].field_type.value_type == Type::Json,
        query.phrase_terms.len() > 0,
        0 <= n <= query.phrase_terms.len(),
        forall|i: int|
            0 <= i <= query.phrase_terms.len() ==> (#[trigger] query.phrase_terms.push(
                query.prefix,
            )[i]).1.typ == Type::Json,
        forall|i: int|
            0 <= i < n ==> term::json_value_type(
                (#[trigger] query.phrase_terms.push(query.prefix)[i]).1,
            ) == Some(Type::Str),
        term::json_value_type(query.phrase_terms.push(query.prefix)[n].1) != Some(Type::Str),
    ensures
        phrase_prefix_query::compiled(query, context) == Err::<
            PhrasePrefixEvaluatorView,
            ErrorView,
        >(
            error::no_position_postings(
                "PhrasePrefixQuery"@,
                query.phrase_terms.push(query.prefix)[n].1,
            ),
        ),
{
    let all = query.phrase_terms.push(query.prefix);
    fit_types_are_no_error(all, Type::Json);
    first_without_positions(
        "PhrasePrefixQuery"@,
        all,
        context.schema[query.field.0 as int],
        n,
    );
}

/// A query for a phrase refuses a document for the first of its terms whose occurrences are
/// incomplete, and tells what they lack.
pub proof fn first_unreadable_term_is_named(
    query: PhraseQuery,
    context: ContextView,
    evaluator: PhraseSingleDocumentEvaluator,
    document: DocumentView,
    n: int,
)
    requires
        query@.well_formed(),
        phrase_query::compiled(query@, context) == Ok::<PhraseEvaluatorView, ErrorView>(evaluator@),
        0 <= n < query@.phrase_terms.len(),
        forall|i: int|
            0 <= i < n ==> (document.term_info)((#[trigger] query@.phrase_terms[i]).1) is Some
                && !phrase_score_laws::cannot_be_read(
                document,
                query@.phrase_terms[i],
                query@.phrase_terms.last().0 as int,
            ),
        phrase_score_laws::cannot_be_read(
            document,
            query@.phrase_terms[n],
            query@.phrase_terms.last().0 as int,
        ),
    ensures
        ({
            let found = query@.phrase_terms[n].1;
            let info = (document.term_info)(found)->0;
            let moved = query@.phrase_terms.last().0 - query@.phrase_terms[n].0;
            let result = evaluator.result(document);
            let in_order = forall|i: int, j: int|
                0 <= i <= j < info.positions->0.len() ==> info.positions->0[i]
                    <= info.positions->0[j];
            if info.term_freq == 0 {
                result == Err::<EvaluationView, ErrorView>(error::zero_term_frequency(found))
            } else if info.positions is None {
                result == Err::<EvaluationView, ErrorView>(error::positions_missing(found))
            } else if info.positions->0.len() != info.term_freq {
                result == Err::<EvaluationView, ErrorView>(
                    error::position_count(
                        info.positions->0.len(),
                        info.term_freq as nat,
                        found,
                    ),
                )
            } else if !in_order {
                result == Err::<EvaluationView, ErrorView>(error::positions_unsorted(found))
            } else if moved > u32::MAX {
                result == Err::<EvaluationView, ErrorView>(
                    error::offset_too_large("PhraseQuery"@, found),
                )
            } else {
                result == Err::<EvaluationView, ErrorView>(
                    error::adjusted_position_too_large("PhraseQuery"@, found),
                )
            }
        }),
{
    let terms = query@.phrase_terms;
    let target = terms.last().0 as nat;
    assert forall|i: int| 0 <= i < terms.len() implies (#[trigger] terms[i]).0 <= target by {
        assert(terms[i].0 <= terms[terms.len() - 1].0);
    }
    phrase_score_laws::incomplete_occurrences_are_refused(
        "PhraseQuery"@,
        terms,
        target,
        document,
        n,
    );
}

/// A query for near terms allows distances below three. It needs a text: in a JSON field one behind
/// a path, where another type is named, and elsewhere a term of the text type.
pub proof fn unfit_fuzzy_terms_are_named(query: FuzzyTermQueryView, context: ContextView)
    requires
        query.term.field.0 < context.schema.len(),
        context.schema[query.term.field.0 as int].field_type.record_option is Some,
    ensures
        ({
            let compiled = fuzzy_query::compiled(query, context);
            &&& query.distance >= 3 ==> compiled == Err::<FuzzyEvaluatorView, ErrorView>(
                error::distance_not_allowed(query.distance as nat, 3),
            )
            &&& query.distance < 3 && query.term.typ != Type::Json && query.term.typ != Type::Str
                ==> compiled == Err::<FuzzyEvaluatorView, ErrorView>(error::fuzzy_not_text())
            &&& query.distance < 3 && query.term.typ == Type::Str && !vstd::utf8::valid_utf8(
                query.term.value,
            ) ==> compiled == Err::<FuzzyEvaluatorView, ErrorView>(error::fuzzy_not_text())
            &&& query.distance < 3 && query.term.typ == Type::Json && (term::json_value_type(
                query.term,
            ) matches Some(found) && found != Type::Str) ==> compiled == Err::<
                FuzzyEvaluatorView,
                ErrorView,
            >(error::fuzzy_json_type(term::json_value_type(query.term)->0))
            &&& query.distance < 3 && query.term.typ == Type::Json && (term::json_value_type(
                query.term,
            ) matches Some(found) ==> found == Type::Str) && !vstd::utf8::valid_utf8(
                query.term.value,
            ) ==> compiled == Err::<FuzzyEvaluatorView, ErrorView>(error::fuzzy_json_not_utf8())
        }),
{
}

proof fn first_unknown_field(list: Seq<Field>, num_fields: nat, n: int)
    requires
        0 <= n < list.len(),
        forall|i: int| 0 <= i < n ==> (#[trigger] list[i]).0 < num_fields,
        list[n].0 >= num_fields,
    ensures
        prepared_document::unknown_error(list, num_fields) == Some(error::unknown_field(list[n])),
    decreases list.len(),
{
    let shorter = list.drop_last();
    assert forall|i: int| 0 <= i < n implies (#[trigger] shorter[i]).0 < num_fields by {
        assert(shorter[i] == list[i]);
    }
    if n < shorter.len() {
        assert(shorter[n] == list[n]);
        first_unknown_field(shorter, num_fields, n);
    } else {
        known_fields_are_no_error(shorter, num_fields);
        assert(list.last() == list[n]);
    }
}

proof fn known_fields_are_no_error(list: Seq<Field>, num_fields: nat)
    requires
        forall|i: int| 0 <= i < list.len() ==> (#[trigger] list[i]).0 < num_fields,
    ensures
        prepared_document::unknown_error(list, num_fields) is None,
    decreases list.len(),
{
    if list.len() > 0 {
        let shorter = list.drop_last();
        assert forall|i: int| 0 <= i < shorter.len() implies (#[trigger] shorter[i]).0
            < num_fields by {
            assert(shorter[i] == list[i]);
        }
        known_fields_are_no_error(shorter, num_fields);
        assert(list[list.len() - 1] == list.last());
    }
}

/// An indexed field asks for a tokenizer that is not registered.
pub open spec fn lacks_its_tokenizer(
    schema: Seq<FieldEntryView>,
    tokenizers: Seq<Seq<char>>,
    field: Field,
) -> bool {
    let field_type = schema[field.0 as int].field_type;
    field_type.record_option is Some && (field_type.tokenizer matches Some(tokenizer)
        && !tokenizers.contains(tokenizer))
}

proof fn first_without_tokenizer(
    schema: Seq<FieldEntryView>,
    tokenizers: Seq<Seq<char>>,
    list: Seq<Field>,
    n: int,
)
    requires
        0 <= n < list.len(),
        forall|i: int|
            0 <= i < n ==> !lacks_its_tokenizer(schema, tokenizers, #[trigger] list[i]),
        lacks_its_tokenizer(schema, tokenizers, list[n]),
    ensures
        prepared_document::tokenizer_error(schema, tokenizers, list) == Some(
            error::tokenizer_missing(schema[list[n].0 as int].name),
        ),
    decreases list.len(),
{
    let shorter = list.drop_last();
    assert forall|i: int| 0 <= i < n implies !lacks_its_tokenizer(
        schema,
        tokenizers,
        #[trigger] shorter[i],
    ) by {
        assert(shorter[i] == list[i]);
    }
    if n < shorter.len() {
        assert(shorter[n] == list[n]);
        first_without_tokenizer(schema, tokenizers, shorter, n);
    } else {
        registered_tokenizers_are_no_error(schema, tokenizers, shorter);
        assert(list.last() == list[n]);
    }
}

proof fn registered_tokenizers_are_no_error(
    schema: Seq<FieldEntryView>,
    tokenizers: Seq<Seq<char>>,
    list: Seq<Field>,
)
    requires
        forall|i: int|
            0 <= i < list.len() ==> !lacks_its_tokenizer(schema, tokenizers, #[trigger] list[i]),
    ensures
        prepared_document::tokenizer_error(schema, tokenizers, list) is None,
    decreases list.len(),
{
    if list.len() > 0 {
        let shorter = list.drop_last();
        assert forall|i: int| 0 <= i < shorter.len() implies !lacks_its_tokenizer(
            schema,
            tokenizers,
            #[trigger] shorter[i],
        ) by {
            assert(shorter[i] == list[i]);
        }
        registered_tokenizers_are_no_error(schema, tokenizers, shorter);
        assert(list[list.len() - 1] == list.last());
    }
}

/// A preparer is refused for the required field with the lowest number among those that do not
/// exist, and, where all exist, among those that lack their tokenizer, which is told by name.
pub proof fn lowest_unfit_field_is_named(
    schema: Seq<FieldEntryView>,
    tokenizers: Seq<Seq<char>>,
    required: Seq<Field>,
    field: Field,
)
    requires
        required.contains(field),
    ensures
        ({
            let lowest_unknown = field.0 >= schema.len() && forall|i: int|
                0 <= i < required.len() && (#[trigger] required[i]).0 >= schema.len()
                    ==> required[i].0 >= field.0;
            lowest_unknown ==> prepared_document::preparer_for(schema, tokenizers, required)
                == Err::<PreparerView, ErrorView>(error::unknown_field(field))
        }),
        ({
            let all_known = forall|i: int|
                0 <= i < required.len() ==> (#[trigger] required[i]).0 < schema.len();
            let lowest_lacking = lacks_its_tokenizer(schema, tokenizers, field) && forall|i: int|
                0 <= i < required.len() && lacks_its_tokenizer(
                    schema,
                    tokenizers,
                    #[trigger] required[i],
                ) ==> required[i].0 >= field.0;
            all_known && lowest_lacking ==> prepared_document::preparer_for(
                schema,
                tokenizers,
                required,
            ) == Err::<PreparerView, ErrorView>(
                error::tokenizer_missing(schema[field.0 as int].name),
            )
        }),
{
    let set = fields::sorted_set(required);
    fields::sorted_set_is_a_set(required);
    assert(set.contains(field));
    let n = set.index_of(field);
    assert(set[n] == field);
    assert forall|i: int| 0 <= i < n implies (#[trigger] set[i]).0 < field.0 by {
        assert(set[i].0 < set[n].0);
    }
    assert forall|i: int| 0 <= i < set.len() implies required.contains(#[trigger] set[i]) by {
        assert(set.contains(set[i]));
    }
    if field.0 >= schema.len() && (forall|i: int|
        0 <= i < required.len() && (#[trigger] required[i]).0 >= schema.len() ==> required[i].0
            >= field.0) {
        assert forall|i: int| 0 <= i < n implies (#[trigger] set[i]).0 < schema.len() by {
            let k = required.index_of(set[i]);
            assert(required[k] == set[i]);
        }
        first_unknown_field(set, schema.len(), n);
    }
    if (forall|i: int| 0 <= i < required.len() ==> (#[trigger] required[i]).0 < schema.len())
        && lacks_its_tokenizer(schema, tokenizers, field) && (forall|i: int|
        0 <= i < required.len() && lacks_its_tokenizer(schema, tokenizers, #[trigger] required[i])
            ==> required[i].0 >= field.0) {
        assert forall|i: int| 0 <= i < set.len() implies (#[trigger] set[i]).0 < schema.len() by {
            let k = required.index_of(set[i]);
            assert(required[k] == set[i]);
        }
        known_fields_are_no_error(set, schema.len());
        assert forall|i: int| 0 <= i < n implies !lacks_its_tokenizer(
            schema,
            tokenizers,
            #[trigger] set[i],
        ) by {
            let k = required.index_of(set[i]);
            assert(required[k] == set[i]);
        }
        first_without_tokenizer(schema, tokenizers, set, n);
    }
}

} // verus!
