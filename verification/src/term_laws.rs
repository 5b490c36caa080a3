//! What the queries for terms match, and how they are scored, told from the query and the document
//! alone.

use vstd::prelude::*;
use crate::any_query;
use crate::any_query::AnyQuery;
use crate::error::ErrorView;
use crate::fuzzy_query;
use crate::fuzzy_query::{AutomatonWeight, FuzzyEvaluatorView, FuzzySingleDocumentEvaluator};
use crate::fuzzy_query::{FuzzyTermQuery, FuzzyTermQueryView};
use crate::levenshtein;
use crate::match_laws;
use crate::schema::{Field, FieldEntryView, IndexRecordOption, Type};
use crate::score::{EvaluationView, ScoreView};
use crate::single_document;
use crate::single_document::{BoundView, ContextView, DocumentView, SingleDocumentEvaluator};
use crate::statistics;
use crate::term;
use crate::term::TermView;
use crate::term_query;
use crate::term_query::{TermEvaluatorView, TermQuery, TermQueryView, TermSingleDocumentEvaluator};

verus! {

/// What terms of one field are scored by holds the statistics for that field and those terms, and
/// is multiplied by the accumulated boost. Without scores there is no such thing.
pub proof fn context_weight_holds_the_statistics(
    context: ContextView,
    field: Field,
    terms: Seq<TermView>,
)
    requires
        terms.len() > 0,
        forall|i: int| 0 <= i < terms.len() ==> (#[trigger] terms[i]).field == field,
    ensures
        single_document::context_weight(context, terms) is Ok <==> (context.statistics matches Some(
            statistics,
        ) ==> statistics::are_known(statistics, field, terms)),
        single_document::context_weight(context, terms) matches Ok(weight) ==> match weight {
            Some(weight) => context.statistics matches Some(statistics)
                && statistics::weighs_terms(weight, statistics, field, terms, context.boost),
            None => context.statistics is None,
        },
{
    if let Some(statistics) = context.statistics {
        statistics::weight_holds_the_statistics_of_its_terms(statistics, field, terms);
        assert(Seq::<u32>::empty() + context.boost =~= context.boost);
    }
}

/// The number of occurrences of a term counts: it is asked for, the field records it, and in a
/// JSON field the term is a text.
pub open spec fn frequency_counts(query: TermQueryView, entry: FieldEntryView) -> bool {
    &&& query.index_record_option != IndexRecordOption::Basic
    &&& entry.field_type.record_option != Some(IndexRecordOption::Basic)
    &&& entry.field_type.value_type == Type::Json ==> term::json_value_type(query.term) == Some(
        Type::Str,
    )
}

/// A query for a term can be compiled exactly where its field exists and is indexed, and, where
/// scores are computed, the statistics are known. Otherwise the schema is at fault, or it is the
/// error of the statistics.
pub proof fn term_query_needs_an_indexed_field(query: TermQueryView, context: ContextView)
    ensures
        ({
            let field = query.term.field;
            let indexed = field.0 < context.schema.len()
                && context.schema[field.0 as int].field_type.record_option is Some;
            &&& term_query::compiled(query, context) is Ok <==> indexed && (
            context.statistics matches Some(statistics) ==> statistics::are_known(
                statistics,
                field,
                seq![query.term],
            ))
            &&& !indexed ==> (term_query::compiled(query, context) matches Err(error)
                && error is SchemaError)
        }),
{
    context_weight_holds_the_statistics(context, query.term.field, seq![query.term]);
}

/// A query for a term matches exactly the documents that hold it. Without scores, the score of a
/// match is one. With scores it is that of BM25: by the statistics of the field and of the term, the
/// accumulated boost, the fieldnorm of the document where the field has fieldnorms, and the number
/// of occurrences where it counts. A document is refused where it reports a term without
/// occurrences, or lacks the fieldnorm.
pub proof fn term_query_matches_where_the_term_occurs(
    query: TermQuery,
    context: ContextView,
    evaluator: TermSingleDocumentEvaluator,
    document: DocumentView,
)
    requires
        term_query::compiled(query@, context) == Ok::<TermEvaluatorView, ErrorView>(evaluator@),
    ensures
        ({
            let field = query@.term.field;
            let entry = context.schema[field.0 as int];
            let result = evaluator.result(document);
            match (document.term_info)(query@.term) {
                None => result == Ok::<EvaluationView, ErrorView>(EvaluationView::NoMatch),
                Some(info) => if info.term_freq == 0 {
                    result matches Err(error) && error is InvalidArgument
                } else {
                    match context.statistics {
                        None => result == Ok::<EvaluationView, ErrorView>(
                            EvaluationView::Match(ScoreView::Product(Seq::empty())),
                        ),
                        Some(statistics) => if entry.field_type.fieldnorms && (
                        document.fieldnorm_id)(field) is None {
                            result matches Err(error) && error is InvalidArgument
                        } else {
                            result matches Ok(EvaluationView::Match(score)) && score matches
                                ScoreView::Bm25 { weight, fieldnorm_id, term_freq }
                                && statistics::weighs_terms(
                                weight,
                                statistics,
                                field,
                                seq![query@.term],
                                context.boost,
                            ) && fieldnorm_id == (if entry.field_type.fieldnorms {
                                (document.fieldnorm_id)(field)->0
                            } else {
                                1
                            }) && term_freq == (if frequency_counts(query@, entry) {
                                info.term_freq
                            } else {
                                1
                            })
                        },
                    }
                },
            }
        }),
        any_query::query_result(AnyQuery::Term(query), context, document) == evaluator.result(
            document,
        ),
{
    context_weight_holds_the_statistics(context, query@.term.field, seq![query@.term]);
}

/// A term has the JSON path of another one, where that one has a path.
pub open spec fn has_path_of(wanted: TermView, term: TermView) -> bool {
    term::json_parts(wanted) matches Some((path, _)) ==> (term::json_parts(term) matches Some(
        (found, _),
    ) && found == path)
}

/// A document holds a term with the field and the JSON path of the one that is looked for.
pub open spec fn holds_candidate(
    document: DocumentView,
    wanted: TermView,
    term: TermView,
) -> bool {
    (document.term_info)(term) is Some && term.field == wanted.field && has_path_of(wanted, term)
}

/// The terms of a field that a document holds are texts, and occur.
pub open spec fn holds_texts(document: DocumentView, field: Field) -> bool {
    forall|term: TermView|
        #[trigger] (document.term_info)(term) is Some && term.field == field
            ==> vstd::utf8::valid_utf8(term.value) && (document.term_info)(term)->0.term_freq > 0
}

/// The number of edits between the text that a query looks for and that of a term.
pub open spec fn edits_to(query: FuzzyTermQueryView, term: TermView) -> nat {
    levenshtein::edit_distance(
        vstd::utf8::decode_utf8(query.term.value),
        vstd::utf8::decode_utf8(term.value),
        query.transposition_cost_one,
    )
}

/// A text begins with a text that is no more edits away than the query allows.
pub open spec fn begins_within(query: FuzzyTermQueryView, term: TermView) -> bool {
    let text = vstd::utf8::decode_utf8(term.value);
    exists|n: int|
        0 <= n <= text.len() && levenshtein::edit_distance(
            vstd::utf8::decode_utf8(query.term.value),
            #[trigger] text.take(n),
            query.transposition_cost_one,
        ) <= query.distance
}

proof fn fuzzy_result_is_found(evaluator: FuzzyEvaluatorView, document: DocumentView)
    requires
        match_laws::lists_its_terms(document),
        holds_texts(document, evaluator.field),
    ensures
        fuzzy_query::fuzzy_result(evaluator, document) is Ok,
        fuzzy_query::fuzzy_result(evaluator, document)->Ok_0 is Match <==> exists|term: TermView|
            #[trigger] (document.term_info)(term) is Some && term.field == evaluator.field
                && fuzzy_query::fuzzy_match(evaluator, term),
{
    let visited = (document.visited)(evaluator.field, BoundView::Unbounded, BoundView::Unbounded);
    let pred = fuzzy_query::matching_entry(evaluator);
    let matching = visited.filter(pred);
    if matching.len() > 0 {
        assert(matching.contains(matching[0]));
        visited.lemma_filter_contains_rev(pred, matching[0]);
        let (term, info) = matching[0];
        assert(visited.contains((term, info)));
        assert((document.term_info)(term) is Some);
    }
    fuzzy_query::fuzzy_query_matches_where_a_term_does(evaluator, document);
    if exists|i: int|
        0 <= i < visited.len() && fuzzy_query::fuzzy_match(evaluator, (#[trigger] visited[i]).0) {
        let i = choose|i: int|
            0 <= i < visited.len() && fuzzy_query::fuzzy_match(
                evaluator,
                (#[trigger] visited[i]).0,
            );
        let (term, info) = visited[i];
        assert(visited.contains((term, info)));
        assert((document.term_info)(term) is Some);
    }
    if exists|term: TermView|
        #[trigger] (document.term_info)(term) is Some && term.field == evaluator.field
            && fuzzy_query::fuzzy_match(evaluator, term) {
        let term = choose|term: TermView|
            #[trigger] (document.term_info)(term) is Some && term.field == evaluator.field
                && fuzzy_query::fuzzy_match(evaluator, term);
        let info = (document.term_info)(term)->0;
        assert(visited.contains((term, info)));
        let i = visited.index_of((term, info));
        assert(fuzzy_query::fuzzy_match(evaluator, visited[i].0));
    }
}

/// A fuzzy query matches exactly the documents that hold a term of its field, and of its JSON path,
/// that is no more edits away than the query allows. A swap is one edit where the query says so.
/// The score of a match is the accumulated boost, or one where scores are not computed.
pub proof fn fuzzy_query_matches_within_its_distance(
    query: FuzzyTermQuery,
    context: ContextView,
    evaluator: FuzzySingleDocumentEvaluator,
    document: DocumentView,
)
    requires
        fuzzy_query::compiled(query@, context) == Ok::<FuzzyEvaluatorView, ErrorView>(evaluator@),
        !query@.prefix,
        match_laws::lists_its_terms(document),
        holds_texts(document, query@.term.field),
    ensures
        evaluator.result(document) is Ok,
        evaluator.result(document)->Ok_0 is Match <==> exists|term: TermView| #[trigger]
            holds_candidate(document, query@.term, term) && edits_to(query@, term)
                <= query@.distance,
        evaluator.result(document)->Ok_0 matches EvaluationView::Match(score) ==> score
            == ScoreView::Product(
            if context.statistics is Some {
                context.boost
            } else {
                Seq::empty()
            },
        ),
        any_query::query_result(AnyQuery::Fuzzy(query), context, document) == evaluator.result(
            document,
        ),
{
    let view = evaluator@;
    fuzzy_result_is_found(view, document);
    if exists|term: TermView|
        #[trigger] (document.term_info)(term) is Some && term.field == view.field
            && fuzzy_query::fuzzy_match(view, term) {
        let term = choose|term: TermView|
            #[trigger] (document.term_info)(term) is Some && term.field == view.field
                && fuzzy_query::fuzzy_match(view, term);
        assert(holds_candidate(document, query@.term, term));
    }
    if exists|term: TermView| #[trigger]
        holds_candidate(document, query@.term, term) && edits_to(query@, term)
            <= query@.distance {
        let term = choose|term: TermView| #[trigger]
            holds_candidate(document, query@.term, term) && edits_to(query@, term)
                <= query@.distance;
        assert((document.term_info)(term) is Some);
        assert(fuzzy_query::fuzzy_match(view, term));
    }
}

/// A fuzzy query for a prefix matches the documents that hold a term of its field, and of its JSON
/// path, that begins with the text of the query, or is no more edits away than the query allows. It
/// matches none in which no such term begins with a text that is.
pub proof fn fuzzy_prefix_query_matches_continued_texts(
    query: FuzzyTermQuery,
    context: ContextView,
    evaluator: FuzzySingleDocumentEvaluator,
    document: DocumentView,
)
    requires
        fuzzy_query::compiled(query@, context) == Ok::<FuzzyEvaluatorView, ErrorView>(evaluator@),
        query@.prefix,
        match_laws::lists_its_terms(document),
        holds_texts(document, query@.term.field),
    ensures
        evaluator.result(document) is Ok,
        (exists|term: TermView| #[trigger]
            holds_candidate(document, query@.term, term) && (edits_to(query@, term)
                <= query@.distance || vstd::utf8::decode_utf8(query@.term.value).is_prefix_of(
                vstd::utf8::decode_utf8(term.value),
            ))) ==> evaluator.result(document)->Ok_0 is Match,
        evaluator.result(document)->Ok_0 is Match ==> exists|term: TermView| #[trigger]
            holds_candidate(document, query@.term, term) && begins_within(query@, term),
        evaluator.result(document)->Ok_0 matches EvaluationView::Match(score) ==> score
            == ScoreView::Product(
            if context.statistics is Some {
                context.boost
            } else {
                Seq::empty()
            },
        ),
        any_query::query_result(AnyQuery::Fuzzy(query), context, document) == evaluator.result(
            document,
        ),
{
    let view = evaluator@;
    let wanted = vstd::utf8::decode_utf8(query@.term.value);
    fuzzy_result_is_found(view, document);
    if exists|term: TermView|
        #[trigger] (document.term_info)(term) is Some && term.field == view.field
            && fuzzy_query::fuzzy_match(view, term) {
        let term = choose|term: TermView|
            #[trigger] (document.term_info)(term) is Some && term.field == view.field
                && fuzzy_query::fuzzy_match(view, term);
        let text = vstd::utf8::decode_utf8(term.value);
        assert(holds_candidate(document, query@.term, term));
        if edits_to(query@, term) <= query@.distance {
            assert(text.take(text.len() as int) =~= text);
        } else if wanted.is_prefix_of(text) {
            assert(text.take(wanted.len() as int) =~= wanted);
            levenshtein::zero_edits_means_equal(wanted, wanted, query@.transposition_cost_one);
        } else {
            assert(levenshtein::some_start_within(view.pattern, text));
            let n = choose|n: int|
                0 <= n <= text.len() && levenshtein::edit_distance(
                    wanted,
                    #[trigger] text.take(n),
                    query@.transposition_cost_one,
                ) <= query@.distance;
            assert(levenshtein::edit_distance(
                wanted,
                text.take(n),
                query@.transposition_cost_one,
            ) <= query@.distance);
        }
        assert(begins_within(query@, term));
    }
    if exists|term: TermView| #[trigger]
        holds_candidate(document, query@.term, term) && (edits_to(query@, term) <= query@.distance
            || wanted.is_prefix_of(vstd::utf8::decode_utf8(term.value))) {
        let term = choose|term: TermView| #[trigger]
            holds_candidate(document, query@.term, term) && (edits_to(query@, term)
                <= query@.distance || wanted.is_prefix_of(vstd::utf8::decode_utf8(term.value)));
        assert((document.term_info)(term) is Some);
        assert(fuzzy_query::fuzzy_match(view, term));
    }
}

/// A fuzzy query looks for a text: that of a text term, or of a JSON term whose value is a text or
/// cannot be told.
pub open spec fn looks_for_text(wanted: TermView) -> bool {
    vstd::utf8::valid_utf8(wanted.value) && (wanted.typ == Type::Str || wanted.typ == Type::Json
        && (term::json_value_type(wanted) matches Some(typ) ==> typ == Type::Str))
}

/// A fuzzy query can be compiled exactly where its field exists and is indexed, it allows no more
/// than two edits, and it looks for a text.
pub proof fn fuzzy_query_allows_two_edits(query: FuzzyTermQueryView, context: ContextView)
    ensures
        ({
            let field = query.term.field;
            let indexed = field.0 < context.schema.len()
                && context.schema[field.0 as int].field_type.record_option is Some;
            let fits = query.distance <= 2 && looks_for_text(query.term);
            &&& fuzzy_query::compiled(query, context) is Ok <==> indexed && fits
            &&& !indexed ==> (fuzzy_query::compiled(query, context) matches Err(error)
                && error is SchemaError)
            &&& indexed && !fits ==> (fuzzy_query::compiled(query, context) matches Err(error)
                && error is InvalidArgument)
        }),
{
}

/// The weight of a fuzzy query is for the field and the JSON path of its term, and accepts exactly
/// the texts that are no more edits away than the query allows.
pub proof fn fuzzy_weight_accepts_texts_within_the_distance(
    query: FuzzyTermQuery,
    weight: AutomatonWeight,
    bytes: Seq<u8>,
)
    requires
        query.weight_fits(weight),
        !query@.prefix,
        vstd::utf8::valid_utf8(bytes),
    ensures
        weight.spec_field() == query@.term.field,
        weight.spec_json_path() == (match term::json_parts(query@.term) {
            Some((path, _)) => Some(path),
            None => None,
        }),
        weight.spec_automaton().matches_bytes(bytes) <==> levenshtein::edit_distance(
            vstd::utf8::decode_utf8(query@.term.value),
            vstd::utf8::decode_utf8(bytes),
            query@.transposition_cost_one,
        ) <= query@.distance,
        query@.distance <= 2,
{
}

/// The weight of a fuzzy query for a prefix accepts the texts that begin with the text of the query,
/// and those that are no more edits away than the query allows. It accepts no text of which no
/// beginning is.
pub proof fn fuzzy_prefix_weight_accepts_continued_texts(
    query: FuzzyTermQuery,
    weight: AutomatonWeight,
    bytes: Seq<u8>,
)
    requires
        query.weight_fits(weight),
        query@.prefix,
        vstd::utf8::valid_utf8(bytes),
    ensures
        weight.spec_field() == query@.term.field,
        weight.spec_json_path() == (match term::json_parts(query@.term) {
            Some((path, _)) => Some(path),
            None => None,
        }),
        ({
            let wanted = vstd::utf8::decode_utf8(query@.term.value);
            let text = vstd::utf8::decode_utf8(bytes);
            let accepted = weight.spec_automaton().matches_bytes(bytes);
            &&& wanted.is_prefix_of(text) ==> accepted
            &&& levenshtein::edit_distance(wanted, text, query@.transposition_cost_one)
                <= query@.distance ==> accepted
            &&& accepted ==> exists|n: int|
                0 <= n <= text.len() && levenshtein::edit_distance(
                    wanted,
                    #[trigger] text.take(n),
                    query@.transposition_cost_one,
                ) <= query@.distance
        }),
        query@.distance <= 2,
{
    let wanted = vstd::utf8::decode_utf8(query@.term.value);
    let text = vstd::utf8::decode_utf8(bytes);
    let pattern = fuzzy_query::fuzzy_pattern(query@)->Ok_0.0;
    assert(weight.spec_automaton().matches_bytes(bytes) == levenshtein::accepts(pattern, bytes));
    assert(text.take(text.len() as int) =~= text);
    if wanted.is_prefix_of(text) {
        assert(text.take(wanted.len() as int) =~= wanted);
        levenshtein::zero_edits_means_equal(wanted, wanted, query@.transposition_cost_one);
    } else if levenshtein::some_start_within(pattern, text) {
        let n = choose|n: int|
            0 <= n <= text.len() && levenshtein::edit_distance(
                wanted,
                #[trigger] text.take(n),
                query@.transposition_cost_one,
            ) <= query@.distance;
        assert(levenshtein::edit_distance(wanted, text.take(n), query@.transposition_cost_one)
            <= query@.distance);
    }
}

/// A fuzzy query refuses a document whose first accepted term does not occur.
pub proof fn fuzzy_query_refuses_a_term_without_occurrences(
    query: FuzzyTermQuery,
    context: ContextView,
    evaluator: FuzzySingleDocumentEvaluator,
    document: DocumentView,
    wanted: TermView,
)
    requires
        fuzzy_query::compiled(query@, context) == Ok::<FuzzyEvaluatorView, ErrorView>(evaluator@),
        !query@.prefix,
        match_laws::lists_its_terms(document),
        forall|term: TermView|
            #[trigger] (document.term_info)(term) is Some && term.field == query@.term.field
                ==> vstd::utf8::valid_utf8(term.value) && (document.term_info)(term)->0.term_freq
                == 0,
        holds_candidate(document, query@.term, wanted),
        edits_to(query@, wanted) <= query@.distance,
    ensures
        evaluator.result(document) matches Err(error) && error is InvalidArgument,
{
    let view = evaluator@;
    let visited = (document.visited)(view.field, BoundView::Unbounded, BoundView::Unbounded);
    let pred = fuzzy_query::matching_entry(view);
    let matching = visited.filter(pred);
    let info = (document.term_info)(wanted)->0;
    assert((document.term_info)(wanted) is Some);
    assert(visited.contains((wanted, info)));
    let i = visited.index_of((wanted, info));
    assert(pred(visited[i]));
    visited.lemma_filter_contains(pred, i);
    assert(matching.len() > 0);
    assert(matching.contains(matching[0]));
    visited.lemma_filter_contains_rev(pred, matching[0]);
    let (term, found) = matching[0];
    assert(visited.contains((term, found)));
    assert((document.term_info)(term) is Some);
}

} // verus!
