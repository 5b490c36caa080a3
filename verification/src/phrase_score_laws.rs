//! How phrases are scored, which of them can be compiled, and which documents they refuse.

use vstd::prelude::*;
use vstd::multiset::Multiset;
use crate::error;
use crate::error::ErrorView;
use crate::match_laws;
use crate::phrase;
use crate::phrase_laws;
use crate::phrase_prefix_evaluator;
use crate::phrase_prefix_evaluator::PhrasePrefixEvaluatorView;
use crate::phrase_prefix_evaluator::PhrasePrefixSingleDocumentEvaluator;
use crate::phrase_prefix_query;
use crate::phrase_prefix_query::{PhrasePrefixQuery, PhrasePrefixQueryView};
use crate::phrase_query;
use crate::phrase_query::{PhraseEvaluatorView, PhraseQuery, PhraseQueryView};
use crate::phrase_query::PhraseSingleDocumentEvaluator;
use crate::positions;
use crate::schema::{Field, FieldEntryView, IndexRecordOption, Type};
use crate::score::{EvaluationView, ScoreView};
use crate::single_document;
use crate::single_document::{ContextView, DocumentView, SingleDocumentEvaluator, TermInfoView};
use crate::statistics;
use crate::term;
use crate::term::TermView;
use crate::term_laws;

verus! {

/// A term that a document holds occurs no more than once at a position.
pub open spec fn occurs_once_at_each_position(document: DocumentView, term: TermView) -> bool {
    (document.term_info)(term) matches Some(info) && info.positions matches Some(positions)
        ==> forall|i: int, j: int| 0 <= i < j < positions.len() ==> positions[i] < positions[j]
}

/// The positions of a document that stand at the offset `target` of an occurrence of a phrase.
pub open spec fn places(
    document: DocumentView,
    terms: Seq<(usize, TermView)>,
    target: int,
) -> Set<u32> {
    Set::new(|position: u32| match_laws::stands_from(document, terms, position - target))
}

proof fn single_counts_are_the_members(multiset: Multiset<u32>)
    requires
        forall|v: u32| #[trigger] multiset.count(v) <= 1,
    ensures
        multiset.dom().finite(),
        multiset.len() == multiset.dom().len(),
    decreases multiset.len(),
{
    broadcast use vstd::multiset::group_multiset_axioms;

    if multiset.len() == 0 {
        assert(multiset.dom() =~= Set::empty()) by {
            assert forall|v: u32| !multiset.dom().contains(v) by {
                assert(multiset.count(v) <= multiset.len());
            }
        }
    } else {
        let v = multiset.choose();
        assert(multiset.count(v) > 0);
        let rest = multiset.remove(v);
        assert forall|w: u32| #[trigger] rest.count(w) <= 1 by {
            assert(multiset.count(w) <= 1);
        }
        assert(rest.len() == multiset.len() - 1);
        single_counts_are_the_members(rest);
        assert(rest.dom() =~= multiset.dom().remove(v)) by {
            assert forall|w: u32|
                rest.dom().contains(w) <==> #[trigger] multiset.dom().remove(v).contains(w) by {
                assert(multiset.count(w) <= 1);
                if w == v {
                    assert(rest.count(v) == 0);
                } else {
                    assert(rest.count(w) == multiset.count(w));
                }
            }
        }
    }
}

proof fn shared_positions_are_of_the_first_list(lists: Seq<Seq<u32>>, v: u32)
    requires
        lists.len() > 0,
    ensures
        positions::shared_by_all(lists).count(v) <= lists[0].to_multiset().count(v),
    decreases lists.len(),
{
    broadcast use vstd::multiset::lemma_intersection_count;

    if lists.len() > 1 {
        let shorter = lists.drop_last();
        assert(shorter[0] == lists[0]);
        shared_positions_are_of_the_first_list(shorter, v);
    }
}

proof fn first_list_is_of_the_first_term(
    query: Seq<char>,
    terms: Seq<(usize, TermView)>,
    target: nat,
    document: DocumentView,
)
    requires
        terms.len() > 0,
        phrase::fixed_positions(query, terms, target, document) matches Ok(Some(_)),
    ensures
        ({
            let lists = phrase::fixed_positions(query, terms, target, document)->Ok_0->0;
            let info = (document.term_info)(terms[0].1)->0;
            &&& lists.len() > 0
            &&& (document.term_info)(terms[0].1) is Some
            &&& phrase::checked_positions(
                query,
                terms[0].1,
                info,
                (target - terms[0].0) as nat,
            ) == Ok::<Seq<u32>, ErrorView>(lists[0])
        }),
    decreases terms.len(),
{
    let shorter = terms.drop_last();
    if shorter.len() > 0 {
        assert(shorter[0] == terms[0]);
        first_list_is_of_the_first_term(query, shorter, target, document);
    } else {
        assert(phrase::fixed_positions(query, shorter, target, document) == Ok::<
            Option<Seq<Seq<u32>>>,
            ErrorView,
        >(Some(Seq::empty())));
        assert(terms.last() == terms[0]);
    }
}

/// The number of common positions is the number of places.
proof fn common_positions_are_the_places(
    query: Seq<char>,
    terms: Seq<(usize, TermView)>,
    target: nat,
    document: DocumentView,
)
    requires
        terms.len() > 0,
        forall|i: int| 0 <= i < terms.len() ==> (#[trigger] terms[i]).0 <= target,
        phrase::fixed_positions(query, terms, target, document) matches Ok(Some(_)),
        occurs_once_at_each_position(document, terms[0].1),
    ensures
        ({
            let lists = phrase::fixed_positions(query, terms, target, document)->Ok_0->0;
            &&& positions::shared_by_all(lists).len() == places(
                document,
                terms,
                target as int,
            ).len()
            &&& positions::shared_by_all(lists).len() <= u32::MAX
        }),
{
    broadcast use vstd::seq_lib::group_to_multiset_ensures;

    let lists = phrase::fixed_positions(query, terms, target, document)->Ok_0->0;
    let common = positions::shared_by_all(lists);
    first_list_is_of_the_first_term(query, terms, target, document);
    let info = (document.term_info)(terms[0].1)->0;
    let read = info.positions->0;
    let first = lists[0];
    assert forall|i: int, j: int| 0 <= i < first.len() && 0 <= j < first.len() && i != j implies
        first[i] != first[j] by {
        assert(read[i] <= read.last() && read[j] <= read.last());
        if i < j {
            assert(read[i] < read[j]);
        } else {
            assert(read[j] < read[i]);
        }
    }
    assert(first.no_duplicates());
    first.lemma_multiset_has_no_duplicates();
    assert forall|v: u32| #[trigger] common.count(v) <= 1 by {
        shared_positions_are_of_the_first_list(lists, v);
        if first.to_multiset().count(v) > 0 {
            assert(first.to_multiset().contains(v));
        }
    }
    single_counts_are_the_members(common);
    assert(common.dom() =~= places(document, terms, target as int)) by {
        assert forall|v: u32|
            common.dom().contains(v) <==> #[trigger] places(
                document,
                terms,
                target as int,
            ).contains(v) by {
            phrase_laws::common_positions(query, terms, target, document, v);
            match_laws::standing_from_is_standing_at(document, terms, target, v as int);
        }
    }
    assert(common.len() <= first.to_multiset().len()) by {
        shared_is_no_longer_than_the_first_list(lists);
    }
    assert(first.to_multiset().len() == first.len());
}

proof fn shared_is_no_longer_than_the_first_list(lists: Seq<Seq<u32>>)
    requires
        lists.len() > 0,
    ensures
        positions::shared_by_all(lists).len() <= lists[0].to_multiset().len(),
{
    broadcast use vstd::multiset::group_multiset_axioms;

    let common = positions::shared_by_all(lists);
    let first = lists[0].to_multiset();
    assert forall|v: u32| #[trigger] common.count(v) <= first.count(v) by {
        shared_positions_are_of_the_first_list(lists, v);
    }
    assert(common.subset_of(first));
    assert(first.sub(common).add(common) =~= first);
}

/// The score of a phrase in a document. Without scores it is one. With scores it is that of BM25: by
/// the statistics of the field and of each of the terms, the accumulated boost, the fieldnorm of the
/// document where the field has fieldnorms, and the number of occurrences of the phrase.
pub open spec fn is_phrase_score(
    score: ScoreView,
    context: ContextView,
    document: DocumentView,
    field: Field,
    terms: Seq<(usize, TermView)>,
    count: nat,
) -> bool {
    let entry = context.schema[field.0 as int];
    match context.statistics {
        None => score == ScoreView::Product(Seq::empty()),
        Some(statistics) => score matches ScoreView::Bm25 { weight, fieldnorm_id, term_freq }
            && statistics::weighs_terms(
            weight,
            statistics,
            field,
            Seq::new(terms.len(), |i: int| terms[i].1),
            context.boost,
        ) && term_freq == count && fieldnorm_id == (if entry.field_type.fieldnorms {
            (document.fieldnorm_id)(field)->0
        } else {
            1
        }),
    }
}

proof fn weight_of_phrase(
    context: ContextView,
    field: Field,
    terms: Seq<(usize, TermView)>,
)
    requires
        terms.len() > 0,
        forall|i: int| 0 <= i < terms.len() ==> (#[trigger] terms[i]).1.field == field,
    ensures
        ({
            let all = Seq::new(terms.len(), |i: int| terms[i].1);
            &&& single_document::context_weight(context, phrase::terms_of(terms)) is Ok <==> (
            context.statistics matches Some(statistics) ==> statistics::are_known(
                statistics,
                field,
                all,
            ))
            &&& single_document::context_weight(context, phrase::terms_of(terms)) matches Ok(weight)
                ==> match weight {
                Some(weight) => context.statistics matches Some(statistics)
                    && statistics::weighs_terms(weight, statistics, field, all, context.boost),
                None => context.statistics is None,
            }
        }),
{
    let all = Seq::new(terms.len(), |i: int| terms[i].1);
    assert(phrase::terms_of(terms) =~= all);
    term_laws::context_weight_holds_the_statistics(context, field, all);
}

/// A phrase is scored by the number of its occurrences in the document.
pub proof fn phrase_query_is_scored_by_its_occurrences(
    query: PhraseQuery,
    context: ContextView,
    evaluator: PhraseSingleDocumentEvaluator,
    document: DocumentView,
    score: ScoreView,
)
    requires
        query@.well_formed(),
        phrase_query::compiled(query@, context) == Ok::<PhraseEvaluatorView, ErrorView>(evaluator@),
        evaluator.result(document) == Ok::<EvaluationView, ErrorView>(EvaluationView::Match(score)),
        occurs_once_at_each_position(document, query@.phrase_terms[0].1),
    ensures
        is_phrase_score(
            score,
            context,
            document,
            query@.field,
            query@.phrase_terms,
            places(
                document,
                query@.phrase_terms,
                query@.phrase_terms[query@.phrase_terms.len() - 1].0 as int,
            ).len(),
        ),
{
    let terms = query@.phrase_terms;
    let target = terms.last().0 as nat;
    assert forall|i: int| 0 <= i < terms.len() implies (#[trigger] terms[i]).0 <= target by {
        assert(terms[i].0 <= terms[terms.len() - 1].0);
    }
    assert(evaluator@.phrase_terms == terms);
    weight_of_phrase(context, query@.field, terms);
    common_positions_are_the_places("PhraseQuery"@, terms, target, document);
}

/// A phrase with a prefix is scored by its fixed terms: where there are several, as the phrase of
/// these, by the number of places behind them. Where there is one, the score is one. Where there is
/// none, it is the accumulated boost, or one where scores are not computed.
pub proof fn phrase_prefix_query_is_scored_by_its_fixed_terms(
    query: PhrasePrefixQuery,
    context: ContextView,
    evaluator: PhrasePrefixSingleDocumentEvaluator,
    document: DocumentView,
    score: ScoreView,
)
    requires
        query@.well_formed(),
        phrase_prefix_query::compiled(query@, context) == Ok::<
            PhrasePrefixEvaluatorView,
            ErrorView,
        >(evaluator@),
        evaluator.result(document) == Ok::<EvaluationView, ErrorView>(EvaluationView::Match(score)),
        query@.phrase_terms.len() > 0 ==> occurs_once_at_each_position(
            document,
            query@.phrase_terms[0].1,
        ),
    ensures
        query@.phrase_terms.len() > 1 ==> is_phrase_score(
            score,
            context,
            document,
            query@.field,
            query@.phrase_terms,
            places(
                document,
                query@.phrase_terms,
                query@.phrase_terms[query@.phrase_terms.len() - 1].0 + 1,
            ).len(),
        ),
        query@.phrase_terms.len() == 1 ==> score == ScoreView::Product(Seq::empty()),
        query@.phrase_terms.len() == 0 ==> score == ScoreView::Product(
            if context.statistics is Some {
                context.boost
            } else {
                Seq::empty()
            },
        ),
{
    let terms = query@.phrase_terms;
    let all = query@.terms();
    if terms.len() > 1 {
        let target = (terms.last().0 + 1) as nat;
        assert forall|i: int| 0 <= i < terms.len() implies (#[trigger] terms[i]).0 <= target by {
            assert(all[i].0 <= all[terms.len() - 1].0);
        }
        assert forall|i: int| 0 <= i < terms.len() implies (#[trigger] terms[i]).1.field
            == query@.field by {
            assert(all[i] == terms[i]);
        }
        weight_of_phrase(context, query@.field, terms);
        common_positions_are_the_places("PhrasePrefixQuery"@, terms, target, document);
    }
}

/// The terms of a phrase have positions in the postings of their field: in a JSON field, texts do.
pub open spec fn have_positions(terms: Seq<(usize, TermView)>, entry: FieldEntryView) -> bool {
    entry.field_type.value_type == Type::Json ==> forall|i: int|
        0 <= i < terms.len() ==> term::json_value_type((#[trigger] terms[i]).1) == Some(Type::Str)
}

proof fn postings_are_those_of_texts(
    query: Seq<char>,
    terms: Seq<(usize, TermView)>,
    entry: FieldEntryView,
)
    ensures
        phrase::postings_error(
            query,
            terms,
            entry.field_type,
            IndexRecordOption::WithFreqsAndPositions,
        ) is None <==> have_positions(terms, entry),
        phrase::postings_error(
            query,
            terms,
            entry.field_type,
            IndexRecordOption::WithFreqsAndPositions,
        ) matches Some(error) ==> error is UnsupportedQueryForSingleDocumentEvaluation,
    decreases terms.len(),
{
    if terms.len() > 0 {
        let shorter = terms.drop_last();
        postings_are_those_of_texts(query, shorter, entry);
        assert(terms[terms.len() - 1] == terms.last());
        if have_positions(shorter, entry) && (entry.field_type.value_type == Type::Json
            ==> term::json_value_type(terms.last().1) == Some(Type::Str)) {
            if entry.field_type.value_type == Type::Json {
                assert forall|i: int| 0 <= i < terms.len() implies term::json_value_type(
                    (#[trigger] terms[i]).1,
                ) == Some(Type::Str) by {
                    if i < shorter.len() {
                        assert(shorter[i] == terms[i]);
                    }
                }
            }
        }
        if have_positions(terms, entry) && entry.field_type.value_type == Type::Json {
            assert forall|i: int| 0 <= i < shorter.len() implies term::json_value_type(
                (#[trigger] shorter[i]).1,
            ) == Some(Type::Str) by {
                assert(shorter[i] == terms[i]);
            }
        }
    }
}

/// A field exists and is indexed with positions.
pub open spec fn indexes_positions(schema: Seq<FieldEntryView>, field: Field) -> bool {
    field.0 < schema.len() && schema[field.0 as int].field_type.record_option == Some(
        IndexRecordOption::WithFreqsAndPositions,
    )
}

/// A query for a phrase can be compiled exactly where its field exists and is indexed with
/// positions, its terms have positions there, and, where scores are computed, the statistics are
/// known. A field without positions is an error of the schema, and a term without them is not
/// supported.
pub proof fn phrase_query_needs_positions(query: PhraseQueryView, context: ContextView)
    requires
        query.well_formed(),
    ensures
        ({
            let entry = context.schema[query.field.0 as int];
            let terms = query.phrase_terms;
            let known = context.statistics matches Some(statistics) ==> statistics::are_known(
                statistics,
                query.field,
                Seq::new(terms.len(), |i: int| terms[i].1),
            );
            let compiled = phrase_query::compiled(query, context);
            &&& compiled is Ok <==> indexes_positions(context.schema, query.field)
                && have_positions(terms, entry) && known
            &&& !indexes_positions(context.schema, query.field) ==> (compiled matches Err(error)
                && error is SchemaError)
            &&& indexes_positions(context.schema, query.field) && !have_positions(terms, entry)
                ==> (compiled matches Err(error)
                && error is UnsupportedQueryForSingleDocumentEvaluation)
        }),
{
    let entry = context.schema[query.field.0 as int];
    postings_are_those_of_texts("PhraseQuery"@, query.phrase_terms, entry);
    weight_of_phrase(context, query.field, query.phrase_terms);
}

proof fn types_are_those_of_the_terms(terms: Seq<(usize, TermView)>, value_type: Type)
    ensures
        phrase_prefix_query::type_error(terms, value_type) is None <==> forall|i: int|
            0 <= i < terms.len() ==> (#[trigger] terms[i]).1.typ == value_type,
        phrase_prefix_query::type_error(terms, value_type) matches Some(error)
            ==> error is SchemaError,
    decreases terms.len(),
{
    if terms.len() > 0 {
        let shorter = terms.drop_last();
        types_are_those_of_the_terms(shorter, value_type);
        assert(terms[terms.len() - 1] == terms.last());
        if phrase_prefix_query::type_error(shorter, value_type) is None {
            assert forall|i: int| 0 <= i < shorter.len() implies (#[trigger] terms[i]).1.typ
                == value_type by {
                assert(shorter[i] == terms[i]);
            }
        } else {
            let i = choose|i: int|
                0 <= i < shorter.len() && (#[trigger] shorter[i]).1.typ != value_type;
            assert(terms[i].1.typ != value_type);
        }
    }
}

/// A query for a phrase with a prefix can be compiled exactly where its field exists and is indexed,
/// and its terms have the type of the field. With fixed terms the field needs positions, and so do
/// the terms, and the place behind several fixed terms has to fit. Where scores are computed, the
/// statistics of several fixed terms have to be known.
pub proof fn phrase_prefix_query_needs_positions_behind_fixed_terms(
    query: PhrasePrefixQueryView,
    context: ContextView,
)
    requires
        query.well_formed(),
    ensures
        ({
            let entry = context.schema[query.field.0 as int];
            let terms = query.phrase_terms;
            let all = terms.push(query.prefix);
            let typed = query.field.0 < context.schema.len() && forall|i: int|
                0 <= i < all.len() ==> (#[trigger] all[i]).1.typ == entry.field_type.value_type;
            let known = context.statistics matches Some(statistics) ==> statistics::are_known(
                statistics,
                query.field,
                Seq::new(terms.len(), |i: int| terms[i].1),
            );
            let compiled = phrase_prefix_query::compiled(query, context);
            &&& compiled is Ok <==> typed && (if terms.len() == 0 {
                entry.field_type.record_option is Some
            } else {
                indexes_positions(context.schema, query.field) && have_positions(all, entry) && (
                terms.len() > 1 ==> known && terms[terms.len() - 1].0 < usize::MAX)
            })
            &&& !typed ==> (compiled matches Err(error) && error is SchemaError)
            &&& typed && terms.len() > 0 && !indexes_positions(context.schema, query.field) ==> (
            compiled matches Err(error) && error is SchemaError)
        }),
{
    let entry = context.schema[query.field.0 as int];
    let terms = query.phrase_terms;
    let all = query.terms();
    assert(all[terms.len() as int] == query.prefix);
    assert(query.prefix.1.field == query.field);
    types_are_those_of_the_terms(all, entry.field_type.value_type);
    postings_are_those_of_texts("PhrasePrefixQuery"@, all, entry);
    if terms.len() > 0 {
        assert forall|i: int| 0 <= i < terms.len() implies (#[trigger] terms[i]).1.field
            == query.field by {
            assert(all[i] == terms[i]);
        }
        weight_of_phrase(context, query.field, terms);
    }
}

/// The occurrences of a term of a phrase are incomplete, or cannot be moved to the offset `target`.
pub open spec fn cannot_be_read(
    document: DocumentView,
    entry: (usize, TermView),
    target: int,
) -> bool {
    (document.term_info)(entry.1) matches Some(info) && !(match_laws::is_sound(info)
        && info.positions->0.last() + (target - entry.0) <= u32::MAX)
}

pub(crate) proof fn incomplete_occurrences_are_refused(
    query: Seq<char>,
    terms: Seq<(usize, TermView)>,
    target: nat,
    document: DocumentView,
    n: int,
)
    requires
        0 <= n < terms.len(),
        forall|i: int| 0 <= i < terms.len() ==> (#[trigger] terms[i]).0 <= target,
        forall|i: int|
            0 <= i < n ==> (document.term_info)((#[trigger] terms[i]).1) is Some
                && !cannot_be_read(document, terms[i], target as int),
        cannot_be_read(document, terms[n], target as int),
    ensures
        phrase::fixed_positions(query, terms, target, document) matches Err(error)
            && error is InvalidArgument && phrase::checked_positions(
            query,
            terms[n].1,
            (document.term_info)(terms[n].1)->0,
            (target - terms[n].0) as nat,
        ) == Err::<Seq<u32>, ErrorView>(error),
    decreases terms.len(),
{
    let shorter = terms.drop_last();
    assert forall|i: int| 0 <= i < shorter.len() implies (#[trigger] shorter[i]).0 <= target by {
        assert(shorter[i] == terms[i]);
    }
    if n < shorter.len() {
        assert forall|i: int| 0 <= i < n implies (document.term_info)(
            (#[trigger] shorter[i]).1,
        ) is Some && !cannot_be_read(document, shorter[i], target as int) by {
            assert(shorter[i] == terms[i]);
        }
        incomplete_occurrences_are_refused(query, shorter, target, document, n);
    } else {
        assert(match_laws::is_readable(document, shorter, target as int)) by {
            assert forall|i: int| 0 <= i < shorter.len() implies ((document.term_info)(
                (#[trigger] shorter[i]).1,
            ) matches Some(info) ==> match_laws::is_sound(info) && info.positions->0.last() + (
            target - shorter[i].0) <= u32::MAX) by {
                assert(shorter[i] == terms[i]);
                assert(!cannot_be_read(document, terms[i], target as int));
            }
        }
        match_laws::readable_positions_are_read(query, shorter, target, document);
        all_terms_are_found(query, shorter, target, document);
        let info = (document.term_info)(terms[n].1)->0;
        if info.positions is Some && info.positions->0.len() == info.term_freq && info.term_freq
            > 0 && positions::sorted(info.positions->0) {
            assert(match_laws::is_sound(info));
        }
    }
}

proof fn all_terms_are_found(
    query: Seq<char>,
    terms: Seq<(usize, TermView)>,
    target: nat,
    document: DocumentView,
)
    requires
        phrase::fixed_positions(query, terms, target, document) is Ok,
        forall|i: int|
            0 <= i < terms.len() ==> (document.term_info)((#[trigger] terms[i]).1) is Some,
    ensures
        phrase::fixed_positions(query, terms, target, document) matches Ok(Some(_)),
    decreases terms.len(),
{
    if terms.len() > 0 {
        let shorter = terms.drop_last();
        assert forall|i: int| 0 <= i < shorter.len() implies (document.term_info)(
            (#[trigger] shorter[i]).1,
        ) is Some by {
            assert(shorter[i] == terms[i]);
        }
        all_terms_are_found(query, shorter, target, document);
        assert(terms[terms.len() - 1] == terms.last());
    }
}

/// A query for a phrase refuses a document with incomplete occurrences of one of its terms: without
/// an occurrence, without positions, with another number of them than occurrences, out of order, or
/// too large to be moved. A term that the document does not hold ends the search before that.
pub proof fn phrase_query_refuses_incomplete_occurrences(
    query: PhraseQuery,
    context: ContextView,
    evaluator: PhraseSingleDocumentEvaluator,
    document: DocumentView,
    n: int,
)
    requires
        query@.well_formed(),
        phrase_query::compiled(query@, context) == Ok::<PhraseEvaluatorView, ErrorView>(evaluator@),
        0 <= n < query@.phrase_terms.len(),
        forall|i: int|
            0 <= i < n ==> (document.term_info)((#[trigger] query@.phrase_terms[i]).1) is Some
                && !cannot_be_read(
                document,
                query@.phrase_terms[i],
                query@.phrase_terms.last().0 as int,
            ),
        cannot_be_read(document, query@.phrase_terms[n], query@.phrase_terms.last().0 as int),
    ensures
        evaluator.result(document) matches Err(error) && error is InvalidArgument,
{
    let terms = query@.phrase_terms;
    let target = terms.last().0 as nat;
    assert forall|i: int| 0 <= i < terms.len() implies (#[trigger] terms[i]).0 <= target by {
        assert(terms[i].0 <= terms[terms.len() - 1].0);
    }
    incomplete_occurrences_are_refused("PhraseQuery"@, terms, target, document, n);
}

/// A query for a phrase that needs a fieldnorm refuses a document without it, where it matches.
pub proof fn phrase_query_refuses_a_missing_fieldnorm(
    query: PhraseQuery,
    context: ContextView,
    evaluator: PhraseSingleDocumentEvaluator,
    document: DocumentView,
    start: int,
)
    requires
        query@.well_formed(),
        phrase_query::compiled(query@, context) == Ok::<PhraseEvaluatorView, ErrorView>(evaluator@),
        match_laws::is_readable(
            document,
            query@.phrase_terms,
            query@.phrase_terms.last().0 as int,
        ),
        match_laws::stands_from(document, query@.phrase_terms, start),
        !match_laws::has_fieldnorm_for(context, document, query@.field),
    ensures
        evaluator.result(document) == Err::<EvaluationView, ErrorView>(
            error::fieldnorm_missing(query@.field),
        ),
        error::fieldnorm_missing(query@.field) is InvalidArgument,
{
    let terms = query@.phrase_terms;
    let unscored = ContextView { statistics: None, ..context };
    let plain = phrase_query::compiled(query@, unscored)->Ok_0;
    weight_of_phrase(context, query@.field, terms);
    assert(phrase_query::compiled(query@, unscored) is Ok);
    let target = terms.last().0 as nat;
    assert forall|i: int| 0 <= i < terms.len() implies (#[trigger] terms[i]).0 <= target by {
        assert(terms[i].0 <= terms[terms.len() - 1].0);
    }
    match_laws::readable_positions_are_read("PhraseQuery"@, terms, target, document);
    match_laws::standing_from_is_standing_at(document, terms, target, start + target);
    assert(phrase_laws::phrase_stands_at(document, terms, target, start + target));
    phrase_laws::phrase_matches_where_its_terms_stand(plain, document);
}

/// A query for a phrase with a prefix refuses a document with incomplete occurrences of a term to
/// which the prefix expands. Without fixed terms, it only needs each of them to occur.
pub proof fn phrase_prefix_query_refuses_incomplete_expansions(
    query: PhrasePrefixQuery,
    context: ContextView,
    evaluator: PhrasePrefixSingleDocumentEvaluator,
    document: DocumentView,
    found: TermView,
)
    requires
        query@.well_formed(),
        phrase_prefix_query::compiled(query@, context) == Ok::<
            PhrasePrefixEvaluatorView,
            ErrorView,
        >(evaluator@),
        match_laws::lists_its_terms(document),
        match_laws::holds_one_type(document, query@.field, query@.prefix.1.typ),
        match_laws::is_expansion(
            document,
            query@.prefix.1,
            query@.max_expansions as nat,
            found,
        ),
        if query@.phrase_terms.len() > 0 {
            !match_laws::is_sound((document.term_info)(found)->0)
        } else {
            (document.term_info)(found)->0.term_freq == 0
        },
    ensures
        evaluator.result(document) matches Err(error) && error is InvalidArgument,
{
    let terms = query@.phrase_terms;
    assert(query@.terms()[terms.len() as int] == query@.prefix);
    match_laws::expansions_are_the_first_terms(evaluator@, document);
    let expanded = phrase_prefix_evaluator::expansions(evaluator@, document);
    let i = choose|i: int| 0 <= i < expanded.len() && (#[trigger] expanded[i]).0 == found;
    assert((document.term_info)(expanded[i].0) == Some(expanded[i].1));
    incomplete_expansions_are_refused(expanded, terms.len() > 0, i);
}

proof fn incomplete_expansions_are_refused(
    entries: Seq<(TermView, TermInfoView)>,
    needs_positions: bool,
    i: int,
)
    requires
        0 <= i < entries.len(),
        if needs_positions {
            !match_laws::is_sound(entries[i].1)
        } else {
            entries[i].1.term_freq == 0
        },
    ensures
        phrase_prefix_evaluator::suffix_positions(entries, needs_positions) matches Err(error)
            && error is InvalidArgument,
    decreases entries.len(),
{
    let shorter = entries.drop_last();
    expansion_errors_are_of_the_document(shorter, needs_positions);
    if i < shorter.len() {
        assert(shorter[i] == entries[i]);
        incomplete_expansions_are_refused(shorter, needs_positions, i);
    } else {
        let info = entries[i].1;
        if info.positions is Some && info.positions->0.len() == info.term_freq && info.term_freq
            > 0 && positions::sorted(info.positions->0) {
            assert(match_laws::is_sound(info));
        }
    }
}

proof fn expansion_errors_are_of_the_document(
    entries: Seq<(TermView, TermInfoView)>,
    needs_positions: bool,
)
    ensures
        phrase_prefix_evaluator::suffix_positions(entries, needs_positions) matches Err(error)
            ==> error is InvalidArgument,
    decreases entries.len(),
{
    if entries.len() > 0 {
        expansion_errors_are_of_the_document(entries.drop_last(), needs_positions);
    }
}

/// A query for a phrase with a prefix refuses a document with incomplete occurrences of one of its
/// fixed terms, where the prefix expands to a term. A fixed term that the document does not hold
/// ends the search before that.
pub proof fn phrase_prefix_query_refuses_incomplete_occurrences(
    query: PhrasePrefixQuery,
    context: ContextView,
    evaluator: PhrasePrefixSingleDocumentEvaluator,
    document: DocumentView,
    found: TermView,
    n: int,
)
    requires
        query@.well_formed(),
        phrase_prefix_query::compiled(query@, context) == Ok::<
            PhrasePrefixEvaluatorView,
            ErrorView,
        >(evaluator@),
        match_laws::lists_its_terms(document),
        match_laws::holds_one_type(document, query@.field, query@.prefix.1.typ),
        match_laws::is_expansion(
            document,
            query@.prefix.1,
            query@.max_expansions as nat,
            found,
        ),
        0 <= n < query@.phrase_terms.len(),
        forall|i: int|
            0 <= i < n ==> (document.term_info)((#[trigger] query@.phrase_terms[i]).1) is Some
                && !cannot_be_read(
                document,
                query@.phrase_terms[i],
                match_laws::place_of_prefix(query@),
            ),
        cannot_be_read(
            document,
            query@.phrase_terms[n],
            match_laws::place_of_prefix(query@),
        ),
    ensures
        evaluator.result(document) matches Err(error) && error is InvalidArgument,
{
    let terms = query@.phrase_terms;
    let all = query@.terms();
    assert(all[terms.len() as int] == query@.prefix);
    match_laws::expansions_are_the_first_terms(evaluator@, document);
    let expanded = phrase_prefix_evaluator::expansions(evaluator@, document);
    let i = choose|i: int| 0 <= i < expanded.len() && (#[trigger] expanded[i]).0 == found;
    expansion_errors_are_of_the_document(expanded, true);
    let target = match_laws::place_of_prefix(query@) as nat;
    assert forall|i: int| 0 <= i < terms.len() implies (#[trigger] terms[i]).0 <= target by {
        assert(all[i] == terms[i]);
        assert(all[terms.len() - 1] == terms[terms.len() - 1]);
        assert(all[i].0 <= all[terms.len() - 1].0);
        assert(all[i].0 <= all[terms.len() as int].0);
    }
    incomplete_occurrences_are_refused("PhrasePrefixQuery"@, terms, target, document, n);
}

/// How often a term of a phrase stands so that the offset `target` of the phrase is at a position.
pub open spec fn times_at(
    document: DocumentView,
    entry: (usize, TermView),
    target: int,
    position: int,
) -> nat {
    Seq::new(
        (document.term_info)(entry.1)->0.positions->0.len(),
        |i: int| (document.term_info)(entry.1)->0.positions->0[i] as int,
    ).to_multiset().count(position - (target - entry.0))
}

/// Positions, each as often as all of the terms of a phrase stand there: as often as the one that
/// stands there least often.
pub open spec fn are_common(
    common: Multiset<u32>,
    document: DocumentView,
    terms: Seq<(usize, TermView)>,
    target: int,
) -> bool {
    forall|position: u32|
        #![trigger common.count(position)]
        (forall|i: int|
            0 <= i < terms.len() ==> common.count(position) <= times_at(
                document,
                #[trigger] terms[i],
                target,
                position as int,
            )) && exists|i: int|
            0 <= i < terms.len() && common.count(position) == times_at(
                document,
                #[trigger] terms[i],
                target,
                position as int,
            )
}

proof fn moved_positions_are_as_many(read: Seq<u32>, offset: nat, position: u32)
    requires
        forall|i: int| 0 <= i < read.len() ==> (#[trigger] read[i]) + offset <= u32::MAX,
    ensures
        phrase::shifted(read, offset).to_multiset().count(position) == Seq::new(
            read.len(),
            |i: int| read[i] as int,
        ).to_multiset().count(position - offset),
    decreases read.len(),
{
    broadcast use vstd::seq_lib::group_to_multiset_ensures;

    let moved = phrase::shifted(read, offset);
    let wide = Seq::new(read.len(), |i: int| read[i] as int);
    if read.len() == 0 {
        assert(moved =~= Seq::empty());
        assert(wide =~= Seq::empty());
        assert(!moved.contains(position));
        assert(!wide.contains(position - offset));
    } else {
        let shorter = read.drop_last();
        assert forall|i: int| 0 <= i < shorter.len() implies (#[trigger] shorter[i]) + offset
            <= u32::MAX by {
            assert(shorter[i] == read[i]);
        }
        moved_positions_are_as_many(shorter, offset, position);
        let moved_before = phrase::shifted(shorter, offset);
        let wide_before = Seq::new(shorter.len(), |i: int| shorter[i] as int);
        assert(read[read.len() - 1] == read.last());
        assert(moved =~= moved_before.push((read.last() + offset) as u32));
        assert(wide =~= wide_before.push(read.last() as int));
    }
}

proof fn common_positions_are_counted(
    query: Seq<char>,
    terms: Seq<(usize, TermView)>,
    target: nat,
    document: DocumentView,
)
    requires
        terms.len() > 0,
        forall|i: int| 0 <= i < terms.len() ==> (#[trigger] terms[i]).0 <= target,
        phrase::fixed_positions(query, terms, target, document) matches Ok(Some(_)),
    ensures
        phrase::fixed_positions(query, terms, target, document)->Ok_0->0.len() == terms.len(),
        are_common(
            positions::shared_by_all(
                phrase::fixed_positions(query, terms, target, document)->Ok_0->0,
            ),
            document,
            terms,
            target as int,
        ),
    decreases terms.len(),
{
    broadcast use vstd::multiset::lemma_intersection_count;

    let lists = phrase::fixed_positions(query, terms, target, document)->Ok_0->0;
    let common = positions::shared_by_all(lists);
    let shorter = terms.drop_last();
    let last = terms.last();
    assert(terms[terms.len() - 1] == last);
    let info = (document.term_info)(last.1)->0;
    let read = info.positions->0;
    let moved = (target - last.0) as nat;
    assert forall|i: int| 0 <= i < read.len() implies (#[trigger] read[i]) + moved
        <= u32::MAX by {
        assert(read[i] <= read.last());
    }
    assert(lists.last() == phrase::shifted(read, moved));
    assert forall|i: int| 0 <= i < shorter.len() implies (#[trigger] shorter[i]).0 <= target by {
        assert(shorter[i] == terms[i]);
    }
    if shorter.len() == 0 {
        assert(phrase::fixed_positions(query, shorter, target, document) == Ok::<
            Option<Seq<Seq<u32>>>,
            ErrorView,
        >(Some(Seq::empty())));
        assert(lists[0] == lists.last());
        assert forall|position: u32|
            #![trigger common.count(position)]
            (forall|i: int|
                0 <= i < terms.len() ==> common.count(position) <= times_at(
                    document,
                    #[trigger] terms[i],
                    target as int,
                    position as int,
                )) && exists|i: int|
                0 <= i < terms.len() && common.count(position) == times_at(
                    document,
                    #[trigger] terms[i],
                    target as int,
                    position as int,
                ) by {
            moved_positions_are_as_many(read, moved, position);
            assert(common.count(position) == times_at(
                document,
                terms[0],
                target as int,
                position as int,
            ));
        }
    } else {
        common_positions_are_counted(query, shorter, target, document);
        let before = phrase::fixed_positions(query, shorter, target, document)->Ok_0->0;
        assert(lists.drop_last() =~= before);
        let common_before = positions::shared_by_all(before);
        assert forall|position: u32|
            #![trigger common.count(position)]
            (forall|i: int|
                0 <= i < terms.len() ==> common.count(position) <= times_at(
                    document,
                    #[trigger] terms[i],
                    target as int,
                    position as int,
                )) && exists|i: int|
                0 <= i < terms.len() && common.count(position) == times_at(
                    document,
                    #[trigger] terms[i],
                    target as int,
                    position as int,
                ) by {
            moved_positions_are_as_many(read, moved, position);
            let own = times_at(document, last, target as int, position as int);
            assert(common_before.count(position) >= 0);
            assert forall|i: int| 0 <= i < terms.len() implies common.count(position) <= times_at(
                document,
                #[trigger] terms[i],
                target as int,
                position as int,
            ) by {
                if i < shorter.len() {
                    assert(shorter[i] == terms[i]);
                }
            }
            if common_before.count(position) <= own {
                let i = choose|i: int|
                    0 <= i < shorter.len() && common_before.count(position) == times_at(
                        document,
                        #[trigger] shorter[i],
                        target as int,
                        position as int,
                    );
                assert(shorter[i] == terms[i]);
            } else {
                assert(common.count(position) == times_at(
                    document,
                    terms[terms.len() - 1],
                    target as int,
                    position as int,
                ));
            }
        }
    }
}

/// A phrase whose terms stand more than once at a position counts there as often as the one of them
/// that stands there least often.
pub proof fn phrase_query_counts_repeated_positions(
    query: PhraseQuery,
    context: ContextView,
    evaluator: PhraseSingleDocumentEvaluator,
    document: DocumentView,
    score: ScoreView,
    common: Multiset<u32>,
)
    requires
        query@.well_formed(),
        phrase_query::compiled(query@, context) == Ok::<PhraseEvaluatorView, ErrorView>(evaluator@),
        evaluator.result(document) == Ok::<EvaluationView, ErrorView>(EvaluationView::Match(score)),
        are_common(
            common,
            document,
            query@.phrase_terms,
            query@.phrase_terms[query@.phrase_terms.len() - 1].0 as int,
        ),
    ensures
        is_phrase_score(
            score,
            context,
            document,
            query@.field,
            query@.phrase_terms,
            common.len(),
        ),
{
    broadcast use vstd::seq_lib::group_to_multiset_ensures;

    let terms = query@.phrase_terms;
    let target = terms.last().0 as nat;
    assert forall|i: int| 0 <= i < terms.len() implies (#[trigger] terms[i]).0 <= target by {
        assert(terms[i].0 <= terms[terms.len() - 1].0);
    }
    assert(evaluator@.phrase_terms == terms);
    weight_of_phrase(context, query@.field, terms);
    common_positions_are_counted("PhraseQuery"@, terms, target, document);
    let lists = phrase::fixed_positions("PhraseQuery"@, terms, target, document)->Ok_0->0;
    let found = positions::shared_by_all(lists);
    common_is_unique(common, found, document, terms, target as int);
    first_list_is_of_the_first_term("PhraseQuery"@, terms, target, document);
    shared_is_no_longer_than_the_first_list(lists);
    assert(lists[0].to_multiset().len() == lists[0].len());
}

proof fn common_is_unique(
    left: Multiset<u32>,
    right: Multiset<u32>,
    document: DocumentView,
    terms: Seq<(usize, TermView)>,
    target: int,
)
    requires
        are_common(left, document, terms, target),
        are_common(right, document, terms, target),
    ensures
        left == right,
{
    assert forall|position: u32| #[trigger] left.count(position) == right.count(position) by {
        let i = choose|i: int|
            0 <= i < terms.len() && left.count(position) == times_at(
                document,
                #[trigger] terms[i],
                target,
                position as int,
            );
        let j = choose|j: int|
            0 <= j < terms.len() && right.count(position) == times_at(
                document,
                #[trigger] terms[j],
                target,
                position as int,
            );
        assert(right.count(position) <= times_at(document, terms[i], target, position as int));
        assert(left.count(position) <= times_at(document, terms[j], target, position as int));
    }
    assert(left =~= right);
}

/// A query for a phrase with a prefix that needs a fieldnorm refuses a document without it, where it
/// matches. Only several fixed terms are scored by it.
pub proof fn phrase_prefix_query_refuses_a_missing_fieldnorm(
    query: PhrasePrefixQuery,
    context: ContextView,
    evaluator: PhrasePrefixSingleDocumentEvaluator,
    document: DocumentView,
    start: int,
    found: TermView,
)
    requires
        query@.well_formed(),
        phrase_prefix_query::compiled(query@, context) == Ok::<
            PhrasePrefixEvaluatorView,
            ErrorView,
        >(evaluator@),
        query@.phrase_terms.len() > 1,
        match_laws::is_readable_with_prefix(
            document,
            query@,
            ContextView { statistics: None, ..context },
        ),
        match_laws::stands_from(document, query@.phrase_terms, start),
        match_laws::is_expansion(
            document,
            query@.prefix.1,
            query@.max_expansions as nat,
            found,
        ),
        phrase_laws::stands_at(document, found, start + match_laws::place_of_prefix(query@)),
        !match_laws::has_fieldnorm_for(context, document, query@.field),
    ensures
        evaluator.result(document) matches Err(error) && error is InvalidArgument,
{
    let terms = query@.phrase_terms;
    let all = query@.terms();
    let unscored = ContextView { statistics: None, ..context };
    assert forall|i: int| 0 <= i < terms.len() implies (#[trigger] terms[i]).1.field
        == query@.field by {
        assert(all[i] == terms[i]);
    }
    weight_of_phrase(context, query@.field, terms);
    assert(phrase_prefix_query::compiled(query@, unscored) is Ok);
    let plain = phrase_prefix_query::compiled(query@, unscored)->Ok_0;
    match_laws::phrase_prefix_matches_from_the_query(query@, unscored, document);
    assert(phrase_prefix_evaluator::expansions(plain, document)
        == phrase_prefix_evaluator::expansions(evaluator@, document));
}

} // verus!
