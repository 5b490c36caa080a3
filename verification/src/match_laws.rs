//! What the queries for phrases match, told from the query and the document alone.

use vstd::prelude::*;
use crate::any_query;
use crate::any_query::AnyQuery;
use crate::bytes;
use crate::error::ErrorView;
use crate::phrase;
use crate::phrase_laws;
use crate::phrase_prefix_evaluator;
use crate::phrase_prefix_evaluator::PhrasePrefixEvaluatorView;
use crate::phrase_prefix_evaluator::PhrasePrefixSingleDocumentEvaluator;
use crate::phrase_prefix_query;
use crate::phrase_prefix_query::{PhrasePrefixQuery, PhrasePrefixQueryView};
use crate::phrase_query;
use crate::phrase_query::{PhraseEvaluatorView, PhraseQuery, PhraseSingleDocumentEvaluator};
use crate::positions;
use crate::prepared_document;
use crate::prepared_document::PreparedDocumentView;
use crate::schema::{Field, Type};
use crate::single_document;
use crate::single_document::{BoundView, ContextView, DocumentView, SingleDocumentEvaluator};
use crate::single_document::TermInfoView;
use crate::term;
use crate::term::TermView;
use crate::term_map;

verus! {

/// The occurrences of a term are complete: there is one, each has its position, and the positions
/// come in ascending order.
pub open spec fn is_sound(info: TermInfoView) -> bool {
    &&& info.term_freq > 0
    &&& info.positions matches Some(positions) && positions.len() == info.term_freq && forall|
        i: int,
        j: int,
    |
        0 <= i <= j < positions.len() ==> positions[i] <= positions[j]
}

/// A document lists its terms: for a field and a range those that it holds, with the same
/// occurrences, in ascending order.
pub open spec fn lists_its_terms(document: DocumentView) -> bool {
    &&& forall|field: Field, start: BoundView, end: BoundView|
        single_document::ascending(#[trigger] (document.visited)(field, start, end))
    &&& forall|
        field: Field,
        start: BoundView,
        end: BoundView,
        term: TermView,
        info: TermInfoView,
    | #[trigger]
        (document.visited)(field, start, end).contains((term, info)) <==> term.field == field
            && single_document::after_start(start, term) && single_document::before_end(end, term)
            && (document.term_info)(term) == Some(info)
}

/// All the terms of a field that a document holds have one type.
pub open spec fn holds_one_type(document: DocumentView, field: Field, typ: Type) -> bool {
    forall|term: TermView|
        #[trigger] (document.term_info)(term) is Some && term.field == field ==> term.typ == typ
}

/// Prepared documents list their terms.
pub proof fn prepared_documents_list_their_terms(document: PreparedDocumentView)
    requires
        term_map::ascending(document.terms),
    ensures
        lists_its_terms(document.answers()),
{
    let answers = document.answers();
    assert forall|field: Field, start: BoundView, end: BoundView|
        single_document::ascending(#[trigger] (answers.visited)(field, start, end)) by {
        let pred = prepared_document::in_range(field, start, end);
        let kept = document.terms.filter(pred);
        assert(in_order(document.terms));
        filter_keeps_order(document.terms, pred);
        let visited = (answers.visited)(field, start, end);
        assert forall|i: int, j: int| 0 <= i < j < visited.len() implies term::term_lt(
            (#[trigger] visited[i]).0,
            (#[trigger] visited[j]).0,
        ) by {
            assert(visited[i].0 == kept[i].0);
            assert(visited[j].0 == kept[j].0);
        }
    }
    assert forall|
        field: Field,
        start: BoundView,
        end: BoundView,
        term: TermView,
        info: TermInfoView,
    | #[trigger]
        (answers.visited)(field, start, end).contains((term, info)) <==> term.field == field
            && single_document::after_start(start, term) && single_document::before_end(end, term)
            && (answers.term_info)(term) == Some(info) by {
        prepared_document::listed_terms_are_those_held(document, field, start, end, term, info);
    }
}

/// The terms of a list come in strictly ascending order.
spec fn in_order<V>(entries: Seq<(TermView, V)>) -> bool {
    forall|i: int, j: int|
        0 <= i < j < entries.len() ==> term::term_lt(
            (#[trigger] entries[i]).0,
            (#[trigger] entries[j]).0,
        )
}

/// What is kept of a list in ascending order is in ascending order.
proof fn filter_keeps_order<V>(entries: Seq<(TermView, V)>, pred: spec_fn((TermView, V)) -> bool)
    requires
        in_order(entries),
    ensures
        in_order(entries.filter(pred)),
    decreases entries.len(),
{
    reveal(Seq::filter);
    let kept = entries.filter(pred);
    if entries.len() > 0 {
        let shorter = entries.drop_last();
        assert forall|i: int, j: int| 0 <= i < j < shorter.len() implies term::term_lt(
            (#[trigger] shorter[i]).0,
            (#[trigger] shorter[j]).0,
        ) by {
            assert(term::term_lt(entries[i].0, entries[j].0));
        }
        filter_keeps_order(shorter, pred);
        let before = shorter.filter(pred);
        if pred(entries.last()) {
            assert(kept == before.push(entries.last()));
            assert forall|i: int, j: int| 0 <= i < j < kept.len() implies term::term_lt(
                (#[trigger] kept[i]).0,
                (#[trigger] kept[j]).0,
            ) by {
                if j == before.len() {
                    assert(before.contains(before[i]));
                    shorter.lemma_filter_contains_rev(pred, before[i]);
                    let k = shorter.index_of(before[i]);
                    assert(term::term_lt(entries[k].0, entries[entries.len() - 1].0));
                }
            }
        }
    }
}

/// The terms of a phrase stand in a document, each at its offset behind `start`.
pub open spec fn stands_from(
    document: DocumentView,
    terms: Seq<(usize, TermView)>,
    start: int,
) -> bool {
    forall|i: int|
        0 <= i < terms.len() ==> phrase_laws::stands_at(
            document,
            (#[trigger] terms[i]).1,
            start + terms[i].0,
        )
}

/// The occurrences of the terms of a phrase are complete, and each position can be moved to the
/// offset `target` of the phrase.
pub open spec fn is_readable(
    document: DocumentView,
    terms: Seq<(usize, TermView)>,
    target: int,
) -> bool {
    forall|i: int|
        0 <= i < terms.len() ==> ((document.term_info)((#[trigger] terms[i]).1) matches Some(info)
            ==> is_sound(info) && info.positions->0.last() + (target - terms[i].0) <= u32::MAX)
}

/// The document has the fieldnorm of a field, where a score needs it.
pub open spec fn has_fieldnorm_for(
    context: ContextView,
    document: DocumentView,
    field: Field,
) -> bool {
    context.statistics is Some && context.schema[field.0 as int].field_type.fieldnorms ==> (
    document.fieldnorm_id)(field) is Some
}

pub(crate) proof fn readable_positions_are_read(
    query: Seq<char>,
    terms: Seq<(usize, TermView)>,
    target: nat,
    document: DocumentView,
)
    requires
        forall|i: int| 0 <= i < terms.len() ==> (#[trigger] terms[i]).0 <= target,
        is_readable(document, terms, target as int),
    ensures
        phrase::fixed_positions(query, terms, target, document) is Ok,
    decreases terms.len(),
{
    if terms.len() > 0 {
        let shorter = terms.drop_last();
        assert forall|i: int| 0 <= i < shorter.len() implies (#[trigger] shorter[i]).0
            <= target by {
            assert(shorter[i] == terms[i]);
        }
        assert(is_readable(document, shorter, target as int)) by {
            assert forall|i: int| 0 <= i < shorter.len() implies ((document.term_info)(
                (#[trigger] shorter[i]).1,
            ) matches Some(info) ==> is_sound(info) && info.positions->0.last() + (target
                - shorter[i].0) <= u32::MAX) by {
                assert(shorter[i] == terms[i]);
            }
        }
        readable_positions_are_read(query, shorter, target, document);
        let (offset, term) = terms.last();
        assert(terms[terms.len() - 1] == terms.last());
        if let Some(info) = (document.term_info)(term) {
            assert(positions::sorted(info.positions->0));
            assert(info.positions->0.last() >= 0);
        }
    }
}

pub(crate) proof fn standing_from_is_standing_at(
    document: DocumentView,
    terms: Seq<(usize, TermView)>,
    target: nat,
    position: int,
)
    ensures
        phrase_laws::phrase_stands_at(document, terms, target, position) <==> stands_from(
            document,
            terms,
            position - target,
        ),
{
    if phrase_laws::phrase_stands_at(document, terms, target, position) {
        assert forall|i: int| 0 <= i < terms.len() implies phrase_laws::stands_at(
            document,
            (#[trigger] terms[i]).1,
            position - target + terms[i].0,
        ) by {
            assert(position - (target - terms[i].0) == position - target + terms[i].0);
        }
    }
    if stands_from(document, terms, position - target) {
        assert forall|i: int| 0 <= i < terms.len() implies phrase_laws::stands_at(
            document,
            (#[trigger] terms[i]).1,
            position - (target - terms[i].0),
        ) by {
            assert(position - (target - terms[i].0) == position - target + terms[i].0);
        }
    }
}

/// A query for a phrase matches exactly the documents in which all of its terms stand, each at its
/// offset behind one place. Documents whose occurrences are complete are not refused.
pub proof fn phrase_query_matches_where_all_its_terms_stand(
    query: PhraseQuery,
    context: ContextView,
    evaluator: PhraseSingleDocumentEvaluator,
    document: DocumentView,
)
    requires
        query@.well_formed(),
        phrase_query::compiled(query@, context) == Ok::<PhraseEvaluatorView, ErrorView>(evaluator@),
        is_readable(document, query@.phrase_terms, query@.phrase_terms.last().0 as int),
        has_fieldnorm_for(context, document, query@.field),
    ensures
        evaluator.result(document) is Ok,
        evaluator.result(document)->Ok_0 is Match <==> exists|start: int| #[trigger]
            stands_from(document, query@.phrase_terms, start),
        any_query::query_result(AnyQuery::Phrase(query), context, document) == evaluator.result(
            document,
        ),
{
    let terms = query@.phrase_terms;
    let target = terms.last().0 as nat;
    assert forall|i: int| 0 <= i < terms.len() implies (#[trigger] terms[i]).0 <= target by {
        assert(terms[i].0 <= terms[terms.len() - 1].0);
    }
    readable_positions_are_read("PhraseQuery"@, terms, target, document);
    assert(evaluator@.phrase_terms == terms);
    assert(phrase_query::phrase_result(evaluator@, document) is Ok);
    phrase_laws::phrase_matches_where_its_terms_stand(evaluator@, document);
    if exists|position: int| #[trigger]
        phrase_laws::phrase_stands_at(document, terms, target, position) {
        let position = choose|position: int| #[trigger]
            phrase_laws::phrase_stands_at(document, terms, target, position);
        standing_from_is_standing_at(document, terms, target, position);
        assert(stands_from(document, terms, position - target));
    }
    if exists|start: int| #[trigger] stands_from(document, terms, start) {
        let start = choose|start: int| #[trigger] stands_from(document, terms, start);
        standing_from_is_standing_at(document, terms, target, start + target);
        assert(phrase_laws::phrase_stands_at(document, terms, target, start + target));
    }
}

/// A document holds a term of the field and type of `prefix` that begins with it.
pub open spec fn holds_prefixed(document: DocumentView, prefix: TermView, term: TermView) -> bool {
    &&& (document.term_info)(term) is Some
    &&& term.field == prefix.field
    &&& term.typ == prefix.typ
    &&& prefix.value.is_prefix_of(term.value)
}

/// The terms of a document that begin with `prefix`.
pub open spec fn prefixed_terms(document: DocumentView, prefix: TermView) -> Set<TermView> {
    Set::new(|term: TermView| holds_prefixed(document, prefix, term))
}

/// Those of them that come before a term.
pub open spec fn prefixed_before(
    document: DocumentView,
    prefix: TermView,
    term: TermView,
) -> Set<TermView> {
    Set::new(
        |other: TermView|
            holds_prefixed(document, prefix, other) && term::term_lt(other, term),
    )
}

/// A term of a document is one of the first `limit` ones that begin with `prefix`.
pub open spec fn is_expansion(
    document: DocumentView,
    prefix: TermView,
    limit: nat,
    term: TermView,
) -> bool {
    holds_prefixed(document, prefix, term) && prefixed_before(document, prefix, term).len() < limit
}

/// The listed terms that begin with the prefix of a query.
spec fn prefixed_entries(evaluator: PhrasePrefixEvaluatorView, document: DocumentView) -> Seq<
    (TermView, TermInfoView),
> {
    (document.visited)(
        evaluator.field,
        BoundView::Included(evaluator.prefix),
        phrase_prefix_evaluator::range_end(evaluator.field, evaluator.prefix),
    ).filter(phrase_prefix_evaluator::begins_with(evaluator.prefix.value))
}

proof fn prefixed_entries_are_the_prefixed_terms(
    evaluator: PhrasePrefixEvaluatorView,
    document: DocumentView,
    term: TermView,
    info: TermInfoView,
)
    requires
        lists_its_terms(document),
        evaluator.prefix.field == evaluator.field,
        holds_one_type(document, evaluator.field, evaluator.prefix.typ),
    ensures
        prefixed_entries(evaluator, document).contains((term, info)) <==> holds_prefixed(
            document,
            evaluator.prefix,
            term,
        ) && (document.term_info)(term) == Some(info),
{
    let prefix = evaluator.prefix;
    let start = BoundView::Included(prefix);
    let end = phrase_prefix_evaluator::range_end(evaluator.field, prefix);
    let visited = (document.visited)(evaluator.field, start, end);
    let pred = phrase_prefix_evaluator::begins_with(prefix.value);
    let kept = visited.filter(pred);
    if kept.contains((term, info)) {
        visited.lemma_filter_contains_rev(pred, (term, info));
        let i = kept.index_of((term, info));
        visited.lemma_filter_pred(pred, i);
        assert(visited.contains((term, info)));
    }
    if holds_prefixed(document, prefix, term) && (document.term_info)(term) == Some(info) {
        bytes::prefix_is_not_behind(prefix.value, term.value);
        phrase_prefix_evaluator::prefix_range_holds_the_prefixed_terms(prefix, term);
        assert(visited.contains((term, info)));
        let i = visited.index_of((term, info));
        assert(pred(visited[i]));
        visited.lemma_filter_contains(pred, i);
    }
}

proof fn prefixed_entries_are_ranked(
    evaluator: PhrasePrefixEvaluatorView,
    document: DocumentView,
    n: int,
)
    requires
        lists_its_terms(document),
        evaluator.prefix.field == evaluator.field,
        holds_one_type(document, evaluator.field, evaluator.prefix.typ),
        0 <= n < prefixed_entries(evaluator, document).len(),
    ensures
        holds_prefixed(
            document,
            evaluator.prefix,
            prefixed_entries(evaluator, document)[n].0,
        ),
        prefixed_before(
            document,
            evaluator.prefix,
            prefixed_entries(evaluator, document)[n].0,
        ).len() == n,
{
    let prefix = evaluator.prefix;
    let entries = prefixed_entries(evaluator, document);
    let visited = (document.visited)(
        evaluator.field,
        BoundView::Included(prefix),
        phrase_prefix_evaluator::range_end(evaluator.field, prefix),
    );
    filter_keeps_order(visited, phrase_prefix_evaluator::begins_with(prefix.value));
    let terms = Seq::new(n as nat, |i: int| entries[i].0);
    let last = entries[n].0;
    assert(entries.contains(entries[n]));
    prefixed_entries_are_the_prefixed_terms(evaluator, document, last, entries[n].1);
    assert forall|i: int, j: int| 0 <= i < terms.len() && 0 <= j < terms.len() && i != j implies
        terms[i] != terms[j] by {
        term::term_order_is_total(entries[i].0, entries[j].0);
        if i < j {
            assert(term::term_lt(entries[i].0, entries[j].0));
        } else {
            assert(term::term_lt(entries[j].0, entries[i].0));
        }
    }
    assert(terms.no_duplicates());
    terms.unique_seq_to_set();
    assert(terms.to_set() =~= prefixed_before(document, prefix, last)) by {
        assert forall|other: TermView|
            terms.to_set().contains(other) <==> #[trigger] prefixed_before(
                document,
                prefix,
                last,
            ).contains(other) by {
            if terms.contains(other) {
                let i = terms.index_of(other);
                assert(entries.contains(entries[i]));
                prefixed_entries_are_the_prefixed_terms(evaluator, document, other, entries[i].1);
                assert(term::term_lt(entries[i].0, entries[n].0));
            }
            if holds_prefixed(document, prefix, other) && term::term_lt(other, last) {
                let info = (document.term_info)(other)->0;
                prefixed_entries_are_the_prefixed_terms(evaluator, document, other, info);
                let i = entries.index_of((other, info));
                term::term_order_is_total(other, last);
                if i >= n {
                    if i > n {
                        assert(term::term_lt(entries[n].0, entries[i].0));
                    }
                }
                assert(terms[i] == other);
            }
        }
    }
}

/// The expanded terms are the first ones that begin with the prefix.
pub(crate) proof fn expansions_are_the_first_terms(
    evaluator: PhrasePrefixEvaluatorView,
    document: DocumentView,
)
    requires
        lists_its_terms(document),
        evaluator.prefix.field == evaluator.field,
        holds_one_type(document, evaluator.field, evaluator.prefix.typ),
    ensures
        ({
            let expanded = phrase_prefix_evaluator::expansions(evaluator, document);
            &&& forall|i: int|
                0 <= i < expanded.len() ==> is_expansion(
                    document,
                    evaluator.prefix,
                    evaluator.max_expansions as nat,
                    (#[trigger] expanded[i]).0,
                ) && (document.term_info)(expanded[i].0) == Some(expanded[i].1)
            &&& forall|term: TermView| #[trigger]
                is_expansion(document, evaluator.prefix, evaluator.max_expansions as nat, term)
                    ==> exists|i: int| 0 <= i < expanded.len() && (#[trigger] expanded[i]).0 == term
        }),
{
    let expanded = phrase_prefix_evaluator::expansions(evaluator, document);
    let entries = prefixed_entries(evaluator, document);
    let limit = evaluator.max_expansions as nat;
    assert forall|i: int| 0 <= i < expanded.len() implies is_expansion(
        document,
        evaluator.prefix,
        limit,
        (#[trigger] expanded[i]).0,
    ) && (document.term_info)(expanded[i].0) == Some(expanded[i].1) by {
        assert(expanded[i] == entries[i]);
        prefixed_entries_are_ranked(evaluator, document, i);
        assert(entries.contains(entries[i]));
        prefixed_entries_are_the_prefixed_terms(
            evaluator,
            document,
            entries[i].0,
            entries[i].1,
        );
    }
    assert forall|term: TermView| #[trigger]
        is_expansion(document, evaluator.prefix, limit, term) implies exists|i: int|
        0 <= i < expanded.len() && (#[trigger] expanded[i]).0 == term by {
        let info = (document.term_info)(term)->0;
        prefixed_entries_are_the_prefixed_terms(evaluator, document, term, info);
        let i = entries.index_of((term, info));
        prefixed_entries_are_ranked(evaluator, document, i);
        assert(expanded[i] == entries[i]);
    }
}

proof fn sound_expansions_are_read(entries: Seq<(TermView, TermInfoView)>, needs_positions: bool)
    requires
        forall|i: int| 0 <= i < entries.len() ==> is_sound((#[trigger] entries[i]).1),
    ensures
        phrase_prefix_evaluator::suffix_positions(entries, needs_positions) is Ok,
    decreases entries.len(),
{
    if entries.len() > 0 {
        let shorter = entries.drop_last();
        assert forall|i: int| 0 <= i < shorter.len() implies is_sound(
            (#[trigger] shorter[i]).1,
        ) by {
            assert(shorter[i] == entries[i]);
        }
        sound_expansions_are_read(shorter, needs_positions);
        let info = entries[entries.len() - 1].1;
        assert(is_sound(info));
        assert(positions::sorted(info.positions->0));
    }
}

/// The offset at which the expanded prefix of a query stands: right behind the last of several
/// fixed terms, and where the prefix itself stands behind a single one.
pub open spec fn place_of_prefix(query: PhrasePrefixQueryView) -> int {
    if query.phrase_terms.len() > 1 {
        query.phrase_terms[query.phrase_terms.len() - 1].0 + 1
    } else {
        query.prefix.0 as int
    }
}

/// A document that a query for a phrase with a prefix can be evaluated on: it lists its terms, the
/// occurrences of those that are read are complete, and it has the fieldnorm where it is needed.
pub open spec fn is_readable_with_prefix(
    document: DocumentView,
    query: PhrasePrefixQueryView,
    context: ContextView,
) -> bool {
    &&& lists_its_terms(document)
    &&& holds_one_type(document, query.field, query.prefix.1.typ)
    &&& forall|term: TermView| #[trigger]
        holds_prefixed(document, query.prefix.1, term) ==> is_sound((document.term_info)(term)->0)
    &&& is_readable(document, query.phrase_terms, place_of_prefix(query))
    &&& has_fieldnorm_for(context, document, query.field)
}

/// What a compiled query for a phrase with a prefix answers, told from the query.
pub(crate) proof fn phrase_prefix_matches_from_the_query(
    query: PhrasePrefixQueryView,
    context: ContextView,
    document: DocumentView,
)
    requires
        query.well_formed(),
        phrase_prefix_query::compiled(query, context) is Ok,
        is_readable_with_prefix(document, query, context),
    ensures
        ({
            let view = phrase_prefix_query::compiled(query, context)->Ok_0;
            let result = phrase_prefix_evaluator::phrase_prefix_result(view, document);
            &&& result is Ok
            &&& query.phrase_terms.len() > 0 ==> (result->Ok_0 is Match <==> exists|
                start: int,
                term: TermView,
            |
                #[trigger] stands_from(document, query.phrase_terms, start)
                    && #[trigger] is_expansion(
                    document,
                    query.prefix.1,
                    query.max_expansions as nat,
                    term,
                ) && phrase_laws::stands_at(document, term, start + place_of_prefix(query)))
            &&& query.phrase_terms.len() == 0 ==> (result->Ok_0 is Match <==> exists|
                term: TermView,
            | #[trigger]
                is_expansion(document, query.prefix.1, query.max_expansions as nat, term))
        }),
{
    let view = phrase_prefix_query::compiled(query, context)->Ok_0;
    let terms = query.phrase_terms;
    let limit = query.max_expansions as nat;
    let prefix = query.prefix.1;
    let all = query.terms();
    assert(all[terms.len() as int] == query.prefix);
    assert(prefix.field == query.field);
    expansions_are_the_first_terms(view, document);
    let expanded = phrase_prefix_evaluator::expansions(view, document);
    assert forall|i: int| 0 <= i < expanded.len() implies is_sound((#[trigger] expanded[i]).1) by {
        assert(is_expansion(document, prefix, limit, expanded[i].0));
        assert(holds_prefixed(document, prefix, expanded[i].0));
    }
    sound_expansions_are_read(expanded, terms.len() > 0);
    if terms.len() == 0 {
        if expanded.len() > 0 {
            assert(is_expansion(document, prefix, limit, expanded[0].0));
        }
        if exists|term: TermView| #[trigger] is_expansion(document, prefix, limit, term) {
            let term = choose|term: TermView| #[trigger]
                is_expansion(document, prefix, limit, term);
            assert(expanded.len() > 0);
        }
    } else {
        let target = place_of_prefix(query) as nat;
        assert(view.fixed_position_target == target);
        assert forall|i: int| 0 <= i < terms.len() implies (#[trigger] terms[i]).0 <= target by {
            assert(all[i] == terms[i]);
            assert(all[terms.len() - 1] == terms[terms.len() - 1]);
            assert(all[i].0 <= all[terms.len() - 1].0);
            assert(all[i].0 <= all[terms.len() as int].0);
        }
        readable_positions_are_read("PhrasePrefixQuery"@, terms, target, document);
        assert(phrase_prefix_evaluator::phrase_prefix_result(view, document) is Ok);
        phrase_laws::phrase_prefix_matches_where_its_terms_stand(view, document);
        if exists|position: int| #[trigger]
            phrase_laws::phrase_stands_at(document, terms, target, position)
                && phrase_laws::expansion_stands_at(view, document, position) {
            let position = choose|position: int| #[trigger]
                phrase_laws::phrase_stands_at(document, terms, target, position)
                    && phrase_laws::expansion_stands_at(view, document, position);
            standing_from_is_standing_at(document, terms, target, position);
            let i = choose|i: int|
                0 <= i < expanded.len() && phrase_laws::has_position(
                    (#[trigger] expanded[i]).1,
                    position,
                );
            let start = position - target;
            assert(stands_from(document, terms, start));
            assert(is_expansion(document, prefix, limit, expanded[i].0));
            assert(phrase_laws::stands_at(document, expanded[i].0, start + target));
        }
        if exists|start: int, term: TermView|
            #[trigger] stands_from(document, terms, start) && #[trigger] is_expansion(
                document,
                prefix,
                limit,
                term,
            ) && phrase_laws::stands_at(document, term, start + target) {
            let (start, term) = choose|start: int, term: TermView|
                #[trigger] stands_from(document, terms, start) && #[trigger] is_expansion(
                    document,
                    prefix,
                    limit,
                    term,
                ) && phrase_laws::stands_at(document, term, start + target);
            let position = start + target;
            standing_from_is_standing_at(document, terms, target, position);
            let i = choose|i: int| 0 <= i < expanded.len() && (#[trigger] expanded[i]).0 == term;
            assert(phrase_laws::has_position(expanded[i].1, position));
            assert(phrase_laws::expansion_stands_at(view, document, position));
        }
    }
}

/// A query for a phrase with a prefix matches exactly the documents in which, behind one place, all
/// of the fixed terms stand at their offsets, followed by one of the first `max_expansions` terms
/// of the document that begin with the prefix. Without fixed terms, one such term is enough.
pub proof fn phrase_prefix_query_matches_where_a_term_continues_the_phrase(
    query: PhrasePrefixQuery,
    context: ContextView,
    evaluator: PhrasePrefixSingleDocumentEvaluator,
    document: DocumentView,
)
    requires
        query@.well_formed(),
        phrase_prefix_query::compiled(query@, context) == Ok::<
            PhrasePrefixEvaluatorView,
            ErrorView,
        >(evaluator@),
        is_readable_with_prefix(document, query@, context),
    ensures
        evaluator.result(document) is Ok,
        query@.phrase_terms.len() > 0 ==> (evaluator.result(document)->Ok_0 is Match <==> exists|
            start: int,
            term: TermView,
        |
            #[trigger] stands_from(document, query@.phrase_terms, start)
                && #[trigger] is_expansion(
                document,
                query@.prefix.1,
                query@.max_expansions as nat,
                term,
            ) && phrase_laws::stands_at(document, term, start + place_of_prefix(query@))),
        query@.phrase_terms.len() == 0 ==> (evaluator.result(document)->Ok_0 is Match <==> exists|
            term: TermView,
        | #[trigger]
            is_expansion(document, query@.prefix.1, query@.max_expansions as nat, term)),
        any_query::query_result(AnyQuery::PhrasePrefix(query), context, document)
            == evaluator.result(document),
{
    phrase_prefix_matches_from_the_query(query@, context, document);
}

/// Where no more terms of a document begin with the prefix than are allowed, every one of them
/// counts: the query matches wherever one of them continues the phrase.
pub proof fn phrase_prefix_query_matches_with_any_of_few_terms(
    query: PhrasePrefixQuery,
    context: ContextView,
    evaluator: PhrasePrefixSingleDocumentEvaluator,
    document: DocumentView,
    start: int,
    term: TermView,
)
    requires
        query@.well_formed(),
        phrase_prefix_query::compiled(query@, context) == Ok::<
            PhrasePrefixEvaluatorView,
            ErrorView,
        >(evaluator@),
        is_readable_with_prefix(document, query@, context),
        prefixed_terms(document, query@.prefix.1).finite(),
        prefixed_terms(document, query@.prefix.1).len() <= query@.max_expansions,
        holds_prefixed(document, query@.prefix.1, term),
        stands_from(document, query@.phrase_terms, start),
        phrase_laws::stands_at(document, term, start + place_of_prefix(query@)),
    ensures
        evaluator.result(document) matches Ok(evaluation) && evaluation is Match,
        any_query::query_result(AnyQuery::PhrasePrefix(query), context, document)
            == evaluator.result(document),
{
    let prefix = query@.prefix.1;
    let all = prefixed_terms(document, prefix);
    let before = prefixed_before(document, prefix, term);
    term::term_order_is_total(term, term);
    assert(all.contains(term));
    assert(before.subset_of(all.remove(term)));
    vstd::set_lib::lemma_len_subset(before, all.remove(term));
    assert(is_expansion(document, prefix, query@.max_expansions as nat, term));
    phrase_prefix_query_matches_where_a_term_continues_the_phrase(
        query,
        context,
        evaluator,
        document,
    );
}

} // verus!
