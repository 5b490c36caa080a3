//! What holds of every preparer and of every document that it prepares.

use vstd::prelude::*;
use crate::document::ValueView;
use crate::error::ErrorView;
use crate::fields;
use crate::indexing::DocumentIndexing;
use crate::json_paths;
use crate::postings;
use crate::preparation_laws;
use crate::prepared_document;
use crate::prepared_document::{PreparedDocumentView, PreparerView};
use crate::schema::{Field, FieldEntryView};
use crate::single_document;
use crate::single_document::{BoundView, TermInfoView};
use crate::term;
use crate::term::TermView;
use crate::term_map;

verus! {

/// Lists in ascending order in which the same is found for every term are equal.
proof fn entries_are_determined(
    left: Seq<(TermView, Seq<u32>)>,
    right: Seq<(TermView, Seq<u32>)>,
)
    requires
        term_map::ascending(left),
        term_map::ascending(right),
        forall|term: TermView| #[trigger]
            term_map::lookup(left, term) == term_map::lookup(right, term),
    ensures
        left == right,
    decreases left.len(),
{
    if left.len() == 0 {
        if right.len() > 0 {
            term_map::lookup_finds(right, 0);
            assert(term_map::lookup(left, right[0].0) == term_map::lookup(right, right[0].0));
        }
        assert(left =~= right);
    } else {
        let last = left.last().0;
        assert(term_map::lookup(left, last) == term_map::lookup(right, last));
        let j = term_map::lookup_is_listed(right, last);
        let other = right.last().0;
        assert(term_map::lookup(left, other) == term_map::lookup(right, other));
        let i = term_map::lookup_is_listed(left, other);
        term::term_order_is_total(last, other);
        assert(last == other) by {
            if i < left.len() - 1 && j < right.len() - 1 {
                assert(term::term_lt(left[i].0, left[left.len() - 1].0));
                assert(term::term_lt(right[j].0, right[right.len() - 1].0));
            }
        }
        let shorter_left = left.drop_last();
        let shorter_right = right.drop_last();
        entries_without_last(left);
        entries_without_last(right);
        assert forall|term: TermView| #[trigger]
            term_map::lookup(shorter_left, term) == term_map::lookup(shorter_right, term) by {
            assert(term_map::lookup(left, term) == term_map::lookup(right, term));
        }
        entries_are_determined(shorter_left, shorter_right);
        assert(left =~= shorter_left.push(left.last()));
        assert(right =~= shorter_right.push(right.last()));
    }
}

proof fn entries_without_last(entries: Seq<(TermView, Seq<u32>)>)
    requires
        term_map::ascending(entries),
        entries.len() > 0,
    ensures
        term_map::ascending(entries.drop_last()),
        term_map::lookup(entries.drop_last(), entries.last().0) is None,
{
    let shorter = entries.drop_last();
    assert forall|i: int, j: int| 0 <= i < j < shorter.len() implies term::term_lt(
        (#[trigger] shorter[i]).0,
        (#[trigger] shorter[j]).0,
    ) by {
        assert(term::term_lt(entries[i].0, entries[j].0));
    }
    if term_map::lookup(shorter, entries.last().0) is Some {
        let i = term_map::lookup_is_listed(shorter, entries.last().0);
        assert(term::term_lt(entries[i].0, entries[entries.len() - 1].0));
        term::term_order_is_total(entries[i].0, entries.last().0);
    }
}

/// What indexing gave determines the terms of the prepared document.
proof fn terms_are_determined(
    left: PreparedDocumentView,
    right: PreparedDocumentView,
    indexed: DocumentIndexing,
)
    requires
        prepared_document::holds_indexing(left, indexed),
        prepared_document::holds_indexing(right, indexed),
    ensures
        left.terms == right.terms,
{
    let ids = json_paths::counting_ids(indexed.paths.len());
    let left_raw = choose|raw: Seq<(TermView, Seq<u32>)>| #[trigger]
        postings::lists_occurrences(raw, indexed.occurrences) && postings::normalizes(
            raw,
            ids,
            indexed.paths,
            left.terms,
        );
    let right_raw = choose|raw: Seq<(TermView, Seq<u32>)>| #[trigger]
        postings::lists_occurrences(raw, indexed.occurrences) && postings::normalizes(
            raw,
            ids,
            indexed.paths,
            right.terms,
        );
    assert forall|term: TermView| #[trigger]
        term_map::lookup(left_raw, term) == term_map::lookup(right_raw, term) by {
        assert(term_map::lookup(left_raw, term) == postings::listed(indexed.occurrences, term));
        assert(term_map::lookup(right_raw, term) == postings::listed(indexed.occurrences, term));
    }
    entries_are_determined(left_raw, right_raw);
    assert forall|term: TermView| #[trigger]
        term_map::lookup(left.terms, term) == term_map::lookup(right.terms, term) by {
        let left_found = term_map::lookup(left.terms, term);
        let right_found = term_map::lookup(right.terms, term);
        if left_found is Some && right_found is Some {
            let lists = postings::sources(left_raw, ids, indexed.paths, term);
            preparation_laws::merged_is_unique(
                lists,
                lists,
                left_found->0,
                right_found->0,
            );
        }
    }
    entries_are_determined(left.terms, right.terms);
}

/// What preparing a document gives is determined by the preparer and the document.
pub proof fn preparation_is_determined(
    preparer: PreparerView,
    document: Seq<(Field, ValueView)>,
    left_after: PreparerView,
    left: Result<PreparedDocumentView, ErrorView>,
    right_after: PreparerView,
    right: Result<PreparedDocumentView, ErrorView>,
)
    requires
        prepared_document::prepares(preparer, document, left_after, left),
        prepared_document::prepares(preparer, document, right_after, right),
    ensures
        left == right,
        left_after == right_after,
{
    if let Ok(indexed) = prepared_document::prepared_indexing(preparer, document) {
        terms_are_determined(left->Ok_0, right->Ok_0, indexed);
        assert(left->Ok_0 =~= right->Ok_0);
    }
}

/// A preparer that has prepared any number of documents, whether they were accepted or refused,
/// gives for a document what a fresh one gives.
///
/// `states` are the states of the preparer before and after each of the `documents`, and
/// `outcomes` is what preparing them gave.
pub proof fn reused_preparer_gives_what_a_fresh_one_gives(
    fresh: PreparerView,
    states: Seq<PreparerView>,
    documents: Seq<Seq<(Field, ValueView)>>,
    outcomes: Seq<Result<PreparedDocumentView, ErrorView>>,
    document: Seq<(Field, ValueView)>,
    reused_after: PreparerView,
    reused_outcome: Result<PreparedDocumentView, ErrorView>,
    fresh_after: PreparerView,
    fresh_outcome: Result<PreparedDocumentView, ErrorView>,
)
    requires
        states.len() == documents.len() + 1,
        outcomes.len() == documents.len(),
        states[0] == fresh,
        forall|i: int|
            0 <= i < documents.len() ==> prepared_document::prepares(
                states[i],
                #[trigger] documents[i],
                states[i + 1],
                outcomes[i],
            ),
        prepared_document::prepares(states.last(), document, reused_after, reused_outcome),
        prepared_document::prepares(fresh, document, fresh_after, fresh_outcome),
    ensures
        reused_outcome == fresh_outcome,
        reused_after == fresh_after,
{
    preparer_stays(fresh, states, documents, outcomes, documents.len() as int);
    preparation_is_determined(
        fresh,
        document,
        reused_after,
        reused_outcome,
        fresh_after,
        fresh_outcome,
    );
}

proof fn preparer_stays(
    fresh: PreparerView,
    states: Seq<PreparerView>,
    documents: Seq<Seq<(Field, ValueView)>>,
    outcomes: Seq<Result<PreparedDocumentView, ErrorView>>,
    n: int,
)
    requires
        states.len() == documents.len() + 1,
        states[0] == fresh,
        forall|i: int|
            0 <= i < documents.len() ==> prepared_document::prepares(
                states[i],
                #[trigger] documents[i],
                states[i + 1],
                outcomes[i],
            ),
        0 <= n <= documents.len(),
    ensures
        states[n] == fresh,
    decreases n,
{
    if n > 0 {
        preparer_stays(fresh, states, documents, outcomes, n - 1);
        assert(prepared_document::prepares(
            states[n - 1],
            documents[n - 1],
            states[n - 1 + 1],
            outcomes[n - 1],
        ));
    }
}

/// Fields in ascending order are determined by which fields they are.
proof fn ascending_fields_are_determined(left: Seq<Field>, right: Seq<Field>)
    requires
        fields::ascending(left),
        fields::ascending(right),
        forall|field: Field|
            #![trigger left.contains(field)]
            #![trigger right.contains(field)]
            left.contains(field) <==> right.contains(field),
    ensures
        left == right,
    decreases left.len(),
{
    if left.len() == 0 {
        if right.len() > 0 {
            assert(right.contains(right[0]));
        }
        assert(left =~= right);
    } else {
        assert(left.contains(left.last()));
        assert(right.len() > 0);
        assert(right.contains(right.last()));
        let i = left.index_of(right.last());
        let j = right.index_of(left.last());
        assert(left.last() == right.last()) by {
            if i < left.len() - 1 && j < right.len() - 1 {
                assert(left[i].0 < left[left.len() - 1].0);
                assert(right[j].0 < right[right.len() - 1].0);
            }
        }
        let shorter_left = left.drop_last();
        let shorter_right = right.drop_last();
        assert forall|field: Field|
            #![trigger shorter_left.contains(field)]
            #![trigger shorter_right.contains(field)]
            shorter_left.contains(field) <==> shorter_right.contains(field) by {
            fields_before_last(left, field);
            fields_before_last(right, field);
            assert(left.contains(field) <==> right.contains(field));
        }
        ascending_fields_are_determined(shorter_left, shorter_right);
        assert(left =~= shorter_left.push(left.last()));
        assert(right =~= shorter_right.push(right.last()));
    }
}

proof fn fields_before_last(list: Seq<Field>, field: Field)
    requires
        fields::ascending(list),
        list.len() > 0,
    ensures
        list.drop_last().contains(field) <==> list.contains(field) && field != list.last(),
{
    let shorter = list.drop_last();
    if shorter.contains(field) {
        let i = shorter.index_of(field);
        assert(list[i] == field);
        assert(list[i].0 < list[list.len() - 1].0);
    }
    if list.contains(field) && field != list.last() {
        let i = list.index_of(field);
        assert(shorter[i] == field);
    }
}

/// The order of the required fields, and how often each of them is named, does not matter: not to
/// whether there is a preparer, and not to what it gives for a document.
pub proof fn order_of_required_fields_does_not_matter(
    schema: Seq<FieldEntryView>,
    tokenizers: Seq<Seq<char>>,
    left: Seq<Field>,
    right: Seq<Field>,
    document: Seq<(Field, ValueView)>,
    left_after: PreparerView,
    left_outcome: Result<PreparedDocumentView, ErrorView>,
    right_after: PreparerView,
    right_outcome: Result<PreparedDocumentView, ErrorView>,
)
    requires
        forall|field: Field|
            #![trigger left.contains(field)]
            #![trigger right.contains(field)]
            left.contains(field) <==> right.contains(field),
    ensures
        prepared_document::preparer_for(schema, tokenizers, left)
            == prepared_document::preparer_for(schema, tokenizers, right),
        prepared_document::preparer_for(schema, tokenizers, left) matches Ok(left_preparer)
            ==> prepared_document::preparer_for(schema, tokenizers, right) matches Ok(
            right_preparer,
        ) && (prepared_document::prepares(left_preparer, document, left_after, left_outcome)
            && prepared_document::prepares(right_preparer, document, right_after, right_outcome)
            ==> left_outcome == right_outcome),
{
    fields::sorted_set_is_a_set(left);
    fields::sorted_set_is_a_set(right);
    let left_set = fields::sorted_set(left);
    let right_set = fields::sorted_set(right);
    assert forall|field: Field|
        #![trigger left_set.contains(field)]
        #![trigger right_set.contains(field)]
        left_set.contains(field) <==> right_set.contains(field) by {
        assert(left.contains(field) <==> right.contains(field));
    }
    ascending_fields_are_determined(left_set, right_set);
    if let Ok(preparer) = prepared_document::preparer_for(schema, tokenizers, left) {
        if prepared_document::prepares(preparer, document, left_after, left_outcome)
            && prepared_document::prepares(preparer, document, right_after, right_outcome) {
            preparation_is_determined(
                preparer,
                document,
                left_after,
                left_outcome,
                right_after,
                right_outcome,
            );
        }
    }
}

/// A field does not exist, or is indexed by a tokenizer that is not registered.
pub open spec fn is_unfit(
    schema: Seq<FieldEntryView>,
    tokenizers: Seq<Seq<char>>,
    field: Field,
) -> bool {
    field.0 >= schema.len() || {
        let field_type = schema[field.0 as int].field_type;
        field_type.record_option is Some && (field_type.tokenizer matches Some(tokenizer)
            && !tokenizers.contains(tokenizer))
    }
}

/// There is no preparer exactly where one of the required fields is unfit, and the error is one of
/// the schema. Other fields do not matter.
pub proof fn preparer_is_refused_for_unfit_fields(
    schema: Seq<FieldEntryView>,
    tokenizers: Seq<Seq<char>>,
    required: Seq<Field>,
)
    ensures
        prepared_document::preparer_for(schema, tokenizers, required) is Err <==> exists|i: int|
            0 <= i < required.len() && is_unfit(schema, tokenizers, #[trigger] required[i]),
        prepared_document::preparer_for(schema, tokenizers, required) matches Err(error)
            ==> error is SchemaError,
{
    let set = fields::sorted_set(required);
    fields::sorted_set_is_a_set(required);
    unknown_error_is_for_a_field(set, schema.len());
    if prepared_document::unknown_error(set, schema.len()) is None {
        tokenizer_error_is_for_a_field(schema, tokenizers, set);
    }
    if prepared_document::preparer_for(schema, tokenizers, required) is Err {
        let k = choose|k: int|
            0 <= k < set.len() && is_unfit(schema, tokenizers, #[trigger] set[k]);
        assert(set.contains(set[k]));
        assert(required[required.index_of(set[k])] == set[k]);
    }
    if exists|i: int|
        0 <= i < required.len() && is_unfit(schema, tokenizers, #[trigger] required[i]) {
        let i = choose|i: int|
            0 <= i < required.len() && is_unfit(schema, tokenizers, #[trigger] required[i]);
        assert(required.contains(required[i]));
        assert(set.contains(required[i]));
        assert(is_unfit(schema, tokenizers, set[set.index_of(required[i])]));
    }
}

proof fn unknown_error_is_for_a_field(list: Seq<Field>, num_fields: nat)
    ensures
        prepared_document::unknown_error(list, num_fields) is Some <==> exists|i: int|
            0 <= i < list.len() && (#[trigger] list[i]).0 >= num_fields,
        prepared_document::unknown_error(list, num_fields) matches Some(error)
            ==> error is SchemaError,
    decreases list.len(),
{
    if list.len() > 0 {
        let shorter = list.drop_last();
        unknown_error_is_for_a_field(shorter, num_fields);
        assert(list[list.len() - 1] == list.last());
        if exists|i: int| 0 <= i < shorter.len() && (#[trigger] shorter[i]).0 >= num_fields {
            let i = choose|i: int|
                0 <= i < shorter.len() && (#[trigger] shorter[i]).0 >= num_fields;
            assert(list[i] == shorter[i]);
        }
        if exists|i: int| 0 <= i < list.len() && (#[trigger] list[i]).0 >= num_fields {
            let i = choose|i: int| 0 <= i < list.len() && (#[trigger] list[i]).0 >= num_fields;
            if i < shorter.len() {
                assert(list[i] == shorter[i]);
            }
        }
    }
}

proof fn tokenizer_error_is_for_a_field(
    schema: Seq<FieldEntryView>,
    tokenizers: Seq<Seq<char>>,
    list: Seq<Field>,
)
    requires
        forall|i: int| 0 <= i < list.len() ==> (#[trigger] list[i]).0 < schema.len(),
    ensures
        prepared_document::tokenizer_error(schema, tokenizers, list) is Some <==> exists|i: int|
            0 <= i < list.len() && is_unfit(schema, tokenizers, #[trigger] list[i]),
        prepared_document::tokenizer_error(schema, tokenizers, list) matches Some(error)
            ==> error is SchemaError,
    decreases list.len(),
{
    if list.len() > 0 {
        let shorter = list.drop_last();
        assert forall|i: int| 0 <= i < shorter.len() implies (#[trigger] shorter[i]).0
            < schema.len() by {
            assert(shorter[i] == list[i]);
        }
        tokenizer_error_is_for_a_field(schema, tokenizers, shorter);
        assert(list[list.len() - 1] == list.last());
        if exists|i: int|
            0 <= i < shorter.len() && is_unfit(schema, tokenizers, #[trigger] shorter[i]) {
            let i = choose|i: int|
                0 <= i < shorter.len() && is_unfit(schema, tokenizers, #[trigger] shorter[i]);
            assert(list[i] == shorter[i]);
        }
        if exists|i: int| 0 <= i < list.len() && is_unfit(schema, tokenizers, #[trigger] list[i]) {
            let i = choose|i: int|
                0 <= i < list.len() && is_unfit(schema, tokenizers, #[trigger] list[i]);
            if i < shorter.len() {
                assert(list[i] == shorter[i]);
            }
        }
    }
}

/// Every term of a prepared document has at least one position.
pub proof fn prepared_terms_have_positions(
    document: PreparedDocumentView,
    indexed: DocumentIndexing,
    i: int,
)
    requires
        prepared_document::holds_indexing(document, indexed),
        0 <= i < document.terms.len(),
    ensures
        document.terms[i].1.len() > 0,
{
    let ids = json_paths::counting_ids(indexed.paths.len());
    let raw = choose|raw: Seq<(TermView, Seq<u32>)>| #[trigger]
        postings::lists_occurrences(raw, indexed.occurrences) && postings::normalizes(
            raw,
            ids,
            indexed.paths,
            document.terms,
        );
    let term = document.terms[i].0;
    term_map::lookup_finds(document.terms, i);
    assert(term_map::lookup(document.terms, term) is Some);
    assert forall|k: int| 0 <= k < raw.len() implies (#[trigger] raw[k]).1.len() > 0 by {
        term_map::lookup_finds(raw, k);
        assert(term_map::lookup(raw, raw[k].0) == postings::listed(
            indexed.occurrences,
            raw[k].0,
        ));
    }
    sources_have_positions(raw, ids, indexed.paths, term);
    let lists = postings::sources(raw, ids, indexed.paths, term);
    let merged = document.terms[i].1;
    assert(postings::merges(lists, merged));
    if lists.len() == 1 {
        assert(merged == lists[0]);
    } else {
        broadcast use vstd::seq_lib::group_to_multiset_ensures;
        broadcast use vstd::multiset::group_multiset_axioms;

        assert(postings::all_positions(lists).len() >= lists.last().to_multiset().len());
        assert(lists[lists.len() - 1].len() > 0);
        assert(merged.to_multiset().len() == merged.len());
    }
}

proof fn sources_have_positions(
    raw: Seq<(TermView, Seq<u32>)>,
    ordered_ids: Seq<u32>,
    paths: Seq<Seq<char>>,
    term: TermView,
)
    requires
        forall|k: int| 0 <= k < raw.len() ==> (#[trigger] raw[k]).1.len() > 0,
    ensures
        forall|k: int|
            0 <= k < postings::sources(raw, ordered_ids, paths, term).len() ==> (
            #[trigger] postings::sources(raw, ordered_ids, paths, term)[k]).len() > 0,
    decreases raw.len(),
{
    if raw.len() > 0 {
        let shorter = raw.drop_last();
        assert forall|k: int| 0 <= k < shorter.len() implies (#[trigger] shorter[k]).1.len()
            > 0 by {
            assert(shorter[k] == raw[k]);
        }
        assert(raw[raw.len() - 1].1.len() > 0);
        sources_have_positions(shorter, ordered_ids, paths, term);
        let before = postings::sources(shorter, ordered_ids, paths, term);
        let lists = postings::sources(raw, ordered_ids, paths, term);
        assert forall|k: int| 0 <= k < lists.len() implies (#[trigger] lists[k]).len() > 0 by {
            if k < before.len() {
                assert(lists[k] == before[k]);
            }
        }
    }
}

/// What a prepared document tells of a term, be it asked for or listed, has at least one position.
/// The frequency is the number of positions, and greater than zero, as far as that number fits.
pub proof fn prepared_occurrences_are_sound(
    document: PreparedDocumentView,
    indexed: DocumentIndexing,
    field: Field,
    start: BoundView,
    end: BoundView,
    term: TermView,
    info: TermInfoView,
)
    requires
        prepared_document::holds_indexing(document, indexed),
        (document.answers().term_info)(term) == Some(info) || (document.answers().visited)(
            field,
            start,
            end,
        ).contains((term, info)),
    ensures
        (document.answers().term_info)(term) == Some(info),
        info.positions matches Some(positions) && positions.len() > 0 && (positions.len()
            <= u32::MAX ==> info.term_freq == positions.len()),
{
    prepared_document::listed_terms_are_those_held(document, field, start, end, term, info);
    let i = term_map::lookup_is_listed(document.terms, term);
    prepared_terms_have_positions(document, indexed, i);
}

/// No term is listed for a range that ends before it starts, or that starts and ends at one term
/// which it does not hold.
pub proof fn empty_ranges_list_nothing(
    document: PreparedDocumentView,
    field: Field,
    start: BoundView,
    end: BoundView,
    first: TermView,
    last: TermView,
)
    requires
        term_map::ascending(document.terms),
        start == BoundView::Included(first) || start == BoundView::Excluded(first),
        end == BoundView::Included(last) || end == BoundView::Excluded(last),
        term::term_lt(last, first) || (first == last && (start is Excluded || end is Excluded)),
    ensures
        (document.answers().visited)(field, start, end).len() == 0,
{
    let visited = (document.answers().visited)(field, start, end);
    if visited.len() > 0 {
        let (term, info) = visited[0];
        assert(visited.contains((term, info)));
        prepared_document::listed_terms_are_those_held(document, field, start, end, term, info);
        assert(single_document::after_start(start, term));
        assert(single_document::before_end(end, term));
        term::term_order_is_total(first, term);
        term::term_order_is_total(term, last);
        term::term_order_is_total(last, first);
        if term::term_lt(last, first) && term::term_lt(first, term) {
            term::term_order_is_transitive(last, first, term);
        }
        if term::term_lt(first, term) && term::term_lt(term, last) {
            term::term_order_is_transitive(first, term, last);
        }
    }
}

} // verus!
