//! What the evaluation of phrases means: where the terms of a phrase stand in a document.

use vstd::prelude::*;
use crate::error::ErrorView;
use crate::phrase;
use crate::phrase_order;
use crate::phrase_prefix_evaluator;
use crate::phrase_prefix_evaluator::PhrasePrefixEvaluatorView;
use crate::phrase_query;
use crate::phrase_query::PhraseEvaluatorView;
use crate::positions;
use crate::single_document::{BoundView, DocumentView, TermInfoView};
use crate::term::TermView;

verus! {

/// A list of occurrences holds a position.
pub open spec fn has_position(info: TermInfoView, position: int) -> bool {
    info.positions matches Some(positions) && exists|i: int|
        0 <= i < positions.len() && #[trigger] positions[i] == position
}

/// A term stands at a position of a document.
pub open spec fn stands_at(document: DocumentView, term: TermView, position: int) -> bool {
    (document.term_info)(term) matches Some(info) && has_position(info, position)
}

/// The terms of a phrase stand in a document, each at its offset, so that the offset `target` of
/// the phrase is at `position`.
pub open spec fn phrase_stands_at(
    document: DocumentView,
    terms: Seq<(usize, TermView)>,
    target: nat,
    position: int,
) -> bool {
    forall|i: int|
        0 <= i < terms.len() ==> stands_at(
            document,
            (#[trigger] terms[i]).1,
            position - (target - terms[i].0),
        )
}

/// The positions of a term that were read are those of the document, moved.
proof fn checked_positions_are_moved(
    query: Seq<char>,
    term: TermView,
    info: TermInfoView,
    offset: nat,
    position: u32,
)
    requires
        phrase::checked_positions(query, term, info, offset) is Ok,
    ensures
        phrase::checked_positions(query, term, info, offset)->Ok_0.contains(position)
            <==> has_position(info, position - offset),
{
    let found = phrase::checked_positions(query, term, info, offset)->Ok_0;
    let positions = info.positions->0;
    assert forall|i: int| 0 <= i < positions.len() implies found[i] == #[trigger] positions[i]
        + offset by {
        assert(positions[i] <= positions.last());
    }
    if found.contains(position) {
        let i = found.index_of(position);
        assert(positions[i] == position - offset);
    }
    if has_position(info, position - offset) {
        let i = choose|i: int|
            0 <= i < positions.len() && #[trigger] positions[i] == position - offset;
        assert(found[i] == position);
    }
}

pub(crate) proof fn common_positions(
    query: Seq<char>,
    terms: Seq<(usize, TermView)>,
    target: nat,
    document: DocumentView,
    position: u32,
)
    requires
        terms.len() > 0,
        forall|i: int| 0 <= i < terms.len() ==> (#[trigger] terms[i]).0 <= target,
        phrase::fixed_positions(query, terms, target, document) is Ok,
    ensures
        phrase_stands_at(document, terms, target, position as int) <==> (phrase::fixed_positions(
            query,
            terms,
            target,
            document,
        )->Ok_0 matches Some(lists) && positions::shared_by_all(lists).contains(position)),
        phrase::fixed_positions(query, terms, target, document)->Ok_0 matches Some(lists)
            ==> lists.len() == terms.len(),
    decreases terms.len(),
{
    broadcast use {
        vstd::seq_lib::group_to_multiset_ensures,
        vstd::multiset::lemma_intersection_count,
    };

    let shorter = terms.drop_last();
    let (offset, term) = terms.last();
    assert(terms[terms.len() - 1] == terms.last());
    let before = phrase::fixed_positions(query, shorter, target, document);
    assert forall|i: int| 0 <= i < shorter.len() implies (#[trigger] shorter[i]).0 <= target by {
        assert(shorter[i] == terms[i]);
    }
    assert(phrase_stands_at(document, terms, target, position as int) <==> phrase_stands_at(
        document,
        shorter,
        target,
        position as int,
    ) && stands_at(document, term, position - (target - offset))) by {
        if phrase_stands_at(document, terms, target, position as int) {
            assert forall|i: int| 0 <= i < shorter.len() implies stands_at(
                document,
                (#[trigger] shorter[i]).1,
                position - (target - shorter[i].0),
            ) by {
                assert(shorter[i] == terms[i]);
            }
        }
        if phrase_stands_at(document, shorter, target, position as int) && stands_at(
            document,
            term,
            position - (target - offset),
        ) {
            assert forall|i: int| 0 <= i < terms.len() implies stands_at(
                document,
                (#[trigger] terms[i]).1,
                position - (target - terms[i].0),
            ) by {
                if i < shorter.len() {
                    assert(shorter[i] == terms[i]);
                }
            }
        }
    }
    if shorter.len() > 0 {
        common_positions(query, shorter, target, document, position);
    } else {
        assert(before == Ok::<Option<Seq<Seq<u32>>>, ErrorView>(Some(Seq::empty())));
    }
    if let Some(lists) = before->Ok_0 {
        if let Some(info) = (document.term_info)(term) {
            let moved = (target - offset) as nat;
            let found = phrase::checked_positions(query, term, info, moved)->Ok_0;
            checked_positions_are_moved(query, term, info, moved, position);
            let all = lists.push(found);
            assert(all.drop_last() =~= lists);
            assert(found.to_multiset().contains(position) <==> found.contains(position));
            if lists.len() == 0 {
                assert(positions::shared_by_all(all) == found.to_multiset());
            } else {
                assert(positions::shared_by_all(all) == positions::shared_by_all(
                    lists,
                ).intersection_with(found.to_multiset()));
            }
        }
    }
}

/// A phrase matches exactly the documents in which its terms stand, each at its offset.
pub proof fn phrase_matches_where_its_terms_stand(
    evaluator: PhraseEvaluatorView,
    document: DocumentView,
)
    requires
        evaluator.phrase_terms.len() > 0,
        phrase_order::ordered(evaluator.phrase_terms),
        phrase_query::phrase_result(evaluator, document) is Ok,
    ensures
        phrase_query::phrase_result(evaluator, document)->Ok_0 is Match <==> exists|position: int|
            #[trigger] phrase_stands_at(
                document,
                evaluator.phrase_terms,
                evaluator.phrase_terms.last().0 as nat,
                position,
            ),
{
    broadcast use {vstd::multiset::axiom_count_le_len, vstd::multiset::axiom_choose_count};

    let terms = evaluator.phrase_terms;
    let target = terms.last().0 as nat;
    assert forall|i: int| 0 <= i < terms.len() implies (#[trigger] terms[i]).0 <= target by {
        assert(terms[i].0 <= terms[terms.len() - 1].0);
    }
    let fixed = phrase::fixed_positions("PhraseQuery"@, terms, target, document);
    if phrase_query::phrase_result(evaluator, document)->Ok_0 is Match {
        let common = positions::shared_by_all(fixed->Ok_0->0);
        let position = common.choose();
        assert(common.count(position) > 0);
        common_positions("PhraseQuery"@, terms, target, document, position);
        assert(phrase_stands_at(document, terms, target, position as int));
    }
    if exists|position: int| #[trigger] phrase_stands_at(document, terms, target, position) {
        let position = choose|position: int| #[trigger]
            phrase_stands_at(document, terms, target, position);
        position_fits("PhraseQuery"@, terms, target, document, position);
        common_positions("PhraseQuery"@, terms, target, document, position as u32);
        let common = positions::shared_by_all(fixed->Ok_0->0);
        assert(common.count(position as u32) > 0);
    }
}

/// Where all positions could be read, a phrase stands only at positions that fit.
proof fn position_fits(
    query: Seq<char>,
    terms: Seq<(usize, TermView)>,
    target: nat,
    document: DocumentView,
    position: int,
)
    requires
        terms.len() > 0,
        forall|i: int| 0 <= i < terms.len() ==> (#[trigger] terms[i]).0 <= target,
        phrase::fixed_positions(query, terms, target, document) is Ok,
        phrase_stands_at(document, terms, target, position),
    ensures
        0 <= position <= u32::MAX,
    decreases terms.len(),
{
    let shorter = terms.drop_last();
    assert(terms[terms.len() - 1] == terms.last());
    let (offset, term) = terms.last();
    if shorter.len() > 0 {
        assert forall|i: int| 0 <= i < shorter.len() implies (#[trigger] shorter[i]).0
            <= target by {
            assert(shorter[i] == terms[i]);
        }
        assert forall|i: int| 0 <= i < shorter.len() implies stands_at(
            document,
            (#[trigger] shorter[i]).1,
            position - (target - shorter[i].0),
        ) by {
            assert(shorter[i] == terms[i]);
        }
        position_fits(query, shorter, target, document, position);
    } else {
        assert(phrase::fixed_positions(query, shorter, target, document) == Ok::<
            Option<Seq<Seq<u32>>>,
            ErrorView,
        >(Some(Seq::empty())));
        let info = (document.term_info)(term)->0;
        let list = info.positions->0;
        assert(stands_at(document, term, position - (target - offset)));
        let i = choose|i: int|
            0 <= i < list.len() && #[trigger] list[i] == position - (target - offset);
        assert(phrase::checked_positions(query, term, info, (target - offset) as nat) is Ok);
        assert(list[i] <= list.last());
    }
}

/// A term to which the prefix expands stands at a position.
pub open spec fn expansion_stands_at(
    evaluator: PhrasePrefixEvaluatorView,
    document: DocumentView,
    position: int,
) -> bool {
    exists|i: int|
        0 <= i < phrase_prefix_evaluator::expansions(evaluator, document).len() && has_position(
            (#[trigger] phrase_prefix_evaluator::expansions(evaluator, document)[i]).1,
            position,
        )
}

proof fn suffix_positions_are_those_of_the_terms(
    entries: Seq<(TermView, TermInfoView)>,
    position: u32,
)
    requires
        phrase_prefix_evaluator::suffix_positions(entries, true) is Ok,
    ensures
        phrase_prefix_evaluator::suffix_positions(entries, true)->Ok_0.contains(position)
            <==> exists|i: int|
            0 <= i < entries.len() && has_position((#[trigger] entries[i]).1, position as int),
    decreases entries.len(),
{
    if entries.len() > 0 {
        let shorter = entries.drop_last();
        let (term, info) = entries.last();
        suffix_positions_are_those_of_the_terms(shorter, position);
        let before = phrase_prefix_evaluator::suffix_positions(shorter, true)->Ok_0;
        let found = phrase::checked_positions("PhrasePrefixQuery"@, term, info, 0)->Ok_0;
        let all = before + found;
        checked_positions_are_moved("PhrasePrefixQuery"@, term, info, 0, position);
        assert(all.contains(position) <==> before.contains(position) || found.contains(position))
            by {
            if before.contains(position) {
                assert(all[before.index_of(position)] == position);
            }
            if found.contains(position) {
                assert(all[before.len() + found.index_of(position)] == position);
            }
            if all.contains(position) {
                let i = all.index_of(position);
                if i < before.len() {
                    assert(before[i] == position);
                } else {
                    assert(found[i - before.len()] == position);
                }
            }
        }
        assert(entries[entries.len() - 1] == entries.last());
        if exists|i: int|
            0 <= i < entries.len() && has_position((#[trigger] entries[i]).1, position as int) {
            let i = choose|i: int|
                0 <= i < entries.len() && has_position((#[trigger] entries[i]).1, position as int);
            if i < shorter.len() {
                assert(shorter[i] == entries[i]);
            }
        }
        if before.contains(position) {
            let i = choose|i: int|
                0 <= i < shorter.len() && has_position((#[trigger] shorter[i]).1, position as int);
            assert(entries[i] == shorter[i]);
        }
    }
}

/// A phrase with a prefix matches exactly the documents in which a term to which the prefix
/// expands stands where the fixed terms meet. Without fixed terms, it is enough that the prefix
/// expands to a term.
pub proof fn phrase_prefix_matches_where_its_terms_stand(
    evaluator: PhrasePrefixEvaluatorView,
    document: DocumentView,
)
    requires
        forall|i: int|
            0 <= i < evaluator.phrase_terms.len() ==> (#[trigger] evaluator.phrase_terms[i]).0
                <= evaluator.fixed_position_target,
        phrase_prefix_evaluator::phrase_prefix_result(evaluator, document) is Ok,
    ensures
        phrase_prefix_evaluator::phrase_prefix_result(evaluator, document)->Ok_0 is Match <==> (
        if evaluator.phrase_terms.len() == 0 {
            phrase_prefix_evaluator::expansions(evaluator, document).len() > 0
        } else {
            exists|position: int| #[trigger]
                phrase_stands_at(
                    document,
                    evaluator.phrase_terms,
                    evaluator.fixed_position_target as nat,
                    position,
                ) && expansion_stands_at(evaluator, document, position)
        }),
{
    broadcast use vstd::multiset::axiom_count_le_len;

    let terms = evaluator.phrase_terms;
    let target = evaluator.fixed_position_target as nat;
    let expanded = phrase_prefix_evaluator::expansions(evaluator, document);
    if terms.len() > 0 {
        let suffix = phrase_prefix_evaluator::suffix_positions(expanded, true)->Ok_0;
        let fixed = phrase::fixed_positions("PhrasePrefixQuery"@, terms, target, document);
        if phrase_prefix_evaluator::phrase_prefix_result(evaluator, document)->Ok_0 is Match {
            let common = positions::shared_by_all(fixed->Ok_0->0);
            let position = choose|position: u32| #[trigger]
                common.contains(position) && suffix.contains(position);
            common_positions("PhrasePrefixQuery"@, terms, target, document, position);
            suffix_positions_are_those_of_the_terms(expanded, position);
            assert(phrase_stands_at(document, terms, target, position as int));
            assert(expansion_stands_at(evaluator, document, position as int));
        }
        if exists|position: int| #[trigger]
            phrase_stands_at(document, terms, target, position) && expansion_stands_at(
                evaluator,
                document,
                position,
            ) {
            let position = choose|position: int| #[trigger]
                phrase_stands_at(document, terms, target, position) && expansion_stands_at(
                    evaluator,
                    document,
                    position,
                );
            assert(expanded.len() > 0);
            position_fits("PhrasePrefixQuery"@, terms, target, document, position);
            common_positions("PhrasePrefixQuery"@, terms, target, document, position as u32);
            suffix_positions_are_those_of_the_terms(expanded, position as u32);
            let common = positions::shared_by_all(fixed->Ok_0->0);
            assert(common.contains(position as u32) && suffix.contains(position as u32));
        }
    }
}

/// A prefix expands to no more terms than allowed, all of them terms of the document that begin
/// with it. Where it could expand to more, no term that begins with it is left out.
pub proof fn expansions_are_limited(
    evaluator: PhrasePrefixEvaluatorView,
    document: DocumentView,
    term: TermView,
    info: TermInfoView,
)
    ensures
        ({
            let visited = (document.visited)(
                evaluator.field,
                BoundView::Included(evaluator.prefix),
                phrase_prefix_evaluator::range_end(evaluator.field, evaluator.prefix),
            );
            let expanded = phrase_prefix_evaluator::expansions(evaluator, document);
            &&& expanded.len() <= evaluator.max_expansions
            &&& expanded.contains((term, info)) ==> visited.contains((term, info))
                && evaluator.prefix.value.is_prefix_of(term.value)
            &&& expanded.len() < evaluator.max_expansions && visited.contains((term, info))
                && evaluator.prefix.value.is_prefix_of(term.value) ==> expanded.contains(
                (term, info),
            )
        }),
{
    let visited = (document.visited)(
        evaluator.field,
        BoundView::Included(evaluator.prefix),
        phrase_prefix_evaluator::range_end(evaluator.field, evaluator.prefix),
    );
    let pred = phrase_prefix_evaluator::begins_with(evaluator.prefix.value);
    let expanded = phrase_prefix_evaluator::expansions(evaluator, document);
    let kept = visited.filter(pred);
    if expanded.contains((term, info)) {
        let i = expanded.index_of((term, info));
        assert(kept[i] == (term, info));
        visited.lemma_filter_pred(pred, i);
        visited.lemma_filter_contains_rev(pred, (term, info));
    }
    if visited.contains((term, info)) && evaluator.prefix.value.is_prefix_of(term.value) {
        let i = visited.index_of((term, info));
        assert(pred(visited[i]));
        visited.lemma_filter_contains(pred, i);
        assert(kept.contains((term, info)));
    }
}

} // verus!
