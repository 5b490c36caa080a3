//! What the queries for phrases have in common: reading the positions of their terms.

use vstd::prelude::*;
use crate::error;
use crate::error::{ErrorView, TantivyError};
use crate::positions;
use crate::schema::{Field, FieldType, FieldTypeView, IndexRecordOption};
use crate::score;
use crate::score::{DocumentEvaluation, EvaluationView, Score, ScoreView};
use crate::single_document;
use crate::single_document::{DocumentView, SingleDocument, SingleDocumentTermInfo, TermInfoView};
use crate::statistics;
use crate::statistics::{Bm25Weight, Bm25WeightView};
use crate::term::{Term, TermView};

verus! {

/// The terms of a phrase, each with its offset in the phrase.
pub open spec fn phrase_views(terms: Seq<(usize, Term)>) -> Seq<(usize, TermView)> {
    terms.map_values(|entry: (usize, Term)| (entry.0, entry.1@))
}

/// The terms of a phrase without their offsets.
pub open spec fn terms_of(phrase: Seq<(usize, TermView)>) -> Seq<TermView> {
    phrase.map_values(|entry: (usize, TermView)| entry.1)
}

/// Every position moved by `offset`.
pub open spec fn shifted(positions: Seq<u32>, offset: nat) -> Seq<u32> {
    positions.map_values(|position: u32| (position + offset) as u32)
}

/// The positions of a term, moved by `offset`, or what is wrong with them. `query` names the query
/// in the messages.
pub open spec fn checked_positions(
    query: Seq<char>,
    term: TermView,
    info: TermInfoView,
    offset: nat,
) -> Result<Seq<u32>, ErrorView> {
    if info.term_freq == 0 {
        Err(error::zero_term_frequency(term))
    } else {
        match info.positions {
            None => Err(error::positions_missing(term)),
            Some(positions) => if positions.len() != info.term_freq {
                Err(error::position_count(positions.len(), info.term_freq as nat, term))
            } else if !positions::sorted(positions) {
                Err(error::positions_unsorted(term))
            } else if offset > u32::MAX {
                Err(error::offset_too_large(query, term))
            } else if positions.last() + offset > u32::MAX {
                Err(error::adjusted_position_too_large(query, term))
            } else {
                Ok(shifted(positions, offset))
            },
        }
    }
}

/// Appends the positions of a term to `output`, each moved by `position_offset`.
pub fn validated_positions(
    query: &str,
    term: &Term,
    term_info: SingleDocumentTermInfo<'_>,
    position_offset: usize,
    output: &mut Vec<u32>,
) -> (r: Result<(), TantivyError>)
    ensures
        match r {
            Ok(_) => checked_positions(query@, term@, term_info@, position_offset as nat) is Ok
                && final(output)@ == old(output)@ + checked_positions(
                query@,
                term@,
                term_info@,
                position_offset as nat,
            )->Ok_0,
            Err(error) => checked_positions(query@, term@, term_info@, position_offset as nat)
                == Err::<Seq<u32>, ErrorView>(error@) && final(output)@ == old(output)@,
        },
{
    match single_document::validate_term_info(term, term_info.term_freq) {
        Ok(_) => {},
        Err(error) => {
            return Err(error);
        },
    }
    let positions: &[u32] = match term_info.positions {
        Some(positions) => positions,
        None => {
            return Err(error::positions_missing_error(term));
        },
    };
    if positions.len() != term_info.term_freq as usize {
        return Err(
            error::position_count_error(positions.len() as u64, term_info.term_freq as u64, term),
        );
    }
    if !positions::is_sorted(positions) {
        return Err(error::positions_unsorted_error(term));
    }
    if position_offset as u64 > u32::MAX as u64 {
        return Err(error::offset_too_large_error(query, term));
    }
    let offset: u32 = position_offset as u32;
    if positions[positions.len() - 1] > u32::MAX - offset {
        return Err(error::adjusted_position_too_large_error(query, term));
    }
    let ghost before = output@;
    let ghost moved = shifted(positions@, offset as nat);
    let mut i: usize = 0;
    assert(before + moved.take(0) =~= before);
    while i < positions.len()
        invariant
            i <= positions.len(),
            positions@.len() > 0,
            positions::sorted(positions@),
            positions@.last() + offset <= u32::MAX,
            moved == shifted(positions@, offset as nat),
            output@ == before + moved.take(i as int),
        decreases positions.len() - i,
    {
        assert(positions@[i as int] <= positions@.last());
        output.push(positions[i] + offset);
        assert(before + moved.take(i + 1) =~= (before + moved.take(i as int)).push(
            moved[i as int],
        ));
        i += 1;
    }
    assert(moved.take(i as int) =~= moved);
    Ok(())
}

/// The positions that were read are sorted, and there are as many as the term occurs.
pub proof fn checked_positions_are_sorted(
    query: Seq<char>,
    term: TermView,
    info: TermInfoView,
    offset: nat,
)
    ensures
        checked_positions(query, term, info, offset) matches Ok(found) ==> positions::sorted(found)
            && found.len() == info.term_freq,
{
    if let Ok(found) = checked_positions(query, term, info, offset) {
        let positions = info.positions->0;
        assert forall|i: int, j: int| 0 <= i <= j < found.len() implies found[i] <= found[j] by {
            assert(positions[i] <= positions[j] <= positions.last());
        }
    }
}

/// The positions of the terms of a phrase, each moved so that an occurrence of the phrase has all
/// of its terms at one position: a term that stands `target - offset` before the common position
/// is moved by that much. `None` where a term does not occur in the document.
pub open spec fn fixed_positions(
    query: Seq<char>,
    phrase: Seq<(usize, TermView)>,
    target: nat,
    document: DocumentView,
) -> Result<Option<Seq<Seq<u32>>>, ErrorView>
    decreases phrase.len(),
{
    if phrase.len() == 0 {
        Ok(Some(Seq::empty()))
    } else {
        match fixed_positions(query, phrase.drop_last(), target, document) {
            Err(error) => Err(error),
            Ok(None) => Ok(None),
            Ok(Some(lists)) => {
                let (offset, term) = phrase.last();
                match (document.term_info)(term) {
                    None => Ok(None),
                    Some(info) => match checked_positions(
                        query,
                        term,
                        info,
                        (target - offset) as nat,
                    ) {
                        Err(error) => Err(error),
                        Ok(found) => Ok(Some(lists.push(found))),
                    },
                }
            },
        }
    }
}

/// What ends the reading among the first terms of a phrase ends it for the whole phrase.
proof fn fixed_positions_end_of_prefix(
    query: Seq<char>,
    phrase: Seq<(usize, TermView)>,
    target: nat,
    document: DocumentView,
    n: int,
)
    requires
        0 <= n <= phrase.len(),
        !(fixed_positions(query, phrase.take(n), target, document) matches Ok(Some(_))),
    ensures
        fixed_positions(query, phrase, target, document) == fixed_positions(
            query,
            phrase.take(n),
            target,
            document,
        ),
    decreases phrase.len() - n,
{
    if n == phrase.len() {
        assert(phrase.take(n) =~= phrase);
    } else {
        assert(phrase.take(n + 1).drop_last() =~= phrase.take(n));
        fixed_positions_end_of_prefix(query, phrase, target, document, n + 1);
    }
}

/// Reads the positions of the terms of a phrase from a document.
pub fn load_positions<D: SingleDocument + ?Sized>(
    query: &str,
    terms: &[(usize, Term)],
    target: usize,
    document: &D,
) -> (r: Result<Option<Vec<Vec<u32>>>, TantivyError>)
    requires
        forall|i: int| 0 <= i < terms@.len() ==> (#[trigger] terms@[i]).0 <= target,
    ensures
        match r {
            Ok(Some(lists)) => fixed_positions(
                query@,
                phrase_views(terms@),
                target as nat,
                document.document(),
            ) == Ok::<Option<Seq<Seq<u32>>>, ErrorView>(Some(positions::list_views(lists@)))
                && lists@.len() == terms@.len() && forall|i: int|
                0 <= i < lists@.len() ==> positions::sorted((#[trigger] lists@[i])@)
                    && lists@[i]@.len() <= u32::MAX,
            Ok(None) => fixed_positions(
                query@,
                phrase_views(terms@),
                target as nat,
                document.document(),
            ) == Ok::<Option<Seq<Seq<u32>>>, ErrorView>(None),
            Err(error) => fixed_positions(
                query@,
                phrase_views(terms@),
                target as nat,
                document.document(),
            ) == Err::<Option<Seq<Seq<u32>>>, ErrorView>(error@),
        },
{
    let ghost phrase = phrase_views(terms@);
    let ghost view = document.document();
    let mut lists: Vec<Vec<u32>> = Vec::new();
    let mut i: usize = 0;
    assert(phrase.take(0) =~= Seq::empty());
    assert(positions::list_views(lists@) =~= Seq::empty());
    while i < terms.len()
        invariant
            i <= terms.len(),
            forall|j: int| 0 <= j < terms@.len() ==> (#[trigger] terms@[j]).0 <= target,
            phrase == phrase_views(terms@),
            view == document.document(),
            lists@.len() == i,
            forall|j: int|
                0 <= j < lists@.len() ==> positions::sorted((#[trigger] lists@[j])@)
                    && lists@[j]@.len() <= u32::MAX,
            fixed_positions(query@, phrase.take(i as int), target as nat, view) == Ok::<
                Option<Seq<Seq<u32>>>,
                ErrorView,
            >(Some(positions::list_views(lists@))),
        decreases terms.len() - i,
    {
        assert(phrase.take(i + 1).drop_last() =~= phrase.take(i as int));
        assert(phrase.take(i + 1).last() == (terms@[i as int].0, terms@[i as int].1@));
        let term: &Term = &terms[i].1;
        let offset: usize = terms[i].0;
        let term_info = match document.term_info(term) {
            Some(term_info) => term_info,
            None => {
                proof {
                    fixed_positions_end_of_prefix(query@, phrase, target as nat, view, i + 1);
                }
                return Ok(None);
            },
        };
        let mut adjusted: Vec<u32> = Vec::new();
        match validated_positions(query, term, term_info, target - offset, &mut adjusted) {
            Ok(_) => {},
            Err(error) => {
                proof {
                    fixed_positions_end_of_prefix(query@, phrase, target as nat, view, i + 1);
                }
                return Err(error);
            },
        }
        proof {
            checked_positions_are_sorted(query@, term@, term_info@, (target - offset) as nat);
        }
        let ghost before = lists@;
        let ghost found = checked_positions(
            query@,
            term@,
            term_info@,
            (target - offset) as nat,
        )->Ok_0;
        assert(adjusted@ =~= found);
        lists.push(adjusted);
        assert(positions::list_views(lists@) =~= positions::list_views(before).push(found));
        i += 1;
    }
    assert(phrase.take(i as int) =~= phrase);
    Ok(Some(lists))
}

/// Copies the terms of a phrase.
pub fn copy_terms(terms: &[(usize, Term)]) -> (r: Vec<(usize, Term)>)
    ensures
        phrase_views(r@) == phrase_views(terms@),
{
    let mut r: Vec<(usize, Term)> = Vec::new();
    let mut i: usize = 0;
    while i < terms.len()
        invariant
            i <= terms.len(),
            r@.len() == i,
            forall|j: int|
                0 <= j < i ==> (#[trigger] r@[j]).0 == terms@[j].0 && r@[j].1@ == terms@[j].1@,
        decreases terms.len() - i,
    {
        r.push((terms[i].0, terms[i].1.clone()));
        i += 1;
    }
    assert(phrase_views(r@) =~= phrase_views(terms@));
    r
}

/// Copies the terms of a phrase without their offsets.
pub fn copy_without_offsets(terms: &[(usize, Term)]) -> (r: Vec<Term>)
    ensures
        statistics::term_views(r@) == terms_of(phrase_views(terms@)),
{
    let mut r: Vec<Term> = Vec::new();
    let mut i: usize = 0;
    while i < terms.len()
        invariant
            i <= terms.len(),
            r@.len() == i,
            forall|j: int| 0 <= j < i ==> (#[trigger] r@[j])@ == terms@[j].1@,
        decreases terms.len() - i,
    {
        r.push(terms[i].1.clone());
        i += 1;
    }
    assert(statistics::term_views(r@) =~= terms_of(phrase_views(terms@)));
    r
}

/// The result for a document in which a phrase occurs `count` times. Without a weight the score is
/// one. A field with fieldnorms needs the fieldnorm of the document, others count as one token
/// long.
pub open spec fn phrase_score(
    weight: Option<Bm25WeightView>,
    has_fieldnorms: bool,
    field: Field,
    count: nat,
    document: DocumentView,
) -> Result<EvaluationView, ErrorView> {
    match weight {
        None => Ok(EvaluationView::Match(score::unit_score())),
        Some(weight) => match single_document::scoring_fieldnorm(field, has_fieldnorms, document) {
            Err(error) => Err(error),
            Ok(fieldnorm_id) => Ok(
                EvaluationView::Match(
                    ScoreView::Bm25 { weight, fieldnorm_id, term_freq: count as u32 },
                ),
            ),
        },
    }
}

/// Scores a document in which a phrase occurs `count` times.
pub fn score_phrase<D: SingleDocument + ?Sized>(
    weight: &Option<Bm25Weight>,
    has_fieldnorms: bool,
    field: Field,
    count: u32,
    document: &D,
) -> (r: Result<DocumentEvaluation, TantivyError>)
    ensures
        single_document::evaluation(r) == phrase_score(
            statistics::weight_view(*weight),
            has_fieldnorms,
            field,
            count as nat,
            document.document(),
        ),
{
    match weight {
        None => Ok(DocumentEvaluation::Match(Score::one())),
        Some(weight) => {
            match single_document::fieldnorm_for_scoring(field, has_fieldnorms, document) {
                Err(error) => Err(error),
                Ok(fieldnorm_id) => Ok(
                    DocumentEvaluation::Match(
                        Score::Bm25 { weight: weight.clone(), fieldnorm_id, term_freq: count },
                    ),
                ),
            }
        },
    }
}

/// The error for the first term whose postings have no positions.
pub open spec fn postings_error(
    query: Seq<char>,
    terms: Seq<(usize, TermView)>,
    field_type: FieldTypeView,
    stored: IndexRecordOption,
) -> Option<ErrorView>
    decreases terms.len(),
{
    if terms.len() == 0 {
        None
    } else {
        match postings_error(query, terms.drop_last(), field_type, stored) {
            Some(error) => Some(error),
            None => if single_document::term_record_option(
                field_type,
                terms.last().1,
                IndexRecordOption::WithFreqsAndPositions,
                stored,
            ) != IndexRecordOption::WithFreqsAndPositions {
                Some(error::no_position_postings(query, terms.last().1))
            } else {
                None
            },
        }
    }
}

/// An error among the first terms is the error of all of them.
proof fn postings_error_of_prefix(
    query: Seq<char>,
    terms: Seq<(usize, TermView)>,
    field_type: FieldTypeView,
    stored: IndexRecordOption,
    n: int,
)
    requires
        0 <= n <= terms.len(),
        postings_error(query, terms.take(n), field_type, stored) is Some,
    ensures
        postings_error(query, terms, field_type, stored) == postings_error(
            query,
            terms.take(n),
            field_type,
            stored,
        ),
    decreases terms.len() - n,
{
    if n == terms.len() {
        assert(terms.take(n) =~= terms);
    } else {
        assert(terms.take(n + 1).drop_last() =~= terms.take(n));
        postings_error_of_prefix(query, terms, field_type, stored, n + 1);
    }
}

/// Checks that the postings of the terms of a phrase have positions.
pub fn check_postings(
    query: &str,
    terms: &[(usize, Term)],
    field_type: &FieldType,
    stored: IndexRecordOption,
) -> (r: Result<(), TantivyError>)
    ensures
        match r {
            Ok(_) => postings_error(
                query@,
                phrase_views(terms@),
                field_type@,
                stored,
            ) is None,
            Err(error) => postings_error(
                query@,
                phrase_views(terms@),
                field_type@,
                stored,
            ) == Some(error@),
        },
{
    let ghost all = phrase_views(terms@);
    let mut i: usize = 0;
    while i < terms.len()
        invariant
            i <= terms.len(),
            all == phrase_views(terms@),
            postings_error(query@, all.take(i as int), field_type@, stored) is None,
        decreases terms.len() - i,
    {
        assert(all.take(i + 1).drop_last() =~= all.take(i as int));
        assert(all.take(i + 1).last() == (terms@[i as int].0, terms@[i as int].1@));
        let record_option = single_document::downgrade_record_option_for_term(
            field_type,
            &terms[i].1,
            IndexRecordOption::WithFreqsAndPositions,
            stored,
        );
        if !record_option.has_positions() {
            proof {
                postings_error_of_prefix(query@, all, field_type@, stored, i + 1);
            }
            return Err(error::no_position_postings_error(query, &terms[i].1));
        }
        i += 1;
    }
    assert(all.take(i as int) =~= all);
    Ok(())
}

} // verus!
