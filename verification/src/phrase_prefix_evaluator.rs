//! The evaluation of a phrase with a prefix on a single document.

use vstd::prelude::*;
use vstd::multiset::Multiset;
use crate::bytes;
use crate::error::{ErrorView, TantivyError};
use crate::phrase;
use crate::positions;
use crate::schema::Field;
use crate::score::{Boost, DocumentEvaluation, EvaluationView, Score, ScoreView};
use crate::single_document;
use crate::single_document::{BoundView, DocumentView, SingleDocument, SingleDocumentEvaluator};
use crate::single_document::{TermBound, TermInfoView};
use crate::statistics;
use crate::statistics::{Bm25Weight, Bm25WeightView};
use crate::term::{Term, TermView};

verus! {

/// The end of the range of the terms that begin with `prefix`.
pub open spec fn range_end(field: Field, prefix: TermView) -> BoundView {
    match bytes::spec_prefix_end(prefix.value) {
        Some(end) => BoundView::Excluded(TermView { field, typ: prefix.typ, value: end }),
        None => BoundView::Unbounded,
    }
}

/// From a prefix on, the terms before the end of its range are those of its field and type that
/// begin with it. A prefix without an end is followed by terms of other types too.
pub proof fn prefix_range_holds_the_prefixed_terms(prefix: TermView, term: TermView)
    requires
        term.field == prefix.field,
        single_document::after_start(BoundView::Included(prefix), term),
        bytes::spec_prefix_end(prefix.value) is Some || term.typ == prefix.typ,
    ensures
        single_document::before_end(range_end(prefix.field, prefix), term) <==> term.typ
            == prefix.typ && prefix.value.is_prefix_of(term.value),
{
    if term.typ == prefix.typ {
        bytes::prefix_range_is_exact(prefix.value, term.value);
    }
}

/// Returns the term behind all those that begin with `prefix`, unless there is none.
pub fn end_of_range(field: Field, prefix: &Term) -> (r: Option<Term>)
    ensures
        range_end(field, prefix@) == (match r {
            Some(end) => BoundView::Excluded(end@),
            None => BoundView::Unbounded,
        }),
{
    match bytes::prefix_end(prefix.serialized_value_bytes()) {
        Some(end_value) => {
            let mut end_term = Term::with_type_and_field(prefix.typ(), field);
            end_term.append_bytes(end_value.as_slice());
            assert(end_term@.value =~= end_value@);
            Some(end_term)
        },
        None => None,
    }
}

/// The contents of a [`PhrasePrefixSingleDocumentEvaluator`].
pub struct PhrasePrefixEvaluatorView {
    /// The field that all the terms belong to.
    pub field: Field,
    /// The fixed terms, with their offsets.
    pub phrase_terms: Seq<(usize, TermView)>,
    /// The prefix.
    pub prefix: TermView,
    /// The number of terms to which the prefix expands at most.
    pub max_expansions: u32,
    /// The offset at which the fixed terms meet the expanded prefix.
    pub fixed_position_target: usize,
    /// What the fixed terms are scored by, where they are.
    pub bm25_weight: Option<Bm25WeightView>,
    /// The field stores fieldnorms.
    pub has_fieldnorms: bool,
    /// The score of a match where there are no fixed terms.
    pub prefix_only_score: ScoreView,
}

/// A [`PhrasePrefixQuery`] compiled for the evaluation of single documents.
pub struct PhrasePrefixSingleDocumentEvaluator {
    fields: Vec<Field>,
    phrase_terms: Vec<(usize, Term)>,
    prefix: Term,
    max_expansions: u32,
    fixed_position_target: usize,
    bm25_weight: Option<Bm25Weight>,
    has_fieldnorms: bool,
    prefix_only_score: Boost,
}

impl View for PhrasePrefixSingleDocumentEvaluator {
    type V = PhrasePrefixEvaluatorView;

    closed spec fn view(&self) -> PhrasePrefixEvaluatorView {
        PhrasePrefixEvaluatorView {
            field: self.fields@[0],
            phrase_terms: phrase::phrase_views(self.phrase_terms@),
            prefix: self.prefix@,
            max_expansions: self.max_expansions,
            fixed_position_target: self.fixed_position_target,
            bm25_weight: statistics::weight_view(self.bm25_weight),
            has_fieldnorms: self.has_fieldnorms,
            prefix_only_score: ScoreView::Product(self.prefix_only_score@),
        }
    }
}

/// A listed term begins with `prefix`.
pub open spec fn begins_with(prefix: Seq<u8>) -> spec_fn((TermView, TermInfoView)) -> bool {
    |entry: (TermView, TermInfoView)| prefix.is_prefix_of(entry.0.value)
}

/// The first `limit` entries of a list.
pub open spec fn first_entries(
    entries: Seq<(TermView, TermInfoView)>,
    limit: nat,
) -> Seq<(TermView, TermInfoView)> {
    if entries.len() <= limit {
        entries
    } else {
        entries.take(limit as int)
    }
}

/// The terms of the document to which the prefix expands: the first ones that begin with it.
pub open spec fn expansions(evaluator: PhrasePrefixEvaluatorView, document: DocumentView) -> Seq<
    (TermView, TermInfoView),
> {
    let visited = (document.visited)(
        evaluator.field,
        BoundView::Included(evaluator.prefix),
        range_end(evaluator.field, evaluator.prefix),
    );
    first_entries(
        visited.filter(begins_with(evaluator.prefix.value)),
        evaluator.max_expansions as nat,
    )
}

/// The positions of the expanded terms, one term after the other, or what is wrong with them. Where
/// there are no fixed terms, the positions are not looked at.
pub open spec fn suffix_positions(
    entries: Seq<(TermView, TermInfoView)>,
    needs_positions: bool,
) -> Result<Seq<u32>, ErrorView>
    decreases entries.len(),
{
    if entries.len() == 0 {
        Ok(Seq::empty())
    } else {
        match suffix_positions(entries.drop_last(), needs_positions) {
            Err(error) => Err(error),
            Ok(found) => {
                let (term, info) = entries.last();
                if needs_positions {
                    match phrase::checked_positions("PhrasePrefixQuery"@, term, info, 0) {
                        Err(error) => Err(error),
                        Ok(positions) => Ok(found + positions),
                    }
                } else {
                    match single_document::term_info_check(term, info.term_freq) {
                        Err(error) => Err(error),
                        Ok(_) => Ok(found),
                    }
                }
            },
        }
    }
}

/// Some position is in both.
pub open spec fn meet(fixed: Multiset<u32>, suffix: Seq<u32>) -> bool {
    exists|position: u32| #[trigger] fixed.contains(position) && suffix.contains(position)
}

/// What a compiled query answers for a document.
pub open spec fn phrase_prefix_result(
    evaluator: PhrasePrefixEvaluatorView,
    document: DocumentView,
) -> Result<EvaluationView, ErrorView> {
    let expanded = expansions(evaluator, document);
    match suffix_positions(expanded, evaluator.phrase_terms.len() > 0) {
        Err(error) => Err(error),
        Ok(suffix) => if expanded.len() == 0 {
            Ok(EvaluationView::NoMatch)
        } else if evaluator.phrase_terms.len() == 0 {
            Ok(EvaluationView::Match(evaluator.prefix_only_score))
        } else {
            match phrase::fixed_positions(
                "PhrasePrefixQuery"@,
                evaluator.phrase_terms,
                evaluator.fixed_position_target as nat,
                document,
            ) {
                Err(error) => Err(error),
                Ok(None) => Ok(EvaluationView::NoMatch),
                Ok(Some(lists)) => if !meet(positions::shared_by_all(lists), suffix) {
                    Ok(EvaluationView::NoMatch)
                } else {
                    phrase::phrase_score(
                        evaluator.bm25_weight,
                        evaluator.has_fieldnorms,
                        evaluator.field,
                        positions::shared_by_all(lists).len(),
                        document,
                    )
                },
            }
        },
    }
}

/// What ends the reading of the first entries ends it for all of them.
proof fn suffix_error_of_prefix(
    entries: Seq<(TermView, TermInfoView)>,
    needs_positions: bool,
    n: int,
)
    requires
        0 <= n <= entries.len(),
        suffix_positions(entries.take(n), needs_positions) is Err,
    ensures
        suffix_positions(entries, needs_positions) == suffix_positions(
            entries.take(n),
            needs_positions,
        ),
    decreases entries.len() - n,
{
    if n == entries.len() {
        assert(entries.take(n) =~= entries);
    } else {
        assert(entries.take(n + 1).drop_last() =~= entries.take(n));
        suffix_error_of_prefix(entries, needs_positions, n + 1);
    }
}

/// Two lists meet where they have a position in common.
proof fn meet_is_shared(fixed: Seq<u32>, sorted: Seq<u32>, suffix: Seq<u32>)
    requires
        sorted.to_multiset() == suffix.to_multiset(),
    ensures
        meet(fixed.to_multiset(), suffix) <==> positions::shared(fixed, sorted).len() > 0,
{
    broadcast use {
        vstd::seq_lib::group_to_multiset_ensures,
        vstd::multiset::lemma_intersection_count,
        vstd::multiset::axiom_count_le_len,
        vstd::multiset::axiom_choose_count,
    };

    let common = positions::shared(fixed, sorted);
    if common.len() > 0 {
        let position = common.choose();
        assert(common.count(position) > 0);
        assert(fixed.to_multiset().contains(position));
        assert(suffix.to_multiset().count(position) > 0);
        assert(suffix.contains(position));
    }
    if meet(fixed.to_multiset(), suffix) {
        let position = choose|position: u32| #[trigger]
            fixed.to_multiset().contains(position) && suffix.contains(position);
        assert(suffix.to_multiset().count(position) > 0);
        assert(common.count(position) > 0);
        assert(common.count(position) <= common.len());
    }
}

impl PhrasePrefixSingleDocumentEvaluator {
    /// An evaluator with the given contents. No fixed term stands behind the offset at which they
    /// meet.
    pub(crate) fn new(
        field: Field,
        phrase_terms: Vec<(usize, Term)>,
        prefix: Term,
        max_expansions: u32,
        fixed_position_target: usize,
        bm25_weight: Option<Bm25Weight>,
        has_fieldnorms: bool,
        prefix_only_score: Boost,
    ) -> (r: PhrasePrefixSingleDocumentEvaluator)
        requires
            forall|i: int|
                0 <= i < phrase_terms@.len() ==> (#[trigger] phrase::phrase_views(
                    phrase_terms@,
                )[i]).0 <= fixed_position_target,
        ensures
            r.well_formed(),
            r@ == (PhrasePrefixEvaluatorView {
                field,
                phrase_terms: phrase::phrase_views(phrase_terms@),
                prefix: prefix@,
                max_expansions,
                fixed_position_target,
                bm25_weight: statistics::weight_view(bm25_weight),
                has_fieldnorms,
                prefix_only_score: ScoreView::Product(prefix_only_score@),
            }),
    {
        PhrasePrefixSingleDocumentEvaluator {
            fields: vec![field],
            phrase_terms,
            prefix,
            max_expansions,
            fixed_position_target,
            bm25_weight,
            has_fieldnorms,
            prefix_only_score,
        }
    }

    /// Reads the positions of the fixed terms, each moved to the offset at which they meet.
    fn load_fixed_positions<D: SingleDocument + ?Sized>(&self, document: &D) -> (r: Result<
        Option<Vec<Vec<u32>>>,
        TantivyError,
    >)
        requires
            self.well_formed(),
        ensures
            match r {
                Ok(Some(lists)) => phrase::fixed_positions(
                    "PhrasePrefixQuery"@,
                    self@.phrase_terms,
                    self@.fixed_position_target as nat,
                    document.document(),
                ) == Ok::<Option<Seq<Seq<u32>>>, ErrorView>(Some(positions::list_views(lists@)))
                    && lists@.len() == self@.phrase_terms.len() && forall|i: int|
                    0 <= i < lists@.len() ==> positions::sorted((#[trigger] lists@[i])@)
                        && lists@[i]@.len() <= u32::MAX,
                Ok(None) => phrase::fixed_positions(
                    "PhrasePrefixQuery"@,
                    self@.phrase_terms,
                    self@.fixed_position_target as nat,
                    document.document(),
                ) == Ok::<Option<Seq<Seq<u32>>>, ErrorView>(None),
                Err(error) => phrase::fixed_positions(
                    "PhrasePrefixQuery"@,
                    self@.phrase_terms,
                    self@.fixed_position_target as nat,
                    document.document(),
                ) == Err::<Option<Seq<Seq<u32>>>, ErrorView>(error@),
            },
    {
        proof {
            assert forall|i: int| 0 <= i < self.phrase_terms@.len() implies (
            #[trigger] self.phrase_terms@[i]).0 <= self.fixed_position_target by {
                assert(self@.phrase_terms[i].0 <= self@.fixed_position_target);
            }
        }
        phrase::load_positions(
            "PhrasePrefixQuery",
            self.phrase_terms.as_slice(),
            self.fixed_position_target,
            document,
        )
    }

    /// Expands the prefix to terms of the document, and reads their positions. `None` where there
    /// is no such term.
    fn load_suffix_positions<D: SingleDocument + ?Sized>(&self, document: &D) -> (r: Result<
        Option<Vec<u32>>,
        TantivyError,
    >)
        requires
            self.well_formed(),
        ensures
            match r {
                Ok(Some(found)) => expansions(self@, document.document()).len() > 0
                    && positions::sorted(found@) && suffix_positions(
                    expansions(self@, document.document()),
                    self@.phrase_terms.len() > 0,
                ) is Ok && found@.to_multiset() == suffix_positions(
                    expansions(self@, document.document()),
                    self@.phrase_terms.len() > 0,
                )->Ok_0.to_multiset(),
                Ok(None) => expansions(self@, document.document()).len() == 0,
                Err(error) => suffix_positions(
                    expansions(self@, document.document()),
                    self@.phrase_terms.len() > 0,
                ) == Err::<Seq<u32>, ErrorView>(error@),
            },
    {
        let field: Field = self.fields[0];
        let end_term = end_of_range(field, &self.prefix);
        let range_end = match &end_term {
            Some(end_term) => TermBound::Excluded(end_term),
            None => TermBound::Unbounded,
        };
        let needs_positions = self.phrase_terms.len() > 0;
        let visited = document.visit_terms(field, TermBound::Included(&self.prefix), range_end);
        let ghost all = single_document::visited_views(visited@);
        let ghost pred = begins_with(self@.prefix.value);
        let ghost limit = self.max_expansions as nat;
        let mut suffix_positions: Vec<u32> = Vec::new();
        let mut num_expansions: u32 = 0;
        let mut i: usize = 0;
        assert(all.take(0).filter(pred) =~= Seq::empty()) by {
            reveal(Seq::filter);
        }
        while i < visited.len()
            invariant
                i <= visited.len(),
                self.well_formed(),
                all == single_document::visited_views(visited@),
                pred == begins_with(self@.prefix.value),
                limit == self.max_expansions,
                needs_positions == (self@.phrase_terms.len() > 0),
                expansions(self@, document.document()) == first_entries(all.filter(pred), limit),
                num_expansions <= self.max_expansions,
                num_expansions == first_entries(all.take(i as int).filter(pred), limit).len(),
                self::suffix_positions(
                    first_entries(all.take(i as int).filter(pred), limit),
                    needs_positions,
                ) == Ok::<Seq<u32>, ErrorView>(suffix_positions@),
            decreases visited.len() - i,
        {
            let ghost before = all.take(i as int).filter(pred);
            let ghost after = all.take(i + 1).filter(pred);
            let ghost entry = all[i as int];
            proof {
                reveal(Seq::filter);
                assert(all.take(i + 1).drop_last() =~= all.take(i as int));
                assert(all.take(i + 1).last() == entry);
                assert(after == if pred(entry) {
                    before.push(entry)
                } else {
                    before
                });
                single_document::filter_of_prefix(all, pred, i + 1);
            }
            let term: &Term = visited[i].term;
            let term_info = visited[i].info;
            if num_expansions >= self.max_expansions {
                assert(first_entries(after, limit) =~= first_entries(before, limit));
            } else if !bytes::starts_with(
                term.serialized_value_bytes(),
                self.prefix.serialized_value_bytes(),
            ) {
                assert(after == before);
            } else {
                let ghost kept = first_entries(after, limit);
                proof {
                    assert(kept == before.push(entry));
                    assert(kept.drop_last() =~= before);
                    assert(first_entries(all.filter(pred), limit).take(kept.len() as int)
                        =~= kept);
                }
                num_expansions += 1;
                let checked = if needs_positions {
                    phrase::validated_positions(
                        "PhrasePrefixQuery",
                        term,
                        term_info,
                        0,
                        &mut suffix_positions,
                    )
                } else {
                    single_document::validate_term_info(term, term_info.term_freq)
                };
                match checked {
                    Ok(_) => {},
                    Err(error) => {
                        proof {
                            suffix_error_of_prefix(
                                first_entries(all.filter(pred), limit),
                                needs_positions,
                                kept.len() as int,
                            );
                        }
                        return Err(error);
                    },
                }
            }
            i += 1;
        }
        assert(all.take(i as int) =~= all);
        if num_expansions == 0 {
            return Ok(None);
        }
        Ok(Some(positions::sorted_copy(suffix_positions.as_slice())))
    }

    /// Evaluates a document.
    pub(crate) fn run<D: SingleDocument + ?Sized>(&self, document: &D) -> (r: Result<
        DocumentEvaluation,
        TantivyError,
    >)
        requires
            self.well_formed(),
        ensures
            single_document::evaluation(r) == phrase_prefix_result(self@, document.document()),
    {
        let suffix_positions = match self.load_suffix_positions(document) {
            Ok(Some(suffix_positions)) => suffix_positions,
            Ok(None) => {
                return Ok(DocumentEvaluation::NoMatch);
            },
            Err(error) => {
                return Err(error);
            },
        };
        if self.phrase_terms.len() == 0 {
            return Ok(DocumentEvaluation::Match(Score::Product(self.prefix_only_score.clone())));
        }
        let adjusted_positions = match self.load_fixed_positions(document) {
            Ok(Some(adjusted_positions)) => adjusted_positions,
            Ok(None) => {
                return Ok(DocumentEvaluation::NoMatch);
            },
            Err(error) => {
                return Err(error);
            },
        };
        let fixed_matches = positions::intersection_of_all(adjusted_positions.as_slice());
        proof {
            broadcast use vstd::seq_lib::group_to_multiset_ensures;

            meet_is_shared(
                fixed_matches@,
                suffix_positions@,
                self::suffix_positions(expansions(self@, document.document()), true)->Ok_0,
            );
        }
        if positions::intersection_count(fixed_matches.as_slice(), suffix_positions.as_slice())
            == 0 {
            return Ok(DocumentEvaluation::NoMatch);
        }
        let phrase_count: u32 = fixed_matches.len() as u32;
        phrase::score_phrase(
            &self.bm25_weight,
            self.has_fieldnorms,
            self.fields[0],
            phrase_count,
            document,
        )
    }
}

impl SingleDocumentEvaluator for PhrasePrefixSingleDocumentEvaluator {
    closed spec fn well_formed(&self) -> bool {
        &&& self.fields@.len() == 1
        &&& forall|i: int|
            0 <= i < self@.phrase_terms.len() ==> (#[trigger] self@.phrase_terms[i]).0
                <= self@.fixed_position_target
    }

    open spec fn required(&self) -> Option<Seq<Field>> {
        Some(seq![self@.field])
    }

    open spec fn result(&self, document: DocumentView) -> Result<EvaluationView, ErrorView> {
        phrase_prefix_result(self@, document)
    }

    fn evaluate_impl<D: SingleDocument + ?Sized>(&mut self, document: &D) -> (r: Result<
        DocumentEvaluation,
        TantivyError,
    >) {
        self.run(document)
    }

    fn required_fields(&self) -> (r: Option<&[Field]>) {
        assert(self.fields@ =~= seq![self@.field]);
        Some(self.fields.as_slice())
    }
}

} // verus!
