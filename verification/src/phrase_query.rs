//! A query for a phrase.

use vstd::prelude::*;
use crate::error;
use crate::error::{ErrorView, TantivyError};
use crate::phrase;
use crate::phrase_order;
use crate::positions;
use crate::schema::{Field, IndexRecordOption};
use crate::score::{DocumentEvaluation, EvaluationView};
use crate::single_document;
use crate::single_document::{ContextView, DocumentView, SingleDocument};
use crate::single_document::{SingleDocumentEvaluationContext, SingleDocumentEvaluator};
use crate::statistics;
use crate::statistics::{Bm25StatisticsProvider, Bm25Weight, Bm25WeightView};
use crate::term::{Term, TermView};

verus! {

/// A query for the documents that hold a sequence of terms, each at its offset.
#[derive(Debug)]
pub struct PhraseQuery {
    field: Field,
    phrase_terms: Vec<(usize, Term)>,
}

/// The contents of a [`PhraseQuery`].
#[verifier::ext_equal]
pub struct PhraseQueryView {
    /// The field that all the terms belong to.
    pub field: Field,
    /// The terms, in the order of their offsets.
    pub phrase_terms: Seq<(usize, TermView)>,
}

impl View for PhraseQuery {
    type V = PhraseQueryView;

    closed spec fn view(&self) -> PhraseQueryView {
        PhraseQueryView {
            field: self.field,
            phrase_terms: phrase::phrase_views(self.phrase_terms@),
        }
    }
}

impl PhraseQueryView {
    /// There is a term, the terms come in the order of their offsets, and all belong to one field.
    pub open spec fn well_formed(self) -> bool {
        self.phrase_terms.len() > 0 && phrase_order::ordered(self.phrase_terms)
            && phrase_order::of_field(self.phrase_terms, self.field)
    }
}

/// The contents of a [`PhraseSingleDocumentEvaluator`].
pub struct PhraseEvaluatorView {
    /// The field that all the terms belong to.
    pub field: Field,
    /// The terms, in the order of their offsets.
    pub phrase_terms: Seq<(usize, TermView)>,
    /// What the phrase is scored by, where scores are computed.
    pub bm25_weight: Option<Bm25WeightView>,
    /// The field stores fieldnorms.
    pub has_fieldnorms: bool,
}

/// What compiling a query gives.
pub open spec fn compiled(query: PhraseQueryView, context: ContextView) -> Result<
    PhraseEvaluatorView,
    ErrorView,
> {
    let entry = context.schema[query.field.0 as int];
    if query.field.0 >= context.schema.len() {
        Err(error::unknown_field(query.field))
    } else {
        match entry.field_type.record_option {
            None => Err(error::not_indexed(entry.name)),
            Some(stored) => if stored != IndexRecordOption::WithFreqsAndPositions {
                Err(error::no_positions_indexed(entry.name))
            } else if let Some(error) = phrase::postings_error(
                "PhraseQuery"@,
                query.phrase_terms,
                entry.field_type,
                stored,
            ) {
                Err(error)
            } else {
                match single_document::context_weight(
                    context,
                    phrase::terms_of(query.phrase_terms),
                ) {
                    Err(error) => Err(error),
                    Ok(bm25_weight) => Ok(
                        PhraseEvaluatorView {
                            field: query.field,
                            phrase_terms: query.phrase_terms,
                            bm25_weight,
                            has_fieldnorms: entry.field_type.fieldnorms,
                        },
                    ),
                }
            },
        }
    }
}

/// What a compiled query answers for a document.
pub open spec fn phrase_result(evaluator: PhraseEvaluatorView, document: DocumentView) -> Result<
    EvaluationView,
    ErrorView,
> {
    match phrase::fixed_positions(
        "PhraseQuery"@,
        evaluator.phrase_terms,
        evaluator.phrase_terms.last().0 as nat,
        document,
    ) {
        Err(error) => Err(error),
        Ok(None) => Ok(EvaluationView::NoMatch),
        Ok(Some(lists)) => if positions::shared_by_all(lists).len() == 0 {
            Ok(EvaluationView::NoMatch)
        } else {
            phrase::phrase_score(
                evaluator.bm25_weight,
                evaluator.has_fieldnorms,
                evaluator.field,
                positions::shared_by_all(lists).len(),
                document,
            )
        },
    }
}

impl PhraseQuery {
    #[verifier::type_invariant]
    spec fn inv(self) -> bool {
        self@.well_formed()
    }

    /// A query for the terms next to each other. There must be at least two of them, all of one
    /// field.
    pub fn new(terms: Vec<Term>) -> (r: PhraseQuery)
        requires
            terms@.len() > 1,
            forall|i: int|
                0 <= i < terms@.len() ==> (#[trigger] terms@[i])@.field == terms@[0]@.field,
        ensures
            r@ == (PhraseQueryView {
                field: terms@[0]@.field,
                phrase_terms: Seq::new(terms@.len(), |i: int| (i as usize, terms@[i]@)),
            }),
    {
        let ghost expected = Seq::new(terms@.len(), |i: int| (i as usize, terms@[i]@));
        let terms_with_offset = phrase_order::with_offsets(terms.as_slice());
        proof {
            phrase_order::by_offset_of_ordered(expected);
            assert forall|i: int| 0 <= i < terms_with_offset@.len() implies (
            #[trigger] terms_with_offset@[i]).1@.field == terms_with_offset@[0].1@.field by {
                assert(phrase::phrase_views(terms_with_offset@)[i] == expected[i]);
                assert(phrase::phrase_views(terms_with_offset@)[0] == expected[0]);
                assert(terms@[i]@.field == terms@[0]@.field);
            }
            assert(phrase::phrase_views(terms_with_offset@)[0] == expected[0]);
        }
        PhraseQuery::new_with_offset(terms_with_offset)
    }

    /// A query for terms at given offsets. There must be at least two of them, all of one field.
    pub fn new_with_offset(terms: Vec<(usize, Term)>) -> (r: PhraseQuery)
        requires
            terms@.len() > 1,
            forall|i: int|
                0 <= i < terms@.len() ==> (#[trigger] terms@[i]).1@.field == terms@[0].1@.field,
        ensures
            r@ == (PhraseQueryView {
                field: terms@[0].1@.field,
                phrase_terms: phrase_order::by_offset(phrase::phrase_views(terms@)),
            }),
    {
        let ghost all = phrase::phrase_views(terms@);
        let field = terms[0].1.field();
        let phrase_terms = phrase_order::sort_by_offset(terms.as_slice());
        proof {
            phrase_order::by_offset_is_a_stable_order(all, 0, field);
            assert(phrase_order::of_field(all, field));
        }
        PhraseQuery { field, phrase_terms }
    }

    /// Compiles the query for repeated evaluation of pre-tokenized external documents.
    pub fn single_document_evaluator<S: Bm25StatisticsProvider + ?Sized>(
        &self,
        context: SingleDocumentEvaluationContext<'_, S>,
    ) -> (r: Result<PhraseSingleDocumentEvaluator, TantivyError>)
        ensures
            match r {
                Ok(evaluator) => evaluator.well_formed() && compiled(self@, context@) == Ok::<
                    PhraseEvaluatorView,
                    ErrorView,
                >(evaluator@),
                Err(error) => compiled(self@, context@) == Err::<PhraseEvaluatorView, ErrorView>(
                    error@,
                ),
            },
    {
        proof {
            use_type_invariant(self);
        }
        let schema = context.schema();
        if self.field.field_id() as usize >= schema.num_fields() {
            return Err(error::unknown_field_error(self.field));
        }
        let field_entry = schema.get_field_entry(self.field);
        let field_type = field_entry.field_type();
        let stored = match field_type.index_record_option() {
            Some(stored) => stored,
            None => {
                return Err(error::not_indexed_error(field_entry.name()));
            },
        };
        if !stored.has_positions() {
            return Err(error::no_positions_indexed_error(field_entry.name()));
        }
        match phrase::check_postings(
            "PhraseQuery",
            self.phrase_terms.as_slice(),
            field_type,
            stored,
        ) {
            Ok(_) => {},
            Err(error) => {
                return Err(error);
            },
        }
        let terms = phrase::copy_without_offsets(self.phrase_terms.as_slice());
        proof {
            phrase_order::terms_have_one_field(self@.phrase_terms, self@.field, terms@);
        }
        let bm25_weight = match context.weight_for_terms(terms.as_slice()) {
            Ok(bm25_weight) => bm25_weight,
            Err(error) => {
                return Err(error);
            },
        };
        Ok(
            PhraseSingleDocumentEvaluator {
                fields: vec![self.field],
                phrase_terms: phrase::copy_terms(self.phrase_terms.as_slice()),
                bm25_weight,
                has_fieldnorms: field_entry.has_fieldnorms(),
            },
        )
    }
}

/// A [`PhraseQuery`] compiled for the evaluation of single documents.
pub struct PhraseSingleDocumentEvaluator {
    fields: Vec<Field>,
    phrase_terms: Vec<(usize, Term)>,
    bm25_weight: Option<Bm25Weight>,
    has_fieldnorms: bool,
}

impl View for PhraseSingleDocumentEvaluator {
    type V = PhraseEvaluatorView;

    closed spec fn view(&self) -> PhraseEvaluatorView {
        PhraseEvaluatorView {
            field: self.fields@[0],
            phrase_terms: phrase::phrase_views(self.phrase_terms@),
            bm25_weight: statistics::weight_view(self.bm25_weight),
            has_fieldnorms: self.has_fieldnorms,
        }
    }
}

impl PhraseSingleDocumentEvaluator {
    /// Evaluates a document.
    pub(crate) fn run<D: SingleDocument + ?Sized>(&self, document: &D) -> (r: Result<
        DocumentEvaluation,
        TantivyError,
    >)
        requires
            self.well_formed(),
        ensures
            single_document::evaluation(r) == phrase_result(self@, document.document()),
    {
        let last: usize = self.phrase_terms.len() - 1;
        let target: usize = self.phrase_terms[last].0;
        proof {
            assert(self@.phrase_terms.last().0 == target);
            assert forall|i: int| 0 <= i < self.phrase_terms@.len() implies (
            #[trigger] self.phrase_terms@[i]).0 <= target by {
                assert(self@.phrase_terms[i].0 <= self@.phrase_terms[last as int].0);
            }
        }
        let adjusted_positions = match phrase::load_positions(
            "PhraseQuery",
            self.phrase_terms.as_slice(),
            target,
            document,
        ) {
            Ok(Some(adjusted_positions)) => adjusted_positions,
            Ok(None) => {
                return Ok(DocumentEvaluation::NoMatch);
            },
            Err(error) => {
                return Err(error);
            },
        };
        let matches = positions::intersection_of_all(adjusted_positions.as_slice());
        proof {
            broadcast use vstd::seq_lib::group_to_multiset_ensures;

            assert(matches@.to_multiset().len() == matches@.len());
        }
        if matches.len() == 0 {
            return Ok(DocumentEvaluation::NoMatch);
        }
        phrase::score_phrase(
            &self.bm25_weight,
            self.has_fieldnorms,
            self.fields[0],
            matches.len() as u32,
            document,
        )
    }
}

impl SingleDocumentEvaluator for PhraseSingleDocumentEvaluator {
    closed spec fn well_formed(&self) -> bool {
        self.fields@.len() == 1 && self@.phrase_terms.len() > 0 && phrase_order::ordered(
            self@.phrase_terms,
        )
    }

    open spec fn required(&self) -> Option<Seq<Field>> {
        Some(seq![self@.field])
    }

    open spec fn result(&self, document: DocumentView) -> Result<EvaluationView, ErrorView> {
        phrase_result(self@, document)
    }

    fn evaluate_impl<D: SingleDocument + ?Sized>(&mut self, document: &D) -> (r: Result<
        DocumentEvaluation,
        TantivyError,
    >) {
        self.run(document)
    }

    fn required_fields(&self) -> (r: Option<&[Field]>) {
        assert(self.fields@ =~= seq![self@.field]);
        Some(self.fields.as_slice())
    }
}

} // verus!
