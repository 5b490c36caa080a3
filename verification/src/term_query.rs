//! A query for one term.

use vstd::prelude::*;
use crate::error::{ErrorView, TantivyError};
use crate::schema::{Field, IndexRecordOption};
use crate::score;
use crate::score::{DocumentEvaluation, EvaluationView, Score, ScoreView};
use crate::single_document;
use crate::single_document::{ContextView, DocumentView, SingleDocument};
use crate::single_document::{SingleDocumentEvaluationContext, SingleDocumentEvaluator};
use crate::statistics;
use crate::statistics::{Bm25StatisticsProvider, Bm25Weight, Bm25WeightView};
use crate::term::{Term, TermView};

verus! {

/// A query for the documents that hold a term.
#[derive(Debug)]
pub struct TermQuery {
    term: Term,
    index_record_option: IndexRecordOption,
}

/// The contents of a [`TermQuery`].
#[verifier::ext_equal]
pub struct TermQueryView {
    /// The term.
    pub term: TermView,
    /// What is asked for of the postings.
    pub index_record_option: IndexRecordOption,
}

impl View for TermQuery {
    type V = TermQueryView;

    closed spec fn view(&self) -> TermQueryView {
        TermQueryView { term: self.term@, index_record_option: self.index_record_option }
    }
}

/// The contents of a [`TermSingleDocumentEvaluator`].
pub struct TermEvaluatorView {
    /// The term.
    pub term: TermView,
    /// The frequency of the term counts.
    pub has_freq: bool,
    /// The field stores fieldnorms.
    pub has_fieldnorms: bool,
    /// What the term is scored by, where scores are computed.
    pub bm25_weight: Option<Bm25WeightView>,
}

/// What compiling a query gives.
pub open spec fn compiled(query: TermQueryView, context: ContextView) -> Result<
    TermEvaluatorView,
    ErrorView,
> {
    match single_document::record_option(context.schema, query.term, query.index_record_option) {
        Err(error) => Err(error),
        Ok((effective, has_fieldnorms)) => match single_document::context_weight(
            context,
            seq![query.term],
        ) {
            Err(error) => Err(error),
            Ok(bm25_weight) => Ok(
                TermEvaluatorView {
                    term: query.term,
                    has_freq: effective.level() >= 1,
                    has_fieldnorms,
                    bm25_weight,
                },
            ),
        },
    }
}

/// What a compiled query answers for a document.
pub open spec fn term_result(evaluator: TermEvaluatorView, document: DocumentView) -> Result<
    EvaluationView,
    ErrorView,
> {
    match (document.term_info)(evaluator.term) {
        None => Ok(EvaluationView::NoMatch),
        Some(info) => match single_document::term_info_check(evaluator.term, info.term_freq) {
            Err(error) => Err(error),
            Ok(_) => match evaluator.bm25_weight {
                None => Ok(EvaluationView::Match(score::unit_score())),
                Some(weight) => match single_document::scoring_fieldnorm(
                    evaluator.term.field,
                    evaluator.has_fieldnorms,
                    document,
                ) {
                    Err(error) => Err(error),
                    Ok(fieldnorm_id) => Ok(
                        EvaluationView::Match(
                            ScoreView::Bm25 {
                                weight,
                                fieldnorm_id,
                                term_freq: if evaluator.has_freq {
                                    info.term_freq
                                } else {
                                    1
                                },
                            },
                        ),
                    ),
                },
            },
        },
    }
}

impl TermQuery {
    /// A query for a term. The frequency of the term counts only where it is asked for.
    pub fn new(term: Term, index_record_option: IndexRecordOption) -> (r: TermQuery)
        ensures
            r@ == (TermQueryView { term: term@, index_record_option }),
    {
        TermQuery { term, index_record_option }
    }

    /// Compiles the query for repeated evaluation of pre-tokenized external documents.
    pub fn single_document_evaluator<S: Bm25StatisticsProvider + ?Sized>(
        &self,
        context: SingleDocumentEvaluationContext<'_, S>,
    ) -> (r: Result<TermSingleDocumentEvaluator, TantivyError>)
        ensures
            match r {
                Ok(evaluator) => evaluator.well_formed() && compiled(self@, context@) == Ok::<
                    TermEvaluatorView,
                    ErrorView,
                >(evaluator@),
                Err(error) => compiled(self@, context@) == Err::<TermEvaluatorView, ErrorView>(
                    error@,
                ),
            },
    {
        let (effective, has_fieldnorms) = match single_document::effective_record_option(
            context.schema(),
            &self.term,
            self.index_record_option,
        ) {
            Ok(option) => option,
            Err(error) => {
                return Err(error);
            },
        };
        let terms: Vec<Term> = vec![self.term.clone()];
        assert(statistics::term_views(terms@) =~= seq![self@.term]);
        let bm25_weight = match context.weight_for_terms(terms.as_slice()) {
            Ok(bm25_weight) => bm25_weight,
            Err(error) => {
                return Err(error);
            },
        };
        let fields: Vec<Field> = vec![self.term.field()];
        assert(fields@ =~= seq![self@.term.field]);
        Ok(
            TermSingleDocumentEvaluator {
                fields,
                term: self.term.clone(),
                has_freq: effective.has_freq(),
                has_fieldnorms,
                bm25_weight,
            },
        )
    }
}

/// A [`TermQuery`] compiled for the evaluation of single documents.
pub struct TermSingleDocumentEvaluator {
    fields: Vec<Field>,
    term: Term,
    has_freq: bool,
    has_fieldnorms: bool,
    bm25_weight: Option<Bm25Weight>,
}

impl View for TermSingleDocumentEvaluator {
    type V = TermEvaluatorView;

    closed spec fn view(&self) -> TermEvaluatorView {
        TermEvaluatorView {
            term: self.term@,
            has_freq: self.has_freq,
            has_fieldnorms: self.has_fieldnorms,
            bm25_weight: statistics::weight_view(self.bm25_weight),
        }
    }
}

impl TermSingleDocumentEvaluator {
    /// Evaluates a document.
    pub(crate) fn run<D: SingleDocument + ?Sized>(&self, document: &D) -> (r: Result<
        DocumentEvaluation,
        TantivyError,
    >)
        requires
            self.well_formed(),
        ensures
            single_document::evaluation(r) == term_result(self@, document.document()),
    {
        let term_freq: u32 = match document.term_info(&self.term) {
            Some(term_info) => term_info.term_freq,
            None => {
                return Ok(DocumentEvaluation::NoMatch);
            },
        };
        match single_document::validate_term_info(&self.term, term_freq) {
            Ok(_) => {},
            Err(error) => {
                return Err(error);
            },
        }
        let weight = match &self.bm25_weight {
            Some(weight) => weight,
            None => {
                return Ok(DocumentEvaluation::Match(Score::one()));
            },
        };
        match single_document::fieldnorm_for_scoring(
            self.term.field(),
            self.has_fieldnorms,
            document,
        ) {
            Err(error) => Err(error),
            Ok(fieldnorm_id) => {
                let counted_freq: u32 = if self.has_freq {
                    term_freq
                } else {
                    1
                };
                Ok(
                    DocumentEvaluation::Match(
                        Score::Bm25 { weight: weight.clone(), fieldnorm_id, term_freq: counted_freq },
                    ),
                )
            },
        }
    }
}

impl SingleDocumentEvaluator for TermSingleDocumentEvaluator {
    closed spec fn well_formed(&self) -> bool {
        self.fields@ == seq![self@.term.field]
    }

    open spec fn required(&self) -> Option<Seq<Field>> {
        Some(seq![self@.term.field])
    }

    open spec fn result(&self, document: DocumentView) -> Result<EvaluationView, ErrorView> {
        term_result(self@, document)
    }

    fn evaluate_impl<D: SingleDocument + ?Sized>(&mut self, document: &D) -> (r: Result<
        DocumentEvaluation,
        TantivyError,
    >) {
        self.run(document)
    }

    fn required_fields(&self) -> (r: Option<&[Field]>) {
        Some(self.fields.as_slice())
    }
}

} // verus!
