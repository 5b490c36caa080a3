//! Queries without structure: for all documents, for none, and those that need an index.

use vstd::prelude::*;
use crate::error::{ErrorView, TantivyError};
use crate::query;
use crate::query::{EnableScoring, Query, ScoringView};
use crate::schema::Field;
use crate::score::{Boost, DocumentEvaluation, EvaluationView, Score, ScoreView};
use crate::single_document;
use crate::single_document::{ContextView, DocumentView, SingleDocument};
use crate::single_document::{SingleDocumentEvaluationContext, SingleDocumentEvaluator};
use crate::statistics;
use crate::statistics::Bm25StatisticsProvider;
use crate::term::{Term, TermView};

verus! {

/// A query for all documents.
#[derive(Clone, Copy, Debug)]
pub struct AllQuery {}

/// A query for no documents.
#[derive(Clone, Copy, Debug)]
pub struct EmptyQuery {}

impl AllQuery {
    /// Compiles the query for repeated evaluation of pre-tokenized external documents.
    pub fn single_document_evaluator<S: Bm25StatisticsProvider + ?Sized>(
        &self,
        context: SingleDocumentEvaluationContext<'_, S>,
    ) -> (r: Result<ConstantEvaluator, TantivyError>)
        ensures
            r matches Ok(evaluator) && evaluator.well_formed() && evaluator.answer()
                == EvaluationView::Match(context@.constant_score()),
    {
        Ok(ConstantEvaluator { score: Some(context.constant_score()), fields: Vec::new() })
    }
}

impl EmptyQuery {
    /// Compiles the query for repeated evaluation of pre-tokenized external documents.
    pub fn single_document_evaluator<S: Bm25StatisticsProvider + ?Sized>(
        &self,
        context: SingleDocumentEvaluationContext<'_, S>,
    ) -> (r: Result<ConstantEvaluator, TantivyError>)
        ensures
            r matches Ok(evaluator) && evaluator.well_formed() && evaluator.answer()
                == EvaluationView::NoMatch,
    {
        Ok(ConstantEvaluator { score: None, fields: Vec::new() })
    }
}

/// An evaluator that gives the same answer for every document.
pub struct ConstantEvaluator {
    score: Option<Boost>,
    fields: Vec<Field>,
}

impl ConstantEvaluator {
    /// The answer.
    pub closed spec fn answer(&self) -> EvaluationView {
        match self.score {
            Some(score) => EvaluationView::Match(ScoreView::Product(score@)),
            None => EvaluationView::NoMatch,
        }
    }

    /// Evaluates a document.
    pub(crate) fn run(&self) -> (r: Result<DocumentEvaluation, TantivyError>)
        ensures
            single_document::evaluation(r) == Ok::<EvaluationView, ErrorView>(self.answer()),
    {
        match &self.score {
            Some(score) => Ok(DocumentEvaluation::Match(Score::Product(score.clone()))),
            None => Ok(DocumentEvaluation::NoMatch),
        }
    }
}

impl SingleDocumentEvaluator for ConstantEvaluator {
    closed spec fn well_formed(&self) -> bool {
        self.fields@.len() == 0
    }

    open spec fn required(&self) -> Option<Seq<Field>> {
        Some(Seq::empty())
    }

    open spec fn result(&self, document: DocumentView) -> Result<EvaluationView, ErrorView> {
        Ok(self.answer())
    }

    fn evaluate_impl<D: SingleDocument + ?Sized>(&mut self, document: &D) -> (r: Result<
        DocumentEvaluation,
        TantivyError,
    >) {
        self.run()
    }

    fn required_fields(&self) -> (r: Option<&[Field]>) {
        assert(self.fields@ =~= Seq::empty());
        Some(self.fields.as_slice())
    }
}

/// A query for the documents that hold one of several terms. It needs the term dictionary of an
/// index.
#[derive(Debug)]
pub struct TermSetQuery {
    terms: Vec<Term>,
}

impl View for TermSetQuery {
    type V = Seq<TermView>;

    closed spec fn view(&self) -> Seq<TermView> {
        statistics::term_views(self.terms@)
    }
}

impl TermSetQuery {
    /// A query for the documents that hold one of the terms.
    pub fn new(terms: Vec<Term>) -> (r: TermSetQuery)
        ensures
            r@ == statistics::term_views(terms@),
    {
        TermSetQuery { terms }
    }
}

/// A query for the documents that hold a term with a given pattern. It needs the term dictionary of
/// an index.
#[derive(Debug)]
pub struct RegexQuery {
    pattern: String,
    field: Field,
}

impl View for RegexQuery {
    type V = (Seq<char>, Field);

    closed spec fn view(&self) -> (Seq<char>, Field) {
        (self.pattern@, self.field)
    }
}

impl RegexQuery {
    /// A query for the terms of `field` with a pattern.
    pub fn from_pattern(pattern: &str, field: Field) -> (r: RegexQuery)
        ensures
            r@ == (pattern@, field),
    {
        RegexQuery { pattern: pattern.to_owned(), field }
    }
}

/// The weight is the query itself: an index looks its terms up.
impl Query for TermSetQuery {
    type Weight = TermSetQuery;

    type Evaluator = ConstantEvaluator;

    open spec fn name(&self) -> Seq<char> {
        "TermSetQuery"@
    }

    open spec fn weighable(&self, scoring: ScoringView) -> bool {
        true
    }

    open spec fn weighs(
        &self,
        scoring: ScoringView,
        weight: Result<TermSetQuery, ErrorView>,
    ) -> bool {
        weight matches Ok(weight) && weight@ == self@
    }

    open spec fn compiles(
        &self,
        context: ContextView,
        outcome: Result<ConstantEvaluator, ErrorView>,
    ) -> bool {
        outcome == query::unsupported::<ConstantEvaluator>(self.name())
    }

    fn query_name(&self) -> (r: String) {
        "TermSetQuery".to_owned()
    }

    fn weight<S: Bm25StatisticsProvider + ?Sized>(
        &self,
        enable_scoring: EnableScoring<'_, S>,
    ) -> (r: Result<TermSetQuery, TantivyError>) {
        let mut terms: Vec<Term> = Vec::new();
        let mut i: usize = 0;
        while i < self.terms.len()
            invariant
                i <= self.terms.len(),
                terms@.len() == i,
                forall|j: int| 0 <= j < i ==> (#[trigger] terms@[j])@ == self.terms@[j]@,
            decreases self.terms.len() - i,
        {
            terms.push(self.terms[i].clone());
            i += 1;
        }
        assert(statistics::term_views(terms@) =~= self@);
        Ok(TermSetQuery { terms })
    }
}

/// The weight is the query itself: an index looks for terms with the pattern.
impl Query for RegexQuery {
    type Weight = RegexQuery;

    type Evaluator = ConstantEvaluator;

    open spec fn name(&self) -> Seq<char> {
        "RegexQuery"@
    }

    open spec fn weighable(&self, scoring: ScoringView) -> bool {
        true
    }

    open spec fn weighs(
        &self,
        scoring: ScoringView,
        weight: Result<RegexQuery, ErrorView>,
    ) -> bool {
        weight matches Ok(weight) && weight@ == self@
    }

    open spec fn compiles(
        &self,
        context: ContextView,
        outcome: Result<ConstantEvaluator, ErrorView>,
    ) -> bool {
        outcome == query::unsupported::<ConstantEvaluator>(self.name())
    }

    fn query_name(&self) -> (r: String) {
        "RegexQuery".to_owned()
    }

    fn weight<S: Bm25StatisticsProvider + ?Sized>(
        &self,
        enable_scoring: EnableScoring<'_, S>,
    ) -> (r: Result<RegexQuery, TantivyError>) {
        Ok(RegexQuery { pattern: self.pattern.as_str().to_owned(), field: self.field })
    }
}

} // verus!
