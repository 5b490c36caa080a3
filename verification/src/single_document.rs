//! Evaluate queries against pre-tokenized external documents.
//!
//! A query is compiled for an evaluation context into an evaluator, and the evaluator is run on
//! one document after the other, without any of them being added to an index.
//!
//! - Directly supported are queries for all or no documents, for a term, and for the terms within
//!   an edit distance of a given one. The field of a term has to be indexed: its postings and
//!   fieldnorm settings decide what is evaluated.
//! - Phrases need positions from both the field and the document. A phrase whose last term is only
//!   a prefix also needs the document to list its terms in order, and it expands the prefix to a
//!   limited number of terms of the evaluated document.
//! - Boolean queries need every evaluated clause to be supported. Without scoring, optional
//!   clauses are not evaluated beside required ones.
//! - Any other query is refused with
//!   [`TantivyError::UnsupportedQueryForSingleDocumentEvaluation`].

use vstd::prelude::*;
use crate::error;
use crate::error::{ErrorView, TantivyError};
use crate::schema::{Field, FieldEntryView, FieldType, FieldTypeView, IndexRecordOption, Schema};
use crate::schema::Type;
use crate::score;
use crate::score::{Boost, DocumentEvaluation, EvaluationView, ScoreView};
use crate::searcher::Searcher;
use crate::statistics;
use crate::statistics::{Bm25StatisticsProvider, Bm25Weight, Bm25WeightView, StatisticsView};
use crate::term;
use crate::term::{Term, TermView};

verus! {

/// Occurrence information for one term in one external document.
#[derive(Clone, Copy, Debug)]
pub struct SingleDocumentTermInfo<'a> {
    /// Number of occurrences written to the postings. This must be greater than zero.
    pub term_freq: u32,
    /// Postings positions for this term.
    ///
    /// Positions are required only when evaluating a phrase. When required, positions must be
    /// sorted absolute token positions and their number must equal `term_freq`.
    pub positions: Option<&'a [u32]>,
}

/// The contents of a [`SingleDocumentTermInfo`].
#[verifier::ext_equal]
pub struct TermInfoView {
    /// Number of occurrences.
    pub term_freq: u32,
    /// Positions of the occurrences.
    pub positions: Option<Seq<u32>>,
}

impl<'a> View for SingleDocumentTermInfo<'a> {
    type V = TermInfoView;

    open spec fn view(&self) -> TermInfoView {
        TermInfoView {
            term_freq: self.term_freq,
            positions: match self.positions {
                Some(positions) => Some(positions@),
                None => None,
            },
        }
    }
}

/// An end of a range of terms.
#[derive(Clone, Copy, Debug)]
pub enum TermBound<'a> {
    /// The range ends at this term and holds it.
    Included(&'a Term),
    /// The range ends at this term and does not hold it.
    Excluded(&'a Term),
    /// The range does not end.
    Unbounded,
}

/// The contents of a [`TermBound`].
pub enum BoundView {
    /// The range ends at this term and holds it.
    Included(TermView),
    /// The range ends at this term and does not hold it.
    Excluded(TermView),
    /// The range does not end.
    Unbounded,
}

impl<'a> View for TermBound<'a> {
    type V = BoundView;

    open spec fn view(&self) -> BoundView {
        match self {
            TermBound::Included(term) => BoundView::Included(term@),
            TermBound::Excluded(term) => BoundView::Excluded(term@),
            TermBound::Unbounded => BoundView::Unbounded,
        }
    }
}

/// `term` is not before the start of a range.
pub open spec fn after_start(start: BoundView, term: TermView) -> bool {
    match start {
        BoundView::Included(first) => !term::term_lt(term, first),
        BoundView::Excluded(before) => term::term_lt(before, term),
        BoundView::Unbounded => true,
    }
}

/// `term` is not behind the end of a range.
pub open spec fn before_end(end: BoundView, term: TermView) -> bool {
    match end {
        BoundView::Included(last) => !term::term_lt(last, term),
        BoundView::Excluded(behind) => term::term_lt(term, behind),
        BoundView::Unbounded => true,
    }
}

/// A term of a document together with its occurrence information.
#[derive(Clone, Copy, Debug)]
pub struct VisitedTerm<'a> {
    /// The term.
    pub term: &'a Term,
    /// Its occurrences.
    pub info: SingleDocumentTermInfo<'a>,
}

/// The contents of a list of visited terms.
pub open spec fn visited_views(visited: Seq<VisitedTerm<'_>>) -> Seq<(TermView, TermInfoView)> {
    visited.map_values(|entry: VisitedTerm<'_>| (entry.term@, entry.info@))
}

/// The terms come in strictly ascending order.
pub open spec fn ascending(visited: Seq<(TermView, TermInfoView)>) -> bool {
    forall|i: int, j: int|
        0 <= i < j < visited.len() ==> term::term_lt(
            (#[trigger] visited[i]).0,
            (#[trigger] visited[j]).0,
        )
}

/// The terms are of `field` and within the range, and come in strictly ascending order.
pub open spec fn visits_range(
    visited: Seq<(TermView, TermInfoView)>,
    field: Field,
    start: BoundView,
    end: BoundView,
) -> bool {
    &&& ascending(visited)
    &&& forall|i: int|
        0 <= i < visited.len() ==> {
            let term = (#[trigger] visited[i]).0;
            term.field == field && after_start(start, term) && before_end(end, term)
        }
}

/// Every term of `field` within the range that a document holds is among the listed ones.
pub open spec fn visits_all(
    visited: Seq<(TermView, TermInfoView)>,
    document: DocumentView,
    field: Field,
    start: BoundView,
    end: BoundView,
) -> bool {
    forall|term: TermView|
        #[trigger] (document.term_info)(term) is Some && term.field == field && after_start(
            start,
            term,
        ) && before_end(end, term) ==> exists|i: int|
            0 <= i < visited.len() && (#[trigger] visited[i]).0 == term
}

/// What a document answers.
pub struct DocumentView {
    /// The occurrence information of a term.
    pub term_info: spec_fn(TermView) -> Option<TermInfoView>,
    /// The terms of a field within a range.
    pub visited: spec_fn(Field, BoundView, BoundView) -> Seq<(TermView, TermInfoView)>,
    /// The compressed fieldnorm of a field.
    pub fieldnorm_id: spec_fn(Field) -> Option<u8>,
    /// Whether the document holds the fields that an evaluator reads.
    pub validated: spec_fn(Option<Seq<Field>>) -> Result<(), ErrorView>,
}

/// The fields of an optional list.
pub open spec fn field_list(fields: Option<&[Field]>) -> Option<Seq<Field>> {
    match fields {
        Some(fields) => Some(fields@),
        None => None,
    }
}

/// A pre-tokenized view of one external document.
///
/// Positions may be omitted except when evaluating a phrase. They are sorted absolute token
/// positions with the gaps that indexing leaves between values, and their number equals the term
/// frequency.
pub trait SingleDocument {
    /// What this document answers.
    spec fn document(&self) -> DocumentView;

    /// Returns occurrence information for `term`, or `None` when the term is absent.
    fn term_info(&self, term: &Term) -> (r: Option<SingleDocumentTermInfo<'_>>)
        ensures
            match r {
                Some(info) => (self.document().term_info)(term@) == Some(info@),
                None => (self.document().term_info)(term@) is None,
            },
    ;

    /// Lists every indexed term of `field` from `start` to `end`, each once, in ascending order.
    fn visit_terms(&self, field: Field, start: TermBound<'_>, end: TermBound<'_>) -> (r: Vec<
        VisitedTerm<'_>,
    >)
        ensures
            visited_views(r@) == (self.document().visited)(field, start@, end@),
            visits_range(visited_views(r@), field, start@, end@),
            visits_all(visited_views(r@), self.document(), field, start@, end@),
    ;

    /// Returns the compressed fieldnorm id for `field`.
    ///
    /// `None` means that no fieldnorm was supplied for this field. A fieldnorm is required only
    /// when scoring a term or a phrase on a field configured with fieldnorms.
    fn fieldnorm_id(&self, field: Field) -> (r: Option<u8>)
        ensures
            r == (self.document().fieldnorm_id)(field),
    ;

    /// Validates that this document contains the fields an evaluator may read.
    ///
    /// An implementation that always exposes a complete document returns `Ok(())`. Others reject
    /// required fields that were not prepared. When `required_fields` is `None`, the evaluator's
    /// requirements are unknown and only a complete document is safe.
    fn validate_required_fields(&self, required_fields: Option<&[Field]>) -> (r: Result<
        (),
        TantivyError,
    >)
        ensures
            error::outcome(r) == (self.document().validated)(field_list(required_fields)),
    ;
}

/// Controls whether a single-document evaluator computes scores.
pub enum SingleDocumentScoring<'a, S: ?Sized> {
    /// Compute scores using the supplied corpus statistics.
    Enabled(&'a S),
    /// Only compute the match state.
    Disabled,
}

/// Query compilation context for single-document evaluation.
pub struct SingleDocumentEvaluationContext<'a, S: Bm25StatisticsProvider + ?Sized> {
    schema: &'a Schema,
    scoring: SingleDocumentScoring<'a, S>,
    boost: Boost,
}

/// The contents of a [`SingleDocumentEvaluationContext`].
pub struct ContextView {
    /// The schema used to interpret query terms.
    pub schema: Seq<FieldEntryView>,
    /// The statistics, where scores are computed.
    pub statistics: Option<StatisticsView>,
    /// The accumulated boost.
    pub boost: Seq<u32>,
}

impl ContextView {
    /// The score of a match that is not scored by BM25: the accumulated boost, or one where scores
    /// are not computed.
    pub open spec fn constant_score(self) -> ScoreView {
        if self.statistics is Some {
            ScoreView::Product(self.boost)
        } else {
            score::unit_score()
        }
    }
}

/// What terms of one field are scored by: BM25 with the accumulated boost where scores are
/// computed.
pub open spec fn context_weight(context: ContextView, terms: Seq<TermView>) -> Result<
    Option<Bm25WeightView>,
    ErrorView,
> {
    match context.statistics {
        Some(statistics) => match statistics::bm25_weight(statistics, terms) {
            Err(error) => Err(error),
            Ok(weight) => Ok(
                Some(Bm25WeightView { boost: weight.boost + context.boost, ..weight }),
            ),
        },
        None => Ok(None),
    }
}

impl<'a, S: Bm25StatisticsProvider + ?Sized> View for SingleDocumentEvaluationContext<'a, S> {
    type V = ContextView;

    closed spec fn view(&self) -> ContextView {
        ContextView {
            schema: self.schema@,
            statistics: match self.scoring {
                SingleDocumentScoring::Enabled(statistics) => Some(statistics.statistics()),
                SingleDocumentScoring::Disabled => None,
            },
            boost: self.boost@,
        }
    }
}

impl<'a> SingleDocumentEvaluationContext<'a, Searcher> {
    /// Creates a context that only computes the match state.
    pub fn without_scoring(schema: &'a Schema) -> (r: Self)
        ensures
            r@ == (ContextView { schema: schema@, statistics: None, boost: Seq::empty() }),
    {
        SingleDocumentEvaluationContext {
            schema,
            scoring: SingleDocumentScoring::Disabled,
            boost: Boost::one(),
        }
    }
}

impl<'a, S: Bm25StatisticsProvider + ?Sized> SingleDocumentEvaluationContext<'a, S> {
    /// Creates a context that computes scores with `statistics`.
    pub fn with_scoring(schema: &'a Schema, statistics: &'a S) -> (r: Self)
        ensures
            r@ == (ContextView {
                schema: schema@,
                statistics: Some(statistics.statistics()),
                boost: Seq::empty(),
            }),
    {
        SingleDocumentEvaluationContext {
            schema,
            scoring: SingleDocumentScoring::Enabled(statistics),
            boost: Boost::one(),
        }
    }

    /// Returns the schema used to interpret query terms.
    pub fn schema(&self) -> (r: &'a Schema)
        ensures
            r@ == self@.schema,
    {
        self.schema
    }

    /// Returns the statistics provider when scoring is enabled.
    pub fn statistics_provider(&self) -> (r: Option<&'a S>)
        ensures
            match r {
                Some(statistics) => self@.statistics == Some(statistics.statistics()),
                None => self@.statistics is None,
            },
    {
        match self.scoring {
            SingleDocumentScoring::Enabled(statistics) => Some(statistics),
            SingleDocumentScoring::Disabled => None,
        }
    }

    /// Returns whether scoring is enabled.
    pub fn is_scoring_enabled(&self) -> (r: bool)
        ensures
            r == (self@.statistics is Some),
    {
        match self.scoring {
            SingleDocumentScoring::Enabled(statistics) => true,
            SingleDocumentScoring::Disabled => false,
        }
    }

    /// Returns the accumulated boost.
    pub fn boost(&self) -> (r: &Boost)
        ensures
            r@ == self@.boost,
    {
        &self.boost
    }

    /// Multiplies the accumulated boost by `factor`, the bit pattern of a single precision number.
    pub fn with_boost(self, factor: u32) -> (r: Self)
        ensures
            r@ == (ContextView { boost: self@.boost.push(factor), ..self@ }),
    {
        SingleDocumentEvaluationContext {
            schema: self.schema,
            scoring: self.scoring,
            boost: self.boost.times(factor),
        }
    }

    /// The same context, in which only the match state is computed.
    pub fn scoring_disabled(self) -> (r: Self)
        ensures
            r@ == (ContextView { statistics: None, ..self@ }),
    {
        SingleDocumentEvaluationContext {
            schema: self.schema,
            scoring: SingleDocumentScoring::Disabled,
            boost: self.boost,
        }
    }

    /// Collects what terms of one field are scored by, where scores are computed.
    pub fn weight_for_terms(&self, terms: &[Term]) -> (r: Result<Option<Bm25Weight>, TantivyError>)
        requires
            terms@.len() > 0,
            forall|i: int|
                0 <= i < terms@.len() ==> (#[trigger] terms@[i])@.field == terms@[0]@.field,
        ensures
            match r {
                Ok(weight) => context_weight(self@, statistics::term_views(terms@)) == Ok::<
                    Option<Bm25WeightView>,
                    ErrorView,
                >(statistics::weight_view(weight)),
                Err(error) => context_weight(self@, statistics::term_views(terms@)) == Err::<
                    Option<Bm25WeightView>,
                    ErrorView,
                >(error@),
            },
    {
        match self.statistics_provider() {
            Some(statistics) => match Bm25Weight::for_terms(statistics, terms) {
                Ok(weight) => Ok(Some(weight.boost_by(&self.boost))),
                Err(error) => Err(error),
            },
            None => Ok(None),
        }
    }

    /// The score of a match that is not scored by BM25.
    pub fn constant_score(&self) -> (r: Boost)
        ensures
            ScoreView::Product(r@) == self@.constant_score(),
    {
        if self.is_scoring_enabled() {
            self.boost.clone()
        } else {
            Boost::one()
        }
    }
}

impl<'a, S: Bm25StatisticsProvider + ?Sized> Clone for SingleDocumentEvaluationContext<'a, S> {
    fn clone(&self) -> (r: Self)
        ensures
            r@ == self@,
    {
        SingleDocumentEvaluationContext {
            schema: self.schema,
            scoring: match self.scoring {
                SingleDocumentScoring::Enabled(statistics) => SingleDocumentScoring::Enabled(
                    statistics,
                ),
                SingleDocumentScoring::Disabled => SingleDocumentScoring::Disabled,
            },
            boost: self.boost.clone(),
        }
    }
}

/// What the result of an evaluation holds.
pub open spec fn evaluation(result: Result<DocumentEvaluation, TantivyError>) -> Result<
    EvaluationView,
    ErrorView,
> {
    match result {
        Ok(evaluation) => Ok(evaluation@),
        Err(error) => Err(error@),
    }
}

/// A query compiled for repeated evaluation of external documents.
///
/// An evaluator can be used on any number of documents, one after the other: what it answers for a
/// document does not depend on those it was used on before.
pub trait SingleDocumentEvaluator: Sized {
    /// The evaluator is one that compiling a query can give.
    spec fn well_formed(&self) -> bool;

    /// The fields whose indexed data may be read, `None` where they are unknown.
    spec fn required(&self) -> Option<Seq<Field>>;

    /// What the evaluator answers for a document that holds the required fields.
    spec fn result(&self, document: DocumentView) -> Result<EvaluationView, ErrorView>;

    /// Evaluates one pre-tokenized document.
    ///
    /// This is the checked entry point: a document that does not hold the fields that the
    /// evaluator reads is rejected.
    fn evaluate<D: SingleDocument + ?Sized>(&mut self, document: &D) -> (r: Result<
        DocumentEvaluation,
        TantivyError,
    >)
        requires
            old(self).well_formed(),
        ensures
            final(self).well_formed(),
            final(self).required() == old(self).required(),
            forall|other: DocumentView| #[trigger]
                final(self).result(other) == old(self).result(other),
            evaluation(r) == (match (document.document().validated)(old(self).required()) {
                Ok(_) => old(self).result(document.document()),
                Err(error) => Err(error),
            }),
    {
        match document.validate_required_fields(self.required_fields()) {
            Ok(_) => self.evaluate_impl(document),
            Err(error) => Err(error),
        }
    }

    /// Implements the evaluator-specific match and score logic.
    ///
    /// Callers should use [`Self::evaluate`] so that prepared-field coverage is validated first.
    fn evaluate_impl<D: SingleDocument + ?Sized>(&mut self, document: &D) -> (r: Result<
        DocumentEvaluation,
        TantivyError,
    >)
        requires
            old(self).well_formed(),
        ensures
            final(self).well_formed(),
            final(self).required() == old(self).required(),
            forall|other: DocumentView| #[trigger]
                final(self).result(other) == old(self).result(other),
            evaluation(r) == old(self).result(document.document()),
    ;

    /// Returns the fields whose indexed data may be read by this evaluator.
    ///
    /// `Some(&[])` means that the evaluator does not inspect document fields. `None` means that
    /// the requirements are unknown, so that documents prepared for some fields only cannot be
    /// evaluated.
    fn required_fields(&self) -> (r: Option<&[Field]>)
        requires
            self.well_formed(),
        ensures
            field_list(r) == self.required(),
    ;
}

/// Rejects a term that a document reports without any occurrence.
pub fn validate_term_info(term: &Term, term_freq: u32) -> (r: Result<(), TantivyError>)
    ensures
        error::outcome(r) == term_info_check(term@, term_freq),
{
    if term_freq == 0 {
        return Err(error::zero_term_frequency_error(term));
    }
    Ok(())
}

/// A reported term occurs at least once.
pub open spec fn term_info_check(term: TermView, term_freq: u32) -> Result<(), ErrorView> {
    if term_freq == 0 {
        Err(error::zero_term_frequency(term))
    } else {
        Ok(())
    }
}

/// An error with the path of a parent query in front of an unsupported query.
pub open spec fn under_path(error: ErrorView, path: Seq<char>) -> ErrorView {
    match error {
        ErrorView::UnsupportedQueryForSingleDocumentEvaluation(child) =>
            ErrorView::UnsupportedQueryForSingleDocumentEvaluation(path + " -> "@ + child),
        other => other,
    }
}

/// Prepends a parent query path to unsupported-query errors.
///
/// Other errors are left unchanged to preserve their classification.
pub fn with_unsupported_query_path(error: TantivyError, path: &str) -> (r: TantivyError)
    ensures
        r@ == under_path(error@, path@),
{
    match error {
        TantivyError::UnsupportedQueryForSingleDocumentEvaluation(child) => {
            let mut s = path.to_owned();
            s.append(" -> ");
            s.append(child.as_str());
            TantivyError::UnsupportedQueryForSingleDocumentEvaluation(s)
        },
        other => other,
    }
}

/// The record level at which the postings of `term` can be read, and whether its field stores
/// fieldnorms.
pub open spec fn record_option(
    schema: Seq<FieldEntryView>,
    term: TermView,
    requested: IndexRecordOption,
) -> Result<(IndexRecordOption, bool), ErrorView> {
    if term.field.0 >= schema.len() {
        Err(error::unknown_field(term.field))
    } else {
        let entry = schema[term.field.0 as int];
        match entry.field_type.record_option {
            None => Err(error::not_indexed(entry.name)),
            Some(stored) => Ok(
                (
                    term_record_option(entry.field_type, term, requested, stored),
                    entry.field_type.fieldnorms,
                ),
            ),
        }
    }
}

/// The highest record level supported both by `requested` and by the postings stored for this
/// term: in a JSON field only text retains the level of the field.
pub open spec fn term_record_option(
    field_type: FieldTypeView,
    term: TermView,
    requested: IndexRecordOption,
    stored: IndexRecordOption,
) -> IndexRecordOption {
    if field_type.value_type == Type::Json && term::json_value_type(term) != Some(Type::Str) {
        IndexRecordOption::Basic
    } else {
        requested.lower(stored)
    }
}

/// Resolves the [`IndexRecordOption`] to use when reading postings for `term` during
/// single-document evaluation.
///
/// The query may request a record level, but the schema and the term itself may only expose a
/// lower level. This function validates the field and returns the effective level together with
/// whether the field stores fieldnorms.
pub fn effective_record_option(schema: &Schema, term: &Term, requested: IndexRecordOption) -> (r:
    Result<(IndexRecordOption, bool), TantivyError>)
    ensures
        error::outcome(r) == record_option(schema@, term@, requested),
{
    let field = term.field();
    if field.field_id() as usize >= schema.num_fields() {
        return Err(error::unknown_field_error(field));
    }
    let field_entry = schema.get_field_entry(field);
    let field_type = field_entry.field_type();
    match field_type.index_record_option() {
        None => Err(error::not_indexed_error(field_entry.name())),
        Some(stored) => {
            let effective = downgrade_record_option_for_term(field_type, term, requested, stored);
            Ok((effective, field_entry.has_fieldnorms()))
        },
    }
}

/// Computes the highest [`IndexRecordOption`] supported both by `requested` and by the postings
/// stored for this term.
///
/// For JSON fields, only string terms retain the schema's full record level; non-string JSON terms
/// are capped at [`IndexRecordOption::Basic`].
pub fn downgrade_record_option_for_term(
    field_type: &FieldType,
    term: &Term,
    requested: IndexRecordOption,
    stored: IndexRecordOption,
) -> (r: IndexRecordOption)
    ensures
        r == term_record_option(field_type@, term@, requested, stored),
{
    if field_type.value_type() == Type::Json {
        let is_json_string = match term.json_value_type() {
            Some(value_type) => value_type == Type::Str,
            None => false,
        };
        if !is_json_string {
            return requested.downgrade(IndexRecordOption::Basic);
        }
    }
    requested.downgrade(stored)
}

/// The fieldnorm id by which a match in `field` is scored: that of the document where the field
/// stores fieldnorms, one where it does not.
pub open spec fn scoring_fieldnorm(
    field: Field,
    has_fieldnorms: bool,
    document: DocumentView,
) -> Result<u8, ErrorView> {
    if has_fieldnorms {
        match (document.fieldnorm_id)(field) {
            Some(fieldnorm_id) => Ok(fieldnorm_id),
            None => Err(error::fieldnorm_missing(field)),
        }
    } else {
        Ok(1)
    }
}

/// Returns the fieldnorm id by which a match in `field` is scored.
pub fn fieldnorm_for_scoring<D: SingleDocument + ?Sized>(
    field: Field,
    has_fieldnorms: bool,
    document: &D,
) -> (r: Result<u8, TantivyError>)
    ensures
        error::outcome(r) == scoring_fieldnorm(field, has_fieldnorms, document.document()),
{
    if has_fieldnorms {
        match document.fieldnorm_id(field) {
            Some(fieldnorm_id) => Ok(fieldnorm_id),
            None => Err(error::fieldnorm_missing_error(field)),
        }
    } else {
        Ok(1)
    }
}

/// What is kept of the first entries comes first in what is kept of all of them.
pub proof fn filter_of_prefix(
    entries: Seq<(TermView, TermInfoView)>,
    pred: spec_fn((TermView, TermInfoView)) -> bool,
    n: int,
)
    requires
        0 <= n <= entries.len(),
    ensures
        entries.take(n).filter(pred).len() <= entries.filter(pred).len(),
        entries.filter(pred).take(entries.take(n).filter(pred).len() as int) == entries.take(
            n,
        ).filter(pred),
{
    assert(entries.take(n) + entries.skip(n) =~= entries);
    Seq::filter_distributes_over_add(entries.take(n), entries.skip(n), pred);
    assert(entries.filter(pred).take(entries.take(n).filter(pred).len() as int)
        =~= entries.take(n).filter(pred));
}

} // verus!
