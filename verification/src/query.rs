//! What a query is: a recipe for a set of documents and their scores.

use vstd::prelude::*;
use crate::error;
use crate::error::{ErrorView, TantivyError};
use crate::schema::{FieldEntryView, Schema};
use crate::searcher::{DocAddress, Searcher, SearcherView, SegmentReader};
use crate::single_document::ContextView;
use crate::single_document::{SingleDocumentEvaluationContext, SingleDocumentEvaluator};
use crate::statistics::{Bm25StatisticsProvider, StatisticsView};
use crate::term::Term;

verus! {

/// Argument used in [`Query::weight`].
pub enum EnableScoring<'a, S: Bm25StatisticsProvider + ?Sized> {
    /// Pass this to enable scoring.
    Enabled {
        /// The searcher to use during scoring.
        searcher: &'a Searcher,
        /// The statistics used to compute BM25 scores.
        ///
        /// Normally this should be the searcher, but you can specify a custom one to adjust the
        /// statistics.
        statistics_provider: &'a S,
    },
    /// Pass this to disable scoring. This can improve performance.
    Disabled {
        /// Schema is required.
        schema: &'a Schema,
        /// Searcher should be provided if available.
        searcher_opt: Option<&'a Searcher>,
    },
}

/// The contents of an [`EnableScoring`].
pub enum ScoringView {
    /// Scores are computed.
    Enabled {
        /// The searcher.
        searcher: SearcherView,
        /// The statistics.
        statistics: StatisticsView,
    },
    /// Scores are not computed.
    Disabled {
        /// The schema.
        schema: Seq<FieldEntryView>,
        /// The searcher, if available.
        searcher_opt: Option<SearcherView>,
    },
}

impl ScoringView {
    /// The schema of the searched index.
    pub open spec fn schema(self) -> Seq<FieldEntryView> {
        match self {
            ScoringView::Enabled { searcher, .. } => searcher.schema,
            ScoringView::Disabled { schema, .. } => schema,
        }
    }

    /// Scores are computed from the statistics of a searcher.
    pub open spec fn of_searcher(searcher: SearcherView) -> ScoringView {
        ScoringView::Enabled { searcher, statistics: searcher.statistics() }
    }

    /// Scores are not computed on a searcher.
    pub open spec fn without_scores(searcher: SearcherView) -> ScoringView {
        ScoringView::Disabled { schema: searcher.schema, searcher_opt: Some(searcher) }
    }
}

impl<'a, S: Bm25StatisticsProvider + ?Sized> View for EnableScoring<'a, S> {
    type V = ScoringView;

    open spec fn view(&self) -> ScoringView {
        match self {
            EnableScoring::Enabled { searcher, statistics_provider } => ScoringView::Enabled {
                searcher: searcher@,
                statistics: statistics_provider.statistics(),
            },
            EnableScoring::Disabled { schema, searcher_opt } => ScoringView::Disabled {
                schema: schema@,
                searcher_opt: match searcher_opt {
                    Some(searcher) => Some(searcher@),
                    None => None,
                },
            },
        }
    }
}

impl<'a> EnableScoring<'a, Searcher> {
    /// Create using a searcher with scoring enabled.
    pub fn enabled_from_searcher(searcher: &'a Searcher) -> (r: EnableScoring<'a, Searcher>)
        ensures
            r@ == ScoringView::of_searcher(searcher@),
    {
        EnableScoring::Enabled { searcher, statistics_provider: searcher }
    }

    /// Create using a searcher with scoring disabled.
    pub fn disabled_from_searcher(searcher: &'a Searcher) -> (r: EnableScoring<'a, Searcher>)
        ensures
            r@ == ScoringView::without_scores(searcher@),
    {
        EnableScoring::Disabled { schema: searcher.schema(), searcher_opt: Some(searcher) }
    }

    /// Create using a schema with scoring disabled.
    pub fn disabled_from_schema(schema: &'a Schema) -> (r: EnableScoring<'a, Searcher>)
        ensures
            r@ == (ScoringView::Disabled { schema: schema@, searcher_opt: None }),
    {
        EnableScoring::Disabled { schema, searcher_opt: None }
    }
}

impl<'a, S: Bm25StatisticsProvider + ?Sized> EnableScoring<'a, S> {
    /// Create using custom statistics with scoring enabled.
    pub fn enabled_from_statistics_provider(
        statistics_provider: &'a S,
        searcher: &'a Searcher,
    ) -> (r: EnableScoring<'a, S>)
        ensures
            r@ == (ScoringView::Enabled {
                searcher: searcher@,
                statistics: statistics_provider.statistics(),
            }),
    {
        EnableScoring::Enabled { searcher, statistics_provider }
    }

    /// Returns the searcher if available.
    pub fn searcher(&self) -> (r: Option<&Searcher>)
        ensures
            match (r, self@) {
                (Some(found), ScoringView::Enabled { searcher, .. }) => found@ == searcher,
                (Some(found), ScoringView::Disabled { searcher_opt, .. }) => searcher_opt == Some(
                    found@,
                ),
                (None, ScoringView::Enabled { .. }) => false,
                (None, ScoringView::Disabled { searcher_opt, .. }) => searcher_opt is None,
            },
    {
        match self {
            EnableScoring::Enabled { searcher, .. } => Some(*searcher),
            EnableScoring::Disabled { searcher_opt, .. } => match searcher_opt {
                Some(searcher) => Some(*searcher),
                None => None,
            },
        }
    }

    /// Returns the schema.
    pub fn schema(&self) -> (r: &Schema)
        ensures
            r@ == self@.schema(),
    {
        match self {
            EnableScoring::Enabled { searcher, .. } => searcher.schema(),
            EnableScoring::Disabled { schema, .. } => schema,
        }
    }

    /// Returns true if the scoring is enabled.
    pub fn is_scoring_enabled(&self) -> (r: bool)
        ensures
            r == (self@ is Enabled),
    {
        match self {
            EnableScoring::Enabled { .. } => true,
            EnableScoring::Disabled { .. } => false,
        }
    }
}

/// A query tied to a searcher, able to run on its segments.
pub trait Weight {
    /// What the score of a document is explained by.
    type Explanation;

    /// The number of documents of a segment that match.
    spec fn matching(&self, reader: SegmentReader) -> Result<u32, ErrorView>;

    /// The explanation of the score of a document of a segment.
    spec fn explanation(&self, reader: SegmentReader, doc: u32) -> Result<
        Self::Explanation,
        ErrorView,
    >;

    /// Returns the number of documents of a segment that match.
    fn count(&self, reader: &SegmentReader) -> (r: Result<u32, TantivyError>)
        ensures
            error::outcome(r) == self.matching(*reader),
    ;

    /// Explains the score of a document of a segment.
    fn explain(&self, reader: &SegmentReader, doc: u32) -> (r: Result<
        Self::Explanation,
        TantivyError,
    >)
        ensures
            error::outcome(r) == self.explanation(*reader, doc),
    ;
}

/// The number of matching documents over all the segments, or the error of the first segment that
/// has one.
pub open spec fn total_matching<W: Weight>(weight: W, readers: Seq<SegmentReader>) -> Result<
    nat,
    ErrorView,
>
    decreases readers.len(),
{
    if readers.len() == 0 {
        Ok(0)
    } else {
        match total_matching(weight, readers.drop_last()) {
            Err(error) => Err(error),
            Ok(total) => match weight.matching(readers.last()) {
                Err(error) => Err(error),
                Ok(count) => Ok(total + count as nat),
            },
        }
    }
}

/// An error among the first segments is the error of all of them.
proof fn total_matching_error_of_prefix<W: Weight>(
    weight: W,
    readers: Seq<SegmentReader>,
    n: int,
)
    requires
        0 <= n <= readers.len(),
        total_matching(weight, readers.take(n)) is Err,
    ensures
        total_matching(weight, readers) == total_matching(weight, readers.take(n)),
    decreases readers.len() - n,
{
    if n == readers.len() {
        assert(readers.take(n) =~= readers);
    } else {
        assert(readers.take(n + 1).drop_last() =~= readers.take(n));
        total_matching_error_of_prefix(weight, readers, n + 1);
    }
}

/// The number of matching documents fits a machine word, however many of the segments are counted.
pub open spec fn totals_fit<W: Weight>(weight: W, readers: Seq<SegmentReader>) -> bool {
    forall|n: int|
        0 <= n <= readers.len() ==> (total_matching(weight, #[trigger] readers.take(n)) matches Ok(
            total,
        ) ==> total <= usize::MAX)
}

/// The number of matching documents of no segments is zero, that of one segment is its own, and that
/// of two lists of segments is the sum of both, or the first error among them.
pub proof fn matching_documents_add_up<W: Weight>(
    weight: W,
    left: Seq<SegmentReader>,
    right: Seq<SegmentReader>,
    reader: SegmentReader,
)
    ensures
        total_matching(weight, Seq::empty()) == Ok::<nat, ErrorView>(0),
        total_matching(weight, seq![reader]) == (match weight.matching(reader) {
            Ok(count) => Ok(count as nat),
            Err(error) => Err(error),
        }),
        total_matching(weight, left + right) == (match (
            total_matching(weight, left),
            total_matching(weight, right),
        ) {
            (Ok(first), Ok(second)) => Ok(first + second),
            (Err(error), _) => Err(error),
            (_, Err(error)) => Err(error),
        }),
    decreases right.len(),
{
    assert(seq![reader].drop_last() =~= Seq::empty());
    assert(total_matching(weight, seq![reader].drop_last()) == Ok::<nat, ErrorView>(0));
    if right.len() == 0 {
        assert(left + right =~= left);
    } else {
        matching_documents_add_up(weight, left, right.drop_last(), reader);
        assert((left + right).drop_last() =~= left + right.drop_last());
        assert((left + right).last() == right.last());
    }
}

/// Adds up the matching documents of the segments.
pub fn count_matching<W: Weight>(weight: &W, readers: &[SegmentReader]) -> (r: Result<
    usize,
    TantivyError,
>)
    requires
        totals_fit(*weight, readers@),
    ensures
        match r {
            Ok(total) => total_matching(*weight, readers@) == Ok::<nat, ErrorView>(total as nat),
            Err(error) => total_matching(*weight, readers@) == Err::<nat, ErrorView>(error@),
        },
{
    let mut result: usize = 0;
    let mut i: usize = 0;
    while i < readers.len()
        invariant
            i <= readers.len(),
            totals_fit(*weight, readers@),
            total_matching(*weight, readers@.take(i as int)) == Ok::<nat, ErrorView>(
                result as nat,
            ),
        decreases readers.len() - i,
    {
        assert(readers@.take(i + 1).drop_last() =~= readers@.take(i as int));
        match weight.count(&readers[i]) {
            Ok(count) => {
                assert(total_matching(*weight, readers@.take(i + 1)) == Ok::<nat, ErrorView>(
                    result as nat + count as nat,
                ));
                result += count as usize;
            },
            Err(error) => {
                proof {
                    total_matching_error_of_prefix(*weight, readers@, i + 1);
                }
                return Err(error);
            },
        }
        i += 1;
    }
    assert(readers@.take(i as int) =~= readers@);
    Ok(result)
}

/// The answer of a query that cannot be evaluated on single documents.
pub open spec fn unsupported<E>(name: Seq<char>) -> Result<E, ErrorView> {
    Err(ErrorView::UnsupportedQueryForSingleDocumentEvaluation(name))
}

/// A query defines a set of documents and a way to score them.
///
/// An index is split into segments, so a query does not give its documents directly: it is a
/// recipe that gives a [`Weight`] for a searcher, and the weight runs on one segment at a time.
/// A query may also be compiled into an evaluator that runs on documents outside of any index.
pub trait Query: Sized {
    /// The weight of such a query.
    type Weight;

    /// The evaluator of such a query for single documents.
    type Evaluator: SingleDocumentEvaluator;

    /// The name of the type of query.
    spec fn name(&self) -> Seq<char>;

    /// The weight can be created: the fields of the query exist.
    spec fn weighable(&self, scoring: ScoringView) -> bool;

    /// What creating the weight gives.
    spec fn weighs(&self, scoring: ScoringView, weight: Result<Self::Weight, ErrorView>) -> bool;

    /// What compiling the query for single documents gives: for a context, the evaluator or the
    /// error.
    spec fn compiles(
        &self,
        context: ContextView,
        outcome: Result<Self::Evaluator, ErrorView>,
    ) -> bool;

    /// Returns the name of the type of query.
    fn query_name(&self) -> (r: String)
        ensures
            r@ == self.name(),
    ;

    /// Creates the weight associated with a query.
    fn weight<S: Bm25StatisticsProvider + ?Sized>(
        &self,
        enable_scoring: EnableScoring<'_, S>,
    ) -> (r: Result<Self::Weight, TantivyError>)
        requires
            self.weighable(enable_scoring@),
        ensures
            self.weighs(enable_scoring@, error::outcome(r)),
    ;

    /// Compiles this query for repeated evaluation of pre-tokenized external documents.
    ///
    /// A type of query that does not say otherwise cannot be evaluated on such documents: it is
    /// answered with an error that names it.
    fn single_document_evaluator<S: Bm25StatisticsProvider + ?Sized>(
        &self,
        context: SingleDocumentEvaluationContext<'_, S>,
    ) -> (r: Result<Self::Evaluator, TantivyError>)
        ensures
            r matches Ok(evaluator) ==> evaluator.well_formed(),
            self.compiles(context@, error::outcome(r)) || error::outcome(r) == unsupported::<
                Self::Evaluator,
            >(self.name()),
        default_ensures
            error::outcome(r) == unsupported::<Self::Evaluator>(self.name()),
    {
        Err(TantivyError::UnsupportedQueryForSingleDocumentEvaluation(self.query_name()))
    }

    /// Returns an explanation for the score of the document.
    fn explain(&self, searcher: &Searcher, doc_address: DocAddress) -> (r: Result<
        <Self::Weight as Weight>::Explanation,
        TantivyError,
    >) where Self::Weight: Weight
        requires
            doc_address.segment_ord < searcher@.segment_readers.len(),
            self.weighable(ScoringView::of_searcher(searcher@)),
        ensures
            exists|weight: Result<Self::Weight, ErrorView>| #[trigger]
                self.weighs(ScoringView::of_searcher(searcher@), weight) && error::outcome(r) == (
                match weight {
                    Ok(weight) => weight.explanation(
                        searcher@.segment_readers[doc_address.segment_ord as int],
                        doc_address.doc_id,
                    ),
                    Err(error) => Err(error),
                }),
    {
        match self.weight(EnableScoring::enabled_from_searcher(searcher)) {
            Ok(weight) => {
                let ghost weighed = Ok::<Self::Weight, ErrorView>(weight);
                assert(self.weighs(ScoringView::of_searcher(searcher@), weighed));
                weight.explain(
                    searcher.segment_reader(doc_address.segment_ord),
                    doc_address.doc_id,
                )
            },
            Err(error) => Err(error),
        }
    }

    /// Returns the number of documents matching the query.
    fn count(&self, searcher: &Searcher) -> (r: Result<usize, TantivyError>) where
        Self::Weight: Weight,

        requires
            forall|weight: Self::Weight| #[trigger]
                self.weighs(ScoringView::without_scores(searcher@), Ok(weight)) ==> totals_fit(
                    weight,
                    searcher@.segment_readers,
                ),
            self.weighable(ScoringView::without_scores(searcher@)),
        ensures
            exists|weight: Result<Self::Weight, ErrorView>| #[trigger]
                self.weighs(ScoringView::without_scores(searcher@), weight) && match weight {
                    Ok(weight) => match r {
                        Ok(total) => total_matching(weight, searcher@.segment_readers) == Ok::<
                            nat,
                            ErrorView,
                        >(total as nat),
                        Err(error) => total_matching(weight, searcher@.segment_readers) == Err::<
                            nat,
                            ErrorView,
                        >(error@),
                    },
                    Err(error) => r matches Err(found) && found@ == error,
                },
    {
        match self.weight(EnableScoring::disabled_from_searcher(searcher)) {
            Ok(weight) => {
                let ghost weighed = Ok::<Self::Weight, ErrorView>(weight);
                assert(self.weighs(ScoringView::without_scores(searcher@), weighed));
                count_matching(&weight, searcher.segment_readers())
            },
            Err(error) => Err(error),
        }
    }

    /// Extracts all of the terms associated with the query.
    ///
    /// Each term is associated with a boolean indicating whether positions are required or not.
    /// There can be multiple instances of any given term in a query.
    fn query_terms(&self) -> (r: Vec<(&Term, bool)>)
        default_ensures
            r@.len() == 0,
    {
        Vec::new()
    }
}

/// A boxed query is the query in the box.
impl<Q: Query> Query for Box<Q> {
    type Weight = Q::Weight;

    type Evaluator = Q::Evaluator;

    open spec fn name(&self) -> Seq<char> {
        (**self).name()
    }

    open spec fn weighable(&self, scoring: ScoringView) -> bool {
        (**self).weighable(scoring)
    }

    open spec fn weighs(&self, scoring: ScoringView, weight: Result<Q::Weight, ErrorView>) -> bool {
        (**self).weighs(scoring, weight)
    }

    open spec fn compiles(
        &self,
        context: ContextView,
        outcome: Result<Q::Evaluator, ErrorView>,
    ) -> bool {
        (**self).compiles(context, outcome)
    }

    fn query_name(&self) -> (r: String) {
        (**self).query_name()
    }

    fn weight<S: Bm25StatisticsProvider + ?Sized>(
        &self,
        enable_scoring: EnableScoring<'_, S>,
    ) -> (r: Result<Q::Weight, TantivyError>) {
        (**self).weight(enable_scoring)
    }

    /// Compiles the query in the box: the evaluator or the error is what compiling that query gives
    /// for the same context. Whether that query is one that cannot be evaluated on single documents
    /// depends on its type.
    fn single_document_evaluator<S: Bm25StatisticsProvider + ?Sized>(
        &self,
        context: SingleDocumentEvaluationContext<'_, S>,
    ) -> (r: Result<Q::Evaluator, TantivyError>) {
        (**self).single_document_evaluator(context)
    }

    fn query_terms(&self) -> (r: Vec<(&Term, bool)>)
        ensures
            call_ensures(Q::query_terms, (&**self,), r),
    {
        (**self).query_terms()
    }
}

/// Implements `box_clone`.
pub trait QueryClone: Sized + Clone {
    /// Returns a boxed clone of `self`.
    fn box_clone(&self) -> (r: Box<Self>)
        ensures
            cloned(*self, *r),
    ;
}

impl<T: Query + Clone> QueryClone for T {
    fn box_clone(&self) -> (r: Box<T>) {
        Box::new(self.clone())
    }
}

} // verus!
