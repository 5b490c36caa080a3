//! A query for a phrase of which the last term is only a prefix.

use vstd::prelude::*;
use crate::error;
use crate::error::{ErrorView, TantivyError};
use crate::phrase;
use crate::phrase_order;
use crate::phrase_prefix_evaluator;
use crate::phrase_prefix_evaluator::PhrasePrefixEvaluatorView;
use crate::phrase_prefix_evaluator::PhrasePrefixSingleDocumentEvaluator;
use crate::query::{EnableScoring, Query, ScoringView};
use crate::range_query::{RangeBound, RangeQuery, RangeQueryView};
use crate::schema::{Field, FieldTypeView, IndexRecordOption, Type};
use crate::score;
use crate::score::Boost;
use crate::single_document;
use crate::single_document::{BoundView, ContextView};
use crate::single_document::{SingleDocumentEvaluationContext, SingleDocumentEvaluator};
use crate::statistics;
use crate::statistics::{Bm25StatisticsProvider, Bm25Weight, Bm25WeightView};
use crate::term::{Term, TermView};

verus! {

/// The number of terms to which the prefix expands unless another is set.
pub const DEFAULT_MAX_EXPANSIONS: u32 = 50;

/// `PhrasePrefixQuery` matches a specific sequence of words followed by term of which only a
/// prefix is known.
///
/// For instance the phrase prefix query for `"part t"` will match the sentence
///
/// **Alan just got a part time job.**
///
/// On the other hand it will not match the sentence.
///
/// **This is my favorite part of the job.**
///
/// Using a `PhrasePrefixQuery` on a field requires positions to be indexed for this field.
#[derive(Debug)]
pub struct PhrasePrefixQuery {
    field: Field,
    phrase_terms: Vec<(usize, Term)>,
    prefix: (usize, Term),
    max_expansions: u32,
}

/// The contents of a [`PhrasePrefixQuery`].
#[verifier::ext_equal]
pub struct PhrasePrefixQueryView {
    /// The field that all the terms belong to.
    pub field: Field,
    /// The fixed terms, with their offsets.
    pub phrase_terms: Seq<(usize, TermView)>,
    /// The prefix, with its offset.
    pub prefix: (usize, TermView),
    /// The number of terms to which the prefix expands at most.
    pub max_expansions: u32,
}

impl View for PhrasePrefixQuery {
    type V = PhrasePrefixQueryView;

    closed spec fn view(&self) -> PhrasePrefixQueryView {
        PhrasePrefixQueryView {
            field: self.field,
            phrase_terms: phrase::phrase_views(self.phrase_terms@),
            prefix: (self.prefix.0, self.prefix.1@),
            max_expansions: self.max_expansions,
        }
    }
}

impl PhrasePrefixQueryView {
    /// All the terms, the prefix last.
    pub open spec fn terms(self) -> Seq<(usize, TermView)> {
        self.phrase_terms.push(self.prefix)
    }

    /// The terms come in the order of their offsets, and all belong to one field.
    pub open spec fn well_formed(self) -> bool {
        phrase_order::ordered(self.terms()) && phrase_order::of_field(self.terms(), self.field)
    }

    proof fn phrase_is_of_field(self)
        requires
            self.well_formed(),
        ensures
            phrase_order::of_field(self.phrase_terms, self.field),
    {
        assert forall|i: int| 0 <= i < self.phrase_terms.len() implies (
        #[trigger] self.phrase_terms[i]).1.field == self.field by {
            assert(self.terms()[i].1.field == self.field);
        }
    }
}

/// The weight of a phrase with a prefix, tied to a searcher.
#[derive(Debug)]
pub struct PhrasePrefixWeight {
    phrase_terms: Vec<(usize, Term)>,
    prefix: (usize, Term),
    bm25_weight: Option<Bm25Weight>,
    max_expansions: u32,
}

/// The contents of a [`PhrasePrefixWeight`].
#[verifier::ext_equal]
pub struct PhrasePrefixWeightView {
    /// The fixed terms, with their offsets.
    pub phrase_terms: Seq<(usize, TermView)>,
    /// The prefix, with its offset.
    pub prefix: (usize, TermView),
    /// What the fixed terms are scored by, where scores are computed.
    pub bm25_weight: Option<Bm25WeightView>,
    /// The number of terms to which the prefix expands at most.
    pub max_expansions: u32,
}

impl View for PhrasePrefixWeight {
    type V = PhrasePrefixWeightView;

    closed spec fn view(&self) -> PhrasePrefixWeightView {
        PhrasePrefixWeightView {
            phrase_terms: phrase::phrase_views(self.phrase_terms@),
            prefix: (self.prefix.0, self.prefix.1@),
            bm25_weight: statistics::weight_view(self.bm25_weight),
            max_expansions: self.max_expansions,
        }
    }
}

impl PhrasePrefixWeight {
    /// Returns the fixed terms, with their offsets.
    pub fn phrase_terms(&self) -> (r: &[(usize, Term)])
        ensures
            phrase::phrase_views(r@) == self@.phrase_terms,
    {
        self.phrase_terms.as_slice()
    }

    /// Returns the prefix, with its offset.
    pub fn prefix(&self) -> (r: (usize, &Term))
        ensures
            (r.0, r.1@) == self@.prefix,
    {
        (self.prefix.0, &self.prefix.1)
    }

    /// Returns what the fixed terms are scored by, where scores are computed.
    pub fn bm25_weight(&self) -> (r: Option<&Bm25Weight>)
        ensures
            match r {
                Some(weight) => self@.bm25_weight == Some(weight@),
                None => self@.bm25_weight is None,
            },
    {
        match &self.bm25_weight {
            Some(weight) => Some(weight),
            None => None,
        }
    }

    /// Returns the number of terms to which the prefix expands at most.
    pub fn max_expansions(&self) -> (r: u32)
        ensures
            r == self@.max_expansions,
    {
        self.max_expansions
    }
}

/// The weight of a [`PhrasePrefixQuery`].
#[derive(Debug)]
pub enum PhrasePrefixQueryWeight {
    /// The query has fixed terms before the prefix.
    Phrase(PhrasePrefixWeight),
    /// The query is a prefix only: any term in its range matches.
    Range(RangeQuery),
}

/// The contents of a [`PhrasePrefixQueryWeight`].
pub enum PhrasePrefixQueryWeightView {
    /// The query has fixed terms before the prefix.
    Phrase(PhrasePrefixWeightView),
    /// The query is a prefix only.
    Range(RangeQueryView),
}

impl View for PhrasePrefixQueryWeight {
    type V = PhrasePrefixQueryWeightView;

    open spec fn view(&self) -> PhrasePrefixQueryWeightView {
        match self {
            PhrasePrefixQueryWeight::Phrase(weight) => PhrasePrefixQueryWeightView::Phrase(
                weight@,
            ),
            PhrasePrefixQueryWeight::Range(query) => PhrasePrefixQueryWeightView::Range(query@),
        }
    }
}

/// The postings of a field hold positions.
pub open spec fn indexes_positions(field_type: FieldTypeView) -> bool {
    match field_type.record_option {
        Some(stored) => stored == IndexRecordOption::WithFreqsAndPositions,
        None => false,
    }
}

/// The weight of a query with fixed terms; `None` for a query that is a prefix only.
pub open spec fn phrase_prefix_weight(query: PhrasePrefixQueryView, scoring: ScoringView) -> Result<
    Option<PhrasePrefixWeightView>,
    ErrorView,
> {
    let entry = scoring.schema()[query.field.0 as int];
    if query.phrase_terms.len() == 0 {
        Ok(None)
    } else if !indexes_positions(entry.field_type) {
        Err(error::no_positions_indexed(entry.name))
    } else {
        match scoring {
            ScoringView::Enabled { statistics, .. } => match statistics::bm25_weight(
                statistics,
                phrase::terms_of(query.phrase_terms),
            ) {
                Err(error) => Err(error),
                Ok(weight) => Ok(
                    Some(
                        PhrasePrefixWeightView {
                            phrase_terms: query.phrase_terms,
                            prefix: query.prefix,
                            bm25_weight: Some(weight),
                            max_expansions: query.max_expansions,
                        },
                    ),
                ),
            },
            ScoringView::Disabled { .. } => Ok(
                Some(
                    PhrasePrefixWeightView {
                        phrase_terms: query.phrase_terms,
                        prefix: query.prefix,
                        bm25_weight: None,
                        max_expansions: query.max_expansions,
                    },
                ),
            ),
        }
    }
}

/// The weight of a query.
pub open spec fn weighed(query: PhrasePrefixQueryView, scoring: ScoringView) -> Result<
    PhrasePrefixQueryWeightView,
    ErrorView,
> {
    match phrase_prefix_weight(query, scoring) {
        Err(error) => Err(error),
        Ok(Some(weight)) => Ok(PhrasePrefixQueryWeightView::Phrase(weight)),
        Ok(None) => Ok(
            PhrasePrefixQueryWeightView::Range(
                RangeQueryView {
                    field: scoring.schema()[query.field.0 as int].name,
                    value_type: query.prefix.1.typ,
                    lower_bound: BoundView::Included(query.prefix.1),
                    upper_bound: phrase_prefix_evaluator::range_end(query.field, query.prefix.1),
                    limit: Some(query.max_expansions as u64),
                },
            ),
        ),
    }
}

impl Clone for PhrasePrefixQuery {
    fn clone(&self) -> (r: PhrasePrefixQuery)
        ensures
            r@ == self@,
    {
        proof {
            use_type_invariant(self);
        }
        PhrasePrefixQuery {
            field: self.field,
            phrase_terms: phrase::copy_terms(self.phrase_terms.as_slice()),
            prefix: (self.prefix.0, self.prefix.1.clone()),
            max_expansions: self.max_expansions,
        }
    }
}

impl PhrasePrefixQuery {
    #[verifier::type_invariant]
    spec fn inv(self) -> bool {
        self@.well_formed()
    }

    /// Creates a new `PhrasePrefixQuery` given a list of terms.
    ///
    /// There must be at least one term, and all terms must belong to the same field. The offset of
    /// each term is its index in the list. The last term is a prefix and not a full value.
    pub fn new(terms: Vec<Term>) -> (r: PhrasePrefixQuery)
        requires
            terms@.len() > 0,
            forall|i: int|
                0 <= i < terms@.len() ==> (#[trigger] terms@[i])@.field == terms@[0]@.field,
        ensures
            r@.terms() == Seq::new(
                terms@.len(),
                |i: int| (i as usize, terms@[i]@),
            ),
            r@.field == terms@[0]@.field,
            r@.max_expansions == DEFAULT_MAX_EXPANSIONS,
            r@.max_expansions == 50,
            r@.well_formed(),
    {
        let ghost expected = Seq::new(terms@.len(), |i: int| (i as usize, terms@[i]@));
        let terms_with_offset = phrase_order::with_offsets(terms.as_slice());
        proof {
            phrase_order::by_offset_of_ordered(expected);
            assert forall|i: int| 0 <= i < terms_with_offset@.len() implies (
            #[trigger] terms_with_offset@[i]).1@.field == terms_with_offset@[0].1@.field by {
                assert(phrase::phrase_views(terms_with_offset@)[i] == expected[i]);
                assert(phrase::phrase_views(terms_with_offset@)[0] == expected[0]);
                assert(terms@[i]@.field == terms@[0]@.field);
            }
            assert(phrase::phrase_views(terms_with_offset@)[0] == expected[0]);
        }
        PhrasePrefixQuery::new_with_offset(terms_with_offset)
    }

    /// Creates a new `PhrasePrefixQuery` given a list of terms and their offsets.
    ///
    /// Can be used to provide custom offset for each term. There must be at least one term, and
    /// all terms must belong to the same field. The term with the greatest offset is the prefix.
    pub fn new_with_offset(terms: Vec<(usize, Term)>) -> (r: PhrasePrefixQuery)
        requires
            terms@.len() > 0,
            forall|i: int|
                0 <= i < terms@.len() ==> (#[trigger] terms@[i]).1@.field == terms@[0].1@.field,
        ensures
            r@.terms() == phrase_order::by_offset(phrase::phrase_views(terms@)),
            r@.field == terms@[0].1@.field,
            r@.max_expansions == DEFAULT_MAX_EXPANSIONS,
            r@.max_expansions == 50,
            r@.well_formed(),
    {
        let ghost all = phrase::phrase_views(terms@);
        let field = terms[0].1.field();
        let mut sorted = phrase_order::sort_by_offset(terms.as_slice());
        proof {
            phrase_order::by_offset_is_a_stable_order(all, 0, field);
            assert(phrase_order::of_field(all, field));
            assert(phrase::phrase_views(sorted@) == phrase_order::by_offset(all));
            assert(sorted@.len() == phrase::phrase_views(sorted@).len());
        }
        let last: usize = sorted.len() - 1;
        let ghost ordered_terms = sorted@;
        let prefix = sorted.swap_remove(last);
        proof {
            let view = PhrasePrefixQueryView {
                field,
                phrase_terms: phrase::phrase_views(sorted@),
                prefix: (prefix.0, prefix.1@),
                max_expansions: DEFAULT_MAX_EXPANSIONS,
            };
            assert(sorted@ =~= ordered_terms.drop_last());
            assert(view.terms() =~= phrase_order::by_offset(all)) by {
                assert(view.terms() =~= phrase::phrase_views(ordered_terms));
            }
        }
        PhrasePrefixQuery {
            field,
            phrase_terms: sorted,
            prefix,
            max_expansions: DEFAULT_MAX_EXPANSIONS,
        }
    }

    /// Maximum number of terms to which the last provided term will expand.
    pub fn set_max_expansions(&mut self, value: u32)
        ensures
            final(self)@ == (PhrasePrefixQueryView { max_expansions: value, ..old(self)@ }),
    {
        proof {
            use_type_invariant(&*self);
        }
        self.max_expansions = value;
    }

    /// The [`Field`] this `PhrasePrefixQuery` is targeting.
    pub fn field(&self) -> (r: Field)
        ensures
            r == self@.field,
    {
        self.field
    }

    /// `Term`s in the phrase without the associated offsets.
    pub fn phrase_terms(&self) -> (r: Vec<Term>)
        ensures
            statistics::term_views(r@) == phrase::terms_of(self@.phrase_terms),
    {
        phrase::copy_without_offsets(self.phrase_terms.as_slice())
    }

    /// Returns the weight of the query on an index.
    ///
    /// This is the same as [`Query::weight`] except that it returns `None` for a query that is a
    /// prefix only. The field of a query with fixed terms has to exist. These are scored by the
    /// statistics that come with `enable_scoring`.
    pub fn phrase_prefix_query_weight<S: Bm25StatisticsProvider + ?Sized>(
        &self,
        enable_scoring: &EnableScoring<'_, S>,
    ) -> (r: Result<Option<PhrasePrefixWeight>, TantivyError>)
        requires
            self@.phrase_terms.len() > 0 ==> self@.field.0 < enable_scoring@.schema().len(),
        ensures
            match r {
                Ok(Some(weight)) => phrase_prefix_weight(self@, enable_scoring@) == Ok::<
                    Option<PhrasePrefixWeightView>,
                    ErrorView,
                >(Some(weight@)),
                Ok(None) => phrase_prefix_weight(self@, enable_scoring@) == Ok::<
                    Option<PhrasePrefixWeightView>,
                    ErrorView,
                >(None),
                Err(error) => phrase_prefix_weight(self@, enable_scoring@) == Err::<
                    Option<PhrasePrefixWeightView>,
                    ErrorView,
                >(error@),
            },
    {
        proof {
            use_type_invariant(self);
        }
        if self.phrase_terms.len() == 0 {
            return Ok(None);
        }
        let schema = enable_scoring.schema();
        let field_entry = schema.get_field_entry(self.field);
        let has_positions = match field_entry.field_type().index_record_option() {
            Some(record_option) => record_option.has_positions(),
            None => false,
        };
        if !has_positions {
            return Err(error::no_positions_indexed_error(field_entry.name()));
        }
        let terms = self.phrase_terms();
        let bm25_weight = match enable_scoring {
            EnableScoring::Enabled { statistics_provider, .. } => {
                proof {
                    self@.phrase_is_of_field();
                    phrase_order::terms_have_one_field(self@.phrase_terms, self@.field, terms@);
                }
                match Bm25Weight::for_terms(*statistics_provider, terms.as_slice()) {
                    Ok(weight) => Some(weight),
                    Err(error) => {
                        return Err(error);
                    },
                }
            },
            EnableScoring::Disabled { .. } => None,
        };
        Ok(
            Some(
                PhrasePrefixWeight {
                    phrase_terms: phrase::copy_terms(self.phrase_terms.as_slice()),
                    prefix: (self.prefix.0, self.prefix.1.clone()),
                    bm25_weight,
                    max_expansions: self.max_expansions,
                },
            ),
        )
    }
}

/// The error for the first term that does not have the type of its field.
pub open spec fn type_error(terms: Seq<(usize, TermView)>, value_type: Type) -> Option<ErrorView>
    decreases terms.len(),
{
    if terms.len() == 0 {
        None
    } else {
        match type_error(terms.drop_last(), value_type) {
            Some(error) => Some(error),
            None => if terms.last().1.typ != value_type {
                Some(error::phrase_prefix_type(terms.last().1.typ, value_type))
            } else {
                None
            },
        }
    }
}

/// What the fixed terms are scored by: BM25 where there are several of them and scores are
/// computed.
pub open spec fn fixed_weight(phrase_terms: Seq<(usize, TermView)>, context: ContextView) -> Result<
    Option<Bm25WeightView>,
    ErrorView,
> {
    if phrase_terms.len() > 1 {
        single_document::context_weight(context, phrase::terms_of(phrase_terms))
    } else {
        Ok(None)
    }
}

/// The offset at which the fixed terms meet the expanded prefix: the one behind the last fixed
/// term where there are several of them, that of the prefix where there is one.
pub open spec fn target_offset(query: PhrasePrefixQueryView) -> int {
    if query.phrase_terms.len() > 1 {
        query.phrase_terms.last().0 + 1
    } else {
        query.prefix.0 as int
    }
}

/// What compiling a query gives.
pub open spec fn compiled(query: PhrasePrefixQueryView, context: ContextView) -> Result<
    PhrasePrefixEvaluatorView,
    ErrorView,
> {
    let entry = context.schema[query.field.0 as int];
    if query.field.0 >= context.schema.len() {
        Err(error::unknown_field(query.field))
    } else if let Some(error) = type_error(query.terms(), entry.field_type.value_type) {
        Err(error)
    } else if query.phrase_terms.len() == 0 {
        match single_document::record_option(
            context.schema,
            query.prefix.1,
            IndexRecordOption::Basic,
        ) {
            Err(error) => Err(error),
            Ok(_) => Ok(
                PhrasePrefixEvaluatorView {
                    field: query.field,
                    phrase_terms: Seq::empty(),
                    prefix: query.prefix.1,
                    max_expansions: query.max_expansions,
                    fixed_position_target: 0,
                    bm25_weight: None,
                    has_fieldnorms: false,
                    prefix_only_score: context.constant_score(),
                },
            ),
        }
    } else {
        match entry.field_type.record_option {
            None => Err(error::not_indexed(entry.name)),
            Some(stored) => if stored != IndexRecordOption::WithFreqsAndPositions {
                Err(error::no_positions_indexed(entry.name))
            } else if let Some(error) = phrase::postings_error(
                "PhrasePrefixQuery"@,
                query.terms(),
                entry.field_type,
                stored,
            ) {
                Err(error)
            } else {
                match fixed_weight(query.phrase_terms, context) {
                    Err(error) => Err(error),
                    Ok(bm25_weight) => if target_offset(query) > usize::MAX {
                        Err(error::target_too_large())
                    } else {
                        Ok(
                            PhrasePrefixEvaluatorView {
                                field: query.field,
                                phrase_terms: query.phrase_terms,
                                prefix: query.prefix.1,
                                max_expansions: query.max_expansions,
                                fixed_position_target: target_offset(query) as usize,
                                bm25_weight,
                                has_fieldnorms: entry.field_type.fieldnorms,
                                prefix_only_score: score::unit_score(),
                            },
                        )
                    },
                }
            },
        }
    }
}

/// An error among the first terms is the error of all of them.
proof fn type_error_of_prefix(terms: Seq<(usize, TermView)>, value_type: Type, n: int)
    requires
        0 <= n <= terms.len(),
        type_error(terms.take(n), value_type) is Some,
    ensures
        type_error(terms, value_type) == type_error(terms.take(n), value_type),
    decreases terms.len() - n,
{
    if n == terms.len() {
        assert(terms.take(n) =~= terms);
    } else {
        assert(terms.take(n + 1).drop_last() =~= terms.take(n));
        type_error_of_prefix(terms, value_type, n + 1);
    }
}

/// Checks that the terms of a phrase have the type of their field.
fn check_types(terms: &[(usize, Term)], value_type: Type) -> (r: Result<(), TantivyError>)
    ensures
        match r {
            Ok(_) => type_error(phrase::phrase_views(terms@), value_type) is None,
            Err(error) => type_error(phrase::phrase_views(terms@), value_type) == Some(error@),
        },
{
    let ghost all = phrase::phrase_views(terms@);
    let mut i: usize = 0;
    while i < terms.len()
        invariant
            i <= terms.len(),
            all == phrase::phrase_views(terms@),
            type_error(all.take(i as int), value_type) is None,
        decreases terms.len() - i,
    {
        assert(all.take(i + 1).drop_last() =~= all.take(i as int));
        assert(all.take(i + 1).last() == (terms@[i as int].0, terms@[i as int].1@));
        if terms[i].1.typ() != value_type {
            proof {
                type_error_of_prefix(all, value_type, i + 1);
            }
            return Err(error::phrase_prefix_type_error(terms[i].1.typ(), value_type));
        }
        i += 1;
    }
    assert(all.take(i as int) =~= all);
    Ok(())
}

impl Query for PhrasePrefixQuery {
    type Weight = PhrasePrefixQueryWeight;

    type Evaluator = PhrasePrefixSingleDocumentEvaluator;

    open spec fn name(&self) -> Seq<char> {
        "PhrasePrefixQuery"@
    }

    open spec fn weighable(&self, scoring: ScoringView) -> bool {
        self@.field.0 < scoring.schema().len()
    }

    open spec fn weighs(
        &self,
        scoring: ScoringView,
        weight: Result<PhrasePrefixQueryWeight, ErrorView>,
    ) -> bool {
        match weight {
            Ok(weight) => weighed(self@, scoring) == Ok::<PhrasePrefixQueryWeightView, ErrorView>(
                weight@,
            ),
            Err(error) => weighed(self@, scoring) == Err::<PhrasePrefixQueryWeightView, ErrorView>(
                error,
            ),
        }
    }

    open spec fn compiles(
        &self,
        context: ContextView,
        outcome: Result<PhrasePrefixSingleDocumentEvaluator, ErrorView>,
    ) -> bool {
        compiled(self@, context) == match outcome {
            Ok(evaluator) => Ok(evaluator@),
            Err(error) => Err(error),
        }
    }

    fn query_name(&self) -> (r: String) {
        "PhrasePrefixQuery".to_owned()
    }

    fn weight<S: Bm25StatisticsProvider + ?Sized>(
        &self,
        enable_scoring: EnableScoring<'_, S>,
    ) -> (r: Result<PhrasePrefixQueryWeight, TantivyError>) {
        match self.phrase_prefix_query_weight(&enable_scoring) {
            Err(error) => Err(error),
            Ok(Some(phrase_weight)) => Ok(PhrasePrefixQueryWeight::Phrase(phrase_weight)),
            Ok(None) => {
                let upper_bound = match phrase_prefix_evaluator::end_of_range(
                    self.field,
                    &self.prefix.1,
                ) {
                    Some(end_term) => RangeBound::Excluded(end_term),
                    None => RangeBound::Unbounded,
                };
                let mut range_query = RangeQuery::new_term_bounds(
                    enable_scoring.schema().get_field_name(self.field).to_owned(),
                    self.prefix.1.typ(),
                    RangeBound::Included(self.prefix.1.clone()),
                    upper_bound,
                );
                range_query.limit(self.max_expansions as u64);
                Ok(PhrasePrefixQueryWeight::Range(range_query))
            },
        }
    }

    /// Compiles the query.
    ///
    /// A query with one fixed term moves that term directly to the offset of the prefix and has a
    /// constant score. A query with several fixed terms aligns them one position behind the
    /// greatest of their offsets, and scores them by BM25. The expanded prefix only filters.
    fn single_document_evaluator<S: Bm25StatisticsProvider + ?Sized>(
        &self,
        context: SingleDocumentEvaluationContext<'_, S>,
    ) -> (r: Result<PhrasePrefixSingleDocumentEvaluator, TantivyError>)
        ensures
            match r {
                Ok(evaluator) => compiled(self@, context@) == Ok::<
                    PhrasePrefixEvaluatorView,
                    ErrorView,
                >(evaluator@),
                Err(error) => compiled(self@, context@) == Err::<
                    PhrasePrefixEvaluatorView,
                    ErrorView,
                >(error@),
            },
    {
        proof {
            use_type_invariant(self);
        }
        let schema = context.schema();
        if self.field.field_id() as usize >= schema.num_fields() {
            return Err(error::unknown_field_error(self.field));
        }
        let field_entry = schema.get_field_entry(self.field);
        let field_type = field_entry.field_type();
        let value_type = field_type.value_type();
        let mut terms = phrase::copy_terms(self.phrase_terms.as_slice());
        let ghost before = terms@;
        terms.push((self.prefix.0, self.prefix.1.clone()));
        assert(phrase::phrase_views(terms@) =~= phrase::phrase_views(before).push(self@.prefix));
        match check_types(terms.as_slice(), value_type) {
            Ok(_) => {},
            Err(error) => {
                return Err(error);
            },
        }
        if self.phrase_terms.len() == 0 {
            return match single_document::effective_record_option(
                schema,
                &self.prefix.1,
                IndexRecordOption::Basic,
            ) {
                Ok(_) => {
                    let phrase_terms: Vec<(usize, Term)> = Vec::new();
                    assert(phrase::phrase_views(phrase_terms@) =~= Seq::empty());
                    let evaluator = PhrasePrefixSingleDocumentEvaluator::new(
                        self.field,
                        phrase_terms,
                        self.prefix.1.clone(),
                        self.max_expansions,
                        0,
                        None,
                        false,
                        context.constant_score(),
                    );
                    Ok(evaluator)
                },
                Err(error) => Err(error),
            };
        }
        let stored = match field_type.index_record_option() {
            Some(stored) => stored,
            None => {
                return Err(error::not_indexed_error(field_entry.name()));
            },
        };
        if !stored.has_positions() {
            return Err(error::no_positions_indexed_error(field_entry.name()));
        }
        match phrase::check_postings("PhrasePrefixQuery", terms.as_slice(), field_type, stored) {
            Ok(_) => {},
            Err(error) => {
                return Err(error);
            },
        }
        let has_multiple_fixed_terms = self.phrase_terms.len() > 1;
        let bm25_weight = if has_multiple_fixed_terms {
            let phrase_terms = self.phrase_terms();
            proof {
                self@.phrase_is_of_field();
                phrase_order::terms_have_one_field(
                    self@.phrase_terms,
                    self@.field,
                    phrase_terms@,
                );
            }
            match context.weight_for_terms(phrase_terms.as_slice()) {
                Ok(bm25_weight) => bm25_weight,
                Err(error) => {
                    return Err(error);
                },
            }
        } else {
            None
        };
        let max_fixed_offset: usize = self.phrase_terms[self.phrase_terms.len() - 1].0;
        assert(self@.phrase_terms.last().0 == max_fixed_offset);
        let fixed_position_target: usize = if has_multiple_fixed_terms {
            if max_fixed_offset == usize::MAX {
                return Err(error::target_too_large_error());
            }
            max_fixed_offset + 1
        } else {
            self.prefix.0
        };
        proof {
            assert forall|i: int| 0 <= i < self@.phrase_terms.len() implies (
            #[trigger] self@.phrase_terms[i]).0 <= fixed_position_target by {
                let all = self@.terms();
                assert(all[i].0 <= all[self@.phrase_terms.len() - 1].0);
                assert(all[i].0 <= all[self@.phrase_terms.len() as int].0);
            }
        }
        let evaluator = PhrasePrefixSingleDocumentEvaluator::new(
            self.field,
            phrase::copy_terms(self.phrase_terms.as_slice()),
            self.prefix.1.clone(),
            self.max_expansions,
            fixed_position_target,
            bm25_weight,
            field_entry.has_fieldnorms(),
            Boost::one(),
        );
        Ok(evaluator)
    }

    fn query_terms(&self) -> (r: Vec<(&Term, bool)>)
        ensures
            r@.len() == self@.phrase_terms.len(),
            forall|i: int|
                0 <= i < r@.len() ==> (#[trigger] r@[i]).0@ == self@.phrase_terms[i].1 && r@[i].1,
    {
        let mut r: Vec<(&Term, bool)> = Vec::new();
        let mut i: usize = 0;
        while i < self.phrase_terms.len()
            invariant
                i <= self.phrase_terms.len(),
                r@.len() == i,
                forall|j: int|
                    0 <= j < i ==> (#[trigger] r@[j]).0@ == self@.phrase_terms[j].1 && r@[j].1,
            decreases self.phrase_terms.len() - i,
        {
            r.push((&self.phrase_terms[i].1, true));
            i += 1;
        }
        r
    }
}

} // verus!
