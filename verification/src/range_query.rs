//! A query for the terms of a field within a range.

use vstd::prelude::*;
use crate::schema::Type;
use crate::single_document::BoundView;
use crate::term::Term;

verus! {

/// An end of a range of terms.
#[derive(Debug)]
pub enum RangeBound {
    /// The range ends at this term and holds it.
    Included(Term),
    /// The range ends at this term and does not hold it.
    Excluded(Term),
    /// The range does not end.
    Unbounded,
}

impl View for RangeBound {
    type V = BoundView;

    open spec fn view(&self) -> BoundView {
        match self {
            RangeBound::Included(term) => BoundView::Included(term@),
            RangeBound::Excluded(term) => BoundView::Excluded(term@),
            RangeBound::Unbounded => BoundView::Unbounded,
        }
    }
}

/// A query for the documents that hold a term of a field within a range.
#[derive(Debug)]
pub struct RangeQuery {
    field: String,
    value_type: Type,
    lower_bound: RangeBound,
    upper_bound: RangeBound,
    limit: Option<u64>,
}

/// The contents of a [`RangeQuery`].
#[verifier::ext_equal]
pub struct RangeQueryView {
    /// The name of the field.
    pub field: Seq<char>,
    /// The type of the terms.
    pub value_type: Type,
    /// The start of the range.
    pub lower_bound: BoundView,
    /// The end of the range.
    pub upper_bound: BoundView,
    /// The number of terms that are looked at, unless all are.
    pub limit: Option<u64>,
}

impl View for RangeQuery {
    type V = RangeQueryView;

    closed spec fn view(&self) -> RangeQueryView {
        RangeQueryView {
            field: self.field@,
            value_type: self.value_type,
            lower_bound: self.lower_bound@,
            upper_bound: self.upper_bound@,
            limit: self.limit,
        }
    }
}

impl RangeQuery {
    /// A query for the terms of type `value_type` between two bounds.
    pub fn new_term_bounds(
        field: String,
        value_type: Type,
        lower_bound: RangeBound,
        upper_bound: RangeBound,
    ) -> (r: RangeQuery)
        ensures
            r@ == (RangeQueryView {
                field: field@,
                value_type,
                lower_bound: lower_bound@,
                upper_bound: upper_bound@,
                limit: None,
            }),
    {
        RangeQuery { field, value_type, lower_bound, upper_bound, limit: None }
    }

    /// Looks at the first `limit` terms of the range only.
    pub fn limit(&mut self, limit: u64)
        ensures
            final(self)@ == (RangeQueryView { limit: Some(limit), ..old(self)@ }),
    {
        self.limit = Some(limit);
    }

    /// Returns the name of the field.
    pub fn field(&self) -> (r: &str)
        ensures
            r@ == self@.field,
    {
        self.field.as_str()
    }

    /// Returns the type of the terms.
    pub fn value_type(&self) -> (r: Type)
        ensures
            r == self@.value_type,
    {
        self.value_type
    }

    /// Returns the start of the range.
    pub fn lower_bound(&self) -> (r: &RangeBound)
        ensures
            r@ == self@.lower_bound,
    {
        &self.lower_bound
    }

    /// Returns the end of the range.
    pub fn upper_bound(&self) -> (r: &RangeBound)
        ensures
            r@ == self@.upper_bound,
    {
        &self.upper_bound
    }

    /// Returns the number of terms that are looked at, unless all are.
    pub fn get_limit(&self) -> (r: Option<u64>)
        ensures
            r == self@.limit,
    {
        self.limit
    }
}

} // verus!
