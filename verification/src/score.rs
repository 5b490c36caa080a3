//! Scores and the result of evaluating a query on a document.
//!
//! The library decides what a score is made of. The floating point arithmetic itself is left to
//! the caller: a factor is carried as the bit pattern of a single precision number, and a score
//! says which numbers are multiplied or added, in which order.

use vstd::prelude::*;
use crate::statistics::{Bm25Weight, Bm25WeightView};

verus! {

/// A product of factors. It stands for the number one multiplied by each factor in turn.
///
/// A factor is the bit pattern of a single precision number.
#[derive(Debug, PartialEq, Eq)]
pub struct Boost {
    factors: Vec<u32>,
}

impl View for Boost {
    type V = Seq<u32>;

    closed spec fn view(&self) -> Seq<u32> {
        self.factors@
    }
}

impl Clone for Boost {
    fn clone(&self) -> (r: Boost)
        ensures
            r@ == self@,
    {
        let r = Boost::one().times_all(self);
        assert(r@ =~= self@);
        r
    }
}

impl Boost {
    /// The number one.
    pub fn one() -> (r: Boost)
        ensures
            r@ == Seq::<u32>::empty(),
    {
        Boost { factors: Vec::new() }
    }

    /// This product, multiplied by `factor`.
    pub fn times(self, factor: u32) -> (r: Boost)
        ensures
            r@ == self@.push(factor),
    {
        let mut factors = self.factors;
        factors.push(factor);
        Boost { factors }
    }

    /// This product, multiplied by each factor of `other` in turn.
    pub fn times_all(self, other: &Boost) -> (r: Boost)
        ensures
            r@ == self@ + other@,
    {
        let ghost start = self@;
        let mut factors = self.factors;
        let mut i: usize = 0;
        assert(start + other@.take(0) =~= start);
        while i < other.factors.len()
            invariant
                i <= other.factors.len(),
                factors@ == start + other.factors@.take(i as int),
            decreases other.factors.len() - i,
        {
            factors.push(other.factors[i]);
            assert(start + other.factors@.take(i + 1) =~= (start + other.factors@.take(
                i as int,
            )).push(other.factors@[i as int]));
            i += 1;
        }
        assert(other.factors@.take(i as int) =~= other@);
        Boost { factors }
    }

    /// Returns the factors, in the order in which they are multiplied.
    pub fn factors(&self) -> (r: &[u32])
        ensures
            r@ == self@,
    {
        self.factors.as_slice()
    }
}

/// What the score of a matching document is made of.
#[derive(Debug, PartialEq, Eq)]
pub enum Score {
    /// A product of constant factors.
    Product(Boost),
    /// The BM25 score for a fieldnorm and a term frequency.
    Bm25 {
        /// The inputs that do not depend on the document.
        weight: Bm25Weight,
        /// The compressed fieldnorm of the document.
        fieldnorm_id: u8,
        /// The term frequency, or the number of occurrences of a phrase.
        term_freq: u32,
    },
    /// The sum of two scores.
    Sum(Box<Score>, Box<Score>),
}

/// The contents of a [`Score`].
pub enum ScoreView {
    /// A product of constant factors.
    Product(Seq<u32>),
    /// The BM25 score for a fieldnorm and a term frequency.
    Bm25 {
        /// The inputs that do not depend on the document.
        weight: Bm25WeightView,
        /// The compressed fieldnorm of the document.
        fieldnorm_id: u8,
        /// The term frequency, or the number of occurrences of a phrase.
        term_freq: u32,
    },
    /// The sum of two scores.
    Sum(Box<ScoreView>, Box<ScoreView>),
}

impl Score {
    /// The contents of the score.
    pub open spec fn contents(self) -> ScoreView
        decreases self,
    {
        match self {
            Score::Product(boost) => ScoreView::Product(boost@),
            Score::Bm25 { weight, fieldnorm_id, term_freq } => ScoreView::Bm25 {
                weight: weight@,
                fieldnorm_id,
                term_freq,
            },
            Score::Sum(left, right) => ScoreView::Sum(
                Box::new((*left).contents()),
                Box::new((*right).contents()),
            ),
        }
    }

    /// The score one.
    pub fn one() -> (r: Score)
        ensures
            r@ == unit_score(),
    {
        let r = Score::Product(Boost::one());
        assert(r@ == unit_score());
        r
    }
}

impl View for Score {
    type V = ScoreView;

    open spec fn view(&self) -> ScoreView {
        self.contents()
    }
}

/// The score one: the product without factors.
pub open spec fn unit_score() -> ScoreView {
    ScoreView::Product(Seq::empty())
}

/// Match and score result for one external document.
#[derive(Debug, PartialEq, Eq)]
pub enum DocumentEvaluation {
    /// The document matched. The payload is its score.
    Match(Score),
    /// The document did not match.
    NoMatch,
}

/// The contents of a [`DocumentEvaluation`].
pub enum EvaluationView {
    /// The document matched, with this score.
    Match(ScoreView),
    /// The document did not match.
    NoMatch,
}

impl View for DocumentEvaluation {
    type V = EvaluationView;

    open spec fn view(&self) -> EvaluationView {
        match self {
            DocumentEvaluation::Match(score) => EvaluationView::Match(score@),
            DocumentEvaluation::NoMatch => EvaluationView::NoMatch,
        }
    }
}

} // verus!
