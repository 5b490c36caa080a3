//! Corpus statistics, and the inputs of BM25 that are taken from them.

use vstd::prelude::*;
use crate::error;
use crate::error::{ErrorView, TantivyError};
use crate::schema::Field;
use crate::score::Boost;
use crate::term::{Term, TermView};

verus! {

/// What a statistics provider answers.
pub struct StatisticsView {
    /// The number of tokens of a field over the whole corpus.
    pub total_num_tokens: spec_fn(Field) -> Result<u64, ErrorView>,
    /// The number of documents of the corpus.
    pub total_num_docs: Result<u64, ErrorView>,
    /// The number of documents that hold a term.
    pub doc_freq: spec_fn(TermView) -> Result<u64, ErrorView>,
}

/// Provides the statistics of a corpus that BM25 needs.
///
/// For the scores to be meaningful the corpus has at least one document, the token counts of
/// scored fields are positive, and no term occurs in more documents than there are.
pub trait Bm25StatisticsProvider {
    /// What this provider answers.
    spec fn statistics(&self) -> StatisticsView;

    /// Returns the number of tokens of `field` over the whole corpus.
    fn total_num_tokens(&self, field: Field) -> (r: Result<u64, TantivyError>)
        ensures
            error::outcome(r) == (self.statistics().total_num_tokens)(field),
    ;

    /// Returns the number of documents of the corpus.
    fn total_num_docs(&self) -> (r: Result<u64, TantivyError>)
        ensures
            error::outcome(r) == self.statistics().total_num_docs,
    ;

    /// Returns the number of documents that hold `term`.
    fn doc_freq(&self, term: &Term) -> (r: Result<u64, TantivyError>)
        ensures
            error::outcome(r) == (self.statistics().doc_freq)(term@),
    ;
}

/// The inputs of a BM25 score that do not depend on the scored document.
///
/// The score for a fieldnorm and a term frequency is a floating point formula over these values;
/// it is not part of this library.
#[derive(Debug, PartialEq, Eq)]
pub struct Bm25Weight {
    /// The number of tokens of the field over the whole corpus.
    pub total_num_tokens: u64,
    /// The number of documents of the corpus.
    pub total_num_docs: u64,
    /// For each term, the number of documents that hold it.
    pub doc_freqs: Vec<u64>,
    /// The factors by which the score is multiplied.
    pub boost: Boost,
}

/// The contents of a [`Bm25Weight`].
#[verifier::ext_equal]
pub struct Bm25WeightView {
    /// The number of tokens of the field over the whole corpus.
    pub total_num_tokens: u64,
    /// The number of documents of the corpus.
    pub total_num_docs: u64,
    /// For each term, the number of documents that hold it.
    pub doc_freqs: Seq<u64>,
    /// The factors by which the score is multiplied.
    pub boost: Seq<u32>,
}

impl View for Bm25Weight {
    type V = Bm25WeightView;

    open spec fn view(&self) -> Bm25WeightView {
        Bm25WeightView {
            total_num_tokens: self.total_num_tokens,
            total_num_docs: self.total_num_docs,
            doc_freqs: self.doc_freqs@,
            boost: self.boost@,
        }
    }
}

/// The contents of an optional weight.
pub open spec fn weight_view(weight: Option<Bm25Weight>) -> Option<Bm25WeightView> {
    match weight {
        Some(weight) => Some(weight@),
        None => None,
    }
}

/// The document frequencies of `terms`, or the error for the first term that has none.
pub open spec fn doc_freqs(statistics: StatisticsView, terms: Seq<TermView>) -> Result<
    Seq<u64>,
    ErrorView,
>
    decreases terms.len(),
{
    if terms.len() == 0 {
        Ok(Seq::empty())
    } else {
        match doc_freqs(statistics, terms.drop_last()) {
            Ok(freqs) => match (statistics.doc_freq)(terms.last()) {
                Ok(freq) => Ok(freqs.push(freq)),
                Err(error) => Err(error),
            },
            Err(error) => Err(error),
        }
    }
}

/// The BM25 inputs for `terms`, all of them of one field.
pub open spec fn bm25_weight(statistics: StatisticsView, terms: Seq<TermView>) -> Result<
    Bm25WeightView,
    ErrorView,
> {
    match (statistics.total_num_tokens)(terms[0].field) {
        Err(error) => Err(error),
        Ok(total_num_tokens) => match statistics.total_num_docs {
            Err(error) => Err(error),
            Ok(total_num_docs) => match doc_freqs(statistics, terms) {
                Err(error) => Err(error),
                Ok(freqs) => Ok(
                    Bm25WeightView {
                        total_num_tokens,
                        total_num_docs,
                        doc_freqs: freqs,
                        boost: Seq::empty(),
                    },
                ),
            },
        },
    }
}

/// The contents of a list of terms.
pub open spec fn term_views(terms: Seq<Term>) -> Seq<TermView> {
    terms.map_values(|term: Term| term@)
}

/// An error among the frequencies of the first terms is the error of all of them.
proof fn doc_freqs_error_of_prefix(statistics: StatisticsView, terms: Seq<TermView>, n: int)
    requires
        0 <= n <= terms.len(),
        doc_freqs(statistics, terms.take(n)) is Err,
    ensures
        doc_freqs(statistics, terms) == doc_freqs(statistics, terms.take(n)),
    decreases terms.len() - n,
{
    if n == terms.len() {
        assert(terms.take(n) =~= terms);
    } else {
        assert(terms.take(n + 1).drop_last() =~= terms.take(n));
        doc_freqs_error_of_prefix(statistics, terms, n + 1);
    }
}

/// A weight holds what the statistics answer for `field`, for the number of documents, and for each
/// of the terms, and is multiplied by `boost`.
pub open spec fn weighs_terms(
    weight: Bm25WeightView,
    statistics: StatisticsView,
    field: Field,
    terms: Seq<TermView>,
    boost: Seq<u32>,
) -> bool {
    &&& (statistics.total_num_tokens)(field) == Ok::<u64, ErrorView>(weight.total_num_tokens)
    &&& statistics.total_num_docs == Ok::<u64, ErrorView>(weight.total_num_docs)
    &&& weight.doc_freqs.len() == terms.len()
    &&& forall|i: int|
        0 <= i < terms.len() ==> (statistics.doc_freq)(#[trigger] terms[i]) == Ok::<u64, ErrorView>(
            weight.doc_freqs[i],
        )
    &&& weight.boost == boost
}

/// The statistics answer for a field, for the number of documents, and for each of the terms.
pub open spec fn are_known(
    statistics: StatisticsView,
    field: Field,
    terms: Seq<TermView>,
) -> bool {
    &&& (statistics.total_num_tokens)(field) is Ok
    &&& statistics.total_num_docs is Ok
    &&& forall|i: int| 0 <= i < terms.len() ==> (statistics.doc_freq)(#[trigger] terms[i]) is Ok
}

proof fn doc_freqs_are_those_of_the_terms(statistics: StatisticsView, terms: Seq<TermView>)
    ensures
        doc_freqs(statistics, terms) is Ok <==> forall|i: int|
            0 <= i < terms.len() ==> (statistics.doc_freq)(#[trigger] terms[i]) is Ok,
        doc_freqs(statistics, terms) matches Ok(freqs) ==> freqs.len() == terms.len() && forall|
            i: int,
        |
            0 <= i < terms.len() ==> (statistics.doc_freq)(#[trigger] terms[i]) == Ok::<
                u64,
                ErrorView,
            >(freqs[i]),
    decreases terms.len(),
{
    if terms.len() > 0 {
        let shorter = terms.drop_last();
        doc_freqs_are_those_of_the_terms(statistics, shorter);
        assert(terms[terms.len() - 1] == terms.last());
        if doc_freqs(statistics, shorter) is Ok {
            let freqs = doc_freqs(statistics, shorter)->Ok_0;
            assert forall|i: int| 0 <= i < terms.len() - 1 implies (statistics.doc_freq)(
                #[trigger] terms[i],
            ) == Ok::<u64, ErrorView>(freqs[i]) by {
                assert(shorter[i] == terms[i]);
            }
        } else if forall|i: int|
            0 <= i < terms.len() ==> (statistics.doc_freq)(#[trigger] terms[i]) is Ok {
            assert forall|i: int| 0 <= i < shorter.len() implies (statistics.doc_freq)(
                #[trigger] shorter[i],
            ) is Ok by {
                assert(shorter[i] == terms[i]);
            }
        }
    }
}

/// The weight of terms of a field holds what the statistics answer for that field and those terms.
/// There is one exactly where all of this is known.
pub proof fn weight_holds_the_statistics_of_its_terms(
    statistics: StatisticsView,
    field: Field,
    terms: Seq<TermView>,
)
    requires
        terms.len() > 0,
        forall|i: int| 0 <= i < terms.len() ==> (#[trigger] terms[i]).field == field,
    ensures
        bm25_weight(statistics, terms) is Ok <==> are_known(statistics, field, terms),
        bm25_weight(statistics, terms) matches Ok(weight) ==> weighs_terms(
            weight,
            statistics,
            field,
            terms,
            Seq::empty(),
        ),
{
    assert(terms[0].field == field);
    doc_freqs_are_those_of_the_terms(statistics, terms);
}

/// What is known of other fields, and of the terms of other fields, does not change the weight of
/// the terms of a field.
pub proof fn other_fields_do_not_change_a_weight(
    left: StatisticsView,
    right: StatisticsView,
    field: Field,
    terms: Seq<TermView>,
)
    requires
        terms.len() > 0,
        forall|i: int| 0 <= i < terms.len() ==> (#[trigger] terms[i]).field == field,
        (left.total_num_tokens)(field) == (right.total_num_tokens)(field),
        left.total_num_docs == right.total_num_docs,
        forall|term: TermView|
            term.field == field ==> #[trigger] (left.doc_freq)(term) == (right.doc_freq)(term),
    ensures
        bm25_weight(left, terms) == bm25_weight(right, terms),
{
    assert(terms[0].field == field);
    doc_freqs_agree(left, right, field, terms);
}

proof fn doc_freqs_agree(
    left: StatisticsView,
    right: StatisticsView,
    field: Field,
    terms: Seq<TermView>,
)
    requires
        forall|i: int| 0 <= i < terms.len() ==> (#[trigger] terms[i]).field == field,
        forall|term: TermView|
            term.field == field ==> #[trigger] (left.doc_freq)(term) == (right.doc_freq)(term),
    ensures
        doc_freqs(left, terms) == doc_freqs(right, terms),
    decreases terms.len(),
{
    if terms.len() > 0 {
        let shorter = terms.drop_last();
        assert forall|i: int| 0 <= i < shorter.len() implies (#[trigger] shorter[i]).field
            == field by {
            assert(shorter[i] == terms[i]);
        }
        doc_freqs_agree(left, right, field, shorter);
        assert(terms[terms.len() - 1].field == field);
        assert((left.doc_freq)(terms.last()) == (right.doc_freq)(terms.last()));
    }
}

impl Clone for Bm25Weight {
    fn clone(&self) -> (r: Bm25Weight)
        ensures
            r@ == self@,
    {
        let mut doc_freqs: Vec<u64> = Vec::new();
        let mut i: usize = 0;
        while i < self.doc_freqs.len()
            invariant
                i <= self.doc_freqs.len(),
                doc_freqs@ == self.doc_freqs@.take(i as int),
            decreases self.doc_freqs.len() - i,
        {
            doc_freqs.push(self.doc_freqs[i]);
            assert(self.doc_freqs@.take(i + 1) =~= self.doc_freqs@.take(i as int).push(
                self.doc_freqs@[i as int],
            ));
            i += 1;
        }
        assert(doc_freqs@ =~= self.doc_freqs@);
        Bm25Weight {
            total_num_tokens: self.total_num_tokens,
            total_num_docs: self.total_num_docs,
            doc_freqs,
            boost: self.boost.clone(),
        }
    }
}

impl Bm25Weight {
    /// Collects the BM25 inputs for `terms`, which all belong to one field.
    pub fn for_terms<S: Bm25StatisticsProvider + ?Sized>(statistics: &S, terms: &[Term]) -> (r:
        Result<Bm25Weight, TantivyError>)
        requires
            terms@.len() > 0,
            forall|i: int|
                0 <= i < terms@.len() ==> (#[trigger] terms@[i])@.field == terms@[0]@.field,
        ensures
            match r {
                Ok(weight) => bm25_weight(statistics.statistics(), term_views(terms@)) == Ok::<
                    Bm25WeightView,
                    ErrorView,
                >(weight@),
                Err(error) => bm25_weight(statistics.statistics(), term_views(terms@)) == Err::<
                    Bm25WeightView,
                    ErrorView,
                >(error@),
            },
    {
        let ghost views = term_views(terms@);
        let total_num_tokens: u64 = match statistics.total_num_tokens(terms[0].field()) {
            Ok(total_num_tokens) => total_num_tokens,
            Err(error) => {
                return Err(error);
            },
        };
        let total_num_docs: u64 = match statistics.total_num_docs() {
            Ok(total_num_docs) => total_num_docs,
            Err(error) => {
                return Err(error);
            },
        };
        let mut freqs: Vec<u64> = Vec::new();
        let mut i: usize = 0;
        assert(views.take(0) =~= Seq::<TermView>::empty());
        while i < terms.len()
            invariant
                i <= terms.len(),
                views == term_views(terms@),
                doc_freqs(statistics.statistics(), views.take(i as int)) == Ok::<
                    Seq<u64>,
                    ErrorView,
                >(freqs@),
                (statistics.statistics().total_num_tokens)(terms@[0]@.field) == Ok::<
                    u64,
                    ErrorView,
                >(total_num_tokens),
                statistics.statistics().total_num_docs == Ok::<u64, ErrorView>(total_num_docs),
            decreases terms.len() - i,
        {
            assert(views.take(i + 1).drop_last() =~= views.take(i as int));
            assert(views.take(i + 1).last() == terms@[i as int]@);
            match statistics.doc_freq(&terms[i]) {
                Ok(freq) => {
                    freqs.push(freq);
                },
                Err(error) => {
                    proof {
                        doc_freqs_error_of_prefix(statistics.statistics(), views, i + 1);
                    }
                    return Err(error);
                },
            }
            i += 1;
        }
        assert(views.take(i as int) =~= views);
        Ok(Bm25Weight { total_num_tokens, total_num_docs, doc_freqs: freqs, boost: Boost::one() })
    }

    /// Multiplies the score by further factors.
    pub fn boost_by(self, boost: &Boost) -> (r: Bm25Weight)
        ensures
            r@ == (Bm25WeightView { boost: self@.boost + boost@, ..self@ }),
    {
        let combined = self.boost.times_all(boost);
        Bm25Weight { boost: combined, ..self }
    }
}

} // verus!
