//! What the library reads of an opened index.

use vstd::prelude::*;
use crate::error::{ErrorView, TantivyError};
use crate::schema::{Field, FieldEntryView, Schema};
use crate::statistics::{Bm25StatisticsProvider, StatisticsView};
use crate::term::{Term, TermView};

verus! {

/// A segment of an index.
#[derive(Clone, Copy, Debug, PartialEq, Eq, Structural)]
pub struct SegmentReader {
    /// The position of the segment among those of its searcher.
    pub segment_ord: u32,
}

/// The address of a document: a segment, and the document in it.
#[derive(Clone, Copy, Debug, PartialEq, Eq, Structural)]
pub struct DocAddress {
    /// The position of the segment among those of its searcher.
    pub segment_ord: u32,
    /// The document in the segment.
    pub doc_id: u32,
}

/// An opened index: its schema, its segments, and its statistics.
#[derive(Debug)]
pub struct Searcher {
    schema: Schema,
    segment_readers: Vec<SegmentReader>,
    total_num_docs: u64,
    field_tokens: Vec<u64>,
    term_doc_freqs: Vec<(Term, u64)>,
}

/// The contents of a [`Searcher`].
pub struct SearcherView {
    /// The schema of the index.
    pub schema: Seq<FieldEntryView>,
    /// The segments of the index.
    pub segment_readers: Seq<SegmentReader>,
    /// The number of documents.
    pub total_num_docs: u64,
    /// The number of tokens, field by field.
    pub field_tokens: Seq<u64>,
    /// The numbers of documents that hold a term.
    pub term_doc_freqs: Seq<(TermView, u64)>,
}

/// The frequency that is listed first for `term`, zero where none is.
pub open spec fn listed_doc_freq(freqs: Seq<(TermView, u64)>, term: TermView) -> u64
    decreases freqs.len(),
{
    if freqs.len() == 0 {
        0
    } else if freqs[0].0 == term {
        freqs[0].1
    } else {
        listed_doc_freq(freqs.drop_first(), term)
    }
}

impl SearcherView {
    /// The number of tokens of `field`, zero for a field without any.
    pub open spec fn tokens_of(self, field: Field) -> u64 {
        if field.0 < self.field_tokens.len() {
            self.field_tokens[field.0 as int]
        } else {
            0
        }
    }

    /// The statistics of the index.
    pub open spec fn statistics(self) -> StatisticsView {
        StatisticsView {
            total_num_tokens: |field: Field| Ok(self.tokens_of(field)),
            total_num_docs: Ok(self.total_num_docs),
            doc_freq: |term: TermView| Ok(listed_doc_freq(self.term_doc_freqs, term)),
        }
    }
}

impl View for Searcher {
    type V = SearcherView;

    closed spec fn view(&self) -> SearcherView {
        SearcherView {
            schema: self.schema@,
            segment_readers: self.segment_readers@,
            total_num_docs: self.total_num_docs,
            field_tokens: self.field_tokens@,
            term_doc_freqs: self.term_doc_freqs@.map_values(
                |entry: (Term, u64)| (entry.0@, entry.1),
            ),
        }
    }
}

impl Searcher {
    /// A searcher over an index with the given schema, segments and statistics.
    pub fn new(
        schema: Schema,
        segment_readers: Vec<SegmentReader>,
        total_num_docs: u64,
        field_tokens: Vec<u64>,
        term_doc_freqs: Vec<(Term, u64)>,
    ) -> (r: Searcher)
        ensures
            r@ == (SearcherView {
                schema: schema@,
                segment_readers: segment_readers@,
                total_num_docs,
                field_tokens: field_tokens@,
                term_doc_freqs: term_doc_freqs@.map_values(
                    |entry: (Term, u64)| (entry.0@, entry.1),
                ),
            }),
    {
        Searcher { schema, segment_readers, total_num_docs, field_tokens, term_doc_freqs }
    }

    /// Returns the schema of the index.
    pub fn schema(&self) -> (r: &Schema)
        ensures
            r@ == self@.schema,
    {
        &self.schema
    }

    /// Returns the segments of the index.
    pub fn segment_readers(&self) -> (r: &[SegmentReader])
        ensures
            r@ == self@.segment_readers,
    {
        self.segment_readers.as_slice()
    }

    /// Returns the segment at position `segment_ord`, which has to exist.
    pub fn segment_reader(&self, segment_ord: u32) -> (r: &SegmentReader)
        requires
            segment_ord < self@.segment_readers.len(),
        ensures
            *r == self@.segment_readers[segment_ord as int],
    {
        &self.segment_readers[segment_ord as usize]
    }
}

/// The entries before position `n` are for other terms: those from `n` on decide.
proof fn listed_doc_freq_skips(freqs: Seq<(TermView, u64)>, term: TermView, n: int)
    requires
        0 <= n <= freqs.len(),
        forall|i: int| 0 <= i < n ==> (#[trigger] freqs[i]).0 != term,
    ensures
        listed_doc_freq(freqs, term) == listed_doc_freq(freqs.skip(n), term),
    decreases n,
{
    if n == 0 {
        assert(freqs.skip(0) =~= freqs);
    } else {
        assert(freqs[0].0 != term);
        assert forall|i: int| 0 <= i < n - 1 implies (#[trigger] freqs.drop_first()[i]).0
            != term by {
            assert(freqs.drop_first()[i] == freqs[i + 1]);
        }
        listed_doc_freq_skips(freqs.drop_first(), term, n - 1);
        assert(freqs.drop_first().skip(n - 1) =~= freqs.skip(n));
    }
}

/// The statistics of a searcher answer for every field and term: the number of tokens of a field is
/// the one at its place, the number of documents is that of the index, and the number of documents
/// that hold a term is the first one that is listed for it. What is not listed is zero.
pub proof fn searcher_statistics_are_those_of_the_index(
    searcher: SearcherView,
    field: Field,
    term: TermView,
    n: int,
)
    requires
        0 <= n <= searcher.term_doc_freqs.len(),
        forall|i: int| 0 <= i < n ==> (#[trigger] searcher.term_doc_freqs[i]).0 != term,
        n < searcher.term_doc_freqs.len() ==> searcher.term_doc_freqs[n].0 == term,
    ensures
        (searcher.statistics().total_num_tokens)(field) == Ok::<u64, ErrorView>(
            if field.0 < searcher.field_tokens.len() {
                searcher.field_tokens[field.0 as int]
            } else {
                0
            },
        ),
        searcher.statistics().total_num_docs == Ok::<u64, ErrorView>(searcher.total_num_docs),
        (searcher.statistics().doc_freq)(term) == Ok::<u64, ErrorView>(
            if n < searcher.term_doc_freqs.len() {
                searcher.term_doc_freqs[n].1
            } else {
                0
            },
        ),
{
    listed_doc_freq_skips(searcher.term_doc_freqs, term, n);
    if n < searcher.term_doc_freqs.len() {
        assert(searcher.term_doc_freqs.skip(n)[0] == searcher.term_doc_freqs[n]);
    } else {
        assert(searcher.term_doc_freqs.skip(n).len() == 0);
    }
}

impl Bm25StatisticsProvider for Searcher {
    open spec fn statistics(&self) -> StatisticsView {
        self@.statistics()
    }

    fn total_num_tokens(&self, field: Field) -> (r: Result<u64, TantivyError>) {
        if (field.0 as usize) < self.field_tokens.len() {
            Ok(self.field_tokens[field.0 as usize])
        } else {
            Ok(0)
        }
    }

    fn total_num_docs(&self) -> (r: Result<u64, TantivyError>) {
        Ok(self.total_num_docs)
    }

    fn doc_freq(&self, term: &Term) -> (r: Result<u64, TantivyError>) {
        let ghost freqs = self@.term_doc_freqs;
        let mut i: usize = 0;
        while i < self.term_doc_freqs.len()
            invariant
                i <= self.term_doc_freqs.len(),
                freqs == self@.term_doc_freqs,
                forall|j: int| 0 <= j < i ==> (#[trigger] freqs[j]).0 != term@,
            decreases self.term_doc_freqs.len() - i,
        {
            if self.term_doc_freqs[i].0.same_as(term) {
                proof {
                    listed_doc_freq_skips(freqs, term@, i as int);
                    assert(freqs.skip(i as int)[0] == freqs[i as int]);
                }
                return Ok(self.term_doc_freqs[i].1);
            }
            i += 1;
        }
        proof {
            listed_doc_freq_skips(freqs, term@, i as int);
            assert(freqs.skip(i as int).len() == 0);
        }
        Ok(0)
    }
}

} // verus!
