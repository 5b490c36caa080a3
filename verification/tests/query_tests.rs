use tantivy_query::error::{ErrorView, TantivyError};
use tantivy_query::phrase_prefix_query::{PhrasePrefixQuery, PhrasePrefixQueryWeight};
use tantivy_query::query::{count_matching, EnableScoring, Query, QueryClone, ScoringView, Weight};
use tantivy_query::range_query::RangeBound;
use tantivy_query::schema::{Field, FieldType, IndexRecordOption, Schema, Type};
use tantivy_query::searcher::{DocAddress, Searcher, SegmentReader};
use tantivy_query::simple_queries::{ConstantEvaluator, RegexQuery, TermSetQuery};
use tantivy_query::single_document::{
    ContextView, SingleDocumentEvaluationContext, SingleDocumentEvaluator,
};
use tantivy_query::statistics::{Bm25StatisticsProvider, Bm25Weight, StatisticsView};
use tantivy_query::term::Term;

fn field_type(record_option: Option<IndexRecordOption>) -> FieldType {
    FieldType {
        value_type: Type::Str,
        record_option,
        fieldnorms: true,
        tokenizer: Some("default".to_string()),
    }
}

fn body_schema() -> (Schema, Field) {
    let mut builder = Schema::builder();
    let body = builder.add_field(
        "body",
        field_type(Some(IndexRecordOption::WithFreqsAndPositions)),
    );
    (builder.build(), body)
}

fn searcher(schema: &Schema, num_segments: u32, terms: Vec<(Term, u64)>) -> Searcher {
    let readers = (0..num_segments)
        .map(|segment_ord| SegmentReader { segment_ord })
        .collect();
    Searcher::new(schema.clone(), readers, 10, vec![40], terms)
}

/// Matches as many documents of a segment as its number says, and fails on one segment.
#[derive(Clone, Debug)]
struct CountingQuery {
    failing_segment: Option<u32>,
}

struct CountingWeight {
    failing_segment: Option<u32>,
    scored: bool,
}

impl Weight for CountingWeight {
    type Explanation = (bool, u32, u32);

    fn matching(&self, _reader: SegmentReader) -> Result<u32, ErrorView> {
        unreachable!()
    }

    fn explanation(
        &self,
        _reader: SegmentReader,
        _doc: u32,
    ) -> Result<Self::Explanation, ErrorView> {
        unreachable!()
    }

    fn count(&self, reader: &SegmentReader) -> Result<u32, TantivyError> {
        if self.failing_segment == Some(reader.segment_ord) {
            Err(TantivyError::InternalError(format!(
                "segment {}",
                reader.segment_ord
            )))
        } else {
            Ok(reader.segment_ord + 1)
        }
    }

    fn explain(
        &self,
        reader: &SegmentReader,
        doc: u32,
    ) -> Result<Self::Explanation, TantivyError> {
        Ok((self.scored, reader.segment_ord, doc))
    }
}

impl Query for CountingQuery {
    type Weight = CountingWeight;
    type Evaluator = ConstantEvaluator;

    fn name(&self) -> vstd::seq::Seq<char> {
        unreachable!()
    }

    fn weighable(&self, _scoring: ScoringView) -> bool {
        unreachable!()
    }

    fn weighs(
        &self,
        _scoring: ScoringView,
        _weight: Result<CountingWeight, ErrorView>,
    ) -> bool {
        unreachable!()
    }

    fn compiles(
        &self,
        _context: ContextView,
        _outcome: Result<ConstantEvaluator, ErrorView>,
    ) -> bool {
        unreachable!()
    }

    fn query_name(&self) -> String {
        "CountingQuery".to_string()
    }

    fn weight<S: Bm25StatisticsProvider + ?Sized>(
        &self,
        enable_scoring: EnableScoring<'_, S>,
    ) -> Result<CountingWeight, TantivyError> {
        Ok(CountingWeight {
            failing_segment: self.failing_segment,
            scored: enable_scoring.is_scoring_enabled(),
        })
    }
}

#[test]
fn count_adds_up_the_segments() {
    let (schema, _) = body_schema();
    let query = CountingQuery {
        failing_segment: None,
    };
    assert_eq!(query.count(&searcher(&schema, 0, vec![])), Ok(0));
    assert_eq!(query.count(&searcher(&schema, 4, vec![])), Ok(10));

    let failing = CountingQuery {
        failing_segment: Some(2),
    };
    assert_eq!(failing.count(&searcher(&schema, 2, vec![])), Ok(3));
    assert_eq!(
        failing.count(&searcher(&schema, 4, vec![])),
        Err(TantivyError::InternalError("segment 2".to_string()))
    );
    let weight = CountingWeight {
        failing_segment: None,
        scored: false,
    };
    assert_eq!(
        count_matching(&weight, &[SegmentReader { segment_ord: 6 }]),
        Ok(7)
    );
}

#[test]
fn explain_asks_the_segment_of_the_document_with_scores() {
    let (schema, _) = body_schema();
    let query = CountingQuery {
        failing_segment: None,
    };
    let explanation = query.explain(
        &searcher(&schema, 3, vec![]),
        DocAddress {
            segment_ord: 2,
            doc_id: 5,
        },
    );
    assert_eq!(explanation, Ok((true, 2, 5)));
}

#[test]
fn queries_have_no_terms_and_no_evaluator_unless_they_say_so() {
    let (schema, body) = body_schema();
    let query = CountingQuery {
        failing_segment: Some(1),
    };
    assert!(query.query_terms().is_empty());
    let context = SingleDocumentEvaluationContext::without_scoring(&schema);
    assert_eq!(
        query.single_document_evaluator(context).err(),
        Some(TantivyError::UnsupportedQueryForSingleDocumentEvaluation(
            "CountingQuery".to_string()
        ))
    );
    assert_eq!(query.box_clone().failing_segment, Some(1));
    let terms = TermSetQuery::new(vec![Term::from_field_text(body, "a")]);
    assert_eq!(terms.query_name(), "TermSetQuery");
    let regex = RegexQuery::from_pattern("a.*", body);
    assert_eq!(regex.query_name(), "RegexQuery");
}

#[test]
fn enable_scoring_gives_back_what_it_was_made_of() {
    let (schema, body) = body_schema();
    let term = Term::from_field_text(body, "a");
    let searcher = searcher(&schema, 2, vec![(term.clone(), 3)]);

    let enabled = EnableScoring::enabled_from_searcher(&searcher);
    assert!(enabled.is_scoring_enabled());
    assert_eq!(enabled.schema().num_fields(), 1);
    assert_eq!(enabled.searcher().unwrap().segment_readers().len(), 2);

    let custom = EnableScoring::enabled_from_statistics_provider(&searcher, &searcher);
    assert!(custom.is_scoring_enabled());
    assert!(custom.searcher().is_some());

    let disabled = EnableScoring::disabled_from_searcher(&searcher);
    assert!(!disabled.is_scoring_enabled());
    assert!(disabled.searcher().is_some());

    let without = EnableScoring::disabled_from_schema(&schema);
    assert!(!without.is_scoring_enabled());
    assert!(without.searcher().is_none());
    assert_eq!(without.schema().get_field_name(body), "body");

    assert_eq!(searcher.segment_reader(1).segment_ord, 1);
    assert_eq!(searcher.total_num_docs(), Ok(10));
    assert_eq!(searcher.total_num_tokens(body), Ok(40));
    assert_eq!(searcher.doc_freq(&term), Ok(3));
    assert_eq!(
        searcher.doc_freq(&Term::from_field_text(body, "b")),
        Ok(0)
    );
}

#[test]
fn phrase_prefix_weight_holds_the_phrase() {
    let (schema, body) = body_schema();
    let term = |text| Term::from_field_text(body, text);
    let searcher = searcher(&schema, 1, vec![(term("big"), 3), (term("bad"), 2)]);
    let mut query = PhrasePrefixQuery::new(vec![term("big"), term("bad"), term("wo")]);
    query.set_max_expansions(7);
    assert_eq!(query.field(), body);
    assert_eq!(query.phrase_terms(), vec![term("big"), term("bad")]);
    assert_eq!(
        query.query_terms(),
        vec![(&term("big"), true), (&term("bad"), true)]
    );

    let scored = EnableScoring::enabled_from_searcher(&searcher);
    let PhrasePrefixQueryWeight::Phrase(weight) = query.weight(scored).unwrap() else {
        panic!("a phrase with fixed terms has a phrase weight");
    };
    assert_eq!(weight.phrase_terms(), &[(0, term("big")), (1, term("bad"))]);
    assert_eq!(weight.prefix(), (2, &term("wo")));
    assert_eq!(weight.max_expansions(), 7);
    let bm25: &Bm25Weight = weight.bm25_weight().unwrap();
    assert_eq!(bm25.total_num_tokens, 40);
    assert_eq!(bm25.total_num_docs, 10);
    assert_eq!(bm25.doc_freqs, vec![3, 2]);
    assert!(bm25.boost.factors().is_empty());

    let unscored = query
        .phrase_prefix_query_weight(&EnableScoring::disabled_from_schema(&schema))
        .unwrap()
        .unwrap();
    assert!(unscored.bm25_weight().is_none());
}

/// Statistics of seven documents, or none at all.
struct CustomStatistics {
    available: bool,
}

impl CustomStatistics {
    fn answer(&self, number: u64) -> Result<u64, TantivyError> {
        if self.available {
            Ok(number)
        } else {
            Err(TantivyError::InternalError("no statistics".to_string()))
        }
    }
}

impl Bm25StatisticsProvider for CustomStatistics {
    fn statistics(&self) -> StatisticsView {
        unreachable!()
    }

    fn total_num_tokens(&self, _field: Field) -> Result<u64, TantivyError> {
        self.answer(70)
    }

    fn total_num_docs(&self) -> Result<u64, TantivyError> {
        self.answer(7)
    }

    fn doc_freq(&self, term: &Term) -> Result<u64, TantivyError> {
        self.answer(term.serialized_value_bytes().len() as u64)
    }
}

#[test]
fn phrase_prefix_weight_uses_the_given_statistics() {
    let (schema, body) = body_schema();
    let term = |text| Term::from_field_text(body, text);
    let searcher = searcher(&schema, 1, vec![(term("big"), 9), (term("ba"), 8)]);
    let query = PhrasePrefixQuery::new(vec![term("big"), term("ba"), term("wo")]);

    let custom = CustomStatistics { available: true };
    let scoring = EnableScoring::enabled_from_statistics_provider(&custom, &searcher);
    let weight = query.phrase_prefix_query_weight(&scoring).unwrap().unwrap();
    let bm25 = weight.bm25_weight().unwrap();
    assert_eq!(bm25.total_num_docs, 7);
    assert_eq!(bm25.total_num_tokens, 70);
    assert_eq!(bm25.doc_freqs, vec![3, 2]);
    let PhrasePrefixQueryWeight::Phrase(weight) = query.weight(scoring).unwrap() else {
        panic!("a phrase with fixed terms has a phrase weight");
    };
    assert_eq!(weight.bm25_weight().unwrap().total_num_docs, 7);

    let failing = CustomStatistics { available: false };
    let scoring = EnableScoring::enabled_from_statistics_provider(&failing, &searcher);
    assert_eq!(
        query.weight(scoring).err(),
        Some(TantivyError::InternalError("no statistics".to_string()))
    );
    let without = EnableScoring::disabled_from_searcher(&searcher);
    assert!(query.weight(without).is_ok());
}

#[test]
fn prefix_alone_has_no_phrase_weight_whatever_its_field() {
    let (schema, _) = body_schema();
    let unknown = Field::from_field_id(9);
    let query = PhrasePrefixQuery::new(vec![Term::from_field_text(unknown, "a")]);
    let without = EnableScoring::disabled_from_schema(&schema);
    assert!(query.phrase_prefix_query_weight(&without).unwrap().is_none());
}

#[test]
fn offsets_decide_the_order_of_a_phrase() {
    let (_, body) = body_schema();
    let term = |text| Term::from_field_text(body, text);
    let query = PhrasePrefixQuery::new_with_offset(vec![
        (5, term("last")),
        (1, term("first")),
        (3, term("x")),
        (3, term("y")),
    ]);
    assert_eq!(
        query.phrase_terms(),
        vec![term("first"), term("x"), term("y")]
    );
    assert_eq!(query.clone().phrase_terms(), query.phrase_terms());
}

#[test]
fn prefix_alone_is_a_range() {
    let (schema, body) = body_schema();
    let prefix = Term::from_bytes(body, Type::Str, &[b'c', 0xff, 0xff]);
    let mut query = PhrasePrefixQuery::new(vec![prefix.clone()]);
    query.set_max_expansions(3);
    let without = EnableScoring::disabled_from_schema(&schema);
    assert!(query.phrase_prefix_query_weight(&without).unwrap().is_none());
    let PhrasePrefixQueryWeight::Range(range) = query.weight(without).unwrap() else {
        panic!("a prefix alone is a range");
    };
    assert_eq!(range.field(), "body");
    assert_eq!(range.value_type(), Type::Str);
    assert_eq!(range.get_limit(), Some(3));
    assert!(matches!(range.lower_bound(), RangeBound::Included(term) if *term == prefix));
    let end = Term::from_bytes(body, Type::Str, b"d");
    assert!(matches!(range.upper_bound(), RangeBound::Excluded(term) if *term == end));

    let query = PhrasePrefixQuery::new(vec![Term::from_bytes(body, Type::Str, &[0xff, 0xff])]);
    let without = EnableScoring::disabled_from_schema(&schema);
    let PhrasePrefixQueryWeight::Range(range) = query.weight(without).unwrap() else {
        panic!("a prefix alone is a range");
    };
    assert!(matches!(range.upper_bound(), RangeBound::Unbounded));
    assert_eq!(range.get_limit(), Some(50));
}

#[test]
fn phrase_prefix_weight_needs_positions() {
    let mut builder = Schema::builder();
    let body = builder.add_field("bo\"dy", field_type(Some(IndexRecordOption::WithFreqs)));
    let schema = builder.build();
    let term = |text| Term::from_field_text(body, text);
    let query = PhrasePrefixQuery::new(vec![term("a"), term("b")]);
    let message = "Applied phrase query on field \"bo\\\"dy\", which does not have positions indexed";
    assert_eq!(
        query
            .weight(EnableScoring::disabled_from_schema(&schema))
            .err(),
        Some(TantivyError::SchemaError(message.to_string()))
    );
}

#[test]
fn boxed_query_is_the_query_in_the_box() {
    let (schema, body) = body_schema();
    let counting = Box::new(CountingQuery {
        failing_segment: None,
    });
    assert_eq!(counting.query_name(), "CountingQuery");
    assert_eq!(counting.count(&searcher(&schema, 4, vec![])), Ok(10));

    let term = |text| Term::from_field_text(body, text);
    let boxed = Box::new(PhrasePrefixQuery::new(vec![term("a"), term("b")]));
    assert_eq!(
        <Box<PhrasePrefixQuery> as Query>::query_terms(&boxed),
        vec![(&term("a"), true)]
    );
    assert_eq!(
        <Box<PhrasePrefixQuery> as QueryClone>::box_clone(&boxed).phrase_terms(),
        vec![term("a")]
    );
    let weight = <Box<PhrasePrefixQuery> as Query>::weight(
        &boxed,
        EnableScoring::disabled_from_schema(&schema),
    );
    assert!(matches!(weight, Ok(PhrasePrefixQueryWeight::Phrase(_))));
    let evaluator = <Box<PhrasePrefixQuery> as Query>::single_document_evaluator(
        &boxed,
        SingleDocumentEvaluationContext::without_scoring(&schema),
    )
    .unwrap();
    assert_eq!(evaluator.required_fields(), Some([body].as_slice()));
    let unsupported = Box::new(RegexQuery::from_pattern("a.*", body));
    assert_eq!(
        <Box<RegexQuery> as Query>::single_document_evaluator(
            &unsupported,
            SingleDocumentEvaluationContext::without_scoring(&schema),
        )
        .err(),
        Some(TantivyError::UnsupportedQueryForSingleDocumentEvaluation(
            "RegexQuery".to_string()
        ))
    );
}
