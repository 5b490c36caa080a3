use std::collections::HashMap;

use tantivy_query::any_query::{AnyQuery, BooleanQuery, BoostQuery, ConstScoreQuery, Occur};
use tantivy_query::document::{Document, JsonLeaf, LeafValue, Token, Value};
use tantivy_query::error::{ErrorView, TantivyError};
use tantivy_query::fieldnorm::FieldNormReader;
use tantivy_query::fuzzy_query::FuzzyTermQuery;
use tantivy_query::phrase_prefix_query::PhrasePrefixQuery;
use tantivy_query::phrase_query::PhraseQuery;
use tantivy_query::prepared_document::{PreparedSingleDocument, SingleDocumentPreparer};
use tantivy_query::query::Query;
use tantivy_query::schema::{Field, FieldType, IndexRecordOption, Schema, Type};
use tantivy_query::score::{DocumentEvaluation, EvaluationView, Score};
use tantivy_query::searcher::{Searcher, SegmentReader};
use tantivy_query::simple_queries::{AllQuery, EmptyQuery, RegexQuery, TermSetQuery};
use tantivy_query::single_document::{
    DocumentView, SingleDocument, SingleDocumentEvaluationContext, SingleDocumentEvaluator,
    SingleDocumentTermInfo, TermBound, VisitedTerm,
};
use tantivy_query::statistics::{Bm25StatisticsProvider, StatisticsView};
use tantivy_query::term::{Term, JSON_END_OF_PATH};
use tantivy_query::term_query::TermQuery;
use tantivy_query::tokenizer::TokenizerManager;

type TestResult = Result<(), TantivyError>;

/// The number that a score stands for.
fn score_value(score: &Score) -> f32 {
    match score {
        Score::Product(boost) => product(boost.factors()),
        Score::Bm25 { weight, fieldnorm_id, term_freq } => {
            let average = weight.total_num_tokens as f32 / weight.total_num_docs as f32;
            let idfs: f32 = weight
                .doc_freqs
                .iter()
                .map(|&doc_freq| idf(doc_freq, weight.total_num_docs))
                .sum();
            let fieldnorm = FieldNormReader::id_to_fieldnorm(*fieldnorm_id);
            bm25(idfs, *term_freq, fieldnorm, average) * product(weight.boost.factors())
        }
        Score::Sum(left, right) => score_value(left) + score_value(right),
    }
}

fn product(factors: &[u32]) -> f32 {
    factors
        .iter()
        .fold(1.0f32, |total, &factor| total * f32::from_bits(factor))
}

fn idf(doc_freq: u64, doc_count: u64) -> f32 {
    let x = ((doc_count - doc_freq) as f32 + 0.5) / (doc_freq as f32 + 0.5);
    (1.0 + x).ln()
}

fn bm25(idf: f32, term_freq: u32, fieldnorm: u32, average_fieldnorm: f32) -> f32 {
    let k1 = 1.2f32;
    let b = 0.75f32;
    let norm = k1 * (1.0 - b + b * fieldnorm as f32 / average_fieldnorm);
    let term_freq = term_freq as f32;
    idf * (1.0 + k1) * term_freq / (term_freq + norm)
}

/// The number of a match, `None` where the document does not match.
fn matched(evaluation: DocumentEvaluation) -> Option<f32> {
    match evaluation {
        DocumentEvaluation::Match(score) => Some(score_value(&score)),
        DocumentEvaluation::NoMatch => None,
    }
}

fn text_type(record_option: IndexRecordOption, fieldnorms: bool, tokenizer: &str) -> FieldType {
    FieldType {
        value_type: Type::Str,
        record_option: Some(record_option),
        fieldnorms,
        tokenizer: Some(tokenizer.to_string()),
    }
}

/// Text with positions, cut by the default tokenizer.
fn text() -> FieldType {
    text_type(IndexRecordOption::WithFreqsAndPositions, true, "default")
}

fn string() -> FieldType {
    text_type(IndexRecordOption::Basic, true, "raw")
}

fn json() -> FieldType {
    FieldType {
        value_type: Type::Json,
        record_option: Some(IndexRecordOption::WithFreqsAndPositions),
        fieldnorms: false,
        tokenizer: Some("default".to_string()),
    }
}

fn number() -> FieldType {
    FieldType {
        value_type: Type::U64,
        record_option: Some(IndexRecordOption::Basic),
        fieldnorms: true,
        tokenizer: None,
    }
}

fn tokens_of(words: Vec<String>) -> Vec<Token> {
    words
        .into_iter()
        .enumerate()
        .map(|(position, text)| Token {
            text,
            position: position as u32,
            position_length: 1,
        })
        .collect()
}

/// What the default tokenizer makes of a text: its words, in lower case.
fn tokenized(text: &str) -> Vec<Token> {
    tokens_of(
        text.split(|c: char| !c.is_alphanumeric())
            .filter(|word| !word.is_empty())
            .map(|word| word.to_lowercase())
            .collect(),
    )
}

fn add_text(document: &mut Document, field: Field, text: &str) {
    document.add_field_value(field, Value::Text(tokenized(text)));
}

fn text_document(field: Field, text: &str) -> Document {
    let mut document = Document::new();
    add_text(&mut document, field, text);
    document
}

fn u64_value(number: u64) -> Value {
    Value::Exact(Type::U64, number.to_be_bytes().to_vec())
}

fn json_term(field: Field, path: &str, typ: Type, value: &[u8]) -> Term {
    let mut term = Term::with_type_and_field(Type::Json, field);
    term.append_path(path.as_bytes());
    term.append_bytes(&[JSON_END_OF_PATH, typ.to_code()]);
    term.append_bytes(value);
    term
}

fn json_text_term(field: Field, path: &str, text: &str) -> Term {
    json_term(field, path, Type::Str, text.as_bytes())
}

fn i64_bytes(number: i64) -> [u8; 8] {
    ((number as u64) ^ (1u64 << 63)).to_be_bytes()
}

/// An index of prepared documents, as far as statistics are concerned.
fn searcher_of(schema: &Schema, documents: &[&PreparedSingleDocument], terms: &[Term]) -> Searcher {
    let field_tokens = (0..schema.num_fields())
        .map(|id| {
            documents
                .iter()
                .map(|document| document.total_num_tokens(Field::from_field_id(id as u32)))
                .sum()
        })
        .collect();
    let doc_freqs = terms
        .iter()
        .map(|term| {
            let count = documents
                .iter()
                .filter(|document| document.term_info(term).is_some())
                .count();
            (term.clone(), count as u64)
        })
        .collect();
    Searcher::new(
        schema.clone(),
        vec![SegmentReader { segment_ord: 0 }],
        documents.len() as u64,
        field_tokens,
        doc_freqs,
    )
}

struct TestStatistics {
    total_docs: u64,
    total_tokens: u64,
    doc_freqs: HashMap<Term, u64>,
}

impl Bm25StatisticsProvider for TestStatistics {
    fn statistics(&self) -> StatisticsView {
        unreachable!()
    }

    fn total_num_tokens(&self, _field: Field) -> Result<u64, TantivyError> {
        Ok(self.total_tokens)
    }

    fn total_num_docs(&self) -> Result<u64, TantivyError> {
        Ok(self.total_docs)
    }

    fn doc_freq(&self, term: &Term) -> Result<u64, TantivyError> {
        Ok(*self.doc_freqs.get(term).unwrap_or(&0))
    }
}

#[derive(Default)]
struct TestDocument {
    term_freqs: HashMap<Term, u32>,
    positions: HashMap<Term, Vec<u32>>,
    fieldnorms: HashMap<Field, u8>,
}

fn is_after_start(start: &TermBound<'_>, term: &Term) -> bool {
    match start {
        TermBound::Included(first) => !term.less_than(first),
        TermBound::Excluded(before) => before.less_than(term),
        TermBound::Unbounded => true,
    }
}

fn is_before_end(end: &TermBound<'_>, term: &Term) -> bool {
    match end {
        TermBound::Included(last) => !last.less_than(term),
        TermBound::Excluded(behind) => term.less_than(behind),
        TermBound::Unbounded => true,
    }
}

impl SingleDocument for TestDocument {
    fn document(&self) -> DocumentView {
        unreachable!()
    }

    fn term_info(&self, term: &Term) -> Option<SingleDocumentTermInfo<'_>> {
        self.term_freqs
            .get(term)
            .copied()
            .map(|term_freq| SingleDocumentTermInfo {
                term_freq,
                positions: self.positions.get(term).map(Vec::as_slice),
            })
    }

    fn fieldnorm_id(&self, field: Field) -> Option<u8> {
        self.fieldnorms.get(&field).copied()
    }

    fn visit_terms(
        &self,
        field: Field,
        start: TermBound<'_>,
        end: TermBound<'_>,
    ) -> Vec<VisitedTerm<'_>> {
        let mut visited: Vec<VisitedTerm<'_>> = self
            .term_freqs
            .iter()
            .filter(|(term, _)| term.field() == field)
            .filter(|(term, _)| is_after_start(&start, term) && is_before_end(&end, term))
            .map(|(term, &term_freq)| VisitedTerm {
                term,
                info: SingleDocumentTermInfo {
                    term_freq,
                    positions: self.positions.get(term).map(Vec::as_slice),
                },
            })
            .collect();
        visited.sort_by(|left, right| {
            if left.term.less_than(right.term) {
                std::cmp::Ordering::Less
            } else if right.term.less_than(left.term) {
                std::cmp::Ordering::Greater
            } else {
                std::cmp::Ordering::Equal
            }
        });
        visited
    }

    fn validate_required_fields(
        &self,
        _required_fields: Option<&[Field]>,
    ) -> Result<(), TantivyError> {
        Ok(())
    }
}

fn preparer_for_fields(
    schema: &Schema,
    tokenizer_manager: &TokenizerManager,
    fields: &[Field],
) -> Result<SingleDocumentPreparer, TantivyError> {
    SingleDocumentPreparer::for_fields(schema, tokenizer_manager, fields)
}

fn default_preparer(schema: &Schema, fields: &[Field]) -> SingleDocumentPreparer {
    preparer_for_fields(schema, &TokenizerManager::default(), fields).unwrap()
}

fn text_schema() -> (Schema, Field) {
    let mut schema_builder = Schema::builder();
    let field = schema_builder.add_field("body", text());
    (schema_builder.build(), field)
}

#[test]
fn empty_boolean_matches_no_documents() -> TestResult {
    let (schema, field) = text_schema();
    let query = BooleanQuery::new(Vec::new());

    let mut preparer = default_preparer(&schema, &[field]);
    let indexed = preparer.prepare(&text_document(field, "body"))?;
    let searcher = searcher_of(&schema, &[&indexed], &[]);

    let mut evaluator = query
        .single_document_evaluator(SingleDocumentEvaluationContext::without_scoring(&schema))?;
    assert_eq!(
        evaluator.evaluate(&TestDocument::default())?,
        DocumentEvaluation::NoMatch
    );
    assert_eq!(evaluator.evaluate(&indexed)?, DocumentEvaluation::NoMatch);

    let mut evaluator = query.single_document_evaluator(
        SingleDocumentEvaluationContext::with_scoring(&schema, &searcher),
    )?;
    assert_eq!(
        evaluator.evaluate(&TestDocument::default())?,
        DocumentEvaluation::NoMatch
    );
    Ok(())
}

#[test]
fn all_and_empty_query_single_document_behavior() -> TestResult {
    let (schema, _field) = text_schema();
    let statistics = TestStatistics {
        total_docs: 1,
        total_tokens: 1,
        doc_freqs: HashMap::new(),
    };
    let document = TestDocument::default();

    let mut all_evaluator = AllQuery {}
        .single_document_evaluator(SingleDocumentEvaluationContext::without_scoring(&schema))?;
    assert_eq!(matched(all_evaluator.evaluate(&document)?), Some(1.0));
    let mut empty_evaluator = EmptyQuery {}
        .single_document_evaluator(SingleDocumentEvaluationContext::without_scoring(&schema))?;
    assert_eq!(
        empty_evaluator.evaluate(&document)?,
        DocumentEvaluation::NoMatch
    );

    let context = SingleDocumentEvaluationContext::with_scoring(&schema, &statistics);
    let mut all_evaluator = AllQuery {}.single_document_evaluator(context.clone())?;
    assert_eq!(matched(all_evaluator.evaluate(&document)?), Some(1.0));
    let mut empty_evaluator = EmptyQuery {}.single_document_evaluator(context)?;
    assert_eq!(
        empty_evaluator.evaluate(&document)?,
        DocumentEvaluation::NoMatch
    );
    Ok(())
}

#[test]
fn single_document_term_score_matches_segment_scorer() -> TestResult {
    let (schema, field) = text_schema();
    let term = Term::from_field_text(field, "rust");
    let query = TermQuery::new(term.clone(), IndexRecordOption::WithFreqs);
    let statistics = TestStatistics {
        total_docs: 10,
        total_tokens: 40,
        doc_freqs: HashMap::from([(term.clone(), 4)]),
    };
    // "rust rust other"
    let expected_score = bm25(idf(4, 10), 2, 3, 4.0);

    let mut document = TestDocument::default();
    document.term_freqs.insert(term, 2);
    document
        .fieldnorms
        .insert(field, FieldNormReader::fieldnorm_to_id(3));
    let mut evaluator = query.single_document_evaluator(
        SingleDocumentEvaluationContext::with_scoring(&schema, &statistics),
    )?;
    let Some(actual_score) = matched(evaluator.evaluate(&document)?) else {
        panic!("document should match");
    };
    assert!((actual_score - expected_score).abs() <= 1e-6);
    Ok(())
}

#[test]
fn basic_term_scoring_treats_term_freq_as_one() -> TestResult {
    let (schema, field) = text_schema();
    let term = Term::from_field_text(field, "rust");
    let query = TermQuery::new(term.clone(), IndexRecordOption::Basic);
    let statistics = TestStatistics {
        total_docs: 10,
        total_tokens: 40,
        doc_freqs: HashMap::from([(term.clone(), 4)]),
    };
    // "rust rust rust other"
    let expected_score = bm25(idf(4, 10), 1, 4, 4.0);

    let mut document = TestDocument::default();
    document.term_freqs.insert(term.clone(), 3);
    document
        .fieldnorms
        .insert(field, FieldNormReader::fieldnorm_to_id(4));
    let mut evaluator = query.single_document_evaluator(
        SingleDocumentEvaluationContext::with_scoring(&schema, &statistics),
    )?;
    let Some(reported_freq_score) = matched(evaluator.evaluate(&document)?) else {
        panic!("document should match");
    };

    document.term_freqs.insert(term, 1);
    let Some(unit_freq_score) = matched(evaluator.evaluate(&document)?) else {
        panic!("document should match");
    };
    assert_eq!(reported_freq_score, unit_freq_score);
    assert!((reported_freq_score - expected_score).abs() <= 1e-6);
    Ok(())
}

#[test]
fn term_without_scoring_reports_match_and_no_match() -> TestResult {
    let (schema, field) = text_schema();
    let term = Term::from_field_text(field, "rust");
    let query = TermQuery::new(term.clone(), IndexRecordOption::WithFreqs);
    let mut evaluator = query
        .single_document_evaluator(SingleDocumentEvaluationContext::without_scoring(&schema))?;

    assert_eq!(
        evaluator.evaluate(&TestDocument::default())?,
        DocumentEvaluation::NoMatch
    );

    let mut matching_document = TestDocument::default();
    matching_document.term_freqs.insert(term, 2);
    assert_eq!(matched(evaluator.evaluate(&matching_document)?), Some(1.0));
    Ok(())
}

#[test]
fn single_document_fuzzy_evaluation_matches_segment_scorer() -> TestResult {
    let (schema, field) = text_schema();
    let mut preparer = default_preparer(&schema, &[field]);
    let prepared = preparer.prepare(&text_document(field, "rust search"))?;
    let other = preparer.prepare(&text_document(field, "database"))?;
    let searcher = searcher_of(&schema, &[&prepared, &other], &[]);

    let queries = [
        FuzzyTermQuery::new_prefix(Term::from_field_text(field, "rus"), 0, true),
        FuzzyTermQuery::new(Term::from_field_text(field, "ruse"), 1, true),
        FuzzyTermQuery::new(Term::from_field_text(field, "rsut"), 1, true),
    ];
    for query in queries {
        let mut evaluator = query.single_document_evaluator(
            SingleDocumentEvaluationContext::with_scoring(&schema, &searcher),
        )?;
        let Some(actual_score) = matched(evaluator.evaluate(&prepared)?) else {
            panic!("fuzzy query should match");
        };
        assert_eq!(actual_score, 1.0);
        assert_eq!(evaluator.evaluate(&other)?, DocumentEvaluation::NoMatch);
        assert_eq!(evaluator.required_fields(), Some([field].as_slice()));
    }

    let query = FuzzyTermQuery::new_prefix(Term::from_field_text(field, "sql"), 0, true);
    let mut evaluator = query
        .single_document_evaluator(SingleDocumentEvaluationContext::without_scoring(&schema))?;
    assert_eq!(evaluator.evaluate(&prepared)?, DocumentEvaluation::NoMatch);
    Ok(())
}

#[test]
fn single_document_fuzzy_json_path_is_filtered() -> TestResult {
    let mut schema_builder = Schema::builder();
    let attributes = schema_builder.add_field("attributes", json());
    let schema = schema_builder.build();
    let mut document = Document::new();
    document.add_field_value(
        attributes,
        Value::Json(vec![JsonLeaf {
            path: "a".to_string(),
            value: LeafValue::Text(tokenized("japan")),
        }]),
    );
    let mut preparer = default_preparer(&schema, &[attributes]);
    let prepared = preparer.prepare(&document)?;

    // The extra `a` in the JSON path is within the fuzzy distance, but paths must be exact.
    let wrong_path_query = FuzzyTermQuery::new(json_text_term(attributes, "aa", "japan"), 2, true);
    let mut wrong_path_evaluator = wrong_path_query
        .single_document_evaluator(SingleDocumentEvaluationContext::without_scoring(&schema))?;
    assert_eq!(
        wrong_path_evaluator.evaluate(&prepared)?,
        DocumentEvaluation::NoMatch
    );

    let matching_query = FuzzyTermQuery::new(json_text_term(attributes, "a", "japon"), 1, true);
    let mut matching_evaluator = matching_query
        .single_document_evaluator(SingleDocumentEvaluationContext::without_scoring(&schema))?;
    assert_eq!(matched(matching_evaluator.evaluate(&prepared)?), Some(1.0));
    Ok(())
}

#[test]
fn single_document_phrase_prefix_score_matches_segment_scorer() -> TestResult {
    let (schema, field) = text_schema();
    let rust = Term::from_field_text(field, "rust");
    let database = Term::from_field_text(field, "database");
    let query = PhrasePrefixQuery::new(vec![
        rust.clone(),
        database.clone(),
        Term::from_field_text(field, "sys"),
    ]);

    let mut preparer = default_preparer(&schema, &[field]);
    let matching_prepared = preparer.prepare(&text_document(field, "rust database systems"))?;
    let non_matching_prepared = preparer.prepare(&text_document(field, "rust database storage"))?;
    let searcher = searcher_of(
        &schema,
        &[&matching_prepared, &non_matching_prepared],
        &[rust, database],
    );
    let expected_score = bm25(idf(2, 2) + idf(2, 2), 1, 3, 3.0);
    let mut evaluator = query.single_document_evaluator(
        SingleDocumentEvaluationContext::with_scoring(&schema, &searcher),
    )?;

    let Some(actual_score) = matched(evaluator.evaluate(&matching_prepared)?) else {
        panic!("phrase prefix query should match");
    };
    assert!((actual_score - expected_score).abs() <= 1e-6);
    assert_eq!(
        evaluator.evaluate(&non_matching_prepared)?,
        DocumentEvaluation::NoMatch
    );
    assert_eq!(evaluator.required_fields(), Some([field].as_slice()));
    Ok(())
}

#[test]
fn single_document_phrase_prefix_with_non_adjacent_offsets_matches_segment_scorer() -> TestResult {
    let (schema, field) = text_schema();
    let term = |text| Term::from_field_text(field, text);
    let mut preparer = default_preparer(&schema, &[field]);
    let first = preparer.prepare(&text_document(field, "a x b cat"))?;
    let second = preparer.prepare(&text_document(field, "d x dog"))?;
    let searcher = searcher_of(
        &schema,
        &[&first, &second],
        &[term("a"), term("b"), term("d")],
    );

    let cases = [
        // A gap between the fixed terms, with the prefix immediately behind the greatest offset of
        // a fixed term. The fixed terms are scored.
        (
            PhrasePrefixQuery::new_with_offset(vec![
                (0, term("a")),
                (2, term("b")),
                (3, term("c")),
            ]),
            "a x b cat",
            "a b cat",
            bm25(idf(1, 2) + idf(1, 2), 1, 4, 3.5),
        ),
        // One fixed term is aligned directly to the explicit offset of the prefix, and is not
        // scored.
        (
            PhrasePrefixQuery::new_with_offset(vec![(0, term("d")), (2, term("do"))]),
            "d x dog",
            "d dog",
            1.0,
        ),
    ];

    for (query, matching_text, non_matching_text, expected_score) in cases {
        let matching_prepared = preparer.prepare(&text_document(field, matching_text))?;
        let non_matching_prepared = preparer.prepare(&text_document(field, non_matching_text))?;
        let mut evaluator = query.single_document_evaluator(
            SingleDocumentEvaluationContext::with_scoring(&schema, &searcher),
        )?;

        let Some(actual_score) = matched(evaluator.evaluate(&matching_prepared)?) else {
            panic!("phrase prefix query with non-adjacent offsets should match");
        };
        assert!((actual_score - expected_score).abs() <= 1e-6);
        assert_eq!(
            evaluator.evaluate(&non_matching_prepared)?,
            DocumentEvaluation::NoMatch
        );
    }
    Ok(())
}

#[test]
fn single_document_phrase_prefix_honors_document_expansion_order() -> TestResult {
    let (schema, field) = text_schema();
    let mut preparer = default_preparer(&schema, &[field]);
    let prepared = preparer.prepare(&text_document(field, "x cb y x ca"))?;

    let mut query = PhrasePrefixQuery::new(vec![
        Term::from_field_text(field, "x"),
        Term::from_field_text(field, "c"),
    ]);
    query.set_max_expansions(1);
    let mut evaluator = query
        .single_document_evaluator(SingleDocumentEvaluationContext::without_scoring(&schema))?;
    assert_eq!(matched(evaluator.evaluate(&prepared)?), Some(1.0));
    Ok(())
}

#[test]
fn single_document_phrase_prefix_bounds_term_visit_to_prefix() -> TestResult {
    struct RangeCheckingDocument {
        field: Field,
        prefix: Term,
        end: Term,
        matching_term: Term,
    }

    impl SingleDocument for RangeCheckingDocument {
        fn document(&self) -> DocumentView {
            unreachable!()
        }

        fn term_info(&self, _term: &Term) -> Option<SingleDocumentTermInfo<'_>> {
            None
        }

        fn fieldnorm_id(&self, _field: Field) -> Option<u8> {
            None
        }

        fn visit_terms(
            &self,
            field: Field,
            start: TermBound<'_>,
            end: TermBound<'_>,
        ) -> Vec<VisitedTerm<'_>> {
            assert_eq!(field, self.field);
            assert!(matches!(start, TermBound::Included(term) if term == &self.prefix));
            assert!(matches!(end, TermBound::Excluded(term) if term == &self.end));
            vec![VisitedTerm {
                term: &self.matching_term,
                info: SingleDocumentTermInfo {
                    term_freq: 1,
                    positions: None,
                },
            }]
        }

        fn validate_required_fields(
            &self,
            _required_fields: Option<&[Field]>,
        ) -> Result<(), TantivyError> {
            Ok(())
        }
    }

    let (schema, field) = text_schema();
    let prefix = Term::from_field_text(field, "ca");
    let document = RangeCheckingDocument {
        field,
        prefix: prefix.clone(),
        end: Term::from_field_text(field, "cb"),
        matching_term: Term::from_field_text(field, "cable"),
    };
    let query = PhrasePrefixQuery::new(vec![prefix]);
    let mut evaluator = query
        .single_document_evaluator(SingleDocumentEvaluationContext::without_scoring(&schema))?;
    assert_eq!(matched(evaluator.evaluate(&document)?), Some(1.0));
    Ok(())
}

#[test]
fn single_term_phrase_prefix_does_not_require_positions() -> TestResult {
    let mut schema_builder = Schema::builder();
    let field = schema_builder.add_field("body", string());
    let schema = schema_builder.build();
    let mut preparer = default_preparer(&schema, &[field]);
    let prepared = preparer.prepare(&text_document(field, "rust"))?;
    let query = PhrasePrefixQuery::new(vec![Term::from_field_text(field, "rus")]);
    let mut evaluator = query
        .single_document_evaluator(SingleDocumentEvaluationContext::without_scoring(&schema))?;
    assert_eq!(matched(evaluator.evaluate(&prepared)?), Some(1.0));
    Ok(())
}

#[test]
fn single_document_phrase_prefix_rejects_mismatched_term_type() {
    let (schema, field) = text_schema();
    let text_term = Term::from_field_text(field, "rust");
    let u64_term = Term::from_field_u64(field, 42);
    let queries = [
        PhrasePrefixQuery::new(vec![u64_term.clone()]),
        PhrasePrefixQuery::new(vec![u64_term.clone(), text_term.clone()]),
        PhrasePrefixQuery::new(vec![text_term, u64_term]),
    ];

    for query in queries {
        let error = query
            .single_document_evaluator(SingleDocumentEvaluationContext::without_scoring(&schema))
            .err()
            .unwrap();
        assert!(matches!(
            error,
            TantivyError::SchemaError(message)
                if message
                    == "Create a phrase prefix query of the type U64, when the field given was of \
                        type Str"
        ));
    }
}

#[test]
fn single_term_phrase_prefix_score_matches_segment_range_query() -> TestResult {
    let mut schema_builder = Schema::builder();
    let field = schema_builder.add_field("body", string());
    let schema = schema_builder.build();
    let mut preparer = default_preparer(&schema, &[field]);
    let prepared = preparer.prepare(&text_document(field, "rust"))?;
    let searcher = searcher_of(&schema, &[&prepared], &[]);

    let query = AnyQuery::Boost(BoostQuery::new(
        AnyQuery::PhrasePrefix(PhrasePrefixQuery::new(vec![Term::from_field_text(
            field, "rus",
        )])),
        2.5f32.to_bits(),
    ));
    let mut evaluator = query.single_document_evaluator(
        SingleDocumentEvaluationContext::with_scoring(&schema, &searcher),
    )?;
    let Some(actual_score) = matched(evaluator.evaluate(&prepared)?) else {
        panic!("prefix-only phrase prefix query should match");
    };
    assert_eq!(actual_score, 2.5);
    Ok(())
}

#[test]
fn term_score_without_fieldnorms_matches_segment_scorer() -> TestResult {
    let mut schema_builder = Schema::builder();
    let field = schema_builder.add_field(
        "body",
        text_type(IndexRecordOption::WithFreqsAndPositions, false, "default"),
    );
    let schema = schema_builder.build();
    let term = Term::from_field_text(field, "rust");
    let query = TermQuery::new(term.clone(), IndexRecordOption::WithFreqs);
    let statistics = TestStatistics {
        total_docs: 10,
        total_tokens: 40,
        doc_freqs: HashMap::from([(term.clone(), 4)]),
    };
    // "rust rust other", counted as one token long
    let expected_score = bm25(idf(4, 10), 2, 1, 4.0);

    let mut document = TestDocument::default();
    document.term_freqs.insert(term, 2);
    let mut evaluator = query.single_document_evaluator(
        SingleDocumentEvaluationContext::with_scoring(&schema, &statistics),
    )?;
    let Some(actual_score) = matched(evaluator.evaluate(&document)?) else {
        panic!("document should match");
    };
    assert!((actual_score - expected_score).abs() <= 1e-6);
    Ok(())
}

#[test]
fn malformed_single_document_term_data_returns_an_error() -> TestResult {
    let (schema, field) = text_schema();
    let term_a = Term::from_field_text(field, "a");
    let term_b = Term::from_field_text(field, "b");

    let term_query = TermQuery::new(term_a.clone(), IndexRecordOption::WithFreqs);
    let mut term_evaluator = term_query
        .single_document_evaluator(SingleDocumentEvaluationContext::without_scoring(&schema))?;
    let mut zero_frequency_document = TestDocument::default();
    zero_frequency_document.term_freqs.insert(term_a.clone(), 0);
    let error = term_evaluator
        .evaluate(&zero_frequency_document)
        .unwrap_err();
    let TantivyError::InvalidArgument(message) = error else {
        panic!("unexpected error: {error:?}");
    };
    assert!(message.contains("zero term frequency"));

    let phrase_query = PhraseQuery::new(vec![term_a.clone(), term_b.clone()]);
    let mut phrase_evaluator = phrase_query
        .single_document_evaluator(SingleDocumentEvaluationContext::without_scoring(&schema))?;

    let mut missing_positions_document = TestDocument::default();
    missing_positions_document
        .term_freqs
        .insert(term_a.clone(), 1);
    missing_positions_document
        .term_freqs
        .insert(term_b.clone(), 1);
    missing_positions_document
        .positions
        .insert(term_b.clone(), vec![1]);
    let error = phrase_evaluator
        .evaluate(&missing_positions_document)
        .unwrap_err();
    let TantivyError::InvalidArgument(message) = error else {
        panic!("unexpected error: {error:?}");
    };
    assert!(message.contains("did not supply positions"));

    let mut wrong_position_count_document = TestDocument::default();
    wrong_position_count_document
        .term_freqs
        .insert(term_a.clone(), 2);
    wrong_position_count_document
        .positions
        .insert(term_a.clone(), vec![0]);
    wrong_position_count_document
        .term_freqs
        .insert(term_b.clone(), 1);
    wrong_position_count_document
        .positions
        .insert(term_b.clone(), vec![1]);
    let error = phrase_evaluator
        .evaluate(&wrong_position_count_document)
        .unwrap_err();
    let TantivyError::InvalidArgument(message) = error else {
        panic!("unexpected error: {error:?}");
    };
    assert!(message.contains("1 positions for term frequency 2"));

    let mut unsorted_positions_document = TestDocument::default();
    unsorted_positions_document
        .term_freqs
        .insert(term_a.clone(), 2);
    unsorted_positions_document
        .positions
        .insert(term_a, vec![2, 0]);
    unsorted_positions_document
        .term_freqs
        .insert(term_b.clone(), 1);
    unsorted_positions_document
        .positions
        .insert(term_b, vec![1]);
    let error = phrase_evaluator
        .evaluate(&unsorted_positions_document)
        .unwrap_err();
    let TantivyError::InvalidArgument(message) = error else {
        panic!("unexpected error: {error:?}");
    };
    assert!(message.contains("positions are not sorted"));
    Ok(())
}

#[test]
fn scoring_requires_fieldnorms_for_term_and_phrase_queries() -> TestResult {
    let (schema, field) = text_schema();
    let term_a = Term::from_field_text(field, "a");
    let term_b = Term::from_field_text(field, "b");
    let statistics = TestStatistics {
        total_docs: 10,
        total_tokens: 30,
        doc_freqs: HashMap::from([(term_a.clone(), 5), (term_b.clone(), 4)]),
    };

    let term_query = TermQuery::new(term_a.clone(), IndexRecordOption::WithFreqs);
    let mut term_evaluator = term_query.single_document_evaluator(
        SingleDocumentEvaluationContext::with_scoring(&schema, &statistics),
    )?;
    let mut term_document = TestDocument::default();
    term_document.term_freqs.insert(term_a.clone(), 1);
    let error = term_evaluator.evaluate(&term_document).unwrap_err();
    let TantivyError::InvalidArgument(message) = error else {
        panic!("unexpected error: {error:?}");
    };
    assert!(message.contains("did not supply a fieldnorm"));

    let phrase_query = PhraseQuery::new(vec![term_a.clone(), term_b.clone()]);
    let mut phrase_evaluator = phrase_query.single_document_evaluator(
        SingleDocumentEvaluationContext::with_scoring(&schema, &statistics),
    )?;
    let mut phrase_document = TestDocument::default();
    phrase_document.term_freqs.insert(term_a.clone(), 1);
    phrase_document.positions.insert(term_a, vec![0]);
    phrase_document.term_freqs.insert(term_b.clone(), 1);
    phrase_document.positions.insert(term_b, vec![1]);
    let error = phrase_evaluator.evaluate(&phrase_document).unwrap_err();
    let TantivyError::InvalidArgument(message) = error else {
        panic!("unexpected error: {error:?}");
    };
    assert!(message.contains("did not supply a fieldnorm"));
    Ok(())
}

fn term_clause(occur: Occur, term: &Term, option: IndexRecordOption) -> (Occur, AnyQuery) {
    (occur, AnyQuery::Term(TermQuery::new(term.clone(), option)))
}

#[test]
fn single_document_flat_or_score_matches_segment_scorer() -> TestResult {
    let (schema, field) = text_schema();
    let rust_term = Term::from_field_text(field, "rust");
    let cloud_term = Term::from_field_text(field, "cloud");
    let query = BooleanQuery::new(vec![
        term_clause(Occur::Should, &rust_term, IndexRecordOption::WithFreqs),
        term_clause(Occur::Should, &rust_term, IndexRecordOption::WithFreqs),
        term_clause(Occur::Should, &cloud_term, IndexRecordOption::WithFreqs),
    ]);
    let statistics = TestStatistics {
        total_docs: 10,
        total_tokens: 40,
        doc_freqs: HashMap::from([(rust_term.clone(), 4), (cloud_term, 2)]),
    };
    // "rust rust other"
    let expected_score = 2.0 * bm25(idf(4, 10), 2, 3, 4.0);

    let mut document = TestDocument::default();
    document.term_freqs.insert(rust_term, 2);
    document
        .fieldnorms
        .insert(field, FieldNormReader::fieldnorm_to_id(3));
    let mut evaluator = query.single_document_evaluator(
        SingleDocumentEvaluationContext::with_scoring(&schema, &statistics),
    )?;
    let Some(actual_score) = matched(evaluator.evaluate(&document)?) else {
        panic!("document should match");
    };
    assert!((actual_score - expected_score).abs() <= 1e-6);
    Ok(())
}

#[test]
fn single_document_must_should_score_matches_segment_scorer() -> TestResult {
    let (schema, field) = text_schema();
    let required = Term::from_field_text(field, "required");
    let optional = Term::from_field_text(field, "optional");
    let query = BooleanQuery::new(vec![
        term_clause(Occur::Must, &required, IndexRecordOption::WithFreqs),
        term_clause(Occur::Should, &optional, IndexRecordOption::WithFreqs),
    ]);
    let statistics = TestStatistics {
        total_docs: 10,
        total_tokens: 40,
        doc_freqs: HashMap::from([(required.clone(), 4), (optional.clone(), 2)]),
    };
    // "required required optional"
    let expected_score = bm25(idf(4, 10), 2, 3, 4.0) + bm25(idf(2, 10), 1, 3, 4.0);

    let mut document = TestDocument::default();
    document.term_freqs.insert(required, 2);
    document.term_freqs.insert(optional, 1);
    document
        .fieldnorms
        .insert(field, FieldNormReader::fieldnorm_to_id(3));
    let mut evaluator = query.single_document_evaluator(
        SingleDocumentEvaluationContext::with_scoring(&schema, &statistics),
    )?;
    let Some(actual_score) = matched(evaluator.evaluate(&document)?) else {
        panic!("document should match");
    };
    assert!((actual_score - expected_score).abs() <= 1e-6);
    Ok(())
}

#[test]
fn boolean_single_document_match_semantics() -> TestResult {
    let (schema, field) = text_schema();
    let required = Term::from_field_text(field, "required");
    let optional = Term::from_field_text(field, "optional");
    let excluded = Term::from_field_text(field, "excluded");
    let query = BooleanQuery::new(vec![
        term_clause(Occur::Must, &required, IndexRecordOption::Basic),
        term_clause(Occur::Should, &optional, IndexRecordOption::Basic),
        term_clause(Occur::MustNot, &excluded, IndexRecordOption::Basic),
    ]);
    let mut evaluator = query
        .single_document_evaluator(SingleDocumentEvaluationContext::without_scoring(&schema))?;

    let mut document = TestDocument::default();
    assert_eq!(evaluator.evaluate(&document)?, DocumentEvaluation::NoMatch);
    document.term_freqs.insert(required, 1);
    assert_eq!(matched(evaluator.evaluate(&document)?), Some(1.0));
    document.term_freqs.insert(excluded, 1);
    assert_eq!(evaluator.evaluate(&document)?, DocumentEvaluation::NoMatch);
    Ok(())
}

#[test]
fn boolean_with_only_must_not_matches_no_documents() -> TestResult {
    let (schema, field) = text_schema();
    let excluded = Term::from_field_text(field, "excluded");
    let query = BooleanQuery::new(vec![term_clause(
        Occur::MustNot,
        &excluded,
        IndexRecordOption::Basic,
    )]);
    let statistics = TestStatistics {
        total_docs: 1,
        total_tokens: 1,
        doc_freqs: HashMap::from([(excluded.clone(), 1)]),
    };

    let evaluators = [
        query
            .single_document_evaluator(SingleDocumentEvaluationContext::without_scoring(&schema))?,
        query.single_document_evaluator(SingleDocumentEvaluationContext::with_scoring(
            &schema,
            &statistics,
        ))?,
    ];
    for mut evaluator in evaluators {
        assert_eq!(
            evaluator.evaluate(&TestDocument::default())?,
            DocumentEvaluation::NoMatch
        );

        let mut excluded_document = TestDocument::default();
        excluded_document.term_freqs.insert(excluded.clone(), 1);
        assert_eq!(
            evaluator.evaluate(&excluded_document)?,
            DocumentEvaluation::NoMatch
        );
    }
    Ok(())
}

#[test]
fn boolean_must_not_does_not_require_scoring_data() -> TestResult {
    let (schema, field) = text_schema();
    let excluded = Term::from_field_text(field, "excluded");
    let query = BooleanQuery::new(vec![
        (Occur::Must, AnyQuery::All(AllQuery {})),
        term_clause(Occur::MustNot, &excluded, IndexRecordOption::WithFreqs),
    ]);
    let statistics = TestStatistics {
        total_docs: 10,
        total_tokens: 20,
        doc_freqs: HashMap::from([(excluded.clone(), 2)]),
    };
    let mut evaluator = query.single_document_evaluator(
        SingleDocumentEvaluationContext::with_scoring(&schema, &statistics),
    )?;
    let mut document = TestDocument::default();
    document.term_freqs.insert(excluded, 1);

    assert_eq!(evaluator.evaluate(&document)?, DocumentEvaluation::NoMatch);
    Ok(())
}

#[test]
fn boolean_must_not_score_matches_segment_scorer() -> TestResult {
    let (schema, field) = text_schema();
    let required = Term::from_field_text(field, "required");
    let excluded = Term::from_field_text(field, "excluded");
    let query = BooleanQuery::new(vec![
        term_clause(Occur::Must, &required, IndexRecordOption::WithFreqs),
        term_clause(Occur::MustNot, &excluded, IndexRecordOption::WithFreqs),
    ]);
    let statistics = TestStatistics {
        total_docs: 10,
        total_tokens: 30,
        doc_freqs: HashMap::from([(required.clone(), 4), (excluded, 2)]),
    };
    // "required required"
    let expected_score = bm25(idf(4, 10), 2, 2, 3.0);

    let mut document = TestDocument::default();
    document.term_freqs.insert(required, 2);
    document
        .fieldnorms
        .insert(field, FieldNormReader::fieldnorm_to_id(2));
    let mut evaluator = query.single_document_evaluator(
        SingleDocumentEvaluationContext::with_scoring(&schema, &statistics),
    )?;
    let Some(actual_score) = matched(evaluator.evaluate(&document)?) else {
        panic!("document should match");
    };
    assert!((actual_score - expected_score).abs() <= 1e-6);
    Ok(())
}

#[test]
fn boolean_without_scoring_skips_should_when_must_exists() -> TestResult {
    let (schema, field) = text_schema();
    let regex = RegexQuery::from_pattern("ru.*", field);
    let query = BooleanQuery::new(vec![
        (Occur::Must, AnyQuery::All(AllQuery {})),
        (Occur::Should, AnyQuery::Regex(regex)),
    ]);
    let mut evaluator = query
        .single_document_evaluator(SingleDocumentEvaluationContext::without_scoring(&schema))?;
    assert_eq!(evaluator.required_fields(), Some([].as_slice()));

    assert_eq!(
        matched(evaluator.evaluate(&TestDocument::default())?),
        Some(1.0)
    );
    Ok(())
}

#[test]
fn boolean_without_scoring_short_circuits_matching_should() -> TestResult {
    let (schema, field) = text_schema();
    let term_a = Term::from_field_text(field, "a");
    let term_b = Term::from_field_text(field, "b");
    let query = BooleanQuery::new(vec![
        (Occur::Should, AnyQuery::All(AllQuery {})),
        (
            Occur::Should,
            AnyQuery::Phrase(PhraseQuery::new(vec![term_a.clone(), term_b.clone()])),
        ),
    ]);
    let mut evaluator = query
        .single_document_evaluator(SingleDocumentEvaluationContext::without_scoring(&schema))?;
    let mut document = TestDocument::default();
    document.term_freqs.insert(term_a, 1);
    document.term_freqs.insert(term_b, 1);

    assert_eq!(matched(evaluator.evaluate(&document)?), Some(1.0));
    Ok(())
}

#[test]
fn wrapper_scores_match_current_segment_scorer_semantics() -> TestResult {
    let (schema, _field) = text_schema();
    let statistics = TestStatistics {
        total_docs: 1,
        total_tokens: 1,
        doc_freqs: HashMap::new(),
    };

    let queries = vec![
        (
            BoostQuery::new(
                AnyQuery::Boolean(BooleanQuery::new(vec![
                    (Occur::Should, AnyQuery::All(AllQuery {})),
                    (Occur::Should, AnyQuery::All(AllQuery {})),
                ])),
                (-2.0f32).to_bits(),
            ),
            -4.0,
        ),
        (
            BoostQuery::new(
                AnyQuery::ConstScore(ConstScoreQuery::new(
                    AnyQuery::All(AllQuery {}),
                    3.0f32.to_bits(),
                )),
                (-2.0f32).to_bits(),
            ),
            -6.0,
        ),
    ];

    for (query, expected_score) in queries {
        let mut evaluator = AnyQuery::Boost(query).single_document_evaluator(
            SingleDocumentEvaluationContext::with_scoring(&schema, &statistics),
        )?;
        assert_eq!(
            matched(evaluator.evaluate(&TestDocument::default())?),
            Some(expected_score)
        );
    }
    Ok(())
}

#[test]
fn boosted_term_score_matches_segment_scorer() -> TestResult {
    let (schema, field) = text_schema();
    let term = Term::from_field_text(field, "rust");
    let query = AnyQuery::Boost(BoostQuery::new(
        AnyQuery::Term(TermQuery::new(term.clone(), IndexRecordOption::WithFreqs)),
        2.5f32.to_bits(),
    ));
    let statistics = TestStatistics {
        total_docs: 10,
        total_tokens: 40,
        doc_freqs: HashMap::from([(term.clone(), 4)]),
    };
    // "rust rust other"
    let expected_score = 2.5 * bm25(idf(4, 10), 2, 3, 4.0);

    let mut document = TestDocument::default();
    document.term_freqs.insert(term, 2);
    document
        .fieldnorms
        .insert(field, FieldNormReader::fieldnorm_to_id(3));
    let mut evaluator = query.single_document_evaluator(
        SingleDocumentEvaluationContext::with_scoring(&schema, &statistics),
    )?;
    let Some(actual_score) = matched(evaluator.evaluate(&document)?) else {
        panic!("document should match");
    };
    assert!((actual_score - expected_score).abs() <= 1e-6);
    Ok(())
}

#[test]
fn const_score_preserves_subquery_no_match() -> TestResult {
    let (schema, field) = text_schema();
    let term = Term::from_field_text(field, "rust");
    let query = AnyQuery::ConstScore(ConstScoreQuery::new(
        AnyQuery::Term(TermQuery::new(term, IndexRecordOption::Basic)),
        3.0f32.to_bits(),
    ));
    let mut evaluator = query
        .single_document_evaluator(SingleDocumentEvaluationContext::without_scoring(&schema))?;

    assert_eq!(
        evaluator.evaluate(&TestDocument::default())?,
        DocumentEvaluation::NoMatch
    );
    Ok(())
}

#[test]
fn single_document_evaluator_validates_schema_requirements() {
    let mut stored_schema_builder = Schema::builder();
    let stored_field = stored_schema_builder.add_field(
        "stored_body",
        FieldType {
            value_type: Type::Str,
            record_option: None,
            fieldnorms: false,
            tokenizer: None,
        },
    );
    let stored_schema = stored_schema_builder.build();
    let term_query = TermQuery::new(
        Term::from_field_text(stored_field, "rust"),
        IndexRecordOption::Basic,
    );
    let error = term_query
        .single_document_evaluator(SingleDocumentEvaluationContext::without_scoring(
            &stored_schema,
        ))
        .err()
        .unwrap();
    let TantivyError::SchemaError(message) = error else {
        panic!("unexpected error: {error:?}");
    };
    assert!(message.contains("is not indexed"));

    let mut no_positions_schema_builder = Schema::builder();
    let no_positions_field = no_positions_schema_builder.add_field(
        "body",
        text_type(IndexRecordOption::WithFreqs, true, "default"),
    );
    let no_positions_schema = no_positions_schema_builder.build();
    let phrase_query = PhraseQuery::new(vec![
        Term::from_field_text(no_positions_field, "a"),
        Term::from_field_text(no_positions_field, "b"),
    ]);
    let error = phrase_query
        .single_document_evaluator(SingleDocumentEvaluationContext::without_scoring(
            &no_positions_schema,
        ))
        .err()
        .unwrap();
    let TantivyError::SchemaError(message) = error else {
        panic!("unexpected error: {error:?}");
    };
    assert!(message.contains("does not have positions indexed"));
}

#[test]
fn term_set_is_unsupported() {
    let mut schema_builder = Schema::builder();
    let title = schema_builder.add_field("title", text());
    let schema = schema_builder.build();
    let query = TermSetQuery::new(vec![Term::from_field_text(title, "rust")]);

    let error = query
        .single_document_evaluator(SingleDocumentEvaluationContext::without_scoring(&schema))
        .err()
        .unwrap();
    let TantivyError::UnsupportedQueryForSingleDocumentEvaluation(query_type) = error else {
        panic!("unexpected error: {error:?}");
    };
    assert!(query_type.ends_with("TermSetQuery"));
}

#[test]
fn non_string_json_phrase_term_is_unsupported() {
    let mut schema_builder = Schema::builder();
    let json_field = schema_builder.add_field("json", json());
    let schema = schema_builder.build();

    let string_term = json_text_term(json_field, "value", "one");
    let numeric_term = json_term(json_field, "value", Type::U64, &2u64.to_be_bytes());

    let query = PhraseQuery::new(vec![string_term, numeric_term]);
    let error = query
        .single_document_evaluator(SingleDocumentEvaluationContext::without_scoring(&schema))
        .err()
        .unwrap();
    let TantivyError::UnsupportedQueryForSingleDocumentEvaluation(message) = error else {
        panic!("unexpected error: {error:?}");
    };
    assert!(message.contains("does not have position postings"));
}

#[test]
fn string_json_phrase_matches_without_scoring() -> TestResult {
    let mut schema_builder = Schema::builder();
    let json_field = schema_builder.add_field("json", json());
    let schema = schema_builder.build();

    let term_a = json_text_term(json_field, "value", "a");
    let term_b = json_text_term(json_field, "value", "b");

    let query = PhraseQuery::new(vec![term_a.clone(), term_b.clone()]);
    let mut evaluator = query
        .single_document_evaluator(SingleDocumentEvaluationContext::without_scoring(&schema))?;
    let mut document = TestDocument::default();
    document.term_freqs.insert(term_a.clone(), 1);
    document.positions.insert(term_a, vec![0]);
    document.term_freqs.insert(term_b.clone(), 1);
    document.positions.insert(term_b, vec![1]);

    assert_eq!(matched(evaluator.evaluate(&document)?), Some(1.0));
    Ok(())
}

#[test]
fn phrase_without_scoring_is_reusable_for_match_and_no_match() -> TestResult {
    let (schema, field) = text_schema();
    let term_a = Term::from_field_text(field, "a");
    let term_b = Term::from_field_text(field, "b");
    let query = PhraseQuery::new(vec![term_a.clone(), term_b.clone()]);
    let mut evaluator = query
        .single_document_evaluator(SingleDocumentEvaluationContext::without_scoring(&schema))?;

    let mut matching_document = TestDocument::default();
    matching_document.term_freqs.insert(term_a.clone(), 2);
    matching_document
        .positions
        .insert(term_a.clone(), vec![0, 10]);
    matching_document.term_freqs.insert(term_b.clone(), 2);
    matching_document
        .positions
        .insert(term_b.clone(), vec![1, 11]);
    assert_eq!(matched(evaluator.evaluate(&matching_document)?), Some(1.0));

    let mut non_matching_document = TestDocument::default();
    non_matching_document.term_freqs.insert(term_a.clone(), 1);
    non_matching_document
        .positions
        .insert(term_a.clone(), vec![0]);
    non_matching_document.term_freqs.insert(term_b.clone(), 1);
    non_matching_document
        .positions
        .insert(term_b.clone(), vec![2]);
    assert_eq!(
        evaluator.evaluate(&non_matching_document)?,
        DocumentEvaluation::NoMatch
    );
    assert_eq!(matched(evaluator.evaluate(&matching_document)?), Some(1.0));
    Ok(())
}

#[test]
fn phrase_with_explicit_offsets_matches_expected_positions() -> TestResult {
    let (schema, field) = text_schema();
    let term_a = Term::from_field_text(field, "a");
    let term_b = Term::from_field_text(field, "b");
    let query = PhraseQuery::new_with_offset(vec![(0, term_a.clone()), (2, term_b.clone())]);
    let mut evaluator = query
        .single_document_evaluator(SingleDocumentEvaluationContext::without_scoring(&schema))?;

    let mut document = TestDocument::default();
    document.term_freqs.insert(term_a.clone(), 1);
    document.positions.insert(term_a, vec![0]);
    document.term_freqs.insert(term_b.clone(), 1);
    document.positions.insert(term_b.clone(), vec![2]);
    assert_eq!(matched(evaluator.evaluate(&document)?), Some(1.0));

    document.positions.insert(term_b, vec![1]);
    assert_eq!(evaluator.evaluate(&document)?, DocumentEvaluation::NoMatch);
    Ok(())
}

#[test]
fn single_document_phrase_score_matches_segment_scorer() -> TestResult {
    let (schema, field) = text_schema();
    let term_a = Term::from_field_text(field, "a");
    let term_b = Term::from_field_text(field, "b");
    let query = PhraseQuery::new(vec![term_a.clone(), term_b.clone()]);
    let statistics = TestStatistics {
        total_docs: 10,
        total_tokens: 50,
        doc_freqs: HashMap::from([(term_a.clone(), 5), (term_b.clone(), 4)]),
    };
    // "a x b a b"
    let expected_score = bm25(idf(5, 10) + idf(4, 10), 1, 5, 5.0);

    let mut document = TestDocument::default();
    document.term_freqs.insert(term_a.clone(), 2);
    document.positions.insert(term_a, vec![0, 3]);
    document.term_freqs.insert(term_b.clone(), 2);
    document.positions.insert(term_b, vec![2, 4]);
    document
        .fieldnorms
        .insert(field, FieldNormReader::fieldnorm_to_id(5));
    let mut evaluator = query.single_document_evaluator(
        SingleDocumentEvaluationContext::with_scoring(&schema, &statistics),
    )?;
    let Some(actual_score) = matched(evaluator.evaluate(&document)?) else {
        panic!("document should match the phrase");
    };
    assert!((actual_score - expected_score).abs() <= 1e-6);
    Ok(())
}

#[test]
fn unsupported_query_includes_query_path() {
    let (schema, field) = text_schema();
    let regex = RegexQuery::from_pattern("ru.*", field);
    let query = BooleanQuery::new(vec![(Occur::Should, AnyQuery::Regex(regex))]);
    let error = query
        .single_document_evaluator(SingleDocumentEvaluationContext::without_scoring(&schema))
        .err()
        .unwrap();
    let TantivyError::UnsupportedQueryForSingleDocumentEvaluation(path) = error else {
        panic!("unexpected error: {error:?}");
    };
    assert!(path.contains("BooleanQuery.Should[0]"));
    assert!(path.contains("RegexQuery"));
}

#[test]
fn prepared_document_matches_text_indexing_semantics() -> TestResult {
    let (schema, field) = text_schema();
    let mut document = Document::new();
    add_text(&mut document, field, "Rust rust");
    add_text(&mut document, field, "search");

    let mut preparer = default_preparer(&schema, &[field]);
    let prepared = preparer.prepare(&document)?;
    let rust_term = Term::from_field_text(field, "rust");
    let search_term = Term::from_field_text(field, "search");
    let rust_info = prepared.term_info(&rust_term).unwrap();
    assert_eq!(rust_info.term_freq, 2);
    assert_eq!(rust_info.positions, Some([0, 1].as_slice()));
    let search_info = prepared.term_info(&search_term).unwrap();
    assert_eq!(search_info.positions, Some([3].as_slice()));
    assert_eq!(
        prepared.fieldnorm_id(field),
        Some(FieldNormReader::fieldnorm_to_id(3))
    );
    assert_eq!(prepared.total_num_tokens(field), 3);

    let phrase = PhraseQuery::new(vec![rust_term.clone(), search_term]);
    let mut phrase_evaluator = phrase
        .single_document_evaluator(SingleDocumentEvaluationContext::without_scoring(&schema))?;
    assert_eq!(
        phrase_evaluator.evaluate(&prepared)?,
        DocumentEvaluation::NoMatch
    );

    let query = TermQuery::new(rust_term.clone(), IndexRecordOption::WithFreqs);
    let searcher = searcher_of(&schema, &[&prepared], &[rust_term]);
    let expected_score = bm25(idf(1, 1), 2, 3, 3.0);
    let mut evaluator = query.single_document_evaluator(
        SingleDocumentEvaluationContext::with_scoring(&schema, &searcher),
    )?;
    let Some(actual_score) = matched(evaluator.evaluate(&prepared)?) else {
        panic!("prepared document should match");
    };
    assert!((actual_score - expected_score).abs() <= 1e-6);
    Ok(())
}

#[test]
fn prepared_document_visit_terms_honors_range() -> TestResult {
    let (schema, field) = text_schema();
    let mut preparer = default_preparer(&schema, &[field]);
    let prepared = preparer.prepare(&text_document(field, "aa ab ac ba"))?;
    let lower = Term::from_field_text(field, "ab");
    let upper = Term::from_field_text(field, "ba");
    let visited: Vec<Term> = prepared
        .visit_terms(
            field,
            TermBound::Excluded(&lower),
            TermBound::Included(&upper),
        )
        .iter()
        .map(|visited| visited.term.clone())
        .collect();
    assert_eq!(
        visited,
        vec![
            Term::from_field_text(field, "ac"),
            Term::from_field_text(field, "ba")
        ]
    );
    Ok(())
}

#[test]
fn evaluator_evaluates_a_prepared_regular_document() -> TestResult {
    let (schema, field) = text_schema();
    let document = text_document(field, "Rust search");
    let query = TermQuery::new(
        Term::from_field_text(field, "rust"),
        IndexRecordOption::Basic,
    );
    let mut evaluator = query
        .single_document_evaluator(SingleDocumentEvaluationContext::without_scoring(&schema))?;
    let mut preparer =
        SingleDocumentPreparer::for_fields(&schema, &TokenizerManager::default(), &[field])?;
    let prepared = preparer.prepare(&document)?;

    assert_eq!(matched(evaluator.evaluate(&prepared)?), Some(1.0));
    Ok(())
}

#[test]
fn prepared_document_preserves_pre_tokenized_positions() -> TestResult {
    let (schema, field) = text_schema();
    let tokens = vec![
        Token {
            position: 4,
            text: "first".to_string(),
            position_length: 1,
        },
        Token {
            position: 7,
            text: "second".to_string(),
            position_length: 1,
        },
    ];
    let mut document = Document::new();
    document.add_field_value(field, Value::Text(tokens));

    let mut preparer = preparer_for_fields(&schema, &TokenizerManager::default(), &[field])?;
    let prepared = preparer.prepare(&document)?;
    let first = prepared
        .term_info(&Term::from_field_text(field, "first"))
        .unwrap();
    let second = prepared
        .term_info(&Term::from_field_text(field, "second"))
        .unwrap();
    assert_eq!(first.positions, Some([4].as_slice()));
    assert_eq!(second.positions, Some([7].as_slice()));
    assert_eq!(
        prepared.fieldnorm_id(field),
        Some(FieldNormReader::fieldnorm_to_id(2))
    );
    Ok(())
}

#[test]
fn prepared_document_uses_the_supplied_tokenizer_manager() -> TestResult {
    let mut schema_builder = Schema::builder();
    let field = schema_builder.add_field(
        "body",
        text_type(
            IndexRecordOption::WithFreqsAndPositions,
            true,
            "case_sensitive_whitespace",
        ),
    );
    let schema = schema_builder.build();
    let mut tokenizer_manager = TokenizerManager::new();
    tokenizer_manager.register("case_sensitive_whitespace");
    let mut document = Document::new();
    document.add_field_value(
        field,
        Value::Text(tokens_of(
            "Rust Search".split(' ').map(str::to_string).collect(),
        )),
    );

    let mut preparer = preparer_for_fields(&schema, &tokenizer_manager, &[field])?;
    let prepared = preparer.prepare(&document)?;
    assert!(prepared
        .term_info(&Term::from_field_text(field, "Rust"))
        .is_some());
    assert!(prepared
        .term_info(&Term::from_field_text(field, "rust"))
        .is_none());

    let error = preparer_for_fields(&schema, &TokenizerManager::default(), &[field])
        .err()
        .unwrap();
    assert!(matches!(error, TantivyError::SchemaError(_)));
    Ok(())
}

#[test]
fn single_document_preparer_normalizes_and_validates_fields() -> TestResult {
    let mut schema_builder = Schema::builder();
    let title = schema_builder.add_field("title", text());
    let body = schema_builder.add_field("body", text());
    let schema = schema_builder.build();
    let tokenizer_manager = TokenizerManager::default();

    let mut preparer =
        SingleDocumentPreparer::for_fields(&schema, &tokenizer_manager, &[body, title, body])?;
    assert_eq!(preparer.required_fields(), [title, body].as_slice());
    let mut document = text_document(title, "Rust");
    add_text(&mut document, body, "Search");
    let prepared = preparer.prepare(&document)?;
    assert!(prepared
        .term_info(&Term::from_field_text(title, "rust"))
        .is_some());
    assert!(prepared
        .term_info(&Term::from_field_text(body, "search"))
        .is_some());

    let unknown_field = Field::from_field_id(schema.num_fields() as u32);
    let error = SingleDocumentPreparer::for_fields(&schema, &tokenizer_manager, &[unknown_field])
        .err()
        .unwrap();
    assert!(matches!(error, TantivyError::SchemaError(_)));
    Ok(())
}

#[test]
fn prepared_document_encodes_numeric_and_json_terms() -> TestResult {
    let mut schema_builder = Schema::builder();
    let number_field = schema_builder.add_field("number", number());
    let json_field = schema_builder.add_field("json", json());
    let schema = schema_builder.build();
    let mut document = Document::new();
    document.add_field_value(number_field, u64_value(7));
    document.add_field_value(
        json_field,
        Value::Json(vec![
            JsonLeaf {
                path: "title".to_string(),
                value: LeafValue::Text(tokenized("Rust search")),
            },
            JsonLeaf {
                path: "count".to_string(),
                value: LeafValue::Exact(Type::I64, i64_bytes(2).to_vec()),
            },
        ]),
    );

    let mut preparer = default_preparer(&schema, &[number_field, json_field]);
    let prepared = preparer.prepare(&document)?;
    assert_eq!(prepared.total_num_tokens(number_field), 1);
    assert_eq!(prepared.total_num_tokens(json_field), 3);
    assert_eq!(
        prepared
            .term_info(&Term::from_field_u64(number_field, 7u64))
            .unwrap()
            .term_freq,
        1
    );

    let json_rust_term = json_text_term(json_field, "title", "rust");
    assert_eq!(
        prepared.term_info(&json_rust_term).unwrap().positions,
        Some([0].as_slice())
    );

    let json_number_term = json_term(json_field, "count", Type::I64, &i64_bytes(2));
    assert_eq!(prepared.term_info(&json_number_term).unwrap().term_freq, 1);
    Ok(())
}

#[test]
fn single_document_preparer_can_be_reused() -> TestResult {
    let (schema, field) = text_schema();
    let mut preparer = default_preparer(&schema, &[field]);
    let first_prepared = preparer.prepare(&text_document(field, "rust rust"))?;
    let second_prepared = preparer.prepare(&text_document(field, "search"))?;

    let rust = Term::from_field_text(field, "rust");
    let search = Term::from_field_text(field, "search");
    assert_eq!(first_prepared.term_info(&rust).unwrap().term_freq, 2);
    assert!(first_prepared.term_info(&search).is_none());
    assert!(second_prepared.term_info(&rust).is_none());
    assert_eq!(
        second_prepared.term_info(&search).unwrap().positions,
        Some([0].as_slice())
    );
    assert_eq!(first_prepared.total_num_tokens(field), 2);
    assert_eq!(second_prepared.total_num_tokens(field), 1);
    Ok(())
}

#[test]
fn single_document_preparer_only_indexes_configured_fields() -> TestResult {
    let mut schema_builder = Schema::builder();
    let queried_field = schema_builder.add_field("queried", text());
    let ignored_field = schema_builder.add_field(
        "ignored",
        text_type(
            IndexRecordOption::WithFreqsAndPositions,
            true,
            "missing_tokenizer",
        ),
    );
    let schema = schema_builder.build();
    let tokenizer_manager = TokenizerManager::default();
    let query = TermQuery::new(
        Term::from_field_text(queried_field, "rust"),
        IndexRecordOption::Basic,
    );
    let mut evaluator = query
        .single_document_evaluator(SingleDocumentEvaluationContext::without_scoring(&schema))?;
    assert_eq!(
        evaluator.required_fields(),
        Some([queried_field].as_slice())
    );
    let mut preparer =
        SingleDocumentPreparer::for_fields(&schema, &tokenizer_manager, &[queried_field])?;
    let mut document = text_document(queried_field, "Rust search");
    add_text(&mut document, ignored_field, "ignored text");

    let prepared = preparer.prepare(&document)?;
    assert_eq!(matched(evaluator.evaluate(&prepared)?), Some(1.0));
    assert_eq!(prepared.total_num_tokens(queried_field), 2);
    assert_eq!(prepared.total_num_tokens(ignored_field), 0);
    assert!(prepared
        .term_info(&Term::from_field_text(ignored_field, "ignored"))
        .is_none());

    Ok(())
}

#[test]
fn query_aware_preparer_checks_presence_and_skips_top_level_null() -> TestResult {
    let mut schema_builder = Schema::builder();
    let number_field = schema_builder.add_field("number", number());
    let schema = schema_builder.build();
    let query = TermQuery::new(
        Term::from_field_u64(number_field, 42),
        IndexRecordOption::Basic,
    );
    let mut evaluator = query
        .single_document_evaluator(SingleDocumentEvaluationContext::without_scoring(&schema))?;
    let mut preparer =
        SingleDocumentPreparer::for_fields(&schema, &TokenizerManager::default(), &[number_field])?;

    let missing_error = preparer.prepare(&Document::new()).err().unwrap();
    assert!(matches!(
        missing_error,
        TantivyError::InvalidArgument(message)
            if message.contains("explicitly supplied") && message.contains("number")
    ));

    let mut duplicate = Document::new();
    duplicate.add_field_value(number_field, u64_value(42));
    duplicate.add_field_value(number_field, u64_value(42));
    let prepared_duplicate = preparer.prepare(&duplicate)?;
    assert_eq!(matched(evaluator.evaluate(&prepared_duplicate)?), Some(1.0));

    let mut mixed_null = Document::new();
    mixed_null.add_field_value(number_field, u64_value(42));
    mixed_null.add_field_value(number_field, Value::Null);
    let prepared_mixed_null = preparer.prepare(&mixed_null)?;
    assert_eq!(prepared_mixed_null.total_num_tokens(number_field), 1);
    assert_eq!(matched(evaluator.evaluate(&prepared_mixed_null)?), Some(1.0));

    let mut null_document = Document::new();
    null_document.add_field_value(number_field, Value::Null);
    let prepared_null = preparer.prepare(&null_document)?;
    assert_eq!(prepared_null.total_num_tokens(number_field), 0);
    assert_eq!(
        evaluator.evaluate(&prepared_null)?,
        DocumentEvaluation::NoMatch
    );

    let mut matching_document = Document::new();
    matching_document.add_field_value(number_field, u64_value(42));
    let prepared_match = preparer.prepare(&matching_document)?;
    assert_eq!(matched(evaluator.evaluate(&prepared_match)?), Some(1.0));
    Ok(())
}

#[test]
fn query_aware_prepared_document_rejects_broader_evaluator() -> TestResult {
    let mut schema_builder = Schema::builder();
    let title = schema_builder.add_field("title", text());
    let body = schema_builder.add_field("body", text());
    let schema = schema_builder.build();
    let tokenizer_manager = TokenizerManager::default();

    let title_query = TermQuery::new(
        Term::from_field_text(title, "rust"),
        IndexRecordOption::Basic,
    );
    let mut title_evaluator = title_query
        .single_document_evaluator(SingleDocumentEvaluationContext::without_scoring(&schema))?;
    let body_query = TermQuery::new(
        Term::from_field_text(body, "search"),
        IndexRecordOption::Basic,
    );
    let mut body_evaluator = body_query
        .single_document_evaluator(SingleDocumentEvaluationContext::without_scoring(&schema))?;

    let mut query_aware_preparer =
        SingleDocumentPreparer::for_fields(&schema, &tokenizer_manager, &[title])?;
    let query_aware_document = query_aware_preparer.prepare(&text_document(title, "Rust"))?;
    assert_eq!(
        matched(title_evaluator.evaluate(&query_aware_document)?),
        Some(1.0)
    );
    assert!(matches!(
        body_evaluator.evaluate(&query_aware_document),
        Err(TantivyError::InvalidArgument(message))
            if message.contains("did not prepare required field")
    ));

    struct UnknownRequirementsEvaluator;
    impl SingleDocumentEvaluator for UnknownRequirementsEvaluator {
        fn well_formed(&self) -> bool {
            unreachable!()
        }

        fn required(&self) -> Option<vstd::seq::Seq<Field>> {
            unreachable!()
        }

        fn result(&self, _document: DocumentView) -> Result<EvaluationView, ErrorView> {
            unreachable!()
        }

        fn evaluate_impl<D: SingleDocument + ?Sized>(
            &mut self,
            _document: &D,
        ) -> Result<DocumentEvaluation, TantivyError> {
            Ok(DocumentEvaluation::NoMatch)
        }

        fn required_fields(&self) -> Option<&[Field]> {
            None
        }
    }
    let mut unknown_evaluator = UnknownRequirementsEvaluator;
    assert!(matches!(
        unknown_evaluator.evaluate(&query_aware_document),
        Err(TantivyError::InvalidArgument(message))
            if message.contains("required fields are unknown")
    ));

    let mut all_evaluator = AllQuery {}
        .single_document_evaluator(SingleDocumentEvaluationContext::without_scoring(&schema))?;
    assert_eq!(
        matched(all_evaluator.evaluate(&query_aware_document)?),
        Some(1.0)
    );

    Ok(())
}

fn assert_send<T: Send>(_value: &T) {}

#[test]
fn evaluators_and_prepared_documents_can_be_moved_to_a_worker() -> TestResult {
    let (schema, field) = text_schema();
    let query = TermQuery::new(
        Term::from_field_text(field, "rust"),
        IndexRecordOption::Basic,
    );
    let evaluator = AnyQuery::Term(query)
        .single_document_evaluator(SingleDocumentEvaluationContext::without_scoring(&schema))?;
    assert_send(&evaluator);
    let fuzzy = FuzzyTermQuery::new(Term::from_field_text(field, "rust"), 1, true);
    assert_send(&fuzzy.single_document_evaluator(
        SingleDocumentEvaluationContext::without_scoring(&schema),
    )?);
    assert_send(&PreparedSingleDocument::default());
    Ok(())
}

#[test]
fn scores_do_not_change_what_matches() -> TestResult {
    let (schema, field) = text_schema();
    let mut preparer = default_preparer(&schema, &[field]);
    let term = |text| Term::from_field_text(field, text);
    let texts = ["", "red", "red fox", "fox red", "a red fox ran", "ran"];
    let documents: Vec<PreparedSingleDocument> = texts
        .iter()
        .map(|text| preparer.prepare(&text_document(field, text)).unwrap())
        .collect();
    let all: Vec<&PreparedSingleDocument> = documents.iter().collect();
    let searcher = searcher_of(&schema, &all, &[term("red"), term("fox"), term("ran")]);
    let clause = |occur, word| term_clause(occur, &term(word), IndexRecordOption::WithFreqs);
    let queries = [
        AnyQuery::Phrase(PhraseQuery::new(vec![term("red"), term("fox")])),
        AnyQuery::PhrasePrefix(PhrasePrefixQuery::new(vec![
            term("a"),
            term("red"),
            term("f"),
        ])),
        AnyQuery::Fuzzy(FuzzyTermQuery::new(term("rad"), 1, true)),
        AnyQuery::Boolean(BooleanQuery::new(vec![
            clause(Occur::Must, "red"),
            clause(Occur::Should, "ran"),
            clause(Occur::MustNot, "fox"),
        ])),
        AnyQuery::Boolean(BooleanQuery::new(vec![
            clause(Occur::Should, "ran"),
            clause(Occur::Should, "fox"),
        ])),
    ];
    for query in queries {
        let mut scored = query.single_document_evaluator(
            SingleDocumentEvaluationContext::with_scoring(&schema, &searcher),
        )?;
        let mut unscored = query
            .single_document_evaluator(SingleDocumentEvaluationContext::without_scoring(&schema))?;
        for document in &documents {
            assert_eq!(
                matched(scored.evaluate(document)?).is_some(),
                matched(unscored.evaluate(document)?).is_some()
            );
        }
    }
    Ok(())
}
