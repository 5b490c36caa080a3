use tantivy_query::document::{Document, JsonLeaf, LeafValue, Token, Value};
use tantivy_query::error::TantivyError;
use tantivy_query::fieldnorm::FieldNormReader;
use tantivy_query::fuzzy_query::FuzzyTermQuery;
use tantivy_query::prepared_document::{PreparedSingleDocument, SingleDocumentPreparer};
use tantivy_query::query::{EnableScoring, Query};
use tantivy_query::schema::{Field, FieldType, IndexRecordOption, Schema, Type};
use tantivy_query::score::{DocumentEvaluation, Score};
use tantivy_query::searcher::Searcher;
use tantivy_query::single_document::{SingleDocumentEvaluationContext, SingleDocumentEvaluator};
use tantivy_query::term::{Term, JSON_END_OF_PATH};
use tantivy_query::tokenizer::TokenizerManager;

type TestResult = Result<(), TantivyError>;

/// The number that a score stands for.
fn score_value(score: &Score) -> f32 {
    match score {
        Score::Product(boost) => product(boost.factors()),
        Score::Bm25 { weight, fieldnorm_id, term_freq } => {
            let average = weight.total_num_tokens as f32 / weight.total_num_docs as f32;
            let idfs: f32 = weight
                .doc_freqs
                .iter()
                .map(|&doc_freq| idf(doc_freq, weight.total_num_docs))
                .sum();
            let fieldnorm = FieldNormReader::id_to_fieldnorm(*fieldnorm_id);
            bm25(idfs, *term_freq, fieldnorm, average) * product(weight.boost.factors())
        }
        Score::Sum(left, right) => score_value(left) + score_value(right),
    }
}

fn product(factors: &[u32]) -> f32 {
    factors
        .iter()
        .fold(1.0f32, |total, &factor| total * f32::from_bits(factor))
}

fn idf(doc_freq: u64, doc_count: u64) -> f32 {
    let x = ((doc_count - doc_freq) as f32 + 0.5) / (doc_freq as f32 + 0.5);
    (1.0 + x).ln()
}

fn bm25(idf: f32, term_freq: u32, fieldnorm: u32, average_fieldnorm: f32) -> f32 {
    let k1 = 1.2f32;
    let b = 0.75f32;
    let norm = k1 * (1.0 - b + b * fieldnorm as f32 / average_fieldnorm);
    let term_freq = term_freq as f32;
    idf * (1.0 + k1) * term_freq / (term_freq + norm)
}

/// The number of a match, `None` where the document does not match.
fn matched(evaluation: DocumentEvaluation) -> Option<f32> {
    match evaluation {
        DocumentEvaluation::Match(score) => Some(score_value(&score)),
        DocumentEvaluation::NoMatch => None,
    }
}

fn text_type(record_option: IndexRecordOption, fieldnorms: bool, tokenizer: &str) -> FieldType {
    FieldType {
        value_type: Type::Str,
        record_option: Some(record_option),
        fieldnorms,
        tokenizer: Some(tokenizer.to_string()),
    }
}

/// Text with positions, cut by the default tokenizer.
fn text() -> FieldType {
    text_type(IndexRecordOption::WithFreqsAndPositions, true, "default")
}

fn one_token(text: &str) -> Vec<Token> {
    vec![Token {
        text: text.to_string(),
        position: 0,
        position_length: 1,
    }]
}

fn json_path_term(field: Field, path: &str, text: &str) -> Term {
    let mut term = Term::with_type_and_field(Type::Json, field);
    term.append_path(path.as_bytes());
    term.append_bytes(&[JSON_END_OF_PATH, Type::Str.to_code()]);
    term.append_bytes(text.as_bytes());
    term
}

fn prepared(schema: &Schema, field: Field, values: Vec<Value>) -> Vec<PreparedSingleDocument> {
    let mut preparer =
        SingleDocumentPreparer::for_fields(schema, &TokenizerManager::default(), &[field]).unwrap();
    values
        .into_iter()
        .map(|value| {
            let mut document = Document::new();
            document.add_field_value(field, value);
            preparer.prepare(&document).unwrap()
        })
        .collect()
}

/// The documents that match, with their scores.
fn search(
    schema: &Schema,
    documents: &[PreparedSingleDocument],
    query: &FuzzyTermQuery,
) -> Result<Vec<(f32, usize)>, TantivyError> {
    let searcher = Searcher::new(
        schema.clone(),
        Vec::new(),
        documents.len() as u64,
        Vec::new(),
        Vec::new(),
    );
    let mut evaluator = query.single_document_evaluator(
        SingleDocumentEvaluationContext::with_scoring(schema, &searcher),
    )?;
    let mut found = Vec::new();
    for (doc_id, document) in documents.iter().enumerate() {
        if let Some(score) = matched(evaluator.evaluate(document)?) {
            found.push((score, doc_id));
        }
    }
    Ok(found)
}

#[test]
pub fn test_fuzzy_json_path() -> TestResult {
    let mut schema_builder = Schema::builder();
    let attributes = schema_builder.add_field(
        "attributes",
        FieldType {
            value_type: Type::Json,
            record_option: Some(IndexRecordOption::WithFreqsAndPositions),
            fieldnorms: false,
            tokenizer: Some("default".to_string()),
        },
    );
    let schema = schema_builder.build();
    let leaf = |path: &str| {
        Value::Json(vec![JsonLeaf {
            path: path.to_string(),
            value: LeafValue::Text(one_token("japan")),
        }])
    };
    let documents = prepared(&schema, attributes, vec![leaf("a"), leaf("aa")]);

    // shall not match the first document due to json path mismatch
    {
        let term = json_path_term(attributes, "aa", "japan");
        let fuzzy_query = FuzzyTermQuery::new(term, 2, true);
        let top_docs = search(&schema, &documents, &fuzzy_query)?;
        assert_eq!(top_docs.len(), 1, "Expected only 1 document");
        assert_eq!(top_docs[0].1, 1, "Expected the second document");
    }

    // shall match the first document because Levenshtein distance is 1 (substitute 'o' with
    // 'a')
    {
        let term = json_path_term(attributes, "a", "japon");
        let fuzzy_query = FuzzyTermQuery::new(term, 1, true);
        let top_docs = search(&schema, &documents, &fuzzy_query)?;
        assert_eq!(top_docs.len(), 1, "Expected only 1 document");
        assert_eq!(top_docs[0].1, 0, "Expected the first document");
    }

    // shall not match because non-prefix Levenshtein distance is more than 1 (add 'a' and 'n')
    {
        let term = json_path_term(attributes, "a", "jap");
        let fuzzy_query = FuzzyTermQuery::new(term, 1, true);
        let top_docs = search(&schema, &documents, &fuzzy_query)?;
        assert_eq!(top_docs.len(), 0, "Expected no document");
    }

    Ok(())
}

#[test]
pub fn test_fuzzy_term() -> TestResult {
    let mut schema_builder = Schema::builder();
    let country_field = schema_builder.add_field("country", text());
    let schema = schema_builder.build();
    let documents = prepared(
        &schema,
        country_field,
        vec![
            Value::Text(one_token("japan")),
            Value::Text(one_token("korea")),
        ],
    );

    // passes because Levenshtein distance is 1 (substitute 'o' with 'a')
    {
        let term = Term::from_field_text(country_field, "japon");
        let fuzzy_query = FuzzyTermQuery::new(term, 1, true);
        let top_docs = search(&schema, &documents, &fuzzy_query)?;
        assert_eq!(top_docs.len(), 1, "Expected only 1 document");
        let (score, _) = top_docs[0];
        assert!((1.0 - score).abs() < 1e-6);
    }

    // fails because non-prefix Levenshtein distance is more than 1 (add 'a' and 'n')
    {
        let term = Term::from_field_text(country_field, "jap");
        let fuzzy_query = FuzzyTermQuery::new(term, 1, true);
        let top_docs = search(&schema, &documents, &fuzzy_query)?;
        assert_eq!(top_docs.len(), 0, "Expected no document");
    }

    // passes because prefix Levenshtein distance is 0
    {
        let term = Term::from_field_text(country_field, "jap");
        let fuzzy_query = FuzzyTermQuery::new_prefix(term, 1, true);
        let top_docs = search(&schema, &documents, &fuzzy_query)?;
        assert_eq!(top_docs.len(), 1, "Expected only 1 document");
        let (score, _) = top_docs[0];
        assert!((1.0 - score).abs() < 1e-6);
    }
    Ok(())
}

#[test]
pub fn test_fuzzy_term_transposition_cost_one() -> TestResult {
    let mut schema_builder = Schema::builder();
    let country_field = schema_builder.add_field("country", text());
    let schema = schema_builder.build();
    let documents = prepared(
        &schema,
        country_field,
        vec![Value::Text(one_token("japan"))],
    );
    let term_jaapn = Term::from_field_text(country_field, "jaapn");
    {
        let fuzzy_query_transposition = FuzzyTermQuery::new(term_jaapn.clone(), 1, true);
        let count = search(&schema, &documents, &fuzzy_query_transposition)?.len();
        assert_eq!(count, 1);
    }
    {
        let fuzzy_query_transposition = FuzzyTermQuery::new(term_jaapn, 1, false);
        let count = search(&schema, &documents, &fuzzy_query_transposition)?.len();
        assert_eq!(count, 0);
    }
    Ok(())
}

fn error_message(query: FuzzyTermQuery, schema: &Schema) -> String {
    let error = query
        .single_document_evaluator(SingleDocumentEvaluationContext::without_scoring(schema))
        .err()
        .unwrap();
    match error {
        TantivyError::InvalidArgument(message) | TantivyError::SchemaError(message) => message,
        other => panic!("unexpected error: {other:?}"),
    }
}

#[test]
fn fuzzy_queries_reject_what_they_cannot_search() {
    let mut schema_builder = Schema::builder();
    let body = schema_builder.add_field("body", text());
    let stored = schema_builder.add_field(
        "stored",
        FieldType {
            value_type: Type::Str,
            record_option: None,
            fieldnorms: false,
            tokenizer: None,
        },
    );
    let schema = schema_builder.build();

    let term = Term::from_field_text(body, "rust");
    assert_eq!(
        error_message(FuzzyTermQuery::new(term, 3, true), &schema),
        "Levenshtein distance of 3 is not allowed. Choose a value less than 3"
    );
    assert_eq!(
        error_message(
            FuzzyTermQuery::new(Term::from_field_u64(body, 7), 1, true),
            &schema
        ),
        "The fuzzy term query requires a string term."
    );
    assert_eq!(
        error_message(
            FuzzyTermQuery::new(Term::from_bytes(body, Type::Str, &[255]), 1, true),
            &schema
        ),
        "The fuzzy term query requires a string term."
    );
    let mut number = Term::with_type_and_field(Type::Json, body);
    number.append_bytes(&[b'a', JSON_END_OF_PATH, Type::U64.to_code(), 1]);
    assert_eq!(
        error_message(FuzzyTermQuery::new(number, 1, true), &schema),
        "The fuzzy term query requires a string path type for a json term. Found U64"
    );
    let mut broken = Term::with_type_and_field(Type::Json, body);
    broken.append_bytes(&[b'a', JSON_END_OF_PATH, Type::Str.to_code(), 200]);
    assert_eq!(
        error_message(FuzzyTermQuery::new(broken, 1, true), &schema),
        "Failed to convert json term value bytes to utf8 string."
    );
    assert_eq!(
        error_message(
            FuzzyTermQuery::new(Term::from_field_text(stored, "rust"), 1, true),
            &schema
        ),
        "Field \"stored\" is not indexed."
    );
    let unknown = Field::from_field_id(9);
    assert_eq!(
        error_message(
            FuzzyTermQuery::new(Term::from_field_text(unknown, "rust"), 1, true),
            &schema
        ),
        "Field id 9 does not exist in the schema"
    );
}

#[test]
fn fuzzy_weight_holds_the_automaton_and_the_path() {
    let mut schema_builder = Schema::builder();
    let field = schema_builder.add_field("body", text());
    let schema = schema_builder.build();
    let query = FuzzyTermQuery::new(Term::from_field_text(field, "rust"), 1, true);
    let weight = query
        .weight(EnableScoring::disabled_from_schema(&schema))
        .unwrap();
    assert_eq!(weight.field(), field);
    assert_eq!(weight.json_path(), None);
    let automaton = weight.automaton();
    let mut state = automaton.start();
    for byte in "rut".bytes() {
        assert!(automaton.can_match(&state));
        state = automaton.accept(&state, byte);
    }
    assert!(automaton.is_match(&state));
    for byte in "xyz".bytes() {
        state = automaton.accept(&state, byte);
    }
    assert!(!automaton.is_match(&state));
    assert!(!automaton.can_match(&state));

    let query = FuzzyTermQuery::new(json_path_term(field, "a", "rust"), 1, true);
    let weight = query
        .weight(EnableScoring::disabled_from_schema(&schema))
        .unwrap();
    assert_eq!(weight.json_path(), Some(b"a\0".as_slice()));
    assert_eq!(query.query_name(), "FuzzyTermQuery");
    assert!(query.query_terms().is_empty());
}
