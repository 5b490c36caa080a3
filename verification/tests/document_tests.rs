use tantivy_query::any_query::{AnyQuery, BooleanQuery, BoostQuery, ConstScoreQuery, Occur};
use tantivy_query::bytes::prefix_end;
use tantivy_query::document::{Document, JsonLeaf, LeafValue, Token, Value};
use tantivy_query::error::TantivyError;
use tantivy_query::fieldnorm::FieldNormReader;
use tantivy_query::fields::to_sorted_set;
use tantivy_query::json_paths::{append_id, read_id, PathToUnorderedId};
use tantivy_query::phrase_prefix_query::PhrasePrefixQuery;
use tantivy_query::phrase_query::PhraseQuery;
use tantivy_query::positions::{intersection, intersection_count, intersection_of_all, sorted_copy};
use tantivy_query::postings::{
    normalize_json_term, PreparedDocumentIndexingOutput, PreparedDocumentPostingsWriter,
};
use tantivy_query::prepared_document::{PreparedSingleDocument, SingleDocumentPreparer};
use tantivy_query::query::Query;
use tantivy_query::schema::{Field, FieldType, IndexRecordOption, Schema, Type};
use tantivy_query::score::{DocumentEvaluation, Score};
use tantivy_query::searcher::Searcher;
use tantivy_query::simple_queries::{AllQuery, TermSetQuery};
use tantivy_query::single_document::{
    with_unsupported_query_path, SingleDocument, SingleDocumentEvaluationContext,
    SingleDocumentEvaluator, TermBound,
};
use tantivy_query::term::{Term, JSON_END_OF_PATH};
use tantivy_query::term_query::TermQuery;
use tantivy_query::tokenizer::TokenizerManager;

fn field_type(value_type: Type, record_option: IndexRecordOption) -> FieldType {
    FieldType {
        value_type,
        record_option: Some(record_option),
        fieldnorms: true,
        tokenizer: None,
    }
}

/// A schema with a text, a number and a JSON field.
fn schema() -> (Schema, Field, Field, Field) {
    let positions = IndexRecordOption::WithFreqsAndPositions;
    let mut builder = Schema::builder();
    let body = builder.add_field("body", field_type(Type::Str, positions));
    let number = builder.add_field("number", field_type(Type::U64, IndexRecordOption::Basic));
    let json = builder.add_field("json", field_type(Type::Json, positions));
    (builder.build(), body, number, json)
}

fn tokens(words: &[(&str, u32)]) -> Vec<Token> {
    words
        .iter()
        .map(|(text, position)| Token {
            text: text.to_string(),
            position: *position,
            position_length: 1,
        })
        .collect()
}

fn text(words: &[(&str, u32)]) -> Value {
    Value::Text(tokens(words))
}

fn number_value(number: u64) -> Value {
    Value::Exact(Type::U64, number.to_be_bytes().to_vec())
}

fn leaf(path: &str, words: &[(&str, u32)]) -> JsonLeaf {
    JsonLeaf {
        path: path.to_string(),
        value: LeafValue::Text(tokens(words)),
    }
}

fn document(values: Vec<(Field, Value)>) -> Document {
    let mut document = Document::new();
    for (field, value) in values {
        document.add_field_value(field, value);
    }
    document
}

fn prepare(
    schema: &Schema,
    fields: &[Field],
    values: Vec<(Field, Value)>,
) -> Result<PreparedSingleDocument, TantivyError> {
    SingleDocumentPreparer::for_fields(schema, &TokenizerManager::new(), fields)
        .unwrap()
        .prepare(&document(values))
}

fn json_text(field: Field, path: &str, text: &str) -> Term {
    let mut term = Term::with_type_and_field(Type::Json, field);
    term.append_path(path.as_bytes());
    term.append_bytes(&[JSON_END_OF_PATH, Type::Str.to_code()]);
    term.append_bytes(text.as_bytes());
    term
}

fn positions_of(document: &PreparedSingleDocument, term: &Term) -> Option<Vec<u32>> {
    document
        .term_info(term)
        .map(|info| info.positions.unwrap().to_vec())
}

fn unscored(query: &AnyQuery, schema: &Schema, document: &PreparedSingleDocument) -> bool {
    let mut evaluator = query
        .single_document_evaluator(SingleDocumentEvaluationContext::without_scoring(schema))
        .unwrap();
    evaluator.evaluate(document).unwrap() != DocumentEvaluation::NoMatch
}

#[test]
fn null_emits_no_term_token_position_or_fieldnorm() {
    let (schema, body, number, json) = schema();
    let fields = [body, number, json];
    let prepared = prepare(
        &schema,
        &fields,
        vec![
            (body, Value::Null),
            (number, Value::Null),
            (json, Value::Null),
        ],
    )
    .unwrap();
    for field in fields {
        assert_eq!(prepared.fieldnorm_id(field), None);
        assert_eq!(prepared.total_num_tokens(field), 0);
        let listed = prepared.visit_terms(field, TermBound::Unbounded, TermBound::Unbounded);
        assert!(listed.is_empty());
    }
}

#[test]
fn null_beside_a_value_changes_nothing() {
    let (schema, body, ..) = schema();
    let value = || text(&[("a", 0), ("b", 1)]);
    let plain = prepare(&schema, &[body], vec![(body, value()), (body, value())]).unwrap();
    let with_null = prepare(
        &schema,
        &[body],
        vec![
            (body, Value::Null),
            (body, value()),
            (body, Value::Null),
            (body, value()),
        ],
    )
    .unwrap();
    for word in ["a", "b"] {
        let term = Term::from_field_text(body, word);
        assert_eq!(
            positions_of(&plain, &term),
            positions_of(&with_null, &term)
        );
    }
    assert_eq!(
        positions_of(&plain, &Term::from_field_text(body, "b")),
        Some(vec![1, 4])
    );
    assert_eq!(plain.fieldnorm_id(body), with_null.fieldnorm_id(body));
    assert_eq!(plain.fieldnorm_id(body), Some(4));
}

#[test]
fn tokens_of_all_kinds_are_counted() {
    let (schema, body, number, json) = schema();
    let prepared = prepare(
        &schema,
        &[body, number, json],
        vec![
            (body, text(&[("a", 0), ("a", 1), ("b", 2)])),
            (number, number_value(3)),
            (number, number_value(3)),
            (
                json,
                Value::Json(vec![
                    leaf("x", &[("a", 0), ("b", 1)]),
                    JsonLeaf {
                        path: "y".to_string(),
                        value: LeafValue::Exact(Type::Bool, vec![1]),
                    },
                ]),
            ),
            (body, text(&[("c", 0)])),
        ],
    )
    .unwrap();
    assert_eq!(prepared.total_num_tokens(body), 4);
    assert_eq!(prepared.total_num_tokens(number), 2);
    assert_eq!(prepared.total_num_tokens(json), 3);
    assert_eq!(prepared.fieldnorm_id(body), Some(4));
    assert_eq!(prepared.fieldnorm_id(number), Some(2));
    assert_eq!(prepared.fieldnorm_id(json), None);
    assert_eq!(
        positions_of(&prepared, &Term::from_field_text(body, "c")),
        Some(vec![4])
    );
    assert_eq!(
        positions_of(&prepared, &Term::from_field_u64(number, 3)),
        Some(vec![0, 0])
    );
}

#[test]
fn texts_at_one_json_path_follow_each_other() {
    let (schema, _, _, json) = schema();
    let prepared = prepare(
        &schema,
        &[json],
        vec![
            (
                json,
                Value::Json(vec![
                    leaf("x", &[("a", 0), ("b", 1)]),
                    leaf("y", &[("a", 0)]),
                    leaf("x", &[("a", 0)]),
                ]),
            ),
            (json, Value::Json(vec![leaf("x", &[("a", 2)])])),
        ],
    )
    .unwrap();
    assert_eq!(
        positions_of(&prepared, &json_text(json, "x", "a")),
        Some(vec![0, 3, 7])
    );
    assert_eq!(
        positions_of(&prepared, &json_text(json, "y", "a")),
        Some(vec![0])
    );
    assert_eq!(positions_of(&prepared, &json_text(json, "z", "a")), None);
}

#[test]
fn json_paths_with_the_same_bytes_are_merged() {
    let (schema, _, _, json) = schema();
    // The byte of the end mark is replaced inside a path.
    let prepared = prepare(
        &schema,
        &[json],
        vec![(
            json,
            Value::Json(vec![
                leaf("x\u{0}", &[("a", 5), ("a", 9)]),
                leaf("x0", &[("a", 1), ("a", 7)]),
            ]),
        )],
    )
    .unwrap();
    assert_eq!(
        positions_of(&prepared, &json_text(json, "x0", "a")),
        Some(vec![1, 5, 7, 9])
    );
    assert_eq!(prepared.total_num_tokens(json), 4);
}

#[test]
fn values_of_other_types_are_rejected_or_passed_over() {
    let (schema, body, number, json) = schema();
    let message = |result: Result<PreparedSingleDocument, TantivyError>| match result {
        Err(TantivyError::SchemaError(message)) => message,
        other => panic!("unexpected result: {other:?}"),
    };
    assert_eq!(
        message(prepare(&schema, &[number], vec![(number, text(&[]))])),
        "Expected a U64 for field \"number\""
    );
    assert_eq!(
        message(prepare(
            &schema,
            &[number],
            vec![(number, Value::Exact(Type::Bool, vec![1]))]
        )),
        "Expected a U64 for field \"number\""
    );
    assert_eq!(
        message(prepare(
            &schema,
            &[number],
            vec![(number, Value::Json(vec![]))]
        )),
        "Expected a U64 for field \"number\""
    );
    let prepared = prepare(
        &schema,
        &[body, json],
        vec![(body, number_value(1)), (json, text(&[("a", 0)]))],
    )
    .unwrap();
    assert_eq!(prepared.total_num_tokens(body), 0);
    assert_eq!(prepared.total_num_tokens(json), 0);
    assert_eq!(prepared.fieldnorm_id(body), Some(0));
}

#[test]
fn preparation_names_what_is_missing() {
    let (schema, body, number, _) = schema();
    let error = prepare(&schema, &[number, body], vec![(number, number_value(1))]);
    assert_eq!(
        error.err(),
        Some(TantivyError::InvalidArgument(
            "SingleDocumentPreparer requires field \"body\" to be explicitly supplied; use \
             OwnedValue::Null when it has no value"
                .to_string()
        ))
    );
    let unknown = [body, Field::from_field_id(7), Field::from_field_id(5)];
    assert_eq!(
        SingleDocumentPreparer::for_fields(&schema, &TokenizerManager::new(), &unknown).err(),
        Some(TantivyError::SchemaError(
            "Field id 5 does not exist in the schema".to_string()
        ))
    );

    let mut builder = Schema::builder();
    let mut with_tokenizer = field_type(Type::Str, IndexRecordOption::Basic);
    with_tokenizer.tokenizer = Some("custom".to_string());
    let title = builder.add_field("title", with_tokenizer);
    let schema = builder.build();
    assert_eq!(
        SingleDocumentPreparer::for_fields(&schema, &TokenizerManager::default(), &[title]).err(),
        Some(TantivyError::SchemaError(
            "Error getting tokenizer for field: title".to_string()
        ))
    );
}

#[test]
fn coverage_is_checked_by_what_was_prepared() {
    let (schema, body, number, json) = schema();
    let prepared = prepare(
        &schema,
        &[json, body],
        vec![(json, Value::Null), (body, Value::Null)],
    )
    .unwrap();
    assert_eq!(prepared.validate_required_fields(Some(&[])), Ok(()));
    assert_eq!(
        prepared.validate_required_fields(Some(&[json, body, json])),
        Ok(())
    );
    assert_eq!(
        prepared.validate_required_fields(Some(&[body, number])),
        Err(TantivyError::InvalidArgument(
            "PreparedSingleDocument did not prepare required field Field(1)".to_string()
        ))
    );
    assert_eq!(
        prepared.validate_required_fields(None),
        Err(TantivyError::InvalidArgument(
            "PreparedSingleDocument was query-aware, but the evaluator's required fields are \
             unknown"
                .to_string()
        ))
    );
    let empty = PreparedSingleDocument::default();
    assert!(empty.validate_required_fields(Some(&[body])).is_err());
    assert_eq!(empty.clone().total_num_tokens(body), 0);
}

#[test]
fn listed_terms_are_those_held() {
    let (schema, body, number, _) = schema();
    let words = ["b", "a", "d", "c", "a"];
    let prepared = prepare(
        &schema,
        &[body, number],
        vec![
            (
                body,
                text(
                    &words
                        .iter()
                        .enumerate()
                        .map(|(i, word)| (*word, i as u32))
                        .collect::<Vec<_>>(),
                ),
            ),
            (number, number_value(9)),
        ],
    )
    .unwrap();
    let term = |word| Term::from_field_text(body, word);
    let list = |start: TermBound<'_>, end: TermBound<'_>| -> Vec<Term> {
        prepared
            .visit_terms(body, start, end)
            .iter()
            .map(|visited| {
                let info = prepared.term_info(visited.term).unwrap();
                assert_eq!(info.term_freq, visited.info.term_freq);
                assert_eq!(info.positions, visited.info.positions);
                visited.term.clone()
            })
            .collect()
    };
    let all = vec![term("a"), term("b"), term("c"), term("d")];
    assert_eq!(list(TermBound::Unbounded, TermBound::Unbounded), all);
    assert_eq!(
        list(TermBound::Included(&term("b")), TermBound::Excluded(&term("d"))),
        all[1..3]
    );
    assert_eq!(
        list(TermBound::Excluded(&term("a")), TermBound::Included(&term("b"))),
        all[1..2]
    );
    assert!(list(TermBound::Included(&term("d")), TermBound::Excluded(&term("b"))).is_empty());
    // Bounds of other fields are compared as terms are.
    let number_term = Term::from_field_u64(number, 0);
    assert_eq!(
        list(TermBound::Unbounded, TermBound::Excluded(&number_term)),
        all
    );
    assert!(list(TermBound::Included(&number_term), TermBound::Unbounded).is_empty());
}

#[test]
fn preparing_more_fields_changes_no_answer() {
    let (schema, body, number, json) = schema();
    let values = || {
        vec![
            (
                json,
                Value::Json(vec![leaf("n", &[("q", 0)]), leaf("m", &[("r", 0)])]),
            ),
            (body, text(&[("red", 0), ("fox", 1)])),
            (number, number_value(4)),
        ]
    };
    let narrow = prepare(&schema, &[body], values()).unwrap();
    let wide = prepare(&schema, &[json, number, body], values()).unwrap();
    let term = |word| Term::from_field_text(body, word);
    let queries = [
        AnyQuery::Term(TermQuery::new(term("red"), IndexRecordOption::Basic)),
        AnyQuery::Term(TermQuery::new(term("cat"), IndexRecordOption::Basic)),
        AnyQuery::Phrase(PhraseQuery::new(vec![term("red"), term("fox")])),
        AnyQuery::Phrase(PhraseQuery::new(vec![term("fox"), term("red")])),
        AnyQuery::PhrasePrefix(PhrasePrefixQuery::new(vec![term("red"), term("f")])),
    ];
    for (query, expected) in queries.iter().zip([true, false, true, false, true]) {
        assert_eq!(unscored(query, &schema, &narrow), expected);
        assert_eq!(unscored(query, &schema, &wide), expected);
    }
}

#[test]
fn unsupported_queries_are_named_with_their_path() {
    let (schema, body, ..) = schema();
    let terms = TermSetQuery::new(vec![Term::from_field_text(body, "a")]);
    let query = AnyQuery::Boost(BoostQuery::new(
        AnyQuery::Boolean(BooleanQuery::new(vec![
            (Occur::Must, AnyQuery::All(AllQuery {})),
            (
                Occur::MustNot,
                AnyQuery::ConstScore(ConstScoreQuery::new(AnyQuery::TermSet(terms), 0)),
            ),
        ])),
        0,
    ));
    let error = query
        .single_document_evaluator(SingleDocumentEvaluationContext::without_scoring(&schema))
        .err();
    assert_eq!(
        error,
        Some(TantivyError::UnsupportedQueryForSingleDocumentEvaluation(
            "BoostQuery -> BooleanQuery.MustNot[1] -> ConstScoreQuery -> TermSetQuery".to_string()
        ))
    );
    let other = TantivyError::SchemaError("x".to_string());
    assert_eq!(with_unsupported_query_path(other.clone(), "path"), other);
}

#[test]
fn scores_are_computed_of_the_boosts_on_the_way() {
    let (schema, body, ..) = schema();
    let term = Term::from_field_text(body, "a");
    let searcher = Searcher::new(schema.clone(), vec![], 5, vec![20], vec![(term.clone(), 2)]);
    let query = AnyQuery::Boost(BoostQuery::new(
        AnyQuery::Boost(BoostQuery::new(
            AnyQuery::Boolean(BooleanQuery::new(vec![
                (
                    Occur::Must,
                    AnyQuery::Term(TermQuery::new(term, IndexRecordOption::WithFreqs)),
                ),
                (
                    Occur::Should,
                    AnyQuery::ConstScore(ConstScoreQuery::new(AnyQuery::All(AllQuery {}), 3)),
                ),
            ])),
            7,
        )),
        9,
    ));
    let mut evaluator = query
        .single_document_evaluator(SingleDocumentEvaluationContext::with_scoring(
            &schema, &searcher,
        ))
        .unwrap();
    assert_eq!(evaluator.required_fields(), Some([body].as_slice()));
    let prepared = prepare(&schema, &[body], vec![(body, text(&[("a", 0), ("a", 1)]))]).unwrap();
    let DocumentEvaluation::Match(Score::Sum(left, right)) = evaluator.evaluate(&prepared).unwrap()
    else {
        panic!("both clauses should match");
    };
    let Score::Bm25 {
        weight,
        fieldnorm_id,
        term_freq,
    } = *left
    else {
        panic!("the term should be scored");
    };
    assert_eq!(weight.doc_freqs, vec![2]);
    assert_eq!(weight.total_num_docs, 5);
    assert_eq!(weight.total_num_tokens, 20);
    assert_eq!(weight.boost.factors(), &[9, 7]);
    assert_eq!((fieldnorm_id, term_freq), (2, 2));
    let Score::Product(boost) = *right else {
        panic!("the constant should be a product");
    };
    assert_eq!(boost.factors(), &[9, 7, 3]);
}

#[test]
fn phrase_positions_have_to_fit() {
    let (schema, body, ..) = schema();
    let term = |word| Term::from_field_text(body, word);
    let error = |query: AnyQuery, words: &[(&str, u32)]| {
        let prepared = prepare(&schema, &[body], vec![(body, text(words))]).unwrap();
        query
            .single_document_evaluator(SingleDocumentEvaluationContext::without_scoring(&schema))
            .unwrap()
            .evaluate(&prepared)
            .err()
    };
    let far = AnyQuery::PhrasePrefix(PhrasePrefixQuery::new_with_offset(vec![
        (0, term("a")),
        (1 << 40, term("b")),
    ]));
    assert_eq!(
        error(far, &[("a", 0), ("b", 1)]),
        Some(TantivyError::InvalidArgument(
            "PhrasePrefixQuery position offset exceeds u32::MAX for Term(field=0, type=Str, bytes=[97])"
                .to_string()
        ))
    );
    let next = || AnyQuery::PhrasePrefix(PhrasePrefixQuery::new(vec![term("a"), term("b")]));
    assert_eq!(
        error(next(), &[("a", u32::MAX), ("b", 1)]),
        Some(TantivyError::InvalidArgument(
            "PhrasePrefixQuery adjusted position exceeds u32::MAX for Term(field=0, type=Str, \
             bytes=[97])"
                .to_string()
        ))
    );
    assert_eq!(
        error(next(), &[("a", 3), ("a", 1), ("b", 5)]),
        Some(TantivyError::InvalidArgument(
            "SingleDocument positions are not sorted for Term(field=0, type=Str, bytes=[97])".to_string()
        ))
    );
    let behind = PhrasePrefixQuery::new_with_offset(vec![
        (0, term("a")),
        (usize::MAX, term("b")),
        (usize::MAX, term("c")),
    ]);
    assert_eq!(
        behind
            .single_document_evaluator(SingleDocumentEvaluationContext::without_scoring(&schema))
            .err(),
        Some(TantivyError::InvalidArgument(
            "PhrasePrefixQuery position offset exceeds usize::MAX".to_string()
        ))
    );
}

#[test]
fn phrase_prefix_meets_behind_the_fixed_terms() {
    let (schema, body, ..) = schema();
    let term = |word| Term::from_field_text(body, word);
    let matches = |query: PhrasePrefixQuery, words: &[(&str, u32)]| {
        let prepared = prepare(&schema, &[body], vec![(body, text(words))]).unwrap();
        unscored(&AnyQuery::PhrasePrefix(query), &schema, &prepared)
    };
    let part = || PhrasePrefixQuery::new(vec![term("part"), term("t")]);
    assert!(matches(
        part(),
        &[("just", 1), ("got", 2), ("a", 3), ("part", 4), ("time", 5), ("job", 6)]
    ));
    assert!(!matches(
        part(),
        &[("this", 0), ("part", 4), ("of", 5), ("the", 6), ("job", 7)]
    ));
    // Two fixed terms: the prefix is looked for right behind the greatest fixed offset.
    let spread = || {
        PhrasePrefixQuery::new_with_offset(vec![(0, term("a")), (1, term("b")), (5, term("c"))])
    };
    assert!(matches(spread(), &[("a", 0), ("b", 1), ("cat", 2)]));
    assert!(!matches(spread(), &[("a", 0), ("b", 1), ("cat", 5)]));
    // One fixed term: the prefix is looked for at its own offset.
    let single =
        || PhrasePrefixQuery::new_with_offset(vec![(0, term("a")), (5, term("c"))]);
    assert!(!matches(single(), &[("a", 0), ("cat", 1)]));
    assert!(matches(single(), &[("a", 0), ("cat", 5)]));
    let mut none = part();
    none.set_max_expansions(0);
    assert!(!matches(none, &[("part", 0), ("time", 1)]));
}

#[test]
fn intermediate_json_terms_are_written_out() {
    let field = Field::from_field_id(3);
    let mut raw_bytes = Vec::new();
    append_id(&mut raw_bytes, 0x0102_0304);
    assert_eq!(raw_bytes, vec![1, 2, 3, 4]);
    assert_eq!(read_id(&raw_bytes), 0x0102_0304);

    let paths = ["b".to_string(), "a".to_string()];
    let term = Term::from_bytes(field, Type::Json, &[0, 0, 0, 0, b's', b'x']);
    assert_eq!(
        normalize_json_term(&term, &[1, 0], &paths),
        Ok(json_text(field, "a", "x"))
    );
    let error = |bytes: &[u8], ids: &[u32]| {
        let term = Term::from_bytes(field, Type::Json, bytes);
        normalize_json_term(&term, ids, &paths).err()
    };
    let internal = |message: &str| Some(TantivyError::InternalError(message.to_string()));
    assert_eq!(
        error(&[0, 0, 0, 0], &[0]),
        internal("PreparedSingleDocument encountered an invalid intermediate JSON term")
    );
    assert_eq!(
        error(&[0, 0, 0, 1, b's'], &[0]),
        internal("PreparedSingleDocument encountered an unknown JSON path id")
    );
    assert_eq!(
        error(&[0, 0, 0, 0, b's'], &[2]),
        internal("PreparedSingleDocument encountered an unknown ordered JSON path id")
    );

    let mut ids = PathToUnorderedId::new();
    assert_eq!(ids.get_or_allocate_unordered_id("x"), 0);
    assert_eq!(ids.get_or_allocate_unordered_id("y"), 1);
    assert_eq!(ids.get_or_allocate_unordered_id("x"), 0);
    assert_eq!(ids.unordered_id_to_ordered_id(), vec![0, 1]);
    assert_eq!(ids.ordered_id_to_path(), ["x".to_string(), "y".to_string()]);
}

#[test]
fn postings_are_taken_once() {
    let field = Field::from_field_id(0);
    let term = Term::from_field_text(field, "a");
    let mut writer = PreparedDocumentPostingsWriter::new();
    writer.subscribe(4, &term);
    writer.subscribe(2, &term);
    assert_eq!(writer.total_num_tokens(), 2);

    let mut output = PreparedDocumentIndexingOutput::new();
    output.subscribe(4, &term);
    output.subscribe(2, &term);
    output.record_fieldnorm(field, 2);
    output.normalize_json_terms(&[], &[]).unwrap();
    let taken = output.take_prepared_document(vec![field]);
    assert_eq!(positions_of(&taken, &term), Some(vec![4, 2]));
    assert_eq!(taken.fieldnorm_id(field), Some(2));
    let rest = output.take_prepared_document(vec![field]);
    assert_eq!(positions_of(&rest, &term), None);
    assert_eq!(rest.fieldnorm_id(field), None);
}

#[test]
fn positions_in_common_are_counted_in_both_lists() {
    assert_eq!(intersection(&[1, 2, 2, 3, 9], &[2, 2, 2, 9]), vec![2, 2, 9]);
    assert_eq!(intersection_count(&[1, 2, 2, 3, 9], &[2, 2, 2, 9]), 3);
    assert_eq!(
        intersection_of_all(&[vec![1, 2, 3], vec![2, 3], vec![0, 3]]),
        vec![3]
    );
    assert_eq!(sorted_copy(&[5, 1, 4, 1]), vec![1, 1, 4, 5]);
}

#[test]
fn prefix_ends_behind_all_that_begin_with_it() {
    assert_eq!(prefix_end(b"aero"), Some(b"aerp".to_vec()));
    assert_eq!(prefix_end(&[1, 2, 255, 255]), Some(vec![1, 3]));
    assert_eq!(prefix_end(&[255, 255]), None);
    assert_eq!(prefix_end(&[]), None);
}

#[test]
fn fieldnorms_are_compressed() {
    for exact in 0..=40u32 {
        assert_eq!(FieldNormReader::fieldnorm_to_id(exact), exact as u8);
        assert_eq!(FieldNormReader::id_to_fieldnorm(exact as u8), exact);
    }
    assert_eq!(FieldNormReader::id_to_fieldnorm(41), 42);
    assert_eq!(FieldNormReader::fieldnorm_to_id(41), 40);
    assert_eq!(FieldNormReader::fieldnorm_to_id(42), 41);
    assert_eq!(FieldNormReader::id_to_fieldnorm(255), 2_013_265_944);
    assert_eq!(FieldNormReader::fieldnorm_to_id(u32::MAX), 255);
    for id in 0..=255u8 {
        let fieldnorm = FieldNormReader::id_to_fieldnorm(id);
        assert_eq!(FieldNormReader::fieldnorm_to_id(fieldnorm), id);
    }
}

#[test]
fn field_lists_become_sets() {
    let field = Field::from_field_id;
    assert_eq!(
        to_sorted_set(&[field(4), field(1), field(4), field(0)]),
        vec![field(0), field(1), field(4)]
    );
}

#[test]
fn types_have_codes() {
    let types = [
        (Type::Str, b's'),
        (Type::U64, b'u'),
        (Type::I64, b'i'),
        (Type::F64, b'f'),
        (Type::Bool, b'o'),
        (Type::Date, b'd'),
        (Type::Facet, b'h'),
        (Type::Bytes, b'b'),
        (Type::Json, b'j'),
        (Type::IpAddr, b'p'),
    ];
    for (typ, code) in types {
        assert_eq!(typ.to_code(), code);
        assert_eq!(Type::from_code(code), Some(typ));
    }
    assert_eq!(Type::from_code(b'z'), None);
}

#[test]
fn record_options_are_downgraded() {
    let all = [
        IndexRecordOption::Basic,
        IndexRecordOption::WithFreqs,
        IndexRecordOption::WithFreqsAndPositions,
    ];
    for (i, left) in all.iter().enumerate() {
        for (j, right) in all.iter().enumerate() {
            assert_eq!(left.downgrade(*right), all[i.min(j)]);
        }
        assert_eq!(left.has_freq(), i >= 1);
        assert_eq!(left.has_positions(), i >= 2);
    }
}

#[test]
fn terms_are_ordered_by_field_type_and_value() {
    let low = Field::from_field_id(1);
    let high = Field::from_field_id(256);
    let ascending = [
        Term::from_field_text(low, "a"),
        Term::from_field_text(low, "ab"),
        Term::from_field_text(low, "b"),
        Term::from_field_u64(low, 0),
        Term::from_field_text(high, "a"),
    ];
    for (i, left) in ascending.iter().enumerate() {
        for (j, right) in ascending.iter().enumerate() {
            assert_eq!(left.less_than(right), i < j);
            assert_eq!(left.same_as(right), i == j);
        }
    }
}

/// All that a prepared document tells of a field.
fn told(document: &PreparedSingleDocument, field: Field) -> (Vec<(Term, Vec<u32>)>, Option<u8>, u64) {
    let listed = document
        .visit_terms(field, TermBound::Unbounded, TermBound::Unbounded)
        .iter()
        .map(|visited| {
            let positions = visited.info.positions.unwrap().to_vec();
            assert!(!positions.is_empty());
            assert_eq!(visited.info.term_freq as usize, positions.len());
            (visited.term.clone(), positions)
        })
        .collect();
    (
        listed,
        document.fieldnorm_id(field),
        document.total_num_tokens(field),
    )
}

#[test]
fn reused_preparer_gives_what_a_fresh_one_gives() {
    let (schema, body, number, json) = schema();
    let fields = [body, number, json];
    let preparer =
        || SingleDocumentPreparer::for_fields(&schema, &TokenizerManager::new(), &fields).unwrap();
    let sound = document(vec![
        (json, Value::Json(vec![leaf("n", &[("q", 0)])])),
        (body, text(&[("red", 0), ("fox", 1), ("red", 2)])),
        (number, number_value(4)),
    ]);
    let earlier = [
        // A path and positions that must not come up again.
        document(vec![
            (
                json,
                Value::Json(vec![leaf("other", &[("q", 7)]), leaf("n", &[("q", 3)])]),
            ),
            (body, text(&[("red", 9)])),
            (number, Value::Null),
        ]),
        // Refused: a field is missing.
        document(vec![(body, text(&[("fox", 0)]))]),
        // Refused: a value does not fit its field.
        document(vec![
            (json, Value::Null),
            (body, text(&[("fox", 0)])),
            (number, text(&[("fox", 0)])),
        ]),
    ];
    let mut reused = preparer();
    let outcomes: Vec<bool> = earlier
        .iter()
        .map(|document| reused.prepare(document).is_ok())
        .collect();
    assert_eq!(outcomes, vec![true, false, false]);
    let first = reused.prepare(&sound).unwrap();
    let fresh = preparer().prepare(&sound).unwrap();
    for field in fields {
        assert_eq!(told(&first, field), told(&fresh, field));
    }
}

#[test]
fn order_of_required_fields_does_not_matter() {
    let (schema, body, number, _) = schema();
    let values = || {
        vec![
            (body, text(&[("red", 0), ("fox", 1)])),
            (number, number_value(4)),
        ]
    };
    let plain = prepare(&schema, &[body, number], values()).unwrap();
    let repeated = prepare(&schema, &[number, body, number, number], values()).unwrap();
    for field in [body, number] {
        assert_eq!(told(&plain, field), told(&repeated, field));
        assert_eq!(repeated.validate_required_fields(Some(&[field])), Ok(()));
    }
}

#[test]
fn empty_and_inverted_ranges_list_nothing() {
    let (schema, body, ..) = schema();
    let prepared = prepare(
        &schema,
        &[body],
        vec![(body, text(&[("a", 0), ("b", 1), ("c", 2)]))],
    )
    .unwrap();
    let (a, b) = (
        Term::from_field_text(body, "a"),
        Term::from_field_text(body, "b"),
    );
    let ranges = [
        (TermBound::Included(&b), TermBound::Included(&a)),
        (TermBound::Excluded(&b), TermBound::Excluded(&a)),
        (TermBound::Included(&b), TermBound::Excluded(&b)),
        (TermBound::Excluded(&b), TermBound::Included(&b)),
    ];
    for (start, end) in ranges {
        assert!(prepared.visit_terms(body, start, end).is_empty());
    }
    let one = prepared.visit_terms(body, TermBound::Included(&b), TermBound::Included(&b));
    assert_eq!(one.len(), 1);
}
