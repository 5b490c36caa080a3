//! Evaluation of queries against single, pre-tokenized documents.

pub mod any_query;
pub mod boolean_laws;
pub mod bytes;
pub mod document;
pub mod encoding_laws;
pub mod error;
pub mod error_laws;
pub mod fieldnorm;
pub mod fields;
pub mod fuzzy_query;
pub mod indexing;
pub mod indexing_laws;
pub mod json_paths;
pub mod levenshtein;
pub mod match_laws;
pub mod naming_laws;
pub mod phrase;
pub mod phrase_laws;
pub mod phrase_order;
pub mod phrase_prefix_evaluator;
pub mod phrase_prefix_query;
pub mod phrase_query;
pub mod phrase_score_laws;
pub mod position_laws;
pub mod positions;
pub mod postings;
pub mod preparation_laws;
pub mod prepared_document;
pub mod preparer_laws;
pub mod query;
pub mod query_laws;
pub mod range_query;
pub mod refusal_laws;
pub mod schema;
pub mod score;
pub mod searcher;
pub mod shape_laws;
pub mod simple_queries;
pub mod single_document;
pub mod statistics;
pub mod term;
pub mod term_laws;
pub mod term_map;
pub mod term_query;
pub mod text;
pub mod token_laws;
pub mod tokenizer;
