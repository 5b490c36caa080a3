# tantivy_query

Evaluation of queries against single, pre-tokenized documents, without an index.

A document is prepared for the fields that a query reads, a query is compiled into an evaluator, and
the evaluator tells for one document after the other whether it matches, and with which score. The
library is written in Rust with Verus: each function states what it returns or changes, and Verus
proves it.

## Layout

- `src/single_document.rs`: documents, evaluators and the context in which a query is compiled.
- `src/prepared_document.rs`, `src/indexing.rs`, `src/postings.rs`, `src/term_map.rs`,
  `src/json_paths.rs`: turning the values of a document into terms with positions.
- `src/query.rs`, `src/term_query.rs`, `src/phrase_query.rs`, `src/phrase_prefix_query.rs`,
  `src/phrase_prefix_evaluator.rs`, `src/fuzzy_query.rs`, `src/simple_queries.rs`,
  `src/any_query.rs`: the queries.
- `src/levenshtein.rs`: edit distances, and the automata of the crate `levenshtein_automata`.
- `src/*_laws.rs`: what holds of the library as a whole.
- `app/`: scores as floating point numbers, displayable errors, and automata for a term dictionary.

## What is trusted

The automata come from `levenshtein_automata`; `src/levenshtein.rs` says what is believed of them.
From the standard library come the decoding of UTF-8 and the quoting of names in messages.

Scores are not numbers here but expressions: a product of boosts, a BM25 score with its inputs, or a
sum. `app/` evaluates them in floating point.
