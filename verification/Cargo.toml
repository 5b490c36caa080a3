[package]
name = "tantivy_query"
version = "0.1.0"
edition = "2021"
publish = false

[dependencies]
levenshtein_automata = "=0.2.1"
tantivy-fst = "=0.5.0"
