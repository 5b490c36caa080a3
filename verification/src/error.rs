//! The errors of the library and their messages.

use vstd::prelude::*;
use crate::schema::{Field, Type};
use crate::term;
use crate::term::{Term, TermView};
use crate::text;

verus! {

/// An error, with its message.
#[derive(Clone, Debug, PartialEq, Eq)]
pub enum TantivyError {
    /// The query or the document is malformed.
    InvalidArgument(String),
    /// The schema does not fit the query.
    SchemaError(String),
    /// Data of the library itself is inconsistent.
    InternalError(String),
    /// The query cannot be evaluated on single documents. The payload names the query, behind
    /// the queries that it is a part of.
    UnsupportedQueryForSingleDocumentEvaluation(String),
}

/// The contents of a [`TantivyError`].
#[verifier::ext_equal]
pub enum ErrorView {
    /// The query or the document is malformed.
    InvalidArgument(Seq<char>),
    /// The schema does not fit the query.
    SchemaError(Seq<char>),
    /// Data of the library itself is inconsistent.
    InternalError(Seq<char>),
    /// The query cannot be evaluated on single documents.
    UnsupportedQueryForSingleDocumentEvaluation(Seq<char>),
}

impl View for TantivyError {
    type V = ErrorView;

    open spec fn view(&self) -> ErrorView {
        match self {
            TantivyError::InvalidArgument(message) => ErrorView::InvalidArgument(message@),
            TantivyError::SchemaError(message) => ErrorView::SchemaError(message@),
            TantivyError::InternalError(message) => ErrorView::InternalError(message@),
            TantivyError::UnsupportedQueryForSingleDocumentEvaluation(path) =>
                ErrorView::UnsupportedQueryForSingleDocumentEvaluation(path@),
        }
    }
}

/// What a result holds: the contents of its error, or its value.
pub open spec fn outcome<T>(result: Result<T, TantivyError>) -> Result<T, ErrorView> {
    match result {
        Ok(value) => Ok(value),
        Err(error) => Err(error@),
    }
}

/// How a field is written in messages.
pub open spec fn field_text(field: Field) -> Seq<char> {
    "Field("@ + text::decimal(field.0 as nat) + ")"@
}

/// A document reports a term that does not occur.
pub open spec fn zero_term_frequency(term: TermView) -> ErrorView {
    ErrorView::InvalidArgument(
        "SingleDocument returned a zero term frequency for "@ + term::term_text(term),
    )
}

/// Builds the error of [`zero_term_frequency`].
pub fn zero_term_frequency_error(term: &Term) -> (r: TantivyError)
    ensures
        r@ == zero_term_frequency(term@),
{
    let mut s = "SingleDocument returned a zero term frequency for ".to_owned();
    s.append(term.text().as_str());
    let r = TantivyError::InvalidArgument(s);
    assert(r@ =~= zero_term_frequency(term@));
    r
}

/// A document reports a term without the positions that a query needs.
pub open spec fn positions_missing(term: TermView) -> ErrorView {
    ErrorView::InvalidArgument(
        "SingleDocument did not supply positions for "@ + term::term_text(term),
    )
}

/// Builds the error of [`positions_missing`].
pub fn positions_missing_error(term: &Term) -> (r: TantivyError)
    ensures
        r@ == positions_missing(term@),
{
    let mut s = "SingleDocument did not supply positions for ".to_owned();
    s.append(term.text().as_str());
    let r = TantivyError::InvalidArgument(s);
    assert(r@ =~= positions_missing(term@));
    r
}

/// A document reports another number of positions than its term frequency says.
pub open spec fn position_count(num_positions: nat, term_freq: nat, term: TermView) -> ErrorView {
    ErrorView::InvalidArgument(
        "SingleDocument supplied "@ + text::decimal(num_positions)
            + " positions for term frequency "@ + text::decimal(term_freq) + " and term "@
            + term::term_text(term),
    )
}

/// Builds the error of [`position_count`].
pub fn position_count_error(num_positions: u64, term_freq: u64, term: &Term) -> (r: TantivyError)
    ensures
        r@ == position_count(num_positions as nat, term_freq as nat, term@),
{
    let mut s = "SingleDocument supplied ".to_owned();
    s.append(text::decimal_text(num_positions).as_str());
    s.append(" positions for term frequency ");
    s.append(text::decimal_text(term_freq).as_str());
    s.append(" and term ");
    s.append(term.text().as_str());
    let r = TantivyError::InvalidArgument(s);
    assert(r@ =~= position_count(num_positions as nat, term_freq as nat, term@));
    r
}

/// A document reports positions out of order.
pub open spec fn positions_unsorted(term: TermView) -> ErrorView {
    ErrorView::InvalidArgument(
        "SingleDocument positions are not sorted for "@ + term::term_text(term),
    )
}

/// Builds the error of [`positions_unsorted`].
pub fn positions_unsorted_error(term: &Term) -> (r: TantivyError)
    ensures
        r@ == positions_unsorted(term@),
{
    let mut s = "SingleDocument positions are not sorted for ".to_owned();
    s.append(term.text().as_str());
    let r = TantivyError::InvalidArgument(s);
    assert(r@ =~= positions_unsorted(term@));
    r
}

/// The offset of a term in a phrase does not fit into a position.
pub open spec fn offset_too_large(query: Seq<char>, term: TermView) -> ErrorView {
    ErrorView::InvalidArgument(
        query + " position offset exceeds u32::MAX for "@ + term::term_text(term),
    )
}

/// Builds the error of [`offset_too_large`].
pub fn offset_too_large_error(query: &str, term: &Term) -> (r: TantivyError)
    ensures
        r@ == offset_too_large(query@, term@),
{
    let mut s = String::new();
    s.append(query);
    s.append(" position offset exceeds u32::MAX for ");
    s.append(term.text().as_str());
    let r = TantivyError::InvalidArgument(s);
    assert(r@ =~= offset_too_large(query@, term@));
    r
}

/// A position does not fit once the offset of its term is added.
pub open spec fn adjusted_position_too_large(query: Seq<char>, term: TermView) -> ErrorView {
    ErrorView::InvalidArgument(
        query + " adjusted position exceeds u32::MAX for "@ + term::term_text(term),
    )
}

/// Builds the error of [`adjusted_position_too_large`].
pub fn adjusted_position_too_large_error(query: &str, term: &Term) -> (r: TantivyError)
    ensures
        r@ == adjusted_position_too_large(query@, term@),
{
    let mut s = String::new();
    s.append(query);
    s.append(" adjusted position exceeds u32::MAX for ");
    s.append(term.text().as_str());
    let r = TantivyError::InvalidArgument(s);
    assert(r@ =~= adjusted_position_too_large(query@, term@));
    r
}

/// The position behind the last term of a phrase does not fit.
pub open spec fn target_too_large() -> ErrorView {
    ErrorView::InvalidArgument(
        "PhrasePrefixQuery position offset exceeds usize::MAX"@,
    )
}

/// Builds the error of [`target_too_large`].
pub fn target_too_large_error() -> (r: TantivyError)
    ensures
        r@ == target_too_large(),
{
    let s = "PhrasePrefixQuery position offset exceeds usize::MAX".to_owned();
    let r = TantivyError::InvalidArgument(s);
    assert(r@ =~= target_too_large());
    r
}

/// A document has no fieldnorm for a field that a score needs one for.
pub open spec fn fieldnorm_missing(field: Field) -> ErrorView {
    ErrorView::InvalidArgument(
        "SingleDocument did not supply a fieldnorm for field "@ + field_text(field),
    )
}

/// Builds the error of [`fieldnorm_missing`].
pub fn fieldnorm_missing_error(field: Field) -> (r: TantivyError)
    ensures
        r@ == fieldnorm_missing(field),
{
    let mut s = "SingleDocument did not supply a fieldnorm for field ".to_owned();
    s.append("Field(");
    s.append(text::decimal_text(field.0 as u64).as_str());
    s.append(")");
    let r = TantivyError::InvalidArgument(s);
    assert(r@ =~= fieldnorm_missing(field));
    r
}

/// A field does not exist in the schema.
pub open spec fn unknown_field(field: Field) -> ErrorView {
    ErrorView::SchemaError(
        "Field id "@ + text::decimal(field.0 as nat) + " does not exist in the schema"@,
    )
}

/// Builds the error of [`unknown_field`].
pub fn unknown_field_error(field: Field) -> (r: TantivyError)
    ensures
        r@ == unknown_field(field),
{
    let mut s = "Field id ".to_owned();
    s.append(text::decimal_text(field.0 as u64).as_str());
    s.append(" does not exist in the schema");
    let r = TantivyError::SchemaError(s);
    assert(r@ =~= unknown_field(field));
    r
}

/// A field is not indexed.
pub open spec fn not_indexed(name: Seq<char>) -> ErrorView {
    ErrorView::SchemaError(
        "Field "@ + text::quoted(name) + " is not indexed."@,
    )
}

/// Builds the error of [`not_indexed`].
pub fn not_indexed_error(name: &str) -> (r: TantivyError)
    ensures
        r@ == not_indexed(name@),
{
    let mut s = "Field ".to_owned();
    s.append(text::quoted_text(name).as_str());
    s.append(" is not indexed.");
    let r = TantivyError::SchemaError(s);
    assert(r@ =~= not_indexed(name@));
    r
}

/// A phrase is looked for in a field without positions.
pub open spec fn no_positions_indexed(name: Seq<char>) -> ErrorView {
    ErrorView::SchemaError(
        "Applied phrase query on field "@ + text::quoted(name)
            + ", which does not have positions indexed"@,
    )
}

/// Builds the error of [`no_positions_indexed`].
pub fn no_positions_indexed_error(name: &str) -> (r: TantivyError)
    ensures
        r@ == no_positions_indexed(name@),
{
    let mut s = "Applied phrase query on field ".to_owned();
    s.append(text::quoted_text(name).as_str());
    s.append(", which does not have positions indexed");
    let r = TantivyError::SchemaError(s);
    assert(r@ =~= no_positions_indexed(name@));
    r
}

/// A term of a phrase prefix query has another type than its field.
pub open spec fn phrase_prefix_type(found: Type, expected: Type) -> ErrorView {
    ErrorView::SchemaError(
        "Create a phrase prefix query of the type "@ + found.spec_name()
            + ", when the field given was of type "@ + expected.spec_name(),
    )
}

/// Builds the error of [`phrase_prefix_type`].
pub fn phrase_prefix_type_error(found: Type, expected: Type) -> (r: TantivyError)
    ensures
        r@ == phrase_prefix_type(found, expected),
{
    let mut s = "Create a phrase prefix query of the type ".to_owned();
    s.append(found.name());
    s.append(", when the field given was of type ");
    s.append(expected.name());
    let r = TantivyError::SchemaError(s);
    assert(r@ =~= phrase_prefix_type(found, expected));
    r
}

/// A term of a phrase has no positions in the postings.
pub open spec fn no_position_postings(query: Seq<char>, term: TermView) -> ErrorView {
    ErrorView::UnsupportedQueryForSingleDocumentEvaluation(
        query + " term "@ + term::term_text(term) + " does not have position postings"@,
    )
}

/// Builds the error of [`no_position_postings`].
pub fn no_position_postings_error(query: &str, term: &Term) -> (r: TantivyError)
    ensures
        r@ == no_position_postings(query@, term@),
{
    let mut s = String::new();
    s.append(query);
    s.append(" term ");
    s.append(term.text().as_str());
    s.append(" does not have position postings");
    let r = TantivyError::UnsupportedQueryForSingleDocumentEvaluation(s);
    assert(r@ =~= no_position_postings(query@, term@));
    r
}

/// A fuzzy query asks for too large a distance.
pub open spec fn distance_not_allowed(distance: nat, limit: nat) -> ErrorView {
    ErrorView::InvalidArgument(
        "Levenshtein distance of "@ + text::decimal(distance)
            + " is not allowed. Choose a value less than "@ + text::decimal(limit),
    )
}

/// Builds the error of [`distance_not_allowed`].
pub fn distance_not_allowed_error(distance: u64, limit: u64) -> (r: TantivyError)
    ensures
        r@ == distance_not_allowed(distance as nat, limit as nat),
{
    let mut s = "Levenshtein distance of ".to_owned();
    s.append(text::decimal_text(distance).as_str());
    s.append(" is not allowed. Choose a value less than ");
    s.append(text::decimal_text(limit).as_str());
    let r = TantivyError::InvalidArgument(s);
    assert(r@ =~= distance_not_allowed(distance as nat, limit as nat));
    r
}

/// A fuzzy query has a JSON term whose value is not text.
pub open spec fn fuzzy_json_type(found: Type) -> ErrorView {
    ErrorView::InvalidArgument(
        "The fuzzy term query requires a string path type for a json term. Found "@
            + found.spec_name(),
    )
}

/// Builds the error of [`fuzzy_json_type`].
pub fn fuzzy_json_type_error(found: Type) -> (r: TantivyError)
    ensures
        r@ == fuzzy_json_type(found),
{
    let mut s = "The fuzzy term query requires a string path type for a json term. Found "
        .to_owned();
    s.append(found.name());
    let r = TantivyError::InvalidArgument(s);
    assert(r@ =~= fuzzy_json_type(found));
    r
}

/// A fuzzy query has a JSON term that is not UTF-8.
pub open spec fn fuzzy_json_not_utf8() -> ErrorView {
    ErrorView::InvalidArgument(
        "Failed to convert json term value bytes to utf8 string."@,
    )
}

/// Builds the error of [`fuzzy_json_not_utf8`].
pub fn fuzzy_json_not_utf8_error() -> (r: TantivyError)
    ensures
        r@ == fuzzy_json_not_utf8(),
{
    let s = "Failed to convert json term value bytes to utf8 string.".to_owned();
    let r = TantivyError::InvalidArgument(s);
    assert(r@ =~= fuzzy_json_not_utf8());
    r
}

/// A fuzzy query has a term that is not text.
pub open spec fn fuzzy_not_text() -> ErrorView {
    ErrorView::InvalidArgument(
        "The fuzzy term query requires a string term."@,
    )
}

/// Builds the error of [`fuzzy_not_text`].
pub fn fuzzy_not_text_error() -> (r: TantivyError)
    ensures
        r@ == fuzzy_not_text(),
{
    let s = "The fuzzy term query requires a string term.".to_owned();
    let r = TantivyError::InvalidArgument(s);
    assert(r@ =~= fuzzy_not_text());
    r
}

/// A document lacks a field that has to be supplied.
pub open spec fn field_not_supplied(name: Seq<char>) -> ErrorView {
    ErrorView::InvalidArgument(
        "SingleDocumentPreparer requires field "@ + text::quoted(name)
            + " to be explicitly supplied; use OwnedValue::Null when it has no value"@,
    )
}

/// Builds the error of [`field_not_supplied`].
pub fn field_not_supplied_error(name: &str) -> (r: TantivyError)
    ensures
        r@ == field_not_supplied(name@),
{
    let mut s = "SingleDocumentPreparer requires field ".to_owned();
    s.append(text::quoted_text(name).as_str());
    s.append(" to be explicitly supplied; use OwnedValue::Null when it has no value");
    let r = TantivyError::InvalidArgument(s);
    assert(r@ =~= field_not_supplied(name@));
    r
}

/// A prepared document meets an evaluator that does not say which fields it reads.
pub open spec fn requirements_unknown() -> ErrorView {
    ErrorView::InvalidArgument(
        "PreparedSingleDocument was query-aware, but the evaluator's required fields are unknown"@,
    )
}

/// Builds the error of [`requirements_unknown`].
pub fn requirements_unknown_error() -> (r: TantivyError)
    ensures
        r@ == requirements_unknown(),
{
    let s = "PreparedSingleDocument was query-aware, but the evaluator's required fields are unknown"
        .to_owned();
    let r = TantivyError::InvalidArgument(s);
    assert(r@ =~= requirements_unknown());
    r
}

/// A prepared document meets an evaluator that reads a field it was not prepared for.
pub open spec fn field_not_prepared(field: Field) -> ErrorView {
    ErrorView::InvalidArgument(
        "PreparedSingleDocument did not prepare required field "@ + field_text(field),
    )
}

/// Builds the error of [`field_not_prepared`].
pub fn field_not_prepared_error(field: Field) -> (r: TantivyError)
    ensures
        r@ == field_not_prepared(field),
{
    let mut s = "PreparedSingleDocument did not prepare required field ".to_owned();
    s.append("Field(");
    s.append(text::decimal_text(field.0 as u64).as_str());
    s.append(")");
    let r = TantivyError::InvalidArgument(s);
    assert(r@ =~= field_not_prepared(field));
    r
}

/// An intermediate JSON term is too short.
pub open spec fn invalid_json_term() -> ErrorView {
    ErrorView::InternalError(
        "PreparedSingleDocument encountered an invalid intermediate JSON term"@,
    )
}

/// Builds the error of [`invalid_json_term`].
pub fn invalid_json_term_error() -> (r: TantivyError)
    ensures
        r@ == invalid_json_term(),
{
    let s = "PreparedSingleDocument encountered an invalid intermediate JSON term".to_owned();
    let r = TantivyError::InternalError(s);
    assert(r@ =~= invalid_json_term());
    r
}

/// An intermediate JSON term has a path id that was never given out.
pub open spec fn unknown_path_id() -> ErrorView {
    ErrorView::InternalError(
        "PreparedSingleDocument encountered an unknown JSON path id"@,
    )
}

/// Builds the error of [`unknown_path_id`].
pub fn unknown_path_id_error() -> (r: TantivyError)
    ensures
        r@ == unknown_path_id(),
{
    let s = "PreparedSingleDocument encountered an unknown JSON path id".to_owned();
    let r = TantivyError::InternalError(s);
    assert(r@ =~= unknown_path_id());
    r
}

/// A JSON path id has no path.
pub open spec fn unknown_ordered_path_id() -> ErrorView {
    ErrorView::InternalError(
        "PreparedSingleDocument encountered an unknown ordered JSON path id"@,
    )
}

/// Builds the error of [`unknown_ordered_path_id`].
pub fn unknown_ordered_path_id_error() -> (r: TantivyError)
    ensures
        r@ == unknown_ordered_path_id(),
{
    let s = "PreparedSingleDocument encountered an unknown ordered JSON path id".to_owned();
    let r = TantivyError::InternalError(s);
    assert(r@ =~= unknown_ordered_path_id());
    r
}

/// The tokenizer of a field is not registered.
pub open spec fn tokenizer_missing(name: Seq<char>) -> ErrorView {
    ErrorView::SchemaError(
        "Error getting tokenizer for field: "@ + name,
    )
}

/// Builds the error of [`tokenizer_missing`].
pub fn tokenizer_missing_error(name: &str) -> (r: TantivyError)
    ensures
        r@ == tokenizer_missing(name@),
{
    let mut s = "Error getting tokenizer for field: ".to_owned();
    s.append(name);
    let r = TantivyError::SchemaError(s);
    assert(r@ =~= tokenizer_missing(name@));
    r
}

/// A value has not the type of its field.
pub open spec fn value_type(expected: Type, name: Seq<char>) -> ErrorView {
    ErrorView::SchemaError(
        "Expected a "@ + expected.spec_name() + " for field "@ + text::quoted(name),
    )
}

/// Builds the error of [`value_type`].
pub fn value_type_error(expected: Type, name: &str) -> (r: TantivyError)
    ensures
        r@ == value_type(expected, name@),
{
    let mut s = "Expected a ".to_owned();
    s.append(expected.name());
    s.append(" for field ");
    s.append(text::quoted_text(name).as_str());
    let r = TantivyError::SchemaError(s);
    assert(r@ =~= value_type(expected, name@));
    r
}

} // verus!
