//! What the messages of errors hold.

use vstd::prelude::*;
use crate::error;
use crate::error::ErrorView;
use crate::schema::{Field, Type};
use crate::term;
use crate::term::TermView;
use crate::text;

verus! {

/// A part of a message stands at a place of it.
pub open spec fn stands_in(message: Seq<char>, part: Seq<char>, at: int) -> bool {
    0 <= at && at + part.len() <= message.len() && message.subrange(at, (at + part.len()) as int)
        == part
}

/// A message holds a part.
pub open spec fn holds(message: Seq<char>, part: Seq<char>) -> bool {
    exists|at: int| #[trigger] stands_in(message, part, at)
}

/// A message holds two parts, the second of them behind the first.
pub open spec fn holds_in_order(message: Seq<char>, first: Seq<char>, second: Seq<char>) -> bool {
    exists|i: int, j: int| #[trigger]
        stands_in(message, first, i) && #[trigger] stands_in(message, second, j) && i + first.len()
            <= j
}

proof fn part_is_held(before: Seq<char>, part: Seq<char>, behind: Seq<char>)
    ensures
        holds(before + part + behind, part),
        holds(before + part, part),
{
    let message = before + part + behind;
    assert(message.subrange(before.len() as int, (before.len() + part.len()) as int) =~= part);
    assert(stands_in(message, part, before.len() as int));
    let shorter = before + part;
    assert(shorter.subrange(before.len() as int, (before.len() + part.len()) as int) =~= part);
    assert(stands_in(shorter, part, before.len() as int));
}

proof fn parts_are_held(
    before: Seq<char>,
    first: Seq<char>,
    between: Seq<char>,
    second: Seq<char>,
    behind: Seq<char>,
)
    ensures
        holds_in_order(before + first + between + second + behind, first, second),
        holds_in_order(before + first + between + second, first, second),
{
    let i = before.len() as int;
    let j = (before.len() + first.len() + between.len()) as int;
    let message = before + first + between + second + behind;
    assert(message.subrange(i, (i + first.len()) as int) =~= first);
    assert(message.subrange(j, (j + second.len()) as int) =~= second);
    assert(stands_in(message, first, i) && stands_in(message, second, j));
    let shorter = before + first + between + second;
    assert(shorter.subrange(i, (i + first.len()) as int) =~= first);
    assert(shorter.subrange(j, (j + second.len()) as int) =~= second);
    assert(stands_in(shorter, first, i) && stands_in(shorter, second, j));
}

/// An error about a term of a document is one about an argument, and its message holds the term.
/// Where the numbers of positions and of occurrences differ, they stand before it in this order.
pub proof fn errors_hold_the_term(
    found: TermView,
    query: Seq<char>,
    num_positions: nat,
    term_freq: nat,
)
    ensures
        error::zero_term_frequency(found) matches ErrorView::InvalidArgument(message) && holds(
            message,
            term::term_text(found),
        ),
        error::positions_missing(found) matches ErrorView::InvalidArgument(message) && holds(
            message,
            term::term_text(found),
        ),
        error::positions_unsorted(found) matches ErrorView::InvalidArgument(message) && holds(
            message,
            term::term_text(found),
        ),
        error::position_count(num_positions, term_freq, found) matches ErrorView::InvalidArgument(
            message,
        ) && holds_in_order(message, text::decimal(num_positions), text::decimal(term_freq))
            && holds_in_order(message, text::decimal(term_freq), term::term_text(found)),
        error::offset_too_large(query, found) matches ErrorView::InvalidArgument(message)
            && holds_in_order(message, query, term::term_text(found)),
        error::adjusted_position_too_large(query, found) matches ErrorView::InvalidArgument(message)
            && holds_in_order(message, query, term::term_text(found)),
        error::no_position_postings(query, found)
            matches ErrorView::UnsupportedQueryForSingleDocumentEvaluation(message)
            && holds_in_order(message, query, term::term_text(found)),
{
    let name = term::term_text(found);
    let none = Seq::<char>::empty();
    part_is_held("SingleDocument returned a zero term frequency for "@, name, none);
    part_is_held("SingleDocument did not supply positions for "@, name, none);
    part_is_held("SingleDocument positions are not sorted for "@, name, none);
    let counted = text::decimal(num_positions);
    let occurring = text::decimal(term_freq);
    let between = " positions for term frequency "@;
    parts_are_held(
        "SingleDocument supplied "@,
        counted,
        between,
        occurring,
        " and term "@ + name,
    );
    let whole = "SingleDocument supplied "@ + counted + between + occurring + " and term "@ + name;
    assert(whole =~= "SingleDocument supplied "@ + counted + between + occurring + (" and term "@
        + name));
    parts_are_held(
        "SingleDocument supplied "@ + counted + between,
        occurring,
        " and term "@,
        name,
        none,
    );
    assert(none + query =~= query);
    parts_are_held(none, query, " position offset exceeds u32::MAX for "@, name, none);
    parts_are_held(none, query, " adjusted position exceeds u32::MAX for "@, name, none);
    parts_are_held(none, query, " term "@, name, " does not have position postings"@);
}

/// An error about a field holds its number or its name. A field that cannot be used as it is asked
/// for is an error of the schema, and one that a document lacks is an error of the argument.
pub proof fn errors_hold_the_field(field: Field, name: Seq<char>, expected: Type)
    ensures
        error::unknown_field(field) matches ErrorView::SchemaError(message) && holds(
            message,
            text::decimal(field.0 as nat),
        ),
        error::not_indexed(name) matches ErrorView::SchemaError(message) && holds(
            message,
            text::quoted(name),
        ),
        error::no_positions_indexed(name) matches ErrorView::SchemaError(message) && holds(
            message,
            text::quoted(name),
        ),
        error::tokenizer_missing(name) matches ErrorView::SchemaError(message) && holds(
            message,
            name,
        ),
        error::value_type(expected, name) matches ErrorView::SchemaError(message)
            && holds_in_order(message, expected.spec_name(), text::quoted(name)),
        error::field_not_supplied(name) matches ErrorView::InvalidArgument(message) && holds(
            message,
            text::quoted(name),
        ),
        error::fieldnorm_missing(field) matches ErrorView::InvalidArgument(message) && holds(
            message,
            text::decimal(field.0 as nat),
        ),
        error::field_not_prepared(field) matches ErrorView::InvalidArgument(message) && holds(
            message,
            text::decimal(field.0 as nat),
        ),
{
    let number = text::decimal(field.0 as nat);
    let quoted = text::quoted(name);
    let none = Seq::<char>::empty();
    part_is_held("Field id "@, number, " does not exist in the schema"@);
    part_is_held("Field "@, quoted, " is not indexed."@);
    part_is_held(
        "Applied phrase query on field "@,
        quoted,
        ", which does not have positions indexed"@,
    );
    part_is_held("Error getting tokenizer for field: "@, name, none);
    parts_are_held("Expected a "@, expected.spec_name(), " for field "@, quoted, none);
    part_is_held(
        "SingleDocumentPreparer requires field "@,
        quoted,
        " to be explicitly supplied; use OwnedValue::Null when it has no value"@,
    );
    let lacking = "SingleDocument did not supply a fieldnorm for field "@;
    part_is_held(lacking + "Field("@, number, ")"@);
    assert(lacking + error::field_text(field) =~= lacking + "Field("@ + number + ")"@);
    let unprepared = "PreparedSingleDocument did not prepare required field "@;
    part_is_held(unprepared + "Field("@, number, ")"@);
    assert(unprepared + error::field_text(field) =~= unprepared + "Field("@ + number + ")"@);
}

/// An error about types holds them, what was found before what was expected, and one about a distance
/// the distance before its limit.
pub proof fn errors_hold_types_and_distances(
    found: Type,
    expected: Type,
    distance: nat,
    limit: nat,
)
    ensures
        error::phrase_prefix_type(found, expected) matches ErrorView::SchemaError(message)
            && holds_in_order(message, found.spec_name(), expected.spec_name()),
        error::fuzzy_json_type(found) matches ErrorView::InvalidArgument(message) && holds(
            message,
            found.spec_name(),
        ),
        error::distance_not_allowed(distance, limit) matches ErrorView::InvalidArgument(message)
            && holds_in_order(message, text::decimal(distance), text::decimal(limit)),
{
    let none = Seq::<char>::empty();
    parts_are_held(
        "Create a phrase prefix query of the type "@,
        found.spec_name(),
        ", when the field given was of type "@,
        expected.spec_name(),
        none,
    );
    part_is_held(
        "The fuzzy term query requires a string path type for a json term. Found "@,
        found.spec_name(),
        none,
    );
    parts_are_held(
        "Levenshtein distance of "@,
        text::decimal(distance),
        " is not allowed. Choose a value less than "@,
        text::decimal(limit),
        none,
    );
}

/// What is written of a term holds its field, its type and its bytes, in this order.
pub proof fn terms_are_written_with_their_parts(found: TermView)
    ensures
        holds_in_order(
            term::term_text(found),
            text::decimal(found.field.0 as nat),
            found.typ.spec_name(),
        ),
        holds_in_order(
            term::term_text(found),
            found.typ.spec_name(),
            term::number_list(found.value),
        ),
{
    let field = text::decimal(found.field.0 as nat);
    let typ = found.typ.spec_name();
    let bytes = term::number_list(found.value);
    let start = "Term(field="@;
    parts_are_held(start, field, ", type="@, typ, ", bytes=["@ + bytes + "])"@);
    assert(term::term_text(found) =~= start + field + ", type="@ + typ + (", bytes=["@ + bytes
        + "])"@));
    parts_are_held(start + field + ", type="@, typ, ", bytes=["@, bytes, "])"@);
}

} // verus!
