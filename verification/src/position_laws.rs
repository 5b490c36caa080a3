//! At which positions of a prepared document the terms of its values stand.

use vstd::prelude::*;
use crate::document::{JsonLeafView, LeafValueView, TokenView, ValueView};
use crate::error::ErrorView;
use crate::indexing;
use crate::indexing::{DocumentIndexing, FieldIndexing};
use crate::indexing_laws;
use crate::json_paths;
use crate::match_laws;
use crate::phrase_laws;
use crate::phrase_query;
use crate::phrase_query::{PhraseEvaluatorView, PhraseQuery, PhraseSingleDocumentEvaluator};
use crate::postings;
use crate::preparation_laws;
use crate::prepared_document;
use crate::prepared_document::PreparedDocumentView;
use crate::schema::{Field, FieldEntryView, Type};
use crate::single_document::{ContextView, SingleDocumentEvaluator, TermInfoView};
use crate::term::TermView;
use crate::term_map;

verus! {

/// The end of a text that begins at `start`: it is not before the start, not before the end of a
/// token, and one of these.
pub open spec fn ends_text(tokens: Seq<TokenView>, start: int, end: int) -> bool {
    &&& start <= end
    &&& forall|i: int|
        0 <= i < tokens.len() ==> start + (#[trigger] tokens[i]).position
            + tokens[i].position_length <= end
    &&& end == start || exists|i: int|
        0 <= i < tokens.len() && end == start + (#[trigger] tokens[i]).position
            + tokens[i].position_length
}

/// The end of a text that begins at `start`.
pub open spec fn text_end(tokens: Seq<TokenView>, start: int) -> int {
    choose|end: int| #[trigger] ends_text(tokens, start, end)
}

/// The position at which the text at index `n` of a document begins, where it is one of the field:
/// the first one at zero, each further one with a gap of one behind the end of the one before.
pub open spec fn text_start(document: Seq<(Field, ValueView)>, field: Field, n: nat) -> int
    decreases n,
{
    if n == 0 || n > document.len() {
        0
    } else {
        let before = text_start(document, field, (n - 1) as nat);
        match document[n - 1].1 {
            ValueView::Text(tokens) if document[n - 1].0 == field => text_end(tokens, before) + 1,
            _ => before,
        }
    }
}

/// The values inside the JSON objects that a document has for a field, one object after the other.
pub open spec fn leaves_of(document: Seq<(Field, ValueView)>, field: Field) -> Seq<JsonLeafView>
    decreases document.len(),
{
    if document.len() == 0 {
        Seq::empty()
    } else {
        let before = leaves_of(document.drop_last(), field);
        match document.last().1 {
            ValueView::Json(leaves) if document.last().0 == field => before + leaves,
            _ => before,
        }
    }
}

/// The position at which the text at index `n` of the values inside JSON objects begins: the first
/// one at its path at zero, each further one with a gap of one behind the end of the one before.
pub open spec fn leaf_start(leaves: Seq<JsonLeafView>, path: Seq<char>, n: nat) -> int
    decreases n,
{
    if n == 0 || n > leaves.len() {
        0
    } else {
        let before = leaf_start(leaves, path, (n - 1) as nat);
        match leaves[n - 1].value {
            LeafValueView::Text(tokens) if leaves[n - 1].path == path => text_end(tokens, before)
                + 1,
            _ => before,
        }
    }
}

/// A text has one end.
proof fn text_ends_once(tokens: Seq<TokenView>, start: int, end: int)
    requires
        ends_text(tokens, start, end),
    ensures
        text_end(tokens, start) == end,
{
    let other = text_end(tokens, start);
    assert(ends_text(tokens, start, other));
}

/// Every text has an end.
proof fn text_has_an_end(tokens: Seq<TokenView>, start: int)
    ensures
        ends_text(tokens, start, text_end(tokens, start)),
    decreases tokens.len(),
{
    if tokens.len() == 0 {
        assert(ends_text(tokens, start, start));
    } else {
        let shorter = tokens.drop_last();
        let last = tokens.last();
        text_has_an_end(shorter, start);
        let before = text_end(shorter, start);
        let own = start + last.position + last.position_length;
        let end = if before <= own {
            own
        } else {
            before
        };
        assert(tokens[tokens.len() - 1] == last);
        assert forall|i: int| 0 <= i < tokens.len() implies start + (#[trigger] tokens[i]).position
            + tokens[i].position_length <= end by {
            if i < shorter.len() {
                assert(shorter[i] == tokens[i]);
            }
        }
        if end == before && before != start {
            let i = choose|i: int|
                0 <= i < shorter.len() && before == start + (#[trigger] shorter[i]).position
                    + shorter[i].position_length;
            assert(shorter[i] == tokens[i]);
        }
        assert(ends_text(tokens, start, end));
    }
}

/// The end of a text that fits is found.
proof fn end_is_found(tokens: Seq<TokenView>, base: u32)
    requires
        text_end(tokens, base as int) < u32::MAX,
    ensures
        indexing::end_of_text(tokens, base) == text_end(tokens, base as int),
        indexing::next_text(tokens, base) == text_end(tokens, base as int) + 1,
    decreases tokens.len(),
{
    text_has_an_end(tokens, base as int);
    let end = text_end(tokens, base as int);
    if tokens.len() == 0 {
        assert(end == base);
    } else {
        let shorter = tokens.drop_last();
        let last = tokens.last();
        text_has_an_end(shorter, base as int);
        let before = text_end(shorter, base as int);
        assert(tokens[tokens.len() - 1] == last);
        assert(before <= end) by {
            if before != base {
                let i = choose|i: int|
                    0 <= i < shorter.len() && before == base + (#[trigger] shorter[i]).position
                        + shorter[i].position_length;
                assert(shorter[i] == tokens[i]);
            }
        }
        end_is_found(shorter, base);
        let own = base + last.position + last.position_length;
        assert(own <= end);
        let greater = if before <= own {
            own
        } else {
            before
        };
        assert(end == greater) by {
            if end != base {
                let i = choose|i: int|
                    0 <= i < tokens.len() && end == base + (#[trigger] tokens[i]).position
                        + tokens[i].position_length;
                if i < shorter.len() {
                    assert(shorter[i] == tokens[i]);
                }
            }
        }
    }
}

/// One of the occurrences is at a position, of an intermediate term that `term` stands for.
spec fn occurs_at(
    occurrences: Seq<(TermView, u32)>,
    paths: Seq<Seq<char>>,
    term: TermView,
    position: u32,
) -> bool {
    exists|i: int|
        0 <= i < occurrences.len() && postings::normalized_term(
            (#[trigger] occurrences[i]).0,
            json_paths::counting_ids(paths.len()),
            paths,
        ) == Ok::<TermView, ErrorView>(term) && occurrences[i].1 == position
}

proof fn occurs_in_either(
    left: Seq<(TermView, u32)>,
    right: Seq<(TermView, u32)>,
    paths: Seq<Seq<char>>,
    term: TermView,
    position: u32,
)
    ensures
        occurs_at(left + right, paths, term, position) <==> occurs_at(left, paths, term, position)
            || occurs_at(right, paths, term, position),
{
    let ids = json_paths::counting_ids(paths.len());
    let all = left + right;
    if occurs_at(left, paths, term, position) {
        let i = choose|i: int|
            0 <= i < left.len() && postings::normalized_term((#[trigger] left[i]).0, ids, paths)
                == Ok::<TermView, ErrorView>(term) && left[i].1 == position;
        assert(all[i] == left[i]);
    }
    if occurs_at(right, paths, term, position) {
        let i = choose|i: int|
            0 <= i < right.len() && postings::normalized_term((#[trigger] right[i]).0, ids, paths)
                == Ok::<TermView, ErrorView>(term) && right[i].1 == position;
        assert(all[left.len() + i] == right[i]);
    }
    if occurs_at(all, paths, term, position) {
        let i = choose|i: int|
            0 <= i < all.len() && postings::normalized_term((#[trigger] all[i]).0, ids, paths)
                == Ok::<TermView, ErrorView>(term) && all[i].1 == position;
        if i < left.len() {
            assert(left[i] == all[i]);
        } else {
            assert(right[i - left.len()] == all[i]);
        }
    }
}

proof fn positions_are_the_occurrences(
    occurrences: Seq<(TermView, u32)>,
    term: TermView,
    position: u32,
)
    ensures
        postings::positions_in(occurrences, term).contains(position) <==> exists|i: int|
            0 <= i < occurrences.len() && #[trigger] occurrences[i] == (term, position),
    decreases occurrences.len(),
{
    if occurrences.len() > 0 {
        let shorter = occurrences.drop_last();
        let last = occurrences.last();
        positions_are_the_occurrences(shorter, term, position);
        let before = postings::positions_in(shorter, term);
        let all = postings::positions_in(occurrences, term);
        assert(occurrences[occurrences.len() - 1] == last);
        if before.contains(position) {
            let i = before.index_of(position);
            assert(all[i] == position);
            let k = choose|k: int|
                0 <= k < shorter.len() && #[trigger] shorter[k] == (term, position);
            assert(occurrences[k] == (term, position));
        }
        if last == (term, position) {
            assert(all[before.len() as int] == position);
        }
        if all.contains(position) && last != (term, position) {
            let i = all.index_of(position);
            assert(i < before.len());
            assert(before[i] == position);
        }
        if exists|i: int|
            0 <= i < occurrences.len() && #[trigger] occurrences[i] == (term, position) {
            let i = choose|i: int|
                0 <= i < occurrences.len() && #[trigger] occurrences[i] == (term, position);
            if i < shorter.len() {
                assert(shorter[i] == occurrences[i]);
            }
        }
    }
}

proof fn merged_positions(lists: Seq<Seq<u32>>, position: u32)
    ensures
        postings::all_positions(lists).count(position) > 0 <==> exists|i: int|
            0 <= i < lists.len() && (#[trigger] lists[i]).contains(position),
    decreases lists.len(),
{
    broadcast use vstd::seq_lib::group_to_multiset_ensures;

    if lists.len() > 0 {
        let shorter = lists.drop_last();
        merged_positions(shorter, position);
        assert(lists[lists.len() - 1] == lists.last());
        assert(lists.last().to_multiset().count(position) > 0 <==> lists.last().contains(position));
        if exists|i: int| 0 <= i < shorter.len() && (#[trigger] shorter[i]).contains(position) {
            let i = choose|i: int|
                0 <= i < shorter.len() && (#[trigger] shorter[i]).contains(position);
            assert(lists[i] == shorter[i]);
        }
        if exists|i: int| 0 <= i < lists.len() && (#[trigger] lists[i]).contains(position) {
            let i = choose|i: int|
                0 <= i < lists.len() && (#[trigger] lists[i]).contains(position);
            if i < shorter.len() {
                assert(shorter[i] == lists[i]);
            }
        }
    }
}

proof fn sources_are_entries(
    raw: Seq<(TermView, Seq<u32>)>,
    ids: Seq<u32>,
    paths: Seq<Seq<char>>,
    term: TermView,
    position: u32,
)
    ensures
        ({
            let lists = postings::sources(raw, ids, paths, term);
            (exists|i: int| 0 <= i < lists.len() && (#[trigger] lists[i]).contains(position))
                <==> exists|j: int|
                0 <= j < raw.len() && postings::normalized_term((#[trigger] raw[j]).0, ids, paths)
                    == Ok::<TermView, ErrorView>(term) && raw[j].1.contains(position)
        }),
        postings::sources(raw, ids, paths, term).len() > 0 <==> exists|j: int|
            0 <= j < raw.len() && postings::normalized_term((#[trigger] raw[j]).0, ids, paths)
                == Ok::<TermView, ErrorView>(term),
    decreases raw.len(),
{
    if raw.len() > 0 {
        let shorter = raw.drop_last();
        let last = raw.last();
        sources_are_entries(shorter, ids, paths, term, position);
        let before = postings::sources(shorter, ids, paths, term);
        let lists = postings::sources(raw, ids, paths, term);
        assert(raw[raw.len() - 1] == last);
        if exists|i: int| 0 <= i < before.len() && (#[trigger] before[i]).contains(position) {
            let i = choose|i: int|
                0 <= i < before.len() && (#[trigger] before[i]).contains(position);
            assert(lists[i] == before[i]);
            let j = choose|j: int|
                0 <= j < shorter.len() && postings::normalized_term(
                    (#[trigger] shorter[j]).0,
                    ids,
                    paths,
                ) == Ok::<TermView, ErrorView>(term) && shorter[j].1.contains(position);
            assert(raw[j] == shorter[j]);
        }
        if before.len() > 0 {
            let j = choose|j: int|
                0 <= j < shorter.len() && postings::normalized_term(
                    (#[trigger] shorter[j]).0,
                    ids,
                    paths,
                ) == Ok::<TermView, ErrorView>(term);
            assert(raw[j] == shorter[j]);
        }
        if postings::normalized_term(last.0, ids, paths) == Ok::<TermView, ErrorView>(term) {
            assert(lists[before.len() as int] == last.1);
        }
        if exists|i: int| 0 <= i < lists.len() && (#[trigger] lists[i]).contains(position) {
            let i = choose|i: int|
                0 <= i < lists.len() && (#[trigger] lists[i]).contains(position);
            if i < before.len() {
                assert(before[i] == lists[i]);
            }
        }
        if exists|j: int|
            0 <= j < raw.len() && postings::normalized_term((#[trigger] raw[j]).0, ids, paths)
                == Ok::<TermView, ErrorView>(term) && raw[j].1.contains(position) {
            let j = choose|j: int|
                0 <= j < raw.len() && postings::normalized_term((#[trigger] raw[j]).0, ids, paths)
                    == Ok::<TermView, ErrorView>(term) && raw[j].1.contains(position);
            if j < shorter.len() {
                assert(shorter[j] == raw[j]);
            }
        }
        if exists|j: int|
            0 <= j < raw.len() && postings::normalized_term((#[trigger] raw[j]).0, ids, paths)
                == Ok::<TermView, ErrorView>(term) {
            let j = choose|j: int|
                0 <= j < raw.len() && postings::normalized_term((#[trigger] raw[j]).0, ids, paths)
                    == Ok::<TermView, ErrorView>(term);
            if j < shorter.len() {
                assert(shorter[j] == raw[j]);
            }
        }
    }
}

/// A term stands in a prepared document where it occurs.
proof fn prepared_positions(
    prepared: PreparedDocumentView,
    indexed: DocumentIndexing,
    term: TermView,
    position: u32,
)
    requires
        prepared_document::holds_indexing(prepared, indexed),
    ensures
        phrase_laws::stands_at(prepared.answers(), term, position as int) <==> occurs_at(
            indexed.occurrences,
            indexed.paths,
            term,
            position,
        ),
{
    broadcast use vstd::seq_lib::group_to_multiset_ensures;

    let paths = indexed.paths;
    let ids = json_paths::counting_ids(paths.len());
    let occurrences = indexed.occurrences;
    let raw = choose|raw: Seq<(TermView, Seq<u32>)>| #[trigger]
        postings::lists_occurrences(raw, occurrences) && postings::normalizes(
            raw,
            ids,
            paths,
            prepared.terms,
        );
    let found = term_map::lookup(prepared.terms, term);
    let lists = postings::sources(raw, ids, paths, term);
    sources_are_entries(raw, ids, paths, term, position);
    merged_positions(lists, position);
    let entry_has = exists|j: int|
        0 <= j < raw.len() && postings::normalized_term((#[trigger] raw[j]).0, ids, paths) == Ok::<
            TermView,
            ErrorView,
        >(term) && raw[j].1.contains(position);
    assert(phrase_laws::stands_at(prepared.answers(), term, position as int) <==> found is Some
        && found->0.contains(position)) by {
        if let Some(positions) = found {
            let info = prepared_document::info_of(positions);
            if positions.contains(position) {
                let i = positions.index_of(position);
                assert(positions[i] == position as int);
                assert(phrase_laws::has_position(info, position as int));
            }
            if phrase_laws::has_position(info, position as int) {
                let i = choose|i: int|
                    0 <= i < positions.len() && #[trigger] positions[i] == position as int;
                assert(positions[i] == position);
            }
        }
    }
    assert((found is Some && found->0.contains(position)) <==> entry_has) by {
        if let Some(positions) = found {
            if lists.len() == 1 {
                assert(positions == lists[0]);
                if positions.contains(position) {
                    assert(lists[0].contains(position));
                }
            } else {
                assert(positions.to_multiset().count(position) > 0 <==> positions.contains(
                    position,
                ));
            }
        }
    }
    if entry_has {
        let j = choose|j: int|
            0 <= j < raw.len() && postings::normalized_term((#[trigger] raw[j]).0, ids, paths)
                == Ok::<TermView, ErrorView>(term) && raw[j].1.contains(position);
        term_map::lookup_finds(raw, j);
        assert(term_map::lookup(raw, raw[j].0) == postings::listed(occurrences, raw[j].0));
        positions_are_the_occurrences(occurrences, raw[j].0, position);
        let k = choose|k: int|
            0 <= k < occurrences.len() && #[trigger] occurrences[k] == (raw[j].0, position);
        assert(postings::normalized_term(occurrences[k].0, ids, paths) == Ok::<
            TermView,
            ErrorView,
        >(term));
    }
    if occurs_at(occurrences, paths, term, position) {
        let k = choose|k: int|
            0 <= k < occurrences.len() && postings::normalized_term(
                (#[trigger] occurrences[k]).0,
                ids,
                paths,
            ) == Ok::<TermView, ErrorView>(term) && occurrences[k].1 == position;
        let source = occurrences[k].0;
        assert(occurrences[k] == (source, position));
        positions_are_the_occurrences(occurrences, source, position);
        let positions = postings::positions_in(occurrences, source);
        assert(positions.len() > 0);
        assert(term_map::lookup(raw, source) == postings::listed(occurrences, source));
        let j = term_map::lookup_is_listed(raw, source);
        assert(raw[j] == (source, positions));
    }
}

/// What is part of a field is an occurrence.
proof fn field_part_is_of_the_occurrences(
    occurrences: Seq<(TermView, u32)>,
    field: Field,
    i: int,
)
    requires
        0 <= i < preparation_laws::field_part(occurrences, field).len(),
    ensures
        preparation_laws::field_part(occurrences, field)[i].0.field == field,
        exists|k: int|
            0 <= k < occurrences.len() && #[trigger] occurrences[k] == preparation_laws::field_part(
                occurrences,
                field,
            )[i],
    decreases occurrences.len(),
{
    if occurrences.len() > 0 {
        let shorter = occurrences.drop_last();
        let before = preparation_laws::field_part(shorter, field);
        let all = preparation_laws::field_part(occurrences, field);
        assert(occurrences[occurrences.len() - 1] == occurrences.last());
        if i < before.len() {
            assert(all[i] == before[i]);
            field_part_is_of_the_occurrences(shorter, field, i);
            let k = choose|k: int| 0 <= k < shorter.len() && #[trigger] shorter[k] == before[i];
            assert(occurrences[k] == before[i]);
        }
    }
}

/// A term occurs where it occurs among the occurrences of its field.
proof fn occurs_in_its_field(
    occurrences: Seq<(TermView, u32)>,
    paths: Seq<Seq<char>>,
    term: TermView,
    position: u32,
)
    ensures
        occurs_at(occurrences, paths, term, position) <==> occurs_at(
            preparation_laws::field_part(occurrences, term.field),
            paths,
            term,
            position,
        ),
{
    let ids = json_paths::counting_ids(paths.len());
    let part = preparation_laws::field_part(occurrences, term.field);
    if occurs_at(occurrences, paths, term, position) {
        let k = choose|k: int|
            0 <= k < occurrences.len() && postings::normalized_term(
                (#[trigger] occurrences[k]).0,
                ids,
                paths,
            ) == Ok::<TermView, ErrorView>(term) && occurrences[k].1 == position;
        let i = preparation_laws::occurrence_is_in_field_part(occurrences, k);
        assert(part[i] == occurrences[k]);
    }
    if occurs_at(part, paths, term, position) {
        let i = choose|i: int|
            0 <= i < part.len() && postings::normalized_term((#[trigger] part[i]).0, ids, paths)
                == Ok::<TermView, ErrorView>(term) && part[i].1 == position;
        field_part_is_of_the_occurrences(occurrences, term.field, i);
        let k = choose|k: int| 0 <= k < occurrences.len() && #[trigger] occurrences[k] == part[i];
        assert(postings::normalized_term(occurrences[k].0, ids, paths) == Ok::<
            TermView,
            ErrorView,
        >(term));
    }
}

/// The token at index `i` of the text at index `n` of a document is a term at a position.
pub open spec fn token_stands_at(
    document: Seq<(Field, ValueView)>,
    n: int,
    i: int,
    term: TermView,
    position: int,
) -> bool {
    &&& 0 <= n < document.len()
    &&& document[n].0 == term.field
    &&& document[n].1 matches ValueView::Text(tokens) && 0 <= i < tokens.len() && term.typ
        == Type::Str && term.value == vstd::utf8::encode_utf8(tokens[i].text) && position
        == text_start(document, term.field, n as nat) + tokens[i].position
}

/// One of the tokens of the texts of a document is a term at a position.
pub open spec fn some_token_stands_at(
    document: Seq<(Field, ValueView)>,
    term: TermView,
    position: int,
) -> bool {
    exists|n: int, i: int| #[trigger] token_stands_at(document, n, i, term, position)
}

proof fn text_start_of_shorter(document: Seq<(Field, ValueView)>, field: Field, n: nat)
    requires
        n < document.len(),
    ensures
        text_start(document.drop_last(), field, n) == text_start(document, field, n),
    decreases n,
{
    if n > 0 {
        text_start_of_shorter(document, field, (n - 1) as nat);
    }
}

proof fn text_starts_grow(document: Seq<(Field, ValueView)>, field: Field, n: nat, m: nat)
    requires
        n <= m <= document.len(),
    ensures
        0 <= text_start(document, field, n) <= text_start(document, field, m),
    decreases m,
{
    if m > 0 {
        let before = text_start(document, field, (m - 1) as nat);
        if n < m {
            text_starts_grow(document, field, n, (m - 1) as nat);
        } else {
            text_starts_grow(document, field, (n - 1) as nat, (m - 1) as nat);
        }
        if let ValueView::Text(tokens) = document[m - 1].1 {
            text_has_an_end(tokens, before);
        }
    }
}

proof fn tokens_occur(
    field: Field,
    base: u32,
    tokens: Seq<TokenView>,
    paths: Seq<Seq<char>>,
    term: TermView,
    position: u32,
)
    requires
        text_end(tokens, base as int) < u32::MAX,
        term.field == field,
    ensures
        occurs_at(
            indexing::text_occurrences(field, Type::Str, Seq::empty(), base, tokens),
            paths,
            term,
            position,
        ) <==> exists|i: int|
            0 <= i < tokens.len() && term.typ == Type::Str && term.value
                == vstd::utf8::encode_utf8((#[trigger] tokens[i]).text) && position == base
                + tokens[i].position,
{
    let occurrences = indexing::text_occurrences(field, Type::Str, Seq::empty(), base, tokens);
    let ids = json_paths::counting_ids(paths.len());
    text_has_an_end(tokens, base as int);
    assert forall|i: int| 0 <= i < tokens.len() implies (#[trigger] occurrences[i]).0 == (TermView {
        field,
        typ: Type::Str,
        value: vstd::utf8::encode_utf8(tokens[i].text),
    }) && occurrences[i].1 == base + tokens[i].position by {
        assert(Seq::<u8>::empty() + vstd::utf8::encode_utf8(tokens[i].text)
            =~= vstd::utf8::encode_utf8(tokens[i].text));
        assert(base + tokens[i].position + tokens[i].position_length <= text_end(
            tokens,
            base as int,
        ));
    }
    if occurs_at(occurrences, paths, term, position) {
        let i = choose|i: int|
            0 <= i < occurrences.len() && postings::normalized_term(
                (#[trigger] occurrences[i]).0,
                ids,
                paths,
            ) == Ok::<TermView, ErrorView>(term) && occurrences[i].1 == position;
        assert(tokens[i].text == tokens[i].text);
    }
    if exists|i: int|
        0 <= i < tokens.len() && term.typ == Type::Str && term.value == vstd::utf8::encode_utf8(
            (#[trigger] tokens[i]).text,
        ) && position == base + tokens[i].position {
        let i = choose|i: int|
            0 <= i < tokens.len() && term.typ == Type::Str && term.value
                == vstd::utf8::encode_utf8((#[trigger] tokens[i]).text) && position == base
                + tokens[i].position;
        assert(occurrences[i].0 =~= term);
    }
}

proof fn texts_occur(
    field: Field,
    entry: FieldEntryView,
    start: FieldIndexing,
    document: Seq<(Field, ValueView)>,
    paths: Seq<Seq<char>>,
    term: TermView,
    position: u32,
)
    requires
        entry.field_type.value_type == Type::Str,
        start.next == 0,
        term.field == field,
        text_start(document, field, document.len()) <= u32::MAX,
    ensures
        indexing::field_values_indexed(field, entry, start, document) is Ok,
        ({
            let after = indexing::field_values_indexed(field, entry, start, document)->Ok_0;
            &&& after.next == text_start(document, field, document.len())
            &&& occurs_at(after.occurrences, paths, term, position) <==> occurs_at(
                start.occurrences,
                paths,
                term,
                position,
            ) || some_token_stands_at(document, term, position as int)
        }),
    decreases document.len(),
{
    if document.len() > 0 {
        let shorter = document.drop_last();
        let m = shorter.len();
        text_starts_grow(document, field, m, document.len());
        text_start_of_shorter(document, field, m);
        texts_occur(field, entry, start, shorter, paths, term, position);
        let before = indexing::field_values_indexed(field, entry, start, shorter)->Ok_0;
        let after = indexing::field_values_indexed(field, entry, start, document)->Ok_0;
        let base = before.next;
        assert(document[m as int] == document.last());
        let own = document.last().0 == field && document.last().1 is Text;
        if own {
            let tokens = document.last().1->Text_0;
            text_has_an_end(tokens, base as int);
            end_is_found(tokens, base);
            let added = indexing::text_occurrences(field, Type::Str, Seq::empty(), base, tokens);
            tokens_occur(field, base, tokens, paths, term, position);
            occurs_in_either(before.occurrences, added, paths, term, position);
            if occurs_at(added, paths, term, position) {
                let i = choose|i: int|
                    0 <= i < tokens.len() && term.typ == Type::Str && term.value
                        == vstd::utf8::encode_utf8((#[trigger] tokens[i]).text) && position == base
                        + tokens[i].position;
                assert(token_stands_at(document, m as int, i, term, position as int));
            }
        }
        if some_token_stands_at(shorter, term, position as int) {
            let (n, i) = choose|n: int, i: int| #[trigger]
                token_stands_at(shorter, n, i, term, position as int);
            text_start_of_shorter(document, field, n as nat);
            assert(shorter[n] == document[n]);
            assert(token_stands_at(document, n, i, term, position as int));
        }
        if some_token_stands_at(document, term, position as int) {
            let (n, i) = choose|n: int, i: int| #[trigger]
                token_stands_at(document, n, i, term, position as int);
            if n < m {
                text_start_of_shorter(document, field, n as nat);
                assert(shorter[n] == document[n]);
                assert(token_stands_at(shorter, n, i, term, position as int));
            } else {
                let tokens = document.last().1->Text_0;
                assert(tokens[i].text == tokens[i].text);
            }
        }
    }
}

/// The occurrences of a field are those that its values add.
proof fn field_occurs(
    schema: Seq<FieldEntryView>,
    fields: Seq<Field>,
    document: Seq<(Field, ValueView)>,
    term: TermView,
    position: u32,
) -> (start: FieldIndexing)
    requires
        fields.no_duplicates(),
        fields.contains(term.field),
        indexing::document_indexed(schema, fields, document) is Ok,
        schema[term.field.0 as int].field_type.record_option is Some,
    ensures
        start.next == 0,
        start.next_at_path == Map::<Seq<char>, u32>::empty(),
        indexing::has_contents(document, term.field) ==> indexing::field_values_indexed(
            term.field,
            schema[term.field.0 as int],
            start,
            document,
        ) is Ok,
        ({
            let indexed = indexing::document_indexed(schema, fields, document)->Ok_0;
            let after = if indexing::has_contents(document, term.field) {
                indexing::field_values_indexed(
                    term.field,
                    schema[term.field.0 as int],
                    start,
                    document,
                )->Ok_0
            } else {
                start
            };
            &&& start.occurrences.is_prefix_of(after.occurrences)
            &&& after.paths.is_prefix_of(indexed.paths)
            &&& occurs_at(indexed.occurrences, indexed.paths, term, position) <==> occurs_at(
                after.occurrences.skip(start.occurrences.len() as int),
                indexed.paths,
                term,
                position,
            )
        }),
{
    let field = term.field;
    let indexed = indexing::document_indexed(schema, fields, document)->Ok_0;
    let start = preparation_laws::stage_of_field(schema, fields, document, field);
    let after = preparation_laws::field_step(schema, document, field, start)->Ok_0;
    occurs_in_its_field(indexed.occurrences, indexed.paths, term, position);
    if indexing::has_contents(document, field) {
        preparation_laws::values_steps_are_the_same(
            field,
            schema[field.0 as int],
            start,
            start,
            document,
        );
    } else {
        assert(start.occurrences =~= start.occurrences.subrange(
            0,
            start.occurrences.len() as int,
        ));
    }
    start
}

/// The terms of a text field stand in a prepared document where the tokens of its texts do: the
/// first text begins at zero, and each further one leaves a gap of one behind the end of the one
/// before. The positions have to fit.
pub proof fn texts_stand_behind_each_other(
    schema: Seq<FieldEntryView>,
    fields: Seq<Field>,
    document: Seq<(Field, ValueView)>,
    prepared: PreparedDocumentView,
    term: TermView,
    position: u32,
)
    requires
        fields.no_duplicates(),
        fields.contains(term.field),
        indexing::document_indexed(schema, fields, document) is Ok,
        prepared_document::holds_indexing(
            prepared,
            indexing::document_indexed(schema, fields, document)->Ok_0,
        ),
        schema[term.field.0 as int].field_type.record_option is Some,
        schema[term.field.0 as int].field_type.value_type == Type::Str,
        text_start(document, term.field, document.len()) <= u32::MAX,
    ensures
        phrase_laws::stands_at(prepared.answers(), term, position as int) <==> exists|
            n: int,
            i: int,
        | #[trigger]
            token_stands_at(document, n, i, term, position as int),
{
    let field = term.field;
    let indexed = indexing::document_indexed(schema, fields, document)->Ok_0;
    prepared_positions(prepared, indexed, term, position);
    let start = field_occurs(schema, fields, document, term, position);
    let fresh = FieldIndexing { occurrences: Seq::empty(), ..start };
    let entry = schema[field.0 as int];
    texts_occur(field, entry, fresh, document, indexed.paths, term, position);
    let from_fresh = indexing::field_values_indexed(field, entry, fresh, document)->Ok_0;
    assert(!occurs_at(fresh.occurrences, indexed.paths, term, position));
    if indexing::has_contents(document, field) {
        values_add_the_same(field, entry, start, document);
        let after = indexing::field_values_indexed(field, entry, start, document)->Ok_0;
        assert(after.occurrences.skip(start.occurrences.len() as int)
            =~= from_fresh.occurrences);
    } else {
        assert(start.occurrences.skip(start.occurrences.len() as int) =~= Seq::empty());
        assert(!some_token_stands_at(document, term, position as int)) by {
            if some_token_stands_at(document, term, position as int) {
                let (n, i) = choose|n: int, i: int| #[trigger]
                    token_stands_at(document, n, i, term, position as int);
                assert(document[n].0 == field && document[n].1 !is Null);
            }
        }
    }
}

/// What the leaves of a JSON object add does not depend on what is there.
proof fn leaves_add_the_same(field: Field, state: FieldIndexing, leaves: Seq<JsonLeafView>)
    ensures
        ({
            let fresh = FieldIndexing { occurrences: Seq::empty(), ..state };
            let after = indexing::leaves_indexed(field, state, leaves);
            let from_fresh = indexing::leaves_indexed(field, fresh, leaves);
            from_fresh == FieldIndexing { occurrences: from_fresh.occurrences, ..after }
                && after.occurrences == state.occurrences + from_fresh.occurrences
        }),
    decreases leaves.len(),
{
    let fresh = FieldIndexing { occurrences: Seq::empty(), ..state };
    if leaves.len() == 0 {
        assert(state.occurrences + Seq::<(TermView, u32)>::empty() =~= state.occurrences);
    } else {
        leaves_add_the_same(field, state, leaves.drop_last());
        let before = indexing::leaves_indexed(field, state, leaves.drop_last());
        let from_fresh = indexing::leaves_indexed(field, fresh, leaves.drop_last());
        let after = indexing::leaves_indexed(field, state, leaves);
        let all = indexing::leaves_indexed(field, fresh, leaves);
        assert(after.occurrences =~= state.occurrences + all.occurrences);
    }
}

/// What the values of a field add does not depend on what is there.
proof fn values_add_the_same(
    field: Field,
    entry: FieldEntryView,
    state: FieldIndexing,
    document: Seq<(Field, ValueView)>,
)
    requires
        indexing::field_values_indexed(field, entry, state, document) is Ok,
    ensures
        ({
            let fresh = FieldIndexing { occurrences: Seq::empty(), ..state };
            let after = indexing::field_values_indexed(field, entry, state, document)->Ok_0;
            let from_fresh = indexing::field_values_indexed(field, entry, fresh, document)->Ok_0;
            indexing::field_values_indexed(field, entry, fresh, document) is Ok && from_fresh
                == FieldIndexing { occurrences: from_fresh.occurrences, ..after }
                && after.occurrences == state.occurrences + from_fresh.occurrences
        }),
    decreases document.len(),
{
    let fresh = FieldIndexing { occurrences: Seq::empty(), ..state };
    if document.len() == 0 {
        assert(state.occurrences + Seq::<(TermView, u32)>::empty() =~= state.occurrences);
    } else {
        let shorter = document.drop_last();
        values_add_the_same(field, entry, state, shorter);
        let before = indexing::field_values_indexed(field, entry, state, shorter)->Ok_0;
        let middle = indexing::field_values_indexed(field, entry, fresh, shorter)->Ok_0;
        let after = indexing::field_values_indexed(field, entry, state, document)->Ok_0;
        let all = indexing::field_values_indexed(field, entry, fresh, document)->Ok_0;
        if document.last().0 == field {
            if let ValueView::Json(leaves) = document.last().1 {
                if entry.field_type.value_type == Type::Json {
                    leaves_add_the_same(field, before, leaves);
                    leaves_add_the_same(field, middle, leaves);
                    assert(FieldIndexing { occurrences: Seq::empty(), ..before }
                        == FieldIndexing { occurrences: Seq::empty(), ..middle });
                }
            }
        }
        assert(after.occurrences =~= state.occurrences + all.occurrences);
    }
}

/// The value at index `n` inside JSON objects gives a term at a position. Of a text it is the token
/// at index `i`; any other value stands at zero.
pub open spec fn leaf_stands_at(
    leaves: Seq<JsonLeafView>,
    n: int,
    i: int,
    term: TermView,
    position: int,
) -> bool {
    &&& 0 <= n < leaves.len()
    &&& term.typ == Type::Json
    &&& match leaves[n].value {
        LeafValueView::Text(tokens) => 0 <= i < tokens.len() && term.value
            == postings::json_term_value(
            leaves[n].path,
            seq![Type::Str.spec_code()] + vstd::utf8::encode_utf8(tokens[i].text),
        ) && position == leaf_start(leaves, leaves[n].path, n as nat) + tokens[i].position,
        LeafValueView::Exact(typ, bytes) => term.value == postings::json_term_value(
            leaves[n].path,
            seq![typ.spec_code()] + bytes,
        ) && position == 0,
    }
}

/// One of the values inside JSON objects gives a term at a position.
pub open spec fn some_leaf_stands_at(
    leaves: Seq<JsonLeafView>,
    term: TermView,
    position: int,
) -> bool {
    exists|n: int, i: int| #[trigger] leaf_stands_at(leaves, n, i, term, position)
}

proof fn leaf_start_of_shorter(leaves: Seq<JsonLeafView>, path: Seq<char>, n: nat)
    requires
        n < leaves.len(),
    ensures
        leaf_start(leaves.drop_last(), path, n) == leaf_start(leaves, path, n),
    decreases n,
{
    if n > 0 {
        leaf_start_of_shorter(leaves, path, (n - 1) as nat);
    }
}

proof fn leaf_starts_grow(leaves: Seq<JsonLeafView>, path: Seq<char>, n: nat, m: nat)
    requires
        n <= m <= leaves.len(),
    ensures
        0 <= leaf_start(leaves, path, n) <= leaf_start(leaves, path, m),
    decreases m,
{
    if m > 0 {
        let before = leaf_start(leaves, path, (m - 1) as nat);
        if n < m {
            leaf_starts_grow(leaves, path, n, (m - 1) as nat);
        } else {
            leaf_starts_grow(leaves, path, (n - 1) as nat, (m - 1) as nat);
        }
        if let LeafValueView::Text(tokens) = leaves[m - 1].value {
            text_has_an_end(tokens, before);
        }
    }
}

/// The token or value of a leaf gives a term at a position, where a text begins at `base`.
spec fn leaf_gives(leaf: JsonLeafView, base: int, i: int, term: TermView, position: int) -> bool {
    &&& term.typ == Type::Json
    &&& match leaf.value {
        LeafValueView::Text(tokens) => 0 <= i < tokens.len() && term.value
            == postings::json_term_value(
            leaf.path,
            seq![Type::Str.spec_code()] + vstd::utf8::encode_utf8(tokens[i].text),
        ) && position == base + tokens[i].position,
        LeafValueView::Exact(typ, bytes) => term.value == postings::json_term_value(
            leaf.path,
            seq![typ.spec_code()] + bytes,
        ) && position == 0,
    }
}

proof fn leaf_occurs_at(
    field: Field,
    state: FieldIndexing,
    leaf: JsonLeafView,
    paths: Seq<Seq<char>>,
    term: TermView,
    position: u32,
)
    requires
        indexing::leaf_indexed(field, state, leaf).paths.is_prefix_of(paths),
        paths.len() <= 0x1_0000_0000,
        leaf.value matches LeafValueView::Text(tokens) ==> text_end(
            tokens,
            state.next_at(leaf.path) as int,
        ) < u32::MAX,
        term.field == field,
    ensures
        occurs_at(
            indexing::leaf_indexed(field, state, leaf).occurrences,
            paths,
            term,
            position,
        ) <==> occurs_at(state.occurrences, paths, term, position) || exists|i: int| #[trigger]
            leaf_gives(leaf, state.next_at(leaf.path) as int, i, term, position as int),
{
    let ids = json_paths::counting_ids(paths.len());
    let base = state.next_at(leaf.path);
    match leaf.value {
        LeafValueView::Text(tokens) => {
            let head = indexing::json_head(state.paths, leaf.path, Type::Str);
            let added = indexing::text_occurrences(field, Type::Json, head, base, tokens);
            text_has_an_end(tokens, base as int);
            occurs_in_either(state.occurrences, added, paths, term, position);
            assert forall|i: int| 0 <= i < tokens.len() implies postings::normalized_term(
                (#[trigger] added[i]).0,
                ids,
                paths,
            ) == Ok::<TermView, ErrorView>(
                TermView {
                    field,
                    typ: Type::Json,
                    value: postings::json_term_value(
                        leaf.path,
                        seq![Type::Str.spec_code()] + vstd::utf8::encode_utf8(tokens[i].text),
                    ),
                },
            ) && added[i].1 == base + tokens[i].position by {
                indexing_laws::json_paths_are_written_out(
                    field,
                    state.paths,
                    leaf.path,
                    Type::Str,
                    vstd::utf8::encode_utf8(tokens[i].text),
                    paths,
                );
                assert(base + tokens[i].position + tokens[i].position_length <= text_end(
                    tokens,
                    base as int,
                ));
            }
            if occurs_at(added, paths, term, position) {
                let i = choose|i: int|
                    0 <= i < added.len() && postings::normalized_term(
                        (#[trigger] added[i]).0,
                        ids,
                        paths,
                    ) == Ok::<TermView, ErrorView>(term) && added[i].1 == position;
                assert(leaf_gives(leaf, base as int, i, term, position as int));
            }
            if exists|i: int| #[trigger]
                leaf_gives(leaf, base as int, i, term, position as int) {
                let i = choose|i: int| #[trigger]
                    leaf_gives(leaf, base as int, i, term, position as int);
                assert(added[i].1 == position);
                assert(term =~= (TermView { field, typ: Type::Json, value: term.value }));
            }
        },
        LeafValueView::Exact(typ, bytes) => {
            let raw = TermView {
                field,
                typ: Type::Json,
                value: indexing::json_head(state.paths, leaf.path, typ) + bytes,
            };
            let added = seq![(raw, 0u32)];
            assert(state.occurrences.push((raw, 0u32)) =~= state.occurrences + added);
            occurs_in_either(state.occurrences, added, paths, term, position);
            indexing_laws::json_paths_are_written_out(
                field,
                state.paths,
                leaf.path,
                typ,
                bytes,
                paths,
            );
            if occurs_at(added, paths, term, position) {
                let i = choose|i: int|
                    0 <= i < added.len() && postings::normalized_term(
                        (#[trigger] added[i]).0,
                        ids,
                        paths,
                    ) == Ok::<TermView, ErrorView>(term) && added[i].1 == position;
                assert(leaf_gives(leaf, base as int, 0, term, position as int));
            }
            if exists|i: int| #[trigger]
                leaf_gives(leaf, base as int, i, term, position as int) {
                assert(term =~= (TermView { field, typ: Type::Json, value: term.value }));
                assert(added[0].1 == position);
            }
        },
    }
}

proof fn paths_grow(field: Field, state: FieldIndexing, leaves: Seq<JsonLeafView>)
    requires
        leaves.len() > 0,
    ensures
        indexing::leaves_indexed(field, state, leaves.drop_last()).paths.is_prefix_of(
            indexing::leaves_indexed(field, state, leaves).paths,
        ),
{
    let before = indexing::leaves_indexed(field, state, leaves.drop_last()).paths;
    let after = indexing::leaves_indexed(field, state, leaves).paths;
    assert(before =~= after.subrange(0, before.len() as int));
}

proof fn leaves_occur_at(
    field: Field,
    start: FieldIndexing,
    leaves: Seq<JsonLeafView>,
    paths: Seq<Seq<char>>,
    term: TermView,
    position: u32,
)
    requires
        start.next_at_path == Map::<Seq<char>, u32>::empty(),
        indexing::leaves_indexed(field, start, leaves).paths.is_prefix_of(paths),
        paths.len() <= 0x1_0000_0000,
        forall|path: Seq<char>| #[trigger] leaf_start(leaves, path, leaves.len()) <= u32::MAX,
        term.field == field,
    ensures
        ({
            let after = indexing::leaves_indexed(field, start, leaves);
            &&& forall|path: Seq<char>| #[trigger]
                after.next_at(path) == leaf_start(leaves, path, leaves.len())
            &&& occurs_at(after.occurrences, paths, term, position) <==> occurs_at(
                start.occurrences,
                paths,
                term,
                position,
            ) || some_leaf_stands_at(leaves, term, position as int)
        }),
    decreases leaves.len(),
{
    if leaves.len() > 0 {
        let shorter = leaves.drop_last();
        let m = shorter.len();
        let leaf = leaves.last();
        assert(leaves[m as int] == leaf);
        assert forall|path: Seq<char>| #[trigger]
            leaf_start(shorter, path, shorter.len()) <= u32::MAX by {
            leaf_start_of_shorter(leaves, path, m);
            leaf_starts_grow(leaves, path, m, leaves.len());
            assert(leaf_start(leaves, path, leaves.len()) <= u32::MAX);
        }
        paths_grow(field, start, leaves);
        let before = indexing::leaves_indexed(field, start, shorter);
        let after = indexing::leaves_indexed(field, start, leaves);
        assert(before.paths.is_prefix_of(paths)) by {
            assert(before.paths =~= paths.subrange(0, before.paths.len() as int));
        }
        leaves_occur_at(field, start, shorter, paths, term, position);
        leaf_start_of_shorter(leaves, leaf.path, m);
        assert(before.next_at(leaf.path) == leaf_start(leaves, leaf.path, m));
        if let LeafValueView::Text(tokens) = leaf.value {
            assert(leaf_start(leaves, leaf.path, leaves.len()) <= u32::MAX);
            text_has_an_end(tokens, before.next_at(leaf.path) as int);
            end_is_found(tokens, before.next_at(leaf.path));
        }
        leaf_occurs_at(field, before, leaf, paths, term, position);
        assert forall|path: Seq<char>| #[trigger]
            after.next_at(path) == leaf_start(leaves, path, leaves.len()) by {
            leaf_start_of_shorter(leaves, path, m);
            assert(before.next_at(path) == leaf_start(shorter, path, m));
        }
        let base = before.next_at(leaf.path) as int;
        if exists|i: int| #[trigger] leaf_gives(leaf, base, i, term, position as int) {
            let i = choose|i: int| #[trigger] leaf_gives(leaf, base, i, term, position as int);
            assert(leaf_stands_at(leaves, m as int, i, term, position as int));
        }
        if some_leaf_stands_at(shorter, term, position as int) {
            let (n, i) = choose|n: int, i: int| #[trigger]
                leaf_stands_at(shorter, n, i, term, position as int);
            leaf_start_of_shorter(leaves, shorter[n].path, n as nat);
            assert(shorter[n] == leaves[n]);
            assert(leaf_stands_at(leaves, n, i, term, position as int));
        }
        if some_leaf_stands_at(leaves, term, position as int) {
            let (n, i) = choose|n: int, i: int| #[trigger]
                leaf_stands_at(leaves, n, i, term, position as int);
            if n < m {
                leaf_start_of_shorter(leaves, leaves[n].path, n as nat);
                assert(shorter[n] == leaves[n]);
                assert(leaf_stands_at(shorter, n, i, term, position as int));
            } else {
                assert(leaf_gives(leaf, base, i, term, position as int));
            }
        }
    }
}

proof fn leaves_follow(
    field: Field,
    state: FieldIndexing,
    left: Seq<JsonLeafView>,
    right: Seq<JsonLeafView>,
)
    ensures
        indexing::leaves_indexed(field, state, left + right) == indexing::leaves_indexed(
            field,
            indexing::leaves_indexed(field, state, left),
            right,
        ),
    decreases right.len(),
{
    if right.len() == 0 {
        assert(left + right =~= left);
    } else {
        leaves_follow(field, state, left, right.drop_last());
        assert((left + right).drop_last() =~= left + right.drop_last());
        assert((left + right).last() == right.last());
    }
}

proof fn json_values_are_their_leaves(
    field: Field,
    entry: FieldEntryView,
    start: FieldIndexing,
    document: Seq<(Field, ValueView)>,
)
    requires
        entry.field_type.value_type == Type::Json,
    ensures
        indexing::field_values_indexed(field, entry, start, document) == Ok::<
            FieldIndexing,
            ErrorView,
        >(indexing::leaves_indexed(field, start, leaves_of(document, field))),
    decreases document.len(),
{
    if document.len() > 0 {
        json_values_are_their_leaves(field, entry, start, document.drop_last());
        if let ValueView::Json(leaves) = document.last().1 {
            leaves_follow(field, start, leaves_of(document.drop_last(), field), leaves);
        }
    }
}

proof fn no_contents_no_leaves(document: Seq<(Field, ValueView)>, field: Field)
    requires
        !indexing::has_contents(document, field),
    ensures
        leaves_of(document, field).len() == 0,
    decreases document.len(),
{
    if document.len() > 0 {
        let shorter = document.drop_last();
        assert(document[document.len() - 1] == document.last());
        assert(!indexing::has_contents(shorter, field)) by {
            if indexing::has_contents(shorter, field) {
                let i = choose|i: int|
                    0 <= i < shorter.len() && (#[trigger] shorter[i]).0 == field
                        && shorter[i].1 !is Null;
                assert(document[i].0 == field && document[i].1 !is Null);
            }
        }
        no_contents_no_leaves(shorter, field);
    }
}

/// The terms of a JSON field stand in a prepared document where the values inside its objects do:
/// at each path the first text begins at zero, and each further one leaves a gap of one behind the
/// end of the one before. Values that are no texts stand at zero. The positions, and the number of
/// paths, have to fit.
pub proof fn json_texts_stand_behind_each_other(
    schema: Seq<FieldEntryView>,
    fields: Seq<Field>,
    document: Seq<(Field, ValueView)>,
    prepared: PreparedDocumentView,
    term: TermView,
    position: u32,
)
    requires
        fields.no_duplicates(),
        fields.contains(term.field),
        indexing::document_indexed(schema, fields, document) is Ok,
        indexing::document_indexed(schema, fields, document)->Ok_0.paths.len() <= 0x1_0000_0000,
        prepared_document::holds_indexing(
            prepared,
            indexing::document_indexed(schema, fields, document)->Ok_0,
        ),
        schema[term.field.0 as int].field_type.record_option is Some,
        schema[term.field.0 as int].field_type.value_type == Type::Json,
        forall|path: Seq<char>| #[trigger]
            leaf_start(
                leaves_of(document, term.field),
                path,
                leaves_of(document, term.field).len(),
            ) <= u32::MAX,
    ensures
        phrase_laws::stands_at(prepared.answers(), term, position as int) <==> exists|
            n: int,
            i: int,
        | #[trigger]
            leaf_stands_at(leaves_of(document, term.field), n, i, term, position as int),
{
    let field = term.field;
    let indexed = indexing::document_indexed(schema, fields, document)->Ok_0;
    let leaves = leaves_of(document, field);
    prepared_positions(prepared, indexed, term, position);
    let start = field_occurs(schema, fields, document, term, position);
    let fresh = FieldIndexing { occurrences: Seq::empty(), ..start };
    let entry = schema[field.0 as int];
    assert(!occurs_at(fresh.occurrences, indexed.paths, term, position));
    if indexing::has_contents(document, field) {
        let after = indexing::field_values_indexed(field, entry, start, document)->Ok_0;
        values_add_the_same(field, entry, start, document);
        json_values_are_their_leaves(field, entry, fresh, document);
        let from_fresh = indexing::leaves_indexed(field, fresh, leaves);
        leaves_occur_at(field, fresh, leaves, indexed.paths, term, position);
        assert(after.occurrences.skip(start.occurrences.len() as int)
            =~= from_fresh.occurrences);
    } else {
        no_contents_no_leaves(document, field);
        assert(start.occurrences.skip(start.occurrences.len() as int) =~= Seq::empty());
    }
}

/// The value at index `n` of a document is a term.
pub open spec fn value_is(
    document: Seq<(Field, ValueView)>,
    n: int,
    term: TermView,
) -> bool {
    &&& 0 <= n < document.len()
    &&& document[n].0 == term.field
    &&& document[n].1 == ValueView::Exact(term.typ, term.value)
}

proof fn exact_values_occur(
    field: Field,
    entry: FieldEntryView,
    start: FieldIndexing,
    document: Seq<(Field, ValueView)>,
    paths: Seq<Seq<char>>,
    term: TermView,
    position: u32,
)
    requires
        entry.field_type.value_type != Type::Str,
        entry.field_type.value_type != Type::Json,
        term.field == field,
        indexing::field_values_indexed(field, entry, start, document) is Ok,
    ensures
        ({
            let after = indexing::field_values_indexed(field, entry, start, document)->Ok_0;
            occurs_at(after.occurrences, paths, term, position) <==> occurs_at(
                start.occurrences,
                paths,
                term,
                position,
            ) || position == 0 && exists|n: int| #[trigger] value_is(document, n, term)
        }),
    decreases document.len(),
{
    if document.len() > 0 {
        let shorter = document.drop_last();
        let m = shorter.len() as int;
        exact_values_occur(field, entry, start, shorter, paths, term, position);
        let before = indexing::field_values_indexed(field, entry, start, shorter)->Ok_0;
        let after = indexing::field_values_indexed(field, entry, start, document)->Ok_0;
        assert(document[m] == document.last());
        if document.last().0 == field && document.last().1 is Exact {
            let typ = document.last().1->Exact_0;
            let bytes = document.last().1->Exact_1;
            let raw = TermView { field, typ, value: bytes };
            let added = seq![(raw, 0u32)];
            assert(before.occurrences.push((raw, 0u32)) =~= before.occurrences + added);
            occurs_in_either(before.occurrences, added, paths, term, position);
            assert(added[0] == (raw, 0u32));
            assert(postings::normalized_term(
                raw,
                json_paths::counting_ids(paths.len()),
                paths,
            ) == Ok::<TermView, ErrorView>(raw));
            if term == raw {
                assert(value_is(document, m, term));
            }
            if value_is(document, m, term) {
                assert(term =~= raw);
            }
        }
        if exists|n: int| #[trigger] value_is(shorter, n, term) {
            let n = choose|n: int| #[trigger] value_is(shorter, n, term);
            assert(shorter[n] == document[n]);
            assert(value_is(document, n, term));
        }
        if exists|n: int| #[trigger] value_is(document, n, term) {
            let n = choose|n: int| #[trigger] value_is(document, n, term);
            if n < m {
                assert(shorter[n] == document[n]);
                assert(value_is(shorter, n, term));
            } else {
                assert(value_is(document, m, term));
            }
        }
    }
}

/// The terms of a field that holds neither texts nor JSON objects are its values, all of them at
/// position zero.
pub proof fn exact_values_stand_at_zero(
    schema: Seq<FieldEntryView>,
    fields: Seq<Field>,
    document: Seq<(Field, ValueView)>,
    prepared: PreparedDocumentView,
    term: TermView,
    position: u32,
)
    requires
        fields.no_duplicates(),
        fields.contains(term.field),
        indexing::document_indexed(schema, fields, document) is Ok,
        prepared_document::holds_indexing(
            prepared,
            indexing::document_indexed(schema, fields, document)->Ok_0,
        ),
        schema[term.field.0 as int].field_type.record_option is Some,
        schema[term.field.0 as int].field_type.value_type != Type::Str,
        schema[term.field.0 as int].field_type.value_type != Type::Json,
    ensures
        phrase_laws::stands_at(prepared.answers(), term, position as int) <==> position == 0
            && exists|n: int| #[trigger] value_is(document, n, term),
{
    let field = term.field;
    let indexed = indexing::document_indexed(schema, fields, document)->Ok_0;
    prepared_positions(prepared, indexed, term, position);
    let start = field_occurs(schema, fields, document, term, position);
    let fresh = FieldIndexing { occurrences: Seq::empty(), ..start };
    let entry = schema[field.0 as int];
    assert(!occurs_at(fresh.occurrences, indexed.paths, term, position));
    if indexing::has_contents(document, field) {
        values_add_the_same(field, entry, start, document);
        exact_values_occur(field, entry, fresh, document, indexed.paths, term, position);
        let after = indexing::field_values_indexed(field, entry, start, document)->Ok_0;
        let from_fresh = indexing::field_values_indexed(field, entry, fresh, document)->Ok_0;
        assert(after.occurrences.skip(start.occurrences.len() as int)
            =~= from_fresh.occurrences);
    } else {
        assert(start.occurrences.skip(start.occurrences.len() as int) =~= Seq::empty());
        if exists|n: int| #[trigger] value_is(document, n, term) {
            let n = choose|n: int| #[trigger] value_is(document, n, term);
            assert(document[n].0 == field && document[n].1 !is Null);
        }
    }
}

/// The tokens of the texts that a document has for a field come in the order of their positions.
pub open spec fn tokens_are_in_order(document: Seq<(Field, ValueView)>, field: Field) -> bool {
    forall|n: int|
        0 <= n < document.len() && (#[trigger] document[n]).0 == field ==> (
        document[n].1 matches ValueView::Text(tokens) ==> forall|i: int, j: int|
            0 <= i <= j < tokens.len() ==> (#[trigger] tokens[i]).position <= (
            #[trigger] tokens[j]).position)
}

/// The occurrences come in the order of their positions, none of them behind `end`.
spec fn in_order_up_to(occurrences: Seq<(TermView, u32)>, end: int) -> bool {
    &&& forall|i: int, j: int|
        0 <= i <= j < occurrences.len() ==> (#[trigger] occurrences[i]).1 <= (
        #[trigger] occurrences[j]).1
    &&& forall|i: int| 0 <= i < occurrences.len() ==> (#[trigger] occurrences[i]).1 <= end
}

proof fn texts_occur_in_order(
    field: Field,
    entry: FieldEntryView,
    start: FieldIndexing,
    document: Seq<(Field, ValueView)>,
)
    requires
        entry.field_type.value_type == Type::Str,
        start.next == 0,
        start.occurrences.len() == 0,
        tokens_are_in_order(document, field),
        text_start(document, field, document.len()) <= u32::MAX,
    ensures
        indexing::field_values_indexed(field, entry, start, document) is Ok,
        ({
            let after = indexing::field_values_indexed(field, entry, start, document)->Ok_0;
            &&& after.next == text_start(document, field, document.len())
            &&& in_order_up_to(after.occurrences, after.next as int)
        }),
    decreases document.len(),
{
    if document.len() > 0 {
        let shorter = document.drop_last();
        let m = shorter.len();
        assert(document[m as int] == document.last());
        text_starts_grow(document, field, m, document.len());
        text_start_of_shorter(document, field, m);
        assert(tokens_are_in_order(shorter, field)) by {
            assert forall|n: int|
                0 <= n < shorter.len() && (#[trigger] shorter[n]).0 == field implies (
            shorter[n].1 matches ValueView::Text(tokens) ==> forall|i: int, j: int|
                0 <= i <= j < tokens.len() ==> (#[trigger] tokens[i]).position <= (
                #[trigger] tokens[j]).position) by {
                assert(shorter[n] == document[n]);
            }
        }
        texts_occur_in_order(field, entry, start, shorter);
        let before = indexing::field_values_indexed(field, entry, start, shorter)->Ok_0;
        let after = indexing::field_values_indexed(field, entry, start, document)->Ok_0;
        let base = before.next;
        if document.last().0 == field && document.last().1 is Text {
            let tokens = document.last().1->Text_0;
            text_has_an_end(tokens, base as int);
            end_is_found(tokens, base);
            let added = indexing::text_occurrences(field, Type::Str, Seq::empty(), base, tokens);
            let all = before.occurrences + added;
            assert(after.occurrences == all);
            assert forall|i: int| 0 <= i < tokens.len() implies (#[trigger] added[i]).1 == base
                + tokens[i].position && added[i].1 <= after.next by {
                assert(base + tokens[i].position + tokens[i].position_length <= text_end(
                    tokens,
                    base as int,
                ));
            }
            assert forall|i: int, j: int| 0 <= i <= j < all.len() implies (#[trigger] all[i]).1
                <= (#[trigger] all[j]).1 by {
                let n = before.occurrences.len();
                if j < n {
                    assert(all[i] == before.occurrences[i] && all[j] == before.occurrences[j]);
                } else if i < n {
                    assert(all[i] == before.occurrences[i]);
                    assert(all[j] == added[j - n]);
                    assert(before.occurrences[i].1 <= base);
                } else {
                    assert(all[i] == added[i - n] && all[j] == added[j - n]);
                    assert(tokens[i - n].position <= tokens[j - n].position);
                }
            }
            assert forall|i: int| 0 <= i < all.len() implies (#[trigger] all[i]).1
                <= after.next by {
                if i < before.occurrences.len() {
                    assert(all[i] == before.occurrences[i]);
                } else {
                    assert(all[i] == added[i - before.occurrences.len()]);
                }
            }
        }
    }
}

proof fn positions_in_order(occurrences: Seq<(TermView, u32)>, term: TermView, end: int)
    requires
        in_order_up_to(occurrences, end),
    ensures
        ({
            let positions = postings::positions_in(occurrences, term);
            &&& forall|i: int, j: int|
                0 <= i <= j < positions.len() ==> positions[i] <= positions[j]
            &&& positions.len() > 0 ==> occurrences.len() > 0 && positions.last()
                <= occurrences.last().1
        }),
    decreases occurrences.len(),
{
    if occurrences.len() > 0 {
        let shorter = occurrences.drop_last();
        assert(in_order_up_to(shorter, end)) by {
            assert forall|i: int, j: int| 0 <= i <= j < shorter.len() implies (
            #[trigger] shorter[i]).1 <= (#[trigger] shorter[j]).1 by {
                assert(shorter[i] == occurrences[i] && shorter[j] == occurrences[j]);
            }
            assert forall|i: int| 0 <= i < shorter.len() implies (#[trigger] shorter[i]).1
                <= end by {
                assert(shorter[i] == occurrences[i]);
            }
        }
        positions_in_order(shorter, term, end);
        if shorter.len() > 0 {
            assert(occurrences[shorter.len() - 1].1 <= occurrences[occurrences.len() - 1].1);
        }
    }
}

/// Where the tokens of texts come in the order of their positions, what a prepared document tells of
/// the terms of a text field is complete: each has at least one occurrence, a position for each of
/// them, and the positions in ascending order. The positions, and their number, have to fit.
pub proof fn texts_in_order_are_complete(
    schema: Seq<FieldEntryView>,
    fields: Seq<Field>,
    document: Seq<(Field, ValueView)>,
    prepared: PreparedDocumentView,
    term: TermView,
    info: TermInfoView,
)
    requires
        fields.no_duplicates(),
        fields.contains(term.field),
        indexing::document_indexed(schema, fields, document) is Ok,
        prepared_document::holds_indexing(
            prepared,
            indexing::document_indexed(schema, fields, document)->Ok_0,
        ),
        schema[term.field.0 as int].field_type.record_option is Some,
        schema[term.field.0 as int].field_type.value_type == Type::Str,
        term.typ == Type::Str,
        tokens_are_in_order(document, term.field),
        text_start(document, term.field, document.len()) <= u32::MAX,
        (prepared.answers().term_info)(term) == Some(info),
        info.positions->0.len() <= u32::MAX,
    ensures
        match_laws::is_sound(info),
{
    let field = term.field;
    let entry = schema[field.0 as int];
    let indexed = indexing::document_indexed(schema, fields, document)->Ok_0;
    indexing_laws::plain_terms_keep_their_positions(prepared, indexed, term);
    preparation_laws::positions_in_field_part(indexed.occurrences, term);
    let part = preparation_laws::field_part(indexed.occurrences, field);
    let positions = postings::positions_in(indexed.occurrences, term);
    assert(positions == postings::positions_in(part, term));
    let start = preparation_laws::stage_of_field(schema, fields, document, field);
    let fresh = FieldIndexing { occurrences: Seq::empty(), ..start };
    texts_occur_in_order(field, entry, fresh, document);
    let from_fresh = indexing::field_values_indexed(field, entry, fresh, document)->Ok_0;
    if indexing::has_contents(document, field) {
        values_add_the_same(field, entry, start, document);
        let after = indexing::field_values_indexed(field, entry, start, document)->Ok_0;
        assert(after.occurrences.skip(start.occurrences.len() as int)
            =~= from_fresh.occurrences);
        assert(part == from_fresh.occurrences);
    } else {
        assert(start.occurrences.skip(start.occurrences.len() as int) =~= Seq::empty());
        assert(in_order_up_to(part, 0));
    }
    positions_in_order(
        part,
        term,
        if indexing::has_contents(document, field) {
            from_fresh.next as int
        } else {
            0
        },
    );
}

/// Two tokens that each take a position, and stand right behind each other, are tokens of one text.
pub proof fn texts_are_not_adjacent(
    document: Seq<(Field, ValueView)>,
    field: Field,
    left: TermView,
    right: TermView,
    n: int,
    i: int,
    m: int,
    j: int,
    position: int,
)
    requires
        left.field == field,
        right.field == field,
        token_stands_at(document, n, i, left, position),
        token_stands_at(document, m, j, right, position + 1),
        document[n].1->Text_0[i].position_length > 0,
        document[m].1->Text_0[j].position_length > 0,
    ensures
        n == m,
{
    if n < m {
        let tokens = document[n].1->Text_0;
        let start = text_start(document, field, n as nat);
        text_has_an_end(tokens, start);
        text_starts_grow(document, field, (n + 1) as nat, m as nat);
        assert(start + tokens[i].position + tokens[i].position_length <= text_end(tokens, start));
    }
    if m < n {
        let tokens = document[m].1->Text_0;
        let start = text_start(document, field, m as nat);
        text_has_an_end(tokens, start);
        text_starts_grow(document, field, (m + 1) as nat, n as nat);
        assert(start + tokens[j].position + tokens[j].position_length <= text_end(tokens, start));
    }
}

/// The tokens of the texts of a document stand, each of the terms of a phrase at its offset behind
/// `start`.
pub open spec fn tokens_stand_from(
    document: Seq<(Field, ValueView)>,
    terms: Seq<(usize, TermView)>,
    start: int,
) -> bool {
    forall|k: int|
        0 <= k < terms.len() ==> some_token_stands_at(
            document,
            (#[trigger] terms[k]).1,
            start + terms[k].0,
        )
}

/// A query for a phrase matches a prepared document exactly where the tokens of the texts of its
/// field stand in that phrase, each of its terms at its offset.
pub proof fn phrase_query_matches_the_texts_of_a_document(
    query: PhraseQuery,
    context: ContextView,
    evaluator: PhraseSingleDocumentEvaluator,
    fields: Seq<Field>,
    document: Seq<(Field, ValueView)>,
    prepared: PreparedDocumentView,
)
    requires
        query@.well_formed(),
        phrase_query::compiled(query@, context) == Ok::<PhraseEvaluatorView, ErrorView>(evaluator@),
        fields.no_duplicates(),
        fields.contains(query@.field),
        indexing::document_indexed(context.schema, fields, document) is Ok,
        prepared_document::holds_indexing(
            prepared,
            indexing::document_indexed(context.schema, fields, document)->Ok_0,
        ),
        context.schema[query@.field.0 as int].field_type.value_type == Type::Str,
        text_start(document, query@.field, document.len()) <= u32::MAX,
        match_laws::is_readable(
            prepared.answers(),
            query@.phrase_terms,
            query@.phrase_terms.last().0 as int,
        ),
        match_laws::has_fieldnorm_for(context, prepared.answers(), query@.field),
    ensures
        evaluator.result(prepared.answers()) is Ok,
        evaluator.result(prepared.answers())->Ok_0 is Match <==> exists|start: int| #[trigger]
            tokens_stand_from(document, query@.phrase_terms, start),
{
    let terms = query@.phrase_terms;
    let answers = prepared.answers();
    match_laws::phrase_query_matches_where_all_its_terms_stand(
        query,
        context,
        evaluator,
        answers,
    );
    assert forall|start: int|
        match_laws::stands_from(answers, terms, start) <==> #[trigger] tokens_stand_from(
            document,
            terms,
            start,
        ) by {
        assert forall|k: int| 0 <= k < terms.len() implies (phrase_laws::stands_at(
            answers,
            (#[trigger] terms[k]).1,
            start + terms[k].0,
        ) <==> some_token_stands_at(document, terms[k].1, start + terms[k].0)) by {
            let term = terms[k].1;
            let position = start + terms[k].0;
            assert(term.field == query@.field);
            if 0 <= position <= u32::MAX {
                texts_stand_behind_each_other(
                    context.schema,
                    fields,
                    document,
                    prepared,
                    term,
                    position as u32,
                );
            } else {
                if phrase_laws::stands_at(answers, term, position) {
                    let positions = (answers.term_info)(term)->0.positions->0;
                    let i = choose|i: int|
                        0 <= i < positions.len() && #[trigger] positions[i] == position;
                    assert(positions[i] == position);
                }
                if some_token_stands_at(document, term, position) {
                    let (n, i) = choose|n: int, i: int| #[trigger]
                        token_stands_at(document, n, i, term, position);
                    let tokens = document[n].1->Text_0;
                    let begin = text_start(document, term.field, n as nat);
                    text_has_an_end(tokens, begin);
                    text_starts_grow(document, term.field, 0, n as nat);
                    text_starts_grow(document, term.field, (n + 1) as nat, document.len());
                    assert(begin + tokens[i].position + tokens[i].position_length <= text_end(
                        tokens,
                        begin,
                    ));
                }
            }
        }
        if match_laws::stands_from(answers, terms, start) {
            assert forall|k: int| 0 <= k < terms.len() implies some_token_stands_at(
                document,
                (#[trigger] terms[k]).1,
                start + terms[k].0,
            ) by {
                assert(phrase_laws::stands_at(answers, terms[k].1, start + terms[k].0));
            }
        }
        if tokens_stand_from(document, terms, start) {
            assert forall|k: int| 0 <= k < terms.len() implies phrase_laws::stands_at(
                answers,
                (#[trigger] terms[k]).1,
                start + terms[k].0,
            ) by {
                assert(some_token_stands_at(document, terms[k].1, start + terms[k].0));
            }
        }
    }
    if exists|start: int| #[trigger] match_laws::stands_from(answers, terms, start) {
        let start = choose|start: int| #[trigger] match_laws::stands_from(answers, terms, start);
        assert(tokens_stand_from(document, terms, start));
    }
    if exists|start: int| #[trigger] tokens_stand_from(document, terms, start) {
        let start = choose|start: int| #[trigger] tokens_stand_from(document, terms, start);
        assert(match_laws::stands_from(answers, terms, start));
    }
}

} // verus!
