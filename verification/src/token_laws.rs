//! What holds of the number of tokens of every indexed document.

use vstd::prelude::*;
use crate::document::{JsonLeafView, LeafValueView, ValueView};
use crate::fieldnorm;
use crate::indexing;
use crate::indexing::{DocumentIndexing, FieldIndexing};
use crate::json_paths;
use crate::postings;
use crate::prepared_document;
use crate::prepared_document::PreparedDocumentView;
use crate::schema::{Field, FieldEntryView, Type};
use crate::term::TermView;
use crate::term_map;

verus! {

/// The number of occurrences of the terms of a field.
pub open spec fn occurrences_of_field(occurrences: Seq<(TermView, u32)>, field: Field) -> nat
    decreases occurrences.len(),
{
    if occurrences.len() == 0 {
        0
    } else {
        occurrences_of_field(occurrences.drop_last(), field) + if occurrences.last().0.field
            == field {
            1nat
        } else {
            0
        }
    }
}

/// The number of positions that are listed for a term.
spec fn num_positions(entries: Seq<(TermView, Seq<u32>)>, term: TermView) -> nat {
    match term_map::lookup(entries, term) {
        Some(positions) => positions.len(),
        None => 0,
    }
}

/// What is found in a list without its entry at `index`.
proof fn lookup_without(entries: Seq<(TermView, Seq<u32>)>, index: int)
    requires
        term_map::distinct(entries),
        0 <= index < entries.len(),
    ensures
        term_map::distinct(entries.remove(index)),
        term_map::lookup(entries, entries[index].0) == Some(entries[index].1),
        term_map::lookup(entries.remove(index), entries[index].0) is None,
        forall|other: TermView|
            other != entries[index].0 ==> #[trigger] term_map::lookup(
                entries.remove(index),
                other,
            ) == term_map::lookup(entries, other),
        forall|field: Field| #[trigger]
            term_map::positions_of_field(entries, field) == term_map::positions_of_field(
                entries.remove(index),
                field,
            ) + if entries[index].0.field == field {
                entries[index].1.len()
            } else {
                0
            },
    decreases entries.len(),
{
    let removed = entries.remove(index);
    let term = entries[index].0;
    term_map::distinct_without(entries, index);
    if index == entries.len() - 1 {
        assert(removed =~= entries.drop_last());
        if term_map::lookup(removed, term) is Some {
            let i = term_map::lookup_is_listed(removed, term);
            assert(entries[i].0 == entries[index].0);
        }
    } else {
        let shorter = entries.drop_last();
        assert(term_map::distinct(shorter)) by {
            assert forall|i: int, j: int| 0 <= i < j < shorter.len() implies (
            #[trigger] shorter[i]).0 != (#[trigger] shorter[j]).0 by {
                assert(shorter[i] == entries[i]);
                assert(shorter[j] == entries[j]);
            }
        }
        lookup_without(shorter, index);
        assert(removed.drop_last() =~= shorter.remove(index));
        assert(removed.last() == entries.last());
        assert(entries[index].0 != entries[entries.len() - 1].0);
        assert forall|field: Field| #[trigger]
            term_map::positions_of_field(entries, field) == term_map::positions_of_field(
                removed,
                field,
            ) + if term.field == field {
                entries[index].1.len()
            } else {
                0
            } by {
            assert(term_map::positions_of_field(shorter, field) == term_map::positions_of_field(
                shorter.remove(index),
                field,
            ) + if term.field == field {
                entries[index].1.len()
            } else {
                0
            });
        }
        assert forall|other: TermView| other != term implies #[trigger] term_map::lookup(
            removed,
            other,
        ) == term_map::lookup(entries, other) by {
            assert(term_map::lookup(shorter.remove(index), other) == term_map::lookup(
                shorter,
                other,
            ));
        }
    }
}

/// The number of positions of a field follows from the numbers of positions of the terms.
proof fn totals_follow_from_terms(
    left: Seq<(TermView, Seq<u32>)>,
    right: Seq<(TermView, Seq<u32>)>,
    field: Field,
)
    requires
        term_map::distinct(left),
        term_map::distinct(right),
        forall|term: TermView| #[trigger] num_positions(left, term) == num_positions(right, term),
    ensures
        term_map::positions_of_field(left, field) == term_map::positions_of_field(right, field),
    decreases left.len(),
{
    if left.len() == 0 {
        assert forall|i: int| 0 <= i < right.len() implies (#[trigger] right[i]).1.len() == 0 by {
            lookup_without(right, i);
            assert(num_positions(left, right[i].0) == num_positions(right, right[i].0));
        }
        no_positions(right, field);
    } else {
        let last = left.len() - 1;
        let term = left[last].0;
        lookup_without(left, last);
        assert(term_map::positions_of_field(left, field) == term_map::positions_of_field(
            left.remove(last),
            field,
        ) + if term.field == field {
            left[last].1.len()
        } else {
            0
        });
        assert(num_positions(left, term) == num_positions(right, term));
        let rest = left.remove(last);
        if let Some(positions) = term_map::lookup(right, term) {
            let i = term_map::lookup_is_listed(right, term);
            lookup_without(right, i);
            assert(term_map::positions_of_field(right, field) == term_map::positions_of_field(
                right.remove(i),
                field,
            ) + if term.field == field {
                right[i].1.len()
            } else {
                0
            });
            assert forall|other: TermView| #[trigger] num_positions(rest, other) == num_positions(
                right.remove(i),
                other,
            ) by {
                assert(num_positions(left, other) == num_positions(right, other));
                if other != term {
                    assert(term_map::lookup(rest, other) == term_map::lookup(left, other));
                    assert(term_map::lookup(right.remove(i), other) == term_map::lookup(
                        right,
                        other,
                    ));
                }
            }
            totals_follow_from_terms(rest, right.remove(i), field);
        } else {
            assert forall|other: TermView| #[trigger] num_positions(rest, other) == num_positions(
                right,
                other,
            ) by {
                assert(num_positions(left, other) == num_positions(right, other));
                if other != term {
                    assert(term_map::lookup(rest, other) == term_map::lookup(left, other));
                }
            }
            totals_follow_from_terms(rest, right, field);
        }
    }
}

proof fn no_positions(entries: Seq<(TermView, Seq<u32>)>, field: Field)
    requires
        forall|i: int| 0 <= i < entries.len() ==> (#[trigger] entries[i]).1.len() == 0,
    ensures
        term_map::positions_of_field(entries, field) == 0,
    decreases entries.len(),
{
    if entries.len() > 0 {
        assert(entries[entries.len() - 1].1.len() == 0);
        no_positions(entries.drop_last(), field);
    }
}

/// A list in which a term has `added` more positions.
proof fn with_more_positions(
    entries: Seq<(TermView, Seq<u32>)>,
    term: TermView,
    added: nat,
) -> (r: Seq<(TermView, Seq<u32>)>)
    requires
        term_map::distinct(entries),
    ensures
        term_map::distinct(r),
        num_positions(r, term) == num_positions(entries, term) + added,
        forall|other: TermView|
            other != term ==> #[trigger] num_positions(r, other) == num_positions(entries, other),
        forall|field: Field| #[trigger]
            term_map::positions_of_field(r, field) == term_map::positions_of_field(entries, field)
                + if term.field == field {
                added
            } else {
                0
            },
{
    let positions = Seq::new(num_positions(entries, term) + added, |i: int| 0u32);
    let rest = if term_map::lookup(entries, term) is Some {
        let i = term_map::lookup_is_listed(entries, term);
        lookup_without(entries, i);
        entries.remove(i)
    } else {
        entries
    };
    assert(term_map::lookup(rest, term) is None);
    let r = rest.push((term, positions));
    assert(r.drop_last() =~= rest);
    assert forall|i: int, j: int| 0 <= i < j < r.len() implies (#[trigger] r[i]).0 != (
    #[trigger] r[j]).0 by {
        if j == rest.len() {
            lookup_without(rest, i);
        }
        assert(r[i] == rest[i]);
    }
    assert forall|other: TermView| other != term implies #[trigger] num_positions(r, other)
        == num_positions(entries, other) by {
        assert(term_map::lookup(r, other) == term_map::lookup(rest, other));
    }
    assert forall|field: Field| #[trigger] term_map::positions_of_field(r, field)
        == term_map::positions_of_field(entries, field) + if term.field == field {
        added
    } else {
        0
    } by {
        assert(term_map::positions_of_field(r, field) == term_map::positions_of_field(rest, field)
            + if term.field == field {
            positions.len()
        } else {
            0
        });
        if term_map::lookup(entries, term) is Some {
            assert(term_map::positions_of_field(entries, field) >= 0);
        }
    }
    r
}

/// A list with as many positions for each term as it has occurrences.
proof fn table_of_occurrences(occurrences: Seq<(TermView, u32)>) -> (r: Seq<(TermView, Seq<u32>)>)
    ensures
        term_map::distinct(r),
        forall|term: TermView| #[trigger]
            num_positions(r, term) == postings::positions_in(occurrences, term).len(),
        forall|field: Field| #[trigger]
            term_map::positions_of_field(r, field) == occurrences_of_field(occurrences, field),
    decreases occurrences.len(),
{
    if occurrences.len() == 0 {
        Seq::empty()
    } else {
        let before = table_of_occurrences(occurrences.drop_last());
        let last = occurrences.last().0;
        let r = with_more_positions(before, last, 1);
        assert forall|term: TermView| #[trigger] num_positions(r, term) == postings::positions_in(
            occurrences,
            term,
        ).len() by {
            assert(num_positions(before, term) == postings::positions_in(
                occurrences.drop_last(),
                term,
            ).len());
        }
        assert forall|field: Field| #[trigger]
            term_map::positions_of_field(r, field) == occurrences_of_field(occurrences, field) by {
            assert(term_map::positions_of_field(before, field) == occurrences_of_field(
                occurrences.drop_last(),
                field,
            ));
        }
        r
    }
}

/// The number of positions in all the lists.
spec fn total_len(lists: Seq<Seq<u32>>) -> nat
    decreases lists.len(),
{
    if lists.len() == 0 {
        0
    } else {
        total_len(lists.drop_last()) + lists.last().len()
    }
}

proof fn merged_len(lists: Seq<Seq<u32>>, merged: Seq<u32>)
    requires
        postings::merges(lists, merged),
    ensures
        merged.len() == total_len(lists),
{
    broadcast use vstd::seq_lib::group_to_multiset_ensures;

    if lists.len() == 1 {
        assert(lists.drop_last() =~= Seq::empty());
        assert(total_len(lists.drop_last()) == 0);
    } else {
        all_positions_len(lists);
        assert(merged.to_multiset().len() == merged.len());
    }
}

proof fn all_positions_len(lists: Seq<Seq<u32>>)
    ensures
        postings::all_positions(lists).len() == total_len(lists),
    decreases lists.len(),
{
    broadcast use vstd::seq_lib::group_to_multiset_ensures;
    broadcast use vstd::multiset::group_multiset_axioms;

    if lists.len() > 0 {
        all_positions_len(lists.drop_last());
        assert(lists.last().to_multiset().len() == lists.last().len());
    }
}

/// A list with as many positions for each term as the intermediate terms for which it stands.
proof fn table_of_sources(
    raw: Seq<(TermView, Seq<u32>)>,
    ordered_ids: Seq<u32>,
    paths: Seq<Seq<char>>,
) -> (r: Seq<(TermView, Seq<u32>)>)
    requires
        forall|i: int|
            0 <= i < raw.len() ==> postings::normalized_term(
                (#[trigger] raw[i]).0,
                ordered_ids,
                paths,
            ) is Ok,
    ensures
        term_map::distinct(r),
        forall|term: TermView| #[trigger]
            num_positions(r, term) == total_len(
                postings::sources(raw, ordered_ids, paths, term),
            ),
        forall|field: Field| #[trigger]
            term_map::positions_of_field(r, field) == term_map::positions_of_field(raw, field),
    decreases raw.len(),
{
    if raw.len() == 0 {
        Seq::empty()
    } else {
        let shorter = raw.drop_last();
        assert forall|i: int| 0 <= i < shorter.len() implies postings::normalized_term(
            (#[trigger] shorter[i]).0,
            ordered_ids,
            paths,
        ) is Ok by {
            assert(shorter[i] == raw[i]);
        }
        let before = table_of_sources(shorter, ordered_ids, paths);
        assert(raw[raw.len() - 1] == raw.last());
        let target = postings::normalized_term(raw.last().0, ordered_ids, paths)->Ok_0;
        let r = with_more_positions(before, target, raw.last().1.len());
        assert forall|term: TermView| #[trigger] num_positions(r, term) == total_len(
            postings::sources(raw, ordered_ids, paths, term),
        ) by {
            let lists = postings::sources(shorter, ordered_ids, paths, term);
            assert(num_positions(before, term) == total_len(lists));
            assert(lists.push(raw.last().1).drop_last() =~= lists);
        }
        assert forall|field: Field| #[trigger]
            term_map::positions_of_field(r, field) == term_map::positions_of_field(raw, field) by {
            assert(term_map::positions_of_field(before, field) == term_map::positions_of_field(
                shorter,
                field,
            ));
        }
        r
    }
}

/// A prepared document has as many positions for a field as there are occurrences of its terms.
pub proof fn positions_are_the_occurrences(
    document: PreparedDocumentView,
    indexed: DocumentIndexing,
    field: Field,
)
    requires
        prepared_document::holds_indexing(document, indexed),
    ensures
        term_map::positions_of_field(document.terms, field) == occurrences_of_field(
            indexed.occurrences,
            field,
        ),
{
    let ids = json_paths::counting_ids(indexed.paths.len());
    let raw = choose|raw: Seq<(TermView, Seq<u32>)>| #[trigger]
        postings::lists_occurrences(raw, indexed.occurrences) && postings::normalizes(
            raw,
            ids,
            indexed.paths,
            document.terms,
        );
    term_map::ascending_is_distinct(raw);
    term_map::ascending_is_distinct(document.terms);
    let counted = table_of_occurrences(indexed.occurrences);
    assert forall|term: TermView| #[trigger] num_positions(raw, term) == num_positions(
        counted,
        term,
    ) by {
        assert(term_map::lookup(raw, term) == postings::listed(indexed.occurrences, term));
    }
    totals_follow_from_terms(raw, counted, field);
    let merged = table_of_sources(raw, ids, indexed.paths);
    assert forall|term: TermView| #[trigger] num_positions(document.terms, term) == num_positions(
        merged,
        term,
    ) by {
        let lists = postings::sources(raw, ids, indexed.paths, term);
        if let Some(positions) = term_map::lookup(document.terms, term) {
            merged_len(lists, positions);
        }
    }
    totals_follow_from_terms(document.terms, merged, field);
}

/// The number of tokens and exact values inside a JSON object.
pub open spec fn leaf_tokens(leaves: Seq<JsonLeafView>) -> nat
    decreases leaves.len(),
{
    if leaves.len() == 0 {
        0
    } else {
        leaf_tokens(leaves.drop_last()) + match leaves.last().value {
            LeafValueView::Text(tokens) => tokens.len(),
            LeafValueView::Exact(_, _) => 1,
        }
    }
}

/// The number of tokens of a value in a field of the given type.
pub open spec fn value_tokens(value_type: Type, value: ValueView) -> nat {
    match value {
        ValueView::Null => 0,
        ValueView::Text(tokens) => if value_type == Type::Str {
            tokens.len()
        } else {
            0
        },
        ValueView::Exact(_, _) => if value_type == Type::Str || value_type == Type::Json {
            0
        } else {
            1
        },
        ValueView::Json(leaves) => if value_type == Type::Json {
            leaf_tokens(leaves)
        } else {
            0
        },
    }
}

/// The number of tokens that a document has for a field of the given type.
pub open spec fn document_tokens(
    value_type: Type,
    document: Seq<(Field, ValueView)>,
    field: Field,
) -> nat
    decreases document.len(),
{
    if document.len() == 0 {
        0
    } else {
        document_tokens(value_type, document.drop_last(), field) + if document.last().0 == field {
            value_tokens(value_type, document.last().1)
        } else {
            0
        }
    }
}

proof fn occurrences_add_up(
    left: Seq<(TermView, u32)>,
    right: Seq<(TermView, u32)>,
    field: Field,
)
    ensures
        occurrences_of_field(left + right, field) == occurrences_of_field(left, field)
            + occurrences_of_field(right, field),
    decreases right.len(),
{
    if right.len() == 0 {
        assert(left + right =~= left);
    } else {
        assert((left + right).drop_last() =~= left + right.drop_last());
        occurrences_add_up(left, right.drop_last(), field);
    }
}

/// All the occurrences are of terms of one field.
spec fn all_of_field(occurrences: Seq<(TermView, u32)>, field: Field) -> bool {
    forall|i: int| 0 <= i < occurrences.len() ==> (#[trigger] occurrences[i]).0.field == field
}

proof fn occurrences_of_one_field(
    occurrences: Seq<(TermView, u32)>,
    field: Field,
    other: Field,
)
    requires
        all_of_field(occurrences, field),
    ensures
        occurrences_of_field(occurrences, other) == if other == field {
            occurrences.len()
        } else {
            0
        },
    decreases occurrences.len(),
{
    if occurrences.len() > 0 {
        let shorter = occurrences.drop_last();
        assert(occurrences[occurrences.len() - 1].0.field == field);
        assert forall|i: int| 0 <= i < shorter.len() implies (#[trigger] shorter[i]).0.field
            == field by {
            assert(shorter[i] == occurrences[i]);
        }
        occurrences_of_one_field(shorter, field, other);
    }
}

/// The occurrences that a step of indexing adds: `added` of the field, none of others.
spec fn adds(
    before: Seq<(TermView, u32)>,
    after: Seq<(TermView, u32)>,
    field: Field,
    added: nat,
) -> bool {
    forall|other: Field| #[trigger]
        occurrences_of_field(after, other) == occurrences_of_field(before, other) + if other
            == field {
            added
        } else {
            0
        }
}

proof fn adds_list(
    before: Seq<(TermView, u32)>,
    list: Seq<(TermView, u32)>,
    after: Seq<(TermView, u32)>,
    field: Field,
)
    requires
        all_of_field(list, field),
        after == before + list,
    ensures
        adds(before, after, field, list.len()),
{
    assert forall|other: Field| #[trigger]
        occurrences_of_field(after, other) == occurrences_of_field(before, other) + if other
            == field {
            list.len()
        } else {
            0
        } by {
        occurrences_add_up(before, list, other);
        occurrences_of_one_field(list, field, other);
    }
}

proof fn leaves_add(field: Field, state: FieldIndexing, leaves: Seq<JsonLeafView>)
    ensures
        adds(
            state.occurrences,
            indexing::leaves_indexed(field, state, leaves).occurrences,
            field,
            leaf_tokens(leaves),
        ),
    decreases leaves.len(),
{
    if leaves.len() > 0 {
        leaves_add(field, state, leaves.drop_last());
        let before = indexing::leaves_indexed(field, state, leaves.drop_last());
        let after = indexing::leaf_indexed(field, before, leaves.last());
        let leaf = leaves.last();
        let list = match leaf.value {
            LeafValueView::Text(tokens) => indexing::text_occurrences(
                field,
                Type::Json,
                indexing::json_head(before.paths, leaf.path, Type::Str),
                before.next_at(leaf.path),
                tokens,
            ),
            LeafValueView::Exact(typ, bytes) => seq![
                (
                    TermView {
                        field,
                        typ: Type::Json,
                        value: indexing::json_head(before.paths, leaf.path, typ) + bytes,
                    },
                    0,
                ),
            ],
        };
        assert(after.occurrences =~= before.occurrences + list);
        adds_list(before.occurrences, list, after.occurrences, field);
        assert forall|other: Field| #[trigger]
            occurrences_of_field(after.occurrences, other) == occurrences_of_field(
                state.occurrences,
                other,
            ) + if other == field {
                leaf_tokens(leaves)
            } else {
                0
            } by {
            assert(occurrences_of_field(before.occurrences, other) == occurrences_of_field(
                state.occurrences,
                other,
            ) + if other == field {
                leaf_tokens(leaves.drop_last())
            } else {
                0
            });
        }
    }
}

proof fn value_adds(field: Field, entry: FieldEntryView, state: FieldIndexing, value: ValueView)
    requires
        indexing::value_indexed(field, entry, state, value) is Ok,
    ensures
        ({
            let after = indexing::value_indexed(field, entry, state, value)->Ok_0;
            let added = value_tokens(entry.field_type.value_type, value);
            &&& adds(state.occurrences, after.occurrences, field, added)
            &&& entry.field_type.value_type != Type::Json ==> after.count == state.count + added
        }),
{
    let after = indexing::value_indexed(field, entry, state, value)->Ok_0;
    let value_type = entry.field_type.value_type;
    match value {
        ValueView::Null => {},
        ValueView::Text(tokens) => {
            if value_type == Type::Str {
                let list = indexing::text_occurrences(
                    field,
                    Type::Str,
                    Seq::empty(),
                    state.next,
                    tokens,
                );
                adds_list(state.occurrences, list, after.occurrences, field);
            }
        },
        ValueView::Exact(typ, bytes) => {
            if value_type != Type::Str && value_type != Type::Json {
                let list = seq![(TermView { field, typ, value: bytes }, 0u32)];
                assert(after.occurrences =~= state.occurrences + list);
                adds_list(state.occurrences, list, after.occurrences, field);
            }
        },
        ValueView::Json(leaves) => {
            if value_type == Type::Json {
                leaves_add(field, state, leaves);
            }
        },
    }
}

proof fn values_add(
    field: Field,
    entry: FieldEntryView,
    state: FieldIndexing,
    document: Seq<(Field, ValueView)>,
)
    requires
        indexing::field_values_indexed(field, entry, state, document) is Ok,
    ensures
        ({
            let after = indexing::field_values_indexed(field, entry, state, document)->Ok_0;
            let added = document_tokens(entry.field_type.value_type, document, field);
            &&& adds(state.occurrences, after.occurrences, field, added)
            &&& entry.field_type.value_type != Type::Json ==> after.count == state.count + added
        }),
    decreases document.len(),
{
    if document.len() > 0 {
        values_add(field, entry, state, document.drop_last());
        let before = indexing::field_values_indexed(
            field,
            entry,
            state,
            document.drop_last(),
        )->Ok_0;
        let after = indexing::field_values_indexed(field, entry, state, document)->Ok_0;
        if document.last().0 == field {
            value_adds(field, entry, before, document.last().1);
        }
        let value_type = entry.field_type.value_type;
        assert forall|other: Field| #[trigger]
            occurrences_of_field(after.occurrences, other) == occurrences_of_field(
                state.occurrences,
                other,
            ) + if other == field {
                document_tokens(value_type, document, field)
            } else {
                0
            } by {
            assert(occurrences_of_field(before.occurrences, other) == occurrences_of_field(
                state.occurrences,
                other,
            ) + if other == field {
                document_tokens(value_type, document.drop_last(), field)
            } else {
                0
            });
        }
    }
}

proof fn no_contents_no_tokens(
    value_type: Type,
    document: Seq<(Field, ValueView)>,
    field: Field,
)
    requires
        !indexing::has_contents(document, field),
    ensures
        document_tokens(value_type, document, field) == 0,
    decreases document.len(),
{
    if document.len() > 0 {
        let shorter = document.drop_last();
        if indexing::has_contents(shorter, field) {
            let i = choose|i: int|
                0 <= i < shorter.len() && (#[trigger] shorter[i]).0 == field
                    && shorter[i].1 !is Null;
            assert(document[i] == shorter[i]);
        }
        assert(document[document.len() - 1] == document.last());
        no_contents_no_tokens(value_type, shorter, field);
    }
}

/// The number of tokens that indexing finds for a field: those of its values where the field is
/// among the indexed ones, and none where it is not.
pub open spec fn indexed_tokens(
    schema: Seq<FieldEntryView>,
    fields: Seq<Field>,
    document: Seq<(Field, ValueView)>,
    field: Field,
) -> nat {
    let entry = schema[field.0 as int];
    if fields.contains(field) && entry.field_type.record_option is Some {
        document_tokens(entry.field_type.value_type, document, field)
    } else {
        0
    }
}

/// Each token of an indexed field is one occurrence of a term of that field, and there are no
/// others. The fieldnorm of a field is its number of tokens; it is recorded for the indexed fields
/// with fieldnorms and contents, other than JSON fields.
pub proof fn tokens_are_the_occurrences(
    schema: Seq<FieldEntryView>,
    fields: Seq<Field>,
    document: Seq<(Field, ValueView)>,
    field: Field,
)
    requires
        indexing::document_indexed(schema, fields, document) is Ok,
        fields.no_duplicates(),
    ensures
        ({
            let indexed = indexing::document_indexed(schema, fields, document)->Ok_0;
            let field_type = schema[field.0 as int].field_type;
            let tokens = indexed_tokens(schema, fields, document, field);
            &&& occurrences_of_field(indexed.occurrences, field) == tokens
            &&& indexed.fieldnorms.contains_key(field.0) <==> fields.contains(field)
                && field_type.record_option is Some && field_type.fieldnorms
                && field_type.value_type != Type::Json && indexing::has_contents(document, field)
            &&& indexed.fieldnorms.contains_key(field.0) ==> indexed.fieldnorms[field.0]
                == fieldnorm::encoded((tokens % 0x1_0000_0000) as u32)
        }),
    decreases fields.len(),
{
    if fields.len() > 0 {
        let shorter = fields.drop_last();
        let last = fields.last();
        assert forall|i: int, j: int|
            0 <= i < shorter.len() && 0 <= j < shorter.len() && i != j implies shorter[i]
            != shorter[j] by {
            assert(fields[i] != fields[j]);
        }
        tokens_are_the_occurrences(schema, shorter, document, field);
        let state = indexing::document_indexed(schema, shorter, document)->Ok_0;
        let entry = schema[last.0 as int];
        assert(fields.contains(field) <==> shorter.contains(field) || field == last) by {
            if fields.contains(field) {
                let i = fields.index_of(field);
                if i < shorter.len() {
                    assert(shorter[i] == field);
                }
            }
            if shorter.contains(field) {
                assert(fields[shorter.index_of(field)] == field);
            }
            assert(fields[fields.len() - 1] == last);
        }
        if shorter.contains(last) {
            let i = shorter.index_of(last);
            assert(fields[i] == fields[fields.len() - 1]);
        }
        if entry.field_type.record_option is Some {
            if indexing::has_contents(document, last) {
                let start = indexing::start_of_field(state);
                values_add(last, entry, start, document);
                let after = indexing::field_values_indexed(last, entry, start, document)->Ok_0;
                assert(occurrences_of_field(after.occurrences, field) == occurrences_of_field(
                    start.occurrences,
                    field,
                ) + if field == last {
                    document_tokens(entry.field_type.value_type, document, last)
                } else {
                    0
                });
                assert(field.0 == last.0 ==> field == last);
            } else {
                no_contents_no_tokens(entry.field_type.value_type, document, last);
                assert(field.0 == last.0 ==> field == last);
            }
        }
    }
}

/// A prepared document counts the tokens of its document.
pub proof fn prepared_tokens_are_counted(
    schema: Seq<FieldEntryView>,
    fields: Seq<Field>,
    document: Seq<(Field, ValueView)>,
    prepared: PreparedDocumentView,
    field: Field,
)
    requires
        fields.no_duplicates(),
        indexing::document_indexed(schema, fields, document) is Ok,
        prepared_document::holds_indexing(
            prepared,
            indexing::document_indexed(schema, fields, document)->Ok_0,
        ),
    ensures
        prepared_document::field_total(prepared.terms, field) == indexed_tokens(
            schema,
            fields,
            document,
            field,
        ) % 0x1_0000_0000_0000_0000,
{
    let indexed = indexing::document_indexed(schema, fields, document)->Ok_0;
    positions_are_the_occurrences(prepared, indexed, field);
    tokens_are_the_occurrences(schema, fields, document, field);
}

} // verus!
