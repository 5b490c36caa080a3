//! The postings of one document: its terms with their positions.

use vstd::prelude::*;
use vstd::multiset::Multiset;
use std::collections::HashMap;
use crate::error;
use crate::error::{ErrorView, TantivyError};
use crate::fieldnorm;
use crate::fieldnorm::FieldNormReader;
use crate::json_paths;
use crate::positions;
use crate::prepared_document::{PreparedDocumentView, PreparedSingleDocument};
use crate::schema::{Field, Type};
use crate::term;
use crate::term::{Term, TermView, JSON_END_OF_PATH};
use crate::term_map;
use crate::term_map::TermMap;

verus! {

/// The positions at which a term occurs among the occurrences of a document.
pub open spec fn positions_in(occurrences: Seq<(TermView, u32)>, term: TermView) -> Seq<u32>
    decreases occurrences.len(),
{
    if occurrences.len() == 0 {
        Seq::empty()
    } else {
        let before = positions_in(occurrences.drop_last(), term);
        if occurrences.last().0 == term {
            before.push(occurrences.last().1)
        } else {
            before
        }
    }
}

/// What is listed for a term: its positions, where it occurs.
pub open spec fn listed(occurrences: Seq<(TermView, u32)>, term: TermView) -> Option<Seq<u32>> {
    if positions_in(occurrences, term).len() == 0 {
        None
    } else {
        Some(positions_in(occurrences, term))
    }
}

/// The terms are those that occur, with their positions in the order of the occurrences.
pub open spec fn lists_occurrences(
    entries: Seq<(TermView, Seq<u32>)>,
    occurrences: Seq<(TermView, u32)>,
) -> bool {
    &&& term_map::ascending(entries)
    &&& forall|term: TermView| #[trigger]
        term_map::lookup(entries, term) == listed(occurrences, term)
}

/// Collects the occurrences of the terms of one document.
pub struct PreparedDocumentPostingsWriter {
    term_positions: TermMap,
    total_num_tokens: u64,
    occurrences: Ghost<Seq<(TermView, u32)>>,
}

impl PreparedDocumentPostingsWriter {
    /// The terms with their positions.
    pub closed spec fn entries(&self) -> Seq<(TermView, Seq<u32>)> {
        self.term_positions@
    }

    /// The occurrences that were reported.
    pub closed spec fn occurrences(&self) -> Seq<(TermView, u32)> {
        self.occurrences@
    }

    /// The number of occurrences that were counted.
    pub closed spec fn counted(&self) -> u64 {
        self.total_num_tokens
    }

    /// The terms list what was reported, and all of it was counted.
    pub open spec fn well_formed(&self) -> bool {
        &&& lists_occurrences(self.entries(), self.occurrences())
        &&& self.counted() == self.occurrences().len() % 0x1_0000_0000_0000_0000
    }

    /// A writer without occurrences.
    pub fn new() -> (r: PreparedDocumentPostingsWriter)
        ensures
            r.well_formed(),
            r.occurrences() == Seq::<(TermView, u32)>::empty(),
    {
        PreparedDocumentPostingsWriter {
            term_positions: TermMap::new(),
            total_num_tokens: 0,
            occurrences: Ghost(Seq::empty()),
        }
    }

    /// Reports an occurrence of a term.
    pub fn subscribe(&mut self, position: u32, term: &Term)
        requires
            old(self).well_formed(),
        ensures
            final(self).well_formed(),
            final(self).occurrences() == old(self).occurrences().push((term@, position)),
    {
        let ghost before = self.occurrences@;
        let ghost after = before.push((term@, position));
        self.term_positions.push_position(term, position);
        self.total_num_tokens = self.total_num_tokens.wrapping_add(1);
        self.occurrences = Ghost(after);
        proof {
            assert(after.drop_last() =~= before);
            assert forall|other: TermView| #[trigger]
                term_map::lookup(self.term_positions@, other) == listed(after, other) by {
                assert(term_map::lookup(old(self).entries(), other) == listed(before, other));
                if positions_in(before, other).len() == 0 {
                    assert(positions_in(before, other) =~= Seq::empty());
                    assert(Seq::<u32>::empty().push(position) =~= seq![position]);
                }
            }
            let counted = before.len() as int;
            assert(counted % 0x1_0000_0000_0000_0000 < 0x1_0000_0000_0000_0000);
            assert((counted + 1) % 0x1_0000_0000_0000_0000 == (counted % 0x1_0000_0000_0000_0000
                + 1) % 0x1_0000_0000_0000_0000) by (nonlinear_arith);
        }
    }

    /// Returns the number of occurrences, modulo two to the power of sixty-four.
    pub fn total_num_tokens(&self) -> (r: u64)
        requires
            self.well_formed(),
        ensures
            r == self.occurrences().len() % 0x1_0000_0000_0000_0000,
    {
        self.total_num_tokens
    }
}

/// The term that stands for an intermediate JSON term: in place of the number of the path stands
/// the path itself. `ordered_ids` gives, for each number, the place of the path in `paths`.
pub open spec fn normalized_json_term(
    raw: TermView,
    ordered_ids: Seq<u32>,
    paths: Seq<Seq<char>>,
) -> Result<TermView, ErrorView> {
    if raw.value.len() < 5 {
        Err(error::invalid_json_term())
    } else {
        let id = json_paths::id_of(raw.value) as int;
        if id >= ordered_ids.len() {
            Err(error::unknown_path_id())
        } else if ordered_ids[id] >= paths.len() {
            Err(error::unknown_ordered_path_id())
        } else {
            Ok(
                TermView {
                    field: raw.field,
                    typ: Type::Json,
                    value: json_term_value(paths[ordered_ids[id] as int], raw.value.skip(4)),
                },
            )
        }
    }
}

/// The value of a JSON term: a path, its end mark, and the typed value.
pub open spec fn json_term_value(path: Seq<char>, typed_value: Seq<u8>) -> Seq<u8> {
    vstd::utf8::encode_utf8(path).map_values(|b: u8| term::path_byte(b)) + seq![JSON_END_OF_PATH]
        + typed_value
}

/// Replaces the number of the path of an intermediate JSON term by the path itself.
pub fn normalize_json_term(
    raw_term: &Term,
    unordered_to_ordered: &[u32],
    ordered_paths: &[String],
) -> (r: Result<Term, TantivyError>)
    ensures
        match r {
            Ok(term) => normalized_json_term(
                raw_term@,
                unordered_to_ordered@,
                json_paths::path_views(ordered_paths@),
            ) == Ok::<TermView, ErrorView>(term@),
            Err(error) => normalized_json_term(
                raw_term@,
                unordered_to_ordered@,
                json_paths::path_views(ordered_paths@),
            ) == Err::<TermView, ErrorView>(error@),
        },
{
    let raw_value = raw_term.serialized_value_bytes();
    if raw_value.len() < 5 {
        return Err(error::invalid_json_term_error());
    }
    let unordered_id: u32 = json_paths::read_id(raw_value);
    if unordered_id as usize >= unordered_to_ordered.len() {
        return Err(error::unknown_path_id_error());
    }
    let ordered_id: u32 = unordered_to_ordered[unordered_id as usize];
    if ordered_id as usize >= ordered_paths.len() {
        return Err(error::unknown_ordered_path_id_error());
    }
    let path: &str = ordered_paths[ordered_id as usize].as_str();
    assert(path@ == json_paths::path_views(ordered_paths@)[ordered_id as int]);
    let mut term = Term::with_type_and_field(Type::Json, raw_term.field());
    term.append_path(path.as_bytes());
    let end_mark: [u8; 1] = [JSON_END_OF_PATH];
    term.append_bytes(end_mark.as_slice());
    term.append_bytes(vstd::slice::slice_subrange(raw_value, 4, raw_value.len()));
    assert(term@.value =~= json_term_value(path@, raw_term@.value.skip(4)));
    Ok(term)
}

/// The term that stands for an intermediate term. Only JSON terms have an intermediate form.
pub open spec fn normalized_term(
    raw: TermView,
    ordered_ids: Seq<u32>,
    paths: Seq<Seq<char>>,
) -> Result<TermView, ErrorView> {
    if raw.typ == Type::Json {
        normalized_json_term(raw, ordered_ids, paths)
    } else {
        Ok(raw)
    }
}

/// The positions of the intermediate terms that `term` stands for, one list for each of them.
pub open spec fn sources(
    raw: Seq<(TermView, Seq<u32>)>,
    ordered_ids: Seq<u32>,
    paths: Seq<Seq<char>>,
    term: TermView,
) -> Seq<Seq<u32>>
    decreases raw.len(),
{
    if raw.len() == 0 {
        Seq::empty()
    } else {
        let before = sources(raw.drop_last(), ordered_ids, paths, term);
        if normalized_term(raw.last().0, ordered_ids, paths) == Ok::<TermView, ErrorView>(term) {
            before.push(raw.last().1)
        } else {
            before
        }
    }
}

/// The positions of all the lists.
pub open spec fn all_positions(lists: Seq<Seq<u32>>) -> Multiset<u32>
    decreases lists.len(),
{
    if lists.len() == 0 {
        Multiset::empty()
    } else {
        all_positions(lists.drop_last()).add(lists.last().to_multiset())
    }
}

/// One list is kept as it is. Several lists are merged and sorted.
pub open spec fn merges(lists: Seq<Seq<u32>>, merged: Seq<u32>) -> bool {
    if lists.len() == 1 {
        merged == lists[0]
    } else {
        positions::sorted(merged) && merged.to_multiset() == all_positions(lists)
    }
}

/// The terms are those that stand for the intermediate terms, with the positions of these.
pub open spec fn normalizes(
    raw: Seq<(TermView, Seq<u32>)>,
    ordered_ids: Seq<u32>,
    paths: Seq<Seq<char>>,
    entries: Seq<(TermView, Seq<u32>)>,
) -> bool {
    &&& term_map::ascending(entries)
    &&& forall|i: int|
        0 <= i < raw.len() ==> normalized_term((#[trigger] raw[i]).0, ordered_ids, paths) is Ok
    &&& forall|term: TermView|
        match #[trigger] term_map::lookup(entries, term) {
            Some(merged) => sources(raw, ordered_ids, paths, term).len() > 0 && merges(
                sources(raw, ordered_ids, paths, term),
                merged,
            ),
            None => sources(raw, ordered_ids, paths, term).len() == 0,
        }
}

/// What indexing a document gives: the occurrences of its terms, and its fieldnorms.
pub struct PreparedDocumentIndexingOutput {
    postings_writer: PreparedDocumentPostingsWriter,
    fieldnorm_ids: HashMap<u32, u8>,
}

impl PreparedDocumentIndexingOutput {
    /// The terms with their positions.
    pub closed spec fn entries(&self) -> Seq<(TermView, Seq<u32>)> {
        self.postings_writer.entries()
    }

    /// The occurrences that were reported.
    pub closed spec fn occurrences(&self) -> Seq<(TermView, u32)> {
        self.postings_writer.occurrences()
    }

    /// The fieldnorm ids that were recorded, by field id.
    pub closed spec fn fieldnorms(&self) -> Map<u32, u8> {
        self.fieldnorm_ids@
    }

    /// The terms list what was reported.
    pub closed spec fn well_formed(&self) -> bool {
        self.postings_writer.well_formed()
    }

    /// Nothing was reported.
    pub fn new() -> (r: PreparedDocumentIndexingOutput)
        ensures
            r.well_formed(),
            r.occurrences() == Seq::<(TermView, u32)>::empty(),
            r.fieldnorms() == Map::<u32, u8>::empty(),
    {
        broadcast use vstd::std_specs::hash::group_hash_axioms;

        PreparedDocumentIndexingOutput {
            postings_writer: PreparedDocumentPostingsWriter::new(),
            fieldnorm_ids: HashMap::new(),
        }
    }

    /// Well-formed output lists what was reported.
    pub proof fn lists_what_was_reported(&self)
        requires
            self.well_formed(),
        ensures
            lists_occurrences(self.entries(), self.occurrences()),
    {
    }

    /// Reports an occurrence of a term.
    pub fn subscribe(&mut self, position: u32, term: &Term)
        requires
            old(self).well_formed(),
        ensures
            final(self).well_formed(),
            final(self).occurrences() == old(self).occurrences().push((term@, position)),
            final(self).fieldnorms() == old(self).fieldnorms(),
    {
        self.postings_writer.subscribe(position, term);
    }

    /// Records the number of tokens of a field.
    pub fn record_fieldnorm(&mut self, field: Field, fieldnorm: u32)
        requires
            old(self).well_formed(),
        ensures
            final(self).well_formed(),
            final(self).occurrences() == old(self).occurrences(),
            final(self).fieldnorms() == old(self).fieldnorms().insert(
                field.0,
                fieldnorm::encoded(fieldnorm),
            ),
    {
        broadcast use vstd::std_specs::hash::group_hash_axioms;

        let id: u8 = FieldNormReader::fieldnorm_to_id(fieldnorm);
        self.fieldnorm_ids.insert(field.0, id);
    }

    /// Replaces the intermediate JSON terms by the terms that they stand for.
    ///
    /// Where several intermediate terms stand for one term, their positions are merged.
    pub fn normalize_json_terms(
        &mut self,
        unordered_to_ordered: &[u32],
        ordered_paths: &[String],
    ) -> (r: Result<(), TantivyError>)
        requires
            old(self).well_formed(),
        ensures
            final(self).fieldnorms() == old(self).fieldnorms(),
            match r {
                Ok(_) => normalizes(
                    old(self).entries(),
                    unordered_to_ordered@,
                    json_paths::path_views(ordered_paths@),
                    final(self).entries(),
                ),
                Err(error) => exists|i: int|
                    0 <= i < old(self).entries().len() && normalized_term(
                        (#[trigger] old(self).entries()[i]).0,
                        unordered_to_ordered@,
                        json_paths::path_views(ordered_paths@),
                    ) == Err::<TermView, ErrorView>(error@),
            },
    {
        let mut raw_term_positions = TermMap::new();
        std::mem::swap(&mut raw_term_positions, &mut self.postings_writer.term_positions);
        let ghost raw = raw_term_positions@;
        let ghost ids = unordered_to_ordered@;
        let ghost paths = json_paths::path_views(ordered_paths@);
        assert(raw == old(self).entries());
        let mut normalized = TermMap::new();
        let mut i: usize = 0;
        assert(raw.take(0) =~= Seq::empty());
        while i < raw_term_positions.len()
            invariant
                i <= raw.len(),
                raw == raw_term_positions@,
                raw == old(self).entries(),
                old(self).well_formed(),
                self.fieldnorms() == old(self).fieldnorms(),
                ids == unordered_to_ordered@,
                paths == json_paths::path_views(ordered_paths@),
                normalizes(raw.take(i as int), ids, paths, normalized@),
            decreases raw.len() - i,
        {
            let ghost done = raw.take(i as int);
            let ghost longer = raw.take(i + 1);
            proof {
                assert(longer.drop_last() =~= done);
                old(self).lists_what_was_reported();
                term_map::lookup_finds(raw, i as int);
                assert(term_map::lookup(raw, raw[i as int].0) == listed(
                    old(self).occurrences(),
                    raw[i as int].0,
                ));
            }
            let raw_term = raw_term_positions.term_at(i);
            let raw_positions = raw_term_positions.positions_at(i);
            let term = if raw_term.typ() == Type::Json {
                match normalize_json_term(raw_term, unordered_to_ordered, ordered_paths) {
                    Ok(term) => term,
                    Err(error) => {
                        return Err(error);
                    },
                }
            } else {
                raw_term.clone()
            };
            let ghost target = term@;
            assert(normalized_term(raw[i as int].0, ids, paths) == Ok::<TermView, ErrorView>(
                target,
            ));
            let ghost before = normalized@;
            let ghost lists = sources(done, ids, paths, target);
            let (index, found) = normalized.find(&term);
            let positions: Vec<u32> = if found {
                let mut joined = positions::copy_of(normalized.positions_at(index));
                positions::append_all(&mut joined, raw_positions);
                let merged = positions::sorted_copy(joined.as_slice());
                proof {
                    let earlier = before[index as int].1;
                    vstd::seq_lib::lemma_multiset_commutative(earlier, raw_positions@);
                    assert(lists.push(raw_positions@).drop_last() =~= lists);
                    if lists.len() == 1 {
                        assert(lists.drop_last() =~= Seq::empty());
                        assert(all_positions(lists.drop_last()) =~= Multiset::empty());
                        assert(all_positions(lists) =~= lists[0].to_multiset());
                    }
                    assert(merged@.to_multiset() =~= all_positions(lists.push(raw_positions@)));
                }
                merged
            } else {
                positions::copy_of(raw_positions)
            };
            let ghost merged = positions@;
            assert(merges(lists.push(raw_positions@), merged));
            normalized.set(term, positions);
            proof {
                assert forall|k: int| 0 <= k < longer.len() implies normalized_term(
                    (#[trigger] longer[k]).0,
                    ids,
                    paths,
                ) is Ok by {
                    if k < i {
                        assert(longer[k] == done[k]);
                    }
                }
                assert forall|other: TermView|
                    match #[trigger] term_map::lookup(normalized@, other) {
                        Some(found) => sources(longer, ids, paths, other).len() > 0 && merges(
                            sources(longer, ids, paths, other),
                            found,
                        ),
                        None => sources(longer, ids, paths, other).len() == 0,
                    } by {
                    let found = term_map::lookup(before, other);
                    if other != target {
                        assert(sources(longer, ids, paths, other) == sources(
                            done,
                            ids,
                            paths,
                            other,
                        ));
                    } else {
                        assert(sources(longer, ids, paths, other) == lists.push(raw_positions@));
                    }
                }
            }
            i += 1;
        }
        assert(raw.take(i as int) =~= raw);
        self.postings_writer.term_positions = normalized;
        Ok(())
    }

    /// Moves the terms and the fieldnorms into a prepared document. Nothing is left behind.
    pub fn take_prepared_document(&mut self, prepared_fields: Vec<Field>) -> (r:
        PreparedSingleDocument)
        requires
            term_map::ascending(old(self).entries()),
        ensures
            r@ == (PreparedDocumentView {
                terms: old(self).entries(),
                fieldnorms: old(self).fieldnorms(),
                prepared_fields: prepared_fields@,
            }),
            final(self).well_formed(),
            final(self).occurrences() == Seq::<(TermView, u32)>::empty(),
            final(self).fieldnorms() == Map::<u32, u8>::empty(),
    {
        let mut taken = PreparedDocumentIndexingOutput::new();
        std::mem::swap(&mut taken, self);
        PreparedSingleDocument::new(
            taken.postings_writer.term_positions,
            taken.fieldnorm_ids,
            prepared_fields,
        )
    }
}

/// A listed term occurs.
pub proof fn listed_term_occurs(
    entries: Seq<(TermView, Seq<u32>)>,
    occurrences: Seq<(TermView, u32)>,
    i: int,
)
    requires
        lists_occurrences(entries, occurrences),
        0 <= i < entries.len(),
    ensures
        exists|k: int|
            0 <= k < occurrences.len() && (#[trigger] occurrences[k]).0 == entries[i].0,
{
    term_map::lookup_finds(entries, i);
    assert(term_map::lookup(entries, entries[i].0) == listed(occurrences, entries[i].0));
    positions_come_from_occurrences(occurrences, entries[i].0);
}

proof fn positions_come_from_occurrences(occurrences: Seq<(TermView, u32)>, term: TermView)
    ensures
        positions_in(occurrences, term).len() > 0 ==> exists|k: int|
            0 <= k < occurrences.len() && (#[trigger] occurrences[k]).0 == term,
    decreases occurrences.len(),
{
    if occurrences.len() > 0 {
        let shorter = occurrences.drop_last();
        positions_come_from_occurrences(shorter, term);
        if occurrences.last().0 == term {
            assert(occurrences[occurrences.len() - 1].0 == term);
        } else if positions_in(shorter, term).len() > 0 {
            let k = choose|k: int| 0 <= k < shorter.len() && (#[trigger] shorter[k]).0 == term;
            assert(occurrences[k].0 == term);
        }
    }
}

} // verus!
