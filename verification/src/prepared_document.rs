//! Regular documents, prepared for the evaluation of queries.

use vstd::prelude::*;
use std::collections::HashMap;
use crate::document::{Document, ValueView};
use crate::error;
use crate::error::{ErrorView, TantivyError};
use crate::fields;
use crate::indexing;
use crate::indexing::DocumentIndexing;
use crate::json_paths;
use crate::postings;
use crate::schema::{Field, FieldEntryView, Schema};
use crate::single_document;
use crate::single_document::{BoundView, DocumentView, SingleDocument, SingleDocumentTermInfo};
use crate::single_document::{TermBound, TermInfoView, VisitedTerm};
use crate::term;
use crate::term::{Term, TermView};
use crate::term_map;
use crate::term_map::{Pivot, TermMap};
use crate::tokenizer::TokenizerManager;

verus! {

/// An owned, indexed representation of one document for single-document evaluation.
///
/// Preparing a document once and reusing it avoids indexing the document again for every query.
#[derive(Debug)]
pub struct PreparedSingleDocument {
    term_positions: TermMap,
    fieldnorm_ids: HashMap<u32, u8>,
    total_num_tokens_by_field: HashMap<u32, u64>,
    prepared_fields: Vec<Field>,
}

/// The contents of a [`PreparedSingleDocument`].
#[verifier::ext_equal]
pub struct PreparedDocumentView {
    /// The terms with their positions, in ascending order.
    pub terms: Seq<(TermView, Seq<u32>)>,
    /// The fieldnorm ids, by field id.
    pub fieldnorms: Map<u32, u8>,
    /// The fields that were prepared.
    pub prepared_fields: Seq<Field>,
}

impl View for PreparedSingleDocument {
    type V = PreparedDocumentView;

    closed spec fn view(&self) -> PreparedDocumentView {
        PreparedDocumentView {
            terms: self.term_positions@,
            fieldnorms: self.fieldnorm_ids@,
            prepared_fields: self.prepared_fields@,
        }
    }
}

/// The entry of a field in a table of counts, zero where there is none.
spec fn counted(totals: Map<u32, u64>, field: Field) -> u64 {
    if totals.contains_key(field.0) {
        totals[field.0]
    } else {
        0
    }
}

/// The number of positions of a field, as far as it fits.
pub open spec fn field_total(terms: Seq<(TermView, Seq<u32>)>, field: Field) -> nat {
    term_map::positions_of_field(terms, field) % 0x1_0000_0000_0000_0000
}

/// The occurrence information for a list of positions.
pub open spec fn info_of(positions: Seq<u32>) -> TermInfoView {
    TermInfoView { term_freq: positions.len() as u32, positions: Some(positions) }
}

/// An entry is for a term of a field within a range.
pub open spec fn in_range(field: Field, start: BoundView, end: BoundView) -> spec_fn(
    (TermView, Seq<u32>),
) -> bool {
    |entry: (TermView, Seq<u32>)|
        entry.0.field == field && single_document::after_start(start, entry.0)
            && single_document::before_end(end, entry.0)
}

/// The entries with their occurrence information.
pub open spec fn with_info(entries: Seq<(TermView, Seq<u32>)>) -> Seq<(TermView, TermInfoView)> {
    entries.map_values(|entry: (TermView, Seq<u32>)| (entry.0, info_of(entry.1)))
}

/// The first of the required fields that was not prepared.
pub open spec fn first_unprepared(required: Seq<Field>, prepared: Seq<Field>) -> Option<Field>
    decreases required.len(),
{
    if required.len() == 0 {
        None
    } else {
        match first_unprepared(required.drop_last(), prepared) {
            Some(field) => Some(field),
            None => if prepared.contains(required.last()) {
                None
            } else {
                Some(required.last())
            },
        }
    }
}

impl PreparedDocumentView {
    /// What the document answers.
    pub open spec fn answers(self) -> DocumentView {
        DocumentView {
            term_info: |term: TermView|
                match term_map::lookup(self.terms, term) {
                    Some(positions) => Some(info_of(positions)),
                    None => None,
                },
            visited: |field: Field, start: BoundView, end: BoundView|
                with_info(self.terms.filter(in_range(field, start, end))),
            fieldnorm_id: |field: Field|
                if self.fieldnorms.contains_key(field.0) {
                    Some(self.fieldnorms[field.0])
                } else {
                    None
                },
            validated: |required: Option<Seq<Field>>|
                match required {
                    None => Err(error::requirements_unknown()),
                    Some(fields) => match first_unprepared(fields, self.prepared_fields) {
                        Some(field) => Err(error::field_not_prepared(field)),
                        None => Ok(()),
                    },
                },
        }
    }
}

/// A prepared document can be evaluated exactly where all the required fields are known and were
/// prepared.
pub proof fn coverage_is_what_was_prepared(
    document: PreparedDocumentView,
    required: Option<Seq<Field>>,
)
    ensures
        (document.answers().validated)(required) is Ok <==> (required matches Some(fields)
            && forall|i: int|
            0 <= i < fields.len() ==> document.prepared_fields.contains(#[trigger] fields[i])),
{
    if let Some(fields) = required {
        first_unprepared_is_missing(fields, document.prepared_fields);
    }
}

proof fn first_unprepared_is_missing(required: Seq<Field>, prepared: Seq<Field>)
    ensures
        match first_unprepared(required, prepared) {
            Some(field) => required.contains(field) && !prepared.contains(field),
            None => forall|i: int|
                0 <= i < required.len() ==> prepared.contains(#[trigger] required[i]),
        },
    decreases required.len(),
{
    if required.len() > 0 {
        let shorter = required.drop_last();
        first_unprepared_is_missing(shorter, prepared);
        if let Some(field) = first_unprepared(shorter, prepared) {
            let i = shorter.index_of(field);
            assert(required[i] == field);
        } else {
            assert(required[required.len() - 1] == required.last());
            if prepared.contains(required.last()) {
                assert forall|i: int| 0 <= i < required.len() implies prepared.contains(
                    #[trigger] required[i],
                ) by {
                    if i < shorter.len() {
                        assert(prepared.contains(shorter[i]));
                    }
                }
            }
        }
    }
}

/// The terms of a prepared document that are listed for a range are those of the field and within
/// the range that the document holds, with the same occurrences.
pub proof fn listed_terms_are_those_held(
    document: PreparedDocumentView,
    field: Field,
    start: BoundView,
    end: BoundView,
    term: TermView,
    info: TermInfoView,
)
    requires
        term_map::ascending(document.terms),
    ensures
        (document.answers().visited)(field, start, end).contains((term, info)) <==> term.field
            == field && single_document::after_start(start, term) && single_document::before_end(
            end,
            term,
        ) && (document.answers().term_info)(term) == Some(info),
{
    let pred = in_range(field, start, end);
    let kept = document.terms.filter(pred);
    let visited = with_info(kept);
    if visited.contains((term, info)) {
        let i = visited.index_of((term, info));
        assert(visited[i] == (kept[i].0, info_of(kept[i].1)));
        document.terms.lemma_filter_pred(pred, i);
        assert(kept.contains(kept[i]));
        document.terms.lemma_filter_contains_rev(pred, kept[i]);
        let j = document.terms.index_of(kept[i]);
        term_map::lookup_finds(document.terms, j);
    }
    if term.field == field && single_document::after_start(start, term)
        && single_document::before_end(end, term) && (document.answers().term_info)(term) == Some(
        info,
    ) {
        let i = term_map::lookup_is_listed(document.terms, term);
        assert(pred(document.terms[i]));
        document.terms.lemma_filter_contains(pred, i);
        let j = kept.index_of(document.terms[i]);
        assert(visited[j] == (term, info));
    }
}

proof fn visited_terms_are_all(
    document: PreparedDocumentView,
    field: Field,
    start: BoundView,
    end: BoundView,
)
    requires
        term_map::ascending(document.terms),
    ensures
        single_document::visits_all(
            (document.answers().visited)(field, start, end),
            document.answers(),
            field,
            start,
            end,
        ),
{
    let visited = (document.answers().visited)(field, start, end);
    assert forall|term: TermView|
        #[trigger] (document.answers().term_info)(term) is Some && term.field == field
            && single_document::after_start(start, term) && single_document::before_end(
            end,
            term,
        ) implies exists|i: int| 0 <= i < visited.len() && (#[trigger] visited[i]).0 == term by {
        let info = (document.answers().term_info)(term)->0;
        listed_terms_are_those_held(document, field, start, end, term, info);
        assert(visited[visited.index_of((term, info))].0 == term);
    }
}

/// Where the entries that are kept stand next to each other, they are a part of the list.
proof fn filter_of_range(
    entries: Seq<(TermView, Seq<u32>)>,
    pred: spec_fn((TermView, Seq<u32>)) -> bool,
    start: int,
    end: int,
)
    requires
        0 <= start <= end <= entries.len(),
        forall|i: int|
            0 <= i < entries.len() ==> (pred(#[trigger] entries[i]) <==> start <= i < end),
    ensures
        entries.filter(pred) == entries.subrange(start, end),
    decreases entries.len(),
{
    reveal(Seq::filter);
    if entries.len() == 0 {
        assert(entries.subrange(start, end) =~= entries);
    } else {
        let shorter = entries.drop_last();
        let last = entries.len() - 1;
        assert(pred(entries[last]) <==> start <= last < end);
        assert forall|i: int| 0 <= i < shorter.len() implies (pred(#[trigger] shorter[i])
            <==> start <= i < end) by {
            assert(shorter[i] == entries[i]);
        }
        if end == entries.len() && start < end {
            assert forall|i: int| 0 <= i < shorter.len() implies (pred(#[trigger] shorter[i])
                <==> start <= i < end - 1) by {
                assert(shorter[i] == entries[i]);
            }
            filter_of_range(shorter, pred, start, end - 1);
            assert(entries.subrange(start, end) =~= shorter.subrange(start, end - 1).push(
                entries.last(),
            ));
        } else if end == entries.len() {
            filter_of_range(shorter, pred, last, last);
            assert(entries.subrange(start, end) =~= shorter.subrange(last, last));
        } else {
            filter_of_range(shorter, pred, start, end);
            assert(entries.subrange(start, end) =~= shorter.subrange(start, end));
        }
    }
}

impl Clone for PreparedSingleDocument {
    fn clone(&self) -> (r: PreparedSingleDocument)
        ensures
            r@ == self@,
    {
        proof {
            use_type_invariant(self);
        }
        PreparedSingleDocument::new(
            self.term_positions.clone(),
            self.fieldnorm_ids.clone(),
            fields::copy_of(self.prepared_fields.as_slice()),
        )
    }
}

impl Default for PreparedSingleDocument {
    fn default() -> (r: PreparedSingleDocument)
        ensures
            r@ == (PreparedDocumentView {
                terms: Seq::empty(),
                fieldnorms: Map::empty(),
                prepared_fields: Seq::empty(),
            }),
    {
        PreparedSingleDocument::new(TermMap::new(), HashMap::new(), Vec::new())
    }
}

impl PreparedSingleDocument {
    #[verifier::type_invariant]
    spec fn inv(self) -> bool {
        &&& term_map::ascending(self.term_positions@)
        &&& forall|field: Field| #[trigger]
            counted(self.total_num_tokens_by_field@, field) == field_total(
                self.term_positions@,
                field,
            )
    }

    /// A document with the given terms and fieldnorms.
    pub(crate) fn new(
        term_positions: TermMap,
        fieldnorm_ids: HashMap<u32, u8>,
        prepared_fields: Vec<Field>,
    ) -> (r: PreparedSingleDocument)
        requires
            term_map::ascending(term_positions@),
        ensures
            r@ == (PreparedDocumentView {
                terms: term_positions@,
                fieldnorms: fieldnorm_ids@,
                prepared_fields: prepared_fields@,
            }),
    {
        broadcast use vstd::std_specs::hash::group_hash_axioms;

        let ghost terms = term_positions@;
        let mut totals: HashMap<u32, u64> = HashMap::new();
        let mut i: usize = 0;
        assert(terms.take(0) =~= Seq::empty());
        while i < term_positions.len()
            invariant
                i <= terms.len(),
                terms == term_positions@,
                forall|field: Field| #[trigger]
                    counted(totals@, field) == field_total(terms.take(i as int), field),
            decreases terms.len() - i,
        {
            let ghost before = totals@;
            let field = term_positions.term_at(i).field();
            let added: u64 = term_positions.positions_at(i).len() as u64;
            let total: u64 = match totals.get(&field.0) {
                Some(total) => *total,
                None => 0,
            };
            assert(total == counted(before, field));
            totals.insert(field.0, total.wrapping_add(added));
            proof {
                assert(terms.take(i + 1).drop_last() =~= terms.take(i as int));
                assert forall|other: Field| #[trigger] counted(totals@, other) == field_total(
                    terms.take(i + 1),
                    other,
                ) by {
                    assert(counted(before, other) == field_total(terms.take(i as int), other));
                    if other == field {
                        let count = term_map::positions_of_field(terms.take(i as int), field);
                        vstd::arithmetic::div_mod::lemma_add_mod_noop(
                            count as int,
                            added as int,
                            0x1_0000_0000_0000_0000,
                        );
                        vstd::arithmetic::div_mod::lemma_small_mod(
                            added as nat,
                            0x1_0000_0000_0000_0000,
                        );
                    }
                }
            }
            i += 1;
        }
        assert(terms.take(i as int) =~= terms);
        PreparedSingleDocument {
            term_positions,
            fieldnorm_ids,
            total_num_tokens_by_field: totals,
            prepared_fields,
        }
    }

    /// Returns the exact number of indexed tokens for `field` in this document.
    ///
    /// Unlike the fieldnorm id, this value is not compressed. It can be accumulated across prepared
    /// documents to build corpus-level statistics such as the average field length used by BM25.
    /// (It is taken modulo two to the power of sixty-four.)
    pub fn total_num_tokens(&self, field: Field) -> (r: u64)
        ensures
            r == field_total(self@.terms, field),
    {
        broadcast use vstd::std_specs::hash::group_hash_axioms;

        proof {
            use_type_invariant(self);
            assert(counted(self.total_num_tokens_by_field@, field) == field_total(
                self.term_positions@,
                field,
            ));
        }
        match self.total_num_tokens_by_field.get(&field.0) {
            Some(total) => *total,
            None => 0,
        }
    }

    /// Returns the occurrence information of the term at an index.
    fn info_at(&self, index: usize) -> (r: SingleDocumentTermInfo<'_>)
        requires
            index < self@.terms.len(),
        ensures
            r@ == info_of(self@.terms[index as int].1),
    {
        let positions = self.term_positions.positions_at(index);
        SingleDocumentTermInfo { term_freq: positions.len() as u32, positions: Some(positions) }
    }
}

impl SingleDocument for PreparedSingleDocument {
    open spec fn document(&self) -> DocumentView {
        self@.answers()
    }

    fn term_info(&self, term: &Term) -> (r: Option<SingleDocumentTermInfo<'_>>) {
        proof {
            use_type_invariant(self);
        }
        let (index, found) = self.term_positions.find(term);
        if found {
            Some(self.info_at(index))
        } else {
            None
        }
    }

    fn visit_terms(&self, field: Field, start: TermBound<'_>, end: TermBound<'_>) -> (r: Vec<
        VisitedTerm<'_>,
    >) {
        proof {
            use_type_invariant(self);
        }
        let ghost terms = self.term_positions@;
        let ghost pred = in_range(field, start@, end@);
        let field_start = self.term_positions.partition_point(&Pivot::BeforeField(field));
        let field_end = self.term_positions.partition_point(&Pivot::BehindField(field));
        let bound_start: usize = match start {
            TermBound::Included(first) => self.term_positions.partition_point(
                &Pivot::Before(first),
            ),
            TermBound::Excluded(before) => self.term_positions.partition_point(
                &Pivot::Behind(before),
            ),
            TermBound::Unbounded => 0,
        };
        let bound_end: usize = match end {
            TermBound::Included(last) => self.term_positions.partition_point(&Pivot::Behind(last)),
            TermBound::Excluded(behind) => self.term_positions.partition_point(
                &Pivot::Before(behind),
            ),
            TermBound::Unbounded => self.term_positions.len(),
        };
        let range_start: usize = if field_start < bound_start {
            bound_start
        } else {
            field_start
        };
        let range_end: usize = if field_end < bound_end {
            field_end
        } else {
            bound_end
        };
        let mut r: Vec<VisitedTerm<'_>> = Vec::new();
        proof {
            let listed = (self@.answers().visited)(field, start@, end@);
            assert(single_document::visits_all(listed, self@.answers(), field, start@, end@)) by {
                visited_terms_are_all(self@, field, start@, end@);
            }
            assert forall|i: int| 0 <= i < terms.len() implies (pred(#[trigger] terms[i])
                <==> range_start <= i < range_end) by {
                let term = terms[i].0;
                if term.field.0 == field.0 {
                    assert(term.field == field);
                }
            }
            if range_start >= range_end {
                assert(forall|i: int|
                    0 <= i < terms.len() ==> (pred(#[trigger] terms[i]) <==> 0 <= i < 0));
                filter_of_range(terms, pred, 0, 0);
                assert(single_document::visited_views(r@) =~= with_info(terms.filter(pred)));
            } else {
                filter_of_range(terms, pred, range_start as int, range_end as int);
            }
        }
        if range_start >= range_end {
            return r;
        }
        let mut i: usize = range_start;
        while i < range_end
            invariant
                range_start <= i <= range_end <= terms.len(),
                terms == self@.terms,
                single_document::visited_views(r@) == with_info(
                    terms.subrange(range_start as int, i as int),
                ),
            decreases range_end - i,
        {
            let visited = VisitedTerm {
                term: self.term_positions.term_at(i),
                info: self.info_at(i),
            };
            let ghost before = r@;
            r.push(visited);
            assert(single_document::visited_views(r@) =~= single_document::visited_views(
                before,
            ).push((terms[i as int].0, info_of(terms[i as int].1))));
            assert(with_info(terms.subrange(range_start as int, i + 1)) =~= with_info(
                terms.subrange(range_start as int, i as int),
            ).push((terms[i as int].0, info_of(terms[i as int].1))));
            i += 1;
        }
        proof {
            let visited = single_document::visited_views(r@);
            assert forall|i: int, j: int| 0 <= i < j < visited.len() implies term::term_lt(
                (#[trigger] visited[i]).0,
                (#[trigger] visited[j]).0,
            ) by {
                assert(visited[i].0 == terms[range_start + i].0);
                assert(visited[j].0 == terms[range_start + j].0);
            }
            assert forall|i: int| 0 <= i < visited.len() implies ({
                let term = (#[trigger] visited[i]).0;
                term.field == field && single_document::after_start(start@, term)
                    && single_document::before_end(end@, term)
            }) by {
                assert(visited[i].0 == terms[range_start + i].0);
                assert(pred(terms[range_start + i]));
            }
        }
        r
    }

    fn fieldnorm_id(&self, field: Field) -> (r: Option<u8>) {
        broadcast use vstd::std_specs::hash::group_hash_axioms;

        match self.fieldnorm_ids.get(&field.0) {
            Some(fieldnorm_id) => Some(*fieldnorm_id),
            None => None,
        }
    }

    fn validate_required_fields(&self, required_fields: Option<&[Field]>) -> (r: Result<
        (),
        TantivyError,
    >) {
        let required: &[Field] = match required_fields {
            Some(required) => required,
            None => {
                return Err(error::requirements_unknown_error());
            },
        };
        let mut i: usize = 0;
        while i < required.len()
            invariant
                i <= required.len(),
                first_unprepared(required@.take(i as int), self@.prepared_fields) is None,
                required_fields == Some(required),
            decreases required.len() - i,
        {
            assert(required@.take(i + 1).drop_last() =~= required@.take(i as int));
            if !fields::contains(self.prepared_fields.as_slice(), required[i]) {
                proof {
                    unprepared_of_prefix(required@, self@.prepared_fields, i + 1);
                }
                return Err(error::field_not_prepared_error(required[i]));
            }
            i += 1;
        }
        assert(required@.take(i as int) =~= required@);
        Ok(())
    }
}

/// A field that is missing among the first ones is the first one of all.
proof fn unprepared_of_prefix(required: Seq<Field>, prepared: Seq<Field>, n: int)
    requires
        0 <= n <= required.len(),
        first_unprepared(required.take(n), prepared) is Some,
    ensures
        first_unprepared(required, prepared) == first_unprepared(required.take(n), prepared),
    decreases required.len() - n,
{
    if n == required.len() {
        assert(required.take(n) =~= required);
    } else {
        assert(required.take(n + 1).drop_last() =~= required.take(n));
        unprepared_of_prefix(required, prepared, n + 1);
    }
}

/// The contents of a [`SingleDocumentPreparer`].
#[verifier::ext_equal]
pub struct PreparerView {
    /// The schema of the documents.
    pub schema: Seq<FieldEntryView>,
    /// The fields that are prepared, in ascending order.
    pub required_fields: Seq<Field>,
}

impl PreparerView {
    /// The required fields exist, and come in ascending order.
    pub open spec fn well_formed(self) -> bool {
        &&& fields::ascending(self.required_fields)
        &&& forall|i: int|
            0 <= i < self.required_fields.len() ==> (#[trigger] self.required_fields[i]).0
                < self.schema.len()
    }
}

/// The error for the first field that does not exist.
pub open spec fn unknown_error(fields: Seq<Field>, num_fields: nat) -> Option<ErrorView>
    decreases fields.len(),
{
    if fields.len() == 0 {
        None
    } else {
        match unknown_error(fields.drop_last(), num_fields) {
            Some(error) => Some(error),
            None => if fields.last().0 >= num_fields {
                Some(error::unknown_field(fields.last()))
            } else {
                None
            },
        }
    }
}

/// The error for the first indexed field whose tokenizer is not registered.
pub open spec fn tokenizer_error(
    schema: Seq<FieldEntryView>,
    tokenizers: Seq<Seq<char>>,
    fields: Seq<Field>,
) -> Option<ErrorView>
    decreases fields.len(),
{
    if fields.len() == 0 {
        None
    } else {
        match tokenizer_error(schema, tokenizers, fields.drop_last()) {
            Some(error) => Some(error),
            None => {
                let entry = schema[fields.last().0 as int];
                match entry.field_type.tokenizer {
                    Some(tokenizer) if entry.field_type.record_option is Some
                        && !tokenizers.contains(tokenizer) => Some(
                        error::tokenizer_missing(entry.name),
                    ),
                    _ => None,
                }
            },
        }
    }
}

/// The error for the required fields of a preparer.
pub open spec fn preparer_error(
    schema: Seq<FieldEntryView>,
    tokenizers: Seq<Seq<char>>,
    required: Seq<Field>,
) -> Option<ErrorView> {
    match unknown_error(required, schema.len()) {
        Some(error) => Some(error),
        None => tokenizer_error(schema, tokenizers, required),
    }
}

/// A document has a value for a field, be it an empty one.
pub open spec fn supplies(document: Seq<(Field, ValueView)>, field: Field) -> bool {
    exists|i: int| 0 <= i < document.len() && (#[trigger] document[i]).0 == field
}

/// The error for the first required field that a document does not supply.
pub open spec fn missing_error(
    preparer: PreparerView,
    required: Seq<Field>,
    document: Seq<(Field, ValueView)>,
) -> Option<ErrorView>
    decreases required.len(),
{
    if required.len() == 0 {
        None
    } else {
        match missing_error(preparer, required.drop_last(), document) {
            Some(error) => Some(error),
            None => if supplies(document, required.last()) {
                None
            } else {
                Some(error::field_not_supplied(preparer.schema[required.last().0 as int].name))
            },
        }
    }
}

/// What indexing a document for a preparer gives: an error for a required field that it does not
/// supply, or for a value that does not fit its field.
pub open spec fn prepared_indexing(
    preparer: PreparerView,
    document: Seq<(Field, ValueView)>,
) -> Result<DocumentIndexing, ErrorView> {
    match missing_error(preparer, preparer.required_fields, document) {
        Some(error) => Err(error),
        None => indexing::document_indexed(preparer.schema, preparer.required_fields, document),
    }
}

/// A prepared document holds what indexing gave: the terms that occur, with JSON paths written
/// out, their positions, and the fieldnorms.
pub open spec fn holds_indexing(
    document: PreparedDocumentView,
    indexed: DocumentIndexing,
) -> bool {
    &&& document.fieldnorms == indexed.fieldnorms
    &&& exists|raw: Seq<(TermView, Seq<u32>)>| #[trigger]
        postings::lists_occurrences(raw, indexed.occurrences) && postings::normalizes(
            raw,
            json_paths::counting_ids(indexed.paths.len()),
            indexed.paths,
            document.terms,
        )
}

/// The contents of a prepared document, or of the error of preparing it.
pub open spec fn prepared_view(result: Result<PreparedSingleDocument, TantivyError>) -> Result<
    PreparedDocumentView,
    ErrorView,
> {
    match result {
        Ok(prepared) => Ok(prepared@),
        Err(error) => Err(error@),
    }
}

/// What preparing a document does: the preparer stays as it is, and the document is prepared
/// exactly where it can be indexed.
pub open spec fn prepares(
    before: PreparerView,
    document: Seq<(Field, ValueView)>,
    after: PreparerView,
    outcome: Result<PreparedDocumentView, ErrorView>,
) -> bool {
    &&& after == before
    &&& match prepared_indexing(before, document) {
        Ok(indexed) => outcome matches Ok(prepared) && holds_indexing(prepared, indexed)
            && prepared.prepared_fields == before.required_fields,
        Err(error) => outcome == Err::<PreparedDocumentView, ErrorView>(error),
    }
}

/// The preparer for the required fields, or the error that there is none.
pub open spec fn preparer_for(
    schema: Seq<FieldEntryView>,
    tokenizers: Seq<Seq<char>>,
    required: Seq<Field>,
) -> Result<PreparerView, ErrorView> {
    match preparer_error(schema, tokenizers, fields::sorted_set(required)) {
        Some(error) => Err(error),
        None => Ok(PreparerView { schema, required_fields: fields::sorted_set(required) }),
    }
}

/// Prepares regular documents for single-document evaluation.
///
/// A preparer binds a schema and checks its tokenizers once, and can be used for any number of
/// documents. Each prepared document is independent of the preparer.
///
/// Use the same schema and tokenizer configuration that would be used to index the documents.
pub struct SingleDocumentPreparer {
    schema: Schema,
    required_fields: Vec<Field>,
}

impl View for SingleDocumentPreparer {
    type V = PreparerView;

    closed spec fn view(&self) -> PreparerView {
        PreparerView { schema: self.schema@, required_fields: self.required_fields@ }
    }
}

impl SingleDocumentPreparer {
    #[verifier::type_invariant]
    spec fn inv(self) -> bool {
        self@.well_formed()
    }

    /// Creates a reusable preparer that only prepares `required_fields`.
    ///
    /// `required_fields` must cover every field that an evaluator may read. Incompatible reuse is
    /// rejected when a document is evaluated.
    ///
    /// Every required field must occur at least once in each input document. Supply an empty value
    /// when a required field has none: it counts as explicitly supplied but emits no term, token,
    /// position or fieldnorm.
    pub fn for_fields(
        schema: &Schema,
        tokenizer_manager: &TokenizerManager,
        required_fields: &[Field],
    ) -> (r: Result<SingleDocumentPreparer, TantivyError>)
        ensures
            match r {
                Ok(preparer) => preparer_for(schema@, tokenizer_manager@, required_fields@) == Ok::<
                    PreparerView,
                    ErrorView,
                >(preparer@) && preparer@.well_formed(),
                Err(error) => preparer_for(schema@, tokenizer_manager@, required_fields@) == Err::<
                    PreparerView,
                    ErrorView,
                >(error@),
            },
    {
        let required = fields::to_sorted_set(required_fields);
        proof {
            fields::sorted_set_is_a_set(required_fields@);
        }
        let mut i: usize = 0;
        while i < required.len()
            invariant
                i <= required.len(),
                required@ == fields::sorted_set(required_fields@),
                unknown_error(required@.take(i as int), schema@.len()) is None,
                forall|j: int| 0 <= j < i ==> (#[trigger] required@[j]).0 < schema@.len(),
            decreases required.len() - i,
        {
            assert(required@.take(i + 1).drop_last() =~= required@.take(i as int));
            if required[i].field_id() as usize >= schema.num_fields() {
                proof {
                    unknown_error_of_prefix(required@, schema@.len(), i + 1);
                }
                return Err(error::unknown_field_error(required[i]));
            }
            i += 1;
        }
        assert(required@.take(i as int) =~= required@);
        SingleDocumentPreparer::with_required_fields(schema, tokenizer_manager, required)
    }

    /// Creates a preparer for fields that exist and come in ascending order.
    fn with_required_fields(
        schema: &Schema,
        tokenizer_manager: &TokenizerManager,
        required_fields: Vec<Field>,
    ) -> (r: Result<SingleDocumentPreparer, TantivyError>)
        requires
            (PreparerView { schema: schema@, required_fields: required_fields@ }).well_formed(),
        ensures
            match r {
                Ok(preparer) => tokenizer_error(
                    schema@,
                    tokenizer_manager@,
                    required_fields@,
                ) is None && preparer@ == (PreparerView {
                    schema: schema@,
                    required_fields: required_fields@,
                }),
                Err(error) => tokenizer_error(schema@, tokenizer_manager@, required_fields@)
                    == Some(error@),
            },
    {
        let mut i: usize = 0;
        while i < required_fields.len()
            invariant
                i <= required_fields.len(),
                (PreparerView {
                    schema: schema@,
                    required_fields: required_fields@,
                }).well_formed(),
                tokenizer_error(
                    schema@,
                    tokenizer_manager@,
                    required_fields@.take(i as int),
                ) is None,
            decreases required_fields.len() - i,
        {
            assert(required_fields@.take(i + 1).drop_last() =~= required_fields@.take(i as int));
            let entry = schema.get_field_entry(required_fields[i]);
            let field_type = entry.field_type();
            if let Some(tokenizer) = &field_type.tokenizer {
                if field_type.index_record_option().is_some() && !tokenizer_manager.has(
                    tokenizer.as_str(),
                ) {
                    proof {
                        tokenizer_error_of_prefix(
                            schema@,
                            tokenizer_manager@,
                            required_fields@,
                            i + 1,
                        );
                    }
                    return Err(error::tokenizer_missing_error(entry.name()));
                }
            }
            i += 1;
        }
        assert(required_fields@.take(i as int) =~= required_fields@);
        Ok(SingleDocumentPreparer { schema: schema.clone(), required_fields })
    }

    /// Returns the fields that are prepared, in ascending order.
    pub fn required_fields(&self) -> (r: &[Field])
        ensures
            r@ == self@.required_fields,
    {
        self.required_fields.as_slice()
    }

    /// Prepares one document using indexing-time term and position semantics.
    ///
    /// The preparer is left as it was, so that documents are prepared independently of each other.
    pub fn prepare(&mut self, document: &Document) -> (r: Result<
        PreparedSingleDocument,
        TantivyError,
    >)
        ensures
            prepares(old(self)@, document@, final(self)@, prepared_view(r)),
    {
        self.prepare_inner(document)
    }

    fn prepare_inner(&self, document: &Document) -> (r: Result<
        PreparedSingleDocument,
        TantivyError,
    >)
        ensures
            prepares(self@, document@, self@, prepared_view(r)),
    {
        proof {
            use_type_invariant(self);
        }
        let required: &[Field] = self.required_fields.as_slice();
        let mut i: usize = 0;
        while i < required.len()
            invariant
                i <= required.len(),
                required@ == self@.required_fields,
                self@.well_formed(),
                missing_error(self@, required@.take(i as int), document@) is None,
            decreases required.len() - i,
        {
            assert(required@.take(i + 1).drop_last() =~= required@.take(i as int));
            if !is_supplied(document, required[i]) {
                proof {
                    missing_error_of_prefix(self@, required@, document@, i + 1);
                }
                return Err(
                    error::field_not_supplied_error(
                        self.schema.get_field_entry(required[i]).name(),
                    ),
                );
            }
            i += 1;
        }
        assert(required@.take(i as int) =~= required@);
        let (mut output, paths) = match indexing::index_document(document, &self.schema, required) {
            Ok(indexed) => indexed,
            Err(error) => {
                return Err(error);
            },
        };
        let ghost indexed = DocumentIndexing {
            occurrences: output.occurrences(),
            paths: paths@,
            fieldnorms: output.fieldnorms(),
        };
        let ghost raw = output.entries();
        proof {
            output.lists_what_was_reported();
            indexing::json_terms_are_known(self@.schema, self@.required_fields, document@);
        }
        let ordered_ids = paths.unordered_id_to_ordered_id();
        match output.normalize_json_terms(ordered_ids.as_slice(), paths.ordered_id_to_path()) {
            Ok(_) => {},
            Err(error) => {
                proof {
                    let ids = ordered_ids@;
                    let i = choose|i: int|
                        0 <= i < raw.len() && postings::normalized_term(
                            (#[trigger] raw[i]).0,
                            ids,
                            paths@,
                        ) == Err::<TermView, ErrorView>(error@);
                    postings::listed_term_occurs(raw, indexed.occurrences, i);
                }
                return Err(error);
            },
        }
        let prepared = output.take_prepared_document(fields::copy_of(required));
        assert(postings::lists_occurrences(raw, indexed.occurrences));
        Ok(prepared)
    }
}

/// Returns whether a document has a value for a field.
fn is_supplied(document: &Document, field: Field) -> (r: bool)
    ensures
        r == supplies(document@, field),
{
    let mut i: usize = 0;
    while i < document.len()
        invariant
            i <= document@.len(),
            forall|j: int| 0 <= j < i ==> (#[trigger] document@[j]).0 != field,
        decreases document@.len() - i,
    {
        if document.field_at(i) == field {
            assert(document@[i as int].0 == field);
            return true;
        }
        i += 1;
    }
    false
}

/// An error among the first fields is the error of all of them.
proof fn unknown_error_of_prefix(fields: Seq<Field>, num_fields: nat, n: int)
    requires
        0 <= n <= fields.len(),
        unknown_error(fields.take(n), num_fields) is Some,
    ensures
        unknown_error(fields, num_fields) == unknown_error(fields.take(n), num_fields),
    decreases fields.len() - n,
{
    if n == fields.len() {
        assert(fields.take(n) =~= fields);
    } else {
        assert(fields.take(n + 1).drop_last() =~= fields.take(n));
        unknown_error_of_prefix(fields, num_fields, n + 1);
    }
}

/// An error among the first fields is the error of all of them.
proof fn tokenizer_error_of_prefix(
    schema: Seq<FieldEntryView>,
    tokenizers: Seq<Seq<char>>,
    fields: Seq<Field>,
    n: int,
)
    requires
        0 <= n <= fields.len(),
        tokenizer_error(schema, tokenizers, fields.take(n)) is Some,
    ensures
        tokenizer_error(schema, tokenizers, fields) == tokenizer_error(
            schema,
            tokenizers,
            fields.take(n),
        ),
    decreases fields.len() - n,
{
    if n == fields.len() {
        assert(fields.take(n) =~= fields);
    } else {
        assert(fields.take(n + 1).drop_last() =~= fields.take(n));
        tokenizer_error_of_prefix(schema, tokenizers, fields, n + 1);
    }
}

/// An error among the first fields is the error of all of them.
proof fn missing_error_of_prefix(
    preparer: PreparerView,
    required: Seq<Field>,
    document: Seq<(Field, ValueView)>,
    n: int,
)
    requires
        0 <= n <= required.len(),
        missing_error(preparer, required.take(n), document) is Some,
    ensures
        missing_error(preparer, required, document) == missing_error(
            preparer,
            required.take(n),
            document,
        ),
    decreases required.len() - n,
{
    if n == required.len() {
        assert(required.take(n) =~= required);
    } else {
        assert(required.take(n + 1).drop_last() =~= required.take(n));
        missing_error_of_prefix(preparer, required, document, n + 1);
    }
}

} // verus!
