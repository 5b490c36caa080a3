//! Turning the values of a document into terms with positions.

use vstd::prelude::*;
use crate::document;
use crate::document::{Document, JsonLeaf, JsonLeafView, LeafValue, LeafValueView, Token, TokenView};
use crate::document::{Value, ValueView};
use crate::error;
use crate::error::{ErrorView, TantivyError};
use crate::fieldnorm;
use crate::json_paths;
use crate::json_paths::PathToUnorderedId;
use crate::postings::PreparedDocumentIndexingOutput;
use crate::schema::{Field, FieldEntry, FieldEntryView, Schema, Type};
use crate::term::{Term, TermView};

verus! {

/// The number of positions between two texts of one field.
pub const POSITION_GAP: u32 = 1;

/// The end of a text behind its tokens, where its first position is `base`.
pub open spec fn end_of_text(tokens: Seq<TokenView>, base: u32) -> u32
    decreases tokens.len(),
{
    if tokens.len() == 0 {
        base
    } else {
        let before = end_of_text(tokens.drop_last(), base);
        let token = tokens.last();
        let end = base.wrapping_add(token.position).wrapping_add(token.position_length);
        if before <= end {
            end
        } else {
            before
        }
    }
}

/// The first position of the text behind one that begins at `base`.
pub open spec fn next_text(tokens: Seq<TokenView>, base: u32) -> u32 {
    end_of_text(tokens, base).wrapping_add(POSITION_GAP)
}

/// The occurrence of the term of a token. `head` comes before the text in the value of the term.
pub open spec fn token_occurrence(
    field: Field,
    typ: Type,
    head: Seq<u8>,
    base: u32,
    token: TokenView,
) -> (TermView, u32) {
    (
        TermView { field, typ, value: head + vstd::utf8::encode_utf8(token.text) },
        base.wrapping_add(token.position),
    )
}

/// The occurrences of the terms of the tokens of a text.
pub open spec fn text_occurrences(
    field: Field,
    typ: Type,
    head: Seq<u8>,
    base: u32,
    tokens: Seq<TokenView>,
) -> Seq<(TermView, u32)> {
    tokens.map_values(|token: TokenView| token_occurrence(field, typ, head, base, token))
}

/// What is known while the values of a field are indexed.
#[verifier::ext_equal]
pub struct FieldIndexing {
    /// The occurrences so far, of all fields.
    pub occurrences: Seq<(TermView, u32)>,
    /// The JSON paths so far, of all fields.
    pub paths: Seq<Seq<char>>,
    /// The first position of the next text of the field.
    pub next: u32,
    /// The first position of the next text at a JSON path of the field.
    pub next_at_path: Map<Seq<char>, u32>,
    /// The number of tokens or values of the field.
    pub count: nat,
}

impl FieldIndexing {
    /// The first position of the next text at a path.
    pub open spec fn next_at(self, path: Seq<char>) -> u32 {
        if self.next_at_path.contains_key(path) {
            self.next_at_path[path]
        } else {
            0
        }
    }
}

/// The beginning of the value of an intermediate JSON term: the number of the path, and the type.
pub open spec fn json_head(paths: Seq<Seq<char>>, path: Seq<char>, typ: Type) -> Seq<u8> {
    json_paths::id_bytes(json_paths::first_index(paths, path) as u32).push(typ.spec_code())
}

/// Indexes a value inside a JSON object. Texts at one path follow each other, as those of one field
/// do.
pub open spec fn leaf_indexed(
    field: Field,
    state: FieldIndexing,
    leaf: JsonLeafView,
) -> FieldIndexing {
    let paths = json_paths::with_path(state.paths, leaf.path);
    match leaf.value {
        LeafValueView::Text(tokens) => {
            let base = state.next_at(leaf.path);
            FieldIndexing {
                occurrences: state.occurrences + text_occurrences(
                    field,
                    Type::Json,
                    json_head(state.paths, leaf.path, Type::Str),
                    base,
                    tokens,
                ),
                paths,
                next_at_path: state.next_at_path.insert(leaf.path, next_text(tokens, base)),
                ..state
            }
        },
        LeafValueView::Exact(typ, bytes) => FieldIndexing {
            occurrences: state.occurrences.push(
                (
                    TermView {
                        field,
                        typ: Type::Json,
                        value: json_head(state.paths, leaf.path, typ) + bytes,
                    },
                    0,
                ),
            ),
            paths,
            ..state
        },
    }
}

/// Indexes the values inside a JSON object.
pub open spec fn leaves_indexed(
    field: Field,
    state: FieldIndexing,
    leaves: Seq<JsonLeafView>,
) -> FieldIndexing
    decreases leaves.len(),
{
    if leaves.len() == 0 {
        state
    } else {
        leaf_indexed(field, leaves_indexed(field, state, leaves.drop_last()), leaves.last())
    }
}

/// Indexes a value of a field. A value without contents leaves no trace. A text or a JSON field
/// passes over values of other types; any other field rejects them.
pub open spec fn value_indexed(
    field: Field,
    entry: FieldEntryView,
    state: FieldIndexing,
    value: ValueView,
) -> Result<FieldIndexing, ErrorView> {
    let value_type = entry.field_type.value_type;
    match value {
        ValueView::Null => Ok(state),
        ValueView::Text(tokens) => if value_type == Type::Str {
            Ok(
                FieldIndexing {
                    occurrences: state.occurrences + text_occurrences(
                        field,
                        Type::Str,
                        Seq::empty(),
                        state.next,
                        tokens,
                    ),
                    next: next_text(tokens, state.next),
                    count: state.count + tokens.len(),
                    ..state
                },
            )
        } else if value_type == Type::Json {
            Ok(state)
        } else {
            Err(error::value_type(value_type, entry.name))
        },
        ValueView::Exact(typ, bytes) => if value_type == Type::Str || value_type == Type::Json {
            Ok(state)
        } else if typ == value_type {
            Ok(
                FieldIndexing {
                    occurrences: state.occurrences.push((TermView { field, typ, value: bytes }, 0)),
                    count: state.count + 1,
                    ..state
                },
            )
        } else {
            Err(error::value_type(value_type, entry.name))
        },
        ValueView::Json(leaves) => if value_type == Type::Json {
            Ok(leaves_indexed(field, state, leaves))
        } else if value_type == Type::Str {
            Ok(state)
        } else {
            Err(error::value_type(value_type, entry.name))
        },
    }
}

/// Indexes the values that a document has for a field, in their order.
pub open spec fn field_values_indexed(
    field: Field,
    entry: FieldEntryView,
    state: FieldIndexing,
    document: Seq<(Field, ValueView)>,
) -> Result<FieldIndexing, ErrorView>
    decreases document.len(),
{
    if document.len() == 0 {
        Ok(state)
    } else {
        match field_values_indexed(field, entry, state, document.drop_last()) {
            Err(error) => Err(error),
            Ok(state) => if document.last().0 == field {
                value_indexed(field, entry, state, document.last().1)
            } else {
                Ok(state)
            },
        }
    }
}

/// What indexing a document gives.
#[verifier::ext_equal]
pub struct DocumentIndexing {
    /// The occurrences of the terms, those of JSON fields in their intermediate form.
    pub occurrences: Seq<(TermView, u32)>,
    /// The JSON paths, in the order in which they first occur.
    pub paths: Seq<Seq<char>>,
    /// The fieldnorm ids, by field id.
    pub fieldnorms: Map<u32, u8>,
}

/// What is known before the first value of a field is indexed.
pub open spec fn start_of_field(state: DocumentIndexing) -> FieldIndexing {
    FieldIndexing {
        occurrences: state.occurrences,
        paths: state.paths,
        next: 0,
        next_at_path: Map::empty(),
        count: 0,
    }
}

/// A document has a value with contents for a field.
pub open spec fn has_contents(document: Seq<(Field, ValueView)>, field: Field) -> bool {
    exists|i: int|
        0 <= i < document.len() && (#[trigger] document[i]).0 == field && document[i].1 !is Null
}

/// Indexes the values that a document has for a field. A field that is not indexed, or that has no
/// value with contents, is passed over. The number of tokens or values is recorded for fields with
/// fieldnorms, but not for JSON fields.
pub open spec fn field_indexed(
    schema: Seq<FieldEntryView>,
    state: DocumentIndexing,
    field: Field,
    document: Seq<(Field, ValueView)>,
) -> Result<DocumentIndexing, ErrorView> {
    let entry = schema[field.0 as int];
    if entry.field_type.record_option is None || !has_contents(document, field) {
        Ok(state)
    } else {
        match field_values_indexed(field, entry, start_of_field(state), document) {
            Err(error) => Err(error),
            Ok(end) => Ok(
                DocumentIndexing {
                    occurrences: end.occurrences,
                    paths: end.paths,
                    fieldnorms: if entry.field_type.fieldnorms && entry.field_type.value_type
                        != Type::Json {
                        state.fieldnorms.insert(
                            field.0,
                            fieldnorm::encoded((end.count % 0x1_0000_0000) as u32),
                        )
                    } else {
                        state.fieldnorms
                    },
                },
            ),
        }
    }
}

/// What is known before the first field is indexed.
pub open spec fn no_indexing() -> DocumentIndexing {
    DocumentIndexing {
        occurrences: Seq::empty(),
        paths: Seq::empty(),
        fieldnorms: Map::empty(),
    }
}

/// Indexes the given fields of a document, and no others.
pub open spec fn document_indexed(
    schema: Seq<FieldEntryView>,
    fields: Seq<Field>,
    document: Seq<(Field, ValueView)>,
) -> Result<DocumentIndexing, ErrorView>
    decreases fields.len(),
{
    if fields.len() == 0 {
        Ok(no_indexing())
    } else {
        match document_indexed(schema, fields.drop_last(), document) {
            Err(error) => Err(error),
            Ok(state) => field_indexed(schema, state, fields.last(), document),
        }
    }
}

/// Reports the tokens of a text, and returns the first position of the next text.
fn index_text(
    output: &mut PreparedDocumentIndexingOutput,
    field: Field,
    typ: Type,
    head: &[u8],
    tokens: &[Token],
    base: u32,
) -> (r: u32)
    requires
        old(output).well_formed(),
    ensures
        final(output).well_formed(),
        final(output).fieldnorms() == old(output).fieldnorms(),
        final(output).occurrences() == old(output).occurrences() + text_occurrences(
            field,
            typ,
            head@,
            base,
            document::token_views(tokens@),
        ),
        r == next_text(document::token_views(tokens@), base),
{
    let ghost views = document::token_views(tokens@);
    let ghost start = output.occurrences();
    let ghost all = text_occurrences(field, typ, head@, base, views);
    let mut end: u32 = base;
    let mut i: usize = 0;
    assert(views.take(0) =~= Seq::empty());
    assert(start + all.take(0) =~= start);
    while i < tokens.len()
        invariant
            i <= tokens.len(),
            views == document::token_views(tokens@),
            all == text_occurrences(field, typ, head@, base, views),
            output.well_formed(),
            output.fieldnorms() == old(output).fieldnorms(),
            output.occurrences() == start + all.take(i as int),
            end == end_of_text(views.take(i as int), base),
        decreases tokens.len() - i,
    {
        let token = &tokens[i];
        assert(views.take(i + 1).drop_last() =~= views.take(i as int));
        assert(views.take(i + 1).last() == token@);
        let mut term = Term::from_bytes(field, typ, head);
        term.append_bytes(token.text.as_str().as_bytes());
        let position: u32 = base.wrapping_add(token.position);
        let token_end: u32 = position.wrapping_add(token.position_length);
        if end <= token_end {
            end = token_end;
        }
        assert(all[i as int] == (term@, position));
        output.subscribe(position, &term);
        assert(start + all.take(i + 1) =~= (start + all.take(i as int)).push(all[i as int]));
        i += 1;
    }
    assert(views.take(i as int) =~= views);
    assert(all.take(i as int) =~= all);
    end.wrapping_add(POSITION_GAP)
}

/// The first positions of the next texts, by the index of the path.
spec fn next_matches(nexts: Seq<u32>, state: FieldIndexing) -> bool {
    &&& nexts.len() == state.paths.len()
    &&& state.paths.no_duplicates()
    &&& forall|i: int|
        0 <= i < nexts.len() ==> #[trigger] nexts[i] == state.next_at(state.paths[i])
    &&& forall|path: Seq<char>| #[trigger]
        state.next_at_path.contains_key(path) ==> state.paths.contains(path)
}

/// Reports a value inside a JSON object.
fn index_leaf(
    output: &mut PreparedDocumentIndexingOutput,
    paths: &mut PathToUnorderedId,
    nexts: &mut Vec<u32>,
    field: Field,
    leaf: &JsonLeaf,
    Ghost(state): Ghost<FieldIndexing>,
)
    requires
        old(output).well_formed(),
        old(output).occurrences() == state.occurrences,
        old(paths)@ == state.paths,
        next_matches(old(nexts)@, state),
    ensures
        final(output).well_formed(),
        final(output).fieldnorms() == old(output).fieldnorms(),
        final(output).occurrences() == leaf_indexed(field, state, leaf@).occurrences,
        final(paths)@ == leaf_indexed(field, state, leaf@).paths,
        next_matches(final(nexts)@, leaf_indexed(field, state, leaf@)),
{
    let ghost after = leaf_indexed(field, state, leaf@);
    let path: &str = leaf.path.as_str();
    let id: usize = paths.get_or_allocate_unordered_id(path);
    proof {
        json_paths::first_index_is_first(state.paths, path@);
        if id == state.paths.len() {
            assert(!state.paths.contains(path@));
            assert(!state.next_at_path.contains_key(path@));
        }
    }
    if id == nexts.len() {
        nexts.push(0);
    }
    let ghost between = FieldIndexing { paths: paths@, ..state };
    proof {
        assert(between.paths.no_duplicates());
        assert(between.paths[id as int] == path@);
        assert forall|i: int| 0 <= i < nexts@.len() implies #[trigger] nexts@[i]
            == between.next_at(between.paths[i]) by {
            if i < state.paths.len() {
                assert(between.paths[i] == state.paths[i]);
                assert(old(nexts)@[i] == state.next_at(state.paths[i]));
            }
        }
        assert forall|other: Seq<char>| #[trigger]
            state.next_at_path.contains_key(other) implies between.paths.contains(other) by {
            let k = state.paths.index_of(other);
            assert(state.paths[k] == other);
            assert(between.paths[k] == other);
        }
    }
    let typ: Type = match &leaf.value {
        LeafValue::Text(_) => Type::Str,
        LeafValue::Exact(typ, _) => *typ,
    };
    let mut head: Vec<u8> = Vec::new();
    json_paths::append_id(&mut head, id as u32);
    head.push(typ.to_code());
    assert(head@ =~= json_head(state.paths, path@, typ));
    match &leaf.value {
        LeafValue::Text(tokens) => {
            let base: u32 = nexts[id];
            assert(base == state.next_at(path@));
            let next: u32 = index_text(
                output,
                field,
                Type::Json,
                head.as_slice(),
                tokens.as_slice(),
                base,
            );
            nexts.set(id, next);
            proof {
                assert forall|i: int| 0 <= i < nexts@.len() implies #[trigger] nexts@[i]
                    == after.next_at(after.paths[i]) by {
                    if i != id {
                        assert(between.paths[i] != between.paths[id as int]);
                    }
                }
                assert(after.paths.contains(path@));
            }
        },
        LeafValue::Exact(_, bytes) => {
            let mut term = Term::from_bytes(field, Type::Json, head.as_slice());
            term.append_bytes(bytes.as_slice());
            output.subscribe(0, &term);
        },
    }
}

/// Reports the values inside a JSON object.
fn index_json_value(
    output: &mut PreparedDocumentIndexingOutput,
    paths: &mut PathToUnorderedId,
    nexts: &mut Vec<u32>,
    field: Field,
    leaves: &[JsonLeaf],
    Ghost(state): Ghost<FieldIndexing>,
)
    requires
        old(output).well_formed(),
        old(output).occurrences() == state.occurrences,
        old(paths)@ == state.paths,
        next_matches(old(nexts)@, state),
    ensures
        final(output).well_formed(),
        final(output).fieldnorms() == old(output).fieldnorms(),
        final(output).occurrences() == leaves_indexed(
            field,
            state,
            document::leaf_views(leaves@),
        ).occurrences,
        final(paths)@ == leaves_indexed(field, state, document::leaf_views(leaves@)).paths,
        next_matches(
            final(nexts)@,
            leaves_indexed(field, state, document::leaf_views(leaves@)),
        ),
{
    let ghost views = document::leaf_views(leaves@);
    let mut i: usize = 0;
    assert(views.take(0) =~= Seq::empty());
    while i < leaves.len()
        invariant
            i <= leaves.len(),
            views == document::leaf_views(leaves@),
            output.well_formed(),
            output.fieldnorms() == old(output).fieldnorms(),
            output.occurrences() == leaves_indexed(
                field,
                state,
                views.take(i as int),
            ).occurrences,
            paths@ == leaves_indexed(field, state, views.take(i as int)).paths,
            next_matches(nexts@, leaves_indexed(field, state, views.take(i as int))),
        decreases leaves.len() - i,
    {
        assert(views.take(i + 1).drop_last() =~= views.take(i as int));
        assert(views.take(i + 1).last() == leaves@[i as int]@);
        index_leaf(
            output,
            paths,
            nexts,
            field,
            &leaves[i],
            Ghost(leaves_indexed(field, state, views.take(i as int))),
        );
        i += 1;
    }
    assert(views.take(i as int) =~= views);
}

/// The next text of the field and the counted tokens are left as they are.
proof fn leaves_keep_field(field: Field, state: FieldIndexing, leaves: Seq<JsonLeafView>)
    ensures
        leaves_indexed(field, state, leaves).next == state.next,
        leaves_indexed(field, state, leaves).count == state.count,
    decreases leaves.len(),
{
    if leaves.len() > 0 {
        leaves_keep_field(field, state, leaves.drop_last());
    }
}

/// What stops the indexing of the first values stops it for all of them.
proof fn value_error_of_prefix(
    field: Field,
    entry: FieldEntryView,
    state: FieldIndexing,
    document: Seq<(Field, ValueView)>,
    n: int,
)
    requires
        0 <= n <= document.len(),
        field_values_indexed(field, entry, state, document.take(n)) is Err,
    ensures
        field_values_indexed(field, entry, state, document) == field_values_indexed(
            field,
            entry,
            state,
            document.take(n),
        ),
    decreases document.len() - n,
{
    if n == document.len() {
        assert(document.take(n) =~= document);
    } else {
        assert(document.take(n + 1).drop_last() =~= document.take(n));
        value_error_of_prefix(field, entry, state, document, n + 1);
    }
}

/// Counting on from a number modulo two to the power of thirty-two.
proof fn count_wraps(count: nat, added: nat)
    ensures
        (count % 0x1_0000_0000 + added) % 0x1_0000_0000 == (count + added) % 0x1_0000_0000,
{
    vstd::arithmetic::div_mod::lemma_add_mod_noop(count as int, added as int, 0x1_0000_0000);
    vstd::arithmetic::div_mod::lemma_add_mod_noop(
        (count % 0x1_0000_0000) as int,
        added as int,
        0x1_0000_0000,
    );
    vstd::arithmetic::div_mod::lemma_mod_twice(count as int, 0x1_0000_0000);
}

/// Reports the values that a document has for a field.
fn index_field(
    output: &mut PreparedDocumentIndexingOutput,
    paths: &mut PathToUnorderedId,
    field: Field,
    entry: &FieldEntry,
    document: &Document,
) -> (r: Result<u32, TantivyError>)
    requires
        old(output).well_formed(),
        old(paths)@.no_duplicates(),
    ensures
        ({
            let start = FieldIndexing {
                occurrences: old(output).occurrences(),
                paths: old(paths)@,
                next: 0,
                next_at_path: Map::empty(),
                count: 0,
            };
            match r {
                Ok(count) => field_values_indexed(field, entry@, start, document@) matches Ok(end)
                    && final(output).well_formed() && final(output).occurrences() == end.occurrences
                    && final(output).fieldnorms() == old(output).fieldnorms() && final(paths)@
                    == end.paths && final(paths)@.no_duplicates() && count == end.count
                    % 0x1_0000_0000,
                Err(error) => field_values_indexed(field, entry@, start, document@) == Err::<
                    FieldIndexing,
                    ErrorView,
                >(error@),
            }
        }),
{
    let ghost start = FieldIndexing {
        occurrences: output.occurrences(),
        paths: paths@,
        next: 0,
        next_at_path: Map::empty(),
        count: 0,
    };
    let value_type = entry.field_type().value_type();
    let mut next: u32 = 0;
    let mut count: u32 = 0;
    let mut nexts: Vec<u32> = Vec::new();
    let num_paths: usize = paths.len();
    while nexts.len() < num_paths
        invariant
            nexts@.len() <= num_paths,
            forall|i: int| 0 <= i < nexts@.len() ==> #[trigger] nexts@[i] == 0,
        decreases num_paths - nexts.len(),
    {
        nexts.push(0);
    }
    let mut i: usize = 0;
    assert(document@.take(0) =~= Seq::empty());
    while i < document.len()
        invariant
            i <= document@.len(),
            value_type == entry@.field_type.value_type,
            start == (FieldIndexing {
                occurrences: old(output).occurrences(),
                paths: old(paths)@,
                next: 0,
                next_at_path: Map::empty(),
                count: 0,
            }),
            output.well_formed(),
            output.fieldnorms() == old(output).fieldnorms(),
            field_values_indexed(field, entry@, start, document@.take(i as int)) matches Ok(state)
                && output.occurrences() == state.occurrences && paths@ == state.paths
                && next_matches(nexts@, state) && next == state.next && count == state.count
                % 0x1_0000_0000,
        decreases document@.len() - i,
    {
        let ghost state = field_values_indexed(
            field,
            entry@,
            start,
            document@.take(i as int),
        )->Ok_0;
        proof {
            assert(document@.take(i + 1).drop_last() =~= document@.take(i as int));
            if field_values_indexed(field, entry@, start, document@.take(i + 1)) is Err {
                value_error_of_prefix(field, entry@, start, document@, i + 1);
            }
        }
        if document.field_at(i) == field {
            match document.value_at(i) {
                Value::Null => {},
                Value::Text(tokens) => {
                    if value_type == Type::Str {
                        let head: Vec<u8> = Vec::new();
                        assert(head@ =~= Seq::empty());
                        next = index_text(
                            output,
                            field,
                            Type::Str,
                            head.as_slice(),
                            tokens.as_slice(),
                            next,
                        );
                        proof {
                            count_wraps(state.count, tokens@.len());
                            count_wraps(tokens@.len(), count as nat);
                            assert((tokens@.len() % 0x1_0000_0000 + count) % 0x1_0000_0000
                                == (count + tokens@.len()) % 0x1_0000_0000);
                        }
                        count = count.wrapping_add((tokens.len() as u64 % 0x1_0000_0000) as u32);
                    } else if value_type != Type::Json {
                        return Err(error::value_type_error(value_type, entry.name()));
                    }
                },
                Value::Exact(typ, bytes) => {
                    if value_type != Type::Str && value_type != Type::Json {
                        if *typ != value_type {
                            return Err(error::value_type_error(value_type, entry.name()));
                        }
                        let term = Term::from_bytes(field, *typ, bytes.as_slice());
                        output.subscribe(0, &term);
                        proof {
                            count_wraps(state.count, 1);
                        }
                        count = count.wrapping_add(1);
                    }
                },
                Value::Json(leaves) => {
                    if value_type == Type::Json {
                        index_json_value(
                            output,
                            paths,
                            &mut nexts,
                            field,
                            leaves.as_slice(),
                            Ghost(state),
                        );
                        proof {
                            leaves_keep_field(field, state, document::leaf_views(leaves@));
                        }
                    } else if value_type != Type::Str {
                        return Err(error::value_type_error(value_type, entry.name()));
                    }
                },
            }
        }
        i += 1;
    }
    assert(document@.take(i as int) =~= document@);
    Ok(count)
}

/// Returns whether a document has a value with contents for a field.
fn is_present(document: &Document, field: Field) -> (r: bool)
    ensures
        r == has_contents(document@, field),
{
    let mut i: usize = 0;
    while i < document.len()
        invariant
            i <= document@.len(),
            forall|j: int|
                0 <= j < i ==> (#[trigger] document@[j]).0 != field || document@[j].1 is Null,
        decreases document@.len() - i,
    {
        if document.field_at(i) == field {
            match document.value_at(i) {
                Value::Null => {},
                _ => {
                    assert(document@[i as int].0 == field && document@[i as int].1 !is Null);
                    return true;
                },
            }
        }
        i += 1;
    }
    false
}

/// What stops the indexing of the first fields stops it for all of them.
proof fn field_error_of_prefix(
    schema: Seq<FieldEntryView>,
    fields: Seq<Field>,
    document: Seq<(Field, ValueView)>,
    n: int,
)
    requires
        0 <= n <= fields.len(),
        document_indexed(schema, fields.take(n), document) is Err,
    ensures
        document_indexed(schema, fields, document) == document_indexed(
            schema,
            fields.take(n),
            document,
        ),
    decreases fields.len() - n,
{
    if n == fields.len() {
        assert(fields.take(n) =~= fields);
    } else {
        assert(fields.take(n + 1).drop_last() =~= fields.take(n));
        field_error_of_prefix(schema, fields, document, n + 1);
    }
}

/// Indexes the given fields of a document, which have to exist.
pub fn index_document(document: &Document, schema: &Schema, fields: &[Field]) -> (r: Result<
    (PreparedDocumentIndexingOutput, PathToUnorderedId),
    TantivyError,
>)
    requires
        forall|i: int| 0 <= i < fields@.len() ==> (#[trigger] fields@[i]).0 < schema@.len(),
    ensures
        match r {
            Ok((output, paths)) => output.well_formed() && document_indexed(
                schema@,
                fields@,
                document@,
            ) == Ok::<DocumentIndexing, ErrorView>(
                DocumentIndexing {
                    occurrences: output.occurrences(),
                    paths: paths@,
                    fieldnorms: output.fieldnorms(),
                },
            ),
            Err(error) => document_indexed(schema@, fields@, document@) == Err::<
                DocumentIndexing,
                ErrorView,
            >(error@),
        },
{
    let mut output = PreparedDocumentIndexingOutput::new();
    let mut paths = PathToUnorderedId::new();
    let mut i: usize = 0;
    assert(fields@.take(0) =~= Seq::empty());
    while i < fields.len()
        invariant
            i <= fields.len(),
            forall|j: int| 0 <= j < fields@.len() ==> (#[trigger] fields@[j]).0 < schema@.len(),
            output.well_formed(),
            paths@.no_duplicates(),
            document_indexed(schema@, fields@.take(i as int), document@) == Ok::<
                DocumentIndexing,
                ErrorView,
            >(
                DocumentIndexing {
                    occurrences: output.occurrences(),
                    paths: paths@,
                    fieldnorms: output.fieldnorms(),
                },
            ),
        decreases fields.len() - i,
    {
        proof {
            assert(fields@.take(i + 1).drop_last() =~= fields@.take(i as int));
            if document_indexed(schema@, fields@.take(i + 1), document@) is Err {
                field_error_of_prefix(schema@, fields@, document@, i + 1);
            }
        }
        let field: Field = fields[i];
        let entry = schema.get_field_entry(field);
        if entry.field_type().index_record_option().is_some() && is_present(document, field) {
            match index_field(&mut output, &mut paths, field, entry, document) {
                Ok(count) => {
                    if entry.has_fieldnorms() && entry.field_type().value_type() != Type::Json {
                        output.record_fieldnorm(field, count);
                    }
                },
                Err(error) => {
                    return Err(error);
                },
            }
        }
        i += 1;
    }
    assert(fields@.take(i as int) =~= fields@);
    Ok((output, paths))
}

/// A JSON term in its intermediate form has the number of a path.
pub open spec fn path_is_known(raw: TermView, num_paths: nat) -> bool {
    raw.typ == Type::Json ==> raw.value.len() >= 5 && json_paths::id_of(raw.value) < num_paths
}

/// All the JSON terms that occur have the number of a path.
pub open spec fn paths_are_known(occurrences: Seq<(TermView, u32)>, num_paths: nat) -> bool {
    forall|i: int|
        0 <= i < occurrences.len() ==> path_is_known((#[trigger] occurrences[i]).0, num_paths)
}

/// The beginning of an intermediate term gives the number of its path.
proof fn head_gives_path(
    field: Field,
    paths: Seq<Seq<char>>,
    path: Seq<char>,
    typ: Type,
    rest: Seq<u8>,
)
    ensures
        path_is_known(
            (TermView { field, typ: Type::Json, value: json_head(paths, path, typ) + rest }),
            json_paths::with_path(paths, path).len(),
        ),
{
    json_paths::first_index_is_first(paths, path);
    let id = json_paths::first_index(paths, path) as u32;
    let value = json_head(paths, path, typ) + rest;
    json_paths::id_round_trip(id);
    assert(json_paths::id_of(value) == json_paths::id_of(json_paths::id_bytes(id)));
}

proof fn leaf_keeps_paths_known(field: Field, state: FieldIndexing, leaf: JsonLeafView)
    requires
        paths_are_known(state.occurrences, state.paths.len()),
    ensures
        paths_are_known(
            leaf_indexed(field, state, leaf).occurrences,
            leaf_indexed(field, state, leaf).paths.len(),
        ),
{
    let after = leaf_indexed(field, state, leaf);
    assert forall|i: int| 0 <= i < after.occurrences.len() implies path_is_known(
        (#[trigger] after.occurrences[i]).0,
        after.paths.len(),
    ) by {
        if i < state.occurrences.len() {
            assert(after.occurrences[i] == state.occurrences[i]);
            assert(path_is_known(state.occurrences[i].0, state.paths.len()));
        } else {
            match leaf.value {
                LeafValueView::Text(tokens) => {
                    let token = tokens[i - state.occurrences.len()];
                    head_gives_path(
                        field,
                        state.paths,
                        leaf.path,
                        Type::Str,
                        vstd::utf8::encode_utf8(token.text),
                    );
                },
                LeafValueView::Exact(typ, bytes) => {
                    head_gives_path(field, state.paths, leaf.path, typ, bytes);
                },
            }
        }
    }
}

proof fn leaves_keep_paths_known(field: Field, state: FieldIndexing, leaves: Seq<JsonLeafView>)
    requires
        paths_are_known(state.occurrences, state.paths.len()),
    ensures
        paths_are_known(
            leaves_indexed(field, state, leaves).occurrences,
            leaves_indexed(field, state, leaves).paths.len(),
        ),
    decreases leaves.len(),
{
    if leaves.len() > 0 {
        leaves_keep_paths_known(field, state, leaves.drop_last());
        leaf_keeps_paths_known(
            field,
            leaves_indexed(field, state, leaves.drop_last()),
            leaves.last(),
        );
    }
}

proof fn values_keep_paths_known(
    field: Field,
    entry: FieldEntryView,
    state: FieldIndexing,
    document: Seq<(Field, ValueView)>,
)
    requires
        paths_are_known(state.occurrences, state.paths.len()),
        field_values_indexed(field, entry, state, document) is Ok,
    ensures
        ({
            let after = field_values_indexed(field, entry, state, document)->Ok_0;
            paths_are_known(after.occurrences, after.paths.len())
        }),
    decreases document.len(),
{
    if document.len() > 0 {
        let before = field_values_indexed(field, entry, state, document.drop_last())->Ok_0;
        let value = document.last().1;
        values_keep_paths_known(field, entry, state, document.drop_last());
        if document.last().0 == field {
            match value {
                ValueView::Json(leaves) => {
                    if entry.field_type.value_type == Type::Json {
                        leaves_keep_paths_known(field, before, leaves);
                    }
                },
                _ => {
                    let after = field_values_indexed(field, entry, state, document)->Ok_0;
                    assert forall|i: int| 0 <= i < after.occurrences.len() implies path_is_known(
                        (#[trigger] after.occurrences[i]).0,
                        after.paths.len(),
                    ) by {
                        if i < before.occurrences.len() {
                            assert(after.occurrences[i] == before.occurrences[i]);
                            assert(path_is_known(before.occurrences[i].0, before.paths.len()));
                        }
                    }
                },
            }
        }
    }
}

/// Indexing a document gives every JSON term the number of a path.
pub proof fn json_terms_are_known(
    schema: Seq<FieldEntryView>,
    fields: Seq<Field>,
    document: Seq<(Field, ValueView)>,
)
    ensures
        document_indexed(schema, fields, document) matches Ok(indexed) ==> paths_are_known(
            indexed.occurrences,
            indexed.paths.len(),
        ),
    decreases fields.len(),
{
    if fields.len() > 0 {
        json_terms_are_known(schema, fields.drop_last(), document);
        if let Ok(state) = document_indexed(schema, fields.drop_last(), document) {
            let field = fields.last();
            let entry = schema[field.0 as int];
            let start = start_of_field(state);
            if field_values_indexed(field, entry, start, document) is Ok {
                values_keep_paths_known(field, entry, start, document);
            }
        }
    }
}

} // verus!
