//! How terms are written and ordered, and how the lengths of fields are compressed.

use vstd::prelude::*;
use vstd::arithmetic::power2;
use crate::bytes;
use crate::fieldnorm;
use crate::positions;
use crate::postings;
use crate::schema::{Field, Type};
use crate::single_document;
use crate::single_document::BoundView;
use crate::term;
use crate::term::TermView;

verus! {

/// Two byte strings have the same first `n` bytes, and then the first one ends before the other, or
/// has the lesser byte.
pub open spec fn is_before_at(a: Seq<u8>, b: Seq<u8>, n: int) -> bool {
    &&& 0 <= n <= a.len()
    &&& n < b.len()
    &&& forall|i: int| 0 <= i < n ==> a[i] == b[i]
    &&& n == a.len() || a[n] < b[n]
}

/// The order of byte strings is that of their first different byte; what a string begins with comes
/// before it.
pub proof fn bytes_are_ordered_by_their_first_difference(a: Seq<u8>, b: Seq<u8>)
    ensures
        bytes::bytes_lt(a, b) <==> exists|n: int| #[trigger] is_before_at(a, b, n),
    decreases a.len(),
{
    if b.len() > 0 && a.len() > 0 && a[0] == b[0] {
        let x = a.drop_first();
        let y = b.drop_first();
        bytes_are_ordered_by_their_first_difference(x, y);
        if exists|n: int| #[trigger] is_before_at(x, y, n) {
            let n = choose|n: int| #[trigger] is_before_at(x, y, n);
            assert forall|i: int| 0 <= i < n + 1 implies a[i] == b[i] by {
                if i > 0 {
                    assert(x[i - 1] == y[i - 1]);
                }
            }
            assert(is_before_at(a, b, n + 1));
        }
        if exists|n: int| #[trigger] is_before_at(a, b, n) {
            let n = choose|n: int| #[trigger] is_before_at(a, b, n);
            assert(n > 0);
            assert forall|i: int| 0 <= i < n - 1 implies x[i] == y[i] by {
                assert(a[i + 1] == b[i + 1]);
            }
            assert(is_before_at(x, y, n - 1));
        }
    } else {
        if bytes::bytes_lt(a, b) {
            assert(is_before_at(a, b, 0));
        }
        if exists|n: int| #[trigger] is_before_at(a, b, n) {
            let n = choose|n: int| #[trigger] is_before_at(a, b, n);
            if n > 0 {
                assert(a[0] == b[0]);
            }
        }
    }
}

/// Terms are ordered by their field, those of one field by the code of their type, and those of one
/// field and type by their bytes.
pub proof fn terms_are_ordered_by_field_type_and_bytes(a: TermView, b: TermView)
    ensures
        a.field.0 < b.field.0 ==> term::term_lt(a, b),
        a.field == b.field && a.typ.spec_code() < b.typ.spec_code() ==> term::term_lt(a, b),
        a.field == b.field && a.typ == b.typ ==> (term::term_lt(a, b) <==> exists|n: int| #[trigger]
            is_before_at(a.value, b.value, n)),
{
    bytes_are_ordered_by_their_first_difference(a.value, b.value);
}

/// A range that includes its bounds holds the terms between them and the bounds themselves; one that
/// excludes them holds the terms between them only; and an end without a bound holds every term.
pub proof fn ranges_hold_what_is_between_their_bounds(bound: TermView, term: TermView)
    ensures
        single_document::after_start(BoundView::Included(bound), term) <==> bound == term
            || term::term_lt(bound, term),
        single_document::after_start(BoundView::Excluded(bound), term) <==> term::term_lt(
            bound,
            term,
        ),
        single_document::after_start(BoundView::Unbounded, term),
        single_document::before_end(BoundView::Included(bound), term) <==> bound == term
            || term::term_lt(term, bound),
        single_document::before_end(BoundView::Excluded(bound), term) <==> term::term_lt(
            term,
            bound,
        ),
        single_document::before_end(BoundView::Unbounded, term),
{
    term::term_order_is_total(bound, term);
    term::term_order_is_total(term, bound);
}

/// The JSON path of a term is its beginning up to and with the first zero byte, and its value is the
/// rest. Terms of other types, and those without such a byte, have none.
pub proof fn json_path_ends_at_the_first_zero(term: TermView)
    ensures
        match term::json_parts(term) {
            Some((path, value)) => term.typ == Type::Json && term.value == path + value
                && path.len() > 0 && path[path.len() - 1] == 0 && forall|i: int|
                0 <= i < path.len() - 1 ==> #[trigger] path[i] != 0,
            None => term.typ != Type::Json || forall|i: int|
                0 <= i < term.value.len() ==> #[trigger] term.value[i] != 0,
        },
{
    if term.typ == Type::Json {
        path_len_is_that_of_the_first_zero(term.value);
        if let Some((path, value)) = term::json_parts(term) {
            assert(term.value =~= path + value);
            assert forall|i: int| 0 <= i < path.len() - 1 implies #[trigger] path[i] != 0 by {
                assert(path[i] == term.value[i]);
            }
        }
    }
}

proof fn path_len_is_that_of_the_first_zero(value: Seq<u8>)
    ensures
        match term::json_path_len(value) {
            Some(n) => 1 <= n <= value.len() && value[n - 1] == 0 && forall|i: int|
                0 <= i < n - 1 ==> #[trigger] value[i] != 0,
            None => forall|i: int| 0 <= i < value.len() ==> #[trigger] value[i] != 0,
        },
    decreases value.len(),
{
    if value.len() > 0 && value[0] != 0 {
        let rest = value.drop_first();
        path_len_is_that_of_the_first_zero(rest);
        match term::json_path_len(rest) {
            Some(n) => {
                assert(rest[n - 1] == value[n as int]);
                assert forall|i: int| 0 <= i < n implies #[trigger] value[i] != 0 by {
                    if i > 0 {
                        assert(rest[i - 1] == value[i]);
                    }
                }
            },
            None => {
                assert forall|i: int| 0 <= i < value.len() implies #[trigger] value[i] != 0 by {
                    if i > 0 {
                        assert(rest[i - 1] == value[i]);
                    }
                }
            },
        }
    }
}

/// The bytes of a path as they stand in a term: a zero byte is written as the digit zero.
pub open spec fn path_bytes(path: Seq<char>) -> Seq<u8> {
    let encoded = vstd::utf8::encode_utf8(path);
    Seq::new(
        encoded.len(),
        |i: int|
            if encoded[i] == 0 {
                48
            } else {
                encoded[i]
            },
    )
}

/// A JSON term gives back the path, the type and the value that it was made of.
pub proof fn json_terms_are_read_back(field: Field, path: Seq<char>, typ: Type, rest: Seq<u8>)
    ensures
        ({
            let term = TermView {
                field,
                typ: Type::Json,
                value: postings::json_term_value(path, seq![typ.spec_code()] + rest),
            };
            &&& term::json_parts(term) == Some(
                (path_bytes(path).push(0), seq![typ.spec_code()] + rest),
            )
            &&& term::json_value_type(term) == Some(typ)
        }),
{
    let typed = seq![typ.spec_code()] + rest;
    let value = postings::json_term_value(path, typed);
    let written = path_bytes(path);
    let n = written.len() as int;
    assert(value =~= written.push(0) + typed);
    assert forall|i: int| 0 <= i < n implies value[i] != term::JSON_END_OF_PATH by {
        assert(value[i] == written[i]);
    }
    term::json_path_len_skips(value, n);
    assert(value.skip(n)[0] == 0);
    assert(term::json_path_len(value) == Some((n + 1) as nat));
    assert(value.take(n + 1) =~= written.push(0));
    assert(value.skip(n + 1) =~= typed);
}

/// A position is common to all the lists exactly where each of them holds it.
pub proof fn common_positions_are_in_every_list(lists: Seq<Seq<u32>>, position: u32)
    requires
        lists.len() > 0,
    ensures
        positions::shared_by_all(lists).contains(position) <==> forall|i: int|
            0 <= i < lists.len() ==> (#[trigger] lists[i]).contains(position),
    decreases lists.len(),
{
    broadcast use {
        vstd::seq_lib::group_to_multiset_ensures,
        vstd::multiset::lemma_intersection_count,
    };

    assert(lists[lists.len() - 1] == lists.last());
    if lists.len() > 1 {
        let shorter = lists.drop_last();
        common_positions_are_in_every_list(shorter, position);
        if positions::shared_by_all(lists).contains(position) {
            assert forall|i: int| 0 <= i < lists.len() implies (#[trigger] lists[i]).contains(
                position,
            ) by {
                if i < shorter.len() {
                    assert(shorter[i] == lists[i]);
                }
            }
        }
        if forall|i: int| 0 <= i < lists.len() ==> (#[trigger] lists[i]).contains(position) {
            assert forall|i: int| 0 <= i < shorter.len() implies (
            #[trigger] shorter[i]).contains(position) by {
                assert(shorter[i] == lists[i]);
            }
            assert(lists.last().contains(position));
        }
    }
}

/// The first forty-one ids stand for their own number of tokens. From there on, the distance from
/// twenty-four doubles with every eighth id.
pub proof fn fieldnorm_ids_are_exact_and_then_double(id: u8)
    ensures
        id <= 40 ==> fieldnorm::decoded(id) == id,
        32 <= id <= 247 ==> fieldnorm::decoded((id + 8) as u8) - 24 == 2 * (fieldnorm::decoded(id)
            - 24),
{
    power2::lemma2_to64();
    if 32 <= id {
        let i = (id - 24) as nat;
        let k = (i / 8 - 1) as nat;
        if id <= 40 {
            let base = 8 + i % 8;
            let power = power2::pow2(k);
            assert(power == (if id < 40 {
                1nat
            } else {
                2nat
            }));
            assert(power == 1 ==> base * power == base) by (nonlinear_arith);
            assert(power == 2 ==> base * power == 2 * base) by (nonlinear_arith);
        }
        if id <= 247 {
            assert((i + 8) % 8 == i % 8);
            assert((i + 8) / 8 == i / 8 + 1);
            power2::lemma_pow2_unfold(k + 1);
            let base = 8 + i % 8;
            let power = power2::pow2(k);
            assert(base * (2 * power) == 2 * (base * power)) by (nonlinear_arith);
        }
    }
}

/// A greater id stands for more tokens.
pub proof fn fieldnorm_ids_grow(left: u8, right: u8)
    requires
        left < right,
    ensures
        fieldnorm::decoded(left) < fieldnorm::decoded(right),
    decreases right,
{
    power2::lemma2_to64();
    if right <= 40 {
        fieldnorm_ids_are_exact_and_then_double(left);
        fieldnorm_ids_are_exact_and_then_double(right);
    } else if left < 32 {
        fieldnorm_ids_grow(left, (right - 8) as u8);
        fieldnorm_ids_are_exact_and_then_double((right - 8) as u8);
        fieldnorm_ids_are_exact_and_then_double(left);
        if right - 8 > 32 {
            fieldnorm_ids_grow(32, (right - 8) as u8);
        }
        fieldnorm_ids_are_exact_and_then_double(32);
    } else if left < 40 {
        fieldnorm_ids_are_exact_and_then_double(left);
        fieldnorm_ids_are_exact_and_then_double((right - 8) as u8);
        if right - 8 > 32 {
            fieldnorm_ids_grow(32, (right - 8) as u8);
        }
        fieldnorm_ids_are_exact_and_then_double(32);
        if right < 48 {
            fieldnorm_ids_are_exact_and_then_double((right - 8) as u8);
        } else {
            fieldnorm_ids_grow(left, (right - 8) as u8);
        }
    } else {
        fieldnorm_ids_grow((left - 8) as u8, (right - 8) as u8);
        fieldnorm_ids_are_exact_and_then_double((left - 8) as u8);
        fieldnorm_ids_are_exact_and_then_double((right - 8) as u8);
    }
}

/// There is a greatest id that stands for no more than a number of tokens.
proof fn greatest_id(fieldnorm: u32, limit: u8) -> (id: u8)
    requires
        forall|other: u8| limit < other ==> #[trigger] fieldnorm::decoded(other) > fieldnorm,
    ensures
        fieldnorm::is_encoded(fieldnorm, id),
    decreases limit,
{
    if fieldnorm::decoded(limit) <= fieldnorm {
        limit
    } else {
        assert(limit > 0) by {
            fieldnorm_ids_are_exact_and_then_double(0);
        }
        greatest_id(fieldnorm, (limit - 1) as u8)
    }
}

/// The id of a number of tokens is the greatest one that does not stand for more; it is found for
/// every number, is the id itself where one stands for that number, and does not fall where the
/// number grows.
pub proof fn fieldnorms_are_rounded_down(left: u32, right: u32, id: u8)
    requires
        left <= right,
    ensures
        fieldnorm::decoded(fieldnorm::encoded(left)) <= left,
        id > fieldnorm::encoded(left) ==> fieldnorm::decoded(id) > left,
        fieldnorm::decoded(id) == left ==> fieldnorm::encoded(left) == id,
        fieldnorm::encoded(left) <= fieldnorm::encoded(right),
{
    let first = greatest_id(left, 255);
    let second = greatest_id(right, 255);
    assert(fieldnorm::decoded(first) <= left);
    assert(fieldnorm::decoded(second) <= right);
    assert(fieldnorm::is_encoded(left, fieldnorm::encoded(left)));
    assert(fieldnorm::is_encoded(right, fieldnorm::encoded(right)));
    let found = fieldnorm::encoded(left);
    if fieldnorm::decoded(id) == left && found != id {
        if found < id {
            assert(fieldnorm::decoded(id) > left);
        } else {
            fieldnorm_ids_grow(id, found);
        }
    }
    if fieldnorm::encoded(right) < found {
        assert(fieldnorm::decoded(found) > right);
    }
}

} // verus!
