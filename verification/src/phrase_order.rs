//! The terms of a phrase in the order of their offsets.

use vstd::prelude::*;
use crate::phrase;
use crate::schema::Field;
use crate::statistics;
use crate::term::{Term, TermView};

verus! {

/// The offsets come in ascending order.
pub open spec fn ordered(phrase: Seq<(usize, TermView)>) -> bool {
    forall|i: int, j: int|
        0 <= i <= j < phrase.len() ==> (#[trigger] phrase[i]).0 <= (#[trigger] phrase[j]).0
}

/// All the terms belong to `field`.
pub open spec fn of_field(phrase: Seq<(usize, TermView)>, field: Field) -> bool {
    forall|i: int| 0 <= i < phrase.len() ==> (#[trigger] phrase[i]).1.field == field
}

/// Puts an entry behind those whose offset is not greater, in a list that is in the order of the
/// offsets.
pub open spec fn insert_by_offset(
    phrase: Seq<(usize, TermView)>,
    entry: (usize, TermView),
) -> Seq<(usize, TermView)>
    decreases phrase.len(),
{
    if phrase.len() == 0 || phrase.last().0 <= entry.0 {
        phrase.push(entry)
    } else {
        insert_by_offset(phrase.drop_last(), entry).push(phrase.last())
    }
}

/// The terms in the order of their offsets. Those with one offset keep their order.
pub open spec fn by_offset(phrase: Seq<(usize, TermView)>) -> Seq<(usize, TermView)>
    decreases phrase.len(),
{
    if phrase.len() == 0 {
        phrase
    } else {
        insert_by_offset(by_offset(phrase.drop_last()), phrase.last())
    }
}

/// An entry has a given offset.
pub open spec fn has_offset(offset: usize) -> spec_fn((usize, TermView)) -> bool {
    |entry: (usize, TermView)| entry.0 == offset
}

/// The entries with a given offset.
pub open spec fn at_offset(phrase: Seq<(usize, TermView)>, offset: usize) -> Seq<
    (usize, TermView),
> {
    phrase.filter(has_offset(offset))
}

proof fn insert_by_offset_properties(
    phrase: Seq<(usize, TermView)>,
    entry: (usize, TermView),
    offset: usize,
    field: Field,
)
    requires
        ordered(phrase),
    ensures
        insert_by_offset(phrase, entry).len() == phrase.len() + 1,
        ordered(insert_by_offset(phrase, entry)),
        phrase.len() > 0 ==> insert_by_offset(phrase, entry).last().0 >= phrase.last().0,
        insert_by_offset(phrase, entry).last().0 == entry.0 || phrase.len() > 0
            && insert_by_offset(phrase, entry).last() == phrase.last(),
        at_offset(insert_by_offset(phrase, entry), offset) == at_offset(
            phrase.push(entry),
            offset,
        ),
        of_field(insert_by_offset(phrase, entry), field) == of_field(phrase.push(entry), field),
    decreases phrase.len(),
{
    reveal(Seq::filter);
    let inserted = insert_by_offset(phrase, entry);
    if phrase.len() == 0 || phrase.last().0 <= entry.0 {
        assert forall|i: int, j: int| 0 <= i <= j < inserted.len() implies (
        #[trigger] inserted[i]).0 <= (#[trigger] inserted[j]).0 by {
            if j == phrase.len() && i < j {
                assert(phrase[i].0 <= phrase.last().0);
            }
        }
    } else {
        let shorter = phrase.drop_last();
        let below = insert_by_offset(shorter, entry);
        assert forall|i: int, j: int| 0 <= i <= j < shorter.len() implies (
        #[trigger] shorter[i]).0 <= (#[trigger] shorter[j]).0 by {
            assert(phrase[i].0 <= phrase[j].0);
        }
        insert_by_offset_properties(shorter, entry, offset, field);
        if shorter.len() > 0 {
            assert(phrase[shorter.len() - 1].0 <= phrase.last().0);
        }
        assert(below.last().0 <= phrase.last().0);
        assert forall|i: int, j: int| 0 <= i <= j < inserted.len() implies (
        #[trigger] inserted[i]).0 <= (#[trigger] inserted[j]).0 by {
            if j == below.len() && i < j {
                assert(below[i].0 <= below[below.len() - 1].0);
            }
        }
        assert(inserted.drop_last() =~= below);
        assert(phrase.push(entry).drop_last() =~= phrase);
        assert(shorter.push(entry).drop_last() =~= shorter);
        let pred = has_offset(offset);
        assert(inserted.filter(pred) == if pred(phrase.last()) {
            below.filter(pred).push(phrase.last())
        } else {
            below.filter(pred)
        });
        assert(phrase.push(entry).filter(pred) == if pred(entry) {
            phrase.filter(pred).push(entry)
        } else {
            phrase.filter(pred)
        });
        assert(shorter.push(entry).filter(pred) == if pred(entry) {
            shorter.filter(pred).push(entry)
        } else {
            shorter.filter(pred)
        });
        assert(of_field(inserted, field) == of_field(phrase.push(entry), field)) by {
            if of_field(inserted, field) {
                assert forall|i: int| 0 <= i < below.len() implies (
                #[trigger] below[i]).1.field == field by {
                    assert(inserted[i].1.field == field);
                }
                assert(of_field(shorter.push(entry), field));
                assert(inserted[below.len() as int].1.field == field);
                assert forall|i: int| 0 <= i < phrase.push(entry).len() implies (
                #[trigger] phrase.push(entry)[i]).1.field == field by {
                    if i < shorter.len() {
                        assert(shorter.push(entry)[i].1.field == field);
                    } else if i == phrase.len() {
                        assert(shorter.push(entry)[shorter.len() as int].1.field == field);
                    }
                }
            }
            if of_field(phrase.push(entry), field) {
                assert forall|i: int| 0 <= i < shorter.push(entry).len() implies (
                #[trigger] shorter.push(entry)[i]).1.field == field by {
                    if i < shorter.len() {
                        assert(phrase.push(entry)[i].1.field == field);
                    } else {
                        assert(phrase.push(entry)[phrase.len() as int].1.field == field);
                    }
                }
                assert(of_field(below, field));
                assert(phrase.push(entry)[phrase.len() - 1].1.field == field);
                assert forall|i: int| 0 <= i < inserted.len() implies (
                #[trigger] inserted[i]).1.field == field by {
                    if i < below.len() {
                        assert(below[i].1.field == field);
                    }
                }
            }
        }
    }
}

/// Ordering the terms of a phrase by offset keeps every term, and the order of those that have the
/// same offset.
pub proof fn by_offset_is_a_stable_order(
    phrase: Seq<(usize, TermView)>,
    offset: usize,
    field: Field,
)
    ensures
        by_offset(phrase).len() == phrase.len(),
        ordered(by_offset(phrase)),
        at_offset(by_offset(phrase), offset) == at_offset(phrase, offset),
        of_field(by_offset(phrase), field) == of_field(phrase, field),
    decreases phrase.len(),
{
    reveal(Seq::filter);
    if phrase.len() > 0 {
        let shorter = phrase.drop_last();
        by_offset_is_a_stable_order(shorter, offset, field);
        insert_by_offset_properties(by_offset(shorter), phrase.last(), offset, field);
        assert(by_offset(shorter).push(phrase.last()).drop_last() =~= by_offset(shorter));
        assert(of_field(by_offset(shorter).push(phrase.last()), field) == (of_field(
            by_offset(shorter),
            field,
        ) && phrase.last().1.field == field)) by {
            let longer = by_offset(shorter).push(phrase.last());
            if of_field(longer, field) {
                assert(longer[shorter.len() as int].1.field == field);
                assert forall|i: int| 0 <= i < shorter.len() implies (#[trigger] by_offset(
                    shorter,
                )[i]).1.field == field by {
                    assert(longer[i].1.field == field);
                }
            }
        }
        assert(of_field(phrase, field) == (of_field(shorter, field) && phrase.last().1.field
            == field)) by {
            if of_field(phrase, field) {
                assert(phrase[phrase.len() - 1].1.field == field);
                assert forall|i: int| 0 <= i < shorter.len() implies (
                #[trigger] shorter[i]).1.field == field by {
                    assert(phrase[i].1.field == field);
                }
            }
            if of_field(shorter, field) && phrase.last().1.field == field {
                assert forall|i: int| 0 <= i < phrase.len() implies (
                #[trigger] phrase[i]).1.field == field by {
                    if i < shorter.len() {
                        assert(shorter[i].1.field == field);
                    }
                }
            }
        }
    }
}

/// Terms that already come in the order of their offsets stay as they are.
pub proof fn by_offset_of_ordered(phrase: Seq<(usize, TermView)>)
    requires
        ordered(phrase),
    ensures
        by_offset(phrase) == phrase,
    decreases phrase.len(),
{
    if phrase.len() > 0 {
        let shorter = phrase.drop_last();
        assert forall|i: int, j: int| 0 <= i <= j < shorter.len() implies (
        #[trigger] shorter[i]).0 <= (#[trigger] shorter[j]).0 by {
            assert(phrase[i].0 <= phrase[j].0);
        }
        by_offset_of_ordered(shorter);
        if shorter.len() > 0 {
            assert(phrase[shorter.len() - 1].0 <= phrase[phrase.len() - 1].0);
        }
        assert(shorter.push(phrase.last()) =~= phrase);
    }
}

/// Puts the terms in the order of their offsets. Those with one offset keep their order.
pub fn sort_by_offset(terms: &[(usize, Term)]) -> (r: Vec<(usize, Term)>)
    ensures
        phrase::phrase_views(r@) == by_offset(phrase::phrase_views(terms@)),
{
    let ghost all = phrase::phrase_views(terms@);
    let mut r: Vec<(usize, Term)> = Vec::new();
    let mut i: usize = 0;
    assert(all.take(0) =~= Seq::empty());
    assert(phrase::phrase_views(r@) =~= Seq::empty());
    while i < terms.len()
        invariant
            i <= terms.len(),
            all == phrase::phrase_views(terms@),
            phrase::phrase_views(r@) == by_offset(all.take(i as int)),
        decreases terms.len() - i,
    {
        let ghost before = phrase::phrase_views(r@);
        let ghost entry = all[i as int];
        let offset: usize = terms[i].0;
        let mut place: usize = r.len();
        assert(before.take(place as int) =~= before);
        assert(insert_by_offset(before, entry) + before.skip(place as int) =~= insert_by_offset(
            before,
            entry,
        ));
        while place > 0 && r[place - 1].0 > offset
            invariant
                place <= r.len(),
                before == phrase::phrase_views(r@),
                offset == entry.0,
                insert_by_offset(before, entry) == insert_by_offset(
                    before.take(place as int),
                    entry,
                ) + before.skip(place as int),
            decreases place,
        {
            let ghost n = place as int;
            assert(before.take(n).drop_last() =~= before.take(n - 1));
            assert(before.take(n).last() == before[n - 1]);
            assert(insert_by_offset(before.take(n), entry) + before.skip(n) =~= insert_by_offset(
                before.take(n - 1),
                entry,
            ) + before.skip(n - 1));
            place -= 1;
        }
        assert(place > 0 ==> before.take(place as int).last() == before[place - 1]);
        let ghost so_far = r@;
        r.insert(place, (offset, terms[i].1.clone()));
        assert(phrase::phrase_views(r@) =~= before.take(place as int).push(entry) + before.skip(
            place as int,
        ));
        assert(all.take(i + 1).drop_last() =~= all.take(i as int));
        i += 1;
    }
    assert(all.take(i as int) =~= all);
    r
}

/// Gives each term its index as offset.
pub fn with_offsets(terms: &[Term]) -> (r: Vec<(usize, Term)>)
    ensures
        phrase::phrase_views(r@) == Seq::new(terms@.len(), |i: int| (i as usize, terms@[i]@)),
        ordered(phrase::phrase_views(r@)),
{
    let mut r: Vec<(usize, Term)> = Vec::new();
    let mut i: usize = 0;
    while i < terms.len()
        invariant
            i <= terms.len(),
            r@.len() == i,
            forall|j: int| 0 <= j < i ==> (#[trigger] r@[j]).0 == j && r@[j].1@ == terms@[j]@,
        decreases terms.len() - i,
    {
        r.push((i, terms[i].clone()));
        i += 1;
    }
    assert(phrase::phrase_views(r@) =~= Seq::new(
        terms@.len(),
        |i: int| (i as usize, terms@[i]@),
    ));
    r
}

/// The terms of a phrase of one field belong to that field.
pub proof fn terms_have_one_field(
    phrase: Seq<(usize, TermView)>,
    field: Field,
    terms: Seq<Term>,
)
    requires
        of_field(phrase, field),
        statistics::term_views(terms) == phrase::terms_of(phrase),
    ensures
        terms.len() == phrase.len(),
        forall|i: int| 0 <= i < terms.len() ==> (#[trigger] terms[i])@.field == field,
        forall|i: int| 0 <= i < terms.len() ==> (#[trigger] terms[i])@.field == terms[0]@.field,
{
    let views = statistics::term_views(terms);
    assert(views.len() == terms.len());
    assert forall|i: int| 0 <= i < terms.len() implies (#[trigger] terms[i])@.field == field by {
        assert(views[i] == terms[i]@);
        assert(views[i] == phrase[i].1);
    }
}

} // verus!
