//! Terms with the positions at which they occur, in the order of the terms.

use vstd::prelude::*;
use crate::positions;
use crate::schema::Field;
use crate::term;
use crate::term::{Term, TermView};

verus! {

/// The contents of a list of terms with their positions.
pub open spec fn entry_views(entries: Seq<(Term, Vec<u32>)>) -> Seq<(TermView, Seq<u32>)> {
    entries.map_values(|entry: (Term, Vec<u32>)| (entry.0@, entry.1@))
}

/// The terms come in strictly ascending order.
pub open spec fn ascending(entries: Seq<(TermView, Seq<u32>)>) -> bool {
    forall|i: int, j: int|
        0 <= i < j < entries.len() ==> term::term_lt(
            (#[trigger] entries[i]).0,
            (#[trigger] entries[j]).0,
        )
}

/// The positions that are listed for `term`.
pub open spec fn lookup(entries: Seq<(TermView, Seq<u32>)>, term: TermView) -> Option<Seq<u32>>
    decreases entries.len(),
{
    if entries.len() == 0 {
        None
    } else if entries.last().0 == term {
        Some(entries.last().1)
    } else {
        lookup(entries.drop_last(), term)
    }
}

/// The number of positions that are listed for the terms of `field`.
pub open spec fn positions_of_field(entries: Seq<(TermView, Seq<u32>)>, field: Field) -> nat
    decreases entries.len(),
{
    if entries.len() == 0 {
        0
    } else {
        positions_of_field(entries.drop_last(), field) + if entries.last().0.field == field {
            entries.last().1.len()
        } else {
            0
        }
    }
}

/// No two entries are for the same term.
pub open spec fn distinct(entries: Seq<(TermView, Seq<u32>)>) -> bool {
    forall|i: int, j: int|
        0 <= i < j < entries.len() ==> (#[trigger] entries[i]).0 != (#[trigger] entries[j]).0
}

/// Terms in ascending order are distinct.
pub proof fn ascending_is_distinct(entries: Seq<(TermView, Seq<u32>)>)
    requires
        ascending(entries),
    ensures
        distinct(entries),
{
    assert forall|i: int, j: int| 0 <= i < j < entries.len() implies (#[trigger] entries[i]).0 != (
    #[trigger] entries[j]).0 by {
        term::term_order_is_total(entries[i].0, entries[j].0);
    }
}

/// What is left of a list of distinct terms is distinct.
pub proof fn distinct_without(entries: Seq<(TermView, Seq<u32>)>, index: int)
    requires
        distinct(entries),
        0 <= index < entries.len(),
    ensures
        distinct(entries.remove(index)),
{
    let removed = entries.remove(index);
    assert forall|i: int, j: int| 0 <= i < j < removed.len() implies (#[trigger] removed[i]).0 != (
    #[trigger] removed[j]).0 by {
        let k = if i < index {
            i
        } else {
            i + 1
        };
        let l = if j < index {
            j
        } else {
            j + 1
        };
        assert(removed[i] == entries[k]);
        assert(removed[j] == entries[l]);
    }
}

/// What is listed for a term is found.
pub proof fn lookup_finds(entries: Seq<(TermView, Seq<u32>)>, i: int)
    requires
        ascending(entries),
        0 <= i < entries.len(),
    ensures
        lookup(entries, entries[i].0) == Some(entries[i].1),
    decreases entries.len(),
{
    if i < entries.len() - 1 {
        term::term_order_is_total(entries[i].0, entries.last().0);
        assert(term::term_lt(entries[i].0, entries[entries.len() - 1].0));
        let shorter = entries.drop_last();
        assert(ascending(shorter)) by {
            assert forall|j: int, k: int| 0 <= j < k < shorter.len() implies term::term_lt(
                (#[trigger] shorter[j]).0,
                (#[trigger] shorter[k]).0,
            ) by {
                assert(term::term_lt(entries[j].0, entries[k].0));
            }
        }
        lookup_finds(shorter, i);
    }
}

/// What is found for a term is listed.
pub proof fn lookup_is_listed(entries: Seq<(TermView, Seq<u32>)>, term: TermView) -> (i: int)
    requires
        lookup(entries, term) is Some,
    ensures
        0 <= i < entries.len(),
        entries[i] == (term, lookup(entries, term)->0),
    decreases entries.len(),
{
    if entries.last().0 == term {
        entries.len() - 1
    } else {
        lookup_is_listed(entries.drop_last(), term)
    }
}

/// Replacing the positions of one term changes what is found for that term only.
proof fn replaced_entry(
    before: Seq<(TermView, Seq<u32>)>,
    after: Seq<(TermView, Seq<u32>)>,
    index: int,
)
    requires
        ascending(before),
        0 <= index < before.len(),
        after == before.update(index, (before[index].0, after[index].1)),
    ensures
        ascending(after),
        lookup(after, before[index].0) == Some(after[index].1),
        forall|other: TermView|
            other != before[index].0 ==> #[trigger] lookup(after, other) == lookup(before, other),
{
    assert forall|i: int, j: int| 0 <= i < j < after.len() implies term::term_lt(
        (#[trigger] after[i]).0,
        (#[trigger] after[j]).0,
    ) by {
        assert(term::term_lt(before[i].0, before[j].0));
    }
    lookup_finds(after, index);
    assert forall|other: TermView| other != before[index].0 implies #[trigger] lookup(after, other)
        == lookup(before, other) by {
        if lookup(before, other) is Some {
            let i = lookup_is_listed(before, other);
            assert(after[i] == before[i]);
            lookup_finds(after, i);
        } else if lookup(after, other) is Some {
            let i = lookup_is_listed(after, other);
            assert(after[i] == before[i]);
            lookup_finds(before, i);
        }
    }
}

/// Terms with their positions, each term once, in ascending order.
#[derive(Debug)]
pub struct TermMap {
    entries: Vec<(Term, Vec<u32>)>,
}

impl View for TermMap {
    type V = Seq<(TermView, Seq<u32>)>;

    closed spec fn view(&self) -> Seq<(TermView, Seq<u32>)> {
        entry_views(self.entries@)
    }
}

impl Clone for TermMap {
    fn clone(&self) -> (r: TermMap)
        ensures
            r@ == self@,
    {
        let mut entries: Vec<(Term, Vec<u32>)> = Vec::new();
        let mut i: usize = 0;
        while i < self.entries.len()
            invariant
                i <= self.entries.len(),
                entries@.len() == i,
                forall|j: int|
                    0 <= j < i ==> (#[trigger] entries@[j]).0@ == self.entries@[j].0@
                        && entries@[j].1@ == self.entries@[j].1@,
            decreases self.entries.len() - i,
        {
            let positions = positions::copy_of(self.entries[i].1.as_slice());
            entries.push((self.entries[i].0.clone(), positions));
            i += 1;
        }
        let r = TermMap { entries };
        assert(r@ =~= self@);
        r
    }
}

impl TermMap {
    /// No terms.
    pub fn new() -> (r: TermMap)
        ensures
            r@ == Seq::<(TermView, Seq<u32>)>::empty(),
    {
        let r = TermMap { entries: Vec::new() };
        assert(r@ =~= Seq::empty());
        r
    }

    /// Returns the number of terms.
    pub fn len(&self) -> (r: usize)
        ensures
            r == self@.len(),
    {
        self.entries.len()
    }

    /// Returns the term at an index.
    pub fn term_at(&self, index: usize) -> (r: &Term)
        requires
            index < self@.len(),
        ensures
            r@ == self@[index as int].0,
    {
        &self.entries[index].0
    }

    /// Returns the positions of the term at an index.
    pub fn positions_at(&self, index: usize) -> (r: &[u32])
        requires
            index < self@.len(),
        ensures
            r@ == self@[index as int].1,
    {
        self.entries[index].1.as_slice()
    }

    /// Returns how many terms come before `term`, and whether it is the next one.
    pub fn find(&self, term: &Term) -> (r: (usize, bool))
        requires
            ascending(self@),
        ensures
            r.0 <= self@.len(),
            forall|i: int| 0 <= i < r.0 ==> term::term_lt((#[trigger] self@[i]).0, term@),
            r.1 ==> r.0 < self@.len() && self@[r.0 as int].0 == term@,
            !r.1 ==> forall|i: int|
                r.0 <= i < self@.len() ==> term::term_lt(term@, (#[trigger] self@[i]).0),
            r.1 ==> lookup(self@, term@) == Some(self@[r.0 as int].1),
            !r.1 ==> lookup(self@, term@) is None,
    {
        let mut low: usize = 0;
        let mut high: usize = self.entries.len();
        while low < high
            invariant
                ascending(self@),
                low <= high <= self.entries.len(),
                forall|i: int| 0 <= i < low ==> term::term_lt((#[trigger] self@[i]).0, term@),
                forall|i: int|
                    high <= i < self@.len() ==> !term::term_lt((#[trigger] self@[i]).0, term@),
            decreases high - low,
        {
            let middle: usize = low + (high - low) / 2;
            let ghost probed = self@[middle as int].0;
            if self.entries[middle].0.less_than(term) {
                proof {
                    assert forall|i: int| 0 <= i < middle + 1 implies term::term_lt(
                        (#[trigger] self@[i]).0,
                        term@,
                    ) by {
                        if i < middle {
                            assert(term::term_lt(self@[i].0, self@[middle as int].0));
                            term::term_order_is_transitive(self@[i].0, probed, term@);
                        }
                    }
                }
                low = middle + 1;
            } else {
                proof {
                    assert forall|i: int| middle <= i < self@.len() implies !term::term_lt(
                        (#[trigger] self@[i]).0,
                        term@,
                    ) by {
                        if middle < i && term::term_lt(self@[i].0, term@) {
                            assert(term::term_lt(self@[middle as int].0, self@[i].0));
                            term::term_order_is_transitive(probed, self@[i].0, term@);
                        }
                    }
                }
                high = middle;
            }
        }
        if low < self.entries.len() && self.entries[low].0.same_as(term) {
            proof {
                lookup_finds(self@, low as int);
            }
            return (low, true);
        }
        proof {
            assert forall|i: int| low <= i < self@.len() implies term::term_lt(
                term@,
                (#[trigger] self@[i]).0,
            ) by {
                let first = self@[low as int].0;
                term::term_order_is_total(first, term@);
                if low < i {
                    assert(term::term_lt(self@[low as int].0, self@[i].0));
                    term::term_order_is_transitive(term@, first, self@[i].0);
                }
            }
            if lookup(self@, term@) is Some {
                let i = lookup_is_listed(self@, term@);
                term::term_order_is_total(term@, self@[i].0);
            }
        }
        (low, false)
    }

    /// Puts a new term in its place.
    fn insert_at(&mut self, index: usize, term: Term, positions: Vec<u32>)
        requires
            ascending(old(self)@),
            index <= old(self)@.len(),
            forall|i: int| 0 <= i < index ==> term::term_lt((#[trigger] old(self)@[i]).0, term@),
            forall|i: int|
                index <= i < old(self)@.len() ==> term::term_lt(
                    term@,
                    (#[trigger] old(self)@[i]).0,
                ),
        ensures
            ascending(final(self)@),
            final(self)@ == old(self)@.insert(index as int, (term@, positions@)),
            lookup(final(self)@, term@) == Some(positions@),
            forall|other: TermView|
                other != term@ ==> #[trigger] lookup(final(self)@, other) == lookup(
                    old(self)@,
                    other,
                ),
    {
        let ghost before = self@;
        let ghost entry = (term@, positions@);
        self.entries.insert(index, (term, positions));
        proof {
            assert(self@ =~= before.insert(index as int, entry));
            assert forall|i: int, j: int| 0 <= i < j < self@.len() implies term::term_lt(
                (#[trigger] self@[i]).0,
                (#[trigger] self@[j]).0,
            ) by {
                let x = if i < index {
                    i
                } else {
                    i - 1
                };
                let y = if j < index {
                    j
                } else {
                    j - 1
                };
                if i != index {
                    assert(self@[i] == before[x]);
                }
                if j != index {
                    assert(self@[j] == before[y]);
                }
                if i != index && j != index {
                    assert(term::term_lt(before[x].0, before[y].0));
                }
            }
            lookup_finds(self@, index as int);
            assert forall|other: TermView| other != entry.0 implies #[trigger] lookup(
                self@,
                other,
            ) == lookup(before, other) by {
                if lookup(before, other) is Some {
                    let i = lookup_is_listed(before, other);
                    let moved = if i < index {
                        i
                    } else {
                        i + 1
                    };
                    assert(self@[moved] == before[i]);
                    lookup_finds(self@, moved);
                } else if lookup(self@, other) is Some {
                    let i = lookup_is_listed(self@, other);
                    let moved = if i < index {
                        i
                    } else {
                        i - 1
                    };
                    assert(self@[i] == before[moved]);
                    lookup_finds(before, moved);
                }
            }
        }
    }

    /// Replaces the positions of the term at an index.
    fn replace_at(&mut self, index: usize, positions: Vec<u32>)
        requires
            ascending(old(self)@),
            index < old(self)@.len(),
        ensures
            ascending(final(self)@),
            lookup(final(self)@, old(self)@[index as int].0) == Some(positions@),
            forall|other: TermView|
                other != old(self)@[index as int].0 ==> #[trigger] lookup(final(self)@, other)
                    == lookup(old(self)@, other),
    {
        let ghost before = self@;
        let ghost entry = (before[index as int].0, positions@);
        self.entries[index].1 = positions;
        proof {
            assert(self@ =~= before.update(index as int, entry));
            replaced_entry(before, self@, index as int);
        }
    }

    /// Adds a position to those of a term, which is added if it is new.
    pub fn push_position(&mut self, term: &Term, position: u32)
        requires
            ascending(old(self)@),
        ensures
            ascending(final(self)@),
            lookup(final(self)@, term@) == Some(
                match lookup(old(self)@, term@) {
                    Some(positions) => positions.push(position),
                    None => seq![position],
                },
            ),
            forall|other: TermView|
                other != term@ ==> #[trigger] lookup(final(self)@, other) == lookup(
                    old(self)@,
                    other,
                ),
    {
        let (index, found) = self.find(term);
        if found {
            let ghost before = self@;
            self.entries[index].1.push(position);
            proof {
                let entry = (term@, before[index as int].1.push(position));
                assert(self@ =~= before.update(index as int, entry));
                replaced_entry(before, self@, index as int);
            }
        } else {
            // The term is copied only where it is new.
            let mut positions: Vec<u32> = Vec::new();
            positions.push(position);
            assert(positions@ =~= seq![position]);
            self.insert_at(index, term.clone(), positions);
        }
    }

    /// Replaces the positions of a term, which is added if it is new.
    pub fn set(&mut self, term: Term, positions: Vec<u32>)
        requires
            ascending(old(self)@),
        ensures
            ascending(final(self)@),
            lookup(final(self)@, term@) == Some(positions@),
            forall|other: TermView|
                other != term@ ==> #[trigger] lookup(final(self)@, other) == lookup(
                    old(self)@,
                    other,
                ),
    {
        let (index, found) = self.find(&term);
        if found {
            self.replace_at(index, positions);
        } else {
            self.insert_at(index, term, positions);
        }
    }
}

/// A place in the order of terms.
pub enum Pivot<'a> {
    /// Before the terms of a field.
    BeforeField(Field),
    /// Behind the terms of a field.
    BehindField(Field),
    /// Before a term.
    Before(&'a Term),
    /// Behind a term.
    Behind(&'a Term),
}

impl<'a> Pivot<'a> {
    /// A term stands before the place.
    pub open spec fn follows(&self, term: TermView) -> bool {
        match self {
            Pivot::BeforeField(field) => term.field.0 < field.0,
            Pivot::BehindField(field) => term.field.0 <= field.0,
            Pivot::Before(pivot) => term::term_lt(term, pivot@),
            Pivot::Behind(pivot) => !term::term_lt(pivot@, term),
        }
    }

    /// Returns whether a term stands before the place.
    fn is_behind(&self, term: &Term) -> (r: bool)
        ensures
            r == self.follows(term@),
    {
        match self {
            Pivot::BeforeField(field) => term.field().0 < field.0,
            Pivot::BehindField(field) => term.field().0 <= field.0,
            Pivot::Before(pivot) => term.less_than(pivot),
            Pivot::Behind(pivot) => !pivot.less_than(term),
        }
    }

    /// What comes before a term that stands before the place stands before it too.
    proof fn follows_what_comes_before(&self, a: TermView, b: TermView)
        requires
            term::term_lt(a, b),
            self.follows(b),
        ensures
            self.follows(a),
    {
        match self {
            Pivot::BeforeField(field) => {},
            Pivot::BehindField(field) => {},
            Pivot::Before(pivot) => {
                term::term_order_is_transitive(a, b, pivot@);
            },
            Pivot::Behind(pivot) => {
                if term::term_lt(pivot@, a) {
                    term::term_order_is_transitive(pivot@, a, b);
                }
            },
        }
    }
}

impl TermMap {
    /// Returns the number of terms that stand before a place.
    pub fn partition_point(&self, pivot: &Pivot<'_>) -> (r: usize)
        requires
            ascending(self@),
        ensures
            r <= self@.len(),
            forall|i: int| 0 <= i < r ==> pivot.follows((#[trigger] self@[i]).0),
            forall|i: int| r <= i < self@.len() ==> !pivot.follows((#[trigger] self@[i]).0),
    {
        let mut low: usize = 0;
        let mut high: usize = self.entries.len();
        while low < high
            invariant
                ascending(self@),
                low <= high <= self.entries.len(),
                forall|i: int| 0 <= i < low ==> pivot.follows((#[trigger] self@[i]).0),
                forall|i: int| high <= i < self@.len() ==> !pivot.follows((#[trigger] self@[i]).0),
            decreases high - low,
        {
            let middle: usize = low + (high - low) / 2;
            let ghost probed = self@[middle as int].0;
            if pivot.is_behind(&self.entries[middle].0) {
                proof {
                    assert forall|i: int| 0 <= i < middle + 1 implies pivot.follows(
                        (#[trigger] self@[i]).0,
                    ) by {
                        if i < middle {
                            assert(term::term_lt(self@[i].0, self@[middle as int].0));
                            pivot.follows_what_comes_before(self@[i].0, probed);
                        }
                    }
                }
                low = middle + 1;
            } else {
                proof {
                    assert forall|i: int| middle <= i < self@.len() implies !pivot.follows(
                        (#[trigger] self@[i]).0,
                    ) by {
                        if middle < i && pivot.follows(self@[i].0) {
                            assert(term::term_lt(self@[middle as int].0, self@[i].0));
                            pivot.follows_what_comes_before(probed, self@[i].0);
                        }
                    }
                }
                high = middle;
            }
        }
        low
    }
}

} // verus!
