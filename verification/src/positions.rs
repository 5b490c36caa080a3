//! Lists of token positions: sorting, and what sorted lists have in common.

use vstd::prelude::*;
use vstd::multiset::Multiset;
use vstd::slice::slice_subrange;

verus! {

/// The positions come in ascending order.
pub open spec fn sorted(positions: Seq<u32>) -> bool {
    forall|i: int, j: int| 0 <= i <= j < positions.len() ==> positions[i] <= positions[j]
}

/// The positions that two lists have in common. One that occurs in both more than once is in
/// common as often as it occurs in each of them.
pub open spec fn shared(a: Seq<u32>, b: Seq<u32>) -> Multiset<u32> {
    a.to_multiset().intersection_with(b.to_multiset())
}

/// The positions that all the lists have in common; there has to be one list.
pub open spec fn shared_by_all(lists: Seq<Seq<u32>>) -> Multiset<u32>
    decreases lists.len(),
{
    if lists.len() <= 1 {
        lists[0].to_multiset()
    } else {
        shared_by_all(lists.drop_last()).intersection_with(lists.last().to_multiset())
    }
}

/// The lists of a list of lists.
pub open spec fn list_views(lists: Seq<Vec<u32>>) -> Seq<Seq<u32>> {
    lists.map_values(|list: Vec<u32>| list@)
}

/// What is left of a list behind its first position.
proof fn multiset_of_rest(s: Seq<u32>, i: int)
    requires
        0 <= i < s.len(),
    ensures
        s.skip(i).to_multiset() == s.skip(i + 1).to_multiset().insert(s[i]),
        s.skip(i).to_multiset().count(s[i]) == s.skip(i + 1).to_multiset().count(s[i]) + 1,
        forall|v: u32|
            v != s[i] ==> s.skip(i).to_multiset().count(v) == #[trigger] s.skip(
                i + 1,
            ).to_multiset().count(v),
{
    broadcast use vstd::seq_lib::group_to_multiset_ensures;

    let rest = s.skip(i);
    assert(rest.remove(0) =~= s.skip(i + 1));
    assert(rest.to_multiset().contains(rest[0]));
    assert(s.skip(i + 1).to_multiset() =~= rest.to_multiset().remove(s[i]));
    assert(rest.to_multiset() =~= s.skip(i + 1).to_multiset().insert(s[i]));
}

/// From a sorted list on, a lesser position does not occur.
proof fn lesser_is_absent(s: Seq<u32>, i: int, v: u32)
    requires
        sorted(s),
        0 <= i <= s.len(),
        i < s.len() ==> v < s[i],
    ensures
        s.skip(i).to_multiset().count(v) == 0,
{
    broadcast use vstd::seq_lib::group_to_multiset_ensures;

    assert forall|j: int| 0 <= j < s.skip(i).len() implies s.skip(i)[j] != v by {
        assert(s.skip(i)[j] == s[i + j]);
        assert(s[i] <= s[i + j]);
    }
    assert(!s.skip(i).contains(v));
}

/// Nothing is left behind the end of a list.
proof fn multiset_of_end(s: Seq<u32>)
    ensures
        s.skip(s.len() as int).to_multiset() == Multiset::<u32>::empty(),
        s.skip(0) == s,
{
    broadcast use vstd::seq_lib::group_to_multiset_ensures;

    assert(s.skip(s.len() as int) =~= Seq::empty());
    assert(s.skip(0) =~= s);
    assert forall|v: u32| #[trigger]
        s.skip(s.len() as int).to_multiset().count(v) == 0 by {
        assert(!s.skip(s.len() as int).contains(v));
    }
    assert(s.skip(s.len() as int).to_multiset() =~= Multiset::empty());
}

/// Returns the positions that two sorted lists have in common, sorted.
pub fn intersection(a: &[u32], b: &[u32]) -> (r: Vec<u32>)
    requires
        sorted(a@),
        sorted(b@),
    ensures
        sorted(r@),
        r@.to_multiset() == shared(a@, b@),
        r@.len() <= a@.len(),
{
    let mut r: Vec<u32> = Vec::new();
    let mut i: usize = 0;
    let mut j: usize = 0;
    proof {
        multiset_of_end(a@);
        multiset_of_end(b@);
        multiset_of_end(r@);
        assert(r@ =~= r@.skip(r@.len() as int));
    }
    while i < a.len() && j < b.len()
        invariant
            sorted(a@),
            sorted(b@),
            i <= a.len(),
            j <= b.len(),
            sorted(r@),
            r@.len() <= i,
            forall|k: int| #![trigger r@[k]]
                0 <= k < r@.len() ==> (i < a.len() ==> r@[k] <= a@[i as int]) && (j < b.len()
                    ==> r@[k] <= b@[j as int]),
            forall|v: u32| #[trigger]
                r@.to_multiset().count(v) + vstd::math::min(
                    a@.skip(i as int).to_multiset().count(v) as int,
                    b@.skip(j as int).to_multiset().count(v) as int,
                ) == vstd::math::min(
                    a@.to_multiset().count(v) as int,
                    b@.to_multiset().count(v) as int,
                ),
        decreases a.len() - i + b.len() - j,
    {
        broadcast use vstd::seq_lib::group_to_multiset_ensures;

        let x: u32 = a[i];
        let y: u32 = b[j];
        proof {
            multiset_of_rest(a@, i as int);
            multiset_of_rest(b@, j as int);
        }
        if x < y {
            proof {
                lesser_is_absent(b@, j as int, x);
            }
            i += 1;
        } else if y < x {
            proof {
                lesser_is_absent(a@, i as int, y);
            }
            j += 1;
        } else {
            let ghost before = r@;
            r.push(x);
            assert(r@.to_multiset() == before.to_multiset().insert(x));
            i += 1;
            j += 1;
        }
    }
    proof {
        multiset_of_end(a@);
        multiset_of_end(b@);
        assert forall|v: u32| #[trigger]
            r@.to_multiset().count(v) == shared(a@, b@).count(v) by {
            broadcast use vstd::multiset::lemma_intersection_count;

        }
        assert(r@.to_multiset() =~= shared(a@, b@));
    }
    r
}

/// Returns how many positions two sorted lists have in common.
pub fn intersection_count(a: &[u32], b: &[u32]) -> (r: usize)
    requires
        sorted(a@),
        sorted(b@),
    ensures
        r == shared(a@, b@).len(),
{
    let common = intersection(a, b);
    proof {
        broadcast use vstd::seq_lib::group_to_multiset_ensures;

    }
    common.len()
}

/// Returns the positions that all of the sorted lists have in common, sorted.
pub fn intersection_of_all(lists: &[Vec<u32>]) -> (r: Vec<u32>)
    requires
        lists@.len() > 0,
        forall|i: int| 0 <= i < lists@.len() ==> sorted((#[trigger] lists@[i])@),
    ensures
        sorted(r@),
        r@.to_multiset() == shared_by_all(list_views(lists@)),
        r@.len() <= lists@[0]@.len(),
{
    let ghost views = list_views(lists@);
    let mut r: Vec<u32> = copy_of(lists[0].as_slice());
    let mut i: usize = 1;
    assert(views.take(1)[0] == lists@[0]@);
    while i < lists.len()
        invariant
            1 <= i <= lists.len(),
            forall|k: int| 0 <= k < lists@.len() ==> sorted((#[trigger] lists@[k])@),
            views == list_views(lists@),
            sorted(r@),
            r@.to_multiset() == shared_by_all(views.take(i as int)),
            r@.len() <= lists@[0]@.len(),
        decreases lists.len() - i,
    {
        assert(views.take(i + 1).drop_last() =~= views.take(i as int));
        assert(views.take(i + 1).last() == lists@[i as int]@);
        r = intersection(r.as_slice(), lists[i].as_slice());
        i += 1;
    }
    assert(views.take(i as int) =~= views);
    r
}

/// Copies a list of positions.
pub fn copy_of(positions: &[u32]) -> (r: Vec<u32>)
    ensures
        r@ == positions@,
{
    let mut r: Vec<u32> = Vec::new();
    append_all(&mut r, positions);
    assert(r@ =~= positions@);
    r
}

/// Copies `positions` to the end of `target`.
pub fn append_all(target: &mut Vec<u32>, positions: &[u32])
    ensures
        final(target)@ == old(target)@ + positions@,
{
    let ghost start = target@;
    let mut i: usize = 0;
    assert(start + positions@.take(0) =~= start);
    while i < positions.len()
        invariant
            i <= positions.len(),
            target@ == start + positions@.take(i as int),
        decreases positions.len() - i,
    {
        target.push(positions[i]);
        assert(start + positions@.take(i + 1) =~= (start + positions@.take(i as int)).push(
            positions@[i as int],
        ));
        i += 1;
    }
    assert(positions@.take(positions@.len() as int) =~= positions@);
}

/// Returns whether the positions come in ascending order.
pub fn is_sorted(positions: &[u32]) -> (r: bool)
    ensures
        r == sorted(positions@),
{
    let mut i: usize = 1;
    while i < positions.len()
        invariant
            1 <= i,
            i <= positions.len() || positions.len() == 0,
            forall|j: int, k: int|
                0 <= j <= k < i && k < positions@.len() ==> positions@[j] <= positions@[k],
        decreases positions.len() - i,
    {
        if positions[i - 1] > positions[i] {
            return false;
        }
        i += 1;
    }
    true
}

/// Merges two sorted lists into one.
fn merge(a: &[u32], b: &[u32]) -> (r: Vec<u32>)
    requires
        sorted(a@),
        sorted(b@),
    ensures
        sorted(r@),
        r@.to_multiset() == a@.to_multiset().add(b@.to_multiset()),
{
    let mut r: Vec<u32> = Vec::new();
    let mut i: usize = 0;
    let mut j: usize = 0;
    proof {
        multiset_of_end(a@);
        multiset_of_end(b@);
        multiset_of_end(r@);
        assert(r@ =~= r@.skip(r@.len() as int));
        assert(r@.to_multiset().add(
            a@.skip(0).to_multiset().add(b@.skip(0).to_multiset()),
        ) =~= a@.to_multiset().add(b@.to_multiset()));
    }
    while i < a.len() || j < b.len()
        invariant
            sorted(a@),
            sorted(b@),
            i <= a.len(),
            j <= b.len(),
            sorted(r@),
            forall|k: int| #![trigger r@[k]]
                0 <= k < r@.len() ==> (i < a.len() ==> r@[k] <= a@[i as int]) && (j < b.len()
                    ==> r@[k] <= b@[j as int]),
            r@.to_multiset().add(
                a@.skip(i as int).to_multiset().add(b@.skip(j as int).to_multiset()),
            ) == a@.to_multiset().add(b@.to_multiset()),
        decreases a.len() - i + b.len() - j,
    {
        broadcast use vstd::seq_lib::group_to_multiset_ensures;

        let ghost before = r@;
        if j == b.len() || (i < a.len() && a[i] <= b[j]) {
            proof {
                multiset_of_rest(a@, i as int);
            }
            r.push(a[i]);
            i += 1;
        } else {
            proof {
                multiset_of_rest(b@, j as int);
            }
            r.push(b[j]);
            j += 1;
        }
        assert(r@.to_multiset() == before.to_multiset().insert(r@.last()));
        assert(r@.to_multiset().add(
            a@.skip(i as int).to_multiset().add(b@.skip(j as int).to_multiset()),
        ) =~= a@.to_multiset().add(b@.to_multiset()));
    }
    proof {
        multiset_of_end(a@);
        multiset_of_end(b@);
        assert(r@.to_multiset() =~= a@.to_multiset().add(b@.to_multiset()));
    }
    r
}

/// Returns the positions in ascending order.
pub fn sorted_copy(positions: &[u32]) -> (r: Vec<u32>)
    ensures
        sorted(r@),
        r@.to_multiset() == positions@.to_multiset(),
    decreases positions@.len(),
{
    if positions.len() <= 1 {
        return copy_of(positions);
    }
    let middle: usize = positions.len() / 2;
    let low = slice_subrange(positions, 0, middle);
    let high = slice_subrange(positions, middle, positions.len());
    let low_sorted = sorted_copy(low);
    let high_sorted = sorted_copy(high);
    let r = merge(low_sorted.as_slice(), high_sorted.as_slice());
    proof {
        assert(low@ + high@ =~= positions@);
        vstd::seq_lib::lemma_multiset_commutative(low@, high@);
    }
    r
}

/// A position is common to two lists exactly where it occurs in both.
pub proof fn shared_is_membership(a: Seq<u32>, b: Seq<u32>, position: u32)
    ensures
        shared(a, b).contains(position) <==> a.contains(position) && b.contains(position),
{
    broadcast use {
        vstd::seq_lib::group_to_multiset_ensures,
        vstd::multiset::lemma_intersection_count,
    };

}

} // verus!
