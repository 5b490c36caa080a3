//! Byte strings: their lexicographic order, prefixes, and the end of a prefix range.

use vstd::prelude::*;

verus! {

/// `a` comes before `b` in the lexicographic order of byte strings.
pub open spec fn bytes_lt(a: Seq<u8>, b: Seq<u8>) -> bool
    decreases a.len(),
{
    if b.len() == 0 {
        false
    } else if a.len() == 0 {
        true
    } else if a[0] != b[0] {
        a[0] < b[0]
    } else {
        bytes_lt(a.drop_first(), b.drop_first())
    }
}

/// The lexicographic order is irreflexive.
pub proof fn bytes_lt_irreflexive(a: Seq<u8>)
    ensures
        !bytes_lt(a, a),
    decreases a.len(),
{
    if a.len() > 0 {
        bytes_lt_irreflexive(a.drop_first());
    }
}

/// The lexicographic order is transitive.
pub proof fn bytes_lt_transitive(a: Seq<u8>, b: Seq<u8>, c: Seq<u8>)
    requires
        bytes_lt(a, b),
        bytes_lt(b, c),
    ensures
        bytes_lt(a, c),
    decreases a.len(),
{
    if a.len() > 0 && a[0] == b[0] && b[0] == c[0] {
        bytes_lt_transitive(a.drop_first(), b.drop_first(), c.drop_first());
    }
}

/// Two byte strings are equal, or one of them comes before the other.
pub proof fn bytes_lt_total(a: Seq<u8>, b: Seq<u8>)
    ensures
        a == b || bytes_lt(a, b) || bytes_lt(b, a),
    decreases a.len(),
{
    if a.len() > 0 && b.len() > 0 && a[0] == b[0] {
        bytes_lt_total(a.drop_first(), b.drop_first());
        if a.drop_first() == b.drop_first() {
            assert(a =~= seq![a[0]] + a.drop_first());
            assert(b =~= seq![b[0]] + b.drop_first());
        }
    } else if a.len() == 0 && b.len() == 0 {
        assert(a =~= b);
    }
}

/// Dropping a common prefix does not change how two byte strings are ordered.
proof fn bytes_lt_skip_common(a: Seq<u8>, b: Seq<u8>, n: int)
    requires
        0 <= n <= a.len(),
        n <= b.len(),
        a.take(n) == b.take(n),
    ensures
        bytes_lt(a, b) == bytes_lt(a.skip(n), b.skip(n)),
    decreases n,
{
    if n == 0 {
        assert(a.skip(0) =~= a);
        assert(b.skip(0) =~= b);
    } else {
        assert(a[0] == a.take(n)[0] == b.take(n)[0] == b[0]);
        let x = a.drop_first();
        let y = b.drop_first();
        assert(x.take(n - 1) =~= a.take(n).drop_first());
        assert(y.take(n - 1) =~= b.take(n).drop_first());
        bytes_lt_skip_common(x, y, n - 1);
        assert(x.skip(n - 1) =~= a.skip(n));
        assert(y.skip(n - 1) =~= b.skip(n));
    }
}

/// Returns whether `a` comes before `b` in the lexicographic order.
pub fn bytes_less(a: &[u8], b: &[u8]) -> (r: bool)
    ensures
        r == bytes_lt(a@, b@),
{
    let mut i: usize = 0;
    while i < a.len() && i < b.len()
        invariant
            i <= a.len(),
            i <= b.len(),
            a@.take(i as int) == b@.take(i as int),
        decreases a.len() - i,
    {
        if a[i] != b[i] {
            proof {
                bytes_lt_skip_common(a@, b@, i as int);
            }
            return a[i] < b[i];
        }
        assert(a@.take(i + 1) =~= a@.take(i as int).push(a@[i as int]));
        assert(b@.take(i + 1) =~= b@.take(i as int).push(b@[i as int]));
        i += 1;
    }
    proof {
        bytes_lt_skip_common(a@, b@, i as int);
    }
    i < b.len()
}

/// Returns whether `a` and `b` hold the same bytes.
pub fn bytes_equal(a: &[u8], b: &[u8]) -> (r: bool)
    ensures
        r == (a@ == b@),
{
    if a.len() != b.len() {
        return false;
    }
    let mut i: usize = 0;
    while i < a.len()
        invariant
            i <= a.len(),
            a.len() == b.len(),
            forall|j: int| 0 <= j < i ==> a@[j] == b@[j],
        decreases a.len() - i,
    {
        if a[i] != b[i] {
            return false;
        }
        i += 1;
    }
    assert(a@ =~= b@);
    true
}

/// Returns whether `bytes` begins with `prefix`.
pub fn starts_with(bytes: &[u8], prefix: &[u8]) -> (r: bool)
    ensures
        r == prefix@.is_prefix_of(bytes@),
{
    if bytes.len() < prefix.len() {
        return false;
    }
    let mut i: usize = 0;
    while i < prefix.len()
        invariant
            i <= prefix.len(),
            prefix.len() <= bytes.len(),
            forall|j: int| 0 <= j < i ==> bytes@[j] == prefix@[j],
        decreases prefix.len() - i,
    {
        if bytes[i] != prefix[i] {
            assert(bytes@.subrange(0, prefix@.len() as int)[i as int] != prefix@[i as int]);
            return false;
        }
        i += 1;
    }
    assert(prefix@ =~= bytes@.subrange(0, prefix@.len() as int));
    true
}

/// Copies `bytes` to the end of `target`.
pub fn append_all(target: &mut Vec<u8>, bytes: &[u8])
    ensures
        final(target)@ == old(target)@ + bytes@,
{
    let ghost start = target@;
    let mut i: usize = 0;
    assert(start + bytes@.take(0) =~= start);
    while i < bytes.len()
        invariant
            i <= bytes.len(),
            target@ == start + bytes@.take(i as int),
        decreases bytes.len() - i,
    {
        target.push(bytes[i]);
        assert(start + bytes@.take(i + 1) =~= (start + bytes@.take(i as int)).push(
            bytes@[i as int],
        ));
        i += 1;
    }
    assert(bytes@.take(bytes@.len() as int) =~= bytes@);
}

/// Copies `bytes` into a new vector.
pub fn copy_of(bytes: &[u8]) -> (r: Vec<u8>)
    ensures
        r@ == bytes@,
{
    let mut r: Vec<u8> = Vec::new();
    append_all(&mut r, bytes);
    assert(r@ =~= bytes@);
    r
}

/// The least byte string that comes after every byte string beginning with `prefix`; `None`
/// where no byte string does.
pub open spec fn spec_prefix_end(prefix: Seq<u8>) -> Option<Seq<u8>>
    decreases prefix.len(),
{
    if prefix.len() == 0 {
        None
    } else {
        match spec_prefix_end(prefix.drop_first()) {
            Some(end) => Some(seq![prefix[0]] + end),
            None => if prefix[0] < 255 {
                Some(seq![(prefix[0] + 1) as u8])
            } else {
                None
            },
        }
    }
}

/// From `prefix` on, the byte strings that come before the end of its range are those that
/// begin with `prefix`.
pub proof fn prefix_range_is_exact(prefix: Seq<u8>, bytes: Seq<u8>)
    requires
        !bytes_lt(bytes, prefix),
    ensures
        match spec_prefix_end(prefix) {
            Some(end) => bytes_lt(bytes, end) <==> prefix.is_prefix_of(bytes),
            None => prefix.is_prefix_of(bytes),
        },
    decreases prefix.len(),
{
    reveal_with_fuel(spec_prefix_end, 2);
    reveal_with_fuel(bytes_lt, 2);
    if prefix.len() == 0 {
        assert(prefix =~= bytes.subrange(0, 0));
    } else {
        assert(bytes.len() > 0);
        let tail = prefix.drop_first();
        if bytes[0] == prefix[0] {
            prefix_range_is_exact(tail, bytes.drop_first());
            prefix_of_tail(prefix, bytes);
            if let Some(end) = spec_prefix_end(tail) {
                assert((seq![prefix[0]] + end).drop_first() =~= end);
            }
        } else {
            assert(prefix[0] < bytes[0]);
            if prefix.is_prefix_of(bytes) {
                assert(prefix[0] == bytes.subrange(0, prefix.len() as int)[0]);
            }
            if spec_prefix_end(tail) is None && prefix[0] < 255 {
                let end = seq![(prefix[0] + 1) as u8];
                if bytes[0] == end[0] {
                    assert(end.drop_first().len() == 0);
                }
            }
        }
    }
}

/// Where the first bytes agree, the rest decides whether one string is a prefix of the other.
proof fn prefix_of_tail(prefix: Seq<u8>, bytes: Seq<u8>)
    requires
        prefix.len() > 0,
        bytes.len() > 0,
        prefix[0] == bytes[0],
    ensures
        prefix.is_prefix_of(bytes) == prefix.drop_first().is_prefix_of(bytes.drop_first()),
{
    let n = prefix.len() as int;
    if prefix.is_prefix_of(bytes) {
        assert(prefix.drop_first() =~= bytes.drop_first().subrange(0, n - 1)) by {
            assert(prefix == bytes.subrange(0, n));
        }
    }
    if prefix.drop_first().is_prefix_of(bytes.drop_first()) {
        let x = prefix.drop_first();
        let y = bytes.drop_first();
        assert(x == y.subrange(0, n - 1));
        assert forall|i: int| 0 <= i < n implies prefix[i] == bytes.subrange(0, n)[i] by {
            if i > 0 {
                assert(x[i - 1] == y.subrange(0, n - 1)[i - 1]);
            }
        }
        assert(prefix =~= bytes.subrange(0, n));
    }
}

/// A byte string does not come before what it begins with.
pub proof fn prefix_is_not_behind(prefix: Seq<u8>, bytes: Seq<u8>)
    requires
        prefix.is_prefix_of(bytes),
    ensures
        !bytes_lt(bytes, prefix),
    decreases prefix.len(),
{
    if prefix.len() > 0 {
        assert(prefix[0] == bytes.subrange(0, prefix.len() as int)[0]);
        prefix_of_tail(prefix, bytes);
        prefix_is_not_behind(prefix.drop_first(), bytes.drop_first());
    }
}

/// A trailing byte of the greatest value does not change the end of a prefix range.
proof fn prefix_end_of_greatest_last(prefix: Seq<u8>)
    requires
        prefix.len() > 0,
        prefix.last() == 255,
    ensures
        spec_prefix_end(prefix) == spec_prefix_end(prefix.drop_last()),
    decreases prefix.len(),
{
    reveal_with_fuel(spec_prefix_end, 2);
    if prefix.len() > 1 {
        prefix_end_of_greatest_last(prefix.drop_first());
        assert(prefix.drop_first().drop_last() =~= prefix.drop_last().drop_first());
    } else {
        assert(prefix.drop_first().len() == 0);
    }
}

/// Any other last byte is counted up.
proof fn prefix_end_of_other_last(prefix: Seq<u8>)
    requires
        prefix.len() > 0,
        prefix.last() < 255,
    ensures
        spec_prefix_end(prefix) == Some(
            prefix.update(prefix.len() - 1, (prefix.last() + 1) as u8),
        ),
    decreases prefix.len(),
{
    reveal_with_fuel(spec_prefix_end, 2);
    let counted = prefix.update(prefix.len() - 1, (prefix.last() + 1) as u8);
    let tail = prefix.drop_first();
    if prefix.len() > 1 {
        prefix_end_of_other_last(tail);
        assert(seq![prefix[0]] + tail.update(tail.len() - 1, (tail.last() + 1) as u8) =~= counted);
    } else {
        assert(tail.len() == 0);
        assert(seq![(prefix[0] + 1) as u8] =~= counted);
    }
}

/// Returns the least byte string that comes after every byte string beginning with `prefix`.
pub fn prefix_end(prefix: &[u8]) -> (r: Option<Vec<u8>>)
    ensures
        match r {
            Some(end) => spec_prefix_end(prefix@) == Some(end@),
            None => spec_prefix_end(prefix@) is None,
        },
{
    let mut end: Vec<u8> = copy_of(prefix);
    while end.len() > 0
        invariant
            spec_prefix_end(end@) == spec_prefix_end(prefix@),
        decreases end.len(),
    {
        let last: usize = end.len() - 1;
        if end[last] == 255 {
            proof {
                prefix_end_of_greatest_last(end@);
            }
            let ghost before = end@;
            end.pop();
            assert(end@ =~= before.drop_last());
        } else {
            proof {
                prefix_end_of_other_last(end@);
            }
            let next: u8 = end[last] + 1;
            end.set(last, next);
            return Some(end);
        }
    }
    None
}

} // verus!
