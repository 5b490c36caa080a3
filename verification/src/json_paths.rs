//! The paths of JSON values, numbered while a document is indexed.

use vstd::prelude::*;
use crate::bytes;

verus! {

/// The contents of a list of paths.
pub open spec fn path_views(paths: Seq<String>) -> Seq<Seq<char>> {
    paths.map_values(|path: String| path@)
}

/// The index of the first path that is equal to `path`, or the number of paths where none is.
pub open spec fn first_index(paths: Seq<Seq<char>>, path: Seq<char>) -> nat
    decreases paths.len(),
{
    if paths.len() == 0 || paths[0] == path {
        0
    } else {
        first_index(paths.drop_first(), path) + 1
    }
}

/// The paths with `path` among them.
pub open spec fn with_path(paths: Seq<Seq<char>>, path: Seq<char>) -> Seq<Seq<char>> {
    if first_index(paths, path) < paths.len() {
        paths
    } else {
        paths.push(path)
    }
}

/// The index of a path is the first one at which it stands.
pub proof fn first_index_is_first(paths: Seq<Seq<char>>, path: Seq<char>)
    ensures
        first_index(paths, path) <= paths.len(),
        first_index(paths, path) < paths.len() ==> paths[first_index(paths, path) as int] == path,
        forall|i: int| 0 <= i < first_index(paths, path) ==> #[trigger] paths[i] != path,
    decreases paths.len(),
{
    if paths.len() > 0 && paths[0] != path {
        let rest = paths.drop_first();
        first_index_is_first(rest, path);
        assert forall|i: int| 0 <= i < first_index(paths, path) implies #[trigger] paths[i]
            != path by {
            if i > 0 {
                assert(rest[i - 1] == paths[i]);
            }
        }
    }
}

/// A position with the path, and without it before, is its index.
proof fn first_index_found(paths: Seq<Seq<char>>, path: Seq<char>, n: int)
    requires
        0 <= n <= paths.len(),
        forall|i: int| 0 <= i < n ==> #[trigger] paths[i] != path,
        n < paths.len() ==> paths[n] == path,
    ensures
        first_index(paths, path) == n,
{
    first_index_is_first(paths, path);
    let found = first_index(paths, path) as int;
    if found < n {
        assert(paths[found] != path);
    }
}

/// The number under which a path is known, most significant byte first.
pub open spec fn id_bytes(id: u32) -> Seq<u8> {
    seq![
        (id / 16777216) as u8,
        (id / 65536 % 256) as u8,
        (id / 256 % 256) as u8,
        (id % 256) as u8,
    ]
}

/// The number that four bytes stand for.
pub open spec fn id_of(bytes: Seq<u8>) -> nat {
    (bytes[0] * 16777216 + bytes[1] * 65536 + bytes[2] * 256 + bytes[3]) as nat
}

/// A number is read back from its bytes.
pub proof fn id_round_trip(id: u32)
    ensures
        id_of(id_bytes(id)) == id,
{
}

/// Returns the number that the first four bytes stand for.
pub fn read_id(bytes: &[u8]) -> (r: u32)
    requires
        bytes@.len() >= 4,
    ensures
        r == id_of(bytes@),
{
    bytes[0] as u32 * 16777216 + bytes[1] as u32 * 65536 + bytes[2] as u32 * 256 + bytes[3] as u32
}

/// Appends the bytes of a number.
pub fn append_id(target: &mut Vec<u8>, id: u32)
    ensures
        final(target)@ == old(target)@ + id_bytes(id),
{
    let ghost before = target@;
    target.push((id / 16777216) as u8);
    target.push((id / 65536 % 256) as u8);
    target.push((id / 256 % 256) as u8);
    target.push((id % 256) as u8);
    assert(target@ =~= before + id_bytes(id));
}

/// Numbers paths in the order in which they first occur.
pub struct PathToUnorderedId {
    paths: Vec<String>,
}

impl View for PathToUnorderedId {
    type V = Seq<Seq<char>>;

    closed spec fn view(&self) -> Seq<Seq<char>> {
        path_views(self.paths@)
    }
}

/// Numbers that count up from zero.
pub open spec fn counting_ids(n: nat) -> Seq<u32> {
    Seq::new(n, |i: int| i as u32)
}

impl PathToUnorderedId {
    /// No paths.
    pub fn new() -> (r: PathToUnorderedId)
        ensures
            r@ == Seq::<Seq<char>>::empty(),
    {
        let r = PathToUnorderedId { paths: Vec::new() };
        assert(r@ =~= Seq::empty());
        r
    }

    /// Returns the number of paths.
    pub fn len(&self) -> (r: usize)
        ensures
            r == self@.len(),
    {
        self.paths.len()
    }

    /// Returns the index of a path, which is added if it is new.
    pub fn get_or_allocate_unordered_id(&mut self, path: &str) -> (r: usize)
        ensures
            final(self)@ == with_path(old(self)@, path@),
            r == first_index(old(self)@, path@),
    {
        let ghost before = self@;
        let mut i: usize = 0;
        while i < self.paths.len()
            invariant
                i <= self.paths.len(),
                before == self@,
                forall|j: int| 0 <= j < i ==> #[trigger] before[j] != path@,
            decreases self.paths.len() - i,
        {
            if bytes::bytes_equal(self.paths[i].as_str().as_bytes(), path.as_bytes()) {
                proof {
                    vstd::utf8::encode_utf8_decode_utf8(path@);
                    vstd::utf8::encode_utf8_decode_utf8(self.paths@[i as int]@);
                    assert(before[i as int] == path@);
                    first_index_found(before, path@, i as int);
                }
                return i;
            }
            assert(before[i as int] == self.paths@[i as int]@);
            i += 1;
        }
        proof {
            first_index_found(before, path@, i as int);
        }
        self.paths.push(path.to_owned());
        assert(self@ =~= before.push(path@));
        i
    }

    /// Returns the place of each path in [`Self::ordered_id_to_path`], by its index.
    pub fn unordered_id_to_ordered_id(&self) -> (r: Vec<u32>)
        ensures
            r@ == counting_ids(self@.len()),
    {
        let mut r: Vec<u32> = Vec::new();
        let mut i: usize = 0;
        while i < self.paths.len()
            invariant
                i <= self.paths.len(),
                r@ == counting_ids(i as nat),
            decreases self.paths.len() - i,
        {
            r.push(i as u32);
            i += 1;
            assert(r@ =~= counting_ids(i as nat));
        }
        r
    }

    /// Returns the paths.
    pub fn ordered_id_to_path(&self) -> (r: &[String])
        ensures
            path_views(r@) == self@,
    {
        self.paths.as_slice()
    }
}

} // verus!
