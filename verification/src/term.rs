//! Terms: the values of a field as the index orders and compares them.

use vstd::prelude::*;
use vstd::slice::slice_subrange;
use crate::bytes;
use crate::schema::{Field, Type};
use crate::text;

verus! {

/// The byte that ends the path of a JSON term.
pub const JSON_END_OF_PATH: u8 = 0;

/// A value of a field, encoded so that the byte order of the encodings is the order of the
/// values.
///
/// Terms are ordered by field, then by the code of the type, then by their bytes.
#[derive(Debug, PartialEq, Eq, Hash)]
pub struct Term {
    field: Field,
    typ: Type,
    value: Vec<u8>,
}

/// The contents of a [`Term`].
#[verifier::ext_equal]
pub struct TermView {
    /// The field that the term belongs to.
    pub field: Field,
    /// The type of the value.
    pub typ: Type,
    /// The encoded value.
    pub value: Seq<u8>,
}

impl View for Term {
    type V = TermView;

    closed spec fn view(&self) -> TermView {
        TermView { field: self.field, typ: self.typ, value: self.value@ }
    }
}

/// `a` comes before `b` in the order of terms.
pub open spec fn term_lt(a: TermView, b: TermView) -> bool {
    if a.field != b.field {
        a.field.0 < b.field.0
    } else if a.typ != b.typ {
        a.typ.spec_code() < b.typ.spec_code()
    } else {
        bytes::bytes_lt(a.value, b.value)
    }
}

/// The order of terms is a strict total order.
pub proof fn term_order_is_total(a: TermView, b: TermView)
    ensures
        !term_lt(a, a),
        a == b || term_lt(a, b) || term_lt(b, a),
        !(term_lt(a, b) && term_lt(b, a)),
{
    bytes::bytes_lt_irreflexive(a.value);
    bytes::bytes_lt_total(a.value, b.value);
    if bytes::bytes_lt(a.value, b.value) && bytes::bytes_lt(b.value, a.value) {
        bytes::bytes_lt_transitive(a.value, b.value, a.value);
    }
    if a.field == b.field && a.typ == b.typ && a.value == b.value {
        assert(a =~= b);
    }
}

/// The order of terms is transitive.
pub proof fn term_order_is_transitive(a: TermView, b: TermView, c: TermView)
    requires
        term_lt(a, b),
        term_lt(b, c),
    ensures
        term_lt(a, c),
{
    if a.field == b.field && b.field == c.field && a.typ == b.typ && b.typ == c.typ {
        bytes::bytes_lt_transitive(a.value, b.value, c.value);
    }
}

/// The number of bytes up to and with the end of the JSON path that begins `value`, `None`
/// where no path ends in it.
pub open spec fn json_path_len(value: Seq<u8>) -> Option<nat>
    decreases value.len(),
{
    if value.len() == 0 {
        None
    } else if value[0] == JSON_END_OF_PATH {
        Some(1)
    } else {
        match json_path_len(value.drop_first()) {
            Some(n) => Some(n + 1),
            None => None,
        }
    }
}

/// Where the bytes before position `n` hold no end of path, it is the rest that decides.
pub(crate) proof fn json_path_len_skips(value: Seq<u8>, n: int)
    requires
        0 <= n <= value.len(),
        forall|i: int| 0 <= i < n ==> value[i] != JSON_END_OF_PATH,
    ensures
        match json_path_len(value.skip(n)) {
            Some(m) => json_path_len(value) == Some((n + m) as nat),
            None => json_path_len(value) is None,
        },
    decreases n,
{
    if n == 0 {
        assert(value.skip(0) =~= value);
    } else {
        json_path_len_skips(value.drop_first(), n - 1);
        assert(value.drop_first().skip(n - 1) =~= value.skip(n));
    }
}

/// The path of a JSON path length is not empty and does not pass the end of the bytes.
pub proof fn json_path_len_is_bounded(value: Seq<u8>)
    ensures
        json_path_len(value) matches Some(n) ==> 1 <= n <= value.len() && value[n - 1]
            == JSON_END_OF_PATH,
    decreases value.len(),
{
    if value.len() > 0 {
        json_path_len_is_bounded(value.drop_first());
    }
}

/// The JSON path of a term with its end mark, and the value behind it; `None` for a term that is
/// not a JSON term, or whose path does not end.
pub open spec fn json_parts(term: TermView) -> Option<(Seq<u8>, Seq<u8>)> {
    if term.typ == Type::Json {
        match json_path_len(term.value) {
            Some(n) => Some((term.value.take(n as int), term.value.skip(n as int))),
            None => None,
        }
    } else {
        None
    }
}

/// The type of the value behind the JSON path of a term.
pub open spec fn json_value_type(term: TermView) -> Option<Type> {
    match json_parts(term) {
        Some((path, value)) => if value.len() > 0 {
            Type::spec_from_code(value[0])
        } else {
            None
        },
        None => None,
    }
}

/// The byte that stands for a byte of a path inside a term: the end mark itself is written as
/// the digit zero.
pub open spec fn path_byte(b: u8) -> u8 {
    if b == JSON_END_OF_PATH {
        48
    } else {
        b
    }
}

/// A list of numbers, separated by commas.
pub open spec fn number_list(bytes: Seq<u8>) -> Seq<char>
    decreases bytes.len(),
{
    if bytes.len() == 0 {
        Seq::empty()
    } else if bytes.len() == 1 {
        text::decimal(bytes[0] as nat)
    } else {
        number_list(bytes.drop_last()) + ", "@ + text::decimal(bytes.last() as nat)
    }
}

/// How a term is written in messages.
pub open spec fn term_text(term: TermView) -> Seq<char> {
    "Term(field="@ + text::decimal(term.field.0 as nat) + ", type="@ + term.typ.spec_name()
        + ", bytes=["@ + number_list(term.value) + "])"@
}

impl Clone for Term {
    fn clone(&self) -> (r: Term)
        ensures
            r@ == self@,
    {
        let value: Vec<u8> = bytes::copy_of(self.value.as_slice());
        Term { field: self.field, typ: self.typ, value }
    }
}

impl Term {
    /// A term of the given field and type without any bytes.
    pub fn with_type_and_field(typ: Type, field: Field) -> (r: Term)
        ensures
            r@ == (TermView { field, typ, value: Seq::empty() }),
    {
        let r = Term { field, typ, value: Vec::new() };
        assert(r@ =~= (TermView { field, typ, value: Seq::empty() }));
        r
    }

    /// A term of the given field and type with the given bytes.
    pub fn from_bytes(field: Field, typ: Type, bytes: &[u8]) -> (r: Term)
        ensures
            r@ == (TermView { field, typ, value: bytes@ }),
    {
        Term { field, typ, value: bytes::copy_of(bytes) }
    }

    /// The text term for `text`.
    pub fn from_field_text(field: Field, text: &str) -> (r: Term)
        ensures
            r@ == (TermView { field, typ: Type::Str, value: vstd::utf8::encode_utf8(text@) }),
    {
        Term::from_bytes(field, Type::Str, text.as_bytes())
    }

    /// The unsigned integer term for `number`, most significant byte first.
    pub fn from_field_u64(field: Field, number: u64) -> (r: Term)
        ensures
            r@.field == field,
            r@.typ == Type::U64,
            r@.value.len() == 8,
            forall|i: int|
                0 <= i < 8 ==> r@.value[i] == (number >> ((56 - 8 * i) as u64)) as u8,
    {
        let mut value: Vec<u8> = Vec::new();
        let mut i: u64 = 0;
        while i < 8
            invariant
                i <= 8,
                value.len() == i,
                forall|j: int|
                    0 <= j < i ==> value@[j] == (number >> ((56 - 8 * j) as u64)) as u8,
            decreases 8 - i,
        {
            let byte: u8 = (number >> (56 - 8 * i)) as u8;
            value.push(byte);
            i += 1;
        }
        Term { field, typ: Type::U64, value }
    }

    /// Returns the field that the term belongs to.
    pub fn field(&self) -> (r: Field)
        ensures
            r == self@.field,
    {
        self.field
    }

    /// Returns the type of the value.
    pub fn typ(&self) -> (r: Type)
        ensures
            r == self@.typ,
    {
        self.typ
    }

    /// Returns the encoded value.
    pub fn serialized_value_bytes(&self) -> (r: &[u8])
        ensures
            r@ == self@.value,
    {
        self.value.as_slice()
    }

    /// Appends bytes to the value.
    pub fn append_bytes(&mut self, bytes: &[u8])
        ensures
            final(self)@ == (TermView { value: old(self)@.value + bytes@, ..old(self)@ }),
    {
        bytes::append_all(&mut self.value, bytes);
    }

    /// Appends the bytes of a JSON path to the value. An end mark inside the path is written as
    /// the digit zero.
    pub fn append_path(&mut self, path: &[u8])
        ensures
            final(self)@ == (TermView {
                value: old(self)@.value + path@.map_values(|b: u8| path_byte(b)),
                ..old(self)@
            }),
    {
        let ghost start = self.value@;
        let ghost mapped = path@.map_values(|b: u8| path_byte(b));
        let mut i: usize = 0;
        assert(start + mapped.take(0) =~= start);
        while i < path.len()
            invariant
                i <= path.len(),
                mapped == path@.map_values(|b: u8| path_byte(b)),
                self.field == old(self).field,
                self.typ == old(self).typ,
                self.value@ == start + mapped.take(i as int),
            decreases path.len() - i,
        {
            let byte: u8 = if path[i] == JSON_END_OF_PATH {
                48
            } else {
                path[i]
            };
            self.value.push(byte);
            assert(start + mapped.take(i + 1) =~= (start + mapped.take(i as int)).push(
                path_byte(path@[i as int]),
            ));
            i += 1;
        }
        assert(mapped.take(path@.len() as int) =~= mapped);
    }

    /// Returns whether this term comes before `other`.
    pub fn less_than(&self, other: &Term) -> (r: bool)
        ensures
            r == term_lt(self@, other@),
    {
        if self.field != other.field {
            self.field.0 < other.field.0
        } else if self.typ != other.typ {
            self.typ.to_code() < other.typ.to_code()
        } else {
            bytes::bytes_less(self.value.as_slice(), other.value.as_slice())
        }
    }

    /// Returns whether this term and `other` are the same.
    pub fn same_as(&self, other: &Term) -> (r: bool)
        ensures
            r == (self@ == other@),
    {
        self.field == other.field && self.typ == other.typ && bytes::bytes_equal(
            self.value.as_slice(),
            other.value.as_slice(),
        )
    }

    /// Returns the JSON path with its end mark, and the value behind it.
    pub fn as_json(&self) -> (r: Option<(&[u8], &[u8])>)
        ensures
            match r {
                Some((path, value)) => json_parts(self@) == Some((path@, value@)),
                None => json_parts(self@) is None,
            },
    {
        if self.typ != Type::Json {
            return None;
        }
        let mut i: usize = 0;
        while i < self.value.len()
            invariant
                i <= self.value.len(),
                self.typ == Type::Json,
                forall|j: int| 0 <= j < i ==> self.value@[j] != JSON_END_OF_PATH,
            decreases self.value.len() - i,
        {
            if self.value[i] == JSON_END_OF_PATH {
                proof {
                    json_path_len_skips(self.value@, i as int);
                    assert(self.value@.skip(i as int)[0] == self.value@[i as int]);
                }
                let bytes = self.value.as_slice();
                let path = slice_subrange(bytes, 0, i + 1);
                let value = slice_subrange(bytes, i + 1, bytes.len());
                assert(path@ =~= self@.value.take(i + 1));
                assert(value@ =~= self@.value.skip(i + 1));
                return Some((path, value));
            }
            i += 1;
        }
        proof {
            json_path_len_skips(self.value@, i as int);
            assert(self.value@.skip(i as int).len() == 0);
        }
        None
    }

    /// Returns the type of the value behind the JSON path.
    pub fn json_value_type(&self) -> (r: Option<Type>)
        ensures
            r == json_value_type(self@),
    {
        match self.as_json() {
            Some((path, value)) => {
                if value.len() > 0 {
                    Type::from_code(value[0])
                } else {
                    None
                }
            },
            None => None,
        }
    }

    /// Renders the term for a message.
    pub fn text(&self) -> (r: String)
        ensures
            r@ == term_text(self@),
    {
        let mut s = "Term(field=".to_owned();
        s.append(text::decimal_text(self.field.0 as u64).as_str());
        s.append(", type=");
        s.append(self.typ.name());
        s.append(", bytes=[");
        let ghost head = s@;
        let mut i: usize = 0;
        assert(head + number_list(self.value@.take(0)) =~= head);
        while i < self.value.len()
            invariant
                i <= self.value.len(),
                s@ == head + number_list(self.value@.take(i as int)),
            decreases self.value.len() - i,
        {
            if i > 0 {
                s.append(", ");
            }
            s.append(text::decimal_text(self.value[i] as u64).as_str());
            let ghost shorter = self.value@.take(i as int);
            let ghost longer = self.value@.take(i + 1);
            assert(longer.drop_last() =~= shorter);
            assert(s@ =~= head + number_list(longer));
            i += 1;
        }
        assert(self.value@.take(i as int) =~= self.value@);
        s.append("])");
        assert(s@ =~= term_text(self@));
        s
    }
}

} // verus!
