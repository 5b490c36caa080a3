//! Fields, value types and the schema that says how each field is indexed.

use vstd::prelude::*;

verus! {

/// A field of a schema, identified by its position in the schema.
#[derive(Clone, Copy, Debug, PartialEq, Eq, Hash, Structural)]
pub struct Field(pub u32);

impl Field {
    /// The field at position `field_id` of its schema.
    pub fn from_field_id(field_id: u32) -> (r: Field)
        ensures
            r == Field(field_id),
    {
        Field(field_id)
    }

    /// The position of this field in its schema.
    pub fn field_id(&self) -> (r: u32)
        ensures
            r == self.0,
    {
        self.0
    }
}

/// The type of the values of a field, or of a value inside a JSON object.
#[derive(Clone, Copy, Debug, PartialEq, Eq, Hash, Structural)]
pub enum Type {
    /// Text.
    Str,
    /// Unsigned integers.
    U64,
    /// Signed integers.
    I64,
    /// Floating point numbers.
    F64,
    /// Booleans.
    Bool,
    /// Dates.
    Date,
    /// Facets.
    Facet,
    /// Byte strings.
    Bytes,
    /// JSON objects.
    Json,
    /// IP addresses.
    IpAddr,
}

impl Type {
    /// The byte that stands for this type in an encoded term.
    pub open spec fn spec_code(self) -> u8 {
        match self {
            Type::Str => 115,
            Type::U64 => 117,
            Type::I64 => 105,
            Type::F64 => 102,
            Type::Bool => 111,
            Type::Date => 100,
            Type::Facet => 104,
            Type::Bytes => 98,
            Type::Json => 106,
            Type::IpAddr => 112,
        }
    }

    /// The type that a code byte stands for.
    pub open spec fn spec_from_code(code: u8) -> Option<Type> {
        if code == 115 {
            Some(Type::Str)
        } else if code == 117 {
            Some(Type::U64)
        } else if code == 105 {
            Some(Type::I64)
        } else if code == 102 {
            Some(Type::F64)
        } else if code == 111 {
            Some(Type::Bool)
        } else if code == 100 {
            Some(Type::Date)
        } else if code == 104 {
            Some(Type::Facet)
        } else if code == 98 {
            Some(Type::Bytes)
        } else if code == 106 {
            Some(Type::Json)
        } else if code == 112 {
            Some(Type::IpAddr)
        } else {
            None
        }
    }

    /// The name of the variant.
    pub open spec fn spec_name(self) -> Seq<char> {
        match self {
            Type::Str => "Str"@,
            Type::U64 => "U64"@,
            Type::I64 => "I64"@,
            Type::F64 => "F64"@,
            Type::Bool => "Bool"@,
            Type::Date => "Date"@,
            Type::Facet => "Facet"@,
            Type::Bytes => "Bytes"@,
            Type::Json => "Json"@,
            Type::IpAddr => "IpAddr"@,
        }
    }

    /// Returns the byte that stands for this type in an encoded term.
    pub fn to_code(&self) -> (r: u8)
        ensures
            r == self.spec_code(),
    {
        match self {
            Type::Str => 115,
            Type::U64 => 117,
            Type::I64 => 105,
            Type::F64 => 102,
            Type::Bool => 111,
            Type::Date => 100,
            Type::Facet => 104,
            Type::Bytes => 98,
            Type::Json => 106,
            Type::IpAddr => 112,
        }
    }

    /// Returns the type that `code` stands for, `None` where it stands for none.
    pub fn from_code(code: u8) -> (r: Option<Type>)
        ensures
            r == Type::spec_from_code(code),
    {
        match code {
            115 => Some(Type::Str),
            117 => Some(Type::U64),
            105 => Some(Type::I64),
            102 => Some(Type::F64),
            111 => Some(Type::Bool),
            100 => Some(Type::Date),
            104 => Some(Type::Facet),
            98 => Some(Type::Bytes),
            106 => Some(Type::Json),
            112 => Some(Type::IpAddr),
            _ => None,
        }
    }

    /// Returns the name of the variant.
    pub fn name(&self) -> (r: &'static str)
        ensures
            r@ == self.spec_name(),
    {
        match self {
            Type::Str => "Str",
            Type::U64 => "U64",
            Type::I64 => "I64",
            Type::F64 => "F64",
            Type::Bool => "Bool",
            Type::Date => "Date",
            Type::Facet => "Facet",
            Type::Bytes => "Bytes",
            Type::Json => "Json",
            Type::IpAddr => "IpAddr",
        }
    }
}

/// Reading the code of a type gives the type back, and no other byte gives it.
pub proof fn type_code_round_trip(typ: Type, code: u8)
    ensures
        Type::spec_from_code(code) == Some(typ) <==> code == typ.spec_code(),
{
}

/// The code of a type is the byte of a letter.
pub proof fn type_codes_are_letters(typ: Type)
    ensures
        typ.spec_code() as char == match typ {
            Type::Str => 's',
            Type::U64 => 'u',
            Type::I64 => 'i',
            Type::F64 => 'f',
            Type::Bool => 'o',
            Type::Date => 'd',
            Type::Facet => 'h',
            Type::Bytes => 'b',
            Type::Json => 'j',
            Type::IpAddr => 'p',
        },
{
}

/// What the postings of a field record of each occurrence of a term.
#[derive(Clone, Copy, Debug, PartialEq, Eq, Hash, Structural)]
pub enum IndexRecordOption {
    /// Only which documents hold the term.
    Basic,
    /// Also how often.
    WithFreqs,
    /// Also at which positions.
    WithFreqsAndPositions,
}

impl IndexRecordOption {
    /// How much is recorded, as a number that grows with it.
    pub open spec fn level(self) -> nat {
        match self {
            IndexRecordOption::Basic => 0,
            IndexRecordOption::WithFreqs => 1,
            IndexRecordOption::WithFreqsAndPositions => 2,
        }
    }

    /// The lower of the two record levels.
    pub open spec fn lower(self, other: IndexRecordOption) -> IndexRecordOption {
        if self.level() <= other.level() {
            self
        } else {
            other
        }
    }

    /// Returns whether term frequencies are recorded.
    pub fn has_freq(self) -> (r: bool)
        ensures
            r == (self.level() >= 1),
    {
        match self {
            IndexRecordOption::Basic => false,
            IndexRecordOption::WithFreqs => true,
            IndexRecordOption::WithFreqsAndPositions => true,
        }
    }

    /// Returns whether positions are recorded.
    pub fn has_positions(self) -> (r: bool)
        ensures
            r == (self == IndexRecordOption::WithFreqsAndPositions),
    {
        match self {
            IndexRecordOption::Basic => false,
            IndexRecordOption::WithFreqs => false,
            IndexRecordOption::WithFreqsAndPositions => true,
        }
    }

    /// Downgrades to the next level if provided a record option with fewer details.
    pub fn downgrade(self, other: IndexRecordOption) -> (r: IndexRecordOption)
        ensures
            r == self.lower(other),
    {
        match (self, other) {
            (IndexRecordOption::Basic, _) => IndexRecordOption::Basic,
            (_, IndexRecordOption::Basic) => IndexRecordOption::Basic,
            (IndexRecordOption::WithFreqs, _) => IndexRecordOption::WithFreqs,
            (_, IndexRecordOption::WithFreqs) => IndexRecordOption::WithFreqs,
            _ => IndexRecordOption::WithFreqsAndPositions,
        }
    }
}

/// The type of a field together with how it is indexed.
#[derive(Debug)]
pub struct FieldType {
    /// The type of the values.
    pub value_type: Type,
    /// What the postings record, `None` where the field is not indexed.
    pub record_option: Option<IndexRecordOption>,
    /// Whether a fieldnorm is stored for each document.
    pub fieldnorms: bool,
    /// The name of the tokenizer that splits the text of the field.
    pub tokenizer: Option<String>,
}

/// The contents of a [`FieldType`].
pub struct FieldTypeView {
    /// The type of the values.
    pub value_type: Type,
    /// What the postings record.
    pub record_option: Option<IndexRecordOption>,
    /// Whether a fieldnorm is stored.
    pub fieldnorms: bool,
    /// The name of the tokenizer.
    pub tokenizer: Option<Seq<char>>,
}

impl View for FieldType {
    type V = FieldTypeView;

    open spec fn view(&self) -> FieldTypeView {
        FieldTypeView {
            value_type: self.value_type,
            record_option: self.record_option,
            fieldnorms: self.fieldnorms,
            tokenizer: match self.tokenizer {
                Some(name) => Some(name@),
                None => None,
            },
        }
    }
}

impl Clone for FieldType {
    fn clone(&self) -> (r: FieldType)
        ensures
            r@ == self@,
    {
        FieldType {
            value_type: self.value_type,
            record_option: self.record_option,
            fieldnorms: self.fieldnorms,
            tokenizer: match &self.tokenizer {
                Some(name) => Some(name.as_str().to_owned()),
                None => None,
            },
        }
    }
}

impl FieldType {
    /// Returns what the postings of the field record, `None` where it is not indexed.
    pub fn index_record_option(&self) -> (r: Option<IndexRecordOption>)
        ensures
            r == self@.record_option,
    {
        self.record_option
    }

    /// Returns the type of the values of the field.
    pub fn value_type(&self) -> (r: Type)
        ensures
            r == self@.value_type,
    {
        self.value_type
    }
}

/// A named field of a schema.
#[derive(Debug)]
pub struct FieldEntry {
    name: String,
    field_type: FieldType,
}

/// The contents of a [`FieldEntry`].
pub struct FieldEntryView {
    /// The name of the field.
    pub name: Seq<char>,
    /// The type of the field and how it is indexed.
    pub field_type: FieldTypeView,
}

impl View for FieldEntry {
    type V = FieldEntryView;

    closed spec fn view(&self) -> FieldEntryView {
        FieldEntryView { name: self.name@, field_type: self.field_type@ }
    }
}

impl Clone for FieldEntry {
    fn clone(&self) -> (r: FieldEntry)
        ensures
            r@ == self@,
    {
        FieldEntry { name: self.name.as_str().to_owned(), field_type: self.field_type.clone() }
    }
}

impl FieldEntry {
    /// Returns the name of the field.
    pub fn name(&self) -> (r: &str)
        ensures
            r@ == self@.name,
    {
        self.name.as_str()
    }

    /// Returns the type of the field.
    pub fn field_type(&self) -> (r: &FieldType)
        ensures
            r@ == self@.field_type,
    {
        &self.field_type
    }

    /// Returns whether a fieldnorm is stored for each document.
    pub fn has_fieldnorms(&self) -> (r: bool)
        ensures
            r == self@.field_type.fieldnorms,
    {
        self.field_type.fieldnorms
    }
}

/// The fields of an index.
#[derive(Debug)]
pub struct Schema {
    entries: Vec<FieldEntry>,
}

impl View for Schema {
    type V = Seq<FieldEntryView>;

    closed spec fn view(&self) -> Seq<FieldEntryView> {
        self.entries@.map_values(|entry: FieldEntry| entry@)
    }
}

impl Clone for Schema {
    fn clone(&self) -> (r: Schema)
        ensures
            r@ == self@,
    {
        let mut entries: Vec<FieldEntry> = Vec::new();
        let mut i: usize = 0;
        while i < self.entries.len()
            invariant
                i <= self.entries.len(),
                entries@.len() == i,
                forall|j: int| 0 <= j < i ==> (#[trigger] entries@[j])@ == self.entries@[j]@,
            decreases self.entries.len() - i,
        {
            entries.push(self.entries[i].clone());
            i += 1;
        }
        let r = Schema { entries };
        assert(r@ =~= self@);
        r
    }
}

impl Schema {
    /// Starts an empty schema.
    pub fn builder() -> (r: SchemaBuilder)
        ensures
            r@ == Seq::<FieldEntryView>::empty(),
    {
        let r = SchemaBuilder { entries: Vec::new() };
        assert(r@ =~= Seq::<FieldEntryView>::empty());
        r
    }

    /// Returns the number of fields.
    pub fn num_fields(&self) -> (r: usize)
        ensures
            r == self@.len(),
    {
        self.entries.len()
    }

    /// Returns the entry of `field`, which has to be a field of this schema.
    pub fn get_field_entry(&self, field: Field) -> (r: &FieldEntry)
        requires
            field.0 < self@.len(),
        ensures
            r@ == self@[field.0 as int],
    {
        &self.entries[field.0 as usize]
    }

    /// Returns the name of `field`, which has to be a field of this schema.
    pub fn get_field_name(&self, field: Field) -> (r: &str)
        requires
            field.0 < self@.len(),
        ensures
            r@ == self@[field.0 as int].name,
    {
        self.get_field_entry(field).name()
    }
}

/// Collects the fields of a schema.
pub struct SchemaBuilder {
    entries: Vec<FieldEntry>,
}

impl View for SchemaBuilder {
    type V = Seq<FieldEntryView>;

    closed spec fn view(&self) -> Seq<FieldEntryView> {
        self.entries@.map_values(|entry: FieldEntry| entry@)
    }
}

impl SchemaBuilder {
    /// Adds a field and returns it.
    pub fn add_field(&mut self, name: &str, field_type: FieldType) -> (r: Field)
        requires
            old(self)@.len() <= u32::MAX,
        ensures
            r.0 == old(self)@.len(),
            final(self)@ == old(self)@.push(
                (FieldEntryView { name: name@, field_type: field_type@ }),
            ),
    {
        let field_id: u32 = self.entries.len() as u32;
        let entry = FieldEntry { name: name.to_owned(), field_type };
        self.entries.push(entry);
        assert(self@ =~= old(self)@.push(
            (FieldEntryView { name: name@, field_type: field_type@ }),
        ));
        Field(field_id)
    }

    /// Finishes the schema.
    pub fn build(self) -> (r: Schema)
        ensures
            r@ == self@,
    {
        Schema { entries: self.entries }
    }
}

} // verus!
