//! Documents as they are handed over for preparation: fields with tokenized or encoded values.

use vstd::prelude::*;
use crate::schema::{Field, Type};

verus! {

/// A token of a text.
#[derive(Clone, Debug)]
pub struct Token {
    /// The text of the token, as it is indexed.
    pub text: String,
    /// The position of the token in its text.
    pub position: u32,
    /// The number of positions that the token takes.
    pub position_length: u32,
}

/// The contents of a [`Token`].
pub struct TokenView {
    /// The text of the token.
    pub text: Seq<char>,
    /// The position of the token in its text.
    pub position: u32,
    /// The number of positions that the token takes.
    pub position_length: u32,
}

impl View for Token {
    type V = TokenView;

    open spec fn view(&self) -> TokenView {
        TokenView {
            text: self.text@,
            position: self.position,
            position_length: self.position_length,
        }
    }
}

/// The contents of a list of tokens.
pub open spec fn token_views(tokens: Seq<Token>) -> Seq<TokenView> {
    tokens.map_values(|token: Token| token@)
}

/// A value inside a JSON object.
#[derive(Clone, Debug)]
pub enum LeafValue {
    /// A text, cut into tokens.
    Text(Vec<Token>),
    /// A value of another type, encoded as in a term.
    Exact(Type, Vec<u8>),
}

/// A value inside a JSON object, with the path that leads to it.
#[derive(Clone, Debug)]
pub struct JsonLeaf {
    /// The path.
    pub path: String,
    /// The value.
    pub value: LeafValue,
}

/// The contents of a [`LeafValue`].
pub enum LeafValueView {
    /// A text, cut into tokens.
    Text(Seq<TokenView>),
    /// A value of another type.
    Exact(Type, Seq<u8>),
}

/// The contents of a [`JsonLeaf`].
pub struct JsonLeafView {
    /// The path.
    pub path: Seq<char>,
    /// The value.
    pub value: LeafValueView,
}

impl View for JsonLeaf {
    type V = JsonLeafView;

    open spec fn view(&self) -> JsonLeafView {
        JsonLeafView {
            path: self.path@,
            value: match self.value {
                LeafValue::Text(tokens) => LeafValueView::Text(token_views(tokens@)),
                LeafValue::Exact(typ, bytes) => LeafValueView::Exact(typ, bytes@),
            },
        }
    }
}

/// The contents of a list of leaves.
pub open spec fn leaf_views(leaves: Seq<JsonLeaf>) -> Seq<JsonLeafView> {
    leaves.map_values(|leaf: JsonLeaf| leaf@)
}

/// A value of a field.
#[derive(Clone, Debug)]
pub enum Value {
    /// The field is supplied, but has no value.
    Null,
    /// A text, cut into tokens.
    Text(Vec<Token>),
    /// A value of another type, encoded as in a term.
    Exact(Type, Vec<u8>),
    /// A JSON object, as the values that it holds at any depth.
    Json(Vec<JsonLeaf>),
}

/// The contents of a [`Value`].
pub enum ValueView {
    /// The field is supplied, but has no value.
    Null,
    /// A text, cut into tokens.
    Text(Seq<TokenView>),
    /// A value of another type.
    Exact(Type, Seq<u8>),
    /// A JSON object.
    Json(Seq<JsonLeafView>),
}

impl View for Value {
    type V = ValueView;

    open spec fn view(&self) -> ValueView {
        match self {
            Value::Null => ValueView::Null,
            Value::Text(tokens) => ValueView::Text(token_views(tokens@)),
            Value::Exact(typ, bytes) => ValueView::Exact(*typ, bytes@),
            Value::Json(leaves) => ValueView::Json(leaf_views(leaves@)),
        }
    }
}

/// A document: fields with their values. A field can occur more than once.
#[derive(Clone, Debug)]
pub struct Document {
    values: Vec<(Field, Value)>,
}

impl View for Document {
    type V = Seq<(Field, ValueView)>;

    closed spec fn view(&self) -> Seq<(Field, ValueView)> {
        self.values@.map_values(|entry: (Field, Value)| (entry.0, entry.1@))
    }
}

impl Document {
    /// A document without fields.
    pub fn new() -> (r: Document)
        ensures
            r@ == Seq::<(Field, ValueView)>::empty(),
    {
        let r = Document { values: Vec::new() };
        assert(r@ =~= Seq::empty());
        r
    }

    /// Adds a value to a field.
    pub fn add_field_value(&mut self, field: Field, value: Value)
        ensures
            final(self)@ == old(self)@.push((field, value@)),
    {
        let ghost before = self@;
        let ghost added = value@;
        self.values.push((field, value));
        assert(self@ =~= before.push((field, added)));
    }

    /// Returns the number of values.
    pub fn len(&self) -> (r: usize)
        ensures
            r == self@.len(),
    {
        self.values.len()
    }

    /// Returns the field of the value at an index.
    pub fn field_at(&self, index: usize) -> (r: Field)
        requires
            index < self@.len(),
        ensures
            r == self@[index as int].0,
    {
        self.values[index].0
    }

    /// Returns the value at an index.
    pub fn value_at(&self, index: usize) -> (r: &Value)
        requires
            index < self@.len(),
        ensures
            r@ == self@[index as int].1,
    {
        &self.values[index].1
    }
}

} // verus!
