//! JSON documents as `serde_json` holds them, and their mathematical model.
//!
//! A document is a `serde_json::Value`. Verified code never looks inside one
//! directly: it opens a value one level at a time into a [`Shape`], and all
//! contracts speak of the document's [`Tree`].

use serde_json::Number;
use serde_json::Value;
use vstd::prelude::*;

verus! {

/// `serde_json::Value`, carried through verified code unopened.
#[verifier::external_type_specification]
#[verifier::external_body]
pub struct ExValue(serde_json::Value);

/// `serde_json::Number`, which verified code never looks into.
#[verifier::external_type_specification]
#[verifier::external_body]
pub struct ExNumber(serde_json::Number);

/// The mathematical model of a JSON document. An object is the sequence of
/// its entries in stored order.
pub enum Tree {
    Null,
    Bool(bool),
    Number(Number),
    String(Seq<char>),
    Array(Seq<Tree>),
    Object(Seq<(Seq<char>, Tree)>),
}

/// Which of the six forms a document has.
#[derive(Clone, Copy, Debug, PartialEq, Eq, Structural)]
pub enum Kind {
    Null,
    Bool,
    Number,
    String,
    Array,
    Object,
}

impl Tree {
    /// The form of the document.
    pub open spec fn kind(self) -> Kind {
        match self {
            Tree::Null => Kind::Null,
            Tree::Bool(_) => Kind::Bool,
            Tree::Number(_) => Kind::Number,
            Tree::String(_) => Kind::String,
            Tree::Array(_) => Kind::Array,
            Tree::Object(_) => Kind::Object,
        }
    }
}

/// The document that a `serde_json::Value` holds.
pub uninterp spec fn tree_of(v: Value) -> Tree;

/// What `serde_json::from_str` makes of a text: the document it parses to,
/// or `None` where it reports an error.
pub uninterp spec fn parsed(text: Seq<char>) -> Option<Tree>;

/// The compact text that `serde_json` prints for a document.
pub uninterp spec fn rendered(t: Tree) -> Seq<char>;

/// The documents that a sequence of values holds, in the same order.
pub open spec fn items_view(items: Seq<Value>) -> Seq<Tree> {
    Seq::new(items.len(), |i: int| tree_of(items[i]))
}

/// The entries that a sequence of keyed values holds, in the same order.
pub open spec fn entries_view(entries: Seq<(String, Value)>) -> Seq<(Seq<char>, Tree)> {
    Seq::new(entries.len(), |i: int| (entries[i].0@, tree_of(entries[i].1)))
}

/// Whether a text stands between two double quotes: it begins with one and
/// ends with another.
pub open spec fn in_quotes(text: Seq<char>) -> bool {
    text.len() >= 2 && text[0] == '"' && text.last() == '"'
}

/// The top level of a document, with its children still unopened.
pub enum Shape {
    Null,
    Bool(bool),
    Number(Number),
    String(String),
    Array(Vec<Value>),
    Object(Vec<(String, Value)>),
}

impl Shape {
    /// The document that this shape is the top level of.
    pub open spec fn tree(self) -> Tree {
        match self {
            Shape::Null => Tree::Null,
            Shape::Bool(b) => Tree::Bool(b),
            Shape::Number(n) => Tree::Number(n),
            Shape::String(s) => Tree::String(s@),
            Shape::Array(items) => Tree::Array(items_view(items@)),
            Shape::Object(entries) => Tree::Object(entries_view(entries@)),
        }
    }
}

/// Tells the variants of `serde_json::Value` apart without taking the value.
/// The contract claims that the answer is the kind of the value's document.
#[verifier::external_body]
pub(crate) fn kind_of(v: &Value) -> (k: Kind)
    ensures
        k == tree_of(*v).kind(),
{
    match v {
        Value::Null => Kind::Null,
        Value::Bool(_) => Kind::Bool,
        Value::Number(_) => Kind::Number,
        Value::String(_) => Kind::String,
        Value::Array(_) => Kind::Array,
        Value::Object(_) => Kind::Object,
    }
}

/// Takes a `serde_json::Value` apart by its variant, moving the payload out.
/// An object's `serde_json::Map` is walked with `into_iter`, which yields the
/// entries in stored order. The contract claims that the shape stands for the
/// same document as the value did.
#[verifier::external_body]
pub(crate) fn open_value(v: Value) -> (s: Shape)
    ensures
        s.tree() == tree_of(v),
{
    match v {
        Value::Null => Shape::Null,
        Value::Bool(b) => Shape::Bool(b),
        Value::Number(n) => Shape::Number(n),
        Value::String(s) => Shape::String(s),
        Value::Array(items) => Shape::Array(items),
        Value::Object(entries) => Shape::Object(entries.into_iter().collect()),
    }
}

/// Calls `serde_json::from_str` for a `Value`. The contract claims that the
/// outcome depends on the text alone: a value is returned exactly where
/// [`parsed`] has a document, and it holds that document.
#[verifier::external_body]
pub(crate) fn parse_value(text: &str) -> (r: Option<Value>)
    ensures
        match r {
            Some(v) => parsed(text@) == Some(tree_of(v)),
            None => parsed(text@) is None,
        },
{
    serde_json::from_str::<Value>(text).ok()
}

/// Calls `to_string` on a `serde_json::Value`, which prints the compact form
/// through the value's `Display`. The contract claims that the text depends
/// on the document alone, and that a string is printed between two double
/// quotes, as the serializer's `begin_string` and `end_string` write them.
#[verifier::external_body]
pub(crate) fn render_value(v: &Value) -> (text: String)
    ensures
        text@ == rendered(tree_of(*v)),
        tree_of(*v) is String ==> in_quotes(text@),
{
    v.to_string()
}

} // verus!
