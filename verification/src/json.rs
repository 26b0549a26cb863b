//! JSON documents as plain values, with reading and writing left to `serde_json`.
use vstd::prelude::*;

use crate::text::{owned, same_text, views};

verus! {

// ---------------------------------------------------------------------------
// Models
// ---------------------------------------------------------------------------
/// What a JSON number holds: an integer that fits in 64 bits, or the bit
/// pattern of a double-precision value.
pub enum NumberModel {
    Unsigned(u64),
    Negative(i64),
    Real(u64),
}

/// A JSON document. The fields of an object stand in document order.
pub enum JsonTree {
    Null,
    Bool(bool),
    Number(NumberModel),
    Text(Seq<char>),
    Array(Seq<JsonTree>),
    Object(Seq<(Seq<char>, JsonTree)>),
}

/// The value of the first of `fields` that is called `name`.
pub open spec fn field_in(fields: Seq<(Seq<char>, JsonTree)>, name: Seq<char>) -> Option<JsonTree>
    decreases fields.len(),
{
    if fields.len() == 0 {
        None
    } else if fields.first().0 == name {
        Some(fields.first().1)
    } else {
        field_in(fields.drop_first(), name)
    }
}

/// The field `name` of an object; nothing but an object has fields.
pub open spec fn field(tree: JsonTree, name: Seq<char>) -> Option<JsonTree> {
    match tree {
        JsonTree::Object(fields) => field_in(fields, name),
        _ => None,
    }
}

/// The field `name` of what is there, if anything is.
pub open spec fn field_of(tree: Option<JsonTree>, name: Seq<char>) -> Option<JsonTree> {
    match tree {
        Some(t) => field(t, name),
        None => None,
    }
}

/// The field `first`, or where there is none, what stands in `second`.
pub open spec fn or_else(first: Option<JsonTree>, second: Option<JsonTree>) -> Option<JsonTree> {
    match first {
        Some(t) => Some(t),
        None => second,
    }
}

/// The text of a JSON string.
pub open spec fn text_in(tree: Option<JsonTree>) -> Option<Seq<char>> {
    match tree {
        Some(JsonTree::Text(s)) => Some(s),
        _ => None,
    }
}

/// The truth value of a JSON boolean.
pub open spec fn bool_in(tree: Option<JsonTree>) -> Option<bool> {
    match tree {
        Some(JsonTree::Bool(b)) => Some(b),
        _ => None,
    }
}

/// The value of a JSON number that is an unsigned 64-bit integer.
pub open spec fn u64_in(tree: Option<JsonTree>) -> Option<u64> {
    match tree {
        Some(JsonTree::Number(NumberModel::Unsigned(n))) => Some(n),
        _ => None,
    }
}

/// What a JSON number holds.
pub open spec fn number_in(tree: Option<JsonTree>) -> Option<NumberModel> {
    match tree {
        Some(JsonTree::Number(n)) => Some(n),
        _ => None,
    }
}

/// The items of a JSON array.
pub open spec fn items_in(tree: Option<JsonTree>) -> Option<Seq<JsonTree>> {
    match tree {
        Some(JsonTree::Array(items)) => Some(items),
        _ => None,
    }
}

/// No two of the fields share a name.
pub open spec fn names_differ(fields: Seq<(Seq<char>, JsonTree)>) -> bool {
    forall|i: int, j: int|
        0 <= i < j < fields.len() ==> (#[trigger] fields[i]).0 != (#[trigger] fields[j]).0
}

/// No object anywhere in the document has two fields of one name.
pub open spec fn distinct_names(tree: JsonTree) -> bool
    decreases tree,
{
    match tree {
        JsonTree::Array(items) => forall|i: int|
            0 <= i < items.len() ==> distinct_names(#[trigger] items[i]),
        JsonTree::Object(fields) => {
            &&& names_differ(fields)
            &&& forall|i: int| 0 <= i < fields.len() ==> distinct_names((#[trigger] fields[i]).1)
        },
        _ => true,
    }
}

/// Arrays and objects are nested at most `levels` deep, and every number is an
/// integer.
pub open spec fn plain_within(tree: JsonTree, levels: nat) -> bool
    decreases tree,
{
    match tree {
        JsonTree::Number(NumberModel::Real(_)) => false,
        JsonTree::Array(items) => levels > 0 && forall|i: int|
            0 <= i < items.len() ==> plain_within(#[trigger] items[i], (levels - 1) as nat),
        JsonTree::Object(fields) => levels > 0 && forall|i: int|
            0 <= i < fields.len() ==> plain_within(
                (#[trigger] fields[i]).1,
                (levels - 1) as nat,
            ),
        _ => true,
    }
}

// ---------------------------------------------------------------------------
// The outside crate
// ---------------------------------------------------------------------------
/// A document as `serde_json` holds it.
#[verifier::external_type_specification]
#[verifier::external_body]
pub struct ExValue(serde_json::Value);

/// A number as `serde_json` holds it.
#[verifier::external_type_specification]
#[verifier::external_body]
pub struct ExNumber(serde_json::Number);

/// Why `serde_json` could not read a document.
#[verifier::external_type_specification]
#[verifier::external_body]
pub struct ExError(serde_json::Error);

/// What a `serde_json::Value` holds.
pub uninterp spec fn tree_of(value: serde_json::Value) -> JsonTree;

/// What a `serde_json::Number` holds.
pub uninterp spec fn number_model(number: serde_json::Number) -> NumberModel;

/// The document that `serde_json::from_str` reads from a text, if it is one.
pub uninterp spec fn json_parse(text: Seq<char>) -> Option<JsonTree>;

/// The document that `serde_json::from_slice` reads from bytes, if they are one.
pub uninterp spec fn json_parse_bytes(bytes: Seq<u8>) -> Option<JsonTree>;

/// The compact text that `serde_json` writes for a document.
pub uninterp spec fn json_text(tree: JsonTree) -> Seq<char>;

/// One level of a document, as the outside value holds it.
enum ValueParts {
    Null,
    Bool(bool),
    Number(serde_json::Number),
    Text(String),
    Array(Vec<serde_json::Value>),
    Object(Vec<(String, serde_json::Value)>),
}

/// The document that one level describes.
spec fn parts_tree(parts: ValueParts) -> JsonTree {
    match parts {
        ValueParts::Null => JsonTree::Null,
        ValueParts::Bool(b) => JsonTree::Bool(b),
        ValueParts::Number(n) => JsonTree::Number(number_model(n)),
        ValueParts::Text(s) => JsonTree::Text(s@),
        ValueParts::Array(items) => JsonTree::Array(
            items@.map_values(|v: serde_json::Value| tree_of(v)),
        ),
        ValueParts::Object(fields) => JsonTree::Object(
            fields@.map_values(|f: (String, serde_json::Value)| (f.0@, tree_of(f.1))),
        ),
    }
}

/// Takes a `serde_json::Value` apart, one arm for each of its variants.
///
/// Trusted: the variants hold what `tree_of` says, and the names in a
/// `serde_json::Map` differ from one another and come out in its order.
#[verifier::external_body]
fn value_into_parts(value: serde_json::Value) -> (parts: ValueParts)
    ensures
        parts_tree(parts) == tree_of(value),
        parts_tree(parts) matches JsonTree::Object(fields) ==> names_differ(fields),
{
    match value {
        serde_json::Value::Null => ValueParts::Null,
        serde_json::Value::Bool(b) => ValueParts::Bool(b),
        serde_json::Value::Number(n) => ValueParts::Number(n),
        serde_json::Value::String(s) => ValueParts::Text(s),
        serde_json::Value::Array(items) => ValueParts::Array(items),
        serde_json::Value::Object(map) => ValueParts::Object(map.into_iter().collect()),
    }
}

/// Puts a `serde_json::Value` together, one arm for each of its variants.
///
/// Trusted: the value holds the parts, and a `serde_json::Map` made of fields
/// with different names holds those fields in the order in which they came.
#[verifier::external_body]
fn value_from_parts(parts: ValueParts) -> (value: serde_json::Value)
    requires
        parts_tree(parts) matches JsonTree::Object(fields) ==> names_differ(fields),
    ensures
        tree_of(value) == parts_tree(parts),
{
    match parts {
        ValueParts::Null => serde_json::Value::Null,
        ValueParts::Bool(b) => serde_json::Value::Bool(b),
        ValueParts::Number(n) => serde_json::Value::Number(n),
        ValueParts::Text(s) => serde_json::Value::String(s),
        ValueParts::Array(items) => serde_json::Value::Array(items),
        ValueParts::Object(fields) => serde_json::Value::Object(fields.into_iter().collect()),
    }
}

/// Reads a document from text.
///
/// Trusted: `serde_json::from_str` at `Value` depends on the text alone.
#[verifier::external_body]
fn value_from_str(text: &str) -> (r: Result<serde_json::Value, serde_json::Error>)
    ensures
        match r {
            Ok(value) => json_parse(text@) == Some(tree_of(value)),
            Err(_) => json_parse(text@) is None,
        },
{
    serde_json::from_str(text)
}

/// Reads a document from bytes.
///
/// Trusted: `serde_json::from_slice` at `Value` depends on the bytes alone.
#[verifier::external_body]
fn value_from_slice(bytes: &[u8]) -> (r: Result<serde_json::Value, serde_json::Error>)
    ensures
        match r {
            Ok(value) => json_parse_bytes(bytes@) == Some(tree_of(value)),
            Err(_) => json_parse_bytes(bytes@) is None,
        },
{
    serde_json::from_slice(bytes)
}

/// Writes a document as compact text.
///
/// Trusted: `Value`'s `Display` writes a text that depends on the document
/// alone and that holds no line feed, because a line feed inside a string is
/// escaped. `serde_json::from_str` reads the same document back as long as every
/// number is an integer and the nesting stays below the reader's limit of 128.
#[verifier::external_body]
fn value_to_string(value: &serde_json::Value) -> (text: String)
    ensures
        text@ == json_text(tree_of(*value)),
        !text@.contains('\n'),
        plain_within(tree_of(*value), 127) ==> json_parse(text@) == Some(tree_of(*value)),
{
    value.to_string()
}

/// The number as an unsigned 64-bit integer.
///
/// Trusted: `serde_json::Number::as_u64` is there exactly for a number that
/// holds an unsigned integer, and is that integer.
#[verifier::external_body]
fn number_as_u64(number: &serde_json::Number) -> (value: Option<u64>)
    ensures
        value == (match number_model(*number) {
            NumberModel::Unsigned(n) => Some(n),
            _ => None,
        }),
{
    number.as_u64()
}

/// The number for an unsigned 64-bit integer.
///
/// Trusted: `serde_json::Number::from` at `u64` holds the given integer.
#[verifier::external_body]
fn number_from_u64(value: u64) -> (number: serde_json::Number)
    ensures
        number_model(number) == NumberModel::Unsigned(value),
{
    serde_json::Number::from(value)
}

// ---------------------------------------------------------------------------
// Documents
// ---------------------------------------------------------------------------
/// A JSON document. A number keeps its outside form, so that one that is not an
/// integer passes through unchanged.
#[derive(Debug)]
pub enum Json {
    Null,
    Bool(bool),
    Number(serde_json::Number),
    Text(String),
    Array(Vec<Json>),
    Object(Vec<(String, Json)>),
}

impl Json {
    /// The document that the value stands for.
    pub open spec fn tree(&self) -> JsonTree
        decreases self,
    {
        match self {
            Json::Null => JsonTree::Null,
            Json::Bool(b) => JsonTree::Bool(*b),
            Json::Number(n) => JsonTree::Number(number_model(*n)),
            Json::Text(s) => JsonTree::Text(s@),
            Json::Array(items) => JsonTree::Array(
                Seq::new(
                    items@.len(),
                    |i: int|
                        if 0 <= i < items@.len() {
                            items@[i].tree()
                        } else {
                            JsonTree::Null
                        },
                ),
            ),
            Json::Object(fields) => JsonTree::Object(
                Seq::new(
                    fields@.len(),
                    |i: int|
                        if 0 <= i < fields@.len() {
                            (fields@[i].0@, fields@[i].1.tree())
                        } else {
                            (Seq::empty(), JsonTree::Null)
                        },
                ),
            ),
        }
    }
}

impl View for Json {
    type V = JsonTree;

    open spec fn view(&self) -> JsonTree {
        self.tree()
    }
}

/// The documents that a sequence of values hold.
pub open spec fn trees(items: Seq<Json>) -> Seq<JsonTree> {
    Seq::new(items.len(), |i: int| items[i]@)
}

/// The fields that a sequence of names and values hold.
pub open spec fn field_trees(fields: Seq<(String, Json)>) -> Seq<(Seq<char>, JsonTree)> {
    Seq::new(fields.len(), |i: int| (fields[i].0@, fields[i].1@))
}

/// Converts a document from its outside form.
fn json_from_value(value: serde_json::Value) -> (json: Json)
    ensures
        json@ == tree_of(value),
        distinct_names(json@),
    decreases tree_of(value),
{
    let ghost tree = tree_of(value);
    match value_into_parts(value) {
        ValueParts::Null => Json::Null,
        ValueParts::Bool(b) => Json::Bool(b),
        ValueParts::Number(n) => Json::Number(n),
        ValueParts::Text(s) => Json::Text(s),
        ValueParts::Array(items) => {
            let mut out: Vec<Json> = Vec::new();
            let ghost all = items@;
            for item in iter: items
                invariant
                    iter.seq() == all,
                    tree == tree_of(value),
                    tree == JsonTree::Array(all.map_values(|v: serde_json::Value| tree_of(v))),
                    out@.len() == iter.index(),
                    forall|i: int|
                        0 <= i < out@.len() ==> {
                            &&& (#[trigger] out@[i])@ == tree_of(all[i])
                            &&& distinct_names(out@[i]@)
                        },
            {
                assert(tree->Array_0[iter.index()] == tree_of(item));
                out.push(json_from_value(item));
            }
            let ghost built = out;
            let json = Json::Array(out);
            assert(json@->Array_0 =~= tree->Array_0);
            assert forall|i: int| 0 <= i < built@.len() implies distinct_names(
                #[trigger] json@->Array_0[i],
            ) by {
                assert(json@->Array_0[i] == built@[i]@);
            }
            json
        },
        ValueParts::Object(fields) => {
            let mut out: Vec<(String, Json)> = Vec::new();
            let ghost all = fields@;
            for field in iter: fields
                invariant
                    iter.seq() == all,
                    tree == tree_of(value),
                    tree == JsonTree::Object(
                        all.map_values(|f: (String, serde_json::Value)| (f.0@, tree_of(f.1))),
                    ),
                    out@.len() == iter.index(),
                    forall|i: int|
                        0 <= i < out@.len() ==> {
                            &&& (#[trigger] out@[i]).0@ == all[i].0@
                            &&& out@[i].1@ == tree_of(all[i].1)
                            &&& distinct_names(out@[i].1@)
                        },
            {
                assert(tree->Object_0[iter.index()] == (field.0@, tree_of(field.1)));
                assert(decreases_to!(tree => tree->Object_0[iter.index()].1));
                let (name, inner) = field;
                out.push((name, json_from_value(inner)));
            }
            let ghost built = out;
            let json = Json::Object(out);
            assert(json@->Object_0 =~= tree->Object_0);
            assert forall|i: int| 0 <= i < built@.len() implies distinct_names(
                (#[trigger] json@->Object_0[i]).1,
            ) by {
                assert(json@->Object_0[i].1 == built@[i].1@);
            }
            json
        },
    }
}

/// Converts a document to its outside form.
fn json_into_value(json: Json) -> (value: serde_json::Value)
    requires
        distinct_names(json@),
    ensures
        tree_of(value) == json@,
    decreases json@,
{
    let ghost tree = json@;
    match json {
        Json::Null => value_from_parts(ValueParts::Null),
        Json::Bool(b) => value_from_parts(ValueParts::Bool(b)),
        Json::Number(n) => value_from_parts(ValueParts::Number(n)),
        Json::Text(s) => value_from_parts(ValueParts::Text(s)),
        Json::Array(items) => {
            let mut out: Vec<serde_json::Value> = Vec::new();
            let ghost all = items@;
            assert(tree->Array_0 =~= trees(all));
            for item in iter: items
                invariant
                    iter.seq() == all,
                    tree == json@,
                    tree == JsonTree::Array(trees(all)),
                    distinct_names(tree),
                    out@.len() == iter.index(),
                    forall|i: int| 0 <= i < out@.len() ==> tree_of(#[trigger] out@[i]) == all[i]@,
            {
                assert(tree->Array_0[iter.index()] == item@);
                out.push(json_into_value(item));
            }
            let parts = ValueParts::Array(out);
            assert(parts_tree(parts)->Array_0 =~= tree->Array_0);
            value_from_parts(parts)
        },
        Json::Object(fields) => {
            let mut out: Vec<(String, serde_json::Value)> = Vec::new();
            let ghost all = fields@;
            assert(tree->Object_0 =~= field_trees(all));
            for field in iter: fields
                invariant
                    iter.seq() == all,
                    tree == json@,
                    tree == JsonTree::Object(field_trees(all)),
                    distinct_names(tree),
                    out@.len() == iter.index(),
                    forall|i: int|
                        0 <= i < out@.len() ==> {
                            &&& (#[trigger] out@[i]).0@ == all[i].0@
                            &&& tree_of(out@[i].1) == all[i].1@
                        },
            {
                assert(tree->Object_0[iter.index()] == (field.0@, field.1@));
                assert(decreases_to!(tree => tree->Object_0[iter.index()].1));
                let (name, inner) = field;
                out.push((name, json_into_value(inner)));
            }
            let parts = ValueParts::Object(out);
            assert(parts_tree(parts)->Object_0 =~= tree->Object_0);
            value_from_parts(parts)
        },
    }
}

/// Reads a document from text; `None` where the text is not one.
pub fn parse_text(text: &str) -> (r: Option<Json>)
    ensures
        match r {
            Some(json) => json_parse(text@) == Some(json@) && distinct_names(json@),
            None => json_parse(text@) is None,
        },
{
    match value_from_str(text) {
        Ok(value) => Some(json_from_value(value)),
        Err(_) => None,
    }
}

/// Reads a document from bytes; `None` where the bytes are not one.
pub fn parse_bytes(bytes: &[u8]) -> (r: Option<Json>)
    ensures
        match r {
            Some(json) => json_parse_bytes(bytes@) == Some(json@) && distinct_names(json@),
            None => json_parse_bytes(bytes@) is None,
        },
{
    match value_from_slice(bytes) {
        Ok(value) => Some(json_from_value(value)),
        Err(_) => None,
    }
}

/// Writes a document as compact text on one line.
pub fn render(json: Json) -> (text: String)
    requires
        distinct_names(json@),
    ensures
        text@ == json_text(json@),
        !text@.contains('\n'),
        plain_within(json@, 127) ==> json_parse(text@) == Some(json@),
{
    let value = json_into_value(json);
    value_to_string(&value)
}

impl Json {
    /// The field `name` of an object.
    pub fn get(&self, name: &str) -> (r: Option<&Json>)
        ensures
            field(self@, name@) == (match r {
                Some(json) => Some(json@),
                None => None,
            }),
    {
        match self {
            Json::Object(fields) => {
                let ghost all = field_trees(fields@);
                assert(self@->Object_0 =~= all);
                let mut i: usize = 0;
                assert(all.skip(0) =~= all);
                while i < fields.len()
                    invariant
                        i <= fields@.len(),
                        all == field_trees(fields@),
                        self@ == JsonTree::Object(all),
                        field_in(all, name@) == field_in(all.skip(i as int), name@),
                    decreases fields@.len() - i,
                {
                    if same_text(fields[i].0.as_str(), name) {
                        return Some(&fields[i].1);
                    }
                    assert(all.skip(i as int).drop_first() =~= all.skip(i + 1));
                    i += 1;
                }
                None
            },
            _ => None,
        }
    }

    /// The field `first`, or where there is none, the field `second`.
    pub fn get_either(&self, first: &str, second: &str) -> (r: Option<&Json>)
        ensures
            or_else(field(self@, first@), field(self@, second@)) == (match r {
                Some(json) => Some(json@),
                None => None,
            }),
    {
        match self.get(first) {
            Some(json) => Some(json),
            None => self.get(second),
        }
    }

    /// Takes the field `name` out of an object.
    pub fn take(self, name: &str) -> (r: Option<Json>)
        ensures
            field(self@, name@) == (match r {
                Some(json) => Some(json@),
                None => None,
            }),
    {
        match self {
            Json::Object(fields) => {
                let ghost all = field_trees(fields@);
                let ghost entries = fields@;
                assert(self@->Object_0 =~= all);
                assert(all.skip(0) =~= all);
                for entry in iter: fields
                    invariant
                        iter.seq() == entries,
                        all == field_trees(entries),
                        self@ == JsonTree::Object(all),
                        field_in(all, name@) == field_in(all.skip(iter.index()), name@),
                {
                    assert(all.skip(iter.index()).drop_first() =~= all.skip(iter.index() + 1));
                    assert(all.skip(iter.index()).first() == (entry.0@, entry.1@));
                    let (key, inner) = entry;
                    if same_text(key.as_str(), name) {
                        return Some(inner);
                    }
                }
                None
            },
            _ => None,
        }
    }

    /// The text of a JSON string.
    pub fn as_str(&self) -> (r: Option<&str>)
        ensures
            text_in(Some(self@)) == (match r {
                Some(s) => Some(s@),
                None => None,
            }),
    {
        match self {
            Json::Text(s) => Some(s.as_str()),
            _ => None,
        }
    }

    /// The truth value of a JSON boolean.
    pub fn as_bool(&self) -> (r: Option<bool>)
        ensures
            r == bool_in(Some(self@)),
    {
        match self {
            Json::Bool(b) => Some(*b),
            _ => None,
        }
    }

    /// The value of a JSON number that is an unsigned 64-bit integer.
    pub fn as_u64(&self) -> (r: Option<u64>)
        ensures
            r == u64_in(Some(self@)),
    {
        match self {
            Json::Number(n) => number_as_u64(n),
            _ => None,
        }
    }

    /// The items of a JSON array.
    pub fn as_array(&self) -> (r: Option<&Vec<Json>>)
        ensures
            items_in(Some(self@)) == (match r {
                Some(items) => Some(trees(items@)),
                None => None,
            }),
    {
        match self {
            Json::Array(items) => {
                assert(self@->Array_0 =~= trees(items@));
                Some(items)
            },
            _ => None,
        }
    }

    /// The text of the field `name`, where that is a JSON string.
    pub fn text_field(&self, name: &str) -> (r: Option<String>)
        ensures
            text_in(field(self@, name@)) == (match r {
                Some(s) => Some(s@),
                None => None,
            }),
    {
        match self.get(name) {
            Some(json) => match json.as_str() {
                Some(s) => Some(owned(s)),
                None => None,
            },
            None => None,
        }
    }

    /// The number for an unsigned integer.
    pub fn unsigned(value: u64) -> (r: Json)
        ensures
            r@ == JsonTree::Number(NumberModel::Unsigned(value)),
    {
        Json::Number(number_from_u64(value))
    }

    /// The JSON string for a text.
    pub fn text(value: &str) -> (r: Json)
        ensures
            r@ == JsonTree::Text(value@),
    {
        Json::Text(owned(value))
    }
}

// ---------------------------------------------------------------------------
// Building objects
// ---------------------------------------------------------------------------
/// The length and the first two characters of a name.
pub open spec fn mark(name: Seq<char>) -> (nat, char, char) {
    (name.len(), name[0], name[1])
}

/// The mark of a name, spelled out, so that a proof can tell the name from others.
pub proof fn marked(name: Seq<char>)
    ensures
        mark(name) == (name.len(), name[0], name[1]),
{
}

/// An object under construction.
pub struct ObjectBuilder {
    fields: Vec<(String, Json)>,
}

impl View for ObjectBuilder {
    type V = Seq<(Seq<char>, JsonTree)>;

    closed spec fn view(&self) -> Seq<(Seq<char>, JsonTree)> {
        field_trees(self.fields@)
    }
}

impl ObjectBuilder {
    /// An object without fields.
    pub fn new() -> (builder: Self)
        ensures
            builder@ == Seq::<(Seq<char>, JsonTree)>::empty(),
            distinct_names(JsonTree::Object(builder@)),
    {
        let builder = ObjectBuilder { fields: Vec::new() };
        assert(builder@ =~= Seq::empty());
        builder
    }

    /// Adds a field whose name is not yet there.
    pub fn put(&mut self, name: &str, value: Json)
        requires
            distinct_names(JsonTree::Object(old(self)@)),
            distinct_names(value@),
            forall|i: int|
                0 <= i < old(self)@.len() ==> (#[trigger] old(self)@[i]).0 != name@,
        ensures
            final(self)@ == old(self)@.push((name@, value@)),
            distinct_names(JsonTree::Object(final(self)@)),
    {
        self.fields.push((owned(name), value));
        assert(self@ =~= old(self)@.push((name@, value@)));
        assert forall|i: int, j: int| 0 <= i < j < self@.len() implies (#[trigger] self@[i]).0 != (
        #[trigger] self@[j]).0 by {
            assert(self@[i] == old(self)@[i]);
        }
    }

    /// Adds a field that holds a text.
    pub fn put_text(&mut self, name: &str, value: &str)
        requires
            distinct_names(JsonTree::Object(old(self)@)),
            forall|i: int|
                0 <= i < old(self)@.len() ==> (#[trigger] old(self)@[i]).0 != name@,
        ensures
            final(self)@ == old(self)@.push((name@, JsonTree::Text(value@))),
            distinct_names(JsonTree::Object(final(self)@)),
    {
        self.put(name, Json::text(value));
    }

    /// The object.
    pub fn build(self) -> (json: Json)
        requires
            distinct_names(JsonTree::Object(self@)),
        ensures
            json@ == JsonTree::Object(self@),
            distinct_names(json@),
    {
        let json = Json::Object(self.fields);
        assert(json@->Object_0 =~= field_trees(self.fields@));
        json
    }
}

/// The JSON array of some texts.
pub open spec fn text_array(texts: Seq<Seq<char>>) -> JsonTree {
    JsonTree::Array(texts.map_values(|t: Seq<char>| JsonTree::Text(t)))
}

impl Json {
    /// The JSON array of some texts.
    pub fn texts(values: &Vec<String>) -> (json: Json)
        ensures
            json@ == text_array(views(values@)),
            distinct_names(json@),
    {
        let mut items: Vec<Json> = Vec::new();
        let mut i: usize = 0;
        while i < values.len()
            invariant
                i <= values@.len(),
                items@.len() == i,
                forall|k: int|
                    0 <= k < i ==> (#[trigger] items@[k])@ == JsonTree::Text(values@[k]@),
            decreases values@.len() - i,
        {
            items.push(Json::text(values[i].as_str()));
            i += 1;
        }
        let json = Json::Array(items);
        assert(json@->Array_0 =~= text_array(views(values@))->Array_0);
        assert forall|k: int| 0 <= k < values@.len() implies distinct_names(
            #[trigger] json@->Array_0[k],
        ) by {
            assert(json@->Array_0[k] == JsonTree::Text(values@[k]@));
        }
        json
    }

    /// The JSON array without items.
    pub fn no_items() -> (json: Json)
        ensures
            json@ == JsonTree::Array(Seq::empty()),
            distinct_names(json@),
    {
        let json = Json::Array(Vec::new());
        assert(json@->Array_0 =~= Seq::empty());
        json
    }

    /// Takes two fields of different names out of an object.
    pub fn take_two(self, first: &str, second: &str) -> (r: (Option<Json>, Option<Json>))
        requires
            first@ != second@,
        ensures
            field(self@, first@) == (match r.0 {
                Some(json) => Some(json@),
                None => None,
            }),
            field(self@, second@) == (match r.1 {
                Some(json) => Some(json@),
                None => None,
            }),
    {
        let mut one: Option<Json> = None;
        let mut two: Option<Json> = None;
        match self {
            Json::Object(fields) => {
                let ghost all = field_trees(fields@);
                let ghost entries = fields@;
                assert(self@->Object_0 =~= all);
                assert(all.skip(0) =~= all);
                for entry in iter: fields
                    invariant
                        first@ != second@,
                        iter.seq() == entries,
                        all == field_trees(entries),
                        self@ == JsonTree::Object(all),
                        field_in(all, first@) == (match one {
                            Some(json) => Some(json@),
                            None => field_in(all.skip(iter.index()), first@),
                        }),
                        field_in(all, second@) == (match two {
                            Some(json) => Some(json@),
                            None => field_in(all.skip(iter.index()), second@),
                        }),
                {
                    assert(all.skip(iter.index()).drop_first() =~= all.skip(iter.index() + 1));
                    assert(all.skip(iter.index()).first() == (entry.0@, entry.1@));
                    let (key, inner) = entry;
                    if one.is_none() && same_text(key.as_str(), first) {
                        one = Some(inner);
                    } else if two.is_none() && same_text(key.as_str(), second) {
                        two = Some(inner);
                    }
                }
            },
            _ => {},
        }
        (one, two)
    }
}

/// What stands in a document without doubled names has none either.
pub proof fn distinct_names_in_field(tree: JsonTree, name: Seq<char>)
    requires
        distinct_names(tree),
    ensures
        field(tree, name) matches Some(inner) ==> distinct_names(inner),
{
    if let JsonTree::Object(fields) = tree {
        lemma_field_is_there(fields, name);
    }
}

/// Where names differ, each field is found by its name.
pub proof fn field_is_found(fields: Seq<(Seq<char>, JsonTree)>, at: int)
    requires
        names_differ(fields),
        0 <= at < fields.len(),
    ensures
        field_in(fields, fields[at].0) == Some(fields[at].1),
    decreases fields.len(),
{
    if at > 0 {
        let rest = fields.drop_first();
        assert(fields[0].0 != fields[at].0);
        assert forall|i: int, j: int| 0 <= i < j < rest.len() implies (#[trigger] rest[i]).0 != (
        #[trigger] rest[j]).0 by {
            assert(rest[i] == fields[i + 1]);
            assert(rest[j] == fields[j + 1]);
        }
        assert(rest[at - 1] == fields[at]);
        field_is_found(rest, at - 1);
    }
}

proof fn lemma_field_is_there(fields: Seq<(Seq<char>, JsonTree)>, name: Seq<char>)
    ensures
        field_in(fields, name) matches Some(inner) ==> exists|i: int|
            0 <= i < fields.len() && #[trigger] fields[i] == (name, inner),
    decreases fields.len(),
{
    if fields.len() > 0 && fields.first().0 != name {
        lemma_field_is_there(fields.drop_first(), name);
        if let Some(inner) = field_in(fields, name) {
            let i = choose|i: int|
                0 <= i < fields.drop_first().len() && #[trigger] fields.drop_first()[i] == (
                    name,
                    inner,
                );
            assert(fields[i + 1] == (name, inner));
        }
    } else if fields.len() > 0 {
        assert(fields[0] == (name, fields[0].1));
    }
}

/// Names with different marks differ.
pub proof fn marks_tell_names_apart(fields: Seq<(Seq<char>, JsonTree)>)
    requires
        forall|i: int, j: int|
            0 <= i < j < fields.len() ==> mark((#[trigger] fields[i]).0) != mark(
                (#[trigger] fields[j]).0,
            ),
    ensures
        names_differ(fields),
{
    assert forall|i: int, j: int| 0 <= i < j < fields.len() implies (#[trigger] fields[i]).0 != (
    #[trigger] fields[j]).0 by {
        assert(mark(fields[i].0) != mark(fields[j].0));
    }
}

/// An object has the first field of a name, and none of a name that none of its fields
/// bears. Nothing but an object has fields.
pub proof fn first_field_of_a_name_counts(
    fields: Seq<(Seq<char>, JsonTree)>,
    name: Seq<char>,
    at: int,
    tree: JsonTree,
)
    ensures
        0 <= at < fields.len() && fields[at].0 == name && (forall|k: int|
            0 <= k < at ==> (#[trigger] fields[k]).0 != name) ==> field(
            JsonTree::Object(fields),
            name,
        ) == Some(fields[at].1),
        (forall|k: int| 0 <= k < fields.len() ==> (#[trigger] fields[k]).0 != name) ==> field(
            JsonTree::Object(fields),
            name,
        ) is None,
        !(tree is Object) ==> field(tree, name) is None,
        field_of(None, name) is None,
        field_of(Some(tree), name) == field(tree, name),
    decreases fields.len(),
{
    if fields.len() > 0 {
        let rest = fields.drop_first();
        first_field_of_a_name_counts(rest, name, at - 1, tree);
        if 0 < at < fields.len() && fields[at].0 == name && (forall|k: int|
            0 <= k < at ==> (#[trigger] fields[k]).0 != name) {
            assert(fields[0].0 != name);
            assert(rest[at - 1] == fields[at]);
            assert forall|k: int| 0 <= k < at - 1 implies (#[trigger] rest[k]).0 != name by {
                assert(rest[k] == fields[k + 1]);
            }
        }
        if forall|k: int| 0 <= k < fields.len() ==> (#[trigger] fields[k]).0 != name {
            assert(fields[0].0 != name);
            assert forall|k: int| 0 <= k < rest.len() implies (#[trigger] rest[k]).0 != name by {
                assert(rest[k] == fields[k + 1]);
            }
        }
    }
}

/// A value reads as what it holds and as nothing else.
pub proof fn values_read_as_what_they_hold(
    tree: JsonTree,
    text: Seq<char>,
    truth: bool,
    number: u64,
    items: Seq<JsonTree>,
)
    ensures
        text_in(Some(tree)) == Some(text) <==> tree == JsonTree::Text(text),
        bool_in(Some(tree)) == Some(truth) <==> tree == JsonTree::Bool(truth),
        u64_in(Some(tree)) == Some(number) <==> tree == JsonTree::Number(
            NumberModel::Unsigned(number),
        ),
        items_in(Some(tree)) == Some(items) <==> tree == JsonTree::Array(items),
        tree is Number <==> number_in(Some(tree)) is Some,
        tree is Number ==> tree == JsonTree::Number(number_in(Some(tree))->Some_0),
        text_in(None) is None,
        bool_in(None) is None,
        u64_in(None) is None,
        number_in(None) is None,
        items_in(None) is None,
        or_else(None, Some(tree)) == Some(tree),
        or_else(Some(tree), None) == Some(tree),
        or_else(Some(tree), Some(JsonTree::Text(text))) == Some(tree),
        or_else(None, None) is None,
{
}

/// A document holds every item of an array and every field of an object, in order, and a
/// list of texts becomes an array of them all.
pub proof fn documents_hold_everything(
    items: Vec<Json>,
    fields: Vec<(String, Json)>,
    text: String,
    texts: Seq<Seq<char>>,
)
    ensures
        Json::Text(text)@ == JsonTree::Text(text@),
        Json::Bool(true)@ == JsonTree::Bool(true),
        Json::Bool(false)@ == JsonTree::Bool(false),
        Json::Null@ == JsonTree::Null,
        Json::Array(items)@ matches JsonTree::Array(inner) && inner.len() == items@.len() && (
        forall|i: int| 0 <= i < items@.len() ==> #[trigger] inner[i] == items@[i]@),
        Json::Object(fields)@ matches JsonTree::Object(inner) && inner.len() == fields@.len()
            && (forall|i: int|
            0 <= i < fields@.len() ==> #[trigger] inner[i] == (fields@[i].0@, fields@[i].1@)),
        trees(items@).len() == items@.len(),
        forall|i: int| 0 <= i < items@.len() ==> #[trigger] trees(items@)[i] == items@[i]@,
        text_array(texts) matches JsonTree::Array(inner) && inner.len() == texts.len() && (
        forall|i: int| 0 <= i < texts.len() ==> #[trigger] inner[i] == JsonTree::Text(texts[i])),
{
}

} // verus!
