//! JSON documents as plain data.
//!
//! Reading and printing a document is `serde_json`'s work; everything between the two works on
//! [`Json`], whose view says what the document holds: an object is a map from key to value, so
//! the order in which its fields were written carries no meaning.

use crate::text::same_text;
use serde_json::Value;
use vstd::prelude::*;

verus! {

/// The outside crate's document, only carried from one call below to the next.
#[verifier::external_type_specification]
#[verifier::external_body]
pub struct ExValue(serde_json::Value);

/// The outside crate's number, read through the calls below.
#[verifier::external_type_specification]
#[verifier::external_body]
pub struct ExNumber(serde_json::Number);

/// What a JSON number holds: an integer from 0 up, a negative integer, or the bit pattern of a
/// binary64 number.
pub enum NumberView {
    Unsigned(u64),
    Negative(i64),
    Binary64(u64),
}

/// What a JSON document holds.
#[verifier::ext_equal]
pub enum JsonView {
    Null,
    Bool(bool),
    Number(NumberView),
    Text(Seq<char>),
    Array(Seq<JsonView>),
    Object(Map<Seq<char>, JsonView>),
}

pub type Fields = Map<Seq<char>, JsonView>;

/// What the field `key` of an object holds, if the object has it.
pub open spec fn field(fields: Fields, key: Seq<char>) -> Option<JsonView> {
    if fields.contains_key(key) {
        Some(fields[key])
    } else {
        None
    }
}

pub open spec fn as_text(value: Option<JsonView>) -> Option<Seq<char>> {
    match value {
        Some(JsonView::Text(text)) => Some(text),
        _ => None,
    }
}

pub open spec fn as_array(value: Option<JsonView>) -> Option<Seq<JsonView>> {
    match value {
        Some(JsonView::Array(items)) => Some(items),
        _ => None,
    }
}

pub open spec fn as_object(value: Option<JsonView>) -> Option<Fields> {
    match value {
        Some(JsonView::Object(fields)) => Some(fields),
        _ => None,
    }
}

pub open spec fn as_u64(value: Option<JsonView>) -> Option<u64> {
    match value {
        Some(JsonView::Number(NumberView::Unsigned(number))) => Some(number),
        _ => None,
    }
}

/// The field `key` of a value, where there is a value and it is an object that has the field.
pub open spec fn get(value: Option<JsonView>, key: Seq<char>) -> Option<JsonView> {
    match value {
        Some(JsonView::Object(fields)) => field(fields, key),
        _ => None,
    }
}

/// An object of one field.
pub open spec fn single(key: Seq<char>, value: JsonView) -> Fields {
    Map::<Seq<char>, JsonView>::empty().insert(key, value)
}

/// A value that is there and is not `null`.
pub open spec fn present(value: Option<JsonView>) -> bool {
    value is Some && value != Some(JsonView::Null)
}

pub open spec fn view_option(value: Option<&Json>) -> Option<JsonView> {
    match value {
        Some(json) => Some(json@),
        None => None,
    }
}

pub open spec fn view_text(text: Option<&str>) -> Option<Seq<char>> {
    match text {
        Some(text) => Some(text@),
        None => None,
    }
}

pub open spec fn view_string(text: Option<String>) -> Option<Seq<char>> {
    match text {
        Some(text) => Some(text@),
        None => None,
    }
}

/// A JSON number.
#[derive(Debug, PartialEq)]
pub struct JsonNumber {
    inner: serde_json::Number,
}

/// A JSON document.
#[derive(Debug, PartialEq)]
pub enum Json {
    Null,
    Bool(bool),
    Number(JsonNumber),
    Text(String),
    Array(Vec<Json>),
    Object(JsonObject),
}

/// The fields of a JSON object. Where a key stands more than once, the last one counts.
#[derive(Debug, PartialEq)]
pub struct JsonObject {
    pub fields: Vec<(String, Json)>,
}

/// What a `serde_json::Number` holds.
pub uninterp spec fn number_content(number: serde_json::Number) -> NumberView;

/// What a `serde_json::Value` holds.
pub uninterp spec fn value_content(value: serde_json::Value) -> JsonView;

/// What `serde_json::from_str` reads from a text; `None` where the text is no JSON document that
/// it accepts.
pub uninterp spec fn parsed_json(text: Seq<char>) -> Option<JsonView>;

/// The text that `serde_json` prints for a document.
pub uninterp spec fn printed_json(content: JsonView) -> Seq<char>;

/// The bit pattern of the binary64 number nearest to a JSON number.
pub uninterp spec fn nearest_binary64(number: NumberView) -> u64;

/// The bit pattern of the binary64 number 100.
pub const HUNDRED: u64 = 0x4059_0000_0000_0000;

/// The sign bit of a binary64 number; alone it is the pattern of the negative zero.
pub const SIGN: u64 = 0x8000_0000_0000_0000;

/// The bit pattern of the binary64 infinity.
pub const INFINITE: u64 = 0x7ff0_0000_0000_0000;

/// `serde_json::from_str::<serde_json::Value>` either fails, or returns the document that the
/// text stands for.
#[verifier::external_body]
fn read_value(text: &str) -> (value: Option<serde_json::Value>)
    ensures
        value is Some <==> parsed_json(text@) is Some,
        value matches Some(v) ==> parsed_json(text@) == Some(value_content(v)),
{
    serde_json::from_str(text).ok()
}

/// Takes a `serde_json::Value` apart: variant by variant, field by field.
#[verifier::external_body]
fn json_from_value(value: serde_json::Value) -> (json: Json)
    ensures
        json@ == value_content(value),
{
    match value {
        serde_json::Value::Null => Json::Null,
        serde_json::Value::Bool(flag) => Json::Bool(flag),
        serde_json::Value::Number(inner) => Json::Number(JsonNumber { inner }),
        serde_json::Value::String(text) => Json::Text(text),
        serde_json::Value::Array(items) => Json::Array(
            items.into_iter().map(json_from_value).collect(),
        ),
        serde_json::Value::Object(fields) => Json::Object(JsonObject {
            fields: fields.into_iter().map(|(key, value)| (key, json_from_value(value))).collect(),
        }),
    }
}

/// Puts a `serde_json::Value` together. An object's fields go into the map one after the other by
/// `serde_json::Map::insert`, which updates the value of a key that is there already, so the last
/// field of a key counts.
#[verifier::external_body]
fn value_from_json(json: Json) -> (value: Value)
    ensures
        value_content(value) == json@,
{
    match json {
        Json::Null => Value::Null,
        Json::Bool(flag) => Value::Bool(flag),
        Json::Number(number) => Value::Number(number.inner),
        Json::Text(text) => Value::String(text),
        Json::Array(items) => Value::Array(items.into_iter().map(value_from_json).collect()),
        Json::Object(object) => {
            let mut map = serde_json::Map::new();
            for (key, value) in object.fields {
                map.insert(key, value_from_json(value));
            }
            Value::Object(map)
        },
    }
}

/// Whether two binary64 numbers are equal: by their bit patterns, unless they are no numbers, and
/// the two zeros are equal too.
pub open spec fn equal_binary64(left: u64, right: u64) -> bool {
    let number = left <= INFINITE || SIGN <= left <= SIGN + INFINITE;
    (left == right && number) || ((left == 0 || left == SIGN) && (right == 0 || right == SIGN))
}

/// Whether two JSON numbers are equal: an integer is never equal to a binary64 number.
pub open spec fn equal_numbers(left: NumberView, right: NumberView) -> bool {
    match (left, right) {
        (NumberView::Unsigned(left), NumberView::Unsigned(right)) => left == right,
        (NumberView::Negative(left), NumberView::Negative(right)) => left == right,
        (NumberView::Binary64(left), NumberView::Binary64(right)) => equal_binary64(left, right),
        _ => false,
    }
}

/// Whether two JSON documents are equal: lists item by item, objects field by field.
pub open spec fn equal_values(left: JsonView, right: JsonView) -> bool
    decreases left,
{
    match (left, right) {
        (JsonView::Null, JsonView::Null) => true,
        (JsonView::Bool(left), JsonView::Bool(right)) => left == right,
        (JsonView::Number(left), JsonView::Number(right)) => equal_numbers(left, right),
        (JsonView::Text(left), JsonView::Text(right)) => left == right,
        (JsonView::Array(left), JsonView::Array(right)) => left.len() == right.len() && forall|
            i: int,
        |
            0 <= i < left.len() ==> #[trigger] equal_values(left[i], right[i]),
        (JsonView::Object(left), JsonView::Object(right)) => left.dom() == right.dom() && forall|
            key: Seq<char>,
        |
            left.contains_key(key) ==> #[trigger] equal_values(left[key], right[key]),
        _ => false,
    }
}

/// `serde_json::Value` compares variant by variant: lists item by item, objects field by field,
/// integers with integers, and binary64 numbers with each other.
#[verifier::external_body]
fn same_value(left: &Value, right: &Value) -> (same: bool)
    ensures
        same == equal_values(value_content(*left), value_content(*right)),
{
    left == right
}

/// `serde_json::Value` prints itself as compact JSON; the text depends on what the value holds.
#[verifier::external_body]
fn print_value(value: &serde_json::Value) -> (text: String)
    ensures
        text@ == printed_json(value_content(*value)),
{
    value.to_string()
}

/// `serde_json::Number::clone` keeps what the number holds.
#[verifier::external_body]
fn copy_number(number: &serde_json::Number) -> (copy: serde_json::Number)
    ensures
        number_content(copy) == number_content(*number),
{
    number.clone()
}

/// `serde_json::Number::from(u64)` is the number that holds this integer.
#[verifier::external_body]
fn number_from_u64(value: u64) -> (number: serde_json::Number)
    ensures
        number_content(number) == NumberView::Unsigned(value),
{
    serde_json::Number::from(value)
}

/// `serde_json::Number::as_u64` gives back an integer from 0 up, and nothing for any other
/// number.
#[verifier::external_body]
fn number_as_u64(number: &serde_json::Number) -> (value: Option<u64>)
    ensures
        value == (match number_content(*number) {
            NumberView::Unsigned(value) => Some(value),
            _ => None,
        }),
{
    number.as_u64()
}

/// `serde_json::Number::as_f64` gives a binary64 number as it is and converts an integer to the
/// nearest one. So an integer from 0 up is finite, has no sign bit and reaches the pattern of 100
/// exactly from 100 on, and a negative integer has the sign bit and is not zero.
#[verifier::external_body]
fn number_binary64(number: &serde_json::Number) -> (bits: Option<u64>)
    ensures
        bits == Some(nearest_binary64(number_content(*number))),
        match number_content(*number) {
            NumberView::Unsigned(value) => bits->0 < INFINITE && (value >= 100 <==> bits->0
                >= HUNDRED),
            NumberView::Negative(_) => bits->0 > SIGN,
            NumberView::Binary64(pattern) => bits->0 == pattern,
        },
{
    number.as_f64().map(|value| value.to_bits())
}

impl JsonNumber {
    pub closed spec fn view(&self) -> NumberView {
        number_content(self.inner)
    }

    /// The number as an integer from 0 up, if it is one.
    pub fn as_u64(&self) -> (value: Option<u64>)
        ensures
            value == as_u64(Some(JsonView::Number(self@))),
    {
        number_as_u64(&self.inner)
    }

    /// The bit pattern of the binary64 number nearest to this one.
    pub fn binary64(&self) -> (bits: Option<u64>)
        ensures
            bits == Some(nearest_binary64(self@)),
            match self@ {
                NumberView::Unsigned(value) => bits->0 < INFINITE && (value >= 100 <==> bits->0
                    >= HUNDRED),
                NumberView::Negative(_) => bits->0 > SIGN,
                NumberView::Binary64(pattern) => bits->0 == pattern,
            },
    {
        number_binary64(&self.inner)
    }
}

impl Clone for JsonNumber {
    fn clone(&self) -> (copy: JsonNumber)
        ensures
            copy@ == self@,
    {
        JsonNumber { inner: copy_number(&self.inner) }
    }
}

/// What the items of an array hold.
pub open spec fn items_view(items: Seq<Json>) -> Seq<JsonView>
    decreases items,
{
    if items.len() == 0 {
        seq![]
    } else {
        items_view(items.drop_last()).push(items.last().view())
    }
}

/// What the fields of an object hold, the last one of each key.
pub open spec fn fields_view(fields: Seq<(String, Json)>) -> Fields
    decreases fields,
{
    if fields.len() == 0 {
        Map::empty()
    } else {
        fields_view(fields.drop_last()).insert(fields.last().0@, fields.last().1.view())
    }
}

pub proof fn lemma_items_view(items: Seq<Json>)
    ensures
        items_view(items).len() == items.len(),
        forall|i: int| 0 <= i < items.len() ==> #[trigger] items_view(items)[i] == items[i]@,
    decreases items.len(),
{
    if items.len() > 0 {
        lemma_items_view(items.drop_last());
        assert forall|i: int| 0 <= i < items.len() implies #[trigger] items_view(items)[i]
            == items[i]@ by {
            if i < items.len() - 1 {
                assert(items.drop_last()[i] == items[i]);
            }
        }
    }
}

pub proof fn lemma_items_view_push(items: Seq<Json>, item: Json)
    ensures
        items_view(items.push(item)) == items_view(items).push(item@),
{
    assert(items.push(item).drop_last() == items);
}

pub proof fn lemma_items_view_append(left: Seq<Json>, right: Seq<Json>)
    ensures
        items_view(left + right) == items_view(left) + items_view(right),
    decreases right.len(),
{
    if right.len() == 0 {
        assert(left + right == left);
        assert(items_view(left) + items_view(right) == items_view(left));
    } else {
        lemma_items_view_append(left, right.drop_last());
        assert((left + right).drop_last() == left + right.drop_last());
        assert(items_view(left + right) == items_view(left) + items_view(right));
    }
}

impl JsonObject {
    pub open spec fn view(&self) -> Fields {
        fields_view(self.fields@)
    }

    /// An object without fields.
    pub fn new() -> (object: JsonObject)
        ensures
            object@ == Map::<Seq<char>, JsonView>::empty(),
    {
        JsonObject { fields: Vec::new() }
    }

    /// The field `key`, if the object has it.
    pub fn get(&self, key: &str) -> (value: Option<&Json>)
        ensures
            view_option(value) == field(self@, key@),
    {
        let mut i: usize = self.fields.len();
        assert(self.fields@.take(i as int) == self.fields@);
        while i > 0
            invariant
                i <= self.fields.len(),
                field(self@, key@) == field(fields_view(self.fields@.take(i as int)), key@),
            decreases i,
        {
            proof {
                assert(self.fields@.take(i as int).drop_last() == self.fields@.take(i - 1));
            }
            i -= 1;
            if same_text(self.fields[i].0.as_str(), key) {
                return Some(&self.fields[i].1);
            }
        }
        None
    }

    /// Sets the field `key`, replacing the value that it had.
    pub fn set(&mut self, key: &str, value: Json)
        ensures
            final(self)@ == old(self)@.insert(key@, value@),
    {
        let _ = self.remove(key);
        let ghost before = self.fields@;
        self.fields.push((key.to_owned(), value));
        proof {
            assert(self.fields@.drop_last() == before);
            assert(old(self)@.remove(key@).insert(key@, value@) =~= old(self)@.insert(
                key@,
                value@,
            ));
        }
    }

    /// The object with the field `key` set.
    pub fn with(self, key: &str, value: Json) -> (object: JsonObject)
        ensures
            object@ == self@.insert(key@, value@),
    {
        let mut object = self;
        object.set(key, value);
        object
    }

    /// Takes the field `key` out of the object and gives back what it held.
    pub fn remove(&mut self, key: &str) -> (removed: Option<Json>)
        ensures
            final(self)@ == old(self)@.remove(key@),
            removed is Some <==> old(self)@.contains_key(key@),
            removed matches Some(json) ==> json@ == old(self)@[key@],
    {
        let mut removed: Option<Json> = None;
        let ghost whole = self.fields@;
        let ghost mut seen: int = 0;
        let mut i: usize = 0;
        while i < self.fields.len()
            invariant
                0 <= i <= self.fields.len(),
                0 <= seen <= whole.len(),
                self.fields@.skip(i as int) == whole.skip(seen),
                fields_view(self.fields@.take(i as int)) == fields_view(whole.take(seen)).remove(
                    key@,
                ),
                removed is Some <==> fields_view(whole.take(seen)).contains_key(key@),
                removed matches Some(json) ==> json@ == fields_view(whole.take(seen))[key@],
            decreases self.fields.len() - i,
        {
            let ghost before = self.fields@;
            proof {
                assert(before.skip(i as int).len() > 0);
                assert(before.skip(i as int)[0] == before[i as int]);
                assert(whole.skip(seen)[0] == whole[seen]);
                assert(whole.take(seen + 1).drop_last() == whole.take(seen));
                assert(before.skip(i + 1) == before.skip(i as int).drop_first());
                assert(whole.skip(seen + 1) == whole.skip(seen).drop_first());
                seen = seen + 1;
            }
            if same_text(self.fields[i].0.as_str(), key) {
                let entry = self.fields.remove(i);
                removed = Some(entry.1);
                proof {
                    assert(self.fields@.skip(i as int) == before.skip(i + 1));
                    assert(self.fields@.take(i as int) == before.take(i as int));
                    assert(fields_view(whole.take(seen)).remove(key@) =~= fields_view(
                        whole.take(seen - 1),
                    ).remove(key@));
                }
            } else {
                i += 1;
                proof {
                    assert(before.take(i as int).drop_last() == before.take(i - 1));
                    assert(fields_view(whole.take(seen)).remove(key@) =~= fields_view(
                        whole.take(seen - 1),
                    ).remove(key@).insert(before[i - 1].0@, before[i - 1].1@));
                }
            }
        }
        proof {
            assert(whole.skip(seen).len() == 0);
            assert(whole.take(seen) == whole);
            assert(self.fields@.take(i as int) == self.fields@);
        }
        removed
    }

    /// Whether the object has no field.
    pub fn is_empty(&self) -> (empty: bool)
        ensures
            empty == (self@ == Map::<Seq<char>, JsonView>::empty()),
    {
        proof {
            if self.fields@.len() > 0 {
                assert(self@.contains_key(self.fields@.last().0@));
            }
        }
        self.fields.len() == 0
    }
}

impl Clone for JsonObject {
    fn clone(&self) -> (copy: JsonObject)
        ensures
            copy@ == self@,
        decreases self,
    {
        JsonObject { fields: copy_fields(&self.fields) }
    }
}

impl Json {
    pub open spec fn view(&self) -> JsonView
        decreases self,
    {
        match self {
            Json::Null => JsonView::Null,
            Json::Bool(flag) => JsonView::Bool(*flag),
            Json::Number(number) => JsonView::Number(number@),
            Json::Text(text) => JsonView::Text(text@),
            Json::Array(items) => JsonView::Array(items_view(items@)),
            Json::Object(object) => JsonView::Object(fields_view(object.fields@)),
        }
    }

    /// Reads a JSON document.
    pub fn parse(text: &str) -> (json: Option<Json>)
        ensures
            json is Some <==> parsed_json(text@) is Some,
            json matches Some(j) ==> parsed_json(text@) == Some(j@),
    {
        match read_value(text) {
            Some(value) => Some(json_from_value(value)),
            None => None,
        }
    }

    /// The document as compact JSON text.
    pub fn print(&self) -> (text: String)
        ensures
            text@ == printed_json(self@),
    {
        print_value(&value_from_json(self.clone()))
    }

    /// Whether two documents are equal.
    pub fn same(&self, other: &Json) -> (same: bool)
        ensures
            same == equal_values(self@, other@),
    {
        same_value(&value_from_json(self.clone()), &value_from_json(other.clone()))
    }

    /// A JSON string.
    pub fn text(text: &str) -> (json: Json)
        ensures
            json@ == JsonView::Text(text@),
    {
        Json::Text(text.to_owned())
    }

    /// A JSON integer from 0 up.
    pub fn unsigned(value: u64) -> (json: Json)
        ensures
            json@ == JsonView::Number(NumberView::Unsigned(value)),
    {
        Json::Number(JsonNumber { inner: number_from_u64(value) })
    }

    /// A JSON array.
    pub fn array(items: Vec<Json>) -> (json: Json)
        ensures
            json@ == JsonView::Array(items_view(items@)),
    {
        Json::Array(items)
    }

    /// A JSON object.
    pub fn object(object: JsonObject) -> (json: Json)
        ensures
            json@ == JsonView::Object(object@),
    {
        Json::Object(object)
    }

    /// The field `key`, if this is an object that has it.
    pub fn get(&self, key: &str) -> (value: Option<&Json>)
        ensures
            view_option(value) == get(Some(self@), key@),
    {
        match self {
            Json::Object(object) => object.get(key),
            _ => None,
        }
    }

    /// The text, if this is a string.
    pub fn as_text(&self) -> (text: Option<&str>)
        ensures
            view_text(text) == as_text(Some(self@)),
    {
        match self {
            Json::Text(text) => Some(text.as_str()),
            _ => None,
        }
    }

    /// The integer, if this is one from 0 up.
    pub fn as_u64(&self) -> (value: Option<u64>)
        ensures
            value == as_u64(Some(self@)),
    {
        match self {
            Json::Number(number) => number.as_u64(),
            _ => None,
        }
    }

    /// The items, if this is an array.
    pub fn as_array(&self) -> (items: Option<&Vec<Json>>)
        ensures
            items is Some <==> as_array(Some(self@)) is Some,
            items matches Some(items) ==> as_array(Some(self@)) == Some(items_view(items@)),
    {
        match self {
            Json::Array(items) => Some(items),
            _ => None,
        }
    }

    /// The fields, if this is an object.
    pub fn as_object(&self) -> (object: Option<&JsonObject>)
        ensures
            object is Some <==> as_object(Some(self@)) is Some,
            object matches Some(object) ==> as_object(Some(self@)) == Some(object@),
    {
        match self {
            Json::Object(object) => Some(object),
            _ => None,
        }
    }

    pub fn is_null(&self) -> (null: bool)
        ensures
            null == (self@ == JsonView::Null),
    {
        match self {
            Json::Null => true,
            _ => false,
        }
    }

    /// The text of the field `key`, if this is an object with a string there.
    pub fn text_at(&self, key: &str) -> (text: Option<&str>)
        ensures
            view_text(text) == as_text(get(Some(self@), key@)),
    {
        match self.get(key) {
            Some(value) => value.as_text(),
            None => None,
        }
    }

    /// The integer of the field `key`, if this is an object with one from 0 up there.
    pub fn u64_at(&self, key: &str) -> (value: Option<u64>)
        ensures
            value == as_u64(get(Some(self@), key@)),
    {
        match self.get(key) {
            Some(value) => value.as_u64(),
            None => None,
        }
    }

    /// The items of the field `key`, if this is an object with an array there.
    pub fn array_at(&self, key: &str) -> (items: Option<&Vec<Json>>)
        ensures
            items is Some <==> as_array(get(Some(self@), key@)) is Some,
            items matches Some(items) ==> as_array(get(Some(self@), key@)) == Some(
                items_view(items@),
            ),
    {
        match self.get(key) {
            Some(value) => value.as_array(),
            None => None,
        }
    }
}

impl Clone for Json {
    fn clone(&self) -> (copy: Json)
        ensures
            copy@ == self@,
        decreases self,
    {
        match self {
            Json::Null => Json::Null,
            Json::Bool(flag) => Json::Bool(*flag),
            Json::Number(number) => Json::Number(number.clone()),
            Json::Text(text) => Json::Text(text.clone()),
            Json::Array(items) => Json::Array(copy_items(items)),
            Json::Object(object) => Json::Object(object.clone()),
        }
    }
}

/// An array of one item.
pub fn lone(item: Json) -> (array: Json)
    ensures
        array@ == JsonView::Array(seq![item@]),
{
    let mut items: Vec<Json> = Vec::new();
    proof {
        lemma_items_view_push(items@, item);
        assert(items_view(items@).push(item@) == seq![item@]);
    }
    items.push(item);
    Json::array(items)
}

/// The items of an array once more.
pub fn copy_items(items: &Vec<Json>) -> (copies: Vec<Json>)
    ensures
        items_view(copies@) == items_view(items@),
    decreases items,
{
    let mut copies: Vec<Json> = Vec::new();
    let mut i: usize = 0;
    while i < items.len()
        invariant
            i <= items.len(),
            copies.len() == i,
            items_view(copies@) == items_view(items@.take(i as int)),
        decreases items.len() - i,
    {
        let ghost before = copies@;
        assert(decreases_to!(items => items@));
        assert(decreases_to!(items@ => items@[i as int]));
        copies.push(items[i].clone());
        proof {
            assert(copies@.drop_last() == before);
            assert(items@.take(i + 1).drop_last() == items@.take(i as int));
        }
        i += 1;
    }
    assert(items@.take(i as int) == items@);
    copies
}

fn copy_fields(fields: &Vec<(String, Json)>) -> (copies: Vec<(String, Json)>)
    ensures
        fields_view(copies@) == fields_view(fields@),
    decreases fields,
{
    let mut copies: Vec<(String, Json)> = Vec::new();
    let mut i: usize = 0;
    while i < fields.len()
        invariant
            i <= fields.len(),
            copies.len() == i,
            fields_view(copies@) == fields_view(fields@.take(i as int)),
        decreases fields.len() - i,
    {
        let ghost before = copies@;
        assert(decreases_to!(fields => fields@));
        assert(decreases_to!(fields@ => fields@[i as int]));
        assert(decreases_to!(fields@[i as int] => fields@[i as int].1));
        copies.push((fields[i].0.clone(), fields[i].1.clone()));
        proof {
            assert(copies@.drop_last() == before);
            assert(fields@.take(i + 1).drop_last() == fields@.take(i as int));
        }
        i += 1;
    }
    assert(fields@.take(i as int) == fields@);
    copies
}

} // verus!
