//! JSON texts, as `serde_json` reads and writes them.
use vstd::prelude::*;

use crate::errors::stated;
use crate::text;

verus! {

/// The value of an entry of an object.
#[derive(Debug)]
pub enum Part {
    Null,
    Number(i64),
    Text(String),
    /// A value that is given by its JSON text.
    Json(String),
}

/// What the contracts say of the value of an entry.
pub enum PartModel {
    Null,
    Number(int),
    Text(Seq<char>),
    Json(Seq<char>),
}

impl View for Part {
    type V = PartModel;

    open spec fn view(&self) -> PartModel {
        match *self {
            Part::Null => PartModel::Null,
            Part::Number(number) => PartModel::Number(number as int),
            Part::Text(value) => PartModel::Text(value@),
            Part::Json(value) => PartModel::Json(value@),
        }
    }
}

/// An entry of an object.
#[derive(Debug)]
pub struct Entry {
    pub key: String,
    pub value: Part,
}

/// The keys and values of an object, in order.
pub open spec fn entries(list: Seq<Entry>) -> Seq<(Seq<char>, PartModel)> {
    list.map_values(|entry: Entry| (entry.key@, entry.value@))
}

/// An optional text as the value of an entry.
pub open spec fn optional(value: Option<Seq<char>>) -> PartModel {
    match value {
        Some(value) => PartModel::Text(value),
        None => PartModel::Null,
    }
}

/// The result, or the message of the error, as texts.
pub open spec fn written(result: Result<String, String>) -> Result<Seq<char>, Seq<char>> {
    match result {
        Ok(out) => Ok(out@),
        Err(message) => Err(message@),
    }
}

/// What `serde_json::from_str` says against a text that is to be any JSON value.
pub uninterp spec fn json_problem(source: Seq<char>) -> Option<Seq<char>>;

/// What `serde_json::to_string` writes for an object of these entries, or what
/// `serde_json::from_str` says against one of the JSON texts among them.
pub uninterp spec fn object_text(list: Seq<(Seq<char>, PartModel)>) -> Result<
    Seq<char>,
    Seq<char>,
>;

/// What `serde_json::to_string_pretty` writes for the value that a text holds, or what
/// `serde_json::from_str` says against the text.
pub uninterp spec fn pretty_text(source: Seq<char>) -> Result<Seq<char>, Seq<char>>;

/// The text that `serde_json::Value::pointer` finds in the value that a text holds.
pub uninterp spec fn pointed_text(source: Seq<char>, pointer: Seq<char>) -> Option<Seq<char>>;

/// Whether the key can stand in a pointer as it is, and is none that `serde_json` keeps to
/// itself.
pub open spec fn plain_key(key: Seq<char>) -> bool {
    !key.contains('/') && !key.contains('~') && !key.contains('$')
}

/// Whether all keys are plain, and no value is given by its JSON text.
pub open spec fn plain_entries(list: Seq<(Seq<char>, PartModel)>) -> bool {
    forall|k: int|
        0 <= k < list.len() ==> plain_key((#[trigger] list[k]).0) && list[k].1 !is Json
}

/// The text that the value of an entry holds, where it is one.
pub open spec fn text_of(value: PartModel) -> Option<Seq<char>> {
    match value {
        PartModel::Text(value) => Some(value),
        _ => None,
    }
}

/// Whether the entries are found in the JSON text under their keys. Of the entries with one key
/// the last counts.
pub open spec fn reads_back(source: Seq<char>, list: Seq<(Seq<char>, PartModel)>) -> bool {
    forall|k: int|
        0 <= k < list.len() && (forall|j: int|
            k < j < list.len() ==> (#[trigger] list[j]).0 != list[k].0) ==> pointed_text(
            source,
            seq!['/'] + (#[trigger] list[k]).0,
        ) == text_of(list[k].1)
}

/// Whether the value that `serde_json::from_slice` reads from bytes is an object. None where the
/// bytes are no JSON.
pub uninterp spec fn json_object(bytes: Seq<u8>) -> Option<bool>;

/// `serde_json::from_slice`, with `serde_json::Value::is_object`: whether the bytes hold a JSON
/// object. None where they are no JSON.
#[verifier::external_body]
pub(crate) fn is_object(bytes: &[u8]) -> (object: Option<bool>)
    ensures
        object == json_object(bytes@),
{
    serde_json::from_slice::<serde_json::Value>(bytes).ok().map(|value| value.is_object())
}

/// `serde_json::from_str`: whether the text is JSON, and what is wrong with it where it is not.
#[verifier::external_body]
pub(crate) fn check_json(source: &str) -> (result: Result<(), String>)
    ensures
        stated(result) == json_problem(source@),
{
    serde_json::from_str::<serde_json::Value>(source).map(|_| ()).map_err(|error| error.to_string())
}

/// `serde_json::to_string` on an object of these entries. The JSON texts among them are read by
/// `serde_json::from_str`, and the first that is none gives the error. Entries without such texts
/// are always written, and under plain keys they are found again in what was written.
#[verifier::external_body]
pub(crate) fn write_object(list: &Vec<Entry>) -> (result: Result<String, String>)
    ensures
        written(result) == object_text(entries(list@)),
        plain_entries(entries(list@)) ==> result is Ok,
        plain_entries(entries(list@)) && result is Ok ==> reads_back(
            result->Ok_0@,
            entries(list@),
        ),
{
    let mut map = serde_json::Map::new();
    for entry in list {
        let value = match &entry.value {
            Part::Null => serde_json::Value::Null,
            Part::Number(number) => serde_json::Value::from(*number),
            Part::Text(value) => serde_json::Value::from(value.as_str()),
            Part::Json(value) => serde_json::from_str(value).map_err(|error| error.to_string())?,
        };
        map.insert(entry.key.clone(), value);
    }
    serde_json::to_string(&map).map_err(|error| error.to_string())
}

/// `serde_json::to_string_pretty` on the value that `serde_json::from_str` reads from a text.
#[verifier::external_body]
pub(crate) fn write_pretty(source: &str) -> (result: Result<String, String>)
    ensures
        written(result) == pretty_text(source@),
{
    let value: serde_json::Value = serde_json::from_str(source).map_err(|error| error.to_string())?;
    serde_json::to_string_pretty(&value).map_err(|error| error.to_string())
}

/// `serde_json::Value::pointer`: the text at a place in the value that a text holds. None where
/// the text is no JSON, where it has no such place, and where no text stands there.
#[verifier::external_body]
pub(crate) fn text_at(source: &str, pointer: &str) -> (found: Option<String>)
    ensures
        text::opt_text(found) == pointed_text(source@, pointer@),
{
    let value: serde_json::Value = serde_json::from_str(source).ok()?;
    value.pointer(pointer)?.as_str().map(str::to_owned)
}

/// The text that `serde_json::to_string` writes for a list of texts, or the text of its error.
pub uninterp spec fn list_json(items: Seq<Seq<char>>) -> Result<Seq<char>, Seq<char>>;

/// `serde_json::to_string` on a list of texts.
#[verifier::external_body]
pub(crate) fn write_list(items: &Vec<String>) -> (result: Result<String, String>)
    ensures
        written(result) == list_json(text::texts(items@)),
{
    serde_json::to_string(items).map_err(|error| error.to_string())
}

/// What the contracts say of a list of which some items are texts.
pub open spec fn opt_texts(items: Seq<Option<String>>) -> Seq<Option<Seq<char>>> {
    items.map_values(|item: Option<String>| text::opt_text(item))
}

/// The items of the JSON list that a text holds, each with its text where it is one. None where
/// the text holds no list.
pub uninterp spec fn list_texts(source: Seq<char>) -> Option<Seq<Option<Seq<char>>>>;

/// `serde_json::Value::as_array` on what `serde_json::from_str` reads from a text, and
/// `serde_json::Value::as_str` on each item of the list.
#[verifier::external_body]
pub(crate) fn texts_in(source: &str) -> (items: Option<Vec<Option<String>>>)
    ensures
        match items {
            Some(items) => list_texts(source@) == Some(opt_texts(items@)),
            None => list_texts(source@) is None,
        },
{
    let value: serde_json::Value = serde_json::from_str(source).ok()?;
    let items = value.as_array()?;
    Some(items.iter().map(|item| item.as_str().map(str::to_owned)).collect())
}

/// An entry with a text.
pub fn text_entry(key: &str, value: &str) -> (entry: Entry)
    ensures
        entry.key@ == key@,
        entry.value@ == PartModel::Text(value@),
{
    Entry { key: key.to_owned(), value: Part::Text(value.to_owned()) }
}

/// An entry with a text, where there is one.
pub fn optional_entry(key: &str, value: &Option<String>) -> (entry: Entry)
    ensures
        entry.key@ == key@,
        entry.value@ == optional(text::opt_text(*value)),
{
    match value {
        Some(value) => Entry { key: key.to_owned(), value: Part::Text(value.as_str().to_owned()) },
        None => Entry { key: key.to_owned(), value: Part::Null },
    }
}

/// An entry with a value that is given by its JSON text.
pub fn json_entry(key: &str, value: &str) -> (entry: Entry)
    ensures
        entry.key@ == key@,
        entry.value@ == PartModel::Json(value@),
{
    Entry { key: key.to_owned(), value: Part::Json(value.to_owned()) }
}

/// An entry with a number.
pub fn number_entry(key: &str, value: i64) -> (entry: Entry)
    ensures
        entry.key@ == key@,
        entry.value@ == PartModel::Number(value as int),
{
    Entry { key: key.to_owned(), value: Part::Number(value) }
}

} // verus!
