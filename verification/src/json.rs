//! Fields of JSON objects.
use crate::outside::{
    field_views, json_object, json_object_text, JsonField, JsonValue, JsonValueView,
};
use crate::text::views;
use vstd::prelude::*;

verus! {

/// A field that holds text.
pub fn text_field(name: &str, text: &str) -> (r: JsonField)
    ensures
        r@ == (name@, JsonValueView::Text(text@)),
{
    JsonField { name: name.to_owned(), value: JsonValue::Text(text.to_owned()) }
}

/// A field that holds a list of texts.
pub fn texts_field(name: &str, texts: Vec<String>) -> (r: JsonField)
    ensures
        r@ == (name@, JsonValueView::Texts(views(texts@))),
{
    JsonField { name: name.to_owned(), value: JsonValue::Texts(texts) }
}

/// A field that holds a whole number.
pub fn whole_field(name: &str, number: u64) -> (r: JsonField)
    ensures
        r@ == (name@, JsonValueView::Whole(number)),
{
    JsonField { name: name.to_owned(), value: JsonValue::Whole(number) }
}

/// A field that holds `true` or `false`.
pub fn flag_field(name: &str, flag: bool) -> (r: JsonField)
    ensures
        r@ == (name@, JsonValueView::Flag(flag)),
{
    JsonField { name: name.to_owned(), value: JsonValue::Flag(flag) }
}

/// A field that holds the value with this JSON text.
pub fn json_field(name: &str, json: String) -> (r: JsonField)
    ensures
        r@ == (name@, JsonValueView::Json(json@)),
{
    JsonField { name: name.to_owned(), value: JsonValue::Json(json) }
}

/// A field that holds a list of the values with these JSON texts.
pub fn jsons_field(name: &str, list: Vec<String>) -> (r: JsonField)
    ensures
        r@ == (name@, JsonValueView::Jsons(views(list@))),
{
    JsonField { name: name.to_owned(), value: JsonValue::Jsons(list) }
}

/// The JSON text of an object with two fields.
pub fn pair(first: JsonField, second: JsonField) -> (r: String)
    ensures
        r@ == json_object_text(seq![first@, second@]),
{
    let mut fields: Vec<JsonField> = Vec::new();
    fields.push(first);
    fields.push(second);
    assert(field_views(fields@) =~= seq![first@, second@]);
    json_object(fields.as_slice())
}

} // verus!
