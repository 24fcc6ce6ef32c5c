//! Calls into other crates and into parts of the standard library. Everything
//! claimed here is believed, not proved; the rest of the crate is proved from
//! these claims.
use crate::text::{all_ascii, lowercase, option_view, views};
use serde_json::Value;
use vstd::prelude::*;

verus! {

/// What a URL is made of, as far as endpoint settings are concerned.
#[derive(Debug)]
pub struct UrlParts {
    pub scheme: String,
    pub username: String,
    pub password: Option<String>,
    pub query: Option<String>,
    pub fragment: Option<String>,
}

/// The text held by [`UrlParts`].
#[verifier::ext_equal]
pub struct UrlPartsView {
    pub scheme: Seq<char>,
    pub username: Seq<char>,
    pub password: Option<Seq<char>>,
    pub query: Option<Seq<char>>,
    pub fragment: Option<Seq<char>>,
}

impl View for UrlParts {
    type V = UrlPartsView;

    open spec fn view(&self) -> UrlPartsView {
        UrlPartsView {
            scheme: self.scheme@,
            username: self.username@,
            password: option_view(self.password),
            query: option_view(self.query),
            fragment: option_view(self.fragment),
        }
    }
}

/// The text held by an optional [`UrlParts`].
pub open spec fn url_view(parts: Option<UrlParts>) -> Option<UrlPartsView> {
    match parts {
        Some(parts) => Some(parts@),
        None => None,
    }
}

/// The parts that `reqwest::Url::parse` finds in a text, nothing if it is no
/// absolute URL.
pub uninterp spec fn parsed_url(value: Seq<char>) -> Option<UrlPartsView>;

/// `reqwest::Url::parse`, with the accessors `scheme`, `username`, `password`,
/// `query` and `fragment` of the URL that it yields. Claimed: the outcome is
/// determined by the text. Which parts a given text has is not stated.
#[verifier::external_body]
pub(crate) fn parse_url(value: &str) -> (r: Option<UrlParts>)
    ensures
        url_view(r) == parsed_url(value@),
{
    match reqwest::Url::parse(value) {
        Ok(url) => Some(UrlParts {
            scheme: url.scheme().to_owned(),
            username: url.username().to_owned(),
            password: url.password().map(str::to_owned),
            query: url.query().map(str::to_owned),
            fragment: url.fragment().map(str::to_owned),
        }),
        Err(_) => None,
    }
}

/// The text in small letters, as Unicode defines them.
pub uninterp spec fn unicode_lowercase(value: Seq<char>) -> Seq<char>;

/// `str::to_lowercase`. Claimed: the outcome is determined by the text, and on
/// ASCII text exactly the capitals change. What becomes of other letters is not
/// stated.
#[verifier::external_body]
pub(crate) fn to_unicode_lowercase(value: &str) -> (r: String)
    ensures
        r@ == unicode_lowercase(value@),
        all_ascii(value@) ==> r@ == lowercase(value@),
{
    value.to_lowercase()
}

/// The character for a six bit value: `A` to `Z`, `a` to `z`, `0` to `9`, `+`
/// and `/`.
pub open spec fn base64_digit(value: int) -> char {
    if value < 26 {
        (0x41 + value) as char
    } else if value < 52 {
        (0x61 + (value - 26)) as char
    } else if value < 62 {
        (0x30 + (value - 52)) as char
    } else if value == 62 {
        '+'
    } else {
        '/'
    }
}

/// Standard base64 with padding: three bytes are four characters, and one or
/// two bytes at the end are filled up with `=`.
pub open spec fn base64_text(bytes: Seq<u8>) -> Seq<char>
    decreases bytes.len(),
{
    if bytes.len() == 0 {
        Seq::empty()
    } else {
        let a = bytes[0] as int;
        let b = if bytes.len() > 1 {
            bytes[1] as int
        } else {
            0
        };
        let c = if bytes.len() > 2 {
            bytes[2] as int
        } else {
            0
        };
        let group = seq![
            base64_digit(a / 4),
            base64_digit(a % 4 * 16 + b / 16),
            if bytes.len() > 1 {
                base64_digit(b % 16 * 4 + c / 64)
            } else {
                '='
            },
            if bytes.len() > 2 {
                base64_digit(c % 64)
            } else {
                '='
            },
        ];
        if bytes.len() <= 3 {
            group
        } else {
            group + base64_text(bytes.skip(3))
        }
    }
}

/// `base64::engine::general_purpose::STANDARD.encode`. Claimed: the standard
/// alphabet with padding. It panics where the encoded length does not fit into
/// a `usize`, so such input is left out.
#[verifier::external_body]
pub(crate) fn base64_standard(bytes: &[u8]) -> (r: String)
    requires
        (bytes@.len() + 2) / 3 * 4 <= usize::MAX,
    ensures
        r@ == base64_text(bytes@),
{
    base64::Engine::encode(&base64::engine::general_purpose::STANDARD, bytes)
}

/// A value of a JSON object. Nested values are given by their JSON text.
#[derive(Debug)]
pub enum JsonValue {
    Text(String),
    Texts(Vec<String>),
    Whole(u64),
    Flag(bool),
    Json(String),
    Jsons(Vec<String>),
}

/// The content of a [`JsonValue`].
pub enum JsonValueView {
    Text(Seq<char>),
    Texts(Seq<Seq<char>>),
    Whole(u64),
    Flag(bool),
    Json(Seq<char>),
    Jsons(Seq<Seq<char>>),
}

/// A named value of a JSON object.
#[derive(Debug)]
pub struct JsonField {
    pub name: String,
    pub value: JsonValue,
}

impl View for JsonField {
    type V = (Seq<char>, JsonValueView);

    open spec fn view(&self) -> (Seq<char>, JsonValueView) {
        (
            self.name@,
            match self.value {
                JsonValue::Text(text) => JsonValueView::Text(text@),
                JsonValue::Texts(texts) => JsonValueView::Texts(views(texts@)),
                JsonValue::Whole(number) => JsonValueView::Whole(number),
                JsonValue::Flag(flag) => JsonValueView::Flag(flag),
                JsonValue::Json(json) => JsonValueView::Json(json@),
                JsonValue::Jsons(list) => JsonValueView::Jsons(views(list@)),
            },
        )
    }
}

/// The content of each field.
pub open spec fn field_views(fields: Seq<JsonField>) -> Seq<(Seq<char>, JsonValueView)> {
    Seq::new(fields.len(), |i: int| fields[i]@)
}

/// The compact JSON text of the object with these fields.
pub uninterp spec fn json_object_text(fields: Seq<(Seq<char>, JsonValueView)>) -> Seq<char>;

/// `serde_json::Value::to_string` on an object with the given fields, nested
/// values read from their text by `serde_json::from_str` (one that is no JSON is
/// null). Claimed: the text is determined by the fields. How it is written is not
/// stated.
#[verifier::external_body]
pub(crate) fn json_object(fields: &[JsonField]) -> (r: String)
    ensures
        r@ == json_object_text(field_views(fields@)),
{
    let object = fields.iter().map(|field| {
        let value = match &field.value {
            JsonValue::Text(text) => Value::from(text.as_str()),
            JsonValue::Texts(texts) => Value::from(texts.as_slice()),
            JsonValue::Whole(number) => Value::from(*number),
            JsonValue::Flag(flag) => Value::from(*flag),
            JsonValue::Json(json) => serde_json::from_str(json).unwrap_or_default(),
            JsonValue::Jsons(list) => {
                list.iter().map(|json| serde_json::from_str::<Value>(json).unwrap_or_default()).collect()
            }
        };
        (field.name.clone(), value)
    });
    Value::Object(object.collect()).to_string()
}

} // verus!
