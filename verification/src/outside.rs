//! Every call that leaves the verified code. What these contracts claim is
//! believed, not proved.
use crate::json::{
    entries_map, found, is_object_of, is_readable_map, is_whole, opt_view, outside_entries,
    outside_items, reads_back, JsonNumber, JsonView,
};
use crate::numbers::decimal;
use crate::text::{ascii_lowered, ascii_uppered, begins_with, is_ascii_text, spaced, views};
use base64::Engine;
use vstd::prelude::*;

verus! {

// ---------------------------------------------------------------------------
// The standard library
// ---------------------------------------------------------------------------

/// `String::push`: appends one character to the end of the string.
pub assume_specification[ String::push ](s: &mut String, c: char)
    ensures
        final(s)@ == old(s)@.push(c),
;

/// The Unicode lower case of a text, as `str::to_lowercase` gives it.
pub uninterp spec fn lowercased(s: Seq<char>) -> Seq<char>;

/// `str::to_lowercase`: the Unicode lower case of the text. In a text of ASCII
/// characters the capital letters become small ones and nothing else changes.
pub assume_specification[ str::to_lowercase ](s: &str) -> (r: String)
    ensures
        r@ == lowercased(s@),
        is_ascii_text(s@) ==> r@ == ascii_lowered(s@),
;

/// The Unicode upper case of a text, as `str::to_uppercase` gives it.
pub uninterp spec fn uppercased(s: Seq<char>) -> Seq<char>;

/// `str::to_uppercase`: the Unicode upper case of the text. In a text of ASCII
/// characters the small letters become capitals and nothing else changes.
pub assume_specification[ str::to_uppercase ](s: &str) -> (r: String)
    ensures
        r@ == uppercased(s@),
        is_ascii_text(s@) ==> r@ == ascii_uppered(s@),
;

// ---------------------------------------------------------------------------
// regex
// ---------------------------------------------------------------------------

/// `Regex::replace_all` with the pattern for a run of white space: every
/// longest run of white space gives way to the replacement. A replacement
/// without a dollar sign is taken as it stands.
#[verifier::external_body]
pub(crate) fn replace_white_runs(pattern: &str, text: &str, with: &str) -> (r: String)
    requires
        pattern@ == "\\s+"@,
        !with@.contains('$'),
    ensures
        r@ == spaced(text@, with@),
{
    regex::Regex::new(pattern).unwrap().replace_all(text, with).into_owned()
}

/// What the first group of `pattern` captures in each match in `text`, from
/// left to right.
pub uninterp spec fn first_groups(pattern: Seq<char>, text: Seq<char>) -> Seq<Seq<char>>;

/// The pattern that finds the names of book formats, as whole words in any
/// case.
pub open spec fn format_pattern() -> Seq<char> {
    "(?i)\\b(mp3|m4b|flac|aac|ogg|opus|wav|alac|ape|epub|pdf|mobi|azw3|cbz|cbr)\\b"@
}

/// `Regex::captures_iter`: the first groups of all matches of the pattern, of
/// which every match has one, from left to right.
#[verifier::external_body]
pub(crate) fn capture_first_groups(pattern: &str, text: &str) -> (r: Vec<String>)
    requires
        pattern@ == format_pattern(),
    ensures
        views(r@) == first_groups(pattern@, text@),
{
    let found = regex::Regex::new(pattern).unwrap();
    found.captures_iter(text).map(|caps| caps[1].to_owned()).collect()
}

// ---------------------------------------------------------------------------
// serde_json
// ---------------------------------------------------------------------------

/// `serde_json::Value`, carried through as it is.
#[verifier::external_type_specification]
#[verifier::external_body]
pub struct ExValue(serde_json::Value);

/// What a `serde_json::Value` holds, at every depth.
pub uninterp spec fn json_of(value: serde_json::Value) -> JsonView;

/// The value that a text of JSON stands for, where it is one.
pub uninterp spec fn parsed_json(text: Seq<char>) -> Option<JsonView>;

/// `serde_json::from_str` into a `Value`. A string that is read stands in the
/// source between two quotes, with no fewer characters than it has.
#[verifier::external_body]
pub(crate) fn parse_value(text: &str) -> (r: Option<serde_json::Value>)
    ensures
        match r {
            Some(value) => parsed_json(text@) == Some(json_of(value)),
            None => parsed_json(text@) is None,
        },
        r matches Some(value) ==> (json_of(value) matches JsonView::Text(inner) ==> inner.len() + 2
            <= text@.len()),
{
    serde_json::from_str::<serde_json::Value>(text).ok()
}

/// The outermost layer of a `serde_json::Value`.
pub enum Layer {
    Null,
    Bool(bool),
    Number(JsonNumber),
    Text(String),
    Array(Vec<serde_json::Value>),
    Object(Vec<(String, serde_json::Value)>),
}

impl Layer {
    /// Whether this is the outermost layer of `whole`.
    pub open spec fn is_layer_of(self, whole: JsonView) -> bool {
        match self {
            Layer::Null => whole == JsonView::Null,
            Layer::Bool(b) => whole == JsonView::Bool(b),
            Layer::Number(n) => whole == JsonView::Number(n@),
            Layer::Text(s) => whole == JsonView::Text(s@),
            Layer::Array(items) => whole == JsonView::Array(outside_items(items@)),
            Layer::Object(entries) => whole == JsonView::Object(outside_entries(entries@)),
        }
    }
}

/// Takes the outermost variant of a `serde_json::Value` apart. The readings
/// of a number are those of `Number::as_i64`, `as_u64`, `as_f64` and its
/// `Display`; the entries of an object come in the order of its `Map`.
#[verifier::external_body]
pub(crate) fn open_value(value: serde_json::Value) -> (r: Layer)
    ensures
        r.is_layer_of(json_of(value)),
{
    match value {
        serde_json::Value::Null => Layer::Null,
        serde_json::Value::Bool(b) => Layer::Bool(b),
        serde_json::Value::Number(n) => Layer::Number(JsonNumber {
            signed: n.as_i64(),
            unsigned: n.as_u64(),
            bits: n.as_f64().map(|x| x.to_bits()),
            text: n.to_string(),
        }),
        serde_json::Value::String(s) => Layer::Text(s),
        serde_json::Value::Array(items) => Layer::Array(items),
        serde_json::Value::Object(map) => Layer::Object(map.into_iter().collect()),
    }
}

/// `Clone` of `serde_json::Value`: a value that holds the same.
pub assume_specification[ <serde_json::Value as Clone>::clone ](value: &serde_json::Value) -> (r:
    serde_json::Value)
    ensures
        json_of(r) == json_of(*value),
;

/// `serde_json::Value::String`.
#[verifier::external_body]
pub(crate) fn text_value(text: &str) -> (r: serde_json::Value)
    ensures
        json_of(r) == JsonView::Text(text@),
{
    serde_json::Value::String(text.to_owned())
}

/// `serde_json::Value::Bool`.
#[verifier::external_body]
pub(crate) fn bool_value(b: bool) -> (r: serde_json::Value)
    ensures
        json_of(r) == JsonView::Bool(b),
{
    serde_json::Value::Bool(b)
}

/// `From<u64>` for `serde_json::Value`: the number, written in decimal digits.
/// Of the double nearest to it nothing is said here.
#[verifier::external_body]
pub(crate) fn number_value(n: u64) -> (r: serde_json::Value)
    ensures
        is_whole(json_of(r), n),
{
    serde_json::Value::from(n)
}

/// `serde_json::Value::Array`.
#[verifier::external_body]
pub(crate) fn array_value(items: Vec<serde_json::Value>) -> (r: serde_json::Value)
    ensures
        json_of(r) == JsonView::Array(outside_items(items@)),
{
    serde_json::Value::Array(items)
}

/// The compact JSON text of a value.
pub uninterp spec fn json_text(value: JsonView) -> Seq<char>;

/// The `Display` of `serde_json::Value`: its compact JSON text.
#[verifier::external_body]
pub(crate) fn render_value(value: &serde_json::Value) -> (r: String)
    ensures
        r@ == json_text(json_of(*value)),
{
    value.to_string()
}

/// `serde_json::Map`, carried through as it is.
#[verifier::external_type_specification]
#[verifier::external_body]
#[verifier::reject_recursive_types(K)]
#[verifier::reject_recursive_types(V)]
pub struct ExMap<K, V>(serde_json::Map<K, V>);

/// What a `serde_json::Map` holds under each of its keys.
pub uninterp spec fn map_of(map: serde_json::Map<String, serde_json::Value>) -> Map<
    Seq<char>,
    JsonView,
>;

/// `Map::new`: a map that holds nothing.
#[verifier::external_body]
pub(crate) fn new_map() -> (r: serde_json::Map<String, serde_json::Value>)
    ensures
        map_of(r).dom() == Set::<Seq<char>>::empty(),
{
    serde_json::Map::new()
}

/// `Map::get`: the value under a key.
#[verifier::external_body]
pub(crate) fn map_get<'a>(
    map: &'a serde_json::Map<String, serde_json::Value>,
    key: &str,
) -> (r: Option<&'a serde_json::Value>)
    ensures
        match r {
            Some(value) => found(map_of(*map), key@) == Some(json_of(*value)),
            None => found(map_of(*map), key@) is None,
        },
{
    map.get(key)
}

/// `Map::insert`: the value stands under the key, in place of what stood
/// there.
#[verifier::external_body]
pub(crate) fn map_insert(
    map: &mut serde_json::Map<String, serde_json::Value>,
    key: &str,
    value: serde_json::Value,
)
    ensures
        map_of(*final(map)) == map_of(*old(map)).insert(key@, json_of(value)),
{
    map.insert(key.to_owned(), value);
}

/// The map inside a `serde_json::Value`, where it is an object: it holds under
/// each key what the object has there.
#[verifier::external_body]
pub(crate) fn map_in(value: serde_json::Value) -> (r: Option<
    serde_json::Map<String, serde_json::Value>,
>)
    ensures
        match r {
            Some(map) => json_of(value) matches JsonView::Object(entries) && map_of(map)
                == entries_map(entries),
            None => !(json_of(value) is Object),
        },
{
    match value {
        serde_json::Value::Object(map) => Some(map),
        _ => None,
    }
}

/// `serde_json::Value::Object`: an object that has under each key what the map
/// holds there.
#[verifier::external_body]
pub(crate) fn map_value(map: serde_json::Map<String, serde_json::Value>) -> (r: serde_json::Value)
    ensures
        is_object_of(json_of(r), map_of(map)),
{
    serde_json::Value::Object(map)
}

/// The indented JSON text of an object that holds this under each of its keys.
pub uninterp spec fn pretty_json(map: Map<Seq<char>, JsonView>) -> Seq<char>;

/// `serde_json::to_string_pretty` of a map. It does not fail: the keys are
/// strings, every value can be written, and it writes into memory.
/// `serde_json::from_str` reads the text back as an object with the same keys,
/// where no value is nested deeper than it reads, no object begins with the
/// key that it takes for the mark of raw JSON, and no number that is not whole
/// is near the largest double. Under a key under which all numbers are whole
/// it reads what was there; other numbers it may read as their neighbours.
#[verifier::external_body]
pub(crate) fn pretty_map(map: &serde_json::Map<String, serde_json::Value>) -> (r: Result<
    String,
    String,
>)
    ensures
        r is Ok,
        r matches Ok(text) ==> text@ == pretty_json(map_of(*map)),
        r matches Ok(text) ==> is_readable_map(map_of(*map)) ==> (parsed_json(text@) matches Some(
            JsonView::Object(entries),
        ) && reads_back(entries_map(entries), map_of(*map))),
{
    serde_json::to_string_pretty(map).map_err(|e| e.to_string())
}

// ---------------------------------------------------------------------------
// base64
// ---------------------------------------------------------------------------

/// The character for six bits in the standard base64 alphabet.
pub open spec fn base64_char(n: int) -> char {
    if n < 26 {
        (0x41 + n) as char
    } else if n < 52 {
        (0x61 + n - 26) as char
    } else if n < 62 {
        (0x30 + n - 52) as char
    } else if n == 62 {
        '+'
    } else {
        '/'
    }
}

/// The base64 text of some bytes, padded: four characters for three bytes.
pub open spec fn base64_text(bytes: Seq<u8>) -> Seq<char>
    decreases bytes.len(),
{
    if bytes.len() == 0 {
        Seq::empty()
    } else {
        let a = bytes[0] as int;
        let b = if bytes.len() > 1 { bytes[1] as int } else { 0 };
        let c = if bytes.len() > 2 { bytes[2] as int } else { 0 };
        let rest = if bytes.len() > 3 { bytes.skip(3) } else { Seq::empty() };
        seq![
            base64_char(a / 4),
            base64_char(a % 4 * 16 + b / 16),
            if bytes.len() > 1 { base64_char(b % 16 * 4 + c / 64) } else { '=' },
            if bytes.len() > 2 { base64_char(c % 64) } else { '=' },
        ] + base64_text(rest)
    }
}

/// `Engine::encode` of `base64::engine::general_purpose::STANDARD`: the
/// standard alphabet, with padding.
#[verifier::external_body]
pub(crate) fn encode_base64(bytes: &Vec<u8>) -> (r: String)
    ensures
        r@ == base64_text(bytes@),
{
    base64::engine::general_purpose::STANDARD.encode(bytes)
}

// ---------------------------------------------------------------------------
// chrono
// ---------------------------------------------------------------------------

/// A moment in UTC, given in seconds since 1970, in the way `pattern` says;
/// none for moments beyond the calendar.
pub uninterp spec fn utc_text(seconds: i64, pattern: Seq<char>) -> Option<Seq<char>>;

/// `DateTime::from_timestamp` and `DateTime::format`: the moment in the given
/// pattern. An unknown pattern would make the formatting panic.
#[verifier::external_body]
pub(crate) fn format_utc(seconds: i64, pattern: &str) -> (r: Option<String>)
    requires
        pattern@ == "%Y-%m-%d %H:%M:%S"@,
    ensures
        opt_view(r) == utc_text(seconds, pattern@),
{
    chrono::DateTime::from_timestamp(seconds, 0).map(|t| t.format(pattern).to_string())
}

// ---------------------------------------------------------------------------
// reqwest
// ---------------------------------------------------------------------------

/// An HTTP status code followed by its reason.
pub uninterp spec fn status_line(code: u16) -> Seq<char>;

/// `reqwest::StatusCode::from_u16` and its `Display`: the code, a space and
/// its reason. Codes of three digits are accepted.
#[verifier::external_body]
pub(crate) fn format_status(code: u16) -> (r: String)
    requires
        100 <= code <= 999,
    ensures
        r@ == status_line(code),
        begins_with(r@, decimal(code as int) + " "@),
{
    reqwest::StatusCode::from_u16(code).unwrap().to_string()
}

}
