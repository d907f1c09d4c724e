//! JSON values as plain data, and the lookups and changes that the
//! application makes on them.
use crate::numbers::decimal;
use crate::outside::{
    array_value, json_of, map_get, map_in, map_of, new_map, open_value, parse_value, parsed_json,
    text_value, Layer,
};
use crate::text::{same_text, views};
use vstd::prelude::*;
use vstd::string::*;

verus! {

broadcast use vstd::string::group_string_axioms;

/// A JSON number, as the readings that can be taken of it.
#[derive(Debug, PartialEq)]
pub struct JsonNumber {
    /// Its value, where it is whole and fits in 64 bits with a sign.
    pub signed: Option<i64>,
    /// Its value, where it is whole and fits in 64 bits without a sign.
    pub unsigned: Option<u64>,
    /// The bits of the nearest IEEE 754 double, where there is one.
    pub bits: Option<u64>,
    /// How it is written.
    pub text: String,
}

/// A JSON value. The entries of an object keep their order.
#[derive(Debug, PartialEq)]
pub enum Json {
    Null,
    Bool(bool),
    Number(JsonNumber),
    Text(String),
    Array(Vec<Json>),
    Object(Vec<(String, Json)>),
}

/// The model of a number.
pub struct NumberView {
    pub signed: Option<i64>,
    pub unsigned: Option<u64>,
    pub bits: Option<u64>,
    pub text: Seq<char>,
}

/// The model of a JSON value.
pub enum JsonView {
    Null,
    Bool(bool),
    Number(NumberView),
    Text(Seq<char>),
    Array(Seq<JsonView>),
    Object(Seq<(Seq<char>, JsonView)>),
}

impl View for JsonNumber {
    type V = NumberView;

    open spec fn view(&self) -> NumberView {
        NumberView {
            signed: self.signed,
            unsigned: self.unsigned,
            bits: self.bits,
            text: self.text@,
        }
    }
}

impl View for Json {
    type V = JsonView;

    open spec fn view(&self) -> JsonView
        decreases self,
    {
        match self {
            Json::Null => JsonView::Null,
            Json::Bool(b) => JsonView::Bool(*b),
            Json::Number(n) => JsonView::Number(n@),
            Json::Text(s) => JsonView::Text(s@),
            Json::Array(items) => JsonView::Array(
                Seq::new(
                    items@.len(),
                    |i: int|
                        if 0 <= i < items@.len() {
                            items@[i]@
                        } else {
                            JsonView::Null
                        },
                ),
            ),
            Json::Object(entries) => JsonView::Object(
                Seq::new(
                    entries@.len(),
                    |i: int|
                        if 0 <= i < entries@.len() {
                            (entries@[i].0@, entries@[i].1@)
                        } else {
                            (Seq::empty(), JsonView::Null)
                        },
                ),
            ),
        }
    }
}

/// Whether a value is the whole number `n`, written in decimal digits.
pub open spec fn is_whole(value: JsonView, n: u64) -> bool {
    &&& value matches JsonView::Number(number)
    &&& number.unsigned == Some(n)
    &&& number.signed == (if n <= i64::MAX {
        Some(n as i64)
    } else {
        None
    })
    &&& number.text == decimal(n as int)
}

/// The model of an optional value.
pub open spec fn opt_view<T: View>(o: Option<T>) -> Option<T::V> {
    match o {
        Some(x) => Some(x@),
        None => None,
    }
}

/// The models of a list of values.
pub open spec fn items_view(items: Seq<Json>) -> Seq<JsonView> {
    items.map_values(|j: Json| j@)
}

/// The models of the entries of an object.
pub open spec fn entries_view(entries: Seq<(String, Json)>) -> Seq<(Seq<char>, JsonView)> {
    entries.map_values(|e: (String, Json)| (e.0@, e.1@))
}

/// The place of the first entry under `key`, or the number of entries.
pub open spec fn entry_place(entries: Seq<(Seq<char>, JsonView)>, key: Seq<char>) -> int
    decreases entries.len(),
{
    if entries.len() == 0 || entries[0].0 == key {
        0
    } else {
        1 + entry_place(entries.skip(1), key)
    }
}

/// The value under `key`.
pub open spec fn lookup(entries: Seq<(Seq<char>, JsonView)>, key: Seq<char>) -> Option<JsonView> {
    let at = entry_place(entries, key);
    if at < entries.len() {
        Some(entries[at].1)
    } else {
        None
    }
}

/// What a map holds under `key`.
pub open spec fn found(map: Map<Seq<char>, JsonView>, key: Seq<char>) -> Option<JsonView> {
    if map.dom().contains(key) {
        Some(map[key])
    } else {
        None
    }
}

/// What stands under each of the keys of some entries.
pub open spec fn entries_map(entries: Seq<(Seq<char>, JsonView)>) -> Map<Seq<char>, JsonView> {
    Map::new(|key: Seq<char>| lookup(entries, key) is Some, |key: Seq<char>| lookup(entries, key)->0)
}

/// What stands under each of the keys of the object that an optional value is;
/// nothing where it is no object.
pub open spec fn object_map(value: Option<JsonView>) -> Map<Seq<char>, JsonView> {
    match value {
        Some(JsonView::Object(entries)) => entries_map(entries),
        _ => Map::empty(),
    }
}

/// Whether a value is an object that holds this under each of its keys.
pub open spec fn is_object_of(value: JsonView, map: Map<Seq<char>, JsonView>) -> bool {
    value matches JsonView::Object(entries) && entries_map(entries) == map
}

/// The key that `serde_json` takes for the mark of raw JSON: an object whose
/// first key it is, is not read as an object.
pub open spec fn raw_key() -> Seq<char> {
    "$serde_json::private::RawValue"@
}

/// Whether a text comes before another one in the order of their characters.
pub open spec fn comes_before(a: Seq<char>, b: Seq<char>) -> bool
    decreases a.len(),
{
    b.len() > 0 && (a.len() == 0 || (a[0] as u32) < (b[0] as u32) || (a[0] == b[0] && comes_before(
        a.skip(1),
        b.skip(1),
    )))
}

/// Whether the double with these bits is far from the largest ones: its
/// magnitude is below two to the power of 1023.
pub open spec fn is_moderate(bits: u64) -> bool {
    bits as int % 0x8000_0000_0000_0000 < 0x7FE0_0000_0000_0000
}

/// Whether a value is written in a way that it can be read: its arrays and
/// objects are nested no deeper than `depth`, no object begins with the key of
/// raw JSON, and no number that is not whole is too large.
pub open spec fn is_readable(value: JsonView, depth: nat) -> bool
    decreases depth,
{
    match value {
        JsonView::Number(n) => n.signed is Some || n.unsigned is Some || (n.bits matches Some(bits)
            && is_moderate(bits)),
        JsonView::Array(items) => depth > 0 && forall|i: int|
            0 <= i < items.len() ==> is_readable(#[trigger] items[i], (depth - 1) as nat),
        JsonView::Object(entries) => {
            &&& depth > 0
            &&& entries.len() > 0 ==> entries[0].0 != raw_key()
            &&& forall|i: int|
                0 <= i < entries.len() ==> is_readable(
                    (#[trigger] entries[i]).1,
                    (depth - 1) as nat,
                )
        },
        _ => true,
    }
}

/// Whether an object that holds this under each of its keys is written in a
/// way that it can be read: JSON is read up to 127 levels deep, and keys are
/// written in order, so that one that comes before the key of raw JSON keeps
/// it from being the first.
pub open spec fn is_readable_map(map: Map<Seq<char>, JsonView>) -> bool {
    &&& forall|key: Seq<char>| #[trigger] map.dom().contains(key) ==> is_readable(map[key], 126)
    &&& map.dom().contains(raw_key()) ==> exists|key: Seq<char>| #[trigger]
        map.dom().contains(key) && comes_before(key, raw_key())
}

/// Whether all numbers in a value that is nested no deeper than `depth` are
/// whole. Others may be read as their neighbours.
pub open spec fn is_plain(value: JsonView, depth: nat) -> bool
    decreases depth,
{
    match value {
        JsonView::Number(n) => n.signed is Some || n.unsigned is Some,
        JsonView::Array(items) => depth > 0 && forall|i: int|
            0 <= i < items.len() ==> is_plain(#[trigger] items[i], (depth - 1) as nat),
        JsonView::Object(entries) => depth > 0 && forall|i: int|
            0 <= i < entries.len() ==> is_plain((#[trigger] entries[i]).1, (depth - 1) as nat),
        _ => true,
    }
}

/// Whether all numbers under all keys are whole.
pub open spec fn is_plain_map(map: Map<Seq<char>, JsonView>) -> bool {
    forall|key: Seq<char>| #[trigger] map.dom().contains(key) ==> is_plain(map[key], 126)
}

/// Whether what was read has the keys of what was written, and the same under
/// each key under which all numbers are whole.
pub open spec fn reads_back(
    read: Map<Seq<char>, JsonView>,
    written: Map<Seq<char>, JsonView>,
) -> bool {
    &&& forall|key: Seq<char>| #[trigger]
        read.dom().contains(key) <==> written.dom().contains(key)
    &&& forall|key: Seq<char>| #[trigger]
        written.dom().contains(key) && is_plain(written[key], 126) ==> read[key] == written[key]
}

impl JsonView {
    /// The value under `key`, where this is an object that has one.
    pub open spec fn get(self, key: Seq<char>) -> Option<JsonView> {
        match self {
            JsonView::Object(entries) => lookup(entries, key),
            _ => None,
        }
    }
}

/// The text that an optional value is.
pub open spec fn text_in(v: Option<JsonView>) -> Option<Seq<char>> {
    match v {
        Some(JsonView::Text(s)) => Some(s),
        _ => None,
    }
}

/// The items of the array that an optional value is; none where it is no array.
pub open spec fn items_in(v: Option<JsonView>) -> Seq<JsonView> {
    match v {
        Some(JsonView::Array(items)) => items,
        _ => Seq::empty(),
    }
}

/// `entry_place` is the first place whose key is `key`.
pub(crate) proof fn lemma_entry_place(entries: Seq<(Seq<char>, JsonView)>, key: Seq<char>)
    ensures
        0 <= entry_place(entries, key) <= entries.len(),
        entry_place(entries, key) < entries.len() ==> entries[entry_place(entries, key)].0 == key,
        forall|i: int|
            0 <= i < entry_place(entries, key) ==> (#[trigger] entries[i]).0 != key,
    decreases entries.len(),
{
    if entries.len() > 0 && entries[0].0 != key {
        let rest = entries.skip(1);
        lemma_entry_place(rest, key);
        assert forall|i: int| 0 <= i < entry_place(entries, key) implies (
        #[trigger] entries[i]).0 != key by {
            if i > 0 {
                assert(entries[i] == rest[i - 1]);
            }
        }
    }
}

/// A place with `key` and none before it is `entry_place`.
pub(crate) proof fn lemma_entry_place_is(
    entries: Seq<(Seq<char>, JsonView)>,
    key: Seq<char>,
    at: int,
)
    requires
        0 <= at <= entries.len(),
        at < entries.len() ==> entries[at].0 == key,
        forall|i: int| 0 <= i < at ==> (#[trigger] entries[i]).0 != key,
    ensures
        entry_place(entries, key) == at,
{
    lemma_entry_place(entries, key);
    let found = entry_place(entries, key);
    if found < at {
        assert(entries[found].0 != key);
    }
    if at < found {
        assert(entries[at].0 != key);
    }
}

/// The place of the first entry under `key`, or the number of entries.
fn place_of(entries: &Vec<(String, Json)>, key: &str) -> (r: usize)
    ensures
        r == entry_place(entries_view(entries@), key@),
        r <= entries@.len(),
{
    let mut i: usize = 0;
    while i < entries.len()
        invariant
            i <= entries@.len(),
            forall|j: int| 0 <= j < i ==> (#[trigger] entries_view(entries@)[j]).0 != key@,
        decreases entries@.len() - i,
    {
        if same_text(&entries[i].0, key) {
            proof {
                lemma_entry_place_is(entries_view(entries@), key@, i as int);
            }
            return i;
        }
        i += 1;
    }
    proof {
        lemma_entry_place_is(entries_view(entries@), key@, i as int);
    }
    i
}

/// The value under `key`.
pub fn find_entry<'a>(entries: &'a Vec<(String, Json)>, key: &str) -> (r: Option<&'a Json>)
    ensures
        opt_view(r) == lookup(entries_view(entries@), key@),
{
    let at = place_of(entries, key);
    if at < entries.len() {
        Some(&entries[at].1)
    } else {
        None
    }
}

impl Json {
    /// The value under `key`, where this is an object that has one.
    pub fn get(&self, key: &str) -> (r: Option<&Json>)
        ensures
            opt_view(r) == self@.get(key@),
    {
        match self {
            Json::Object(entries) => {
                assert(self@ == JsonView::Object(entries_view(entries@))) by {
                    lemma_object_view(*self);
                }
                find_entry(entries, key)
            },
            _ => None,
        }
    }

    /// The text that this is.
    pub fn as_text(&self) -> (r: Option<&String>)
        ensures
            opt_view(r) == text_in(Some(self@)),
    {
        match self {
            Json::Text(s) => Some(s),
            _ => None,
        }
    }

    /// The text under `key`.
    pub fn get_text(&self, key: &str) -> (r: Option<&String>)
        ensures
            opt_view(r) == text_in(self@.get(key@)),
    {
        match self.get(key) {
            Some(v) => v.as_text(),
            None => None,
        }
    }

    /// The same value once more.
    pub fn copy(&self) -> (r: Json)
        ensures
            r@ == self@,
        decreases self,
    {
        match self {
            Json::Null => Json::Null,
            Json::Bool(b) => Json::Bool(*b),
            Json::Number(n) => Json::Number(
                JsonNumber {
                    signed: n.signed,
                    unsigned: n.unsigned,
                    bits: n.bits,
                    text: n.text.clone(),
                },
            ),
            Json::Text(s) => Json::Text(s.clone()),
            Json::Array(items) => {
                let mut out: Vec<Json> = Vec::new();
                let mut i: usize = 0;
                while i < items.len()
                    invariant
                        i <= items@.len(),
                        self matches Json::Array(own) && own == items,
                        items_view(out@) =~= items_view(items@).take(i as int),
                    decreases items@.len() - i,
                {
                    let ghost before = out@;
                    let item = items[i].copy();
                    out.push(item);
                    assert(items_view(out@) =~= items_view(before).push(item@));
                    i += 1;
                }
                let r = Json::Array(out);
                proof {
                    lemma_array_view(*self);
                    lemma_array_view(r);
                    assert(items_view(out@) =~= items_view(items@));
                }
                r
            },
            Json::Object(entries) => {
                let mut out: Vec<(String, Json)> = Vec::new();
                let mut i: usize = 0;
                while i < entries.len()
                    invariant
                        i <= entries@.len(),
                        self matches Json::Object(own) && own == entries,
                        entries_view(out@) =~= entries_view(entries@).take(i as int),
                    decreases entries@.len() - i,
                {
                    let ghost before = out@;
                    let key = entries[i].0.clone();
                    let value = entries[i].1.copy();
                    out.push((key, value));
                    assert(entries_view(out@) =~= entries_view(before).push((key@, value@)));
                    i += 1;
                }
                let r = Json::Object(out);
                proof {
                    lemma_object_view(*self);
                    lemma_object_view(r);
                    assert(entries_view(out@) =~= entries_view(entries@));
                }
                r
            },
        }
    }
}

/// The view of an array is the array of the views.
pub proof fn lemma_array_view(j: Json)
    requires
        j is Array,
    ensures
        j@ == JsonView::Array(items_view(j->Array_0@)),
{
    reveal_with_fuel(<Json as View>::view, 2);
    assert(j@->Array_0 =~= items_view(j->Array_0@));
}

/// The view of an object is the object of the views.
pub proof fn lemma_object_view(j: Json)
    requires
        j is Object,
    ensures
        j@ == JsonView::Object(entries_view(j->Object_0@)),
{
    reveal_with_fuel(<Json as View>::view, 2);
    assert(j@->Object_0 =~= entries_view(j->Object_0@));
}

/// The models of a list of outside values.
pub open spec fn outside_items(values: Seq<serde_json::Value>) -> Seq<JsonView> {
    values.map_values(|v: serde_json::Value| json_of(v))
}

/// The models of the entries of an outside object.
pub open spec fn outside_entries(entries: Seq<(String, serde_json::Value)>) -> Seq<
    (Seq<char>, JsonView),
> {
    entries.map_values(|e: (String, serde_json::Value)| (e.0@, json_of(e.1)))
}

/// A `serde_json::Value` as plain data.
pub fn json_from_value(value: serde_json::Value) -> (r: Json)
    ensures
        r@ == json_of(value),
    decreases json_of(value),
{
    let ghost whole = json_of(value);
    match open_value(value) {
        Layer::Null => Json::Null,
        Layer::Bool(b) => Json::Bool(b),
        Layer::Number(n) => Json::Number(n),
        Layer::Text(s) => Json::Text(s),
        Layer::Array(values) => {
            assert(decreases_to!(whole => whole->Array_0));
            let r = Json::Array(items_from_values(values));
            proof {
                lemma_array_view(r);
            }
            r
        },
        Layer::Object(entries) => {
            assert(decreases_to!(whole => whole->Object_0));
            let r = Json::Object(entries_from_values(entries));
            proof {
                lemma_object_view(r);
            }
            r
        },
    }
}

/// A list of outside values as plain data.
fn items_from_values(values: Vec<serde_json::Value>) -> (r: Vec<Json>)
    ensures
        items_view(r@) == outside_items(values@),
    decreases outside_items(values@),
{
    let ghost all = values@;
    let mut rest = values;
    let mut out: Vec<Json> = Vec::new();
    while rest.len() > 0
        invariant
            all == values@,
            rest@.len() + out@.len() == all.len(),
            rest@ == all.skip(out@.len() as int),
            forall|i: int| 0 <= i < out@.len() ==> (#[trigger] out@[i])@ == json_of(all[i]),
        decreases rest@.len(),
    {
        let ghost at = out@.len() as int;
        let item = rest.remove(0);
        assert(item == all[at]);
        assert(outside_items(all)[at] == json_of(item));
        out.push(json_from_value(item));
    }
    assert(items_view(out@) =~= outside_items(all));
    out
}

/// The entries of an outside object as plain data.
pub(crate) fn entries_from_values(entries: Vec<(String, serde_json::Value)>) -> (r: Vec<(String, Json)>)
    ensures
        entries_view(r@) == outside_entries(entries@),
    decreases outside_entries(entries@),
{
    let ghost all = entries@;
    let mut rest = entries;
    let mut out: Vec<(String, Json)> = Vec::new();
    while rest.len() > 0
        invariant
            all == entries@,
            rest@.len() + out@.len() == all.len(),
            rest@ == all.skip(out@.len() as int),
            forall|i: int|
                0 <= i < out@.len() ==> (#[trigger] out@[i]).0@ == all[i].0@ && out@[i].1@
                    == json_of(all[i].1),
        decreases rest@.len(),
    {
        let ghost at = out@.len() as int;
        let (key, item) = rest.remove(0);
        assert((key, item) == all[at]);
        assert(outside_entries(all)[at].1 == json_of(item));
        out.push((key, json_from_value(item)));
    }
    assert(entries_view(out@) =~= outside_entries(all));
    out
}

/// The value that a text of JSON stands for.
pub fn parse_json(text: &str) -> (r: Option<Json>)
    ensures
        opt_view(r) == parsed_json(text@),
        r matches Some(Json::Text(inner)) ==> inner@.len() + 2 <= text@.len(),
{
    match parse_value(text) {
        Some(value) => Some(json_from_value(value)),
        None => None,
    }
}

/// Texts as JSON values.
pub open spec fn text_values(texts: Seq<Seq<char>>) -> Seq<JsonView> {
    texts.map_values(|t: Seq<char>| JsonView::Text(t))
}

/// Owned texts.
pub(crate) fn owned(texts: &Vec<&str>) -> (r: Vec<String>)
    ensures
        views(r@) == texts@.map_values(|t: &str| t@),
{
    let mut out: Vec<String> = Vec::new();
    let mut i: usize = 0;
    while i < texts.len()
        invariant
            i <= texts@.len(),
            views(out@) =~= texts@.map_values(|t: &str| t@).take(i as int),
        decreases texts@.len() - i,
    {
        let ghost before = out@;
        let text = texts[i].to_owned();
        out.push(text);
        assert(views(out@) =~= views(before).push(text@));
        i += 1;
    }
    assert(views(out@) =~= texts@.map_values(|t: &str| t@));
    out
}

/// An array of JSON texts.
pub(crate) fn text_array(texts: &Vec<String>) -> (r: serde_json::Value)
    ensures
        json_of(r) == JsonView::Array(text_values(views(texts@))),
{
    let mut items: Vec<serde_json::Value> = Vec::new();
    let mut i: usize = 0;
    while i < texts.len()
        invariant
            i <= texts@.len(),
            outside_items(items@) =~= text_values(views(texts@)).take(i as int),
        decreases texts@.len() - i,
    {
        let ghost before = items@;
        let item = text_value(&texts[i]);
        items.push(item);
        assert(outside_items(items@) =~= outside_items(before).push(json_of(item)));
        i += 1;
    }
    assert(outside_items(items@) =~= text_values(views(texts@)));
    array_value(items)
}

/// The text under `key`.
pub(crate) fn map_text(map: &serde_json::Map<String, serde_json::Value>, key: &str) -> (r: Option<
    String,
>)
    ensures
        opt_view(r) == text_in(found(map_of(*map), key@)),
{
    match map_get(map, key) {
        Some(value) => match open_value(value.clone()) {
            Layer::Text(s) => Some(s),
            _ => None,
        },
        None => None,
    }
}

/// The object that the value is, as a map; one that holds nothing where it is
/// no object.
pub(crate) fn map_or_new(value: serde_json::Value) -> (r: serde_json::Map<
    String,
    serde_json::Value,
>)
    ensures
        map_of(r) == object_map(Some(json_of(value))),
        forall|key: Seq<char>| #[trigger] found(map_of(r), key) == json_of(value).get(key),
{
    match map_in(value) {
        Some(map) => map,
        None => {
            let none = new_map();
            assert(map_of(none) =~= Map::empty());
            none
        },
    }
}

/// A JSON object without entries.
pub(crate) fn empty_object() -> (r: Json)
    ensures
        r@ == JsonView::Object(Seq::empty()),
{
    let none: Vec<(String, Json)> = Vec::new();
    let r = Json::Object(none);
    proof {
        lemma_object_view(r);
        assert(entries_view(none@) =~= Seq::empty());
    }
    r
}

/// The items of the array under `key`; none where there is no array.
pub(crate) fn get_items<'a>(value: &'a Json, key: &str, none: &'a Vec<Json>) -> (r: &'a Vec<Json>)
    requires
        none@.len() == 0,
    ensures
        items_view(r@) == items_in(value@.get(key@)),
{
    match value.get(key) {
        Some(Json::Array(items)) => {
            proof {
                lemma_array_view(Json::Array(*items));
            }
            items
        },
        _ => {
            assert(items_view(none@) =~= Seq::empty());
            none
        },
    }
}

/// A copy of an optional value.
pub(crate) fn copy_of(value: Option<&Json>) -> (r: Option<Json>)
    ensures
        opt_view(r) == opt_view(value),
{
    match value {
        Some(v) => Some(v.copy()),
        None => None,
    }
}

/// A copy of an optional text.
pub(crate) fn text_copy(value: Option<&String>) -> (r: Option<String>)
    ensures
        opt_view(r) == opt_view(value),
{
    match value {
        Some(s) => Some(s.clone()),
        None => None,
    }
}

// ---------------------------------------------------------------------------
// Laws
// ---------------------------------------------------------------------------

/// An object gives under a key the value of its first entry with that key,
/// whatever stands behind it, and nothing under a key that no entry has. What
/// is no object gives nothing.
pub proof fn values_are_found_under_their_key(
    before: Seq<(Seq<char>, JsonView)>,
    key: Seq<char>,
    value: JsonView,
    after: Seq<(Seq<char>, JsonView)>,
)
    requires
        forall|i: int| 0 <= i < before.len() ==> (#[trigger] before[i]).0 != key,
    ensures
        JsonView::Object(before.push((key, value)) + after).get(key) == Some(value),
        JsonView::Object(before).get(key) is None,
        !(value is Object) ==> value.get(key) is None,
{
    let entries = before.push((key, value)) + after;
    assert forall|i: int| 0 <= i < before.len() implies (#[trigger] entries[i]).0 != key by {
        assert(entries[i] == before[i]);
    }
    assert(entries[before.len() as int] == (key, value));
    lemma_entry_place_is(entries, key, before.len() as int);
    lemma_entry_place_is(before, key, before.len() as int);
}

/// Only texts are read as texts and only arrays as lists.
pub proof fn values_are_read_for_what_they_are(value: JsonView, text: Seq<char>, items: Seq<JsonView>)
    ensures
        text_in(Some(JsonView::Text(text))) == Some(text),
        items_in(Some(JsonView::Array(items))) == items,
        !(value is Text) ==> text_in(Some(value)) is None,
        !(value is Array) ==> items_in(Some(value)).len() == 0,
        text_in(None) is None,
        items_in(None).len() == 0,
{
}

}
