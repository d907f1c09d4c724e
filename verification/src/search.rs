//! The search for books on the tracker: the request it sends and what it
//! makes of the answer.
use crate::error::{bad_gateway, internal, result_view, AppError, ErrorView, Status};
use crate::json::{
    copy_of, entries_map, found, is_object_of, is_whole, items_in, items_view, lemma_array_view,
    lookup, map_or_new,
    map_text, object_map, opt_view, owned, text_array, text_in, text_values, Json, JsonView,
    NumberView,
};
use crate::numbers::{
    decimal, is_digit, numbers_are_digits_alone, parse_number, spelled_number,
    written_numbers_are_read,
};
use crate::outside::{
    format_status, json_of, map_get, map_insert, map_of, map_value, new_map, number_value,
    open_value, parsed_json, status_line, text_value, Layer,
};
use crate::settings::{Settings, SettingsView};
use crate::text::{blank, first_chars, is_whitespace, same_text, take_chars};
use crate::values::{
    detect_format, extract_string_id, first_stated_format_counts, flat_value, flatten_value,
    format_of, id_text, identifiers_are_numbers_or_texts, is_one_name, lists_read_as_their_items,
    single_names_read_as_they_are, texts_read_like_the_json_in_them, truthy, truthy_value,
};
use crate::words::{
    main_category, media_main_category, media_type_of, media_types_name_themselves,
    normalize_media_type, truthy_text,
};
use vstd::prelude::*;
use vstd::string::*;

verus! {

broadcast use vstd::string::group_string_axioms;

// ---------------------------------------------------------------------------
// The request
// ---------------------------------------------------------------------------

/// What to send to the tracker.
#[derive(Debug)]
pub struct SearchRequest {
    /// Where to send it.
    pub url: String,
    /// The cookie to send along.
    pub cookie: String,
    /// The kind of media that is searched for.
    pub media_type: String,
    /// The search itself.
    pub tor: serde_json::Map<String, serde_json::Value>,
    /// How many results to ask for.
    pub per_page: u64,
}

/// The model of what to send to the tracker.
pub struct SearchRequestView {
    pub url: Seq<char>,
    pub cookie: Seq<char>,
    pub media_type: Seq<char>,
    pub tor: Map<Seq<char>, JsonView>,
    pub per_page: u64,
}

impl View for SearchRequest {
    type V = SearchRequestView;

    open spec fn view(&self) -> SearchRequestView {
        SearchRequestView {
            url: self.url@,
            cookie: self.cookie@,
            media_type: self.media_type@,
            tor: map_of(self.tor),
            per_page: self.per_page,
        }
    }
}

/// The fields that a search looks in.
pub open spec fn fields_searched(media_type: Seq<char>) -> Seq<Seq<char>> {
    if media_type == "ebook"@ {
        seq!["title"@, "author"@]
    } else {
        seq!["title"@, "author"@, "narrator"@]
    }
}

/// What a map holds, with `value` under `key` unless something stands there.
pub open spec fn with_default(
    map: Map<Seq<char>, JsonView>,
    key: Seq<char>,
    value: JsonView,
) -> Map<Seq<char>, JsonView> {
    if map.dom().contains(key) {
        map
    } else {
        map.insert(key, value)
    }
}

/// The search itself: what the user sent, with the fields, the order and the
/// category that the application decides on.
pub open spec fn search_terms(payload: JsonView, media_type: Seq<char>) -> Map<
    Seq<char>,
    JsonView,
> {
    let tor = object_map(payload.get("tor"@));
    let tor = with_default(tor, "text"@, JsonView::Text(""@));
    let tor = tor.insert("srchIn"@, JsonView::Array(text_values(fields_searched(media_type))));
    let tor = tor.insert("searchType"@, JsonView::Text("all"@));
    let tor = tor.insert("sortType"@, JsonView::Text("seedersDesc"@));
    let tor = with_default(tor, "startNumber"@, JsonView::Text("0"@));
    tor.insert("main_cat"@, JsonView::Array(text_values(seq![main_category(media_type)])))
}

/// How many results to ask for: a whole number, or a text that spells one.
pub open spec fn results_wanted(payload: JsonView) -> u64 {
    match payload.get("perpage"@) {
        Some(JsonView::Number(n)) => match n.unsigned {
            Some(wanted) => wanted,
            None => 25,
        },
        Some(JsonView::Text(s)) => match spelled_number(s, 10, u64::MAX as int) {
            Some(wanted) => wanted as u64,
            None => 25,
        },
        _ => 25,
    }
}

/// The request for a search, or why there is none.
pub open spec fn search_request_for(settings: SettingsView, payload: JsonView) -> Result<
    SearchRequestView,
    ErrorView,
> {
    if settings.mam_cookie.len() == 0 {
        Err(internal("MAM_COOKIE not set on server"@))
    } else {
        match media_type_of(text_in(payload.get("media_type"@))) {
            Ok(media_type) => Ok(
                SearchRequestView {
                    url: settings.mam_base + "/tor/js/loadSearchJSONbasic.php"@,
                    cookie: settings.mam_cookie,
                    media_type,
                    tor: search_terms(payload, media_type),
                    per_page: results_wanted(payload),
                },
            ),
            Err(e) => Err(e),
        }
    }
}

/// Whether this is the body of a request: the search and the number of
/// results, and nothing else.
pub open spec fn is_search_body(body: Map<Seq<char>, JsonView>, request: SearchRequestView) -> bool {
    &&& forall|key: Seq<char>| #[trigger]
        body.dom().contains(key) <==> key == "tor"@ || key == "perpage"@
    &&& is_object_of(body["tor"@], request.tor)
    &&& is_whole(body["perpage"@], request.per_page)
}

impl SearchRequest {
    /// The body of the request.
    pub fn body(self) -> (r: serde_json::Map<String, serde_json::Value>)
        ensures
            is_search_body(map_of(r), self@),
    {
        let mut body = new_map();
        map_insert(&mut body, "tor", map_value(self.tor));
        map_insert(&mut body, "perpage", number_value(self.per_page));
        proof {
            reveal_strlit("tor");
            reveal_strlit("perpage");
            assert("tor"@.len() == 3 && "perpage"@.len() == 7);
        }
        body
    }
}

/// Puts a text under `key` unless something stands there.
fn put_default(map: &mut serde_json::Map<String, serde_json::Value>, key: &str, text: &str)
    ensures
        map_of(*final(map)) == with_default(map_of(*old(map)), key@, JsonView::Text(text@)),
{
    if map_get(map, key).is_none() {
        map_insert(map, key, text_value(text));
    }
}

/// The search itself, given what the user sent of it.
fn build_terms(given: Option<&serde_json::Value>, media_type: &str) -> (r: serde_json::Map<
    String,
    serde_json::Value,
>)
    ensures
        forall|payload: JsonView|
            payload.get("tor"@) == (match given {
                Some(value) => Some(json_of(*value)),
                None => None,
            }) ==> map_of(r) == #[trigger] search_terms(payload, media_type@),
{
    let mut tor = match given {
        Some(value) => map_or_new(value.clone()),
        None => new_map(),
    };
    assert(map_of(tor) =~= object_map(
        match given {
            Some(value) => Some(json_of(*value)),
            None => None,
        },
    ));
    let mut fields: Vec<&str> = vec!["title", "author"];
    if !same_text(media_type, "ebook") {
        fields.push("narrator");
    }
    assert(fields@.map_values(|t: &str| t@) =~= fields_searched(media_type@));
    let categories: Vec<&str> = vec![media_main_category(media_type)];
    assert(categories@.map_values(|t: &str| t@) =~= seq![main_category(media_type@)]);
    put_default(&mut tor, "text", "");
    map_insert(&mut tor, "srchIn", text_array(&owned(&fields)));
    map_insert(&mut tor, "searchType", text_value("all"));
    map_insert(&mut tor, "sortType", text_value("seedersDesc"));
    put_default(&mut tor, "startNumber", "0");
    map_insert(&mut tor, "main_cat", text_array(&owned(&categories)));
    tor
}

/// How many results to ask for, given what the user sent of it.
fn per_page(given: Option<&serde_json::Value>) -> (r: u64)
    ensures
        forall|payload: JsonView|
            payload.get("perpage"@) == (match given {
                Some(value) => Some(json_of(*value)),
                None => None,
            }) ==> r == #[trigger] results_wanted(payload),
{
    match given {
        Some(value) => match open_value(value.clone()) {
            Layer::Number(n) => match n.unsigned {
                Some(wanted) => wanted,
                None => 25,
            },
            Layer::Text(s) => match parse_number(&s, 10, u64::MAX) {
                Some(wanted) => wanted,
                None => 25,
            },
            _ => 25,
        },
        None => 25,
    }
}

/// The request for a search.
pub fn search(settings: &Settings, payload: serde_json::Value) -> (r: Result<
    SearchRequest,
    AppError,
>)
    ensures
        result_view(r) == search_request_for(settings@, json_of(payload)),
{
    if settings.mam_cookie.as_str().is_empty() {
        return Err(AppError::internal("MAM_COOKIE not set on server"));
    }
    let ghost sent = json_of(payload);
    let fields = map_or_new(payload);
    let named = match map_text(&fields, "media_type") {
        Some(s) => normalize_media_type(Some(s.as_str())),
        None => normalize_media_type(None),
    };
    assert(found(map_of(fields), "tor"@) == sent.get("tor"@));
    assert(found(map_of(fields), "perpage"@) == sent.get("perpage"@));
    assert(found(map_of(fields), "media_type"@) == sent.get("media_type"@));
    match named {
        Ok(media_type) => {
            let tor = build_terms(map_get(&fields, "tor"), &media_type);
            Ok(
                SearchRequest {
                    url: settings.mam_base.clone().concat("/tor/js/loadSearchJSONbasic.php"),
                    cookie: settings.mam_cookie.clone(),
                    media_type,
                    tor,
                    per_page: per_page(map_get(&fields, "perpage")),
                },
            )
        },
        Err(e) => Err(e),
    }
}

// ---------------------------------------------------------------------------
// The answer
// ---------------------------------------------------------------------------

/// One book that was found.
#[derive(Debug)]
pub struct SearchResult {
    pub id: String,
    pub title: Option<String>,
    pub author_info: String,
    pub narrator_info: String,
    pub format: String,
    pub size: Option<Json>,
    pub seeders: Option<Json>,
    pub leechers: Option<Json>,
    pub catname: Option<Json>,
    pub added: Option<Json>,
    pub dl: Option<Json>,
    pub media_type: String,
    pub is_freeleech: bool,
    pub is_vip: bool,
}

/// The model of one book that was found.
pub struct SearchResultView {
    pub id: Seq<char>,
    pub title: Option<Seq<char>>,
    pub author_info: Seq<char>,
    pub narrator_info: Seq<char>,
    pub format: Seq<char>,
    pub size: Option<JsonView>,
    pub seeders: Option<JsonView>,
    pub leechers: Option<JsonView>,
    pub catname: Option<JsonView>,
    pub added: Option<JsonView>,
    pub dl: Option<JsonView>,
    pub media_type: Seq<char>,
    pub is_freeleech: bool,
    pub is_vip: bool,
}

impl View for SearchResult {
    type V = SearchResultView;

    open spec fn view(&self) -> SearchResultView {
        SearchResultView {
            id: self.id@,
            title: opt_view(self.title),
            author_info: self.author_info@,
            narrator_info: self.narrator_info@,
            format: self.format@,
            size: opt_view(self.size),
            seeders: opt_view(self.seeders),
            leechers: opt_view(self.leechers),
            catname: opt_view(self.catname),
            added: opt_view(self.added),
            dl: opt_view(self.dl),
            media_type: self.media_type@,
            is_freeleech: self.is_freeleech,
            is_vip: self.is_vip,
        }
    }
}

/// What is answered to a search.
#[derive(Debug)]
pub struct SearchResponse {
    pub results: Vec<SearchResult>,
    pub total: Option<Json>,
    pub total_found: Option<Json>,
}

/// The model of what is answered to a search.
pub struct SearchResponseView {
    pub results: Seq<SearchResultView>,
    pub total: Option<JsonView>,
    pub total_found: Option<JsonView>,
}

/// The models of the books that were found.
pub open spec fn result_views(results: Seq<SearchResult>) -> Seq<SearchResultView> {
    results.map_values(|r: SearchResult| r@)
}

impl View for SearchResponse {
    type V = SearchResponseView;

    open spec fn view(&self) -> SearchResponseView {
        SearchResponseView {
            results: result_views(self.results@),
            total: opt_view(self.total),
            total_found: opt_view(self.total_found),
        }
    }
}

/// The first of two optional values that is there.
pub open spec fn either(a: Option<JsonView>, b: Option<JsonView>) -> Option<JsonView> {
    if a is Some {
        a
    } else {
        b
    }
}

/// The book that an item of the answer describes.
pub open spec fn result_of(item: JsonView, media_type: Seq<char>) -> SearchResultView {
    SearchResultView {
        id: id_text(either(item.get("id"@), item.get("tid"@))),
        title: text_in(either(item.get("title"@), item.get("name"@))),
        author_info: flat_value(item.get("author_info"@)),
        narrator_info: flat_value(item.get("narrator_info"@)),
        format: format_of(item),
        size: item.get("size"@),
        seeders: item.get("seeders"@),
        leechers: item.get("leechers"@),
        catname: item.get("catname"@),
        added: item.get("added"@),
        dl: item.get("dl"@),
        media_type,
        is_freeleech: truthy(item.get("free"@)) || truthy(item.get("fl_vip"@)),
        is_vip: truthy(item.get("vip"@)) || truthy(item.get("fl_vip"@)),
    }
}

/// What is answered to a search, given the answer of the tracker.
pub open spec fn response_of(raw: JsonView, media_type: Seq<char>) -> SearchResponseView {
    SearchResponseView {
        results: items_in(raw.get("data"@)).map_values(
            |item: JsonView| result_of(item, media_type),
        ),
        total: raw.get("total"@),
        total_found: raw.get("total_found"@),
    }
}

/// What to make of an answer of the tracker.
#[derive(Clone, Copy, Debug, PartialEq, Eq, Structural)]
pub enum TrackerStep {
    /// Read its body.
    ReadBody,
    /// The request was refused.
    Refused,
}

/// What to make of an answer of the tracker, given its status: only the plain
/// success counts as one.
pub open spec fn step_for_status(status: u16) -> TrackerStep {
    if status == 200 {
        TrackerStep::ReadBody
    } else {
        TrackerStep::Refused
    }
}

/// What to make of an answer of the tracker, given its status.
pub fn tracker_step(status: u16) -> (r: TrackerStep)
    ensures
        r == step_for_status(status),
{
    if status == 200 {
        TrackerStep::ReadBody
    } else {
        TrackerStep::Refused
    }
}

/// What came back from the tracker.
#[derive(Debug)]
pub enum SearchReply {
    /// The request did not get through, for this reason.
    Unreachable(String),
    /// Another status than success, with the body of the answer.
    Refused { status: u16, body: String },
    /// Success, with a body that is no JSON, for this reason.
    Unreadable(String),
    /// Success, with this body.
    Answer(Json),
}

impl SearchReply {
    /// A status has three digits.
    pub open spec fn well_formed(self) -> bool {
        self matches SearchReply::Refused { status, .. } ==> 100 <= status <= 999
    }
}

/// What is answered to a search, given what came back.
pub open spec fn search_outcome(reply: SearchReply, media_type: Seq<char>) -> Result<
    SearchResponseView,
    ErrorView,
> {
    match reply {
        SearchReply::Unreachable(reason) => Err(bad_gateway("MAM request failed: "@ + reason@)),
        SearchReply::Refused { status, body } => Err(
            bad_gateway("MAM HTTP "@ + status_line(status) + ": "@ + first_chars(body@, 300)),
        ),
        SearchReply::Unreadable(reason) => Err(
            bad_gateway("MAM returned non-JSON. Body parse failed: "@ + reason@),
        ),
        SearchReply::Answer(raw) => Ok(response_of(raw@, media_type)),
    }
}

/// The first of two fields that is there.
fn get_either<'a>(item: &'a Json, a: &str, b: &str) -> (r: Option<&'a Json>)
    ensures
        opt_view(r) == either(item@.get(a@), item@.get(b@)),
{
    match item.get(a) {
        Some(v) => Some(v),
        None => item.get(b),
    }
}

/// The book that the item describes.
pub fn read_result(item: &Json, media_type: &str) -> (r: SearchResult)
    ensures
        r@ == result_of(item@, media_type@),
{
    let title = match get_either(item, "title", "name") {
        Some(Json::Text(s)) => Some(s.clone()),
        _ => None,
    };
    SearchResult {
        id: extract_string_id(get_either(item, "id", "tid")),
        title,
        author_info: flatten_value(item.get("author_info")),
        narrator_info: flatten_value(item.get("narrator_info")),
        format: detect_format(item),
        size: copy_of(item.get("size")),
        seeders: copy_of(item.get("seeders")),
        leechers: copy_of(item.get("leechers")),
        catname: copy_of(item.get("catname")),
        added: copy_of(item.get("added")),
        dl: copy_of(item.get("dl")),
        media_type: media_type.to_owned(),
        is_freeleech: truthy_value(item.get("free")) || truthy_value(item.get("fl_vip")),
        is_vip: truthy_value(item.get("vip")) || truthy_value(item.get("fl_vip")),
    }
}

/// What is answered to a search, given the answer of the tracker.
pub fn search_results(raw: &Json, media_type: &str) -> (r: SearchResponse)
    ensures
        r@ == response_of(raw@, media_type@),
{
    let mut results: Vec<SearchResult> = Vec::new();
    let ghost wanted = response_of(raw@, media_type@).results;
    match raw.get("data") {
        Some(Json::Array(items)) => {
            proof {
                lemma_array_view(Json::Array(*items));
                assert(items_in(raw@.get("data"@)) == items_view(items@));
            }
            let mut i: usize = 0;
            while i < items.len()
                invariant
                    i <= items@.len(),
                    wanted == items_view(items@).map_values(
                        |item: JsonView| result_of(item, media_type@),
                    ),
                    result_views(results@) =~= wanted.take(i as int),
                decreases items@.len() - i,
            {
                let ghost before = results@;
                let result = read_result(&items[i], media_type);
                results.push(result);
                assert(result_views(results@) =~= result_views(before).push(result@));
                i += 1;
            }
        },
        _ => {},
    }
    assert(result_views(results@) =~= wanted);
    SearchResponse {
        results,
        total: copy_of(raw.get("total")),
        total_found: copy_of(raw.get("total_found")),
    }
}

/// What is answered to a search, given what came back.
pub fn read_search_reply(reply: &SearchReply, media_type: &str) -> (r: Result<
    SearchResponse,
    AppError,
>)
    requires
        reply.well_formed(),
    ensures
        result_view(r) == search_outcome(*reply, media_type@),
{
    match reply {
        SearchReply::Unreachable(reason) => Err(
            AppError::bad_gateway(&"MAM request failed: ".to_owned().concat(reason)),
        ),
        SearchReply::Refused { status, body } => Err(
            AppError::bad_gateway(
                &"MAM HTTP ".to_owned().concat(&format_status(*status)).concat(": ").concat(
                    &take_chars(body, 300),
                ),
            ),
        ),
        SearchReply::Unreadable(reason) => Err(
            AppError::bad_gateway(
                &"MAM returned non-JSON. Body parse failed: ".to_owned().concat(reason),
            ),
        ),
        SearchReply::Answer(raw) => Ok(search_results(raw, media_type)),
    }
}

// ---------------------------------------------------------------------------
// Laws
// ---------------------------------------------------------------------------

/// The keys of a search that the application looks after.
pub open spec fn own_keys() -> Seq<Seq<char>> {
    seq!["srchIn"@, "searchType"@, "sortType"@, "main_cat"@, "text"@, "startNumber"@]
}

/// Whatever the user sends along, the application decides on the fields, the
/// order and the category of a search. The text and the first place are the
/// user's where they are given, and so is everything else.
pub proof fn search_terms_are_decided_on(payload: JsonView, media_type: Seq<char>, other: Seq<char>)
    ensures
        ({
            let given = object_map(payload.get("tor"@));
            let sent = search_terms(payload, media_type);
            &&& found(sent, "srchIn"@) == Some(
                JsonView::Array(text_values(fields_searched(media_type))),
            )
            &&& found(sent, "searchType"@) == Some(JsonView::Text("all"@))
            &&& found(sent, "sortType"@) == Some(JsonView::Text("seedersDesc"@))
            &&& found(sent, "main_cat"@) == Some(
                JsonView::Array(text_values(seq![main_category(media_type)])),
            )
            &&& found(sent, "text"@) == either(found(given, "text"@), Some(JsonView::Text(""@)))
            &&& found(sent, "startNumber"@) == either(
                found(given, "startNumber"@),
                Some(JsonView::Text("0"@)),
            )
            &&& !own_keys().contains(other) ==> found(sent, other) == found(given, other)
        }),
{
    let keys = own_keys();
    lemma_own_keys_differ();
    assert(keys[0] == "srchIn"@ && keys[1] == "searchType"@ && keys[2] == "sortType"@ && keys[3]
        == "main_cat"@ && keys[4] == "text"@ && keys[5] == "startNumber"@);
}

/// The keys that the application looks after differ.
proof fn lemma_own_keys_differ()
    ensures
        own_keys().no_duplicates(),
        own_keys().len() == 6,
{
    reveal_strlit("srchIn");
    reveal_strlit("searchType");
    reveal_strlit("sortType");
    reveal_strlit("main_cat");
    reveal_strlit("text");
    reveal_strlit("startNumber");
    let keys = own_keys();
    assert(keys[0].len() == 6 && keys[1].len() == 10 && keys[2].len() == 8 && keys[3].len() == 8
        && keys[4].len() == 4 && keys[5].len() == 11);
    assert(keys[2][0] == 's' && keys[3][0] == 'm');
    assert forall|i: int, j: int|
        0 <= i < keys.len() && 0 <= j < keys.len() && i != j implies keys[i] != keys[j] by {}
}

/// The author and the narrator of a result are the readable texts of what the
/// item holds under "author_info" and "narrator_info": the only name in an
/// object or a list there, the name in a text there that holds such an object,
/// and a bare name as it is. What the item holds under any other key does not
/// count.
pub proof fn names_stand_under_their_own_keys(
    item: JsonView,
    media_type: Seq<char>,
    key: Seq<char>,
    name: Seq<char>,
    text: Seq<char>,
)
    requires
        is_one_name(name),
    ensures
        ({
            let found = result_of(item, media_type);
            let object = JsonView::Object(seq![(key, JsonView::Text(name))]);
            let list = JsonView::Array(seq![JsonView::Text(name)]);
            let author = item.get("author_info"@);
            let narrator = item.get("narrator_info"@);
            let is_json = text.len() > 0 && text[0] == '{' && !is_whitespace(text.last())
                && parsed_json(text) == Some(object);
            &&& narrator == Some(object) || narrator == Some(list) || narrator == Some(
                JsonView::Text(name),
            ) ==> found.narrator_info == name
            &&& author == Some(object) || author == Some(list) || author == Some(
                JsonView::Text(name),
            ) ==> found.author_info == name
            &&& is_json && narrator == Some(JsonView::Text(text)) ==> found.narrator_info == name
            &&& is_json && author == Some(JsonView::Text(text)) ==> found.author_info == name
            &&& narrator is None || narrator == Some(JsonView::Null) ==> found.narrator_info.len()
                == 0
            &&& author is None || author == Some(JsonView::Null) ==> found.author_info.len() == 0
        }),
{
    let object = JsonView::Object(seq![(key, JsonView::Text(name))]);
    let empty = Seq::<char>::empty();
    lists_read_as_their_items(Seq::empty(), Seq::empty(), key, JsonView::Text(name));
    if text.len() > 0 && text[0] == '{' && !is_whitespace(text.last()) && parsed_json(text)
        == Some(object) {
        texts_read_like_the_json_in_them(empty, text, empty, object);
        assert(empty + text + empty =~= text);
    }
    single_names_read_as_they_are(name, name);
}

/// A result depends on nothing but what its item holds under the keys of its
/// own fields: where two items agree under the key of a field, their results
/// agree in that field, whatever else they hold.
pub proof fn results_depend_on_their_own_keys(
    one: JsonView,
    other: JsonView,
    media_type: Seq<char>,
)
    ensures
        ({
            let a = result_of(one, media_type);
            let b = result_of(other, media_type);
            &&& one.get("author_info"@) == other.get("author_info"@) ==> a.author_info == b.author_info
            &&& one.get("narrator_info"@) == other.get("narrator_info"@) ==> a.narrator_info == b.narrator_info
            &&& one.get("size"@) == other.get("size"@) ==> a.size == b.size
            &&& one.get("seeders"@) == other.get("seeders"@) ==> a.seeders == b.seeders
            &&& one.get("leechers"@) == other.get("leechers"@) ==> a.leechers == b.leechers
            &&& one.get("catname"@) == other.get("catname"@) ==> a.catname == b.catname
            &&& one.get("added"@) == other.get("added"@) ==> a.added == b.added
            &&& one.get("dl"@) == other.get("dl"@) ==> a.dl == b.dl
            &&& one.get("id"@) == other.get("id"@) && one.get("id"@) is Some ==> a.id == b.id
            &&& one.get("title"@) == other.get("title"@) && one.get("title"@) is Some ==> a.title
                == b.title
            &&& one.get("free"@) == other.get("free"@) && one.get("fl_vip"@) == other.get(
                "fl_vip"@,
            ) ==> a.is_freeleech == b.is_freeleech
            &&& one.get("vip"@) == other.get("vip"@) && one.get("fl_vip"@) == other.get("fl_vip"@)
                ==> a.is_vip == b.is_vip
        }),
{
}

/// The plain details of a result are handed on as they stand under the key of
/// the same name, and the media type is the one that was searched for.
pub proof fn details_are_handed_on(item: JsonView, media_type: Seq<char>)
    ensures
        ({
            let found = result_of(item, media_type);
            &&& found.size == item.get("size"@)
            &&& found.seeders == item.get("seeders"@)
            &&& found.leechers == item.get("leechers"@)
            &&& found.catname == item.get("catname"@)
            &&& found.added == item.get("added"@)
            &&& found.dl == item.get("dl"@)
            &&& found.media_type == media_type
        }),
{
}

/// The identifier of a result stands under "id", and under "tid" only where
/// there is none. A number is taken as it is written, and of a text the white
/// space around it is left out.
pub proof fn results_are_identified(
    item: JsonView,
    media_type: Seq<char>,
    n: NumberView,
    front: Seq<char>,
    id: Seq<char>,
    back: Seq<char>,
)
    requires
        blank(front),
        blank(back),
        id.len() > 0,
        !is_whitespace(id[0]),
        !is_whitespace(id.last()),
    ensures
        ({
            let found = result_of(item, media_type).id;
            let here = item.get("id"@);
            let there = item.get("tid"@);
            let text = JsonView::Text(front + id + back);
            &&& here == Some(JsonView::Number(n)) ==> found == n.text
            &&& here == Some(text) ==> found == id
            &&& here is None && there == Some(JsonView::Number(n)) ==> found == n.text
            &&& here is None && there == Some(text) ==> found == id
            &&& here is None && there is None ==> found.len() == 0
        }),
{
    identifiers_are_numbers_or_texts(n, front, id, back);
}

/// The title of a result is the text under "title", and the one under "name"
/// only where there is no title.
pub proof fn results_are_titled(item: JsonView, media_type: Seq<char>)
    ensures
        match item.get("title"@) {
            Some(JsonView::Text(title)) => result_of(item, media_type).title == Some(title),
            Some(_) => result_of(item, media_type).title is None,
            None => match item.get("name"@) {
                Some(JsonView::Text(title)) => result_of(item, media_type).title == Some(title),
                _ => result_of(item, media_type).title is None,
            },
        },
{
}

/// A result is free, or for VIPs, exactly if its own mark says so or the mark
/// for both does. A mark is a truth value, a number that is not zero or a word
/// that switches something on.
pub proof fn results_are_marked(item: JsonView, media_type: Seq<char>, n: NumberView)
    ensures
        ({
            let found = result_of(item, media_type);
            let free = item.get("free"@);
            let vip = item.get("vip"@);
            let both = item.get("fl_vip"@);
            &&& free == Some(JsonView::Bool(true)) || both == Some(JsonView::Bool(true))
                ==> found.is_freeleech
            &&& vip == Some(JsonView::Bool(true)) || both == Some(JsonView::Bool(true))
                ==> found.is_vip
            &&& (free is None || free == Some(JsonView::Bool(false))) && (both is None || both
                == Some(JsonView::Bool(false))) ==> !found.is_freeleech
            &&& (vip is None || vip == Some(JsonView::Bool(false))) && (both is None || both
                == Some(JsonView::Bool(false))) ==> !found.is_vip
            &&& both is None && free == Some(JsonView::Number(n)) ==> (found.is_freeleech
                <==> n.signed is Some && n.signed != Some(0i64))
            &&& both is None && vip == Some(JsonView::Number(n)) ==> (found.is_vip
                <==> n.signed is Some && n.signed != Some(0i64))
            &&& both is None ==> (free matches Some(JsonView::Text(word)) ==> found.is_freeleech
                == truthy_text(word))
            &&& both is None ==> (vip matches Some(JsonView::Text(word)) ==> found.is_vip
                == truthy_text(word))
        }),
{
}

/// The format of a result is the first that its item states, as the list of
/// formats has it.
pub proof fn results_have_the_format_of_their_item(
    item: JsonView,
    media_type: Seq<char>,
    format: Seq<char>,
)
    requires
        item.get("format"@) == Some(JsonView::Text(format)),
        format.len() > 0,
        !is_whitespace(format[0]),
        !is_whitespace(format.last()),
    ensures
        result_of(item, media_type).format == format,
{
    let empty = Seq::<char>::empty();
    assert(empty + format + empty =~= format);
    first_stated_format_counts(item, 0, empty, format, empty);
}

/// Every item of the answer gives one result, in the same order, and the
/// totals are handed on.
pub proof fn every_item_gives_a_result(
    raw: JsonView,
    media_type: Seq<char>,
    items: Seq<JsonView>,
    i: int,
)
    requires
        raw.get("data"@) == Some(JsonView::Array(items)),
        0 <= i < items.len(),
    ensures
        response_of(raw, media_type).results.len() == items.len(),
        response_of(raw, media_type).results[i] == result_of(items[i], media_type),
        response_of(raw, media_type).total == raw.get("total"@),
        response_of(raw, media_type).total_found == raw.get("total_found"@),
{
}

/// An answer without a list of items has no results; its totals are handed on
/// all the same.
pub proof fn answers_without_items_have_no_results(raw: JsonView, media_type: Seq<char>)
    ensures
        !(raw.get("data"@) matches Some(JsonView::Array(_))) ==> response_of(
            raw,
            media_type,
        ).results.len() == 0,
        response_of(raw, media_type).total == raw.get("total"@),
        response_of(raw, media_type).total_found == raw.get("total_found"@),
{
}

/// A search looks in the titles and the authors, and for audiobooks in the
/// narrators too; it looks in the category of its media type alone.
pub proof fn searches_look_where_their_media_type_is(payload: JsonView)
    ensures
        ({
            let audio = search_terms(payload, "audiobook"@);
            let text = search_terms(payload, "ebook"@);
            &&& found(audio, "srchIn"@) == Some(
                JsonView::Array(
                    seq![
                        JsonView::Text("title"@),
                        JsonView::Text("author"@),
                        JsonView::Text("narrator"@),
                    ],
                ),
            )
            &&& found(text, "srchIn"@) == Some(
                JsonView::Array(seq![JsonView::Text("title"@), JsonView::Text("author"@)]),
            )
            &&& found(audio, "main_cat"@) == Some(
                JsonView::Array(seq![JsonView::Text(seq!['1', '3'])]),
            )
            &&& found(text, "main_cat"@) == Some(
                JsonView::Array(seq![JsonView::Text(seq!['1', '4'])]),
            )
        }),
{
    search_terms_are_decided_on(payload, "audiobook"@, "text"@);
    search_terms_are_decided_on(payload, "ebook"@, "text"@);
    media_types_name_themselves("ebook"@);
    reveal_strlit("audiobook");
    reveal_strlit("ebook");
    assert("audiobook"@.len() == 9 && "ebook"@.len() == 5);
    assert(text_values(fields_searched("audiobook"@)) =~= seq![
        JsonView::Text("title"@),
        JsonView::Text("author"@),
        JsonView::Text("narrator"@),
    ]);
    assert(text_values(fields_searched("ebook"@)) =~= seq![
        JsonView::Text("title"@),
        JsonView::Text("author"@),
    ]);
    assert(text_values(seq![main_category("audiobook"@)]) =~= seq![
        JsonView::Text(seq!['1', '3']),
    ]);
    assert(text_values(seq![main_category("ebook"@)]) =~= seq![JsonView::Text(seq!['1', '4'])]);
}

/// What the user sends to be searched for is searched for: every entry of the
/// search that the application does not decide on goes out as it came in, and
/// what was not sent goes out empty, from the first place on.
pub proof fn searches_are_for_what_was_sent(
    payload: JsonView,
    media_type: Seq<char>,
    entries: Seq<(Seq<char>, JsonView)>,
    other: Seq<char>,
)
    requires
        payload.get("tor"@) == Some(JsonView::Object(entries)),
        other != "srchIn"@,
        other != "searchType"@,
        other != "sortType"@,
        other != "main_cat"@,
    ensures
        ({
            let sent = search_terms(payload, media_type);
            let given = JsonView::Object(entries);
            &&& given.get(other) is Some ==> found(sent, other) == given.get(other)
            &&& given.get(other) is None && other != "text"@ && other != "startNumber"@ ==> found(
                sent,
                other,
            ) is None
            &&& given.get("text"@) is None ==> found(sent, "text"@) == Some(
                JsonView::Text(Seq::empty()),
            )
            &&& given.get("startNumber"@) is None ==> found(sent, "startNumber"@) == Some(
                JsonView::Text(seq!['0']),
            )
            &&& found(sent, "searchType"@) == Some(JsonView::Text("all"@))
            &&& found(sent, "sortType"@) == Some(JsonView::Text("seedersDesc"@))
        }),
{
    search_terms_are_decided_on(payload, media_type, other);
    reveal_strlit("");
    reveal_strlit("0");
    assert(""@ =~= Seq::empty());
    assert("0"@ =~= seq!['0']);
    let keys = own_keys();
    if keys.contains(other) {
        let k = choose|k: int| 0 <= k < keys.len() && keys[k] == other;
        assert(k == 4 || k == 5);
    }
}

/// As many results are asked for as the user says, in a number or in digits,
/// and 25 where that says nothing.
pub proof fn as_many_results_are_asked_for_as_wanted(payload: JsonView, n: u64)
    ensures
        match payload.get("perpage"@) {
            Some(JsonView::Number(number)) => match number.unsigned {
                Some(wanted) => results_wanted(payload) == wanted,
                None => results_wanted(payload) == 25,
            },
            Some(JsonView::Text(text)) => {
                &&& text == decimal(n as int) ==> results_wanted(payload) == n
                &&& text == seq!['+'] + decimal(n as int) ==> results_wanted(payload) == n
                &&& text.len() == 0 ==> results_wanted(payload) == 25
                &&& (exists|i: int|
                    0 <= i < text.len() && !is_digit(#[trigger] text[i], 10) && text[i] != '+')
                    ==> results_wanted(payload) == 25
            },
            _ => results_wanted(payload) == 25,
        },
{
    written_numbers_are_read(n as int, u64::MAX as int);
    if let Some(JsonView::Text(text)) = payload.get("perpage"@) {
        if exists|i: int|
            0 <= i < text.len() && !is_digit(#[trigger] text[i], 10) && text[i] != '+' {
            let i = choose|i: int|
                0 <= i < text.len() && !is_digit(#[trigger] text[i], 10) && text[i] != '+';
            numbers_are_digits_alone(text, 10, u64::MAX as int, i);
        }
    }
}

/// A search goes to the tracker that is set, with the cookie that is set, and
/// for the media type that is named; without a cookie there is none, whatever
/// was sent, and no other media type is searched for in place of one that is
/// not known.
pub proof fn searches_go_to_the_tracker(settings: SettingsView, payload: JsonView)
    ensures
        ({
            let asked = search_request_for(settings, payload);
            &&& asked is Ok ==> settings.mam_cookie.len() > 0
            &&& asked matches Ok(request) ==> {
                &&& request.cookie == settings.mam_cookie
                &&& request.url == settings.mam_base + "/tor/js/loadSearchJSONbasic.php"@
                &&& match payload.get("media_type"@) {
                    Some(JsonView::Text(named)) => media_type_of(Some(named)) == Ok::<
                        _,
                        ErrorView,
                    >(request.media_type),
                    _ => media_type_of(None) == Ok::<_, ErrorView>(request.media_type),
                }
                &&& request.media_type == "audiobook"@ || request.media_type == "ebook"@
                &&& request.tor == search_terms(payload, request.media_type)
                &&& request.per_page == results_wanted(payload)
            }
            &&& settings.mam_cookie.len() == 0 ==> (asked matches Err(e) && e.status
                == Status::InternalServerError && e.detail == "MAM_COOKIE not set on server"@)
            &&& settings.mam_cookie.len() > 0 ==> (asked matches Err(e) ==> e.status
                == Status::BadRequest)
        }),
{
}

/// What does not come through, is refused or cannot be read is a failure of
/// the tracker whose message gives the reason, or the status and as much of the
/// body as fits in 300 characters; an answer is never a failure.
pub proof fn failed_searches_tell_why(reply: SearchReply, media_type: Seq<char>)
    ensures
        ({
            let outcome = search_outcome(reply, media_type);
            &&& outcome is Ok <==> reply is Answer
            &&& outcome matches Err(e) ==> e.status == Status::BadGateway
            &&& match reply {
                SearchReply::Unreachable(reason) => outcome matches Err(e) && e.detail
                    == "MAM request failed: "@ + reason@,
                SearchReply::Refused { status, body } => outcome matches Err(e) && e.detail
                    == "MAM HTTP "@ + status_line(status) + ": "@ + (if body@.len() <= 300 {
                    body@
                } else {
                    body@.take(300)
                }),
                SearchReply::Unreadable(reason) => outcome matches Err(e) && e.detail
                    == "MAM returned non-JSON. Body parse failed: "@ + reason@,
                SearchReply::Answer(raw) => outcome == Ok::<_, ErrorView>(
                    response_of(raw@, media_type),
                ),
            }
        }),
{
}

/// Only the status of plain success lets an answer be read.
pub proof fn only_plain_success_is_read(status: u16)
    ensures
        step_for_status(status) == TrackerStep::ReadBody <==> status == 200,
        step_for_status(status) == TrackerStep::Refused <==> status != 200,
{
}

/// What is sent to the tracker is the search and the number of results that the
/// request has, each under its own key.
pub proof fn requests_send_the_search_and_its_size(
    body: Map<Seq<char>, JsonView>,
    request: SearchRequestView,
    key: Seq<char>,
)
    requires
        is_search_body(body, request),
    ensures
        found(body, "tor"@) matches Some(tor) && tor.get(key) == found(request.tor, key),
        found(body, "perpage"@) matches Some(JsonView::Number(n)) && n.unsigned == Some(
            request.per_page,
        ) && n.text == decimal(request.per_page as int),
        key != "tor"@ && key != "perpage"@ ==> found(body, key) is None,
{
    if let JsonView::Object(entries) = body["tor"@] {
        assert(entries_map(entries) == request.tor);
        assert(found(entries_map(entries), key) == lookup(entries, key));
    }
}

/// A search that was sent as anything but an object, or not at all, holds
/// nothing but what the application decides on.
pub proof fn searches_for_nothing_are_empty(payload: JsonView, media_type: Seq<char>, other: Seq<char>)
    requires
        !(payload.get("tor"@) matches Some(JsonView::Object(_))),
        other != "srchIn"@,
        other != "searchType"@,
        other != "sortType"@,
        other != "main_cat"@,
    ensures
        ({
            let sent = search_terms(payload, media_type);
            &&& other != "text"@ && other != "startNumber"@ ==> found(sent, other) is None
            &&& found(sent, "text"@) == Some(JsonView::Text(Seq::empty()))
            &&& found(sent, "startNumber"@) == Some(JsonView::Text(seq!['0']))
        }),
{
    search_terms_are_decided_on(payload, media_type, other);
    reveal_strlit("");
    reveal_strlit("0");
    assert(""@ =~= Seq::empty());
    assert("0"@ =~= seq!['0']);
    let keys = own_keys();
    if keys.contains(other) {
        let k = choose|k: int| 0 <= k < keys.len() && keys[k] == other;
        assert(k == 4 || k == 5);
    }
}

/// With a cookie, a search is refused only for a media type that is not known,
/// and then just as that is.
pub proof fn searches_are_refused_for_their_media_type_alone(
    settings: SettingsView,
    payload: JsonView,
    named: Seq<char>,
)
    requires
        settings.mam_cookie.len() > 0,
    ensures
        ({
            let asked = search_request_for(settings, payload);
            let given = payload.get("media_type"@);
            &&& given == Some(JsonView::Text(named)) ==> (asked is Ok <==> media_type_of(Some(named))
                is Ok)
            &&& given == Some(JsonView::Text(named)) ==> (asked matches Err(e) ==> media_type_of(
                Some(named),
            ) == Err::<Seq<char>, _>(e))
            &&& !(given matches Some(JsonView::Text(_))) ==> (asked is Ok <==> media_type_of(None)
                is Ok)
        }),
{
}

}
