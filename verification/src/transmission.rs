//! What is said to Transmission and what is made of its answers.
use crate::error::{bad_gateway, result_view, AppError, ErrorView, Status};
use crate::json::{
    copy_of, empty_object, entries_from_values, entries_map, found, get_items, is_object_of,
    items_in,
    items_view, lemma_entry_place_is, lemma_object_view, lookup, opt_view, outside_entries, owned,
    text_array, text_copy, text_in, text_values, Json, JsonView, NumberView,
};
use crate::outside::{
    format_status, json_of, json_text, map_insert, map_of, map_value, new_map, open_value,
    render_value, status_line, text_value, Layer,
};
use crate::settings::{Settings, SettingsView};
use crate::text::{
    cut_at, cuts_are_at_the_first, first_chars, has_char, lemma_first_picked, lemma_picked,
    lemma_picked_at_most, same_text, split_once, take_chars, trim_start_of, trimmed_start,
    trimming_takes_what_stands_around, views, CharClass,
};
use vstd::prelude::*;
use vstd::string::*;

verus! {

broadcast use vstd::string::group_string_axioms;

// ---------------------------------------------------------------------------
// Requests
// ---------------------------------------------------------------------------

/// The user name and password to send, where any is set.
pub open spec fn auth_for(settings: SettingsView) -> Option<(Seq<char>, Seq<char>)> {
    if settings.transmission_user.len() == 0 && settings.transmission_pass.len() == 0 {
        None
    } else {
        Some((settings.transmission_user, settings.transmission_pass))
    }
}

/// The user name and password to send.
pub fn transmission_auth(settings: &Settings) -> (r: Option<(String, String)>)
    ensures
        match r {
            Some(pair) => auth_for(settings@) == Some((pair.0@, pair.1@)),
            None => auth_for(settings@) is None,
        },
{
    if settings.transmission_user.as_str().is_empty()
        && settings.transmission_pass.as_str().is_empty() {
        None
    } else {
        Some((settings.transmission_user.clone(), settings.transmission_pass.clone()))
    }
}

/// The labels for a torrent: the configured one, and one that names the book.
pub open spec fn labels_for(label: Seq<char>, mam_id: Seq<char>) -> Seq<Seq<char>> {
    let own = if label.len() == 0 {
        Seq::empty()
    } else {
        seq![label]
    };
    if mam_id.len() == 0 {
        own
    } else {
        own.push("mamid="@ + mam_id)
    }
}

/// The labels for a torrent.
pub fn transmission_labels(settings: &Settings, mam_id: &str) -> (r: Vec<String>)
    ensures
        views(r@) == labels_for(settings@.transmission_label, mam_id@),
{
    let mut labels: Vec<String> = Vec::new();
    if !settings.transmission_label.as_str().is_empty() {
        labels.push(settings.transmission_label.clone());
    }
    let ghost own = labels@;
    if !mam_id.is_empty() {
        labels.push("mamid=".to_owned().concat(mam_id));
    }
    assert(views(labels@) =~= labels_for(settings@.transmission_label, mam_id@));
    labels
}

/// The arguments for adding a torrent: where it comes from, and its labels.
pub open spec fn add_arguments(
    label: Seq<char>,
    mam_id: Seq<char>,
    source_key: Seq<char>,
    source_value: Seq<char>,
) -> Map<Seq<char>, JsonView> {
    let source = Map::empty().insert(source_key, JsonView::Text(source_value));
    let labels = labels_for(label, mam_id);
    if labels.len() == 0 {
        source
    } else {
        source.insert("labels"@, JsonView::Array(text_values(labels)))
    }
}

/// The arguments for adding a torrent.
pub fn torrent_add_arguments(
    settings: &Settings,
    mam_id: &str,
    source_key: &str,
    source_value: &str,
) -> (r: serde_json::Map<String, serde_json::Value>)
    ensures
        map_of(r) == add_arguments(
            settings@.transmission_label,
            mam_id@,
            source_key@,
            source_value@,
        ),
{
    let mut args = new_map();
    assert(map_of(args) =~= Map::empty());
    map_insert(&mut args, source_key, text_value(source_value));
    let labels = transmission_labels(settings, mam_id);
    assert(views(labels@).len() == labels@.len());
    if labels.len() > 0 {
        map_insert(&mut args, "labels", text_array(&labels));
    }
    args
}

/// The hash of the torrent that was added, or that was there already.
pub open spec fn added_hash(args: JsonView) -> Option<Seq<char>> {
    let torrent = match args.get("torrent-added"@) {
        Some(t) => Some(t),
        None => args.get("torrent-duplicate"@),
    };
    match torrent {
        Some(t) => text_in(t.get("hashString"@)),
        None => None,
    }
}

/// The hash of the torrent that was added, or that was there already.
pub fn torrent_hash_from_add_result(args: &Json) -> (r: Option<String>)
    ensures
        opt_view(r) == added_hash(args@),
{
    let torrent = match args.get("torrent-added") {
        Some(t) => Some(t),
        None => args.get("torrent-duplicate"),
    };
    match torrent {
        Some(t) => match t.get_text("hashString") {
            Some(hash) => Some(hash.clone()),
            None => None,
        },
        None => None,
    }
}

/// Whether this is the body of a call: its method and its arguments, which may
/// be none, and nothing else.
pub open spec fn is_call_payload(
    payload: Map<Seq<char>, JsonView>,
    method: Seq<char>,
    arguments: Map<Seq<char>, JsonView>,
) -> bool {
    &&& forall|key: Seq<char>| #[trigger]
        payload.dom().contains(key) <==> key == "method"@ || key == "arguments"@
    &&& payload["method"@] == JsonView::Text(method)
    &&& is_object_of(payload["arguments"@], arguments)
}

/// The body of a call.
pub fn rpc_payload(
    method: &str,
    arguments: Option<serde_json::Map<String, serde_json::Value>>,
) -> (r: serde_json::Map<String, serde_json::Value>)
    ensures
        is_call_payload(
            map_of(r),
            method@,
            match arguments {
                Some(args) => map_of(args),
                None => Map::empty(),
            },
        ),
{
    let none = new_map();
    assert(map_of(none) =~= Map::empty());
    let args = match arguments {
        Some(args) => args,
        None => none,
    };
    let mut payload = new_map();
    map_insert(&mut payload, "method", text_value(method));
    map_insert(&mut payload, "arguments", map_value(args));
    proof {
        reveal_strlit("method");
        reveal_strlit("arguments");
        assert("method"@.len() == 6 && "arguments"@.len() == 9);
    }
    payload
}

// ---------------------------------------------------------------------------
// A call
// ---------------------------------------------------------------------------

/// How far a call has come.
#[derive(Clone, Copy, Debug, PartialEq, Eq, Structural)]
pub enum RpcState {
    /// The request was sent without a session.
    Sent,
    /// The request was sent again, with the session that was asked for.
    Resent,
}

/// What came back for a request.
#[derive(Debug)]
pub enum RpcReply {
    /// Nothing, for this reason.
    Unreachable(String),
    /// A status and, where the answer has one, a session.
    Answered { status: u16, session_id: Option<Vec<u8>> },
}

/// What to do next in a call.
#[derive(Debug)]
pub enum RpcStep {
    /// Send the request again with this session.
    Resend(Vec<u8>),
    /// Read the body of the answer as JSON.
    ReadJson,
    /// Read the body of the answer as text; the call was refused.
    ReadRefusal,
    /// Give the call up.
    Fail(AppError),
}

/// The model of what to do next in a call.
pub enum RpcStepView {
    Resend(Seq<u8>),
    ReadJson,
    ReadRefusal,
    Fail(ErrorView),
}

impl View for RpcStep {
    type V = RpcStepView;

    open spec fn view(&self) -> RpcStepView {
        match self {
            RpcStep::Resend(session_id) => RpcStepView::Resend(session_id@),
            RpcStep::ReadJson => RpcStepView::ReadJson,
            RpcStep::ReadRefusal => RpcStepView::ReadRefusal,
            RpcStep::Fail(e) => RpcStepView::Fail(e@),
        }
    }
}

/// What to do after an answer: a conflict that comes with a session is
/// answered once, by sending the request again with it.
pub open spec fn next_step(state: RpcState, reply: RpcReply) -> RpcStepView {
    match reply {
        RpcReply::Unreachable(reason) => RpcStepView::Fail(
            bad_gateway("Transmission RPC failed: "@ + reason@),
        ),
        RpcReply::Answered { status, session_id } => if state == RpcState::Sent && status == 409
            && session_id is Some {
            RpcStepView::Resend(session_id->0@)
        } else if status == 200 {
            RpcStepView::ReadJson
        } else {
            RpcStepView::ReadRefusal
        },
    }
}

/// What to do after an answer.
pub fn transmission_rpc(state: RpcState, reply: RpcReply) -> (r: RpcStep)
    ensures
        r@ == next_step(state, reply),
{
    match reply {
        RpcReply::Unreachable(reason) => RpcStep::Fail(
            AppError::bad_gateway(&"Transmission RPC failed: ".to_owned().concat(&reason)),
        ),
        RpcReply::Answered { status, session_id } => {
            if status == 409 {
                match (state, session_id) {
                    (RpcState::Sent, Some(id)) => RpcStep::Resend(id),
                    _ => RpcStep::ReadRefusal,
                }
            } else if status == 200 {
                RpcStep::ReadJson
            } else {
                RpcStep::ReadRefusal
            }
        },
    }
}

/// The failure of a call that was refused.
pub open spec fn refusal(status: u16, body: Seq<char>) -> ErrorView {
    bad_gateway("Transmission RPC failed: "@ + status_line(status) + " "@ + first_chars(body, 160))
}

/// The failure of a call that was refused.
pub fn rpc_refused(status: u16, body: &str) -> (r: AppError)
    requires
        100 <= status <= 999,
    ensures
        r@ == refusal(status, body@),
{
    AppError::bad_gateway(
        &"Transmission RPC failed: ".to_owned().concat(&format_status(status)).concat(" ").concat(
            &take_chars(body, 160),
        ),
    )
}

/// The failure of a call whose answer is no JSON.
pub open spec fn unreadable(reason: Seq<char>) -> ErrorView {
    bad_gateway("Transmission returned non-JSON: "@ + reason)
}

/// The failure of a call whose answer is no JSON.
pub fn rpc_unreadable(reason: &str) -> (r: AppError)
    ensures
        r@ == unreadable(reason@),
{
    AppError::bad_gateway(&"Transmission returned non-JSON: ".to_owned().concat(reason))
}

/// What a call gives, for an answer whose result reads `result_text`.
pub open spec fn call_outcome(
    method: Seq<char>,
    data: JsonView,
    result_text: Option<Seq<char>>,
) -> Result<JsonView, ErrorView> {
    if text_in(data.get("result"@)) == Some("success"@) {
        Ok(
            match data.get("arguments"@) {
                Some(args) => args,
                None => JsonView::Object(Seq::empty()),
            },
        )
    } else {
        Err(
            bad_gateway(
                "Transmission "@ + method + " failed: "@ + match result_text {
                    Some(text) => text,
                    None => "unknown"@,
                },
            ),
        )
    }
}

/// What a call gives, for an answer.
pub open spec fn call_result(method: Seq<char>, data: JsonView) -> Result<JsonView, ErrorView> {
    call_outcome(
        method,
        data,
        match data.get("result"@) {
            Some(result) => Some(json_text(result)),
            None => None,
        },
    )
}

/// What a call gives, for the answer and the text of its result.
pub fn read_rpc_data(method: &str, data: &Json, result_text: Option<&str>) -> (r: Result<
    Json,
    AppError,
>)
    ensures
        result_view(r) == call_outcome(method@, data@, opt_view(result_text)),
{
    let succeeded = match data.get_text("result") {
        Some(result) => same_text(result, "success"),
        None => false,
    };
    if !succeeded {
        let result = match result_text {
            Some(text) => text.to_owned(),
            None => "unknown".to_owned(),
        };
        return Err(
            AppError::bad_gateway(
                &"Transmission ".to_owned().concat(method).concat(" failed: ").concat(&result),
            ),
        );
    }
    match data.get("arguments") {
        Some(args) => Ok(args.copy()),
        None => Ok(empty_object()),
    }
}

/// The JSON text of the first value under `key`.
fn rendered_entry(entries: &Vec<(String, serde_json::Value)>, key: &str) -> (r: Option<String>)
    ensures
        opt_view(r) == match lookup(outside_entries(entries@), key@) {
            Some(v) => Some(json_text(v)),
            None => None,
        },
{
    let mut i: usize = 0;
    while i < entries.len()
        invariant
            i <= entries@.len(),
            forall|j: int| 0 <= j < i ==> (#[trigger] outside_entries(entries@)[j]).0 != key@,
        decreases entries@.len() - i,
    {
        if same_text(&entries[i].0, key) {
            proof {
                lemma_entry_place_is(outside_entries(entries@), key@, i as int);
            }
            return Some(render_value(&entries[i].1));
        }
        i += 1;
    }
    proof {
        lemma_entry_place_is(outside_entries(entries@), key@, i as int);
    }
    None
}

/// What a call gives, for the answer.
pub fn read_rpc_value(method: &str, value: serde_json::Value) -> (r: Result<Json, AppError>)
    ensures
        result_view(r) == call_result(method@, json_of(value)),
{
    match open_value(value) {
        Layer::Object(entries) => {
            let text = rendered_entry(&entries, "result");
            let data = Json::Object(entries_from_values(entries));
            proof {
                lemma_object_view(data);
            }
            match text {
                Some(t) => read_rpc_data(method, &data, Some(t.as_str())),
                None => read_rpc_data(method, &data, None),
            }
        },
        _ => read_rpc_data(method, &Json::Null, None),
    }
}

// ---------------------------------------------------------------------------
// Finished torrents
// ---------------------------------------------------------------------------

/// A torrent that is downloaded in full.
#[derive(Debug)]
pub struct CompletedTorrent {
    pub hash: String,
    pub name: Option<String>,
    pub download_dir: Option<String>,
    pub root: String,
    pub single_file: bool,
    pub size: Option<Json>,
    pub added_on: Option<Json>,
}

/// The model of a torrent that is downloaded in full.
pub struct CompletedTorrentView {
    pub hash: Seq<char>,
    pub name: Option<Seq<char>>,
    pub download_dir: Option<Seq<char>>,
    pub root: Seq<char>,
    pub single_file: bool,
    pub size: Option<JsonView>,
    pub added_on: Option<JsonView>,
}

impl View for CompletedTorrent {
    type V = CompletedTorrentView;

    open spec fn view(&self) -> CompletedTorrentView {
        CompletedTorrentView {
            hash: self.hash@,
            name: opt_view(self.name),
            download_dir: opt_view(self.download_dir),
            root: self.root@,
            single_file: self.single_file,
            size: opt_view(self.size),
            added_on: opt_view(self.added_on),
        }
    }
}

/// The models of a list of torrents.
pub open spec fn torrent_views(torrents: Seq<CompletedTorrent>) -> Seq<CompletedTorrentView> {
    torrents.map_values(|t: CompletedTorrent| t@)
}

/// Whether the double with these bits is less than one: a positive one with
/// an exponent below zero, or any negative one.
pub open spec fn below_one(bits: u64) -> bool {
    bits < 0x3FF0_0000_0000_0000 || 0x8000_0000_0000_0000 <= bits <= 0xFFF0_0000_0000_0000
}

/// Whether a torrent bears the label; the empty label is on every torrent.
pub open spec fn bears_label(torrent: JsonView, label: Seq<char>) -> bool {
    label.len() == 0 || items_in(torrent.get("labels"@)).contains(JsonView::Text(label))
}

/// Whether a torrent is downloaded in full.
pub open spec fn is_complete(torrent: JsonView) -> bool {
    match torrent.get("percentDone"@) {
        Some(JsonView::Number(n)) => n.bits matches Some(bits) && !below_one(bits),
        _ => false,
    }
}

/// The name of a file of a torrent.
pub open spec fn file_name_in(file: JsonView) -> Option<Seq<char>> {
    text_in(file.get("name"@))
}

/// The directory at the top of the path of a file, where it has one.
pub open spec fn top_directory(file: JsonView) -> Option<Seq<char>> {
    match file_name_in(file) {
        Some(name) => match cut_at(trimmed_start(name, CharClass::Just('/')), '/') {
            Some(cut) => Some(cut.0),
            None => None,
        },
        None => None,
    }
}

/// The directories at the top of the paths of a torrent's files.
pub open spec fn top_directories(files: Seq<JsonView>) -> Seq<Seq<char>> {
    files.filter_map(|f: JsonView| top_directory(f))
}

/// Where a torrent's files lie: the first directory at the top of their
/// paths, or the torrent's own name where there is none.
pub open spec fn root_of(torrent: JsonView) -> Seq<char> {
    let tops = top_directories(items_in(torrent.get("files"@)));
    if tops.len() > 0 {
        tops[0]
    } else {
        match text_in(torrent.get("name"@)) {
            Some(name) => name,
            None => Seq::empty(),
        }
    }
}

/// Whether a torrent is one file outside any directory.
pub open spec fn is_single_file(torrent: JsonView) -> bool {
    let files = items_in(torrent.get("files"@));
    files.len() == 1 && (file_name_in(files[0]) matches Some(name) && !name.contains('/'))
}

/// A torrent of the list, where it bears the label, is complete and has a hash.
pub open spec fn completed_of(torrent: JsonView, label: Seq<char>) -> Option<CompletedTorrentView> {
    match text_in(torrent.get("hashString"@)) {
        Some(hash) => if bears_label(torrent, label) && is_complete(torrent) {
            Some(
                CompletedTorrentView {
                    hash,
                    name: text_in(torrent.get("name"@)),
                    download_dir: text_in(torrent.get("downloadDir"@)),
                    root: root_of(torrent),
                    single_file: is_single_file(torrent),
                    size: torrent.get("totalSize"@),
                    added_on: torrent.get("addedDate"@),
                },
            )
        } else {
            None
        },
        None => None,
    }
}

/// The finished torrents that an answer lists.
pub open spec fn completed_in(args: JsonView, label: Seq<char>) -> Seq<CompletedTorrentView> {
    items_in(args.get("torrents"@)).filter_map(|t: JsonView| completed_of(t, label))
}

/// What is asked of the torrents.
pub open spec fn listing_fields() -> Seq<Seq<char>> {
    seq![
        "id"@,
        "hashString"@,
        "name"@,
        "percentDone"@,
        "downloadDir"@,
        "totalSize"@,
        "addedDate"@,
        "labels"@,
        "files"@,
    ]
}

/// The arguments that ask for some fields of all torrents.
pub open spec fn listing_for(fields: Seq<Seq<char>>) -> Map<Seq<char>, JsonView> {
    Map::empty().insert("fields"@, JsonView::Array(text_values(fields)))
}

/// The arguments that ask for the torrents.
pub fn listing_arguments() -> (r: serde_json::Map<String, serde_json::Value>)
    ensures
        map_of(r) == listing_for(listing_fields()),
{
    let fields: Vec<&str> = vec![
        "id",
        "hashString",
        "name",
        "percentDone",
        "downloadDir",
        "totalSize",
        "addedDate",
        "labels",
        "files",
    ];
    assert(fields@.map_values(|t: &str| t@) =~= listing_fields());
    let mut args = new_map();
    assert(map_of(args) =~= Map::empty());
    map_insert(&mut args, "fields", text_array(&owned(&fields)));
    args
}

/// Whether the double with these bits is less than one.
fn is_below_one(bits: u64) -> (r: bool)
    ensures
        r == below_one(bits),
{
    bits < 0x3FF0_0000_0000_0000 || (0x8000_0000_0000_0000 <= bits && bits
        <= 0xFFF0_0000_0000_0000)
}

/// Whether a text is among the values.
fn has_text(items: &Vec<Json>, text: &str) -> (r: bool)
    ensures
        r == items_view(items@).contains(JsonView::Text(text@)),
{
    let mut i: usize = 0;
    while i < items.len()
        invariant
            i <= items@.len(),
            forall|j: int|
                0 <= j < i ==> #[trigger] items_view(items@)[j] != JsonView::Text(text@),
        decreases items@.len() - i,
    {
        match &items[i] {
            Json::Text(s) => {
                if same_text(s, text) {
                    assert(items_view(items@)[i as int] == JsonView::Text(text@));
                    return true;
                }
            },
            _ => {},
        }
        assert(items_view(items@)[i as int] == items@[i as int]@);
        i += 1;
    }
    false
}

/// The directory at the top of the path of the file, where it has one.
fn read_top_directory(file: &Json) -> (r: Option<String>)
    ensures
        opt_view(r) == top_directory(file@),
{
    match file.get_text("name") {
        Some(name) => match split_once(&trim_start_of(name, CharClass::Just('/')), '/') {
            Some(cut) => Some(cut.0),
            None => None,
        },
        None => None,
    }
}

/// Leaving out the items without a value leaves the first one that has one in
/// front.
proof fn lemma_first_top(files: Seq<JsonView>, at: int)
    requires
        0 <= at < files.len(),
        top_directory(files[at]) is Some,
        forall|j: int| 0 <= j < at ==> top_directory(#[trigger] files[j]) is None,
    ensures
        top_directories(files).len() > 0,
        top_directories(files)[0] == top_directory(files[at])->0,
    decreases files.len(),
{
    let before = files.drop_last();
    if at < files.len() - 1 {
        assert forall|j: int| 0 <= j < at implies top_directory(#[trigger] before[j]) is None by {
            assert(before[j] == files[j]);
        }
        lemma_first_top(before, at);
    } else {
        lemma_no_tops(before);
    }
}

/// Where no file lies in a directory there is no directory at the top.
proof fn lemma_no_tops(files: Seq<JsonView>)
    requires
        forall|j: int| 0 <= j < files.len() ==> top_directory(#[trigger] files[j]) is None,
    ensures
        top_directories(files).len() == 0,
    decreases files.len(),
{
    if files.len() > 0 {
        let before = files.drop_last();
        assert forall|j: int| 0 <= j < before.len() implies top_directory(
            #[trigger] before[j],
        ) is None by {
            assert(before[j] == files[j]);
        }
        lemma_no_tops(before);
        assert(top_directory(files[files.len() - 1]) is None);
    }
}

/// Where the torrent's files lie.
fn read_root(torrent: &Json) -> (r: String)
    ensures
        r@ == root_of(torrent@),
{
    let none: Vec<Json> = Vec::new();
    let files = get_items(torrent, "files", &none);
    let mut i: usize = 0;
    while i < files.len()
        invariant
            i <= files@.len(),
            items_view(files@) == items_in(torrent@.get("files"@)),
            forall|j: int|
                0 <= j < i ==> top_directory(#[trigger] items_view(files@)[j]) is None,
        decreases files@.len() - i,
    {
        match read_top_directory(&files[i]) {
            Some(top) => {
                proof {
                    lemma_first_top(items_view(files@), i as int);
                }
                return top;
            },
            None => {},
        }
        i += 1;
    }
    proof {
        lemma_no_tops(items_view(files@));
    }
    match torrent.get_text("name") {
        Some(name) => name.clone(),
        None => String::new(),
    }
}

/// Whether the torrent is one file outside any directory.
fn read_single_file(torrent: &Json) -> (r: bool)
    ensures
        r == is_single_file(torrent@),
{
    let none: Vec<Json> = Vec::new();
    let files = get_items(torrent, "files", &none);
    assert(items_view(files@).len() == files@.len());
    if files.len() != 1 {
        return false;
    }
    assert(items_view(files@)[0] == files@[0]@);
    match files[0].get_text("name") {
        Some(name) => !has_char(name, '/'),
        None => false,
    }
}

/// The torrent, where it bears the label, is complete and has a hash.
pub fn read_completed(torrent: &Json, label: &str) -> (r: Option<CompletedTorrent>)
    ensures
        opt_view(r) == completed_of(torrent@, label@),
{
    let none: Vec<Json> = Vec::new();
    let labels = get_items(torrent, "labels", &none);
    if !label.is_empty() && !has_text(labels, label) {
        return None;
    }
    let complete = match torrent.get("percentDone") {
        Some(Json::Number(n)) => match n.bits {
            Some(bits) => !is_below_one(bits),
            None => false,
        },
        _ => false,
    };
    if !complete {
        return None;
    }
    match torrent.get_text("hashString") {
        Some(hash) => Some(
            CompletedTorrent {
                hash: hash.clone(),
                name: text_copy(torrent.get_text("name")),
                download_dir: text_copy(torrent.get_text("downloadDir")),
                root: read_root(torrent),
                single_file: read_single_file(torrent),
                size: copy_of(torrent.get("totalSize")),
                added_on: copy_of(torrent.get("addedDate")),
            },
        ),
        None => None,
    }
}

/// The finished torrents that the answer lists.
pub fn list_completed_torrents(args: &Json, label: &str) -> (r: Vec<CompletedTorrent>)
    ensures
        torrent_views(r@) == completed_in(args@, label@),
{
    let none: Vec<Json> = Vec::new();
    let torrents = get_items(args, "torrents", &none);
    let ghost pick = |t: JsonView| completed_of(t, label@);
    let mut out: Vec<CompletedTorrent> = Vec::new();
    let mut i: usize = 0;
    assert(torrent_views(out@) =~= items_view(torrents@).take(0).filter_map(pick));
    while i < torrents.len()
        invariant
            i <= torrents@.len(),
            pick == (|t: JsonView| completed_of(t, label@)),
            torrent_views(out@) == items_view(torrents@).take(i as int).filter_map(pick),
        decreases torrents@.len() - i,
    {
        assert(items_view(torrents@).take(i + 1).drop_last() =~= items_view(torrents@).take(
            i as int,
        ));
        match read_completed(&torrents[i], label) {
            Some(torrent) => {
                let ghost before = out@;
                out.push(torrent);
                assert(torrent_views(out@) =~= torrent_views(before) + seq![torrent@]);
            },
            None => {},
        }
        i += 1;
    }
    assert(items_view(torrents@).take(torrents@.len() as int) =~= items_view(torrents@));
    out
}

// ---------------------------------------------------------------------------
// Laws
// ---------------------------------------------------------------------------

/// A torrent that is reported with the labels it was added with bears the
/// configured label.
pub proof fn added_torrents_bear_the_label(torrent: JsonView, label: Seq<char>, mam_id: Seq<char>)
    requires
        items_in(torrent.get("labels"@)) == text_values(labels_for(label, mam_id)),
    ensures
        bears_label(torrent, label),
{
    if label.len() > 0 {
        assert(labels_for(label, mam_id)[0] == label);
        assert(text_values(labels_for(label, mam_id))[0] == JsonView::Text(label));
    }
}

/// A torrent is added from its source, and with the configured label and the
/// one that names the book.
pub proof fn torrents_are_added_with_their_labels(
    label: Seq<char>,
    mam_id: Seq<char>,
    source_key: Seq<char>,
    source_value: Seq<char>,
)
    requires
        source_key == "filename"@ || source_key == "metainfo"@,
    ensures
        ({
            let args = add_arguments(label, mam_id, source_key, source_value);
            let labels = items_in(found(args, "labels"@));
            &&& found(args, source_key) == Some(JsonView::Text(source_value))
            &&& label.len() > 0 ==> labels.contains(JsonView::Text(label))
            &&& mam_id.len() > 0 ==> labels.contains(JsonView::Text("mamid="@ + mam_id))
        }),
{
    reveal_strlit("filename");
    reveal_strlit("metainfo");
    reveal_strlit("labels");
    assert("filename"@.len() == 8 && "metainfo"@.len() == 8 && "labels"@.len() == 6);
    let names = labels_for(label, mam_id);
    let labels = text_values(names);
    if names.len() > 0 {
        if label.len() > 0 {
            assert(names[0] == label);
            assert(labels[0] == JsonView::Text(label));
        }
        if mam_id.len() > 0 {
            assert(names.last() == "mamid="@ + mam_id);
            assert(labels[names.len() - 1] == JsonView::Text("mamid="@ + mam_id));
        }
    }
}

/// A request is sent again at most once: what is sent with a session is not
/// sent again, whatever comes back.
pub proof fn call_is_resent_at_most_once(reply: RpcReply)
    ensures
        !(next_step(RpcState::Resent, reply) is Resend),
{
}

/// The directory that a torrent with directories is said to lie in is one of
/// them.
pub proof fn root_is_a_top_directory(torrent: JsonView)
    requires
        top_directories(items_in(torrent.get("files"@))).len() > 0,
    ensures
        top_directories(items_in(torrent.get("files"@))).contains(root_of(torrent)),
{
    let tops = top_directories(items_in(torrent.get("files"@)));
    assert(tops[0] == root_of(torrent));
}

/// What is listed bears the label that was asked for: it is one of the texts
/// under "labels". A torrent without labels is listed only where no label was
/// asked for.
pub proof fn listed_torrents_bear_the_label(torrent: JsonView, label: Seq<char>)
    requires
        label.len() > 0,
        completed_of(torrent, label) is Some,
    ensures
        torrent.get("labels"@) matches Some(JsonView::Array(labels)) && (exists|i: int|
            0 <= i < labels.len() && #[trigger] labels[i] == JsonView::Text(label)),
{
    let labels = items_in(torrent.get("labels"@));
    let i = choose|i: int| 0 <= i < labels.len() && labels[i] == JsonView::Text(label);
    assert(labels[i] == JsonView::Text(label));
}

/// A torrent is listed exactly if it has a hash, is downloaded to one or more,
/// as the bits of that number tell, and bears the label, if one was asked for.
pub proof fn finished_torrents_are_listed(
    torrent: JsonView,
    label: Seq<char>,
    hash: Seq<char>,
    done: NumberView,
    bits: u64,
    labels: Seq<JsonView>,
    i: int,
)
    requires
        torrent.get("hashString"@) == Some(JsonView::Text(hash)),
        torrent.get("percentDone"@) == Some(JsonView::Number(done)),
        done.bits == Some(bits),
        label.len() == 0 || (torrent.get("labels"@) == Some(JsonView::Array(labels)) && 0 <= i
            < labels.len() && labels[i] == JsonView::Text(label)),
    ensures
        0x3FF0_0000_0000_0000 <= bits < 0x8000_0000_0000_0000 ==> completed_of(torrent, label)
            is Some,
        bits > 0xFFF0_0000_0000_0000 ==> completed_of(torrent, label) is Some,
        bits < 0x3FF0_0000_0000_0000 ==> completed_of(torrent, label) is None,
        0x8000_0000_0000_0000 <= bits <= 0xFFF0_0000_0000_0000 ==> completed_of(torrent, label)
            is None,
{
    if label.len() > 0 {
        assert(labels.contains(JsonView::Text(label)));
    }
}

/// What has no hash, or tells of no progress in a number, is not listed.
pub proof fn unfinished_torrents_are_not_listed(torrent: JsonView, label: Seq<char>)
    requires
        completed_of(torrent, label) is Some,
    ensures
        torrent.get("hashString"@) matches Some(JsonView::Text(_)),
        torrent.get("percentDone"@) matches Some(JsonView::Number(done)) && done.bits is Some,
{
}

/// Each detail of a listed torrent is what stands under its own key: a text
/// under "hashString", "name" and "downloadDir", and any value under
/// "totalSize" and "addedDate". So two torrents that differ elsewhere alone
/// are listed with the same details.
pub proof fn listed_details_stand_under_their_keys(torrent: JsonView, label: Seq<char>)
    requires
        completed_of(torrent, label) is Some,
    ensures
        ({
            let listed = completed_of(torrent, label)->0;
            &&& torrent.get("hashString"@) == Some(JsonView::Text(listed.hash))
            &&& listed.name matches Some(name) ==> torrent.get("name"@) == Some(
                JsonView::Text(name),
            )
            &&& listed.name is None ==> !(torrent.get("name"@) matches Some(JsonView::Text(_)))
            &&& listed.download_dir matches Some(dir) ==> torrent.get("downloadDir"@) == Some(
                JsonView::Text(dir),
            )
            &&& listed.download_dir is None ==> !(torrent.get("downloadDir"@) matches Some(
                JsonView::Text(_),
            ))
            &&& listed.size == torrent.get("totalSize"@)
            &&& listed.added_on == torrent.get("addedDate"@)
        }),
{
}

/// A torrent lies in the directory at the top of the path of its first file
/// that lies in one. The slashes that a path begins with do not count.
pub proof fn torrents_lie_in_their_first_directory(
    torrent: JsonView,
    label: Seq<char>,
    files: Seq<JsonView>,
    at: int,
    slashes: Seq<char>,
    top: Seq<char>,
    rest: Seq<char>,
)
    requires
        completed_of(torrent, label) is Some,
        torrent.get("files"@) == Some(JsonView::Array(files)),
        0 <= at < files.len(),
        forall|i: int|
            0 <= i < at ==> ((#[trigger] files[i]).get("name"@) matches Some(JsonView::Text(name))
                && !name.contains('/')),
        forall|i: int| 0 <= i < slashes.len() ==> #[trigger] slashes[i] == '/',
        top.len() > 0,
        !top.contains('/'),
        files[at].get("name"@) == Some(JsonView::Text(slashes + (top.push('/') + rest))),
    ensures
        (completed_of(torrent, label)->0).root == top,
        !(completed_of(torrent, label)->0).single_file,
{
    let pick = |f: JsonView| top_directory(f);
    let path = top.push('/') + rest;
    assert(top.contains(top[0]));
    assert(path[0] == top[0]);
    trimming_takes_what_stands_around(slashes, path, Seq::empty(), CharClass::Just('/'));
    cuts_are_at_the_first(top, '/', rest);
    assert(pick(files[at]) == Some(top));
    assert forall|i: int| 0 <= i < at implies pick(#[trigger] files[i]) is None by {
        let name = file_name_in(files[i])->0;
        assert(name.len() > 0 ==> name.contains(name[0]));
        assert(trimmed_start(name, CharClass::Just('/')) == name);
        cuts_are_at_the_first(name, '/', Seq::empty());
    }
    lemma_first_picked(files, pick, at);
    assert((slashes + path)[slashes.len() as int + top.len()] == '/');
}

/// A torrent none of whose files lies in a directory has the place that its
/// own name gives. It is a single file exactly if it has one file, and the
/// path of that file has no slash.
pub proof fn torrents_without_directories_lie_under_their_name(
    torrent: JsonView,
    label: Seq<char>,
    files: Seq<JsonView>,
)
    requires
        completed_of(torrent, label) is Some,
        torrent.get("files"@) == Some(JsonView::Array(files)),
        forall|i: int|
            0 <= i < files.len() ==> ((#[trigger] files[i]).get("name"@) matches Some(
                JsonView::Text(name),
            ) && !name.contains('/')),
    ensures
        ({
            let listed = completed_of(torrent, label)->0;
            &&& torrent.get("name"@) matches Some(JsonView::Text(name)) ==> listed.root == name
            &&& torrent.get("name"@) is None ==> listed.root.len() == 0
            &&& listed.single_file <==> files.len() == 1
        }),
{
    let pick = |f: JsonView| top_directory(f);
    assert forall|i: int| 0 <= i < files.len() implies pick(#[trigger] files[i]) is None by {
        let name = file_name_in(files[i])->0;
        assert(name.len() > 0 ==> name.contains(name[0]));
        assert(trimmed_start(name, CharClass::Just('/')) == name);
        cuts_are_at_the_first(name, '/', Seq::empty());
    }
    lemma_first_picked(files, pick, files.len() as int);
}

/// The list holds what each torrent of the answer gives, and nothing else: a
/// torrent is listed whatever the others are.
pub proof fn every_finished_torrent_is_listed(
    args: JsonView,
    label: Seq<char>,
    torrents: Seq<JsonView>,
    listed: CompletedTorrentView,
)
    requires
        args.get("torrents"@) == Some(JsonView::Array(torrents)),
    ensures
        completed_in(args, label).contains(listed) <==> exists|i: int|
            0 <= i < torrents.len() && completed_of(#[trigger] torrents[i], label) == Some(listed),
        completed_in(args, label).len() <= torrents.len(),
{
    let pick = |t: JsonView| completed_of(t, label);
    lemma_picked_at_most(torrents, pick);
    if completed_in(args, label).contains(listed) {
        torrents.lemma_filter_map_contains(pick, listed);
        let t = choose|t: JsonView| #[trigger] torrents.contains(t) && pick(t) == Some(listed);
        let i = choose|i: int| 0 <= i < torrents.len() && torrents[i] == t;
        assert(completed_of(torrents[i], label) == Some(listed));
    }
    if exists|i: int|
        0 <= i < torrents.len() && completed_of(#[trigger] torrents[i], label) == Some(listed) {
        let i = choose|i: int|
            0 <= i < torrents.len() && completed_of(#[trigger] torrents[i], label) == Some(listed);
        lemma_picked(torrents, pick, torrents[i]);
    }
}

/// The user name and the password are sent as they are set, unless neither is.
pub proof fn set_credentials_are_sent(settings: SettingsView)
    ensures
        auth_for(settings) is None <==> settings.transmission_user.len() == 0
            && settings.transmission_pass.len() == 0,
        auth_for(settings) matches Some(pair) ==> pair.0 == settings.transmission_user && pair.1
            == settings.transmission_pass,
{
}

/// A torrent gets the configured label first and then one that names the book,
/// each where there is one, and no other. Without either no labels are sent.
pub proof fn torrents_get_their_own_labels_alone(
    label: Seq<char>,
    mam_id: Seq<char>,
    source_key: Seq<char>,
    source_value: Seq<char>,
    key: Seq<char>,
)
    requires
        source_key != "labels"@,
    ensures
        ({
            let args = add_arguments(label, mam_id, source_key, source_value);
            let named = "mamid="@ + mam_id;
            &&& args.dom().contains(key) ==> key == source_key || key == "labels"@
            &&& found(args, source_key) == Some(JsonView::Text(source_value))
            &&& label.len() == 0 && mam_id.len() == 0 ==> found(args, "labels"@) is None
            &&& label.len() > 0 && mam_id.len() == 0 ==> found(args, "labels"@) == Some(
                JsonView::Array(seq![JsonView::Text(label)]),
            )
            &&& label.len() == 0 && mam_id.len() > 0 ==> found(args, "labels"@) == Some(
                JsonView::Array(seq![JsonView::Text(named)]),
            )
            &&& label.len() > 0 && mam_id.len() > 0 ==> found(args, "labels"@) == Some(
                JsonView::Array(seq![JsonView::Text(label), JsonView::Text(named)]),
            )
        }),
{
    let named = "mamid="@ + mam_id;
    assert(text_values(seq![label]) =~= seq![JsonView::Text(label)]);
    assert(text_values(Seq::empty().push(named)) =~= seq![JsonView::Text(named)]);
    assert(text_values(seq![label].push(named)) =~= seq![
        JsonView::Text(label),
        JsonView::Text(named),
    ]);
}

/// A torrent that was added is recorded by its own hash; the one that was
/// there already is looked at only where none was added.
pub proof fn hashes_are_those_of_the_added_torrent(args: JsonView)
    ensures
        args.get("torrent-added"@) matches Some(torrent) ==> (match torrent.get("hashString"@) {
            Some(JsonView::Text(hash)) => added_hash(args) == Some(hash),
            _ => added_hash(args) is None,
        }),
        args.get("torrent-added"@) is None ==> (match args.get("torrent-duplicate"@) {
            Some(torrent) => match torrent.get("hashString"@) {
                Some(JsonView::Text(hash)) => added_hash(args) == Some(hash),
                _ => added_hash(args) is None,
            },
            None => added_hash(args) is None,
        }),
{
}

/// Only the first request is sent again, only for a conflict that comes with a
/// session, and with that very session. Of every other answer the body is
/// read: as JSON exactly if the status is 200.
pub proof fn answers_are_read_by_their_status(
    state: RpcState,
    status: u16,
    session_id: Option<Vec<u8>>,
)
    ensures
        ({
            let step = next_step(state, RpcReply::Answered { status, session_id });
            &&& step matches RpcStepView::Resend(id) ==> state == RpcState::Sent && status == 409 && (
            session_id matches Some(given) && given@ == id)
            &&& state == RpcState::Sent && status == 409 && session_id is Some ==> step is Resend
            &&& step is ReadJson <==> status == 200
            &&& !(step is Fail)
        }),
{
}

/// A call that got no answer fails for the reason it got none, as a failure of
/// another server, and its message names Transmission.
pub proof fn unanswered_calls_fail_for_their_reason(state: RpcState, reason: String)
    ensures
        next_step(state, RpcReply::Unreachable(reason)) matches RpcStepView::Fail(e)
            && e.status == Status::BadGateway && e.detail == "Transmission RPC failed: "@
            + reason@,
{
}

/// A refusal is a failure of another server. Its message gives the status and
/// then as much of the body as fits in 160 characters.
pub proof fn refusals_quote_the_answer(status: u16, body: Seq<char>)
    ensures
        ({
            let e = refusal(status, body);
            let front = "Transmission RPC failed: "@ + status_line(status) + " "@;
            &&& e.status == Status::BadGateway
            &&& body.len() <= 160 ==> e.detail == front + body
            &&& body.len() > 160 ==> e.detail == front + body.take(160)
        }),
{
}

/// A call succeeds exactly if the text under "result" is "success", and then
/// gives what stands under "arguments", or an empty object. Otherwise it is a
/// failure of another server whose message names the call and the result.
pub proof fn calls_succeed_by_their_result(
    method: Seq<char>,
    data: JsonView,
    result_text: Option<Seq<char>>,
)
    ensures
        ({
            let outcome = call_outcome(method, data, result_text);
            &&& outcome is Ok <==> data.get("result"@) == Some(JsonView::Text("success"@))
            &&& outcome matches Ok(args) ==> (match data.get("arguments"@) {
                Some(value) => args == value,
                None => args == JsonView::Object(Seq::empty()),
            })
            &&& outcome matches Err(e) ==> e.status == Status::BadGateway
            &&& outcome matches Err(e) ==> (result_text matches Some(text) ==> e.detail
                == "Transmission "@ + method + " failed: "@ + text)
            &&& outcome matches Err(e) ==> (result_text is None ==> e.detail == "Transmission "@
                + method + " failed: unknown"@)
            &&& call_result(method, data) is Ok <==> data.get("result"@) == Some(
                JsonView::Text("success"@),
            )
        }),
{
    reveal_strlit(" failed: ");
    reveal_strlit("unknown");
    reveal_strlit(" failed: unknown");
    assert("Transmission "@ + method + " failed: "@ + "unknown"@ =~= "Transmission "@ + method
        + " failed: unknown"@);
}

/// An answer that is no JSON is a failure of another server whose message ends
/// in the reason.
pub proof fn unreadable_answers_fail_for_their_reason(reason: Seq<char>)
    ensures
        unreadable(reason).status == Status::BadGateway,
        unreadable(reason).detail == "Transmission returned non-JSON: "@ + reason,
{
}

/// Everything that is read of a torrent is asked for, and nothing else of the
/// call says which torrents are meant: all of them are.
pub proof fn what_is_read_is_asked_for(field: Seq<char>)
    ensures
        ({
            let args = listing_for(listing_fields());
            &&& found(args, "fields"@) matches Some(JsonView::Array(fields)) && (field == "id"@
                || field == "hashString"@ || field == "name"@ || field == "percentDone"@ || field
                == "downloadDir"@ || field == "totalSize"@ || field == "addedDate"@ || field
                == "labels"@ || field == "files"@ <==> fields.contains(JsonView::Text(field)))
            &&& field != "fields"@ ==> found(args, field) is None
        }),
{
    let named = listing_fields();
    let fields = text_values(named);
    assert(named.len() == 9);
    assert forall|i: int| 0 <= i < 9 implies #[trigger] fields[i] == JsonView::Text(named[i]) by {}
    assert(fields[0] == JsonView::Text("id"@) && fields[1] == JsonView::Text("hashString"@)
        && fields[2] == JsonView::Text("name"@) && fields[3] == JsonView::Text("percentDone"@)
        && fields[4] == JsonView::Text("downloadDir"@) && fields[5] == JsonView::Text(
        "totalSize"@,
    ) && fields[6] == JsonView::Text("addedDate"@) && fields[7] == JsonView::Text("labels"@)
        && fields[8] == JsonView::Text("files"@));
    if fields.contains(JsonView::Text(field)) {
        let i = choose|i: int| 0 <= i < fields.len() && fields[i] == JsonView::Text(field);
        assert(i == 0 || i == 1 || i == 2 || i == 3 || i == 4 || i == 5 || i == 6 || i == 7 || i
            == 8);
    }
}

/// A call sends its method and its arguments, each under its own key, and
/// nothing else.
pub proof fn calls_send_their_method_and_arguments(
    payload: Map<Seq<char>, JsonView>,
    method: Seq<char>,
    arguments: Map<Seq<char>, JsonView>,
    key: Seq<char>,
)
    requires
        is_call_payload(payload, method, arguments),
    ensures
        found(payload, "method"@) == Some(JsonView::Text(method)),
        found(payload, "arguments"@) matches Some(args) && args.get(key) == found(arguments, key),
        key != "method"@ && key != "arguments"@ ==> found(payload, key) is None,
{
    if let JsonView::Object(entries) = payload["arguments"@] {
        assert(entries_map(entries) == arguments);
        assert(found(entries_map(entries), key) == lookup(entries, key));
    }
}

/// A listed torrent is a single file exactly if it has one file, and the path
/// of that file is a text without a slash. Files that have no name count for
/// nothing else, and a torrent whose name is no text has an empty place.
pub proof fn single_files_have_no_slash(torrent: JsonView, label: Seq<char>)
    requires
        completed_of(torrent, label) is Some,
    ensures
        ({
            let listed = completed_of(torrent, label)->0;
            &&& torrent.get("files"@) matches Some(JsonView::Array(files)) ==> (listed.single_file
                <==> files.len() == 1 && (files[0].get("name"@) matches Some(JsonView::Text(name))
                && !name.contains('/')))
            &&& !(torrent.get("files"@) matches Some(JsonView::Array(_))) ==> !listed.single_file
            &&& !(torrent.get("files"@) matches Some(JsonView::Array(_))) ==> (match torrent.get(
                "name"@,
            ) {
                Some(JsonView::Text(name)) => listed.root == name,
                _ => listed.root.len() == 0,
            })
        }),
{
    let pick = |f: JsonView| top_directory(f);
    lemma_first_picked(Seq::<JsonView>::empty(), pick, 0);
}

/// A file without a name, or without a directory, is passed over in the search
/// for the first directory of a torrent.
pub proof fn files_without_directories_are_passed_over(
    torrent: JsonView,
    other: JsonView,
    label: Seq<char>,
    file: JsonView,
    files: Seq<JsonView>,
)
    requires
        completed_of(torrent, label) is Some,
        completed_of(other, label) is Some,
        torrent.get("name"@) == other.get("name"@),
        torrent.get("files"@) == Some(JsonView::Array(seq![file] + files)),
        other.get("files"@) == Some(JsonView::Array(files)),
        file.get("name"@) matches Some(JsonView::Text(name)) ==> !name.contains('/'),
    ensures
        (completed_of(torrent, label)->0).root == (completed_of(other, label)->0).root,
{
    let pick = |f: JsonView| top_directory(f);
    if let Some(JsonView::Text(name)) = file.get("name"@) {
        assert(name.len() > 0 ==> name.contains(name[0]));
        assert(trimmed_start(name, CharClass::Just('/')) == name);
        cuts_are_at_the_first(name, '/', Seq::empty());
    }
    assert(pick(file) is None);
    lemma_passed_over(file, files, pick);
}

/// Nothing is picked for a first value that is passed over.
proof fn lemma_passed_over(
    file: JsonView,
    files: Seq<JsonView>,
    pick: spec_fn(JsonView) -> Option<Seq<char>>,
)
    requires
        pick(file) is None,
    ensures
        (seq![file] + files).filter_map(pick) == files.filter_map(pick),
    decreases files.len(),
{
    let all = seq![file] + files;
    if files.len() == 0 {
        lemma_first_picked(all, pick, 1);
        lemma_first_picked(files, pick, 0);
        assert(all.filter_map(pick) =~= files.filter_map(pick));
    } else {
        assert(all.drop_last() =~= seq![file] + files.drop_last());
        lemma_passed_over(file, files.drop_last(), pick);
    }
}

}
