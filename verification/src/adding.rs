//! How a book that was found gets to Transmission and into the history.
use crate::error::{bad_gateway, bad_request, result_view, AppError, ErrorView, Status};
use crate::history::{AddedBook, AddedBookView};
use crate::json::{found, opt_view, Json, JsonView, NumberView};
use crate::outside::{base64_text, encode_base64, map_of};
use crate::settings::{Settings, SettingsView};
use crate::text::{
    blank, is_whitespace, trim, trimmed, trimming_takes_what_stands_around, views, CharClass,
};
use crate::transmission::{
    add_arguments, added_hash, torrent_add_arguments, torrent_hash_from_add_result,
    torrents_get_their_own_labels_alone,
};
use crate::values::{extract_string_id, id_text, identifiers_are_numbers_or_texts};
use crate::words::{is_media_type, media_type_of, normalize_media_type};
use vstd::prelude::*;
use vstd::string::*;

verus! {

broadcast use vstd::string::group_string_axioms;

// ---------------------------------------------------------------------------
// What is asked for
// ---------------------------------------------------------------------------

/// The book that is to be added, as the user sends it.
#[derive(Debug)]
pub struct AddBody {
    pub id: Option<Json>,
    pub title: Option<String>,
    pub dl: Option<String>,
    pub author: Option<String>,
    pub narrator: Option<String>,
    pub media_type: Option<String>,
}

/// The model of the book that is to be added.
pub struct AddBodyView {
    pub id: Option<JsonView>,
    pub title: Option<Seq<char>>,
    pub dl: Option<Seq<char>>,
    pub author: Option<Seq<char>>,
    pub narrator: Option<Seq<char>>,
    pub media_type: Option<Seq<char>>,
}

impl View for AddBody {
    type V = AddBodyView;

    open spec fn view(&self) -> AddBodyView {
        AddBodyView {
            id: opt_view(self.id),
            title: opt_view(self.title),
            dl: opt_view(self.dl),
            author: opt_view(self.author),
            narrator: opt_view(self.narrator),
            media_type: opt_view(self.media_type),
        }
    }
}

/// A field without the white space around it; empty where it is not given.
pub open spec fn field(value: Option<Seq<char>>) -> Seq<char> {
    match value {
        Some(s) => trimmed(s),
        None => Seq::empty(),
    }
}

/// The book that is asked for, or why it cannot be added: its media type is
/// unknown, or nothing tells which torrent it is.
pub open spec fn book_asked_for(body: AddBodyView) -> Result<AddedBookView, ErrorView> {
    match media_type_of(body.media_type) {
        Ok(media_type) => {
            let mam_id = id_text(body.id);
            let dl = field(body.dl);
            if mam_id.len() == 0 && dl.len() == 0 {
                Err(bad_request("Missing MAM id and dl; need at least one"@))
            } else {
                Ok(
                    AddedBookView {
                        mam_id,
                        title: field(body.title),
                        author: field(body.author),
                        narrator: field(body.narrator),
                        media_type,
                        dl,
                    },
                )
            }
        },
        Err(e) => Err(e),
    }
}

/// The link that Transmission can fetch the torrent from by itself.
pub open spec fn direct_link(mam_base: Seq<char>, dl: Seq<char>) -> Seq<char> {
    mam_base + "/tor/download.php/"@ + dl
}

/// The links that the torrent can be fetched from with the cookie.
pub open spec fn id_links(mam_base: Seq<char>, mam_id: Seq<char>) -> Seq<Seq<char>> {
    if mam_id.len() == 0 {
        Seq::empty()
    } else {
        seq![
            mam_base + "/tor/download.php?id="@ + mam_id,
            mam_base + "/tor/download.php?tid="@ + mam_id,
        ]
    }
}

// ---------------------------------------------------------------------------
// The steps
// ---------------------------------------------------------------------------

/// A call that adds the torrent. Where it is refused, the torrent is fetched
/// from one of the links.
#[derive(Debug)]
pub struct AddCall {
    pub book: AddedBook,
    /// The arguments of the call.
    pub arguments: serde_json::Map<String, serde_json::Value>,
    pub links: Vec<String>,
}

/// A link that the torrent is fetched from, and the links that are left.
#[derive(Debug)]
pub struct AddFetch {
    pub book: AddedBook,
    pub link: String,
    pub links: Vec<String>,
}

/// What to do next to add a book.
#[derive(Debug)]
pub enum AddStep {
    /// Call Transmission.
    Call(AddCall),
    /// Fetch the torrent.
    Fetch(AddFetch),
    /// Record the book with the hash of its torrent; the book is added.
    Record(AddedBook, Option<String>),
    /// Give up.
    Fail(AppError),
}

/// The model of what to do next.
pub enum AddStepView {
    Call { book: AddedBookView, arguments: Map<Seq<char>, JsonView>, links: Seq<Seq<char>> },
    Fetch { book: AddedBookView, link: Seq<char>, links: Seq<Seq<char>> },
    Record { book: AddedBookView, torrent_hash: Option<Seq<char>> },
    Fail(ErrorView),
}

impl View for AddStep {
    type V = AddStepView;

    open spec fn view(&self) -> AddStepView {
        match self {
            AddStep::Call(call) => AddStepView::Call {
                book: call.book@,
                arguments: map_of(call.arguments),
                links: views(call.links@),
            },
            AddStep::Fetch(fetch) => AddStepView::Fetch {
                book: fetch.book@,
                link: fetch.link@,
                links: views(fetch.links@),
            },
            AddStep::Record(book, torrent_hash) => AddStepView::Record {
                book: book@,
                torrent_hash: opt_view(*torrent_hash),
            },
            AddStep::Fail(e) => AddStepView::Fail(e@),
        }
    }
}

/// What came back for a link.
#[derive(Debug)]
pub enum FetchReply {
    /// The request did not get through, for this reason.
    Unreachable(String),
    /// A status other than success.
    Refused,
    /// Success, with a body that could not be read, for this reason.
    Unreadable(String),
    /// Success, with these bytes.
    Torrent(Vec<u8>),
}

/// The fetching of the torrent from the first of some links.
pub open spec fn fetching(book: AddedBookView, links: Seq<Seq<char>>) -> AddStepView {
    if links.len() == 0 {
        AddStepView::Fail(
            bad_gateway(
                "Could not fetch .torrent from MAM (no dl hash and cookie fetch failed)."@,
            ),
        )
    } else {
        AddStepView::Fetch { book, link: links[0], links: links.skip(1) }
    }
}

/// The first step for a book: the direct link goes to Transmission where there
/// is one.
pub open spec fn first_step(settings: SettingsView, body: AddBodyView) -> AddStepView {
    match book_asked_for(body) {
        Ok(book) => {
            let links = id_links(settings.mam_base, book.mam_id);
            if book.dl.len() > 0 {
                AddStepView::Call {
                    book,
                    arguments: add_arguments(
                        settings.transmission_label,
                        book.mam_id,
                        "filename"@,
                        direct_link(settings.mam_base, book.dl),
                    ),
                    links,
                }
            } else {
                fetching(book, links)
            }
        },
        Err(e) => AddStepView::Fail(e),
    }
}

/// The step after a call: the book is recorded where it was added; otherwise
/// the torrent is fetched, where there is a link for it.
pub open spec fn step_after_call(
    book: AddedBookView,
    links: Seq<Seq<char>>,
    outcome: Result<JsonView, ErrorView>,
) -> AddStepView {
    match outcome {
        Ok(args) => AddStepView::Record { book, torrent_hash: added_hash(args) },
        Err(e) => if links.len() == 0 {
            AddStepView::Fail(e)
        } else {
            fetching(book, links)
        },
    }
}

/// The step after a link: a torrent goes to Transmission, and without one the
/// next link is tried.
pub open spec fn step_after_fetch(
    settings: SettingsView,
    book: AddedBookView,
    links: Seq<Seq<char>>,
    reply: FetchReply,
) -> AddStepView {
    match reply {
        FetchReply::Unreachable(reason) => AddStepView::Fail(
            bad_gateway("MAM request failed: "@ + reason@),
        ),
        FetchReply::Unreadable(reason) => AddStepView::Fail(
            bad_gateway("MAM torrent body failed: "@ + reason@),
        ),
        FetchReply::Refused => fetching(book, links),
        FetchReply::Torrent(bytes) => if bytes@.len() == 0 {
            fetching(book, links)
        } else {
            AddStepView::Call {
                book,
                arguments: add_arguments(
                    settings.transmission_label,
                    book.mam_id,
                    "metainfo"@,
                    base64_text(bytes@),
                ),
                links: Seq::empty(),
            }
        },
    }
}

/// A field without the white space around it.
fn read_field(value: &Option<String>) -> (r: String)
    ensures
        r@ == field(opt_view(*value)),
{
    match value {
        Some(s) => trim(s),
        None => String::new(),
    }
}

/// The book that is asked for.
pub fn read_book(body: &AddBody) -> (r: Result<AddedBook, AppError>)
    ensures
        match r {
            Ok(book) => book_asked_for(body@) == Ok::<_, ErrorView>(book@) && is_media_type(
                book@.media_type,
            ),
            Err(e) => book_asked_for(body@) == Err::<AddedBookView, _>(e@),
        },
        r matches Ok(book) ==> (body@.media_type matches Some(named) ==> is_media_type(named)
            ==> book@.media_type == named),
        r matches Ok(book) ==> (body@.media_type is None ==> book@.media_type == "audiobook"@),
{
    let mam_id = match &body.id {
        Some(id) => extract_string_id(Some(id)),
        None => extract_string_id(None),
    };
    let named = match &body.media_type {
        Some(s) => normalize_media_type(Some(s.as_str())),
        None => normalize_media_type(None),
    };
    let media_type = match named {
        Ok(media_type) => media_type,
        Err(e) => {
            return Err(e);
        },
    };
    let dl = read_field(&body.dl);
    if mam_id.as_str().is_empty() && dl.as_str().is_empty() {
        return Err(AppError::bad_request("Missing MAM id and dl; need at least one"));
    }
    Ok(
        AddedBook {
            mam_id,
            title: read_field(&body.title),
            author: read_field(&body.author),
            narrator: read_field(&body.narrator),
            media_type,
            dl,
        },
    )
}

/// The links that the torrent can be fetched from with the cookie.
fn links_for(settings: &Settings, mam_id: &str) -> (r: Vec<String>)
    ensures
        views(r@) == id_links(settings@.mam_base, mam_id@),
{
    let mut links: Vec<String> = Vec::new();
    if !mam_id.is_empty() {
        links.push(settings.mam_base.clone().concat("/tor/download.php?id=").concat(mam_id));
        links.push(settings.mam_base.clone().concat("/tor/download.php?tid=").concat(mam_id));
    }
    assert(views(links@) =~= id_links(settings@.mam_base, mam_id@));
    links
}

/// The fetching of the torrent from the first of the links.
fn fetch_first(book: AddedBook, links: Vec<String>) -> (r: AddStep)
    ensures
        r@ == fetching(book@, views(links@)),
{
    let mut links = links;
    assert(views(links@).len() == links@.len());
    if links.len() == 0 {
        AddStep::Fail(
            AppError::bad_gateway(
                "Could not fetch .torrent from MAM (no dl hash and cookie fetch failed).",
            ),
        )
    } else {
        let ghost all = views(links@);
        let link = links.remove(0);
        assert(views(links@) =~= all.skip(1));
        AddStep::Fetch(AddFetch { book, link, links })
    }
}

/// The first step for the book.
pub fn add_to_transmission(settings: &Settings, body: &AddBody) -> (r: AddStep)
    ensures
        r@ == first_step(settings@, body@),
{
    match read_book(body) {
        Ok(book) => {
            let links = links_for(settings, &book.mam_id);
            if !book.dl.as_str().is_empty() {
                let link = settings.mam_base.clone().concat("/tor/download.php/").concat(&book.dl);
                let arguments = torrent_add_arguments(settings, &book.mam_id, "filename", &link);
                AddStep::Call(AddCall { book, arguments, links })
            } else {
                fetch_first(book, links)
            }
        },
        Err(e) => AddStep::Fail(e),
    }
}

impl AddCall {
    /// The step after the call.
    pub fn answered(self, outcome: Result<Json, AppError>) -> (r: AddStep)
        ensures
            r@ == step_after_call(
                self.book@,
                views(self.links@),
                result_view(outcome),
            ),
    {
        assert(views(self.links@).len() == self.links@.len());
        match outcome {
            Ok(args) => AddStep::Record(self.book, torrent_hash_from_add_result(&args)),
            Err(e) => if self.links.len() == 0 {
                AddStep::Fail(e)
            } else {
                fetch_first(self.book, self.links)
            },
        }
    }
}

impl AddFetch {
    /// The step after the link.
    pub fn answered(self, settings: &Settings, reply: FetchReply) -> (r: AddStep)
        ensures
            r@ == step_after_fetch(settings@, self.book@, views(self.links@), reply),
    {
        match reply {
            FetchReply::Unreachable(reason) => AddStep::Fail(
                AppError::bad_gateway(&"MAM request failed: ".to_owned().concat(&reason)),
            ),
            FetchReply::Unreadable(reason) => AddStep::Fail(
                AppError::bad_gateway(&"MAM torrent body failed: ".to_owned().concat(&reason)),
            ),
            FetchReply::Refused => fetch_first(self.book, self.links),
            FetchReply::Torrent(bytes) => {
                if bytes.len() == 0 {
                    fetch_first(self.book, self.links)
                } else {
                    let metainfo = encode_base64(&bytes);
                    let arguments = torrent_add_arguments(
                        settings,
                        &self.book.mam_id,
                        "metainfo",
                        &metainfo,
                    );
                    let none: Vec<String> = Vec::new();
                    assert(views(none@) =~= Seq::empty());
                    AddStep::Call(AddCall { book: self.book, arguments, links: none })
                }
            },
        }
    }
}

// ---------------------------------------------------------------------------
// Laws
// ---------------------------------------------------------------------------

/// How many more requests a step can lead to, over all that may come back.
pub open spec fn requests_left(step: AddStepView) -> nat {
    match step {
        AddStepView::Call { links, .. } => if links.len() == 0 {
            1
        } else {
            2 + links.len()
        },
        AddStepView::Fetch { links, .. } => 2 + links.len(),
        AddStepView::Record { .. } | AddStepView::Fail(_) => 0,
    }
}

/// The book that a step is about, where it is about one.
pub open spec fn book_of(step: AddStepView) -> Option<AddedBookView> {
    match step {
        AddStepView::Call { book, .. } => Some(book),
        AddStepView::Fetch { book, .. } => Some(book),
        AddStepView::Record { book, .. } => Some(book),
        AddStepView::Fail(_) => None,
    }
}

/// Adding a book comes to an end after four requests at the most, whatever
/// comes back: each answer leaves fewer requests to make.
pub proof fn adding_comes_to_an_end(
    settings: SettingsView,
    body: AddBodyView,
    book: AddedBookView,
    arguments: Map<Seq<char>, JsonView>,
    link: Seq<char>,
    links: Seq<Seq<char>>,
    outcome: Result<JsonView, ErrorView>,
    reply: FetchReply,
)
    ensures
        requests_left(first_step(settings, body)) <= 4,
        requests_left(step_after_call(book, links, outcome)) < requests_left(
            AddStepView::Call { book, arguments, links },
        ),
        requests_left(step_after_fetch(settings, book, links, reply)) < requests_left(
            AddStepView::Fetch { book, link, links },
        ),
{
}

/// A book is recorded once Transmission has taken its torrent and never
/// before, and it is the book that was asked for. Its media type is one that
/// the history takes.
pub proof fn books_are_recorded_once_transmission_has_them(
    settings: SettingsView,
    body: AddBodyView,
    book: AddedBookView,
    links: Seq<Seq<char>>,
    outcome: Result<JsonView, ErrorView>,
    reply: FetchReply,
)
    ensures
        !(first_step(settings, body) is Record),
        !(step_after_fetch(settings, book, links, reply) is Record),
        step_after_call(book, links, outcome) is Record <==> outcome is Ok,
        book_of(first_step(settings, body)) matches Some(b) ==> book_asked_for(body) == Ok::<
            _,
            ErrorView,
        >(b),
        book_asked_for(body) matches Ok(b) ==> is_media_type(b.media_type),
        book_of(step_after_call(book, links, outcome)) matches Some(b) ==> b == book,
        book_of(step_after_fetch(settings, book, links, reply)) matches Some(b) ==> b == book,
{
}

/// The tracker is asked for the torrent of a book with a direct link only
/// after Transmission has refused the link, and only where the book has an id.
pub proof fn direct_links_come_first(
    settings: SettingsView,
    body: AddBodyView,
    outcome: Result<JsonView, ErrorView>,
)
    requires
        book_asked_for(body) matches Ok(book) && book.dl.len() > 0,
    ensures
        ({
            let book = book_asked_for(body)->Ok_0;
            &&& first_step(settings, body) matches AddStepView::Call { links, .. }
            &&& step_after_call(book, links, outcome) is Fetch <==> outcome is Err
                && book.mam_id.len() > 0
        }),
{
}

/// A book is asked for under the media type that the request names, and under
/// none that it does not name.
pub proof fn books_keep_the_media_type_asked_for(body: AddBodyView)
    ensures
        book_asked_for(body) matches Ok(book) ==> media_type_of(body.media_type) == Ok::<
            _,
            ErrorView,
        >(book.media_type),
        book_asked_for(body) matches Ok(book) ==> book.media_type == "audiobook"@
            || book.media_type == "ebook"@,
        media_type_of(body.media_type) matches Err(e) ==> book_asked_for(body) == Err::<
            AddedBookView,
            _,
        >(e),
{
}

/// Each field of the book is what was typed into the field of that name,
/// without the white space around it, and empty where nothing was typed. The
/// identifier is a number as it is written, or a text without the white space
/// around it.
pub proof fn books_are_asked_for_field_by_field(
    body: AddBodyView,
    n: NumberView,
    front: Seq<char>,
    text: Seq<char>,
    back: Seq<char>,
)
    requires
        blank(front),
        blank(back),
        text.len() > 0,
        !is_whitespace(text[0]),
        !is_whitespace(text.last()),
    ensures
        book_asked_for(body) matches Ok(book) ==> {
            let typed = Some(front + text + back);
            &&& body.title == typed ==> book.title == text
            &&& body.title is None || body.title == Some(front) ==> book.title.len() == 0
            &&& body.author == typed ==> book.author == text
            &&& body.author is None || body.author == Some(front) ==> book.author.len() == 0
            &&& body.narrator == typed ==> book.narrator == text
            &&& body.narrator is None || body.narrator == Some(front) ==> book.narrator.len() == 0
            &&& body.dl == typed ==> book.dl == text
            &&& body.dl is None || body.dl == Some(front) ==> book.dl.len() == 0
            &&& body.id == Some(JsonView::Text(front + text + back)) ==> book.mam_id == text
            &&& body.id == Some(JsonView::Number(n)) ==> book.mam_id == n.text
            &&& body.id is None ==> book.mam_id.len() == 0
        },
{
    trimming_takes_what_stands_around(front, text, back, CharClass::White);
    identifiers_are_numbers_or_texts(n, front, text, back);
}

/// A book is accepted if its media type is and it has an identifier or a
/// direct link; without either it is a bad request.
pub proof fn books_need_an_identifier_or_a_link(
    body: AddBodyView,
    front: Seq<char>,
    text: Seq<char>,
    back: Seq<char>,
)
    requires
        blank(front),
        blank(back),
        text.len() > 0,
        !is_whitespace(text[0]),
        !is_whitespace(text.last()),
        media_type_of(body.media_type) is Ok,
    ensures
        body.dl == Some(front + text + back) ==> book_asked_for(body) is Ok,
        body.id == Some(JsonView::Text(front + text + back)) ==> book_asked_for(body) is Ok,
        body.id is None && (body.dl is None || body.dl == Some(front)) ==> (book_asked_for(
            body,
        ) matches Err(e) && e.status == Status::BadRequest && e.detail
            == "Missing MAM id and dl; need at least one"@),
{
    trimming_takes_what_stands_around(front, text, back, CharClass::White);
}

/// A direct link is handed to Transmission as the only source of the torrent.
/// The two links that the identifier gives are kept for the case that it is
/// refused, and tried first where there is no direct link.
pub proof fn torrents_come_from_the_links_of_their_book(
    settings: SettingsView,
    body: AddBodyView,
    book: AddedBookView,
)
    requires
        book_asked_for(body) == Ok::<_, ErrorView>(book),
    ensures
        ({
            let base = settings.mam_base;
            let step = first_step(settings, body);
            let by_id = base + "/tor/download.php?id="@ + book.mam_id;
            let by_tid = base + "/tor/download.php?tid="@ + book.mam_id;
            &&& book.dl.len() > 0 ==> (step matches AddStepView::Call {
                book: named,
                arguments,
                links,
            } && {
                &&& named == book
                &&& found(arguments, "filename"@) == Some(
                    JsonView::Text(base + "/tor/download.php/"@ + book.dl),
                )
                &&& found(arguments, "metainfo"@) is None
                &&& book.mam_id.len() > 0 ==> links == seq![by_id, by_tid]
                &&& book.mam_id.len() == 0 ==> links.len() == 0
            })
            &&& book.dl.len() == 0 ==> (step matches AddStepView::Fetch {
                book: named,
                link,
                links,
            } && named == book && link == by_id && links == seq![by_tid])
        }),
{
    let by_id = settings.mam_base + "/tor/download.php?id="@ + book.mam_id;
    let by_tid = settings.mam_base + "/tor/download.php?tid="@ + book.mam_id;
    assert(seq![by_id, by_tid].skip(1) =~= seq![by_tid]);
    lemma_source_keys();
}

/// The keys of the arguments that add a torrent differ.
proof fn lemma_source_keys()
    ensures
        "filename"@ != "metainfo"@,
        "filename"@ != "labels"@,
        "metainfo"@ != "labels"@,
{
    reveal_strlit("filename");
    reveal_strlit("metainfo");
    reveal_strlit("labels");
    assert("filename"@[0] == 'f' && "metainfo"@[0] == 'm' && "labels"@[0] == 'l');
}

/// Once Transmission has taken a torrent the book is recorded with the hash
/// that the answer gives. A refusal leads to the next link where there is one,
/// and is handed on as it is where there is none.
pub proof fn refused_links_are_fetched_from_the_tracker(
    book: AddedBookView,
    link: Seq<char>,
    links: Seq<Seq<char>>,
    args: JsonView,
    hash: Seq<char>,
    torrent: JsonView,
    e: ErrorView,
)
    ensures
        ({
            let taken = step_after_call(book, links, Ok(args));
            let added = args.get("torrent-added"@) == Some(torrent) || (args.get("torrent-added"@)
                is None && args.get("torrent-duplicate"@) == Some(torrent));
            &&& added && torrent.get("hashString"@) == Some(JsonView::Text(hash)) ==> taken == (
            AddStepView::Record { book, torrent_hash: Some(hash) })
            &&& args.get("torrent-added"@) is None && args.get("torrent-duplicate"@) is None
                ==> taken == (AddStepView::Record { book, torrent_hash: None })
        }),
        step_after_call(book, Seq::empty(), Err(e)) == AddStepView::Fail(e),
        step_after_call(book, seq![link] + links, Err(e)) == (AddStepView::Fetch {
            book,
            link,
            links,
        }),
{
    assert((seq![link] + links).skip(1) =~= links);
}

/// A torrent that was fetched is handed to Transmission in base64 as its only
/// source, and no further link is tried. Without one the next link is tried,
/// and when none is left, or the tracker cannot be reached or read, adding the
/// book fails as a failure of another server.
pub proof fn fetched_torrents_go_to_transmission(
    settings: SettingsView,
    book: AddedBookView,
    link: Seq<char>,
    links: Seq<Seq<char>>,
    bytes: Vec<u8>,
    reason: String,
)
    ensures
        bytes@.len() > 0 ==> (step_after_fetch(
            settings,
            book,
            links,
            FetchReply::Torrent(bytes),
        ) matches AddStepView::Call { book: named, arguments, links: left } && {
            &&& named == book
            &&& found(arguments, "metainfo"@) == Some(JsonView::Text(base64_text(bytes@)))
            &&& found(arguments, "filename"@) is None
            &&& left.len() == 0
        }),
        bytes@.len() == 0 ==> step_after_fetch(
            settings,
            book,
            seq![link] + links,
            FetchReply::Torrent(bytes),
        ) == (AddStepView::Fetch { book, link, links }),
        step_after_fetch(settings, book, seq![link] + links, FetchReply::Refused) == (
        AddStepView::Fetch { book, link, links }),
        step_after_fetch(settings, book, Seq::empty(), FetchReply::Refused) matches
            AddStepView::Fail(e) && e.status == Status::BadGateway && e.detail
            == "Could not fetch .torrent from MAM (no dl hash and cookie fetch failed)."@,
        step_after_fetch(settings, book, links, FetchReply::Unreachable(reason)) matches
            AddStepView::Fail(e) && e.status == Status::BadGateway && e.detail
            == "MAM request failed: "@ + reason@,
        step_after_fetch(settings, book, links, FetchReply::Unreadable(reason)) matches
            AddStepView::Fail(e) && e.status == Status::BadGateway && e.detail
            == "MAM torrent body failed: "@ + reason@,
{
    lemma_source_keys();
    assert((seq![link] + links).skip(1) =~= links);
}

/// A torrent is added with the labels of its own book and of the settings,
/// whichever way it comes.
pub proof fn books_are_added_under_their_labels(
    settings: SettingsView,
    body: AddBodyView,
    book: AddedBookView,
    links: Seq<Seq<char>>,
    reply: FetchReply,
)
    requires
        book.mam_id.len() > 0,
        settings.transmission_label.len() > 0,
    ensures
        ({
            let labels = JsonView::Array(
                seq![
                    JsonView::Text(settings.transmission_label),
                    JsonView::Text("mamid="@ + book.mam_id),
                ],
            );
            &&& book_asked_for(body) == Ok::<_, ErrorView>(book) ==> (first_step(
                settings,
                body,
            ) matches AddStepView::Call { arguments, .. } ==> found(arguments, "labels"@) == Some(
                labels,
            ))
            &&& step_after_fetch(settings, book, links, reply) matches AddStepView::Call {
                arguments,
                ..
            } ==> found(arguments, "labels"@) == Some(labels)
        }),
{
    lemma_source_keys();
    torrents_get_their_own_labels_alone(
        settings.transmission_label,
        book.mam_id,
        "filename"@,
        direct_link(settings.mam_base, book.dl),
        "labels"@,
    );
    if let FetchReply::Torrent(bytes) = reply {
        torrents_get_their_own_labels_alone(
            settings.transmission_label,
            book.mam_id,
            "metainfo"@,
            base64_text(bytes@),
            "labels"@,
        );
    }
}

/// A book that is identified by a number is accepted, and nothing else that it
/// has or lacks keeps it from being so.
pub proof fn numbered_books_are_accepted(body: AddBodyView, n: NumberView)
    requires
        body.id == Some(JsonView::Number(n)),
        n.text.len() > 0,
    ensures
        book_asked_for(body) is Ok <==> media_type_of(body.media_type) is Ok,
        book_asked_for(body) matches Ok(book) ==> book.mam_id == n.text,
{
}

}
