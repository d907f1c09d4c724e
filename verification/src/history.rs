//! The history of the books that were added: what is kept of each, and how
//! it changes.
use crate::error::{result_view, AppError, ErrorView};
use crate::json::{opt_view, text_copy};
use crate::names::{clean_status_detail, kept_detail};
use crate::outside::{format_utc, utc_text};
use crate::text::{
    blank, is_one_of, is_whitespace, join, joined, lemma_picked, lemma_trimmed, same_text,
    separators_stand_between_neighbours, trim, trimmed, trimmed_of,
    trimming_takes_what_stands_around, views, CharClass,
};
use crate::words::{is_media_type, media_type_of, normalize_media_type};
use vstd::prelude::*;
use vstd::string::*;

verus! {

broadcast use vstd::string::group_string_axioms;

// ---------------------------------------------------------------------------
// Rows
// ---------------------------------------------------------------------------

/// One row of the history.
#[derive(Debug)]
pub struct HistoryItem {
    pub id: i64,
    pub mam_id: Option<String>,
    pub title: Option<String>,
    pub author: Option<String>,
    pub narrator: Option<String>,
    pub media_type: Option<String>,
    pub dl: Option<String>,
    pub torrent_hash: Option<String>,
    pub added_at: Option<String>,
    pub imported_at: Option<String>,
    pub torrent_status: Option<String>,
    pub status_detail: Option<String>,
    pub status_updated_at: Option<String>,
}

/// The model of one row of the history.
pub struct HistoryItemView {
    pub id: i64,
    pub mam_id: Option<Seq<char>>,
    pub title: Option<Seq<char>>,
    pub author: Option<Seq<char>>,
    pub narrator: Option<Seq<char>>,
    pub media_type: Option<Seq<char>>,
    pub dl: Option<Seq<char>>,
    pub torrent_hash: Option<Seq<char>>,
    pub added_at: Option<Seq<char>>,
    pub imported_at: Option<Seq<char>>,
    pub torrent_status: Option<Seq<char>>,
    pub status_detail: Option<Seq<char>>,
    pub status_updated_at: Option<Seq<char>>,
}

impl View for HistoryItem {
    type V = HistoryItemView;

    open spec fn view(&self) -> HistoryItemView {
        HistoryItemView {
            id: self.id,
            mam_id: opt_view(self.mam_id),
            title: opt_view(self.title),
            author: opt_view(self.author),
            narrator: opt_view(self.narrator),
            media_type: opt_view(self.media_type),
            dl: opt_view(self.dl),
            torrent_hash: opt_view(self.torrent_hash),
            added_at: opt_view(self.added_at),
            imported_at: opt_view(self.imported_at),
            torrent_status: opt_view(self.torrent_status),
            status_detail: opt_view(self.status_detail),
            status_updated_at: opt_view(self.status_updated_at),
        }
    }
}

/// The models of some rows of the history.
pub open spec fn row_views(rows: Seq<HistoryItem>) -> Seq<HistoryItemView> {
    rows.map_values(|row: HistoryItem| row@)
}

impl HistoryItem {
    /// The same row once more.
    pub fn copy(&self) -> (r: HistoryItem)
        ensures
            r@ == self@,
    {
        HistoryItem {
            id: self.id,
            mam_id: text_copy(self.mam_id.as_ref()),
            title: text_copy(self.title.as_ref()),
            author: text_copy(self.author.as_ref()),
            narrator: text_copy(self.narrator.as_ref()),
            media_type: text_copy(self.media_type.as_ref()),
            dl: text_copy(self.dl.as_ref()),
            torrent_hash: text_copy(self.torrent_hash.as_ref()),
            added_at: text_copy(self.added_at.as_ref()),
            imported_at: text_copy(self.imported_at.as_ref()),
            torrent_status: text_copy(self.torrent_status.as_ref()),
            status_detail: text_copy(self.status_detail.as_ref()),
            status_updated_at: text_copy(self.status_updated_at.as_ref()),
        }
    }
}

/// A moment as it stands in the history.
pub fn utcnow_str(seconds: i64) -> (r: Option<String>)
    ensures
        opt_view(r) == utc_text(seconds, "%Y-%m-%d %H:%M:%S"@),
{
    format_utc(seconds, "%Y-%m-%d %H:%M:%S")
}

// ---------------------------------------------------------------------------
// New rows
// ---------------------------------------------------------------------------

/// A book as it is recorded when its torrent is added.
#[derive(Debug)]
pub struct AddedBook {
    pub mam_id: String,
    pub title: String,
    pub author: String,
    pub narrator: String,
    pub media_type: String,
    pub dl: String,
}

/// The model of a book as it is recorded.
pub struct AddedBookView {
    pub mam_id: Seq<char>,
    pub title: Seq<char>,
    pub author: Seq<char>,
    pub narrator: Seq<char>,
    pub media_type: Seq<char>,
    pub dl: Seq<char>,
}

impl View for AddedBook {
    type V = AddedBookView;

    open spec fn view(&self) -> AddedBookView {
        AddedBookView {
            mam_id: self.mam_id@,
            title: self.title@,
            author: self.author@,
            narrator: self.narrator@,
            media_type: self.media_type@,
            dl: self.dl@,
        }
    }
}

/// A row before the database has given it a number.
#[derive(Debug)]
pub struct NewHistoryItem {
    pub mam_id: String,
    pub title: String,
    pub author: String,
    pub narrator: String,
    pub media_type: String,
    pub dl: String,
    pub torrent_status: String,
    pub torrent_hash: Option<String>,
    pub added_at: String,
    pub status_detail: Option<String>,
    pub status_updated_at: String,
}

/// The model of a row before the database has given it a number.
pub struct NewHistoryItemView {
    pub mam_id: Seq<char>,
    pub title: Seq<char>,
    pub author: Seq<char>,
    pub narrator: Seq<char>,
    pub media_type: Seq<char>,
    pub dl: Seq<char>,
    pub torrent_status: Seq<char>,
    pub torrent_hash: Option<Seq<char>>,
    pub added_at: Seq<char>,
    pub status_detail: Option<Seq<char>>,
    pub status_updated_at: Seq<char>,
}

impl View for NewHistoryItem {
    type V = NewHistoryItemView;

    open spec fn view(&self) -> NewHistoryItemView {
        NewHistoryItemView {
            mam_id: self.mam_id@,
            title: self.title@,
            author: self.author@,
            narrator: self.narrator@,
            media_type: self.media_type@,
            dl: self.dl@,
            torrent_status: self.torrent_status@,
            torrent_hash: opt_view(self.torrent_hash),
            added_at: self.added_at@,
            status_detail: opt_view(self.status_detail),
            status_updated_at: self.status_updated_at@,
        }
    }
}

/// The new row for a book whose torrent was added now, or the refusal of its
/// media type.
pub open spec fn new_row_for(
    book: AddedBookView,
    torrent_hash: Option<Seq<char>>,
    now: Seq<char>,
) -> Result<NewHistoryItemView, ErrorView> {
    match media_type_of(Some(book.media_type)) {
        Ok(media_type) => Ok(
            NewHistoryItemView {
                mam_id: book.mam_id,
                title: book.title,
                author: book.author,
                narrator: book.narrator,
                media_type,
                dl: book.dl,
                torrent_status: "added"@,
                torrent_hash,
                added_at: now,
                status_detail: None,
                status_updated_at: now,
            },
        ),
        Err(e) => Err(e),
    }
}

/// A new row once it has a number. Nothing was imported yet.
pub open spec fn stored_row(id: i64, row: NewHistoryItemView) -> HistoryItemView {
    HistoryItemView {
        id,
        mam_id: Some(row.mam_id),
        title: Some(row.title),
        author: Some(row.author),
        narrator: Some(row.narrator),
        media_type: Some(row.media_type),
        dl: Some(row.dl),
        torrent_hash: row.torrent_hash,
        added_at: Some(row.added_at),
        imported_at: None,
        torrent_status: Some(row.torrent_status),
        status_detail: row.status_detail,
        status_updated_at: Some(row.status_updated_at),
    }
}

/// The new row for a book whose torrent was added now.
pub fn insert_history(book: &AddedBook, torrent_hash: Option<String>, now: &str) -> (r: Result<
    NewHistoryItem,
    AppError,
>)
    ensures
        result_view(r) == new_row_for(book@, opt_view(torrent_hash), now@),
        is_media_type(book@.media_type) ==> (r matches Ok(row) && row@.media_type
            == book@.media_type),
{
    match normalize_media_type(Some(book.media_type.as_str())) {
        Ok(media_type) => Ok(
            NewHistoryItem {
                mam_id: book.mam_id.clone(),
                title: book.title.clone(),
                author: book.author.clone(),
                narrator: book.narrator.clone(),
                media_type,
                dl: book.dl.clone(),
                torrent_status: "added".to_owned(),
                torrent_hash,
                added_at: now.to_owned(),
                status_detail: None,
                status_updated_at: now.to_owned(),
            },
        ),
        Err(e) => Err(e),
    }
}

// ---------------------------------------------------------------------------
// Changes
// ---------------------------------------------------------------------------

/// Which rows a change is for.
#[derive(Debug, PartialEq)]
pub enum Target {
    /// The row with this number.
    Row(i64),
    /// Every row with this hash.
    Torrent(String),
}

/// The model of which rows a change is for.
pub enum TargetView {
    Row(i64),
    Torrent(Seq<char>),
}

impl View for Target {
    type V = TargetView;

    open spec fn view(&self) -> TargetView {
        match self {
            Target::Row(id) => TargetView::Row(*id),
            Target::Torrent(hash) => TargetView::Torrent(hash@),
        }
    }
}

/// A change of the status of some rows.
#[derive(Debug, PartialEq)]
pub struct HistoryChange {
    pub target: Target,
    pub status: String,
    pub detail: Option<String>,
    pub updated_at: String,
    /// When the import was done, where this change tells of it.
    pub imported_at: Option<String>,
}

/// The model of a change.
pub struct HistoryChangeView {
    pub target: TargetView,
    pub status: Seq<char>,
    pub detail: Option<Seq<char>>,
    pub updated_at: Seq<char>,
    pub imported_at: Option<Seq<char>>,
}

impl View for HistoryChange {
    type V = HistoryChangeView;

    open spec fn view(&self) -> HistoryChangeView {
        HistoryChangeView {
            target: self.target@,
            status: self.status@,
            detail: opt_view(self.detail),
            updated_at: self.updated_at@,
            imported_at: opt_view(self.imported_at),
        }
    }
}

/// Whether a change is for a row.
pub open spec fn is_target(target: TargetView, row: HistoryItemView) -> bool {
    match target {
        TargetView::Row(id) => row.id == id,
        TargetView::Torrent(hash) => row.torrent_hash == Some(hash),
    }
}

/// A row after a change. The moment of an import stays where the change does
/// not tell of one.
pub open spec fn changed(row: HistoryItemView, change: HistoryChangeView) -> HistoryItemView {
    if is_target(change.target, row) {
        HistoryItemView {
            torrent_status: Some(change.status),
            status_detail: change.detail,
            status_updated_at: Some(change.updated_at),
            imported_at: if change.imported_at is Some {
                change.imported_at
            } else {
                row.imported_at
            },
            ..row
        }
    } else {
        row
    }
}

/// The row with a number where there is one, and else the rows with a hash.
pub open spec fn target_of(history_id: Option<i64>, torrent_hash: Seq<char>) -> TargetView {
    match history_id {
        Some(id) => TargetView::Row(id),
        None => TargetView::Torrent(torrent_hash),
    }
}

/// The change that gives a row a status.
pub open spec fn status_change(
    history_id: i64,
    status: Seq<char>,
    detail: Option<Seq<char>>,
    imported_at: Option<Seq<char>>,
    now: Seq<char>,
) -> HistoryChangeView {
    HistoryChangeView {
        target: TargetView::Row(history_id),
        status,
        detail: kept_detail(detail),
        updated_at: now,
        imported_at,
    }
}

/// The change for an import that was done.
pub open spec fn imported_change(
    history_id: Option<i64>,
    torrent_hash: Seq<char>,
    now: Seq<char>,
) -> HistoryChangeView {
    HistoryChangeView {
        target: target_of(history_id, torrent_hash),
        status: "imported"@,
        detail: None,
        updated_at: now,
        imported_at: Some(now),
    }
}

/// The change for an import that failed.
pub open spec fn failed_change(
    history_id: Option<i64>,
    torrent_hash: Seq<char>,
    detail: Seq<char>,
    now: Seq<char>,
) -> HistoryChangeView {
    HistoryChangeView {
        target: target_of(history_id, torrent_hash),
        status: "import_failed"@,
        detail: kept_detail(Some(detail)),
        updated_at: now,
        imported_at: None,
    }
}

/// The row with the number where there is one, and else the rows with the hash.
fn choose_target(history_id: Option<i64>, torrent_hash: &str) -> (r: Target)
    ensures
        r@ == target_of(history_id, torrent_hash@),
{
    match history_id {
        Some(id) => Target::Row(id),
        None => Target::Torrent(torrent_hash.to_owned()),
    }
}

/// The change that gives the row a status.
pub fn update_history_status(
    history_id: i64,
    status: &str,
    detail: Option<&str>,
    imported_at: Option<&str>,
    now: &str,
) -> (r: HistoryChange)
    ensures
        r@ == status_change(history_id, status@, opt_view(detail), opt_view(imported_at), now@),
{
    let imported_at = match imported_at {
        Some(at) => Some(at.to_owned()),
        None => None,
    };
    HistoryChange {
        target: Target::Row(history_id),
        status: status.to_owned(),
        detail: clean_status_detail(detail),
        updated_at: now.to_owned(),
        imported_at,
    }
}

/// The change for an import that was done.
pub fn mark_history_imported(history_id: Option<i64>, torrent_hash: &str, now: &str) -> (r:
    HistoryChange)
    ensures
        r@ == imported_change(history_id, torrent_hash@, now@),
{
    HistoryChange {
        target: choose_target(history_id, torrent_hash),
        status: "imported".to_owned(),
        detail: None,
        updated_at: now.to_owned(),
        imported_at: Some(now.to_owned()),
    }
}

/// The change for an import that failed.
pub fn mark_history_failed(
    history_id: Option<i64>,
    torrent_hash: &str,
    detail: &str,
    now: &str,
) -> (r: HistoryChange)
    ensures
        r@ == failed_change(history_id, torrent_hash@, detail@, now@),
{
    HistoryChange {
        target: choose_target(history_id, torrent_hash),
        status: "import_failed".to_owned(),
        detail: clean_status_detail(Some(detail)),
        updated_at: now.to_owned(),
        imported_at: None,
    }
}

/// The media type of a row, given what its column holds: none where there is
/// no such row.
pub open spec fn stored_media_type(column: Option<Seq<char>>) -> Result<
    Option<Seq<char>>,
    ErrorView,
> {
    match column {
        Some(value) => match media_type_of(Some(value)) {
            Ok(media_type) => Ok(Some(media_type)),
            Err(e) => Err(e),
        },
        None => Ok(None),
    }
}

/// The media type of a row, given what its column holds.
pub fn get_history_media_type(column: Option<&str>) -> (r: Result<Option<String>, AppError>)
    ensures
        match r {
            Ok(media_type) => stored_media_type(opt_view(column)) == Ok::<_, ErrorView>(
                opt_view(media_type),
            ),
            Err(e) => stored_media_type(opt_view(column)) == Err::<Option<Seq<char>>, _>(e@),
        },
{
    match column {
        Some(value) => match normalize_media_type(Some(value)) {
            Ok(media_type) => Ok(Some(media_type)),
            Err(e) => Err(e),
        },
        None => Ok(None),
    }
}

// ---------------------------------------------------------------------------
// Candidates for an import
// ---------------------------------------------------------------------------

/// The statuses that an automatic import leaves alone.
pub open spec fn is_settled(status: Seq<char>) -> bool {
    status == "imported"@ || status == "import_failed"@ || status == "importing"@
}

/// The hash of a row without the white space around it; empty where it has
/// none.
pub open spec fn hash_of(row: HistoryItemView) -> Seq<char> {
    match row.torrent_hash {
        Some(hash) => trimmed(hash),
        None => Seq::empty(),
    }
}

/// Whether a row is waiting for an import that can be done.
pub open spec fn is_waiting(row: HistoryItemView, completed: Seq<Seq<char>>) -> bool {
    &&& !(row.torrent_status matches Some(status) && is_settled(status))
    &&& hash_of(row).len() > 0
    &&& completed.contains(hash_of(row))
}

/// Whether the hash of a row is that of one of some rows.
pub open spec fn is_among(row: HistoryItemView, rows: Seq<HistoryItemView>) -> bool {
    exists|i: int| 0 <= i < rows.len() && hash_of(#[trigger] rows[i]) == hash_of(row)
}

/// The rows that are waiting, the first one for each torrent.
pub open spec fn candidates(rows: Seq<HistoryItemView>, completed: Seq<Seq<char>>) -> Seq<
    HistoryItemView,
>
    decreases rows.len(),
{
    if rows.len() == 0 {
        Seq::empty()
    } else {
        let before = candidates(rows.drop_last(), completed);
        if is_waiting(rows.last(), completed) && !is_among(rows.last(), before) {
            before.push(rows.last())
        } else {
            before
        }
    }
}

/// Whether the row has a status that an automatic import leaves alone.
fn settled(row: &HistoryItem) -> (r: bool)
    ensures
        r == (row@.torrent_status matches Some(status) && is_settled(status)),
{
    match &row.torrent_status {
        Some(status) => same_text(status, "imported") || same_text(status, "import_failed")
            || same_text(status, "importing"),
        None => false,
    }
}

/// The rows that are waiting for an import, the first one for each torrent.
pub fn get_auto_import_candidates(rows: &Vec<HistoryItem>, completed_hashes: &Vec<String>) -> (r:
    Vec<HistoryItem>)
    ensures
        row_views(r@) == candidates(row_views(rows@), views(completed_hashes@)),
{
    let ghost all = row_views(rows@);
    let ghost completed = views(completed_hashes@);
    let mut out: Vec<HistoryItem> = Vec::new();
    let mut seen: Vec<String> = Vec::new();
    let mut i: usize = 0;
    assert(row_views(out@) =~= candidates(all.take(0), completed));
    while i < rows.len()
        invariant
            i <= rows@.len(),
            all == row_views(rows@),
            completed == views(completed_hashes@),
            row_views(out@) == candidates(all.take(i as int), completed),
            views(seen@) == row_views(out@).map_values(|row: HistoryItemView| hash_of(row)),
        decreases rows@.len() - i,
    {
        assert(all.take(i + 1).drop_last() =~= all.take(i as int));
        assert(all.take(i + 1).last() == rows@[i as int]@);
        let row = &rows[i];
        let hash = match &row.torrent_hash {
            Some(hash) => trim(hash),
            None => String::new(),
        };
        assert(hash@ == hash_of(row@));
        let ghost chosen = row_views(out@);
        let known = is_one_of(&hash, &seen);
        proof {
            let hashes = views(seen@);
            assert forall|j: int| 0 <= j < hashes.len() implies #[trigger] hashes[j] == hash_of(
                chosen[j],
            ) by {}
            if known {
                let j = choose|j: int| 0 <= j < hashes.len() && hashes[j] == hash@;
                assert(hash_of(chosen[j]) == hash_of(row@));
            } else if is_among(row@, chosen) {
                let j = choose|j: int|
                    0 <= j < chosen.len() && hash_of(#[trigger] chosen[j]) == hash_of(row@);
                assert(hashes[j] == hash@);
            }
            assert(known == is_among(row@, chosen));
        }
        if !settled(row) && !hash.as_str().is_empty() && is_one_of(&hash, completed_hashes)
            && !known {
            let ghost before_out = out@;
            let ghost before_seen = seen@;
            let copy = row.copy();
            out.push(copy);
            seen.push(hash);
            assert(row_views(out@) =~= row_views(before_out).push(row@));
            assert(views(seen@) =~= views(before_seen).push(hash_of(row@)));
            assert(views(seen@) =~= row_views(out@).map_values(
                |row: HistoryItemView| hash_of(row),
            ));
        }
        i += 1;
    }
    assert(all.take(rows@.len() as int) =~= all);
    out
}

// ---------------------------------------------------------------------------
// The table
// ---------------------------------------------------------------------------

/// The columns of a new table, each with what it holds.
pub open spec fn first_columns() -> Seq<(Seq<char>, Seq<char>)> {
    seq![
        ("id"@, "INTEGER PRIMARY KEY"@),
        ("mam_id"@, "TEXT"@),
        ("title"@, "TEXT"@),
        ("author"@, "TEXT"@),
        ("narrator"@, "TEXT"@),
        ("media_type"@, "TEXT"@),
        ("dl"@, "TEXT"@),
        ("added_at"@, "TEXT DEFAULT (datetime('now'))"@),
        ("imported_at"@, "TEXT"@),
        ("torrent_status"@, "TEXT"@),
        ("torrent_hash"@, "TEXT"@),
    ]
}

/// The statement that makes a table with some columns, unless it is there.
pub open spec fn create_table(columns: Seq<(Seq<char>, Seq<char>)>) -> Seq<char> {
    "CREATE TABLE IF NOT EXISTS history ("@ + joined(
        columns.map_values(|c: (Seq<char>, Seq<char>)| c.0 + " "@ + c.1),
        ", "@,
    ) + ")"@
}

/// The statement that makes the table, unless it is there.
pub fn create_history_table() -> (r: String)
    ensures
        r@ == create_table(first_columns()),
{
    let columns: Vec<(&str, &str)> = vec![
        ("id", "INTEGER PRIMARY KEY"),
        ("mam_id", "TEXT"),
        ("title", "TEXT"),
        ("author", "TEXT"),
        ("narrator", "TEXT"),
        ("media_type", "TEXT"),
        ("dl", "TEXT"),
        ("added_at", "TEXT DEFAULT (datetime('now'))"),
        ("imported_at", "TEXT"),
        ("torrent_status", "TEXT"),
        ("torrent_hash", "TEXT"),
    ];
    let ghost named = columns@.map_values(|c: (&str, &str)| (c.0@, c.1@));
    assert(named =~= first_columns());
    let ghost wanted = first_columns().map_values(|c: (Seq<char>, Seq<char>)| c.0 + " "@ + c.1);
    let mut out: Vec<String> = Vec::new();
    let mut i: usize = 0;
    while i < columns.len()
        invariant
            i <= columns@.len(),
            named == columns@.map_values(|c: (&str, &str)| (c.0@, c.1@)),
            wanted == named.map_values(|c: (Seq<char>, Seq<char>)| c.0 + " "@ + c.1),
            views(out@) =~= wanted.take(i as int),
        decreases columns@.len() - i,
    {
        let ghost before = out@;
        let column = columns[i].0.to_owned().concat(" ").concat(columns[i].1);
        assert(column@ == wanted[i as int]);
        out.push(column);
        assert(views(out@) =~= views(before).push(column@));
        i += 1;
    }
    assert(views(out@) =~= wanted);
    "CREATE TABLE IF NOT EXISTS history (".to_owned().concat(&join(&out, ", ")).concat(")")
}

/// The statement that adds a column of texts.
pub open spec fn add_column(column: Seq<char>) -> Seq<char> {
    "ALTER TABLE history ADD COLUMN "@ + column + " TEXT"@
}

/// The columns that a table of an earlier version may lack.
pub open spec fn later_columns() -> Seq<Seq<char>> {
    seq!["status_detail"@, "status_updated_at"@, "media_type"@]
}

/// The statements that fill what a row of an earlier version may lack.
pub open spec fn fill_statements() -> Seq<Seq<char>> {
    seq![
        "UPDATE history SET media_type = 'audiobook' WHERE media_type IS NULL OR trim(media_type) = ''"@,
        "UPDATE history SET torrent_status = 'added' WHERE torrent_status IS NULL OR trim(torrent_status) = ''"@,
        "UPDATE history SET status_updated_at = COALESCE(status_updated_at, imported_at, added_at) WHERE status_updated_at IS NULL"@,
    ]
}

/// The statements that bring a table with these columns up to date: each
/// column that is missing is added, then the rows are filled.
pub open spec fn schema_statements(columns: Seq<Seq<char>>) -> Seq<Seq<char>> {
    later_columns().filter_map(
        |c: Seq<char>|
            if columns.contains(c) {
                None
            } else {
                Some(add_column(c))
            },
    ) + fill_statements()
}

/// The statements that bring a table with these columns up to date.
pub fn ensure_history_schema(columns: &Vec<String>) -> (r: Vec<String>)
    ensures
        views(r@) == schema_statements(views(columns@)),
{
    let ghost pick = |c: Seq<char>|
        if views(columns@).contains(c) {
            None
        } else {
            Some(add_column(c))
        };
    let later: Vec<&str> = vec!["status_detail", "status_updated_at", "media_type"];
    let ghost names = later@.map_values(|c: &str| c@);
    assert(names =~= later_columns());
    let mut out: Vec<String> = Vec::new();
    let mut i: usize = 0;
    assert(views(out@) =~= names.take(0).filter_map(pick));
    while i < later.len()
        invariant
            i <= later@.len(),
            names == later@.map_values(|c: &str| c@),
            pick == (|c: Seq<char>|
                if views(columns@).contains(c) {
                    None
                } else {
                    Some(add_column(c))
                }),
            views(out@) == names.take(i as int).filter_map(pick),
        decreases later@.len() - i,
    {
        assert(names.take(i + 1).drop_last() =~= names.take(i as int));
        if !is_one_of(later[i], columns) {
            let ghost before = out@;
            let statement = "ALTER TABLE history ADD COLUMN ".to_owned().concat(later[i]).concat(
                " TEXT",
            );
            out.push(statement);
            assert(views(out@) =~= views(before) + seq![statement@]);
        }
        i += 1;
    }
    assert(names.take(later@.len() as int) =~= names);
    let ghost added = out@;
    out.push(
        "UPDATE history SET media_type = 'audiobook' WHERE media_type IS NULL OR trim(media_type) = ''".to_owned(),
    );
    out.push(
        "UPDATE history SET torrent_status = 'added' WHERE torrent_status IS NULL OR trim(torrent_status) = ''".to_owned(),
    );
    out.push(
        "UPDATE history SET status_updated_at = COALESCE(status_updated_at, imported_at, added_at) WHERE status_updated_at IS NULL".to_owned(),
    );
    assert(views(out@) =~= views(added) + fill_statements());
    out
}

// ---------------------------------------------------------------------------
// Laws
// ---------------------------------------------------------------------------

/// Every candidate is a row of the history that is waiting.
pub proof fn candidates_are_waiting(
    rows: Seq<HistoryItemView>,
    completed: Seq<Seq<char>>,
    row: HistoryItemView,
)
    requires
        candidates(rows, completed).contains(row),
    ensures
        rows.contains(row),
        is_waiting(row, completed),
    decreases rows.len(),
{
    if rows.len() > 0 {
        let before = candidates(rows.drop_last(), completed);
        let all = candidates(rows, completed);
        let k = choose|k: int| 0 <= k < all.len() && all[k] == row;
        if k < before.len() {
            assert(before[k] == row);
            candidates_are_waiting(rows.drop_last(), completed, row);
            let j = choose|j: int| 0 <= j < rows.drop_last().len() && rows.drop_last()[j] == row;
            assert(rows[j] == row);
        } else {
            assert(rows[rows.len() - 1] == row);
        }
    }
}

/// No two candidates are for the same torrent.
pub proof fn candidates_are_for_different_torrents(
    rows: Seq<HistoryItemView>,
    completed: Seq<Seq<char>>,
    i: int,
    j: int,
)
    requires
        0 <= i < j < candidates(rows, completed).len(),
    ensures
        hash_of(candidates(rows, completed)[i]) != hash_of(candidates(rows, completed)[j]),
    decreases rows.len(),
{
    let before = candidates(rows.drop_last(), completed);
    if j < before.len() {
        candidates_are_for_different_torrents(rows.drop_last(), completed, i, j);
    } else {
        assert(!is_among(rows.last(), before));
        assert(before[i] == candidates(rows, completed)[i]);
    }
}

/// For every row that is waiting there is a candidate for its torrent, and it
/// is the first such row.
pub proof fn waiting_rows_have_a_candidate(
    rows: Seq<HistoryItemView>,
    completed: Seq<Seq<char>>,
    at: int,
)
    requires
        0 <= at < rows.len(),
        is_waiting(rows[at], completed),
        forall|k: int|
            0 <= k < at ==> !(is_waiting(#[trigger] rows[k], completed) && hash_of(rows[k])
                == hash_of(rows[at])),
    ensures
        candidates(rows, completed).contains(rows[at]),
    decreases rows.len(),
{
    let short = rows.drop_last();
    let before = candidates(short, completed);
    let all = candidates(rows, completed);
    if at < rows.len() - 1 {
        assert(short[at] == rows[at]);
        assert forall|k: int| 0 <= k < at implies !(is_waiting(#[trigger] short[k], completed)
            && hash_of(short[k]) == hash_of(short[at])) by {
            assert(short[k] == rows[k]);
        }
        waiting_rows_have_a_candidate(short, completed, at);
        let k = choose|k: int| 0 <= k < before.len() && before[k] == rows[at];
        assert(all[k] == rows[at]);
    } else {
        if is_among(rows[at], before) {
            let k = choose|k: int|
                0 <= k < before.len() && hash_of(#[trigger] before[k]) == hash_of(rows[at]);
            let earlier = before[k];
            assert(before.contains(earlier));
            candidates_are_waiting(short, completed, earlier);
            let j = choose|j: int| 0 <= j < short.len() && short[j] == earlier;
            assert(rows[j] == earlier);
        }
        assert(all[all.len() - 1] == rows[at]);
    }
}

/// What is being imported, was imported or failed is not imported again by
/// itself.
pub proof fn settled_rows_are_left_alone(
    row: HistoryItemView,
    completed: Seq<Seq<char>>,
    history_id: Option<i64>,
    torrent_hash: Seq<char>,
    detail: Seq<char>,
    now: Seq<char>,
)
    requires
        is_target(target_of(history_id, torrent_hash), row),
    ensures
        !is_waiting(changed(row, imported_change(history_id, torrent_hash, now)), completed),
        !is_waiting(changed(row, failed_change(history_id, torrent_hash, detail, now)), completed),
        !is_waiting(changed(row, status_change(row.id, "importing"@, None, None, now)), completed),
{
}

/// A new row, and one that is given back for another try, waits for nothing
/// but its torrent.
pub proof fn added_rows_wait_for_their_torrent(
    id: i64,
    book: AddedBookView,
    torrent_hash: Option<Seq<char>>,
    row: HistoryItemView,
    now: Seq<char>,
    completed: Seq<Seq<char>>,
)
    ensures
        new_row_for(book, torrent_hash, now) matches Ok(new) ==> {
            let stored = stored_row(id, new);
            is_waiting(stored, completed) == (hash_of(stored).len() > 0 && completed.contains(
                hash_of(stored),
            ))
        },
        is_waiting(changed(row, status_change(row.id, "added"@, None, None, now)), completed) == (
        hash_of(row).len() > 0 && completed.contains(hash_of(row))),
{
    reveal_strlit("added");
    reveal_strlit("imported");
    reveal_strlit("import_failed");
    reveal_strlit("importing");
    assert("added"@.len() == 5 && "imported"@.len() == 8 && "import_failed"@.len() == 13
        && "importing"@.len() == 9);
    assert(!is_settled("added"@));
}

/// A change of status keeps everything that was recorded of the book, and the
/// moment of an earlier import unless it tells of another one. Rows that it
/// is not for stay as they are.
pub proof fn changes_keep_the_book(row: HistoryItemView, change: HistoryChangeView)
    ensures
        ({
            let after = changed(row, change);
            &&& after.id == row.id
            &&& after.mam_id == row.mam_id
            &&& after.title == row.title
            &&& after.author == row.author
            &&& after.narrator == row.narrator
            &&& after.media_type == row.media_type
            &&& after.dl == row.dl
            &&& after.torrent_hash == row.torrent_hash
            &&& after.added_at == row.added_at
            &&& change.imported_at is None ==> after.imported_at == row.imported_at
            &&& !is_target(change.target, row) ==> after == row
            &&& changed(after, change) == after
        }),
{
}

/// The columns of a table after the statements for it: those it had and those
/// that were added.
pub open spec fn columns_after(columns: Seq<Seq<char>>) -> Seq<Seq<char>> {
    columns + later_columns().filter_map(
        |c: Seq<char>|
            if columns.contains(c) {
                None
            } else {
                Some(c)
            },
    )
}

/// Whether a column holds nothing, or nothing but spaces.
pub open spec fn is_unset(value: Option<Seq<char>>) -> bool {
    match value {
        Some(s) => trimmed_of(s, CharClass::Just(' ')).len() == 0,
        None => true,
    }
}

/// The first of some columns that holds anything.
pub open spec fn coalesced(
    a: Option<Seq<char>>,
    b: Option<Seq<char>>,
    c: Option<Seq<char>>,
) -> Option<Seq<char>> {
    if a is Some {
        a
    } else if b is Some {
        b
    } else {
        c
    }
}

/// A row after one of the statements. A column that is added holds nothing
/// yet.
pub open spec fn row_after(statement: Seq<char>, row: HistoryItemView) -> HistoryItemView {
    if statement == fill_statements()[0] {
        HistoryItemView {
            media_type: if is_unset(row.media_type) {
                Some("audiobook"@)
            } else {
                row.media_type
            },
            ..row
        }
    } else if statement == fill_statements()[1] {
        HistoryItemView {
            torrent_status: if is_unset(row.torrent_status) {
                Some("added"@)
            } else {
                row.torrent_status
            },
            ..row
        }
    } else if statement == fill_statements()[2] {
        HistoryItemView {
            status_updated_at: coalesced(row.status_updated_at, row.imported_at, row.added_at),
            ..row
        }
    } else {
        row
    }
}

/// A row after some statements, one after the other.
pub open spec fn row_after_all(statements: Seq<Seq<char>>, row: HistoryItemView) -> HistoryItemView
    decreases statements.len(),
{
    if statements.len() == 0 {
        row
    } else {
        row_after(statements.last(), row_after_all(statements.drop_last(), row))
    }
}

/// A row once it is filled: it has a media type and a status, and the moment
/// of its status where it has any moment at all.
pub open spec fn filled(row: HistoryItemView) -> HistoryItemView {
    HistoryItemView {
        media_type: if is_unset(row.media_type) {
            Some("audiobook"@)
        } else {
            row.media_type
        },
        torrent_status: if is_unset(row.torrent_status) {
            Some("added"@)
        } else {
            row.torrent_status
        },
        status_updated_at: coalesced(row.status_updated_at, row.imported_at, row.added_at),
        ..row
    }
}

/// Bringing a table up to date fills its rows. Doing so a second time leaves
/// its columns and its rows as they are.
pub proof fn table_is_brought_up_to_date_once(columns: Seq<Seq<char>>, row: HistoryItemView)
    ensures
        forall|c: Seq<char>| #[trigger]
            later_columns().contains(c) ==> columns_after(columns).contains(c),
        schema_statements(columns_after(columns)) == fill_statements(),
        columns_after(columns_after(columns)) == columns_after(columns),
        row_after_all(schema_statements(columns), row) == filled(row),
        row_after_all(schema_statements(columns_after(columns)), filled(row)) == filled(row),
{
    let pick = |c: Seq<char>|
        if columns.contains(c) {
            None
        } else {
            Some(c)
        };
    let later = later_columns();
    let after = columns_after(columns);
    assert forall|c: Seq<char>| #[trigger] later.contains(c) implies after.contains(c) by {
        if columns.contains(c) {
            let k = choose|k: int| 0 <= k < columns.len() && columns[k] == c;
            assert(after[k] == c);
        } else {
            lemma_picked(later, pick, c);
            let added = later.filter_map(pick);
            let k = choose|k: int| 0 <= k < added.len() && added[k] == c;
            assert(after[columns.len() + k] == c);
        }
    }
    let again = |c: Seq<char>|
        if after.contains(c) {
            None
        } else {
            Some(add_column(c))
        };
    lemma_none_picked(later, again);
    assert(schema_statements(after) =~= fill_statements());
    let once_more = |c: Seq<char>|
        if after.contains(c) {
            None
        } else {
            Some(c)
        };
    lemma_none_picked(later, once_more);
    assert(columns_after(after) =~= after);
    let statement_for = |c: Seq<char>|
        if columns.contains(c) {
            None
        } else {
            Some(add_column(c))
        };
    lemma_columns_leave_rows(later, statement_for, row);
    lemma_filled(later.filter_map(statement_for), row);
    lemma_filled(Seq::empty(), filled(row));
    assert(Seq::empty() + fill_statements() =~= fill_statements());
    lemma_filled_stays(row);
}

/// What is filled stays as it is.
proof fn lemma_filled_stays(row: HistoryItemView)
    ensures
        filled(filled(row)) == filled(row),
{
    reveal_strlit("audiobook");
    reveal_strlit("added");
    assert("audiobook"@[0] == 'a' && "added"@[0] == 'a');
    lemma_trimmed("audiobook"@, CharClass::Just(' '));
    lemma_trimmed("added"@, CharClass::Just(' '));
    assert(!CharClass::Just(' ').has("audiobook"@[0]));
    assert(!CharClass::Just(' ').has("added"@[0]));
}

/// Statements that add columns leave a row as it is.
proof fn lemma_columns_leave_rows(
    columns: Seq<Seq<char>>,
    statement_for: spec_fn(Seq<char>) -> Option<Seq<char>>,
    row: HistoryItemView,
)
    requires
        forall|c: Seq<char>| #[trigger] statement_for(c) matches Some(s) ==> s == add_column(c),
    ensures
        row_after_all(columns.filter_map(statement_for), row) == row,
    decreases columns.len(),
{
    if columns.len() > 0 {
        lemma_columns_leave_rows(columns.drop_last(), statement_for, row);
        let before = columns.drop_last().filter_map(statement_for);
        let all = columns.filter_map(statement_for);
        if statement_for(columns.last()) is Some {
            let statement = statement_for(columns.last())->0;
            assert(all.drop_last() =~= before);
            assert(all.last() == statement);
            lemma_fill_statements_differ();
            reveal_strlit("ALTER TABLE history ADD COLUMN ");
            assert(statement[0] == "ALTER TABLE history ADD COLUMN "@[0]);
        }
    }
}

/// The statements that fill rows begin alike and go on differently.
proof fn lemma_fill_statements_differ()
    ensures
        fill_statements().len() == 3,
        fill_statements()[0][0] == 'U',
        fill_statements()[1][0] == 'U',
        fill_statements()[2][0] == 'U',
        fill_statements()[0] != fill_statements()[1],
        fill_statements()[0] != fill_statements()[2],
        fill_statements()[1] != fill_statements()[2],
{
    reveal_strlit(
        "UPDATE history SET media_type = 'audiobook' WHERE media_type IS NULL OR trim(media_type) = ''",
    );
    reveal_strlit(
        "UPDATE history SET torrent_status = 'added' WHERE torrent_status IS NULL OR trim(torrent_status) = ''",
    );
    reveal_strlit(
        "UPDATE history SET status_updated_at = COALESCE(status_updated_at, imported_at, added_at) WHERE status_updated_at IS NULL",
    );
    assert(fill_statements()[0][19] == 'm');
    assert(fill_statements()[1][19] == 't');
    assert(fill_statements()[2][19] == 's');
}

/// After statements that leave a row as it is, the others fill it.
proof fn lemma_filled(first: Seq<Seq<char>>, row: HistoryItemView)
    requires
        row_after_all(first, row) == row,
    ensures
        row_after_all(first + fill_statements(), row) == filled(row),
{
    lemma_fill_statements_differ();
    let fills = fill_statements();
    let all = first + fills;
    let two = all.drop_last();
    let one = two.drop_last();
    assert(one.drop_last() =~= first);
    assert(one.last() == fills[0] && two.last() == fills[1] && all.last() == fills[2]);
    assert(row_after_all(one, row) == row_after(fills[0], row));
    assert(row_after_all(two, row) == row_after(fills[1], row_after(fills[0], row)));
}

/// Where nothing is picked nothing is left.
proof fn lemma_none_picked(items: Seq<Seq<char>>, pick: spec_fn(Seq<char>) -> Option<Seq<char>>)
    requires
        forall|c: Seq<char>| #[trigger] items.contains(c) ==> pick(c) is None,
    ensures
        items.filter_map(pick).len() == 0,
    decreases items.len(),
{
    if items.len() > 0 {
        let before = items.drop_last();
        assert forall|c: Seq<char>| #[trigger] before.contains(c) implies pick(c) is None by {
            let k = choose|k: int| 0 <= k < before.len() && before[k] == c;
            assert(items[k] == c);
            assert(items.contains(c));
        }
        lemma_none_picked(before, pick);
        assert(items.contains(items.last()));
    }
}

/// The columns that a row is read from and written to.
pub open spec fn row_columns() -> Seq<Seq<char>> {
    seq![
        "id"@,
        "mam_id"@,
        "title"@,
        "author"@,
        "narrator"@,
        "media_type"@,
        "dl"@,
        "torrent_hash"@,
        "added_at"@,
        "imported_at"@,
        "torrent_status"@,
        "status_detail"@,
        "status_updated_at"@,
    ]
}

/// A new table that is brought up to date has every column of a row.
pub proof fn new_tables_hold_rows(column: Seq<char>)
    requires
        row_columns().contains(column),
    ensures
        columns_after(
            first_columns().map_values(|c: (Seq<char>, Seq<char>)| c.0),
        ).contains(column),
{
    let first = first_columns().map_values(|c: (Seq<char>, Seq<char>)| c.0);
    let after = columns_after(first);
    let later = later_columns();
    assert(later[0] == "status_detail"@ && later[1] == "status_updated_at"@);
    let row = HistoryItemView {
        id: 0,
        mam_id: None,
        title: None,
        author: None,
        narrator: None,
        media_type: None,
        dl: None,
        torrent_hash: None,
        added_at: None,
        imported_at: None,
        torrent_status: None,
        status_detail: None,
        status_updated_at: None,
    };
    table_is_brought_up_to_date_once(first, row);
    assert(later.contains(later[0]) && later.contains(later[1]));
    assert forall|i: int| 0 <= i < first.len() implies after.contains(#[trigger] first[i]) by {
        assert(after[i] == first[i]);
    }
    assert(first[0] == "id"@ && first[1] == "mam_id"@ && first[2] == "title"@ && first[3]
        == "author"@ && first[4] == "narrator"@ && first[5] == "media_type"@ && first[6] == "dl"@
        && first[7] == "added_at"@ && first[8] == "imported_at"@ && first[9] == "torrent_status"@
        && first[10] == "torrent_hash"@);
}

/// A new row records the book as it was asked for, under its own media type,
/// with the hash of its torrent and the moment at which that was added. It has
/// the status "added", nothing to say of it, and was not imported.
pub proof fn new_rows_record_the_book(
    id: i64,
    book: AddedBookView,
    torrent_hash: Option<Seq<char>>,
    now: Seq<char>,
)
    ensures
        new_row_for(book, torrent_hash, now) matches Ok(new) ==> {
            let row = stored_row(id, new);
            &&& row.id == id
            &&& row.mam_id == Some(book.mam_id)
            &&& row.title == Some(book.title)
            &&& row.author == Some(book.author)
            &&& row.narrator == Some(book.narrator)
            &&& row.dl == Some(book.dl)
            &&& row.torrent_hash == torrent_hash
            &&& row.added_at == Some(now)
            &&& row.status_updated_at == Some(now)
            &&& row.imported_at is None
            &&& row.status_detail is None
            &&& row.torrent_status == Some(seq!['a', 'd', 'd', 'e', 'd'])
            &&& row.media_type matches Some(media_type) && media_type_of(Some(book.media_type))
                == Ok::<_, ErrorView>(media_type)
        },
        new_row_for(book, torrent_hash, now) is Ok <==> media_type_of(Some(book.media_type)) is Ok,
        new_row_for(book, torrent_hash, now) matches Err(e) ==> media_type_of(
            Some(book.media_type),
        ) == Err::<Seq<char>, _>(e),
{
    reveal_strlit("added");
    assert("added"@ =~= seq!['a', 'd', 'd', 'e', 'd']);
}

/// A change of status is made to the row with the number it is for, and to no
/// other: that row then has the status, what is kept of the detail, and the
/// moment of the change.
pub proof fn status_is_changed_in_one_row(
    row: HistoryItemView,
    history_id: i64,
    status: Seq<char>,
    detail: Option<Seq<char>>,
    imported_at: Option<Seq<char>>,
    now: Seq<char>,
)
    ensures
        ({
            let after = changed(row, status_change(history_id, status, detail, imported_at, now));
            &&& row.id == history_id ==> {
                &&& after.torrent_status == Some(status)
                &&& after.status_detail == kept_detail(detail)
                &&& after.status_updated_at == Some(now)
                &&& imported_at is Some ==> after.imported_at == imported_at
                &&& imported_at is None ==> after.imported_at == row.imported_at
            }
            &&& row.id != history_id ==> after == row
        }),
{
}

/// An import that was done, or that failed, is recorded in the row with its
/// number, and only where it has none in the rows with its hash: as "imported"
/// with the moment and without a detail, or as "import_failed" with what is
/// kept of the reason and without the moment of an import.
pub proof fn ends_of_imports_are_recorded(
    row: HistoryItemView,
    history_id: Option<i64>,
    torrent_hash: Seq<char>,
    detail: Seq<char>,
    now: Seq<char>,
)
    ensures
        ({
            let done = changed(row, imported_change(history_id, torrent_hash, now));
            let failed = changed(row, failed_change(history_id, torrent_hash, detail, now));
            let meant = match history_id {
                Some(id) => row.id == id,
                None => row.torrent_hash == Some(torrent_hash),
            };
            &&& !meant ==> done == row && failed == row
            &&& meant ==> {
                &&& done.torrent_status == Some("imported"@)
                &&& done.imported_at == Some(now)
                &&& done.status_updated_at == Some(now)
                &&& done.status_detail is None
                &&& failed.torrent_status == Some("import_failed"@)
                &&& failed.imported_at == row.imported_at
                &&& failed.status_updated_at == Some(now)
                &&& failed.status_detail == kept_detail(Some(detail))
            }
        }),
{
}

/// A row is taken up exactly if the hash in it, without the white space around
/// it, is that of a finished torrent, and it has none of the three statuses
/// that say that its import is under way or over.
pub proof fn rows_wait_by_their_hash_and_status(
    row: HistoryItemView,
    completed: Seq<Seq<char>>,
    front: Seq<char>,
    hash: Seq<char>,
    back: Seq<char>,
)
    requires
        blank(front),
        blank(back),
        hash.len() > 0,
        !is_whitespace(hash[0]),
        !is_whitespace(hash.last()),
    ensures
        row.torrent_hash == Some(front + hash + back) ==> (is_waiting(row, completed) <==> (exists|
            i: int,
        |
            0 <= i < completed.len() && #[trigger] completed[i] == hash) && row.torrent_status
            != Some("imported"@) && row.torrent_status != Some("import_failed"@)
            && row.torrent_status != Some("importing"@)),
        row.torrent_hash is None || row.torrent_hash == Some(front) ==> !is_waiting(row, completed),
{
    trimming_takes_what_stands_around(front, hash, back, CharClass::White);
    if row.torrent_hash == Some(front + hash + back) {
        assert(hash_of(row) == hash);
        if exists|i: int| 0 <= i < completed.len() && #[trigger] completed[i] == hash {
            assert(completed.contains(hash));
        }
        if completed.contains(hash) {
            let i = choose|i: int| 0 <= i < completed.len() && completed[i] == hash;
            assert(completed[i] == hash);
        }
    }
}

/// The candidates come in the order of the history: a further row changes
/// nothing for those before it, and is the last one where it is taken up.
pub proof fn candidates_keep_the_order_of_the_history(
    rows: Seq<HistoryItemView>,
    row: HistoryItemView,
    completed: Seq<Seq<char>>,
)
    ensures
        ({
            let before = candidates(rows, completed);
            let after = candidates(rows.push(row), completed);
            after == before || after == before.push(row)
        }),
        !is_waiting(row, completed) ==> candidates(rows.push(row), completed) == candidates(
            rows,
            completed,
        ),
        candidates(Seq::empty(), completed).len() == 0,
{
    assert(rows.push(row).drop_last() =~= rows);
}

/// A row keeps the media type that was recorded in it; without a row there is
/// none to keep.
pub proof fn stored_media_types_are_kept(column: Seq<char>)
    ensures
        match media_type_of(Some(column)) {
            Ok(media_type) => stored_media_type(Some(column)) == Ok::<_, ErrorView>(
                Some(media_type),
            ),
            Err(e) => stored_media_type(Some(column)) == Err::<Option<Seq<char>>, _>(e),
        },
        stored_media_type(None) == Ok::<_, ErrorView>(None::<Seq<char>>),
{
}

/// A column that is missing is added as one of texts, once and by its name,
/// and a column that is there is not.
pub proof fn missing_columns_are_added(columns: Seq<Seq<char>>, column: Seq<char>)
    requires
        column == "status_detail"@ || column == "status_updated_at"@ || column == "media_type"@,
    ensures
        ({
            let statement = "ALTER TABLE history ADD COLUMN "@ + column + " TEXT"@;
            schema_statements(columns).contains(statement) <==> !columns.contains(column)
        }),
        schema_statements(columns).len() >= 3,
{
    let statement = "ALTER TABLE history ADD COLUMN "@ + column + " TEXT"@;
    let pick = |c: Seq<char>|
        if columns.contains(c) {
            None
        } else {
            Some(add_column(c))
        };
    let later = later_columns();
    let added = later.filter_map(pick);
    let all = schema_statements(columns);
    assert(later[0] == "status_detail"@ && later[1] == "status_updated_at"@ && later[2]
        == "media_type"@);
    assert(later.contains(later[0]) && later.contains(later[1]) && later.contains(later[2]));
    if !columns.contains(column) {
        lemma_picked(later, pick, column);
        let k = choose|k: int| 0 <= k < added.len() && added[k] == statement;
        assert(all[k] == statement);
    }
    if all.contains(statement) {
        let k = choose|k: int| 0 <= k < all.len() && all[k] == statement;
        if k < added.len() {
            assert(added.contains(statement));
            later.lemma_filter_map_contains(pick, statement);
            let c = choose|c: Seq<char>| #[trigger]
                later.contains(c) && pick(c) == Some(statement);
            let head = "ALTER TABLE history ADD COLUMN "@;
            let tail = " TEXT"@;
            assert(statement.len() == head.len() + c.len() + tail.len());
            assert(statement.subrange(head.len() as int, head.len() + column.len() as int)
                =~= column);
            assert((head + c + tail).subrange(head.len() as int, head.len() + c.len() as int)
                =~= c);
        } else {
            lemma_fill_statements_differ();
            reveal_strlit("ALTER TABLE history ADD COLUMN ");
            assert(statement[0] == "ALTER TABLE history ADD COLUMN "@[0]);
            assert(all[k] == fill_statements()[k - added.len()]);
        }
    }
}

/// The rows are filled by three statements, which come last and in this order:
/// what has no media type is an audiobook, what has no status is added, and
/// the moment of a status is that of the import or else that of the adding.
pub proof fn rows_are_filled_last(columns: Seq<Seq<char>>)
    ensures
        ({
            let all = schema_statements(columns);
            let set = "UPDATE history SET "@;
            &&& all.len() >= 3
            &&& all[all.len() - 3] == set
                + "media_type = 'audiobook' WHERE media_type IS NULL OR trim(media_type) = ''"@
            &&& all[all.len() - 2] == set
                + "torrent_status = 'added' WHERE torrent_status IS NULL OR trim(torrent_status) = ''"@
            &&& all[all.len() - 1] == set
                + "status_updated_at = COALESCE(status_updated_at, imported_at, added_at) WHERE status_updated_at IS NULL"@
        }),
{
    let all = schema_statements(columns);
    let fills = fill_statements();
    lemma_fill_statements_differ();
    assert(all[all.len() - 3] == fills[0] && all[all.len() - 2] == fills[1] && all[all.len() - 1]
        == fills[2]);
    reveal_strlit("UPDATE history SET ");
    reveal_strlit("media_type = 'audiobook' WHERE media_type IS NULL OR trim(media_type) = ''");
    reveal_strlit(
        "torrent_status = 'added' WHERE torrent_status IS NULL OR trim(torrent_status) = ''",
    );
    reveal_strlit(
        "status_updated_at = COALESCE(status_updated_at, imported_at, added_at) WHERE status_updated_at IS NULL",
    );
    reveal_strlit(
        "UPDATE history SET media_type = 'audiobook' WHERE media_type IS NULL OR trim(media_type) = ''",
    );
    reveal_strlit(
        "UPDATE history SET torrent_status = 'added' WHERE torrent_status IS NULL OR trim(torrent_status) = ''",
    );
    reveal_strlit(
        "UPDATE history SET status_updated_at = COALESCE(status_updated_at, imported_at, added_at) WHERE status_updated_at IS NULL",
    );
    let set = "UPDATE history SET "@;
    assert(fills[0] =~= set
        + "media_type = 'audiobook' WHERE media_type IS NULL OR trim(media_type) = ''"@);
    assert(fills[1] =~= set
        + "torrent_status = 'added' WHERE torrent_status IS NULL OR trim(torrent_status) = ''"@);
    assert(fills[2] =~= set
        + "status_updated_at = COALESCE(status_updated_at, imported_at, added_at) WHERE status_updated_at IS NULL"@);
}

/// A table is made with its columns in their order, each with what it holds,
/// and with a comma and a space between them.
pub proof fn tables_are_made_column_by_column(
    columns: Seq<(Seq<char>, Seq<char>)>,
    name: Seq<char>,
    holds: Seq<char>,
)
    ensures
        ({
            let head = "CREATE TABLE IF NOT EXISTS history ("@;
            let short = create_table(columns);
            &&& create_table(seq![(name, holds)]) == head + name + " "@ + holds + ")"@
            &&& columns.len() > 0 ==> create_table(columns.push((name, holds))) == short.drop_last()
                + ", "@ + name + " "@ + holds + ")"@
        }),
{
    let head = "CREATE TABLE IF NOT EXISTS history ("@;
    let write = |c: (Seq<char>, Seq<char>)| c.0 + " "@ + c.1;
    reveal_strlit(")");
    let texts = columns.map_values(write);
    assert(seq![(name, holds)].map_values(write) =~= seq![name + " "@ + holds]);
    assert(columns.push((name, holds)).map_values(write) =~= texts.push(name + " "@ + holds));
    separators_stand_between_neighbours(texts, name + " "@ + holds, ", "@);
    assert(create_table(seq![(name, holds)]) =~= head + name + " "@ + holds + ")"@);
    if columns.len() > 0 {
        assert(create_table(columns).drop_last() =~= head + joined(texts, ", "@));
        assert(create_table(columns.push((name, holds))) =~= create_table(columns).drop_last()
            + ", "@ + name + " "@ + holds + ")"@);
    }
}

/// A new table numbers its rows by the first column, notes by itself when a row
/// was added, and holds texts in every other column.
pub proof fn new_tables_hold_texts(i: int)
    requires
        0 <= i < first_columns().len(),
    ensures
        ({
            let column = first_columns()[i];
            &&& column.0 == "id"@ <==> i == 0
            &&& i == 0 ==> column.1 == "INTEGER PRIMARY KEY"@
            &&& column.0 == "added_at"@ ==> column.1 == "TEXT DEFAULT (datetime('now'))"@
            &&& i > 0 && column.0 != "added_at"@ ==> column.1 == "TEXT"@
        }),
{
    reveal_strlit("id");
    reveal_strlit("mam_id");
    reveal_strlit("title");
    reveal_strlit("author");
    reveal_strlit("narrator");
    reveal_strlit("media_type");
    reveal_strlit("dl");
    reveal_strlit("added_at");
    reveal_strlit("imported_at");
    reveal_strlit("torrent_status");
    reveal_strlit("torrent_hash");
    let all = first_columns();
    assert(all.len() == 11);
    assert(all[0].0.len() == 2 && all[1].0.len() == 6 && all[2].0.len() == 5 && all[3].0.len() == 6);
    assert(all[4].0.len() == 8 && all[5].0.len() == 10 && all[6].0.len() == 2 && all[7].0.len()
        == 8);
    assert(all[8].0.len() == 11 && all[9].0.len() == 14 && all[10].0.len() == 12);
    assert("id"@[0] == 'i' && all[6].0[0] == 'd' && all[4].0[0] == 'n' && "added_at"@[0] == 'a');
    assert(i == 0 || i == 1 || i == 2 || i == 3 || i == 4 || i == 5 || i == 6 || i == 7 || i == 8
        || i == 9 || i == 10);
}

}
