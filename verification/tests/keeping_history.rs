use mam_audiofinder::history::{
    create_history_table, ensure_history_schema, get_auto_import_candidates, get_history_media_type, insert_history,
    mark_history_failed, mark_history_imported, update_history_status, utcnow_str, AddedBook,
    HistoryItem, Target,
};

fn some(s: &str) -> Option<String> {
    Some(s.to_owned())
}

fn row(id: i64, hash: Option<&str>, status: Option<&str>) -> HistoryItem {
    HistoryItem {
        id,
        mam_id: some("7"),
        title: some("T"),
        author: some("A"),
        narrator: None,
        media_type: some("audiobook"),
        dl: None,
        torrent_hash: hash.map(str::to_owned),
        added_at: None,
        imported_at: None,
        torrent_status: status.map(str::to_owned),
        status_detail: None,
        status_updated_at: None,
    }
}

fn book(media_type: &str) -> AddedBook {
    AddedBook {
        mam_id: "7".to_owned(),
        title: "T".to_owned(),
        author: "A".to_owned(),
        narrator: "N".to_owned(),
        media_type: media_type.to_owned(),
        dl: "d".to_owned(),
    }
}

#[test]
fn moments_are_written_in_utc() {
    assert_eq!(utcnow_str(0), some("1970-01-01 00:00:00"));
    assert_eq!(utcnow_str(1_700_000_000), some("2023-11-14 22:13:20"));
    assert_eq!(utcnow_str(-1), some("1969-12-31 23:59:59"));
    assert_eq!(utcnow_str(i64::MAX), None);
}

#[test]
fn new_rows_are_added_now() {
    let new = insert_history(&book("Ebooks"), some("h"), "now").unwrap();
    assert_eq!(new.mam_id, "7");
    assert_eq!(new.title, "T");
    assert_eq!(new.author, "A");
    assert_eq!(new.narrator, "N");
    assert_eq!(new.media_type, "ebook");
    assert_eq!(new.dl, "d");
    assert_eq!(new.torrent_status, "added");
    assert_eq!(new.torrent_hash, some("h"));
    assert_eq!(new.added_at, "now");
    assert_eq!(new.status_detail, None);
    assert_eq!(new.status_updated_at, "now");
    assert_eq!(insert_history(&book("film"), None, "now").unwrap_err().status.code(), 400);
}

#[test]
fn changes_of_status_are_for_one_row() {
    let change = update_history_status(3, "importing", Some(" a \n b "), None, "now");
    assert_eq!(change.target, Target::Row(3));
    assert_eq!(change.status, "importing");
    assert_eq!(change.detail, some("a b"));
    assert_eq!(change.updated_at, "now");
    assert_eq!(change.imported_at, None);
    let change = update_history_status(3, "added", None, Some("then"), "now");
    assert_eq!(change.imported_at, some("then"));
    assert_eq!(change.detail, None);
}

#[test]
fn imports_are_marked_by_row_or_by_torrent() {
    let change = mark_history_imported(Some(3), "h", "now");
    assert_eq!(change.target, Target::Row(3));
    assert_eq!(change.status, "imported");
    assert_eq!(change.detail, None);
    assert_eq!(change.imported_at, some("now"));
    assert_eq!(mark_history_imported(None, "h", "now").target, Target::Torrent("h".to_owned()));
    let change = mark_history_failed(None, "h", "why\n", "now");
    assert_eq!(change.target, Target::Torrent("h".to_owned()));
    assert_eq!(change.status, "import_failed");
    assert_eq!(change.detail, some("why"));
    assert_eq!(change.imported_at, None);
    assert_eq!(mark_history_failed(Some(3), "h", "", "now").detail, None);
}

#[test]
fn stored_media_types_are_read() {
    assert_eq!(get_history_media_type(None).unwrap(), None);
    assert_eq!(get_history_media_type(Some(" Audio ")).unwrap(), some("audiobook"));
    assert_eq!(get_history_media_type(Some("film")).unwrap_err().status.code(), 400);
}

fn candidate_ids(rows: Vec<HistoryItem>, completed: &[&str]) -> Vec<i64> {
    let completed: Vec<String> = completed.iter().map(|h| (*h).to_owned()).collect();
    get_auto_import_candidates(&rows, &completed).into_iter().map(|row| row.id).collect()
}

#[test]
fn waiting_rows_are_candidates() {
    let rows = vec![
        row(1, Some("a"), Some("added")),
        row(2, Some("b"), None),
        row(3, Some("c"), Some("other")),
        row(4, Some("missing"), Some("added")),
        row(5, None, Some("added")),
        row(6, Some("  "), Some("added")),
        row(7, Some(" d "), Some("")),
    ];
    assert_eq!(candidate_ids(rows, &["a", "b", "c", "d", ""]), vec![1, 2, 3, 7]);
}

#[test]
fn settled_rows_are_no_candidates() {
    let rows = vec![
        row(1, Some("a"), Some("imported")),
        row(2, Some("b"), Some("import_failed")),
        row(3, Some("c"), Some("importing")),
    ];
    assert!(candidate_ids(rows, &["a", "b", "c"]).is_empty());
}

#[test]
fn there_is_one_candidate_for_each_torrent() {
    let rows = vec![
        row(1, Some("a"), Some("imported")),
        row(2, Some("a "), Some("added")),
        row(3, Some("a"), Some("added")),
        row(4, Some("b"), Some("added")),
    ];
    assert_eq!(candidate_ids(rows, &["a", "b"]), vec![2, 4]);
    assert!(candidate_ids(vec![row(1, Some("a"), None)], &[]).is_empty());
}

#[test]
fn the_table_is_made_with_its_columns() {
    assert_eq!(
        create_history_table(),
        "CREATE TABLE IF NOT EXISTS history (id INTEGER PRIMARY KEY, mam_id TEXT, title TEXT, \
         author TEXT, narrator TEXT, media_type TEXT, dl TEXT, \
         added_at TEXT DEFAULT (datetime('now')), imported_at TEXT, torrent_status TEXT, \
         torrent_hash TEXT)"
    );
}

#[test]
fn missing_columns_are_added() {
    let columns: Vec<String> = ["id", "status_updated_at"].iter().map(|c| (*c).to_owned()).collect();
    let statements = ensure_history_schema(&columns);
    assert_eq!(
        statements,
        vec![
            "ALTER TABLE history ADD COLUMN status_detail TEXT",
            "ALTER TABLE history ADD COLUMN media_type TEXT",
            "UPDATE history SET media_type = 'audiobook' WHERE media_type IS NULL OR trim(media_type) = ''",
            "UPDATE history SET torrent_status = 'added' WHERE torrent_status IS NULL OR trim(torrent_status) = ''",
            "UPDATE history SET status_updated_at = COALESCE(status_updated_at, imported_at, added_at) WHERE status_updated_at IS NULL",
        ]
    );
}

#[test]
fn complete_tables_get_no_column() {
    let columns: Vec<String> = ["media_type", "status_detail", "status_updated_at"]
        .iter()
        .map(|c| (*c).to_owned())
        .collect();
    let statements = ensure_history_schema(&columns);
    assert_eq!(statements.len(), 3);
    assert!(statements.iter().all(|s| s.starts_with("UPDATE")));
}

#[test]
fn rows_are_copied_in_full() {
    let row = HistoryItem {
        id: 1,
        mam_id: some("a"),
        title: some("b"),
        author: some("c"),
        narrator: some("d"),
        media_type: some("e"),
        dl: some("f"),
        torrent_hash: some("g"),
        added_at: some("h"),
        imported_at: some("i"),
        torrent_status: some("j"),
        status_detail: some("k"),
        status_updated_at: some("l"),
    };
    assert_eq!(format!("{:?}", row.copy()), format!("{:?}", row));
}
