use mam_audiofinder::auto_import::{
    auto_import_cycle, begin_item, begin_job, end_item, end_job, import_item, next_round, plan_row,
    reconcile_auto_import_task, ImportBody, ImportJob, ImportOutcome, RowPlan, Task, TaskChange,
};
use mam_audiofinder::error::AppError;
use mam_audiofinder::history::{HistoryItem, Target};
use mam_audiofinder::json::parse_json;
use mam_audiofinder::transmission::list_completed_torrents;

fn some(s: &str) -> Option<String> {
    Some(s.to_owned())
}

fn row(id: i64, hash: &str) -> HistoryItem {
    HistoryItem {
        id,
        mam_id: None,
        title: some("T"),
        author: some("A"),
        narrator: None,
        media_type: some("ebook"),
        dl: None,
        torrent_hash: some(hash),
        added_at: None,
        imported_at: None,
        torrent_status: some("added"),
        status_detail: None,
        status_updated_at: None,
    }
}

fn failed(plan: RowPlan) -> String {
    match plan {
        RowPlan::Fail { detail, .. } => detail,
        other => panic!("{:?}", other),
    }
}

fn job() -> ImportJob {
    match plan_row(&row(4, " h ")) {
        RowPlan::Import(job) => job,
        other => panic!("{:?}", other),
    }
}

#[test]
fn rows_are_imported_as_they_are_recorded() {
    let job = job();
    assert_eq!(job.history_id, 4);
    assert_eq!(job.torrent_hash, " h ");
    assert_eq!(job.author, "A");
    assert_eq!(job.title, "T");
    assert_eq!(job.media_type, "ebook");
    let mut plain = row(1, "h");
    plain.media_type = None;
    match plan_row(&plain) {
        RowPlan::Import(job) => assert_eq!(job.media_type, "audiobook"),
        other => panic!("{:?}", other),
    }
}

#[test]
fn incomplete_rows_fail() {
    let missing = "History row is missing author/title; use manual import.";
    let mut no_author = row(1, "h");
    no_author.author = some("  ");
    assert_eq!(failed(plan_row(&no_author)), missing);
    let mut no_title = row(1, "h");
    no_title.title = None;
    assert_eq!(failed(plan_row(&no_title)), missing);
    let mut unknown = row(1, "h");
    unknown.media_type = some("film");
    unknown.author = None;
    assert_eq!(failed(plan_row(&unknown)), "media_type must be audiobook or ebook");
}

#[test]
fn a_cycle_takes_the_waiting_rows_in_order() {
    let args = parse_json(
        r#"{"torrents": [{"hashString": "b", "percentDone": 1}, {"hashString": "a", "percentDone": 1}]}"#,
    )
    .unwrap();
    let completed = list_completed_torrents(&args, "");
    let mut blank = row(3, "b");
    blank.title = some("");
    let rows = vec![row(1, "x"), row(2, "a"), blank, row(4, "a"), row(5, "b")];
    let plans = auto_import_cycle(&completed, &rows);
    assert_eq!(plans.len(), 2);
    assert!(matches!(&plans[0], RowPlan::Import(job) if job.history_id == 2));
    assert!(matches!(&plans[1], RowPlan::Fail { history_id: 3, .. }));
    assert!(auto_import_cycle(&Vec::new(), &rows).is_empty());
}

#[test]
fn jobs_tell_the_history_how_they_go() {
    let change = begin_job(&job(), "now");
    assert_eq!((change.target, change.status.as_str()), (Target::Row(4), "importing"));
    let change = end_job(&job(), &ImportOutcome::Imported("/library/A/T".to_owned()), "now");
    assert_eq!((change.target, change.status.as_str()), (Target::Row(4), "imported"));
    assert_eq!(change.imported_at, some("now"));
    let transient = ImportOutcome::Failed(AppError::bad_gateway("Transmission RPC failed: x"));
    let change = end_job(&job(), &transient, "now");
    assert_eq!((change.status.as_str(), change.detail), ("added", None));
    let lasting = ImportOutcome::Failed(AppError::not_found("No files found for torrent"));
    let change = end_job(&job(), &lasting, "now");
    assert_eq!(change.status, "import_failed");
    assert_eq!(change.detail, some("No files found for torrent"));
}

fn by_hand(history_id: Option<i64>, media_type: Option<&str>) -> ImportBody {
    ImportBody {
        author: "A/B".to_owned(),
        title: "T".to_owned(),
        hash: "h".to_owned(),
        history_id,
        media_type: media_type.map(str::to_owned),
    }
}

#[test]
fn the_media_type_of_the_row_goes_first() {
    let request = import_item(&by_hand(Some(1), Some("ebook")), Some("Audio")).unwrap();
    assert_eq!(request.media_type, "audiobook");
    assert_eq!(request.author, "A\u{FE68}B");
    let request = import_item(&by_hand(None, Some("E-book")), None).unwrap();
    assert_eq!(request.media_type, "ebook");
    let request = import_item(&by_hand(None, None), None).unwrap();
    assert_eq!(request.media_type, "audiobook");
}

#[test]
fn imports_by_hand_of_unknown_media_types_are_refused() {
    assert_eq!(
        import_item(&by_hand(Some(1), Some("ebook")), Some("film")).unwrap_err().status.code(),
        400
    );
    assert_eq!(import_item(&by_hand(None, Some("film")), None).unwrap_err().status.code(), 400);
    assert!(import_item(&by_hand(Some(1), Some("film")), Some("ebook")).is_ok());
}

#[test]
fn imports_by_hand_tell_the_history() {
    let change = begin_item(&by_hand(Some(1), None), "now").unwrap();
    assert_eq!((change.target, change.status.as_str()), (Target::Row(1), "importing"));
    assert_eq!(begin_item(&by_hand(None, None), "now"), None);
    let done = ImportOutcome::Imported("d".to_owned());
    assert_eq!(end_item(&by_hand(Some(1), None), &done, "now").unwrap().target, Target::Row(1));
    assert_eq!(
        end_item(&by_hand(None, None), &done, "now").unwrap().target,
        Target::Torrent("h".to_owned())
    );
    let failed = ImportOutcome::Failed(AppError::bad_gateway("Transmission RPC failed: x"));
    let change = end_item(&by_hand(Some(1), None), &failed, "now").unwrap();
    assert_eq!(change.status, "import_failed");
    assert_eq!(change.detail, some("Transmission RPC failed: x"));
    assert_eq!(end_item(&by_hand(None, None), &failed, "now"), None);
}

#[test]
fn the_task_follows_its_switch() {
    let change = |stop, start| TaskChange { stop, start };
    assert_eq!(reconcile_auto_import_task(true, Task::Absent), change(false, true));
    assert_eq!(reconcile_auto_import_task(true, Task::Ended), change(true, true));
    assert_eq!(reconcile_auto_import_task(true, Task::Running), change(false, false));
    assert_eq!(reconcile_auto_import_task(false, Task::Absent), change(false, false));
    assert_eq!(reconcile_auto_import_task(false, Task::Running), change(true, false));
    assert_eq!(reconcile_auto_import_task(false, Task::Ended), change(true, false));
}

#[test]
fn rounds_go_on_while_they_are_enabled() {
    assert_eq!(next_round(true, 30), Some(30));
    assert_eq!(next_round(false, 30), None);
}
