use mam_audiofinder::error::AppError;
use mam_audiofinder::import::{
    import_torrent_to_library, is_transient_auto_import_error, plan_copies, request_import,
    validate_download_path, FileCopy, ImportPlan,
};
use mam_audiofinder::json::{json_from_value, parse_json, Json};

fn read(s: &str) -> Json {
    parse_json(s).unwrap()
}

fn answer(dir: &str, names: &[&str]) -> Json {
    let files: Vec<String> = names.iter().map(|n| format!("{{\"name\": \"{}\"}}", n)).collect();
    read(&format!(
        "{{\"torrents\": [{{\"downloadDir\": \"{}\", \"files\": [{}]}}]}}",
        dir,
        files.join(", ")
    ))
}

fn plan_for(media_type: &str, dir: &str, names: &[&str]) -> ImportPlan {
    let request = request_import("An Author", "A Title", "h", media_type).unwrap();
    import_torrent_to_library(&request, &answer(dir, names)).unwrap()
}

fn copy(from: &str, to: &str) -> FileCopy {
    FileCopy { from: from.to_owned(), to: to.to_owned() }
}

#[test]
fn downloads_have_to_be_visible() {
    assert_eq!(validate_download_path("  ").unwrap(), "");
    assert_eq!(validate_download_path(" /downloads ").unwrap(), "/downloads");
    for p in ["/downloads/x", "/downloads/a/../b", "/downloads/..//downloads/x", "/downloads/a/.."] {
        assert_eq!(validate_download_path(p).unwrap(), p);
    }
    for p in ["/downloadsx", "/data", "downloads", "/", "/downloads/../etc", "/downloads/.."] {
        let e = validate_download_path(p).unwrap_err();
        assert_eq!(e.status.code(), 400);
        assert_eq!(
            e.detail,
            format!(
                "Transmission reports downloadDir '{}', but this app expects completed downloads under /downloads. Mount the same downloads directory at /downloads in both containers.",
                p
            )
        );
    }
}

#[test]
fn requests_name_the_torrent_and_the_directories() {
    let request = request_import(" A: B ", "", "abc", "E-Books").unwrap();
    assert_eq!(request.author, "A - B");
    assert_eq!(request.title, "Unknown");
    assert_eq!(request.media_type, "ebook");
    assert_eq!(
        json_from_value(request.arguments.into()),
        read(
            r#"{"fields": ["id", "hashString", "name", "downloadDir", "labels", "files"],
                "ids": ["abc"]}"#
        )
    );
    assert_eq!(request_import("a", "t", "h", "film").unwrap_err().status.code(), 400);
}

#[test]
fn plans_say_where_the_files_belong() {
    let plan = plan_for("audiobook", " /downloads/mam ", &["//Book/a.mp3", "Book/b.mp3"]);
    assert_eq!(plan.source_dir, "/downloads/mam");
    assert_eq!(plan.author_dir, "/library/An Author");
    assert_eq!(plan.book_dir, "/library/An Author/A Title");
    assert_eq!(plan.names, vec!["Book/a.mp3", "Book/b.mp3"]);
    assert_eq!(plan_for("ebook", "/downloads", &["a"]).book_dir, "/ebooks/An Author/A Title");
}

#[test]
fn torrents_without_files_are_not_found() {
    let request = request_import("a", "t", "h", "ebook").unwrap();
    let failed = |args: &str| {
        let e = import_torrent_to_library(&request, &read(args)).unwrap_err();
        (e.status.code(), e.detail)
    };
    let no_files = (404, "No files found for torrent".to_owned());
    assert_eq!(failed("{}"), no_files);
    assert_eq!(failed(r#"{"torrents": []}"#), no_files);
    assert_eq!(failed(r#"{"torrents": [{"files": []}]}"#), no_files);
    let no_directory = (404, "Torrent download directory not found".to_owned());
    assert_eq!(failed(r#"{"torrents": [{"files": [1]}]}"#), no_directory);
    assert_eq!(failed(r#"{"torrents": [{"files": [1], "downloadDir": " "}]}"#), no_directory);
    assert_eq!(failed(r#"{"torrents": [{"files": [1], "downloadDir": "/tmp"}]}"#).0, 400);
}

#[test]
fn files_lose_the_directory_they_share() {
    let plan = plan_for(
        "audiobook",
        "/downloads",
        &["Book/01.mp3", "Book/cd2/02.mp3", "Book/book.CUE", "cover.jpg"],
    );
    assert_eq!(
        plan_copies(&plan, "/library/A/T").unwrap(),
        vec![
            copy("/downloads/Book/01.mp3", "/library/A/T/01.mp3"),
            copy("/downloads/Book/cd2/02.mp3", "/library/A/T/cd2/02.mp3"),
            copy("/downloads/cover.jpg", "/library/A/T/cover.jpg"),
        ]
    );
}

#[test]
fn files_of_several_directories_keep_them() {
    let plan = plan_for("audiobook", "/downloads", &["a/1.mp3", "b/2.mp3", "b/"]);
    assert_eq!(
        plan_copies(&plan, "/library/A/T").unwrap(),
        vec![
            copy("/downloads/a/1.mp3", "/library/A/T/a/1.mp3"),
            copy("/downloads/b/2.mp3", "/library/A/T/b/2.mp3"),
            copy("/downloads/b/", "/library/A/T/b/"),
        ]
    );
}

#[test]
fn the_shared_directory_itself_is_not_copied() {
    let plan = plan_for("audiobook", "/downloads", &["Book/", "Book/1.mp3"]);
    assert_eq!(
        plan_copies(&plan, "/library/A/T").unwrap(),
        vec![copy("/downloads/Book/1.mp3", "/library/A/T/1.mp3")]
    );
}

#[test]
fn a_single_file_goes_right_into_the_directory() {
    let plan = plan_for("ebook", "/downloads", &["deep/down/book.epub"]);
    assert_eq!(
        plan_copies(&plan, "/ebooks/A/T").unwrap(),
        vec![copy("/downloads/deep/down/book.epub", "/ebooks/A/T/book.epub")]
    );
}

#[test]
fn names_may_lead_up_inside_the_downloads_and_the_library() {
    let plan = plan_for("audiobook", "/downloads", &["a/../b.mp3"]);
    assert_eq!(
        plan_copies(&plan, "/library/A/T").unwrap(),
        vec![copy("/downloads/a/../b.mp3", "/library/A/T/b.mp3")]
    );
    let plan = plan_for("audiobook", "/downloads/x", &["../1.mp3", "a/b/../2.mp3", "c/3.mp3"]);
    assert_eq!(
        plan_copies(&plan, "/library/A/T").unwrap(),
        vec![
            copy("/downloads/x/../1.mp3", "/library/A/1.mp3"),
            copy("/downloads/x/a/b/../2.mp3", "/library/A/T/a/2.mp3"),
            copy("/downloads/x/c/3.mp3", "/library/A/T/c/3.mp3"),
        ]
    );
}

#[test]
fn files_outside_the_downloads_or_the_library_are_left_behind() {
    let plan = plan_for("audiobook", "/downloads", &["../x.mp3", "Book/1.mp3"]);
    assert_eq!(plan.names.len(), 2);
    assert_eq!(
        plan_copies(&plan, "/library/A/T").unwrap(),
        vec![copy("/downloads/Book/1.mp3", "/library/A/T/Book/1.mp3")]
    );
    let plan = plan_for(
        "ebook",
        "/downloads/a/b/c/d",
        &["x/1", "../../../1.epub", "../../2.epub", "../3.epub", "y/.."],
    );
    assert_eq!(
        plan_copies(&plan, "/ebooks/A/T").unwrap(),
        vec![
            copy("/downloads/a/b/c/d/x/1", "/ebooks/A/T/x/1"),
            copy("/downloads/a/b/c/d/../../2.epub", "/ebooks/2.epub"),
            copy("/downloads/a/b/c/d/../3.epub", "/ebooks/A/3.epub"),
            copy("/downloads/a/b/c/d/y/..", "/ebooks/A/T"),
        ]
    );
    for name in ["../x.mp3", "deep/..", "."] {
        let plan = plan_for("ebook", "/downloads", &[name]);
        let e = plan_copies(&plan, "/ebooks/A/T").unwrap_err();
        assert_eq!(e.detail, "No importable files found");
    }
}

#[test]
fn names_below_the_shared_directory_are_relative() {
    let plan = plan_for("ebook", "/downloads", &["Book//etc/x", "Book/a.epub", "Book//"]);
    assert_eq!(
        plan_copies(&plan, "/ebooks/A/T").unwrap(),
        vec![
            copy("/downloads/Book//etc/x", "/ebooks/A/T/etc/x"),
            copy("/downloads/Book/a.epub", "/ebooks/A/T/a.epub"),
        ]
    );
}

#[test]
fn authors_and_titles_do_not_lead_out_of_the_library() {
    for name in [".", "..", " .. "] {
        let request = request_import(name, name, "h", "audiobook").unwrap();
        let plan =
            import_torrent_to_library(&request, &answer("/downloads", &["a.mp3"])).unwrap();
        assert_eq!(plan.author_dir, "/library/Unknown");
        assert_eq!(plan.book_dir, "/library/Unknown/Unknown");
    }
}

#[test]
fn cue_sheets_alone_are_nothing_to_import() {
    let e = plan_copies(&plan_for("audiobook", "/downloads", &["a.cue"]), "/x").unwrap_err();
    assert_eq!(
        (e.status.code(), e.detail.as_str()),
        (400, "Only .cue file found; nothing to import")
    );
    let plan = plan_for("audiobook", "/downloads", &["a.cue", "b.Cue"]);
    let e = plan_copies(&plan, "/x").unwrap_err();
    assert_eq!((e.status.code(), e.detail.as_str()), (400, "No importable files found"));
}

#[test]
fn files_without_a_name_are_not_importable() {
    let request = request_import("a", "t", "h", "ebook").unwrap();
    let args = read(r#"{"torrents": [{"files": [{}, {"name": 1}], "downloadDir": "/downloads"}]}"#);
    let plan = import_torrent_to_library(&request, &args).unwrap();
    assert!(plan.names.is_empty());
    assert_eq!(plan_copies(&plan, "/x").unwrap_err().detail, "No importable files found");
}

#[test]
fn imports_go_from_the_downloads_into_the_library() {
    let plan = plan_for("audiobook", "/downloads/", &["Book/a.mp3", "Book/b.mp3"]);
    for c in plan_copies(&plan, &plan.book_dir).unwrap() {
        assert!(c.from.starts_with("/downloads/"), "{}", c.from);
        assert!(c.to.starts_with("/library/"), "{}", c.to);
    }
}

#[test]
fn only_failures_of_transmission_pass() {
    assert!(is_transient_auto_import_error(&AppError::bad_gateway("Transmission RPC failed: x")));
    assert!(!is_transient_auto_import_error(&AppError::bad_gateway("MAM request failed")));
    assert!(!is_transient_auto_import_error(&AppError::bad_request("Transmission reports")));
    assert!(!is_transient_auto_import_error(&AppError::internal("Transmission")));
}
