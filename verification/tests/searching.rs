use mam_audiofinder::json::{parse_json, Json};
use serde_json::Value;
use mam_audiofinder::search::{
    read_result, read_search_reply, search, search_results, tracker_step, SearchReply, TrackerStep,
};
use mam_audiofinder::settings::{load_json_config, Environment, Settings};

fn read(s: &str) -> Json {
    parse_json(s).unwrap()
}

fn value(s: &str) -> Value {
    serde_json::from_str(s).unwrap()
}

fn settings(cookie: &str) -> Settings {
    let env = Environment {
        mam_base: Some("https://mam".to_owned()),
        mam_cookie: Some(cookie.to_owned()),
        transmission_url: None,
        transmission_user: None,
        transmission_pass: None,
        transmission_label: None,
        auto_import_enabled: None,
        auto_import_poll_interval: None,
        umask: None,
    };
    Settings::load(&load_json_config(None), &env)
}

#[test]
fn a_search_needs_a_cookie() {
    let e = search(&settings(" "), value("{}")).unwrap_err();
    assert_eq!((e.status.code(), e.detail.as_str()), (500, "MAM_COOKIE not set on server"));
}

#[test]
fn a_search_for_an_unknown_media_type_is_refused() {
    let e = search(&settings("c"), value(r#"{"media_type": "film"}"#)).unwrap_err();
    assert_eq!(e.status.code(), 400);
    assert!(search(&settings("c"), value(r#"{"media_type": 5}"#)).is_ok());
}

#[test]
fn a_search_has_defaults() {
    let request = search(&settings("c"), value("{}")).unwrap();
    assert_eq!(request.url, "https://mam/tor/js/loadSearchJSONbasic.php");
    assert_eq!(request.cookie, "mam_id=c");
    assert_eq!(request.media_type, "audiobook");
    assert_eq!(request.per_page, 25);
    let tor = &request.tor;
    assert_eq!(tor.get("text"), Some(&value("\"\"")));
    assert_eq!(tor.get("srchIn"), Some(&value(r#"["title", "author", "narrator"]"#)));
    assert_eq!(tor.get("searchType"), Some(&value("\"all\"")));
    assert_eq!(tor.get("sortType"), Some(&value("\"seedersDesc\"")));
    assert_eq!(tor.get("startNumber"), Some(&value("\"0\"")));
    assert_eq!(tor.get("main_cat"), Some(&value("[\"13\"]")));
    assert_eq!(tor.len(), 6);
}

#[test]
fn the_application_decides_on_its_own_terms() {
    let payload = value(
        r#"{"media_type": "E-Book", "perpage": "50",
            "tor": {"text": "dune", "srchIn": ["x"], "sortType": "y", "searchType": "z",
                    "main_cat": ["9"], "startNumber": "25", "lang": [1]}}"#,
    );
    let request = search(&settings("c"), payload).unwrap();
    assert_eq!(request.media_type, "ebook");
    assert_eq!(request.per_page, 50);
    let tor = &request.tor;
    assert_eq!(tor.get("text"), Some(&value("\"dune\"")));
    assert_eq!(tor.get("srchIn"), Some(&value(r#"["title", "author"]"#)));
    assert_eq!(tor.get("searchType"), Some(&value("\"all\"")));
    assert_eq!(tor.get("sortType"), Some(&value("\"seedersDesc\"")));
    assert_eq!(tor.get("startNumber"), Some(&value("\"25\"")));
    assert_eq!(tor.get("main_cat"), Some(&value("[\"14\"]")));
    assert_eq!(tor.get("lang"), Some(&value("[1]")));
    assert_eq!(tor.len(), 7);
}

#[test]
fn page_sizes_are_numbers_or_texts() {
    for (given, wanted) in [
        ("7", 7),
        ("\"+7\"", 7),
        ("-7", 25),
        ("7.5", 25),
        ("\" 7\"", 25),
        ("null", 25),
        ("0", 0),
    ] {
        let payload = value(&format!("{{\"perpage\": {}}}", given));
        assert_eq!(search(&settings("c"), payload).unwrap().per_page, wanted, "{}", given);
    }
}

#[test]
fn results_are_read() {
    let item = read(
        r#"{"id": 12, "title": "Dune MP3", "author_info": "{\"7\": \"Frank Herbert\"}",
            "narrator_info": "", "size": "1 GiB", "seeders": 3, "dl": "abc", "fl_vip": "1"}"#,
    );
    let result = read_result(&item, "audiobook");
    assert_eq!(result.id, "12");
    assert_eq!(result.title.as_deref(), Some("Dune MP3"));
    assert_eq!(result.author_info, "Frank Herbert");
    assert_eq!(result.narrator_info, "");
    assert_eq!(result.format, "MP3");
    assert_eq!(result.size, Some(read("\"1 GiB\"")));
    assert_eq!(result.seeders, Some(read("3")));
    assert_eq!(result.leechers, None);
    assert_eq!(result.catname, None);
    assert_eq!(result.added, None);
    assert_eq!(result.dl, Some(read("\"abc\"")));
    assert_eq!(result.media_type, "audiobook");
    assert!(result.is_freeleech && result.is_vip);
}

#[test]
fn results_fall_back_to_other_fields() {
    let result = read_result(&read(r#"{"tid": "9", "name": "N", "free": true}"#), "ebook");
    assert_eq!(result.id, "9");
    assert_eq!(result.title.as_deref(), Some("N"));
    assert!(result.is_freeleech && !result.is_vip);
    let result = read_result(&read(r#"{"id": null, "tid": "9", "title": 1, "name": "N"}"#), "ebook");
    assert_eq!(result.id, "");
    assert_eq!(result.title, None);
}

#[test]
fn responses_list_all_results_in_order() {
    let raw = read(r#"{"data": [{"id": 1}, 5, {"id": 2}], "total": 3}"#);
    let response = search_results(&raw, "ebook");
    let ids: Vec<String> = response.results.into_iter().map(|r| r.id).collect();
    assert_eq!(ids, vec!["1", "", "2"]);
    assert_eq!(response.total, Some(read("3")));
    assert_eq!(response.total_found, None);
    assert!(search_results(&read(r#"{"data": "x"}"#), "ebook").results.is_empty());
}

#[test]
fn replies_of_the_tracker_are_told_apart() {
    let failed = |reply: SearchReply| {
        let e = read_search_reply(&reply, "ebook").unwrap_err();
        assert_eq!(e.status.code(), 502);
        e.detail
    };
    assert_eq!(
        failed(SearchReply::Unreachable("timeout".to_owned())),
        "MAM request failed: timeout"
    );
    assert_eq!(
        failed(SearchReply::Unreadable("eof".to_owned())),
        "MAM returned non-JSON. Body parse failed: eof"
    );
    assert_eq!(
        failed(SearchReply::Refused { status: 403, body: "b".repeat(400) }),
        format!("MAM HTTP 403 Forbidden: {}", "b".repeat(300))
    );
    let answer = SearchReply::Answer(read(r#"{"data": [{"id": 1}]}"#));
    assert_eq!(read_search_reply(&answer, "ebook").unwrap().results.len(), 1);
}

#[test]
fn the_body_holds_the_search_and_the_page_size() {
    let request = search(&settings("c"), value(r#"{"perpage": 7, "tor": {"text": "dune"}}"#)).unwrap();
    let body = request.body();
    let keys: Vec<&String> = body.keys().collect();
    assert_eq!(keys, vec!["perpage", "tor"]);
    assert_eq!(body.get("perpage"), Some(&value("7")));
    let tor = body.get("tor").unwrap();
    assert_eq!(tor.get("text"), Some(&value("\"dune\"")));
    assert_eq!(tor.get("searchType"), Some(&value("\"all\"")));
    let most = format!("{{\"perpage\": {}}}", u64::MAX);
    let body = search(&settings("c"), value(&most)).unwrap().body();
    assert_eq!(body.get("perpage").unwrap().as_u64(), Some(u64::MAX));
}

#[test]
fn payloads_that_are_no_object_count_as_empty() {
    let request = search(&settings("c"), value("[1]")).unwrap();
    assert_eq!((request.tor.len(), request.per_page), (6, 25));
    let request = search(&settings("c"), value(r#"{"tor": "x"}"#)).unwrap();
    assert_eq!(request.tor.len(), 6);
}

#[test]
fn only_plain_success_is_read() {
    assert_eq!(tracker_step(200), TrackerStep::ReadBody);
    for status in [100, 201, 204, 302, 403, 500] {
        assert_eq!(tracker_step(status), TrackerStep::Refused);
    }
}
