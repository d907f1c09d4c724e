use mam_audiofinder::json::{json_from_value, parse_json, Json};
use mam_audiofinder::settings::{load_json_config, Environment, Settings};
use mam_audiofinder::transmission::{
    list_completed_torrents, listing_arguments, read_completed, read_rpc_data, read_rpc_value,
    rpc_payload, rpc_refused, rpc_unreadable, torrent_add_arguments, torrent_hash_from_add_result,
    transmission_auth, transmission_labels, transmission_rpc, RpcReply, RpcState, RpcStep,
};

fn read(s: &str) -> Json {
    parse_json(s).unwrap()
}

fn settings(user: &str, pass: &str, label: &str) -> Settings {
    let env = Environment {
        mam_base: None,
        mam_cookie: None,
        transmission_url: None,
        transmission_user: Some(user.to_owned()),
        transmission_pass: Some(pass.to_owned()),
        transmission_label: Some(label.to_owned()),
        auto_import_enabled: None,
        auto_import_poll_interval: None,
        umask: None,
    };
    Settings::load(&load_json_config(None), &env)
}

#[test]
fn credentials_are_sent_where_any_is_set() {
    assert_eq!(transmission_auth(&settings("", "", "")), None);
    assert_eq!(
        transmission_auth(&settings("u", "", "")),
        Some(("u".to_owned(), String::new()))
    );
    assert_eq!(
        transmission_auth(&settings("", "p", "")),
        Some((String::new(), "p".to_owned()))
    );
}

#[test]
fn torrents_are_labelled() {
    assert_eq!(transmission_labels(&settings("", "", "l"), "7"), vec!["l", "mamid=7"]);
    assert_eq!(transmission_labels(&settings("", "", "l"), ""), vec!["l"]);
    assert_eq!(transmission_labels(&settings("", "", ""), "7"), vec!["mamid=7"]);
    assert!(transmission_labels(&settings("", "", ""), "").is_empty());
}

#[test]
fn torrents_are_added_with_their_labels() {
    let args = torrent_add_arguments(&settings("", "", "l"), "7", "filename", "url");
    assert_eq!(
        json_from_value(args.into()),
        read(r#"{"filename": "url", "labels": ["l", "mamid=7"]}"#)
    );
    let args = torrent_add_arguments(&settings("", "", ""), "", "metainfo", "m");
    assert_eq!(json_from_value(args.into()), read(r#"{"metainfo": "m"}"#));
}

#[test]
fn added_torrents_are_found_by_their_label() {
    let settings = settings("", "", "l");
    let args = torrent_add_arguments(&settings, "7", "filename", "url");
    let labels = json_from_value(args.get("labels").unwrap().clone());
    let torrent = Json::Object(vec![
        ("labels".to_owned(), labels),
        ("percentDone".to_owned(), read("1")),
        ("hashString".to_owned(), read("\"h\"")),
    ]);
    assert!(read_completed(&torrent, "l").is_some());
    assert!(read_completed(&torrent, "other").is_none());
}

#[test]
fn hashes_of_new_and_known_torrents_are_read() {
    let hash = |s: &str| torrent_hash_from_add_result(&read(s));
    assert_eq!(hash(r#"{"torrent-added": {"hashString": "a"}}"#), Some("a".to_owned()));
    assert_eq!(hash(r#"{"torrent-duplicate": {"hashString": "b"}}"#), Some("b".to_owned()));
    assert_eq!(
        hash(r#"{"torrent-added": {}, "torrent-duplicate": {"hashString": "b"}}"#),
        None
    );
    assert_eq!(hash("{}"), None);
}

#[test]
fn payloads_have_a_method_and_arguments() {
    let mut args = serde_json::Map::new();
    args.insert("a".to_owned(), serde_json::Value::from(1));
    assert_eq!(
        json_from_value(rpc_payload("m", Some(args)).into()),
        read(r#"{"arguments": {"a": 1}, "method": "m"}"#)
    );
    assert_eq!(
        json_from_value(rpc_payload("m", None).into()),
        read(r#"{"arguments": {}, "method": "m"}"#)
    );
}

fn answered(status: u16, session: Option<&str>) -> RpcReply {
    RpcReply::Answered { status, session_id: session.map(|s| s.as_bytes().to_vec()) }
}

#[test]
fn a_conflict_is_answered_with_the_session_once() {
    match transmission_rpc(RpcState::Sent, answered(409, Some("s"))) {
        RpcStep::Resend(id) => assert_eq!(id, b"s".to_vec()),
        _ => unreachable!(),
    }
    assert!(matches!(
        transmission_rpc(RpcState::Resent, answered(409, Some("s"))),
        RpcStep::ReadRefusal
    ));
    assert!(matches!(
        transmission_rpc(RpcState::Sent, answered(409, None)),
        RpcStep::ReadRefusal
    ));
}

#[test]
fn answers_are_read_by_their_status() {
    for state in [RpcState::Sent, RpcState::Resent] {
        assert!(matches!(transmission_rpc(state, answered(200, Some("s"))), RpcStep::ReadJson));
        assert!(matches!(transmission_rpc(state, answered(401, None)), RpcStep::ReadRefusal));
        match transmission_rpc(state, RpcReply::Unreachable("refused".to_owned())) {
            RpcStep::Fail(e) => {
                assert_eq!(e.status.code(), 502);
                assert_eq!(e.detail, "Transmission RPC failed: refused");
            }
            _ => unreachable!(),
        }
    }
}

#[test]
fn refusals_quote_the_answer() {
    let e = rpc_refused(401, &"x".repeat(200));
    assert_eq!(e.status.code(), 502);
    assert_eq!(
        e.detail,
        format!("Transmission RPC failed: 401 Unauthorized {}", "x".repeat(160))
    );
    assert_eq!(rpc_unreadable("eof").detail, "Transmission returned non-JSON: eof");
}

#[test]
fn successful_calls_give_their_arguments() {
    let value: serde_json::Value =
        serde_json::from_str(r#"{"result": "success", "arguments": {"a": 1}}"#).unwrap();
    assert_eq!(read_rpc_value("m", value).unwrap(), read(r#"{"a": 1}"#));
    let value: serde_json::Value = serde_json::from_str(r#"{"result": "success"}"#).unwrap();
    assert_eq!(read_rpc_value("m", value).unwrap(), read("{}"));
}

#[test]
fn failed_calls_quote_their_result() {
    let failed = |s: &str| {
        let e = read_rpc_value("torrent-add", serde_json::from_str(s).unwrap()).unwrap_err();
        assert_eq!(e.status.code(), 502);
        e.detail
    };
    assert_eq!(
        failed(r#"{"result": "no \"such\" file"}"#),
        r#"Transmission torrent-add failed: "no \"such\" file""#
    );
    assert_eq!(failed(r#"{"result": {"b": 1}}"#), r#"Transmission torrent-add failed: {"b":1}"#);
    assert_eq!(failed("{}"), "Transmission torrent-add failed: unknown");
    assert_eq!(failed("[1]"), "Transmission torrent-add failed: unknown");
    let e = read_rpc_data("m", &read(r#"{"result": 1}"#), Some("1")).unwrap_err();
    assert_eq!(e.detail, "Transmission m failed: 1");
}

#[test]
fn the_listing_asks_for_what_it_reads() {
    assert_eq!(
        json_from_value(listing_arguments().into()),
        read(
            r#"{"fields": ["id", "hashString", "name", "percentDone", "downloadDir", "totalSize",
                           "addedDate", "labels", "files"]}"#
        )
    );
}

#[test]
fn finished_torrents_are_listed() {
    let args = read(
        r#"{"torrents": [
            {"hashString": "a", "labels": ["l"], "percentDone": 1, "name": "A",
             "downloadDir": "/downloads", "totalSize": 9, "addedDate": 8,
             "files": [{"name": "/Top/x.mp3"}, {"name": "Other/y.mp3"}]},
            {"hashString": "b", "labels": ["l"], "percentDone": 0.99},
            {"hashString": "c", "labels": ["k"], "percentDone": 1.0},
            {"labels": ["l"], "percentDone": 1.0},
            {"hashString": "d", "labels": [3, "l"], "percentDone": 1.0, "name": "D",
             "files": [{"name": "d.m4b"}]},
            {"hashString": "e", "labels": ["l"]}
        ]}"#,
    );
    let listed = list_completed_torrents(&args, "l");
    assert_eq!(listed.len(), 2);
    assert_eq!(listed[0].hash, "a");
    assert_eq!(listed[0].name.as_deref(), Some("A"));
    assert_eq!(listed[0].download_dir.as_deref(), Some("/downloads"));
    assert_eq!(listed[0].root, "Top");
    assert!(!listed[0].single_file);
    assert_eq!(listed[0].size, Some(read("9")));
    assert_eq!(listed[0].added_on, Some(read("8")));
    assert_eq!(listed[1].hash, "d");
    assert_eq!(listed[1].root, "D");
    assert!(listed[1].single_file);
    assert_eq!(listed[1].size, None);
    assert_eq!(list_completed_torrents(&args, "").len(), 3);
    assert!(list_completed_torrents(&read("{}"), "").is_empty());
}

#[test]
fn torrents_are_complete_from_one_on() {
    for (done, complete) in [
        ("1", true),
        ("1.0", true),
        ("2.5", true),
        ("0.999999", false),
        ("0", false),
        ("-1", false),
        ("-0.5", false),
        ("1e300", true),
        ("\"1\"", false),
        ("null", false),
    ] {
        let torrent = read(&format!("{{\"hashString\": \"h\", \"percentDone\": {}}}", done));
        assert_eq!(read_completed(&torrent, "").is_some(), complete, "{}", done);
    }
}
