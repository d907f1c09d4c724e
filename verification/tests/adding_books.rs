use mam_audiofinder::adding::{
    add_to_transmission, read_book, AddBody, AddCall, AddFetch, AddStep, FetchReply,
};
use mam_audiofinder::error::AppError;
use mam_audiofinder::json::{json_from_value, parse_json, Json};
use mam_audiofinder::settings::{load_json_config, Environment, Settings};

fn some(s: &str) -> Option<String> {
    Some(s.to_owned())
}

fn read(s: &str) -> Json {
    parse_json(s).unwrap()
}

fn settings() -> Settings {
    let env = Environment {
        mam_base: some("https://mam"),
        mam_cookie: None,
        transmission_url: None,
        transmission_user: None,
        transmission_pass: None,
        transmission_label: some("l"),
        auto_import_enabled: None,
        auto_import_poll_interval: None,
        umask: None,
    };
    Settings::load(&load_json_config(None), &env)
}

fn body(id: Option<&str>, dl: Option<&str>) -> AddBody {
    AddBody {
        id: id.map(read),
        title: some(" T "),
        dl: dl.map(str::to_owned),
        author: some(" A "),
        narrator: None,
        media_type: None,
    }
}

fn call(step: AddStep) -> AddCall {
    match step {
        AddStep::Call(call) => call,
        other => panic!("{:?}", other),
    }
}

fn fetch(step: AddStep) -> AddFetch {
    match step {
        AddStep::Fetch(fetch) => fetch,
        other => panic!("{:?}", other),
    }
}

fn failure(step: AddStep) -> (u16, String) {
    match step {
        AddStep::Fail(e) => (e.status.code(), e.detail),
        other => panic!("{:?}", other),
    }
}

const NOT_FETCHED: &str = "Could not fetch .torrent from MAM (no dl hash and cookie fetch failed).";

#[test]
fn books_are_read_without_white_space() {
    let book = read_book(&body(Some("\" 7 \""), Some(" d "))).unwrap();
    assert_eq!(book.mam_id, "7");
    assert_eq!(book.title, "T");
    assert_eq!(book.author, "A");
    assert_eq!(book.narrator, "");
    assert_eq!(book.media_type, "audiobook");
    assert_eq!(book.dl, "d");
}

#[test]
fn books_need_an_id_or_a_link() {
    let missing = (400, "Missing MAM id and dl; need at least one".to_owned());
    assert_eq!(failure(add_to_transmission(&settings(), &body(None, None))), missing);
    assert_eq!(failure(add_to_transmission(&settings(), &body(Some("\" \""), Some(" ")))), missing);
    let mut unknown = body(None, None);
    unknown.media_type = some("film");
    assert_eq!(
        failure(add_to_transmission(&settings(), &unknown)),
        (400, "media_type must be audiobook or ebook".to_owned())
    );
}

#[test]
fn a_direct_link_goes_to_transmission() {
    let step = call(add_to_transmission(&settings(), &body(Some("7"), Some("abc"))));
    assert_eq!(
        json_from_value(step.arguments.clone().into()),
        read(r#"{"filename": "https://mam/tor/download.php/abc", "labels": ["l", "mamid=7"]}"#)
    );
    match step.answered(Ok(read(r#"{"torrent-added": {"hashString": "h"}}"#))) {
        AddStep::Record(book, hash) => {
            assert_eq!(book.mam_id, "7");
            assert_eq!(book.dl, "abc");
            assert_eq!(hash, some("h"));
        }
        other => panic!("{:?}", other),
    }
}

#[test]
fn a_refused_link_without_an_id_is_a_failure() {
    let step = call(add_to_transmission(&settings(), &body(None, Some("abc"))));
    let refused = step.answered(Err(AppError::bad_gateway("Transmission RPC failed: x")));
    assert_eq!(failure(refused), (502, "Transmission RPC failed: x".to_owned()));
}

#[test]
fn a_refused_link_is_followed_by_the_tracker() {
    let step = call(add_to_transmission(&settings(), &body(Some("7"), Some("abc"))));
    let step = fetch(step.answered(Err(AppError::bad_gateway("x"))));
    assert_eq!(step.link, "https://mam/tor/download.php?id=7");
    let step = fetch(step.answered(&settings(), FetchReply::Refused));
    assert_eq!(step.link, "https://mam/tor/download.php?tid=7");
    let step = call(step.answered(&settings(), FetchReply::Torrent(b"foob".to_vec())));
    assert_eq!(
        json_from_value(step.arguments.clone().into()),
        read(r#"{"metainfo": "Zm9vYg==", "labels": ["l", "mamid=7"]}"#)
    );
    let refused = step.answered(Err(AppError::bad_gateway("Transmission said no")));
    assert_eq!(failure(refused), (502, "Transmission said no".to_owned()));
}

#[test]
fn books_without_a_link_are_fetched_from_the_tracker() {
    let step = fetch(add_to_transmission(&settings(), &body(Some("7"), None)));
    assert_eq!(step.links, vec!["https://mam/tor/download.php?tid=7"]);
    let step = fetch(step.answered(&settings(), FetchReply::Torrent(Vec::new())));
    let none = step.answered(&settings(), FetchReply::Refused);
    assert_eq!(failure(none), (502, NOT_FETCHED.to_owned()));
}

#[test]
fn failures_of_the_tracker_are_told_apart() {
    let first = || fetch(add_to_transmission(&settings(), &body(Some("7"), None)));
    assert_eq!(
        failure(first().answered(&settings(), FetchReply::Unreachable("timeout".to_owned()))),
        (502, "MAM request failed: timeout".to_owned())
    );
    assert_eq!(
        failure(first().answered(&settings(), FetchReply::Unreadable("reset".to_owned()))),
        (502, "MAM torrent body failed: reset".to_owned())
    );
}

#[test]
fn torrents_are_sent_in_base64() {
    for (bytes, text) in [
        (vec![0u8], "AA=="),
        (vec![0xff, 0xef], "/+8="),
        (vec![b'M', b'a', b'n'], "TWFu"),
        (vec![0xfb, 0xff, 0xbf, 0x3f], "+/+/Pw=="),
    ] {
        let step = fetch(add_to_transmission(&settings(), &body(Some("7"), None)));
        let step = call(step.answered(&settings(), FetchReply::Torrent(bytes)));
        assert_eq!(step.arguments.get("metainfo").unwrap().as_str(), Some(text));
    }
}

#[test]
fn adding_takes_four_requests_at_the_most() {
    let step = call(add_to_transmission(&settings(), &body(Some("7"), Some("abc"))));
    let step = fetch(step.answered(Err(AppError::bad_gateway("x"))));
    let step = fetch(step.answered(&settings(), FetchReply::Refused));
    let step = call(step.answered(&settings(), FetchReply::Torrent(vec![1])));
    assert!(step.links.is_empty());
    match step.answered(Ok(read("{}"))) {
        AddStep::Record(_, hash) => assert_eq!(hash, None),
        other => panic!("{:?}", other),
    }
}
