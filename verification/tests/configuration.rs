use mam_audiofinder::settings::{
    api_setup, build_mam_cookie, home, is_truthy_json, load_json_config, needs_setup,
    setup_enabled, setup_page, write_json_config, Environment, Page, Settings, SetupPayload,
};
use mam_audiofinder::json::parse_json;

fn no_environment() -> Environment {
    Environment {
        mam_base: None,
        mam_cookie: None,
        transmission_url: None,
        transmission_user: None,
        transmission_pass: None,
        transmission_label: None,
        auto_import_enabled: None,
        auto_import_poll_interval: None,
        umask: None,
    }
}

fn some(s: &str) -> Option<String> {
    Some(s.to_owned())
}

fn full_environment() -> Environment {
    Environment {
        mam_base: some("https://mam"),
        mam_cookie: some("envcookie"),
        transmission_url: some("http://env/rpc//"),
        transmission_user: some("user"),
        transmission_pass: some("pass"),
        transmission_label: some("label"),
        auto_import_enabled: some("yes"),
        auto_import_poll_interval: some("60"),
        umask: some("0022"),
    }
}

fn no_payload() -> SetupPayload {
    SetupPayload {
        mam_cookie: None,
        transmission_url: None,
        transmission_user: None,
        transmission_pass: None,
        transmission_label: None,
        auto_import_enabled: None,
    }
}

#[test]
fn defaults_hold_without_configuration() {
    let settings = Settings::load(&load_json_config(None), &no_environment());
    assert_eq!(
        settings,
        Settings {
            mam_base: "https://www.myanonamouse.net".to_owned(),
            mam_cookie: String::new(),
            transmission_url: "http://transmission:9091/transmission/rpc".to_owned(),
            transmission_user: String::new(),
            transmission_pass: String::new(),
            transmission_label: "mam-audiofinder".to_owned(),
            auto_import_enabled: false,
            auto_import_poll_interval: 30,
            umask: some("0002"),
        }
    );
    assert_eq!(settings.umask_to_apply(), Some(2));
}

#[test]
fn the_environment_is_a_fallback() {
    let settings = Settings::load(&load_json_config(Some("[1]")), &full_environment());
    assert_eq!(settings.mam_base, "https://mam");
    assert_eq!(settings.mam_cookie, "mam_id=envcookie");
    assert_eq!(settings.transmission_url, "http://env/rpc");
    assert_eq!(settings.transmission_label, "label");
    assert!(settings.auto_import_enabled);
    assert_eq!(settings.auto_import_poll_interval, 60);
    assert_eq!(settings.umask_to_apply(), Some(18));
}

#[test]
fn the_configuration_goes_before_the_environment() {
    let cfg = load_json_config(Some(
        r#"{"MAM_BASE": "b", "MAM_COOKIE": "a=b", "TRANSMISSION_URL": "u/", "TRANSMISSION_USER": "",
            "TRANSMISSION_PASS": "p", "TRANSMISSION_LABEL": "l", "AUTO_IMPORT_ENABLED": 0,
            "UMASK": "077", "AUTO_IMPORT_POLL_INTERVAL": "5"}"#,
    ));
    let settings = Settings::load(&cfg, &full_environment());
    assert_eq!(settings.mam_base, "b");
    assert_eq!(settings.mam_cookie, "a=b");
    assert_eq!(settings.transmission_url, "u");
    assert_eq!(settings.transmission_user, "");
    assert_eq!(settings.transmission_pass, "p");
    assert_eq!(settings.transmission_label, "l");
    assert!(!settings.auto_import_enabled);
    assert_eq!(settings.auto_import_poll_interval, 60);
    assert_eq!(settings.umask, some("0022"));
}

#[test]
fn broken_configurations_count_as_empty() {
    for text in ["", "{", "null", "\"x\""] {
        assert!(load_json_config(Some(text)).is_empty(), "{}", text);
    }
}

#[test]
fn the_umask_comes_from_the_environment_alone() {
    let mut env = no_environment();
    env.umask = some("  ");
    let cfg = load_json_config(Some(r#"{"UMASK": "077"}"#));
    assert_eq!(Settings::load(&cfg, &env).umask, some("0002"));
    env.umask = None;
    assert_eq!(Settings::load(&cfg, &env).umask, some("0002"));
    env.umask = some(" 022 ");
    assert_eq!(Settings::load(&load_json_config(None), &env).umask_to_apply(), Some(18));
    env.umask = some("40000000000");
    assert_eq!(Settings::load(&load_json_config(None), &env).umask_to_apply(), None);
}

#[test]
fn cookies_are_named() {
    assert_eq!(build_mam_cookie(""), "");
    assert_eq!(build_mam_cookie(" \n"), "");
    assert_eq!(build_mam_cookie(" abc "), "mam_id=abc");
    assert_eq!(build_mam_cookie("mam_id=abc; uid=1"), "mam_id=abc; uid=1");
    assert_eq!(build_mam_cookie("mam_session=abc"), "mam_session=abc");
    assert_eq!(build_mam_cookie("other=abc"), "other=abc");
    assert_eq!(build_mam_cookie("a;b"), "a;b");
}

#[test]
fn built_cookies_stay_as_they_are() {
    for raw in ["", "abc", " mam_id=1 ", "x=y", "a;b"] {
        let built = build_mam_cookie(raw);
        assert_eq!(build_mam_cookie(&built), built);
    }
}

#[test]
fn json_switches_are_read() {
    for text in ["true", "2", "\" ON \""] {
        assert!(is_truthy_json(&parse_json(text).unwrap()));
    }
    for text in ["false", "0", "0.5", "null", "[]", "{}", "\"off\""] {
        assert!(!is_truthy_json(&parse_json(text).unwrap()));
    }
}

#[test]
fn setup_shows_until_there_is_a_cookie() {
    let fresh = Settings::load(&load_json_config(None), &no_environment());
    assert!(needs_setup(&fresh));
    assert_eq!(home(&fresh, true), Page::Setup);
    assert_eq!(home(&fresh, false), Page::Index);
    let ready = Settings::load(&load_json_config(None), &full_environment());
    assert!(!needs_setup(&ready));
    assert_eq!(home(&ready, true), Page::Index);
}

#[test]
fn setup_can_be_disabled() {
    assert!(setup_enabled(&None));
    assert!(setup_enabled(&some("0")));
    assert!(!setup_enabled(&some("1")));
    assert!(!setup_enabled(&some("true")));
    assert_eq!(setup_page(true).unwrap(), Page::Setup);
    let e = setup_page(false).unwrap_err();
    assert_eq!((e.status.code(), e.detail.as_str()), (404, "Not found"));
    let e = api_setup(false, load_json_config(None), &no_payload()).unwrap_err();
    assert_eq!((e.status.code(), e.detail.as_str()), (404, "Not found"));
}

#[test]
fn setup_is_saved_and_loaded_again() {
    let before = load_json_config(Some(
        r#"{"MAM_COOKIE": "old", "TRANSMISSION_USER": "kept", "own": {"deep": [1, -2, "x"]}}"#,
    ));
    let payload = SetupPayload {
        mam_cookie: some(" fresh "),
        transmission_url: some("http://host/rpc/"),
        transmission_user: some("  "),
        transmission_pass: some(" secret "),
        transmission_label: some("books"),
        auto_import_enabled: Some(true),
    };
    let stored = api_setup(true, before, &payload).unwrap();
    let text = write_json_config(&stored).unwrap();
    let again = load_json_config(Some(text.as_str()));
    assert_eq!(again, stored);
    let settings = Settings::load(&again, &full_environment());
    assert_eq!(settings.mam_cookie, "mam_id=fresh");
    assert_eq!(settings.transmission_url, "http://host/rpc");
    assert_eq!(settings.transmission_user, "kept");
    assert_eq!(settings.transmission_pass, " secret ");
    assert_eq!(settings.transmission_label, "books");
    assert!(settings.auto_import_enabled);
    assert_eq!(settings.mam_base, "https://mam");
}

#[test]
fn the_configuration_is_written_with_indentation() {
    let mut payload = no_payload();
    payload.mam_cookie = some("c\"d");
    payload.auto_import_enabled = Some(false);
    let stored = api_setup(true, load_json_config(None), &payload).unwrap();
    assert_eq!(
        write_json_config(&stored).unwrap(),
        "{\n  \"AUTO_IMPORT_ENABLED\": false,\n  \"MAM_COOKIE\": \"c\\\"d\"\n}"
    );
}

#[test]
fn configurations_are_read_back_as_deep_as_json_is_read() {
    let deep = format!("{{\"k\": {}{}}}", "[".repeat(126), "]".repeat(126));
    let cfg = load_json_config(Some(&deep));
    assert_eq!(cfg.len(), 1);
    let text = write_json_config(&cfg).unwrap();
    assert_eq!(load_json_config(Some(text.as_str())), cfg);
    let deeper = format!("{{\"k\": {}{}}}", "[".repeat(127), "]".repeat(127));
    assert!(load_json_config(Some(&deeper)).is_empty());
}

#[test]
fn the_key_of_raw_json_is_not_read_back() {
    let cfg = load_json_config(Some(r#"{"a": 1, "$serde_json::private::RawValue": "1"}"#));
    assert_eq!(cfg.len(), 2);
    let text = write_json_config(&cfg).unwrap();
    assert!(load_json_config(Some(text.as_str())).is_empty());
}

#[test]
fn the_key_of_raw_json_is_read_back_behind_another_key() {
    let cfg = load_json_config(Some(
        r#"{"!": 1, "$serde_json::private::RawValue": "1", "own": {"!": 2, "$serde_json::private::RawValue": "x"}}"#,
    ));
    assert_eq!(cfg.len(), 3);
    let text = write_json_config(&cfg).unwrap();
    assert_eq!(load_json_config(Some(text.as_str())), cfg);
}

#[test]
fn fractions_do_not_keep_the_rest_from_being_read_back() {
    let cfg = load_json_config(Some(r#"{"MAM_COOKIE": "c", "own": 8.9e307, "n": -7}"#));
    let text = write_json_config(&cfg).unwrap();
    let again = load_json_config(Some(text.as_str()));
    assert_eq!(again.len(), 3);
    assert_eq!(again.get("MAM_COOKIE"), cfg.get("MAM_COOKIE"));
    assert_eq!(again.get("n"), cfg.get("n"));
}

#[test]
fn an_empty_form_changes_nothing() {
    let cfg = load_json_config(Some(r#"{"MAM_COOKIE": "c", "UMASK": "2"}"#));
    let mut payload = no_payload();
    payload.transmission_pass = some("");
    let stored = api_setup(true, cfg.clone(), &payload).unwrap();
    assert_eq!(stored, cfg);
}
