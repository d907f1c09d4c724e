//! The settings of the application: how they are read from the configuration
//! and the environment, and how the setup page changes the configuration.
use crate::error::{not_found, AppError};
use crate::json::{
    comes_before, found, is_plain, is_plain_map, is_readable, is_readable_map, json_from_value,
    map_or_new, map_text, object_map, opt_view, raw_key, reads_back, text_in, Json, JsonView,
};
use crate::numbers::{
    decimal, decimal_text, digits_value, is_digit, numbers_are_digits_alone, parse_number,
    spelled_number, unsigned_part,
};
use crate::outside::{
    bool_value, map_get, map_insert, map_of, new_map, parse_value, parsed_json, pretty_json,
    pretty_map, text_value,
};
use crate::text::{
    blank, contains, contains_text, has_char, is_blank, is_whitespace, lemma_trimmed,
    lemma_trimmed_end, lemma_trimmed_start, occurs_at, trim, trim_end_of, trimmed, trimmed_end, trimmed_start,
    trimming_takes_what_stands_around, CharClass,
};
use crate::words::{
    is_truthy_str, parse_positive_int, positive_number, positive_numbers_are_read, truthy_text,
};
use vstd::prelude::*;
use vstd::string::*;

verus! {

broadcast use vstd::string::group_string_axioms;

/// Seconds between two rounds of the automatic import, unless set otherwise.
pub const DEFAULT_AUTO_IMPORT_POLL_INTERVAL: u64 = 30;

/// The configuration file, as the object that it holds.
pub type Config = serde_json::Map<String, serde_json::Value>;

/// The model of the configuration: what stands under each of its keys.
pub type ConfigView = Map<Seq<char>, JsonView>;

/// The environment variables that are read, where they are set.
#[derive(Debug)]
pub struct Environment {
    pub mam_base: Option<String>,
    pub mam_cookie: Option<String>,
    pub transmission_url: Option<String>,
    pub transmission_user: Option<String>,
    pub transmission_pass: Option<String>,
    pub transmission_label: Option<String>,
    pub auto_import_enabled: Option<String>,
    pub auto_import_poll_interval: Option<String>,
    pub umask: Option<String>,
}

/// The model of the environment.
pub struct EnvironmentView {
    pub mam_base: Option<Seq<char>>,
    pub mam_cookie: Option<Seq<char>>,
    pub transmission_url: Option<Seq<char>>,
    pub transmission_user: Option<Seq<char>>,
    pub transmission_pass: Option<Seq<char>>,
    pub transmission_label: Option<Seq<char>>,
    pub auto_import_enabled: Option<Seq<char>>,
    pub auto_import_poll_interval: Option<Seq<char>>,
    pub umask: Option<Seq<char>>,
}

impl View for Environment {
    type V = EnvironmentView;

    open spec fn view(&self) -> EnvironmentView {
        EnvironmentView {
            mam_base: opt_view(self.mam_base),
            mam_cookie: opt_view(self.mam_cookie),
            transmission_url: opt_view(self.transmission_url),
            transmission_user: opt_view(self.transmission_user),
            transmission_pass: opt_view(self.transmission_pass),
            transmission_label: opt_view(self.transmission_label),
            auto_import_enabled: opt_view(self.auto_import_enabled),
            auto_import_poll_interval: opt_view(self.auto_import_poll_interval),
            umask: opt_view(self.umask),
        }
    }
}

/// The settings in force.
#[derive(Debug, PartialEq)]
pub struct Settings {
    pub mam_base: String,
    pub mam_cookie: String,
    pub transmission_url: String,
    pub transmission_user: String,
    pub transmission_pass: String,
    pub transmission_label: String,
    pub auto_import_enabled: bool,
    pub auto_import_poll_interval: u64,
    pub umask: Option<String>,
}

/// The model of the settings.
pub struct SettingsView {
    pub mam_base: Seq<char>,
    pub mam_cookie: Seq<char>,
    pub transmission_url: Seq<char>,
    pub transmission_user: Seq<char>,
    pub transmission_pass: Seq<char>,
    pub transmission_label: Seq<char>,
    pub auto_import_enabled: bool,
    pub auto_import_poll_interval: u64,
    pub umask: Option<Seq<char>>,
}

impl View for Settings {
    type V = SettingsView;

    open spec fn view(&self) -> SettingsView {
        SettingsView {
            mam_base: self.mam_base@,
            mam_cookie: self.mam_cookie@,
            transmission_url: self.transmission_url@,
            transmission_user: self.transmission_user@,
            transmission_pass: self.transmission_pass@,
            transmission_label: self.transmission_label@,
            auto_import_enabled: self.auto_import_enabled,
            auto_import_poll_interval: self.auto_import_poll_interval,
            umask: opt_view(self.umask),
        }
    }
}

// ---------------------------------------------------------------------------
// Models
// ---------------------------------------------------------------------------

/// A text or, where there is none, another one.
pub open spec fn or_text(value: Option<Seq<char>>, default: Seq<char>) -> Seq<char> {
    match value {
        Some(s) => s,
        None => default,
    }
}

/// A text of the configuration; where it has none the environment's, and else
/// the default.
pub open spec fn setting_text(
    cfg: ConfigView,
    key: Seq<char>,
    env: Option<Seq<char>>,
    default: Seq<char>,
) -> Seq<char> {
    or_text(text_in(found(cfg, key)), or_text(env, default))
}

/// Whether a JSON value switches something on.
pub open spec fn truthy_json(value: JsonView) -> bool {
    match value {
        JsonView::Bool(b) => b,
        JsonView::Number(n) => n.signed matches Some(v) && v != 0,
        JsonView::Text(s) => truthy_text(s),
        _ => false,
    }
}

/// The cookie to send for what the user gave as the cookie: a bare session
/// id is given its name, everything else is sent as it stands.
pub open spec fn cookie_for(raw: Seq<char>) -> Seq<char> {
    let cookie = trimmed(raw);
    if cookie.len() == 0 {
        Seq::empty()
    } else if contains_text(cookie, "mam_id="@) || contains_text(cookie, "mam_session="@) {
        cookie
    } else if !cookie.contains('=') && !cookie.contains(';') {
        "mam_id="@ + cookie
    } else {
        cookie
    }
}

/// The settings that a configuration and an environment give.
pub open spec fn settings_of(cfg: ConfigView, env: EnvironmentView) -> SettingsView {
    SettingsView {
        mam_base: setting_text(
            cfg,
            "MAM_BASE"@,
            env.mam_base,
            "https://www.myanonamouse.net"@,
        ),
        mam_cookie: cookie_for(setting_text(cfg, "MAM_COOKIE"@, env.mam_cookie, ""@)),
        transmission_url: trimmed_end(
            setting_text(
                cfg,
                "TRANSMISSION_URL"@,
                env.transmission_url,
                "http://transmission:9091/transmission/rpc"@,
            ),
            CharClass::Just('/'),
        ),
        transmission_user: setting_text(cfg, "TRANSMISSION_USER"@, env.transmission_user, ""@),
        transmission_pass: setting_text(cfg, "TRANSMISSION_PASS"@, env.transmission_pass, ""@),
        transmission_label: setting_text(
            cfg,
            "TRANSMISSION_LABEL"@,
            env.transmission_label,
            "mam-audiofinder"@,
        ),
        auto_import_enabled: match found(cfg, "AUTO_IMPORT_ENABLED"@) {
            Some(value) => truthy_json(value),
            None => truthy_text(or_text(env.auto_import_enabled, ""@)),
        },
        auto_import_poll_interval: positive_number(
            or_text(
                env.auto_import_poll_interval,
                decimal(DEFAULT_AUTO_IMPORT_POLL_INTERVAL as int),
            ),
            DEFAULT_AUTO_IMPORT_POLL_INTERVAL,
        ),
        umask: Some(
            if blank(or_text(env.umask, ""@)) {
                "0002"@
            } else {
                env.umask->0
            },
        ),
    }
}

/// The entries of the configuration that a file holds: none where there is no
/// file, or where it holds anything but a JSON object.
pub open spec fn config_of(text: Option<Seq<char>>) -> ConfigView {
    match text {
        Some(t) => object_map(parsed_json(t)),
        None => Map::empty(),
    }
}

// ---------------------------------------------------------------------------
// Reading the settings
// ---------------------------------------------------------------------------

/// The text, or the default.
fn text_or(value: &Option<String>, default: &str) -> (r: String)
    ensures
        r@ == or_text(opt_view(*value), default@),
{
    match value {
        Some(s) => s.clone(),
        None => default.to_owned(),
    }
}

/// A text of the configuration, the environment or the default.
fn read_text(cfg: &Config, key: &str, env: &Option<String>, default: &str) -> (r: String)
    ensures
        r@ == setting_text(map_of(*cfg), key@, opt_view(*env), default@),
{
    match map_text(cfg, key) {
        Some(s) => s,
        None => text_or(env, default),
    }
}

/// Whether the JSON value switches something on.
pub fn is_truthy_json(value: &Json) -> (r: bool)
    ensures
        r == truthy_json(value@),
{
    match value {
        Json::Bool(b) => *b,
        Json::Number(n) => match n.signed {
            Some(v) => v != 0,
            None => false,
        },
        Json::Text(s) => is_truthy_str(s),
        _ => false,
    }
}

/// The cookie to send for what the user gave as the cookie.
pub fn build_mam_cookie(raw: &str) -> (r: String)
    ensures
        r@ == cookie_for(raw@),
{
    let cookie = trim(raw);
    if cookie.as_str().is_empty() {
        return String::new();
    }
    if contains(&cookie, "mam_id=") || contains(&cookie, "mam_session=") {
        return cookie;
    }
    if !has_char(&cookie, '=') && !has_char(&cookie, ';') {
        return "mam_id=".to_owned().concat(&cookie);
    }
    cookie
}

/// The configuration that the text of a file holds.
pub fn load_json_config(text: Option<&str>) -> (r: Config)
    ensures
        map_of(r) == config_of(opt_view(text)),
{
    let none = new_map();
    assert(map_of(none) =~= Map::empty());
    match text {
        Some(t) => match parse_value(t) {
            Some(value) => map_or_new(value),
            None => none,
        },
        None => none,
    }
}

/// The text of a file for a configuration. The configuration that it holds has
/// the same keys, and the same under each key under which all numbers are
/// whole: unless something is nested deeper than JSON is read, an object begins
/// with the key of raw JSON, or a number that is not whole is near the largest
/// double.
pub fn write_json_config(cfg: &Config) -> (r: Result<String, AppError>)
    ensures
        r is Ok,
        r matches Ok(text) ==> text@ == pretty_json(map_of(*cfg)),
        r matches Ok(text) ==> is_readable_map(map_of(*cfg)) ==> reads_back(
            config_of(Some(text@)),
            map_of(*cfg),
        ),
        r matches Ok(text) ==> is_readable_map(map_of(*cfg)) && is_plain_map(map_of(*cfg))
            ==> config_of(Some(text@)) == map_of(*cfg),
{
    match pretty_map(cfg) {
        Ok(text) => {
            proof {
                let read = config_of(Some(text@));
                if is_readable_map(map_of(*cfg)) && is_plain_map(map_of(*cfg)) {
                    assert(read =~= map_of(*cfg));
                }
            }
            Ok(text)
        },
        Err(reason) => Err(
            AppError::internal(&"Failed to serialize config: ".to_owned().concat(&reason)),
        ),
    }
}

impl Settings {
    /// The settings that a configuration and an environment give.
    pub fn load(cfg: &Config, env: &Environment) -> (r: Settings)
        ensures
            r@ == settings_of(map_of(*cfg), env@),
    {
        let mam_base = read_text(cfg, "MAM_BASE", &env.mam_base, "https://www.myanonamouse.net");
        let raw_cookie = read_text(cfg, "MAM_COOKIE", &env.mam_cookie, "");
        let raw_url = read_text(
            cfg,
            "TRANSMISSION_URL",
            &env.transmission_url,
            "http://transmission:9091/transmission/rpc",
        );
        let transmission_url = trim_end_of(&raw_url, CharClass::Just('/'));
        let transmission_user = read_text(cfg, "TRANSMISSION_USER", &env.transmission_user, "");
        let transmission_pass = read_text(cfg, "TRANSMISSION_PASS", &env.transmission_pass, "");
        let transmission_label = read_text(
            cfg,
            "TRANSMISSION_LABEL",
            &env.transmission_label,
            "mam-audiofinder",
        );
        let auto_import_enabled = match map_get(cfg, "AUTO_IMPORT_ENABLED") {
            Some(value) => is_truthy_json(&json_from_value(value.clone())),
            None => is_truthy_str(&text_or(&env.auto_import_enabled, "")),
        };
        let default_interval = decimal_text(DEFAULT_AUTO_IMPORT_POLL_INTERVAL);
        let auto_import_poll_interval: u64 = parse_positive_int(
            &text_or(&env.auto_import_poll_interval, &default_interval),
            DEFAULT_AUTO_IMPORT_POLL_INTERVAL,
        );
        let mask = text_or(&env.umask, "");
        let umask = if is_blank(&mask) {
            Some("0002".to_owned())
        } else {
            proof {
                reveal_strlit("");
            }
            Some(mask)
        };
        Settings {
            mam_base,
            mam_cookie: build_mam_cookie(&raw_cookie),
            transmission_url,
            transmission_user,
            transmission_pass,
            transmission_label,
            auto_import_enabled,
            auto_import_poll_interval,
            umask,
        }
    }

    /// The file creation mask to apply: the octal number that is set.
    pub open spec fn mask(self) -> Option<int> {
        match self.umask {
            Some(raw) => spelled_number(trimmed(raw@), 8, u32::MAX as int),
            None => None,
        }
    }

    /// The file creation mask to apply.
    pub fn umask_to_apply(&self) -> (r: Option<u32>)
        ensures
            match r {
                Some(mask) => self.mask() == Some(mask as int),
                None => self.mask() is None,
            },
    {
        match &self.umask {
            Some(raw) => match parse_number(&trim(raw), 8, u32::MAX as u64) {
                Some(mask) => Some(mask as u32),
                None => None,
            },
            None => None,
        }
    }
}

// ---------------------------------------------------------------------------
// Setup
// ---------------------------------------------------------------------------

/// What the setup page sends.
#[derive(Debug)]
pub struct SetupPayload {
    pub mam_cookie: Option<String>,
    pub transmission_url: Option<String>,
    pub transmission_user: Option<String>,
    pub transmission_pass: Option<String>,
    pub transmission_label: Option<String>,
    pub auto_import_enabled: Option<bool>,
}

/// The model of what the setup page sends.
pub struct SetupView {
    pub mam_cookie: Option<Seq<char>>,
    pub transmission_url: Option<Seq<char>>,
    pub transmission_user: Option<Seq<char>>,
    pub transmission_pass: Option<Seq<char>>,
    pub transmission_label: Option<Seq<char>>,
    pub auto_import_enabled: Option<bool>,
}

impl View for SetupPayload {
    type V = SetupView;

    open spec fn view(&self) -> SetupView {
        SetupView {
            mam_cookie: opt_view(self.mam_cookie),
            transmission_url: opt_view(self.transmission_url),
            transmission_user: opt_view(self.transmission_user),
            transmission_pass: opt_view(self.transmission_pass),
            transmission_label: opt_view(self.transmission_label),
            auto_import_enabled: self.auto_import_enabled,
        }
    }
}

/// What a field gives: its text without white space around it, unless that is
/// empty.
pub open spec fn given(value: Option<Seq<char>>) -> Option<Seq<char>> {
    match value {
        Some(s) => given_as_is(Some(trimmed(s))),
        None => None,
    }
}

/// What a field gives whose white space counts: its text, unless it is empty.
pub open spec fn given_as_is(value: Option<Seq<char>>) -> Option<Seq<char>> {
    match value {
        Some(s) => if s.len() > 0 {
            Some(s)
        } else {
            None
        },
        None => None,
    }
}

/// The configuration with a text under `key`, where one is given.
pub open spec fn with_text(
    cfg: ConfigView,
    key: Seq<char>,
    value: Option<Seq<char>>,
) -> ConfigView {
    match value {
        Some(s) => cfg.insert(key, JsonView::Text(s)),
        None => cfg,
    }
}

/// The configuration after the setup page was sent.
pub open spec fn config_after_setup(
    cfg: ConfigView,
    body: SetupView,
) -> ConfigView {
    let cfg = with_text(cfg, "MAM_COOKIE"@, given(body.mam_cookie));
    let cfg = with_text(cfg, "TRANSMISSION_URL"@, given(body.transmission_url));
    let cfg = with_text(cfg, "TRANSMISSION_USER"@, given(body.transmission_user));
    let cfg = with_text(cfg, "TRANSMISSION_PASS"@, given_as_is(body.transmission_pass));
    let cfg = with_text(cfg, "TRANSMISSION_LABEL"@, given(body.transmission_label));
    match body.auto_import_enabled {
        Some(on) => cfg.insert("AUTO_IMPORT_ENABLED"@, JsonView::Bool(on)),
        None => cfg,
    }
}

/// Whether the setup page is served, given the variable that disables it.
pub open spec fn setup_is_enabled(disable_setup: Option<Seq<char>>) -> bool {
    !truthy_text(or_text(disable_setup, ""@))
}

/// Whether the setup page is served, given the variable that disables it.
pub fn setup_enabled(disable_setup: &Option<String>) -> (r: bool)
    ensures
        r == setup_is_enabled(opt_view(*disable_setup)),
{
    !is_truthy_str(&text_or(disable_setup, ""))
}

/// Whether the application still lacks the cookie it needs.
pub fn needs_setup(settings: &Settings) -> (r: bool)
    ensures
        r == (settings@.mam_cookie.len() == 0),
{
    settings.mam_cookie.as_str().is_empty()
}

/// The pages of the application.
#[derive(Clone, Copy, Debug, PartialEq, Eq, Structural)]
pub enum Page {
    Setup,
    Index,
}

/// The page that the root serves: setup while it is needed and allowed.
pub open spec fn home_page(settings: SettingsView, setup_enabled: bool) -> Page {
    if settings.mam_cookie.len() == 0 && setup_enabled {
        Page::Setup
    } else {
        Page::Index
    }
}

/// The page that the root serves.
pub fn home(settings: &Settings, setup_enabled: bool) -> (r: Page)
    ensures
        r == home_page(settings@, setup_enabled),
{
    if needs_setup(settings) && setup_enabled {
        Page::Setup
    } else {
        Page::Index
    }
}

/// The page that the setup address serves.
pub fn setup_page(setup_enabled: bool) -> (r: Result<Page, AppError>)
    ensures
        match r {
            Ok(page) => setup_enabled && page == Page::Setup,
            Err(e) => !setup_enabled && e@ == not_found("Not found"@),
        },
{
    if !setup_enabled {
        return Err(AppError::not_found("Not found"));
    }
    Ok(Page::Setup)
}

/// What a field gives.
fn field(value: &Option<String>) -> (r: Option<String>)
    ensures
        opt_view(r) == given(opt_view(*value)),
{
    match value {
        Some(s) => {
            let text = trim(s);
            if text.as_str().is_empty() {
                None
            } else {
                Some(text)
            }
        },
        None => None,
    }
}

/// What a field gives whose white space counts.
fn field_as_is(value: &Option<String>) -> (r: Option<String>)
    ensures
        opt_view(r) == given_as_is(opt_view(*value)),
{
    match value {
        Some(s) => if s.as_str().is_empty() {
            None
        } else {
            Some(s.clone())
        },
        None => None,
    }
}

/// Puts a text under `key`, where one is given.
fn put_text(cfg: &mut Config, key: &str, value: Option<String>)
    ensures
        map_of(*final(cfg)) == with_text(map_of(*old(cfg)), key@, opt_view(value)),
{
    match value {
        Some(s) => map_insert(cfg, key, text_value(&s)),
        None => {},
    }
}

/// The configuration to store after the setup page was sent.
pub fn api_setup(setup_enabled: bool, cfg: Config, body: &SetupPayload) -> (r: Result<
    Config,
    AppError,
>)
    ensures
        match r {
            Ok(stored) => setup_enabled && map_of(stored) == config_after_setup(map_of(cfg), body@),
            Err(e) => !setup_enabled && e@ == not_found("Not found"@),
        },
{
    if !setup_enabled {
        return Err(AppError::not_found("Not found"));
    }
    let mut stored = cfg;
    put_text(&mut stored, "MAM_COOKIE", field(&body.mam_cookie));
    put_text(&mut stored, "TRANSMISSION_URL", field(&body.transmission_url));
    put_text(&mut stored, "TRANSMISSION_USER", field(&body.transmission_user));
    put_text(&mut stored, "TRANSMISSION_PASS", field_as_is(&body.transmission_pass));
    put_text(&mut stored, "TRANSMISSION_LABEL", field(&body.transmission_label));
    match body.auto_import_enabled {
        Some(on) => map_insert(&mut stored, "AUTO_IMPORT_ENABLED", bool_value(on)),
        None => {},
    }
    Ok(stored)
}

// ---------------------------------------------------------------------------
// Laws
// ---------------------------------------------------------------------------

/// The keys of the configuration are all different.
proof fn lemma_keys_differ()
    ensures
        "MAM_BASE"@.len() == 8,
        "MAM_COOKIE"@.len() == 10,
        "TRANSMISSION_URL"@.len() == 16,
        "TRANSMISSION_USER"@.len() == 17,
        "TRANSMISSION_PASS"@.len() == 17,
        "TRANSMISSION_USER"@ != "TRANSMISSION_PASS"@,
        "TRANSMISSION_LABEL"@.len() == 18,
        "AUTO_IMPORT_ENABLED"@.len() == 19,
{
    reveal_strlit("MAM_BASE");
    reveal_strlit("MAM_COOKIE");
    reveal_strlit("TRANSMISSION_URL");
    reveal_strlit("TRANSMISSION_USER");
    reveal_strlit("TRANSMISSION_PASS");
    reveal_strlit("TRANSMISSION_LABEL");
    reveal_strlit("AUTO_IMPORT_ENABLED");
    assert("TRANSMISSION_USER"@[13] == 'U');
    assert("TRANSMISSION_PASS"@[13] == 'P');
}

/// What a given text changes for the reader of any key.
proof fn lemma_with_text(
    cfg: ConfigView,
    key: Seq<char>,
    value: Option<Seq<char>>,
    read: Seq<char>,
)
    ensures
        found(with_text(cfg, key, value), read) == (if read == key && value is Some {
            Some(JsonView::Text(value->0))
        } else {
            found(cfg, read)
        }),
{
}

/// What the configuration holds under any key after setup.
proof fn lemma_config_after_setup(
    cfg: ConfigView,
    body: SetupView,
    read: Seq<char>,
)
    ensures
        found(config_after_setup(cfg, body), read) == (if read == "AUTO_IMPORT_ENABLED"@
            && body.auto_import_enabled is Some {
            Some(JsonView::Bool(body.auto_import_enabled->0))
        } else if read == "TRANSMISSION_LABEL"@ && given(body.transmission_label) is Some {
            Some(JsonView::Text(given(body.transmission_label)->0))
        } else if read == "TRANSMISSION_PASS"@ && given_as_is(body.transmission_pass) is Some {
            Some(JsonView::Text(given_as_is(body.transmission_pass)->0))
        } else if read == "TRANSMISSION_USER"@ && given(body.transmission_user) is Some {
            Some(JsonView::Text(given(body.transmission_user)->0))
        } else if read == "TRANSMISSION_URL"@ && given(body.transmission_url) is Some {
            Some(JsonView::Text(given(body.transmission_url)->0))
        } else if read == "MAM_COOKIE"@ && given(body.mam_cookie) is Some {
            Some(JsonView::Text(given(body.mam_cookie)->0))
        } else {
            found(cfg, read)
        }),
{
    let cfg1 = with_text(cfg, "MAM_COOKIE"@, given(body.mam_cookie));
    let cfg2 = with_text(cfg1, "TRANSMISSION_URL"@, given(body.transmission_url));
    let cfg3 = with_text(cfg2, "TRANSMISSION_USER"@, given(body.transmission_user));
    let cfg4 = with_text(cfg3, "TRANSMISSION_PASS"@, given_as_is(body.transmission_pass));
    let cfg5 = with_text(cfg4, "TRANSMISSION_LABEL"@, given(body.transmission_label));
    lemma_with_text(cfg, "MAM_COOKIE"@, given(body.mam_cookie), read);
    lemma_with_text(cfg1, "TRANSMISSION_URL"@, given(body.transmission_url), read);
    lemma_with_text(cfg2, "TRANSMISSION_USER"@, given(body.transmission_user), read);
    lemma_with_text(cfg3, "TRANSMISSION_PASS"@, given_as_is(body.transmission_pass), read);
    lemma_with_text(cfg4, "TRANSMISSION_LABEL"@, given(body.transmission_label), read);
}

/// What the setup page stores is what the settings are then loaded with; a
/// field that gives nothing leaves its setting as it was, and so do the
/// settings that the page does not have.
pub proof fn setup_is_loaded(
    cfg: ConfigView,
    body: SetupView,
    env: EnvironmentView,
)
    ensures
        ({
            let before = settings_of(cfg, env);
            settings_of(config_after_setup(cfg, body), env) == SettingsView {
                mam_cookie: match given(body.mam_cookie) {
                    Some(cookie) => cookie_for(cookie),
                    None => before.mam_cookie,
                },
                transmission_url: match given(body.transmission_url) {
                    Some(url) => trimmed_end(url, CharClass::Just('/')),
                    None => before.transmission_url,
                },
                transmission_user: or_text(
                    given(body.transmission_user),
                    before.transmission_user,
                ),
                transmission_pass: or_text(
                    given_as_is(body.transmission_pass),
                    before.transmission_pass,
                ),
                transmission_label: or_text(
                    given(body.transmission_label),
                    before.transmission_label,
                ),
                auto_import_enabled: match body.auto_import_enabled {
                    Some(on) => on,
                    None => before.auto_import_enabled,
                },
                ..before
            }
        }),
{
    lemma_keys_differ();
    lemma_config_after_setup(cfg, body, "MAM_BASE"@);
    lemma_config_after_setup(cfg, body, "MAM_COOKIE"@);
    lemma_config_after_setup(cfg, body, "TRANSMISSION_URL"@);
    lemma_config_after_setup(cfg, body, "TRANSMISSION_USER"@);
    lemma_config_after_setup(cfg, body, "TRANSMISSION_PASS"@);
    lemma_config_after_setup(cfg, body, "TRANSMISSION_LABEL"@);
    lemma_config_after_setup(cfg, body, "AUTO_IMPORT_ENABLED"@);
}

/// What the setup page stores can be read back where what was there before
/// can: in full where all numbers in that are whole.
pub proof fn setup_can_be_read_back(cfg: ConfigView, body: SetupView)
    requires
        is_readable_map(cfg),
    ensures
        is_readable_map(config_after_setup(cfg, body)),
        is_plain_map(cfg) ==> is_plain_map(config_after_setup(cfg, body)),
{
    let after = config_after_setup(cfg, body);
    lemma_keys_differ();
    reveal_strlit("$serde_json::private::RawValue");
    assert(raw_key().len() == 30);
    assert forall|key: Seq<char>| #[trigger] after.dom().contains(key) implies is_readable(
        after[key],
        126,
    ) && (is_plain_map(cfg) ==> is_plain(after[key], 126)) by {
        lemma_config_after_setup(cfg, body, key);
        assert(found(after, key) == Some(after[key]));
        if found(after, key) == found(cfg, key) {
            assert(cfg.dom().contains(key));
        }
    }
    lemma_config_after_setup(cfg, body, raw_key());
    if after.dom().contains(raw_key()) {
        assert(found(cfg, raw_key()) is Some);
        let first = choose|key: Seq<char>| #[trigger]
            cfg.dom().contains(key) && comes_before(key, raw_key());
        lemma_config_after_setup(cfg, body, first);
        assert(found(cfg, first) is Some);
        assert(after.dom().contains(first));
    }
}

/// The environment is only a fallback: a setting that the configuration holds
/// does not depend on it. The poll interval and the file creation mask are
/// read from the environment alone.
pub proof fn config_goes_before_environment(
    cfg: ConfigView,
    one: EnvironmentView,
    other: EnvironmentView,
)
    ensures
        ({
            let a = settings_of(cfg, one);
            let b = settings_of(cfg, other);
            &&& text_in(found(cfg, "MAM_BASE"@)) is Some ==> a.mam_base == b.mam_base
            &&& text_in(found(cfg, "MAM_COOKIE"@)) is Some ==> a.mam_cookie == b.mam_cookie
            &&& text_in(found(cfg, "TRANSMISSION_URL"@)) is Some ==> a.transmission_url
                == b.transmission_url
            &&& text_in(found(cfg, "TRANSMISSION_USER"@)) is Some ==> a.transmission_user
                == b.transmission_user
            &&& text_in(found(cfg, "TRANSMISSION_PASS"@)) is Some ==> a.transmission_pass
                == b.transmission_pass
            &&& text_in(found(cfg, "TRANSMISSION_LABEL"@)) is Some ==> a.transmission_label
                == b.transmission_label
            &&& found(cfg, "AUTO_IMPORT_ENABLED"@) is Some ==> a.auto_import_enabled
                == b.auto_import_enabled
            &&& one.umask == other.umask ==> a.umask == b.umask
            &&& one.auto_import_poll_interval == other.auto_import_poll_interval
                ==> a.auto_import_poll_interval == b.auto_import_poll_interval
        }),
{
}

/// No cookie is sent exactly where nothing but white space was given as the
/// cookie.
pub proof fn blank_cookie_is_no_cookie(raw: Seq<char>)
    ensures
        cookie_for(raw).len() == 0 <==> blank(raw),
{
    lemma_trimmed(raw, CharClass::White);
    reveal_strlit("mam_id=");
    if blank(raw) {
        assert forall|i: int| 0 <= i < raw.len() implies CharClass::White.has(
            #[trigger] raw[i],
        ) by {}
    } else {
        let k = choose|k: int| 0 <= k < raw.len() && !is_whitespace(#[trigger] raw[k]);
        assert(!CharClass::White.has(raw[k]));
    }
}

/// A cookie that was built is kept as it is when it is given again.
pub proof fn built_cookie_is_stable(raw: Seq<char>)
    ensures
        cookie_for(cookie_for(raw)) == cookie_for(raw),
{
    let cookie = trimmed(raw);
    let built = cookie_for(raw);
    lemma_trimmed(raw, CharClass::White);
    reveal_strlit("mam_id=");
    if cookie.len() == 0 {
        assert(trimmed(built) == built);
    } else if built != cookie {
        let name = "mam_id="@;
        assert(built[0] == 'm');
        assert(built.last() == cookie.last());
        assert(trimmed_start(built, CharClass::White) == built);
        assert(trimmed(built) == built);
        assert(built.subrange(0, name.len() as int) =~= name);
        assert(occurs_at(built, name, 0));
    }
}

/// Whatever is configured, the address of Transmission does not end in a
/// slash and the poll interval is positive.
pub proof fn loaded_settings_are_usable(cfg: ConfigView, env: EnvironmentView)
    ensures
        ({
            let url = settings_of(cfg, env).transmission_url;
            url.len() > 0 ==> url.last() != '/'
        }),
        settings_of(cfg, env).auto_import_poll_interval > 0,
{
    lemma_trimmed_end(
        setting_text(
            cfg,
            "TRANSMISSION_URL"@,
            env.transmission_url,
            "http://transmission:9091/transmission/rpc"@,
        ),
        CharClass::Just('/'),
    );
}

/// Every setting is the text that the configuration holds under its own key.
/// Where that is no text it is what the environment says, and where that is
/// silent too, the default.
pub proof fn settings_stand_under_their_keys(cfg: ConfigView, env: EnvironmentView)
    ensures
        ({
            let s = settings_of(cfg, env);
            &&& match found(cfg, "MAM_BASE"@) {
                Some(JsonView::Text(value)) => s.mam_base == value,
                _ => match env.mam_base {
                    Some(value) => s.mam_base == value,
                    None => s.mam_base == "https://www.myanonamouse.net"@,
                },
            }
            &&& match found(cfg, "TRANSMISSION_USER"@) {
                Some(JsonView::Text(value)) => s.transmission_user == value,
                _ => match env.transmission_user {
                    Some(value) => s.transmission_user == value,
                    None => s.transmission_user.len() == 0,
                },
            }
            &&& match found(cfg, "TRANSMISSION_PASS"@) {
                Some(JsonView::Text(value)) => s.transmission_pass == value,
                _ => match env.transmission_pass {
                    Some(value) => s.transmission_pass == value,
                    None => s.transmission_pass.len() == 0,
                },
            }
            &&& match found(cfg, "TRANSMISSION_LABEL"@) {
                Some(JsonView::Text(value)) => s.transmission_label == value,
                _ => match env.transmission_label {
                    Some(value) => s.transmission_label == value,
                    None => s.transmission_label == "mam-audiofinder"@,
                },
            }
            &&& match found(cfg, "MAM_COOKIE"@) {
                Some(JsonView::Text(value)) => s.mam_cookie == cookie_for(value),
                _ => match env.mam_cookie {
                    Some(value) => s.mam_cookie == cookie_for(value),
                    None => s.mam_cookie.len() == 0,
                },
            }
        }),
{
    reveal_strlit("");
    lemma_trimmed(""@, CharClass::White);
}

/// The address of Transmission is found like every other setting, and kept but
/// for the slashes at its end.
pub proof fn address_is_kept_without_slashes_at_its_end(
    cfg: ConfigView,
    env: EnvironmentView,
    url: Seq<char>,
    slashes: Seq<char>,
)
    requires
        url.len() > 0,
        url.last() != '/',
        forall|i: int| 0 <= i < slashes.len() ==> #[trigger] slashes[i] == '/',
    ensures
        ({
            let s = settings_of(cfg, env);
            let here = found(cfg, "TRANSMISSION_URL"@);
            &&& here == Some(JsonView::Text(url + slashes)) ==> s.transmission_url == url
            &&& !(here matches Some(JsonView::Text(_))) && env.transmission_url == Some(
                url + slashes,
            ) ==> s.transmission_url == url
            &&& !(here matches Some(JsonView::Text(_))) && env.transmission_url is None
                ==> s.transmission_url == "http://transmission:9091/transmission/rpc"@
        }),
{
    let default = "http://transmission:9091/transmission/rpc"@;
    reveal_strlit("http://transmission:9091/transmission/rpc");
    trimming_takes_what_stands_around(Seq::empty(), url, slashes, CharClass::Just('/'));
    trimming_takes_what_stands_around(
        Seq::empty(),
        default,
        Seq::empty(),
        CharClass::Just('/'),
    );
    assert(default.last() == 'c');
    assert(default + Seq::<char>::empty() =~= default);
}

/// The automatic import is switched by the configuration where it says
/// anything, by a truth value as it is, by a number unless it is zero, and by a
/// word; by the environment's word otherwise.
pub proof fn automatic_import_is_switched(cfg: ConfigView, env: EnvironmentView)
    ensures
        ({
            let on = settings_of(cfg, env).auto_import_enabled;
            match found(cfg, "AUTO_IMPORT_ENABLED"@) {
                Some(JsonView::Bool(b)) => on == b,
                Some(JsonView::Number(n)) => on == (n.signed is Some && n.signed != Some(0i64)),
                Some(JsonView::Text(word)) => on == truthy_text(word),
                Some(_) => !on,
                None => match env.auto_import_enabled {
                    Some(word) => on == truthy_text(word),
                    None => on == truthy_text(Seq::empty()),
                },
            }
        }),
{
    reveal_strlit("");
    assert(""@ =~= Seq::empty());
}

/// A round of the automatic import waits as many seconds as the environment
/// says in a positive number, and thirty otherwise.
pub proof fn rounds_wait_as_long_as_is_set(cfg: ConfigView, env: EnvironmentView, n: int)
    requires
        0 < n <= u64::MAX,
    ensures
        env.auto_import_poll_interval == Some(decimal(n)) ==> settings_of(
            cfg,
            env,
        ).auto_import_poll_interval == n,
        env.auto_import_poll_interval is None ==> settings_of(cfg, env).auto_import_poll_interval
            == 30,
        env.auto_import_poll_interval == Some(decimal(0)) ==> settings_of(
            cfg,
            env,
        ).auto_import_poll_interval == 30,
        env.auto_import_poll_interval matches Some(text) ==> blank(text) ==> settings_of(
            cfg,
            env,
        ).auto_import_poll_interval == 30,
{
    positive_numbers_are_read(n, 30, seq!['-'], 0);
    positive_numbers_are_read(0, 30, seq!['-'], 0);
    positive_numbers_are_read(30, 30, seq!['-'], 0);
    if let Some(text) = env.auto_import_poll_interval {
        if blank(text) {
            assert forall|i: int| 0 <= i < text.len() implies CharClass::White.has(
                #[trigger] text[i],
            ) by {}
            lemma_trimmed(text, CharClass::White);
        }
    }
}

/// The file creation mask is the environment's as it is written, and 0002
/// where that says nothing.
pub proof fn mask_is_the_environments(cfg: ConfigView, env: EnvironmentView)
    ensures
        env.umask matches Some(text) ==> !blank(text) ==> settings_of(cfg, env).umask == Some(text),
        env.umask matches Some(text) ==> blank(text) ==> settings_of(cfg, env).umask == Some(
            seq!['0', '0', '0', '2'],
        ),
        env.umask is None ==> settings_of(cfg, env).umask == Some(seq!['0', '0', '0', '2']),
{
    reveal_strlit("0002");
    reveal_strlit("");
    assert("0002"@ =~= seq!['0', '0', '0', '2']);
}

/// The mask to apply is read in octal digits, with any white space around
/// them; without a mask none is applied.
pub proof fn masks_are_read_in_octal(
    settings: Settings,
    front: Seq<char>,
    digits: Seq<char>,
    back: Seq<char>,
)
    requires
        blank(front),
        blank(back),
        digits.len() > 0,
        forall|i: int| 0 <= i < digits.len() ==> '0' <= #[trigger] digits[i] <= '7',
        digits_value(digits, 8) <= u32::MAX,
    ensures
        settings.umask matches Some(raw) ==> raw@ == front + digits + back ==> settings.mask()
            == Some(digits_value(digits, 8)),
        settings.umask is None ==> settings.mask() is None,
{
    assert('0' <= digits[0] <= '7' && '0' <= digits[digits.len() - 1] <= '7');
    trimming_takes_what_stands_around(front, digits, back, CharClass::White);
    assert(unsigned_part(digits) == digits);
    assert forall|i: int| 0 <= i < digits.len() implies is_digit(#[trigger] digits[i], 8) by {
        assert('0' <= digits[i] <= '7');
    }
}

/// A cookie that names anything or lists anything is sent as it was given, and
/// a bare session id under the name "mam_id". White space around either is not
/// sent.
pub proof fn bare_session_ids_are_named(front: Seq<char>, cookie: Seq<char>, back: Seq<char>)
    requires
        blank(front),
        blank(back),
        cookie.len() > 0,
        !is_whitespace(cookie[0]),
        !is_whitespace(cookie.last()),
    ensures
        cookie.contains('=') || cookie.contains(';') ==> cookie_for(front + cookie + back)
            == cookie,
        !cookie.contains('=') && !cookie.contains(';') ==> cookie_for(front + cookie + back)
            == seq!['m', 'a', 'm', '_', 'i', 'd', '='] + cookie,
{
    trimming_takes_what_stands_around(front, cookie, back, CharClass::White);
    reveal_strlit("mam_id=");
    reveal_strlit("mam_session=");
    assert("mam_id="@ =~= seq!['m', 'a', 'm', '_', 'i', 'd', '=']);
    if contains_text(cookie, "mam_id="@) {
        let at = choose|at: int| #[trigger] occurs_at(cookie, "mam_id="@, at);
        assert(cookie.subrange(at, at + 7)[6] == '=');
        assert(cookie[at + 6] == '=');
    }
    if contains_text(cookie, "mam_session="@) {
        let at = choose|at: int| #[trigger] occurs_at(cookie, "mam_session="@, at);
        assert(cookie.subrange(at, at + 12)[11] == '=');
        assert(cookie[at + 11] == '=');
    }
}

/// The configuration of a file is what the object in it holds under each key;
/// a file that holds no object configures nothing.
pub proof fn configuration_is_the_object_in_the_file(text: Seq<char>, key: Seq<char>)
    ensures
        match parsed_json(text) {
            Some(JsonView::Object(entries)) => found(config_of(Some(text)), key)
                == JsonView::Object(entries).get(key),
            _ => found(config_of(Some(text)), key) is None,
        },
        found(config_of(None), key) is None,
{
}

/// The setup page stores what was typed into a field under the key of that
/// field, without the white space around it, unless it is the password, which
/// is stored as it was typed. An empty field changes nothing, and neither does
/// anything under another key.
pub proof fn setup_stores_each_field_under_its_key(
    cfg: ConfigView,
    body: SetupView,
    front: Seq<char>,
    text: Seq<char>,
    back: Seq<char>,
    other: Seq<char>,
)
    requires
        blank(front),
        blank(back),
        text.len() > 0,
        !is_whitespace(text[0]),
        !is_whitespace(text.last()),
    ensures
        ({
            let typed = Some(front + text + back);
            let after = config_after_setup(cfg, body);
            &&& body.mam_cookie == typed ==> found(after, "MAM_COOKIE"@) == Some(JsonView::Text(text))
            &&& body.mam_cookie is None || body.mam_cookie == Some(front) ==> found(after, "MAM_COOKIE"@) == found(
                cfg,
                "MAM_COOKIE"@,
            )
            &&& body.transmission_url == typed ==> found(after, "TRANSMISSION_URL"@) == Some(JsonView::Text(text))
            &&& body.transmission_url is None || body.transmission_url == Some(front) ==> found(after, "TRANSMISSION_URL"@) == found(
                cfg,
                "TRANSMISSION_URL"@,
            )
            &&& body.transmission_user == typed ==> found(after, "TRANSMISSION_USER"@) == Some(JsonView::Text(text))
            &&& body.transmission_user is None || body.transmission_user == Some(front) ==> found(after, "TRANSMISSION_USER"@) == found(
                cfg,
                "TRANSMISSION_USER"@,
            )
            &&& body.transmission_label == typed ==> found(after, "TRANSMISSION_LABEL"@) == Some(JsonView::Text(text))
            &&& body.transmission_label is None || body.transmission_label == Some(front) ==> found(after, "TRANSMISSION_LABEL"@) == found(
                cfg,
                "TRANSMISSION_LABEL"@,
            )
            &&& body.transmission_pass == typed ==> found(after, "TRANSMISSION_PASS"@) == Some(
                JsonView::Text(front + text + back),
            )
            &&& front.len() > 0 && body.transmission_pass == Some(front) ==> found(
                after,
                "TRANSMISSION_PASS"@,
            ) == Some(JsonView::Text(front))
            &&& body.transmission_pass is None || body.transmission_pass == Some(Seq::<char>::empty())
                ==> found(after, "TRANSMISSION_PASS"@) == found(cfg, "TRANSMISSION_PASS"@)
            &&& body.auto_import_enabled matches Some(on) ==> found(after, "AUTO_IMPORT_ENABLED"@)
                == Some(JsonView::Bool(on))
            &&& body.auto_import_enabled is None ==> found(after, "AUTO_IMPORT_ENABLED"@) == found(
                cfg,
                "AUTO_IMPORT_ENABLED"@,
            )
            &&& other != "MAM_COOKIE"@ && other != "TRANSMISSION_URL"@ && other
                != "TRANSMISSION_USER"@ && other != "TRANSMISSION_PASS"@ && other
                != "TRANSMISSION_LABEL"@ && other != "AUTO_IMPORT_ENABLED"@ ==> found(after, other)
                == found(cfg, other)
        }),
{
    trimming_takes_what_stands_around(front, text, back, CharClass::White);
    lemma_keys_differ();
    lemma_config_after_setup(cfg, body, "MAM_COOKIE"@);
    lemma_config_after_setup(cfg, body, "TRANSMISSION_URL"@);
    lemma_config_after_setup(cfg, body, "TRANSMISSION_USER"@);
    lemma_config_after_setup(cfg, body, "TRANSMISSION_PASS"@);
    lemma_config_after_setup(cfg, body, "TRANSMISSION_LABEL"@);
    lemma_config_after_setup(cfg, body, "AUTO_IMPORT_ENABLED"@);
    lemma_config_after_setup(cfg, body, other);
}

/// The setup page is served unless the variable that disables it holds a word
/// that switches something on.
pub proof fn setup_is_disabled_by_a_word(word: Seq<char>)
    ensures
        setup_is_enabled(Some(word)) <==> !truthy_text(word),
        setup_is_enabled(None) == setup_is_enabled(Some(Seq::empty())),
{
    reveal_strlit("");
    assert(""@ =~= Seq::empty());
}

/// The root serves the setup page exactly while setup is allowed and nothing
/// but white space was given as the cookie, in the configuration or else in the
/// environment.
pub proof fn setup_is_shown_until_there_is_a_cookie(
    cfg: ConfigView,
    env: EnvironmentView,
    cookie: Seq<char>,
)
    requires
        found(cfg, "MAM_COOKIE"@) == Some(JsonView::Text(cookie)) || (!(found(
            cfg,
            "MAM_COOKIE"@,
        ) matches Some(JsonView::Text(_))) && env.mam_cookie == Some(cookie)),
    ensures
        home_page(settings_of(cfg, env), true) == Page::Setup <==> blank(cookie),
        home_page(settings_of(cfg, env), false) == Page::Index,
{
    blank_cookie_is_no_cookie(cookie);
}

/// What is no octal number is no mask.
pub proof fn other_texts_are_no_mask(settings: Settings, i: int)
    requires
        settings.umask matches Some(raw) && 0 <= i < raw@.len() && !is_whitespace(raw@[i])
            && !(0x30 <= raw@[i] as u32 <= 0x37) && raw@[i] != '+',
    ensures
        settings.mask() is None,
{
    let other = (settings.umask->0)@;
    let word = trimmed(other);
    lemma_trimmed_start(other, CharClass::White);
    let m = trimmed_start(other, CharClass::White);
    lemma_trimmed_end(m, CharClass::White);
    let cut = other.len() - m.len();
    assert(i >= cut) by {
        if i < cut {
            assert(CharClass::White.has(other[i]));
        }
    }
    assert(m[i - cut] == other[i]);
    assert(i - cut < word.len()) by {
        if i - cut >= word.len() {
            assert(CharClass::White.has(m[i - cut]));
        }
    }
    assert(word[i - cut] == other[i]);
    numbers_are_digits_alone(word, 8, u32::MAX as int, i - cut);
}

}
