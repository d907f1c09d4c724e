use std::path::{Path, PathBuf};

use mam_audiofinder::names::{clean_status_detail, sanitize_name};
use mam_audiofinder::paths::{
    candidate_path, extension_of, join_path, leads_to_cue, next_available, path_climbs,
    path_file_name, path_lies_below, path_lies_in, resolved_steps, settle_path, with_file_name,
    NextName,
};

const PATHS: [&str; 24] = [
    "", "/", "//", ".", "./", "..", "a", "a/", "a/.", "a//.//", "/a", "/a/b", "/a/b/", "/a/./b/.",
    "./a", "a/..", "/..", "a/b..", "/a//b", "a/.b", "b.cue", "/x/.cue", "/x/a.b.CUE/", "/./.",
];

#[test]
fn names_fit_a_directory() {
    assert_eq!(sanitize_name("  A: B/C\\D\n\tE "), "A - B\u{FE68}C\u{FE68}D E");
    assert_eq!(sanitize_name(" \t "), "Unknown");
    assert_eq!(sanitize_name(""), "Unknown");
    assert_eq!(sanitize_name(&"x".repeat(300)), "x".repeat(200));
    assert_eq!(sanitize_name("$1"), "$1");
    assert_eq!(sanitize_name(" . "), "Unknown");
    assert_eq!(sanitize_name(".."), "Unknown");
    assert_eq!(sanitize_name("..."), "...");
    assert_eq!(sanitize_name("./."), ".\u{FE68}.");
}

#[test]
fn details_are_kept_on_one_short_line() {
    assert_eq!(clean_status_detail(Some(" a\n\n b ")), Some("a b".to_owned()));
    assert_eq!(clean_status_detail(Some(" \n ")), None);
    assert_eq!(clean_status_detail(None), None);
    let long = clean_status_detail(Some(&"y".repeat(501))).unwrap();
    assert_eq!(long, "y".repeat(500));
}

#[test]
fn paths_are_joined_as_the_standard_library_does() {
    for a in PATHS {
        for b in PATHS {
            let joined = Path::new(a).join(b);
            assert_eq!(join_path(a, b), joined.to_str().unwrap(), "{:?} {:?}", a, b);
        }
    }
}

#[test]
fn names_are_read_as_the_standard_library_does() {
    for p in PATHS {
        let path = Path::new(p);
        let name = path.file_name().map(|n| n.to_str().unwrap().to_owned());
        assert_eq!(path_file_name(p), name, "{:?}", p);
        if let Some(name) = name {
            let extension = path.extension().map(|e| e.to_str().unwrap().to_owned());
            assert_eq!(extension_of(&name), extension, "{:?}", p);
        }
        let cue = path
            .extension()
            .and_then(|e| e.to_str())
            .map(|e| e.eq_ignore_ascii_case("cue"))
            .unwrap_or(false);
        assert_eq!(leads_to_cue(p), cue, "{:?}", p);
    }
}

#[test]
fn paths_that_lead_up_are_told_apart() {
    for p in PATHS {
        let up = Path::new(p).components().any(|c| c.as_os_str() == "..");
        assert_eq!(path_climbs(p), up, "{:?}", p);
    }
}

#[test]
fn names_are_replaced_as_the_standard_library_does() {
    for p in PATHS {
        for name in ["new", "x (2)"] {
            let replaced: PathBuf = Path::new(p).with_file_name(name);
            assert_eq!(with_file_name(p, name), replaced.to_str().unwrap(), "{:?}", p);
        }
    }
}

#[test]
fn the_first_free_path_is_taken() {
    let path = "/library/Author/Title";
    assert_eq!(next_available(path, &vec![]), NextName::Probe(path.to_owned()));
    assert_eq!(next_available(path, &vec![false]), NextName::Free(path.to_owned()));
    assert_eq!(
        next_available(path, &vec![true]),
        NextName::Probe("/library/Author/Title (2)".to_owned())
    );
    assert_eq!(
        next_available(path, &vec![true, true, false, true]),
        NextName::Free("/library/Author/Title (3)".to_owned())
    );
    assert_eq!(
        next_available("..", &vec![true]),
        NextName::Probe("../Unknown (2)".to_owned())
    );
}

#[test]
fn the_paths_that_are_tried_all_differ() {
    for p in PATHS {
        let tried: Vec<String> = (0..12).map(|i| candidate_path(p, i)).collect();
        for i in 0..tried.len() {
            for j in 0..i {
                assert_ne!(tried[i], tried[j]);
            }
        }
    }
}

#[test]
fn a_number_does_not_move_a_path() {
    assert_eq!(candidate_path("/library/./Title/.", 1), "/library/Title (2)");
    assert_eq!(candidate_path("/library/Author/..", 1), "/library/Author/../Unknown (2)");
    assert_eq!(candidate_path("/library/./.", 1), "/library (2)");
}

#[test]
fn steps_up_are_taken_back() {
    let nothing: Vec<String> = Vec::new();
    assert_eq!(resolved_steps("/a/./b/../c"), vec!["a", "c"]);
    assert_eq!(resolved_steps("/../../a"), vec!["a"]);
    assert_eq!(resolved_steps("/a/.."), nothing);
    assert_eq!(settle_path("/a//b/../c/"), "/a/c");
    assert_eq!(settle_path("/a//c/"), "/a//c/");
    assert_eq!(settle_path("/a/.."), "/");
}

#[test]
fn places_are_told_by_where_paths_lead() {
    assert!(path_lies_in("/downloads/a/../b", "/downloads"));
    assert!(path_lies_in("/downloads", "/downloads"));
    assert!(path_lies_in("/x/../downloads/a", "/downloads"));
    assert!(!path_lies_in("/downloads/../etc", "/downloads"));
    assert!(!path_lies_in("downloads/a", "/downloads"));
    assert!(!path_lies_in("/", "/downloads"));
    assert!(path_lies_below("/downloads/a", "/downloads"));
    assert!(!path_lies_below("/downloads/a/..", "/downloads"));
}
