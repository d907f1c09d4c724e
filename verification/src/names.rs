//! Names for directories and messages for the history.
use crate::json::opt_view;
use crate::outside::replace_white_runs;
use crate::text::{
    blank, characters_are_replaced_one_by_one, first_chars, is_blank, is_whitespace, lemma_trimmed,
    replace_char, replaced_char, runs_of_white_space_become_one, same_text, spaced, take_chars,
    trim, trimmed, trimming_takes_what_stands_around, CharClass,
};
use vstd::prelude::*;
use vstd::string::*;

verus! {

broadcast use vstd::string::group_string_axioms;

/// `s` with the characters replaced that cannot stand in a file name: a colon
/// by a dash, a slash or a backslash by the small backslash U+FE68.
pub open spec fn without_separators(s: Seq<char>) -> Seq<char> {
    replaced_char(
        replaced_char(replaced_char(s, ':', " -"@), '\\', "\u{FE68}"@),
        '/',
        "\u{FE68}"@,
    )
}

/// The directory name for a name: separators replaced, runs of white space
/// made one space, at most 200 characters, and never blank nor one of the
/// names that stand for the directory itself and the one above it.
pub open spec fn safe_name(name: Seq<char>) -> Seq<char> {
    let s = first_chars(spaced(without_separators(trimmed(name)), " "@), 200);
    if blank(s) || s == "."@ || s == ".."@ {
        "Unknown"@
    } else {
        s
    }
}

/// The message to keep for a detail: on one line, at most 500 characters, and
/// none where it would be blank.
pub open spec fn kept_detail(detail: Option<Seq<char>>) -> Option<Seq<char>> {
    let raw = match detail {
        Some(s) => s,
        None => ""@,
    };
    let s = first_chars(spaced(trimmed(raw), " "@), 500);
    if blank(s) {
        None
    } else {
        Some(s)
    }
}

/// The text with every run of white space made one space.
fn one_line(s: &str) -> (r: String)
    ensures
        r@ == spaced(s@, " "@),
{
    proof {
        reveal_strlit(" ");
        assert(!" "@.contains('$'));
    }
    replace_white_runs("\\s+", s, " ")
}

/// The directory name for a name.
pub fn sanitize_name(name: &str) -> (r: String)
    ensures
        r@ == safe_name(name@),
{
    let s = replace_char(&trim(name), ':', " -");
    let s = replace_char(&s, '\\', "\u{FE68}");
    let s = replace_char(&s, '/', "\u{FE68}");
    let s = take_chars(&one_line(&s), 200);
    if is_blank(&s) || same_text(&s, ".") || same_text(&s, "..") {
        "Unknown".to_owned()
    } else {
        s
    }
}

/// The message to keep for a detail.
pub fn clean_status_detail(detail: Option<&str>) -> (r: Option<String>)
    ensures
        opt_view(r) == kept_detail(opt_view(detail)),
{
    let raw = match detail {
        Some(s) => trim(s),
        None => trim(""),
    };
    let s = take_chars(&one_line(&raw), 500);
    if is_blank(&s) {
        None
    } else {
        Some(s)
    }
}

// ---------------------------------------------------------------------------
// Laws
// ---------------------------------------------------------------------------

/// A replacement brings in nothing but the replacing text, and leaves nothing
/// of the replaced character.
proof fn lemma_replaced_char(s: Seq<char>, c: char, with: Seq<char>, bad: char)
    requires
        !with.contains(bad),
        bad == c || !s.contains(bad),
    ensures
        !replaced_char(s, c, with).contains(bad),
    decreases s.len(),
{
    if s.len() > 0 {
        let before = s.drop_last();
        assert(!s.contains(bad) ==> !before.contains(bad));
        lemma_replaced_char(before, c, with, bad);
        let r = replaced_char(s, c, with);
        let n = replaced_char(before, c, with).len();
        assert(s.contains(s.last()));
        assert forall|i: int| 0 <= i < r.len() implies r[i] != bad by {
            if i < n {
                assert(r[i] == replaced_char(before, c, with)[i]);
                assert(replaced_char(before, c, with).contains(r[i]));
            } else if s.last() == c {
                assert(r[i] == with[i - n]);
                assert(with.contains(r[i]));
            }
        }
    }
}

/// The text on one line: all its white space is single spaces, and other
/// characters stay as they are.
pub open spec fn on_one_line(s: Seq<char>) -> bool {
    forall|i: int|
        0 <= i < s.len() && is_whitespace(#[trigger] s[i]) ==> s[i] == ' ' && (i + 1 < s.len()
            ==> !is_whitespace(s[i + 1]))
}

/// Making runs of white space one space puts a text on one line, and brings
/// in no other character.
proof fn lemma_spaced(s: Seq<char>)
    ensures
        on_one_line(spaced(s, " "@)),
        forall|c: char| c != ' ' && #[trigger] spaced(s, " "@).contains(c) ==> s.contains(c),
        s.len() == 0 <==> spaced(s, " "@).len() == 0,
        s.len() > 0 ==> is_whitespace(s.last()) == is_whitespace(spaced(s, " "@).last()),
        s.len() > 0 && !is_whitespace(s[0]) ==> spaced(s, " "@)[0] == s[0],
    decreases s.len(),
{
    reveal_strlit(" ");
    if s.len() > 0 {
        let before = s.drop_last();
        lemma_spaced(before);
        let b = spaced(before, " "@);
        let r = spaced(s, " "@);
        assert(s.contains(s.last()));
        assert forall|c: char| before.contains(c) implies #[trigger] s.contains(c) by {
            let k = choose|k: int| 0 <= k < before.len() && before[k] == c;
            assert(s[k] == c);
        }
        if before.len() > 0 {
            assert(before.last() == s[s.len() - 2]);
            assert(before[0] == s[0]);
        }
        if !(is_whitespace(s.last()) && s.len() > 1 && is_whitespace(s[s.len() - 2])) {
            let added = if is_whitespace(s.last()) {
                ' '
            } else {
                s.last()
            };
            assert(r =~= b.push(added));
            assert forall|i: int| 0 <= i < r.len() && is_whitespace(#[trigger] r[i]) implies r[i]
                == ' ' && (i + 1 < r.len() ==> !is_whitespace(r[i + 1])) by {
                if i < b.len() {
                    assert(r[i] == b[i]);
                    if i + 1 < b.len() {
                        assert(r[i + 1] == b[i + 1]);
                    }
                }
            }
            assert forall|c: char| c != ' ' && #[trigger] r.contains(c) implies s.contains(c) by {
                let k = choose|k: int| 0 <= k < r.len() && r[k] == c;
                if k < b.len() {
                    assert(b[k] == c);
                    assert(b.contains(c));
                }
            }
        }
    }
}

/// The beginning of a text on one line is on one line.
proof fn lemma_first_chars(s: Seq<char>, n: int)
    requires
        n >= 0,
        on_one_line(s),
    ensures
        on_one_line(first_chars(s, n)),
        forall|c: char| #[trigger] first_chars(s, n).contains(c) ==> s.contains(c),
{
    let r = first_chars(s, n);
    assert forall|i: int| 0 <= i < r.len() && is_whitespace(#[trigger] r[i]) implies r[i] == ' '
        && (i + 1 < r.len() ==> !is_whitespace(r[i + 1])) by {
        assert(r[i] == s[i]);
        if i + 1 < r.len() {
            assert(r[i + 1] == s[i + 1]);
        }
    }
    assert forall|c: char| #[trigger] r.contains(c) implies s.contains(c) by {
        let k = choose|k: int| 0 <= k < r.len() && r[k] == c;
        assert(s[k] == c);
    }
}

/// A directory name is never blank, has at most 200 characters, no slash,
/// backslash or colon, and no white space but single spaces. It stands neither
/// for the directory itself nor for the one above it.
pub proof fn safe_name_fits_a_directory(name: Seq<char>)
    ensures
        !blank(safe_name(name)),
        1 <= safe_name(name).len() <= 200,
        !safe_name(name).contains('/'),
        !safe_name(name).contains('\\'),
        !safe_name(name).contains(':'),
        on_one_line(safe_name(name)),
        safe_name(name) != "."@,
        safe_name(name) != ".."@,
{
    reveal_strlit(".");
    reveal_strlit("..");
    reveal_strlit(" -");
    reveal_strlit("\u{FE68}");
    reveal_strlit("Unknown");
    let t = trimmed(name);
    let a = replaced_char(t, ':', " -"@);
    let b = replaced_char(a, '\\', "\u{FE68}"@);
    let c = replaced_char(b, '/', "\u{FE68}"@);
    lemma_replaced_char(t, ':', " -"@, ':');
    lemma_replaced_char(a, '\\', "\u{FE68}"@, ':');
    lemma_replaced_char(b, '/', "\u{FE68}"@, ':');
    lemma_replaced_char(a, '\\', "\u{FE68}"@, '\\');
    lemma_replaced_char(b, '/', "\u{FE68}"@, '\\');
    lemma_replaced_char(b, '/', "\u{FE68}"@, '/');
    lemma_spaced(c);
    lemma_first_chars(spaced(c, " "@), 200);
    assert("Unknown"@[0] == 'U');
    assert("."@[0] == '.' && ".."@[0] == '.');
    assert(!is_whitespace("Unknown"@[0]));
}

/// A message that is kept is not blank, has at most 500 characters, stands on
/// one line and does not begin with white space.
pub proof fn kept_detail_is_one_short_line(detail: Option<Seq<char>>)
    ensures
        kept_detail(detail) matches Some(s) ==> {
            &&& !blank(s)
            &&& 1 <= s.len() <= 500
            &&& on_one_line(s)
            &&& !is_whitespace(s[0])
        },
{
    let raw = match detail {
        Some(s) => s,
        None => ""@,
    };
    let t = trimmed(raw);
    lemma_trimmed(raw, CharClass::White);
    lemma_spaced(t);
    lemma_first_chars(spaced(t, " "@), 500);
}

/// Whether a text is kept as it is where runs of white space are made one
/// space: it has no white space at its ends, and within only single spaces.
pub open spec fn is_one_line(s: Seq<char>) -> bool {
    s.len() > 0 && !is_whitespace(s[0]) && !is_whitespace(s.last()) && on_one_line(s)
}

/// A text on one line is not changed by making runs of white space one space.
proof fn lemma_one_line_stays(s: Seq<char>)
    requires
        on_one_line(s),
    ensures
        spaced(s, " "@) == s,
    decreases s.len(),
{
    reveal_strlit(" ");
    assert(" "@ =~= seq![' ']);
    if s.len() > 0 {
        let before = s.drop_last();
        assert forall|i: int| 0 <= i < before.len() && is_whitespace(
            #[trigger] before[i],
        ) implies before[i] == ' ' && (i + 1 < before.len() ==> !is_whitespace(before[i + 1])) by {
            assert(before[i] == s[i]);
            if i + 1 < before.len() {
                assert(before[i + 1] == s[i + 1]);
            }
        }
        lemma_one_line_stays(before);
        if is_whitespace(s.last()) {
            assert(s[s.len() - 1] == ' ');
            if s.len() > 1 {
                assert(!is_whitespace(s[s.len() - 2]));
            }
            assert(before + " "@ =~= s);
        } else {
            assert(before.push(s.last()) =~= s);
        }
    }
}

/// A name that can stand as a directory is kept as it is, whatever white space
/// stands around it; of a longer one the first 200 characters are kept.
pub proof fn ordinary_names_are_kept(front: Seq<char>, name: Seq<char>, back: Seq<char>)
    requires
        blank(front),
        blank(back),
        is_one_line(name),
        !name.contains(':'),
        !name.contains('\\'),
        !name.contains('/'),
        name != seq!['.'],
        name != seq!['.', '.'],
    ensures
        name.len() <= 200 ==> safe_name(front + name + back) == name,
        name.len() > 200 ==> safe_name(front + name + back) == name.take(200),
{
    reveal_strlit(".");
    reveal_strlit("..");
    assert("."@ =~= seq!['.']);
    assert(".."@ =~= seq!['.', '.']);
    let empty = Seq::<char>::empty();
    trimming_takes_what_stands_around(front, name, back, CharClass::White);
    characters_are_replaced_one_by_one(name, empty, ':', " -"@);
    characters_are_replaced_one_by_one(name, empty, '\\', "\u{FE68}"@);
    characters_are_replaced_one_by_one(name, empty, '/', "\u{FE68}"@);
    lemma_one_line_stays(name);
    let kept = first_chars(name, 200);
    assert(kept[0] == name[0]);
    assert(!blank(kept));
    assert(name.len() > 200 ==> kept.len() == 200);
}

/// A colon in a name becomes a dash, a slash or a backslash the small
/// backslash, and nothing else of it changes: what stands before and after
/// stays.
pub proof fn separators_in_names_are_replaced(a: Seq<char>, b: Seq<char>)
    requires
        is_one_line(a),
        is_one_line(b),
        !a.contains(':') && !a.contains('\\') && !a.contains('/'),
        !b.contains(':') && !b.contains('\\') && !b.contains('/'),
        a.len() + b.len() < 199,
    ensures
        safe_name(a.push(':') + b) == a + seq![' ', '-'] + b,
        safe_name(a.push('/') + b) == a.push('\u{FE68}') + b,
        safe_name(a.push('\\') + b) == a.push('\u{FE68}') + b,
{
    reveal_strlit(" -");
    reveal_strlit("\u{FE68}");
    assert(" -"@ =~= seq![' ', '-']);
    assert("\u{FE68}"@ =~= seq!['\u{FE68}']);
    lemma_separator_replaced(a, ':', b, seq![' ', '-']);
    lemma_separator_replaced(a, '/', b, seq!['\u{FE68}']);
    lemma_separator_replaced(a, '\\', b, seq!['\u{FE68}']);
    assert(a + seq!['\u{FE68}'] + b =~= a.push('\u{FE68}') + b);
}

/// A separator between two parts of a name is replaced by itself.
proof fn lemma_separator_replaced(a: Seq<char>, c: char, b: Seq<char>, with: Seq<char>)
    requires
        is_one_line(a),
        is_one_line(b),
        !a.contains(':') && !a.contains('\\') && !a.contains('/'),
        !b.contains(':') && !b.contains('\\') && !b.contains('/'),
        a.len() + b.len() < 199,
        (c == ':' && with == " -"@ && with == seq![' ', '-']) || ((c == '/' || c == '\\') && with
            == "\u{FE68}"@ && with == seq!['\u{FE68}']),
    ensures
        safe_name(a.push(c) + b) == a + with + b,
{
    reveal_strlit(".");
    reveal_strlit("..");
    let empty = Seq::<char>::empty();
    let whole = a.push(c) + b;
    let made = a + with + b;
    trimming_takes_what_stands_around(empty, whole, empty, CharClass::White);
    assert(empty + whole + empty =~= whole);
    assert(whole[0] == a[0] && whole.last() == b.last());
    let one = replaced_char(whole, ':', " -"@);
    let two = replaced_char(one, '\\', "\u{FE68}"@);
    lemma_replaced_between(a, c, b, ':', " -"@);
    if c == ':' {
        assert(one == made);
        lemma_replaced_middle(a, with, b, '\\', "\u{FE68}"@);
        lemma_replaced_middle(a, with, b, '/', "\u{FE68}"@);
    } else {
        assert(one == whole);
        lemma_replaced_between(a, c, b, '\\', "\u{FE68}"@);
        if c == '\\' {
            lemma_replaced_middle(a, with, b, '/', "\u{FE68}"@);
        } else {
            lemma_replaced_between(a, c, b, '/', "\u{FE68}"@);
        }
    }
    assert(without_separators(whole) == made);
    assert forall|i: int| 0 <= i < made.len() && is_whitespace(#[trigger] made[i]) implies made[i]
        == ' ' && (i + 1 < made.len() ==> !is_whitespace(made[i + 1])) by {
        if i < a.len() {
            assert(made[i] == a[i]);
            assert(is_whitespace(a[i]));
            assert(i + 1 < a.len());
            assert(made[i + 1] == a[i + 1]);
        } else if i < a.len() + with.len() {
            assert(made[i] == with[i - a.len()]);
            assert(i == a.len());
            assert(made[i + 1] == with[1]);
        } else {
            let k = i - a.len() - with.len();
            assert(made[i] == b[k]);
            if i + 1 < made.len() {
                assert(made[i + 1] == b[k + 1]);
            }
        }
    }
    lemma_one_line_stays(made);
    assert(made[0] == a[0]);
    assert(!blank(made));
    assert(made.len() <= 200);
    assert(made.len() >= 3);
}

/// What is replaced between two parts without it.
proof fn lemma_replaced_between(
    a: Seq<char>,
    c: char,
    b: Seq<char>,
    bad: char,
    with: Seq<char>,
)
    requires
        !a.contains(bad),
        !b.contains(bad),
    ensures
        replaced_char(a.push(c) + b, bad, with) == if c == bad {
            a + with + b
        } else {
            a.push(c) + b
        },
{
    let middle = seq![c];
    assert(a.push(c) + b =~= (a + middle) + b);
    characters_are_replaced_one_by_one(a + middle, b, bad, with);
    characters_are_replaced_one_by_one(a, middle, bad, with);
    characters_are_replaced_one_by_one(b, middle, bad, with);
    if c != bad {
        assert(!middle.contains(bad));
        characters_are_replaced_one_by_one(middle, b, bad, with);
        assert(a + middle + b =~= a.push(c) + b);
    }
}

/// Nothing is replaced in three parts without it.
proof fn lemma_replaced_middle(
    a: Seq<char>,
    middle: Seq<char>,
    b: Seq<char>,
    bad: char,
    with: Seq<char>,
)
    requires
        !a.contains(bad),
        !b.contains(bad),
        forall|i: int| 0 <= i < middle.len() ==> #[trigger] middle[i] != bad,
    ensures
        replaced_char(a + middle + b, bad, with) == a + middle + b,
{
    assert(!middle.contains(bad));
    characters_are_replaced_one_by_one(a + middle, b, bad, with);
    characters_are_replaced_one_by_one(a, middle, bad, with);
    characters_are_replaced_one_by_one(b, middle, bad, with);
    characters_are_replaced_one_by_one(middle, b, bad, with);
}

/// A name that says nothing, or stands for a directory itself or the one above
/// it, gives way to "Unknown".
pub proof fn empty_names_are_unknown(name: Seq<char>)
    requires
        blank(name) || name == seq!['.'] || name == seq!['.', '.'],
    ensures
        safe_name(name) == "Unknown"@,
{
    reveal_strlit(".");
    reveal_strlit("..");
    assert("."@ =~= seq!['.']);
    assert(".."@ =~= seq!['.', '.']);
    let empty = Seq::<char>::empty();
    characters_are_replaced_one_by_one(empty, empty, ':', " -"@);
    characters_are_replaced_one_by_one(empty, empty, '\\', "\u{FE68}"@);
    characters_are_replaced_one_by_one(empty, empty, '/', "\u{FE68}"@);
    trimming_takes_what_stands_around(empty, name, empty, CharClass::White);
    assert(empty + name + empty =~= name);
    if blank(name) {
        trimming_takes_what_stands_around(name, empty, empty, CharClass::White);
        assert(trimmed(name) =~= empty);
    } else {
        characters_are_replaced_one_by_one(name, empty, ':', " -"@);
        characters_are_replaced_one_by_one(name, empty, '\\', "\u{FE68}"@);
        characters_are_replaced_one_by_one(name, empty, '/', "\u{FE68}"@);
        lemma_one_line_stays(name);
    }
}

/// A detail on one line is kept as it is, whatever white space stands around
/// it; of a longer one the first 500 characters are kept.
pub proof fn ordinary_details_are_kept(front: Seq<char>, detail: Seq<char>, back: Seq<char>)
    requires
        blank(front),
        blank(back),
        is_one_line(detail),
    ensures
        detail.len() <= 500 ==> kept_detail(Some(front + detail + back)) == Some(detail),
        detail.len() > 500 ==> kept_detail(Some(front + detail + back)) == Some(detail.take(500)),
{
    trimming_takes_what_stands_around(front, detail, back, CharClass::White);
    lemma_one_line_stays(detail);
    let kept = first_chars(detail, 500);
    assert(kept[0] == detail[0]);
    assert(!blank(kept));
}

/// Lines are put behind each other with one space between them.
pub proof fn lines_are_joined_by_one_space(a: Seq<char>, run: Seq<char>, b: Seq<char>)
    requires
        forall|i: int| 0 <= i < a.len() ==> !is_whitespace(#[trigger] a[i]),
        a.len() > 0,
        run.len() > 0,
        blank(run),
        is_one_line(b),
        a.len() + b.len() < 500,
    ensures
        kept_detail(Some(a + run + b)) == Some(a.push(' ') + b),
{
    reveal_strlit(" ");
    assert(" "@ =~= seq![' ']);
    let empty = Seq::<char>::empty();
    let whole = a + run + b;
    assert(whole[0] == a[0] && whole.last() == b.last());
    trimming_takes_what_stands_around(empty, whole, empty, CharClass::White);
    assert(empty + whole + empty =~= whole);
    runs_of_white_space_become_one(a, run, b, " "@);
    lemma_one_line_stays(b);
    let kept = a.push(' ') + b;
    assert(a + " "@ + b =~= kept);
    assert(kept[0] == a[0]);
    assert(!is_whitespace(kept[0]));
}

/// Without a detail, or with a blank one, none is kept.
pub proof fn nothing_is_kept_of_nothing()
    ensures
        kept_detail(None) is None,
        forall|s: Seq<char>| #[trigger] kept_detail(Some(s)) is Some ==> !blank(s),
{
    reveal_strlit("");
    assert forall|s: Seq<char>| #[trigger] kept_detail(Some(s)) is Some implies !blank(s) by {
        if blank(s) {
            trimming_takes_what_stands_around(s, Seq::empty(), Seq::empty(), CharClass::White);
        }
    }
    trimming_takes_what_stands_around(""@, Seq::empty(), Seq::empty(), CharClass::White);
}

}
