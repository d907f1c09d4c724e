//! Words with a meaning: switches, media types and positive numbers.
use crate::error::{bad_request, result_view, AppError, ErrorView, Status};
use crate::json::opt_view;
use crate::numbers::{
    decimal, decimal_spells_its_number, is_digit, numbers_are_digits_alone, parse_number,
    spelled_number, written_numbers_are_read,
};
use crate::outside::lowercased;
use crate::text::{
    ascii_lowered, blank, is_ascii_text, is_whitespace, lemma_trimmed_end, lemma_trimmed_start,
    same_text, trim, trimmed, trimmed_start, trimming_takes_what_stands_around, CharClass,
};
use vstd::prelude::*;
use vstd::string::*;

verus! {

broadcast use vstd::string::group_string_axioms;

/// The words that switch something on.
pub open spec fn truthy_word(word: Seq<char>) -> bool {
    ||| word == "1"@
    ||| word == "true"@
    ||| word == "yes"@
    ||| word == "on"@
}

/// Whether a text switches something on: a truthy word in any case, with any
/// white space around it.
pub open spec fn truthy_text(value: Seq<char>) -> bool {
    truthy_word(lowercased(trimmed(value)))
}

/// Whether the word switches something on.
pub fn is_truthy_word(word: &str) -> (r: bool)
    ensures
        r == truthy_word(word@),
{
    same_text(word, "1") || same_text(word, "true") || same_text(word, "yes") || same_text(
        word,
        "on",
    )
}

/// Whether the text switches something on.
pub fn is_truthy_str(value: &str) -> (r: bool)
    ensures
        r == truthy_text(value@),
        is_ascii_text(trimmed(value@)) ==> r == truthy_word(ascii_lowered(trimmed(value@))),
{
    let word = trim(value).to_lowercase();
    is_truthy_word(&word)
}

/// The positive number that a text spells, or the default.
pub open spec fn positive_number(value: Seq<char>, default: u64) -> u64 {
    match spelled_number(trimmed(value), 10, u64::MAX as int) {
        Some(n) => if n > 0 {
            n as u64
        } else {
            default
        },
        None => default,
    }
}

/// The positive number that the text spells, or the default.
pub fn parse_positive_int(value: &str, default: u64) -> (r: u64)
    ensures
        r == positive_number(value@, default),
{
    let digits = trim(value);
    match parse_number(&digits, 10, u64::MAX) {
        Some(n) => if n > 0 {
            n
        } else {
            default
        },
        None => default,
    }
}

/// The media type that a word in lower case names.
pub open spec fn media_word(word: Seq<char>) -> Option<Seq<char>> {
    if word == "audiobook"@ || word == "audiobooks"@ || word == "audio"@ {
        Some("audiobook"@)
    } else if word == "ebook"@ || word == "ebooks"@ || word == "e-book"@ || word == "e-books"@ {
        Some("ebook"@)
    } else {
        None
    }
}

/// The media type that a text names, or the refusal of it.
pub open spec fn media_type_named(word: Seq<char>) -> Result<Seq<char>, ErrorView> {
    match media_word(word) {
        Some(media_type) => Ok(media_type),
        None => Err(bad_request("media_type must be audiobook or ebook"@)),
    }
}

/// The media type of a request: what it names, in any case and with any white
/// space around it, or an audiobook where it names nothing.
pub open spec fn media_type_of(value: Option<Seq<char>>) -> Result<Seq<char>, ErrorView> {
    let text = match value {
        Some(s) => s,
        None => "audiobook"@,
    };
    media_type_named(lowercased(trimmed(text)))
}

/// The media type that a word in lower case names.
pub fn media_type_from_word(word: &str) -> (r: Result<String, AppError>)
    ensures
        result_view(r) == media_type_named(word@),
{
    if same_text(word, "audiobook") || same_text(word, "audiobooks") || same_text(word, "audio") {
        Ok("audiobook".to_owned())
    } else if same_text(word, "ebook") || same_text(word, "ebooks") || same_text(word, "e-book")
        || same_text(word, "e-books") {
        Ok("ebook".to_owned())
    } else {
        Err(AppError::bad_request("media_type must be audiobook or ebook"))
    }
}

/// The media type of a request.
pub fn normalize_media_type(value: Option<&str>) -> (r: Result<String, AppError>)
    ensures
        result_view(r) == media_type_of(opt_view(value)),
        value matches Some(s) ==> is_ascii_text(trimmed(s@)) ==> result_view(r)
            == media_type_named(ascii_lowered(trimmed(s@))),
        value matches Some(s) ==> is_media_type(s@) ==> result_view(r) == Ok::<_, ErrorView>(s@),
        value is None ==> result_view(r) == Ok::<_, ErrorView>("audiobook"@),
        r matches Ok(media_type) ==> is_media_type(media_type@),
{
    let text = match value {
        Some(s) => s,
        None => "audiobook",
    };
    let word = trim(text).to_lowercase();
    proof {
        if is_media_type(text@) {
            lemma_media_type_stays(text@);
        }
    }
    media_type_from_word(&word)
}

/// The two media types have nothing to trim and nothing in capitals.
proof fn lemma_media_type_stays(media_type: Seq<char>)
    requires
        is_media_type(media_type),
    ensures
        trimmed(media_type) == media_type,
        is_ascii_text(media_type),
        ascii_lowered(media_type) == media_type,
        media_word(media_type) == Some(media_type),
{
    reveal_strlit("audiobooks");
    reveal_strlit("audio");
    reveal_strlit("audiobook");
    reveal_strlit("ebook");
    assert(ascii_lowered(media_type) =~= media_type);
    assert("ebook"@[0] != "audio"@[0]);
}

/// Whether a text is one of the two media types.
pub open spec fn is_media_type(media_type: Seq<char>) -> bool {
    media_type == "audiobook"@ || media_type == "ebook"@
}

/// The number of the tracker's main category for a media type.
pub open spec fn main_category(media_type: Seq<char>) -> Seq<char> {
    if media_type == "ebook"@ {
        "14"@
    } else {
        "13"@
    }
}

/// The number of the tracker's main category for the media type.
pub fn media_main_category(media_type: &str) -> (r: &'static str)
    ensures
        r@ == main_category(media_type@),
{
    if same_text(media_type, "ebook") {
        "14"
    } else {
        "13"
    }
}

// ---------------------------------------------------------------------------
// Laws
// ---------------------------------------------------------------------------

/// Four words switch something on, and no other: the figure one, "true", "yes"
/// and "on".
pub proof fn four_words_switch_on(word: Seq<char>)
    ensures
        truthy_word(word) <==> word == seq!['1'] || word == seq!['t', 'r', 'u', 'e'] || word == seq![
            'y',
            'e',
            's',
        ] || word == seq!['o', 'n'],
{
    reveal_strlit("1");
    reveal_strlit("true");
    reveal_strlit("yes");
    reveal_strlit("on");
    assert("1"@ =~= seq!['1']);
    assert("true"@ =~= seq!['t', 'r', 'u', 'e']);
    assert("yes"@ =~= seq!['y', 'e', 's']);
    assert("on"@ =~= seq!['o', 'n']);
}

/// What a text means does not depend on the white space around it: neither
/// whether it switches something on, nor the media type or the number it
/// names.
pub proof fn white_space_around_a_word_does_not_count(
    front: Seq<char>,
    word: Seq<char>,
    back: Seq<char>,
    default: u64,
)
    requires
        blank(front),
        blank(back),
        word.len() > 0,
        !is_whitespace(word[0]),
        !is_whitespace(word.last()),
    ensures
        truthy_text(front + word + back) == truthy_word(lowercased(word)),
        positive_number(front + word + back, default) == positive_number(word, default),
        media_type_of(Some(front + word + back)) == media_type_of(Some(word)),
        media_type_of(Some(word)) == media_type_named(lowercased(word)),
{
    let empty = Seq::<char>::empty();
    trimming_takes_what_stands_around(front, word, back, CharClass::White);
    trimming_takes_what_stands_around(empty, word, empty, CharClass::White);
    assert(empty + word + empty =~= word);
}

/// A positive number that fits is read as it is written; zero, a number that
/// is too large and what is no number give the default.
pub proof fn positive_numbers_are_read(n: int, default: u64, other: Seq<char>, i: int)
    requires
        n >= 0,
        0 <= i < other.len(),
        !is_whitespace(other[i]),
        !(0x30 <= other[i] as u32 <= 0x39),
        other[i] != '+',
    ensures
        0 < n <= u64::MAX ==> positive_number(decimal(n), default) == n,
        n == 0 || n > u64::MAX ==> positive_number(decimal(n), default) == default,
        positive_number(other, default) == default,
{
    written_numbers_are_read(n, u64::MAX as int);
    decimal_spells_its_number(n);
    let digits = decimal(n);
    assert(is_digit(digits[0], 10) && is_digit(digits[digits.len() - 1], 10));
    let empty = Seq::<char>::empty();
    trimming_takes_what_stands_around(empty, digits, empty, CharClass::White);
    assert(empty + digits + empty =~= digits);
    let word = trimmed(other);
    lemma_trimmed_start(other, CharClass::White);
    let m = trimmed_start(other, CharClass::White);
    lemma_trimmed_end(m, CharClass::White);
    let cut = other.len() - m.len();
    assert(i >= cut) by {
        if i < cut {
            assert(CharClass::White.has(other[i]));
        }
    }
    assert(m[i - cut] == other[i]);
    assert(i - cut < word.len()) by {
        if i - cut >= word.len() {
            assert(CharClass::White.has(m[i - cut]));
        }
    }
    assert(word[i - cut] == other[i]);
    numbers_are_digits_alone(word, 10, u64::MAX as int, i - cut);
}

/// Three words name audiobooks and four name ebooks; every other word is
/// refused as a bad request, and no word names a third kind.
pub proof fn seven_words_name_a_media_type(word: Seq<char>)
    ensures
        media_type_named(word) == Ok::<_, ErrorView>("audiobook"@) <==> word == "audio"@ || word
            == "audio"@ + "book"@ || word == "audio"@ + "books"@,
        media_type_named(word) == Ok::<_, ErrorView>("ebook"@) <==> word == "e"@ + "book"@ || word
            == "e"@ + "books"@ || word == "e-"@ + "book"@ || word == "e-"@ + "books"@,
        media_type_named(word) matches Ok(media_type) ==> media_type == "audiobook"@ || media_type
            == "ebook"@,
        media_type_named(word) matches Err(e) ==> e.status == Status::BadRequest && e.detail
            == "media_type must be audiobook or ebook"@,
{
    reveal_strlit("audio");
    reveal_strlit("audiobook");
    reveal_strlit("audiobooks");
    reveal_strlit("book");
    reveal_strlit("books");
    reveal_strlit("e");
    reveal_strlit("e-");
    reveal_strlit("ebook");
    reveal_strlit("ebooks");
    reveal_strlit("e-book");
    reveal_strlit("e-books");
    assert("audio"@ + "book"@ =~= "audiobook"@);
    assert("audio"@ + "books"@ =~= "audiobooks"@);
    assert("e"@ + "book"@ =~= "ebook"@);
    assert("e"@ + "books"@ =~= "ebooks"@);
    assert("e-"@ + "book"@ =~= "e-book"@);
    assert("e-"@ + "books"@ =~= "e-books"@);
    assert("audio"@[0] == 'a' && "audiobook"@[0] == 'a' && "audiobooks"@[0] == 'a');
    assert("ebook"@[0] == 'e' && "ebooks"@[0] == 'e' && "e-book"@[0] == 'e' && "e-books"@[0]
        == 'e');
}

/// A media type names itself, a request without one is for an audiobook, and
/// the two media types belong to different categories.
pub proof fn media_types_name_themselves(media_type: Seq<char>)
    requires
        media_type == "audiobook"@ || media_type == "ebook"@,
    ensures
        media_type_named(media_type) == Ok::<_, ErrorView>(media_type),
        media_type_of(None) == media_type_of(Some("audiobook"@)),
        main_category("audiobook"@) == seq!['1', '3'],
        main_category("ebook"@) == seq!['1', '4'],
{
    lemma_media_type_stays(media_type);
    reveal_strlit("13");
    reveal_strlit("14");
    reveal_strlit("audiobook");
    reveal_strlit("ebook");
    assert("13"@ =~= seq!['1', '3']);
    assert("14"@ =~= seq!['1', '4']);
    assert("audiobook"@.len() == 9 && "ebook"@.len() == 5);
}

}
