//! Readable text from the JSON values that the tracker answers with.
use crate::json::{
    entries_view, items_view, lemma_array_view, lemma_object_view, opt_view, parse_json, text_in,
    Json, JsonView, NumberView,
};
use crate::outside::{capture_first_groups, first_groups, format_pattern, parsed_json, uppercased};
use crate::paths::lemma_split_append;
use crate::settings::{is_truthy_json, truthy_json};
use crate::text::{
    blank, cut_at, cuts_are_at_the_first, is_one_of, is_whitespace, join, joined, lemma_trimmed,
    split, split_by, split_once, starts_with, trim, trim_of, trimmed, trimmed_of,
    trimming_takes_what_stands_around, views, CharClass,
};
use crate::words::truthy_text;
use vstd::prelude::*;
use vstd::string::*;

verus! {

broadcast use vstd::string::group_string_axioms;

// ---------------------------------------------------------------------------
// Models
// ---------------------------------------------------------------------------

/// The texts that are not empty.
pub open spec fn non_empty(texts: Seq<Seq<char>>) -> Seq<Seq<char>> {
    texts.filter(|t: Seq<char>| t.len() > 0)
}

/// The texts that are not empty, listed with commas.
pub open spec fn listed(texts: Seq<Seq<char>>) -> Seq<char> {
    joined(non_empty(texts), ", "@)
}

/// The text for a JSON value: arrays and objects list the texts of their
/// values.
pub open spec fn value_text(v: JsonView) -> Seq<char>
    decreases v,
{
    match v {
        JsonView::Null => Seq::empty(),
        JsonView::Bool(b) => if b {
            "true"@
        } else {
            "false"@
        },
        JsonView::Number(n) => n.text,
        JsonView::Text(s) => s,
        JsonView::Array(items) => listed(item_texts(items)),
        JsonView::Object(entries) => listed(entry_texts(entries)),
    }
}

/// The texts for the items of an array.
pub open spec fn item_texts(items: Seq<JsonView>) -> Seq<Seq<char>>
    decreases items,
{
    if items.len() == 0 {
        Seq::empty()
    } else {
        item_texts(items.drop_last()).push(value_text(items.last()))
    }
}

/// The texts for the values of an object.
pub open spec fn entry_texts(entries: Seq<(Seq<char>, JsonView)>) -> Seq<Seq<char>>
    decreases entries,
{
    if entries.len() == 0 {
        Seq::empty()
    } else {
        entry_texts(entries.drop_last()).push(value_text(entries.last().1))
    }
}

/// What stands behind the first colon of a piece, or the piece where it has
/// none, without white space and quotes around it.
pub open spec fn piece_text(piece: Seq<char>) -> Seq<char> {
    let right = match cut_at(piece, ':') {
        Some(cut) => cut.1,
        None => piece,
    };
    trimmed_of(trimmed_of(trimmed(right), CharClass::Just('"')), CharClass::Just('\''))
}

/// The text for a list in a notation of its own: the pieces between the
/// commas, without curly brackets around them all. Where no piece has any
/// text, the list is kept as it stands.
pub open spec fn loose_list_text(s: Seq<char>) -> Seq<char> {
    let pieces = non_empty(
        split_by(trimmed_of(s, CharClass::Curly), ',').map_values(
            |p: Seq<char>| piece_text(p),
        ),
    );
    if pieces.len() == 0 {
        s
    } else {
        joined(pieces, ", "@)
    }
}

/// Whether a text opens like a JSON object or array.
pub open spec fn opens_like_json(s: Seq<char>) -> bool {
    s.len() > 0 && (s[0] == '{' || s[0] == '[')
}

/// The text for a text: that of the JSON value it holds, or of a loose list.
/// A text that holds a text is read once more; what it holds is shorter.
pub open spec fn flat_text(s: Seq<char>) -> Seq<char>
    decreases s.len(),
{
    let t = trimmed(s);
    if opens_like_json(t) {
        match parsed_json(t) {
            Some(JsonView::Text(inner)) => if inner.len() < s.len() {
                flat_text(inner)
            } else {
                inner
            },
            Some(v) => value_text(v),
            None => loose_list_text(t),
        }
    } else {
        loose_list_text(t)
    }
}

/// The text for a trimmed text of which it is known what it is in JSON.
pub open spec fn known_text(s: Seq<char>, parsed: Option<JsonView>) -> Seq<char> {
    if opens_like_json(s) && parsed is Some {
        flat_value(parsed)
    } else {
        loose_list_text(s)
    }
}

/// The readable text for an optional value.
pub open spec fn flat_value(value: Option<JsonView>) -> Seq<char> {
    match value {
        None => Seq::empty(),
        Some(JsonView::Text(s)) => flat_text(s),
        Some(v) => value_text(v),
    }
}

/// The texts without those that came before.
pub open spec fn distinct(texts: Seq<Seq<char>>) -> Seq<Seq<char>>
    decreases texts.len(),
{
    if texts.len() == 0 {
        texts
    } else {
        let before = distinct(texts.drop_last());
        if before.contains(texts.last()) {
            before
        } else {
            before.push(texts.last())
        }
    }
}

/// The text under `key` without white space around it, unless that is empty.
pub open spec fn stated(item: JsonView, key: Seq<char>) -> Option<Seq<char>> {
    match text_in(item.get(key)) {
        Some(s) => if trimmed(s).len() > 0 {
            Some(trimmed(s))
        } else {
            None
        },
        None => None,
    }
}

/// The format that an item states in one of the fields for it.
pub open spec fn stated_format(item: JsonView) -> Option<Seq<char>> {
    if stated(item, "format"@) is Some {
        stated(item, "format"@)
    } else if stated(item, "filetype"@) is Some {
        stated(item, "filetype"@)
    } else if stated(item, "container"@) is Some {
        stated(item, "container"@)
    } else if stated(item, "encoding"@) is Some {
        stated(item, "encoding"@)
    } else {
        stated(item, "format_name"@)
    }
}

/// The name in which a format is looked for.
pub open spec fn name_for_format(item: JsonView) -> Seq<char> {
    match text_in(item.get("title"@)) {
        Some(s) => s,
        None => match text_in(item.get("name"@)) {
            Some(s) => s,
            None => Seq::empty(),
        },
    }
}

/// The formats that were found, each once and in capitals.
pub open spec fn formats_text(found: Seq<Seq<char>>) -> Seq<char> {
    joined(distinct(found.map_values(|t: Seq<char>| uppercased(t))), "/"@)
}

/// The format of an item: what it states, or what its name says.
pub open spec fn format_of(item: JsonView) -> Seq<char> {
    match stated_format(item) {
        Some(s) => s,
        None => formats_text(first_groups(format_pattern(), name_for_format(item))),
    }
}

/// Whether an optional value switches something on.
pub open spec fn truthy(value: Option<JsonView>) -> bool {
    match value {
        Some(v) => truthy_json(v),
        None => false,
    }
}

/// The identifier that an optional value is.
pub open spec fn id_text(value: Option<JsonView>) -> Seq<char> {
    match value {
        Some(JsonView::Number(n)) => n.text,
        Some(v) => trimmed(value_text(v)),
        None => Seq::empty(),
    }
}

// ---------------------------------------------------------------------------
// Executable values
// ---------------------------------------------------------------------------

/// The texts that are not empty.
fn keep_non_empty(texts: &Vec<String>) -> (r: Vec<String>)
    ensures
        views(r@) == non_empty(views(texts@)),
{
    let mut out: Vec<String> = Vec::new();
    let mut i: usize = 0;
    proof {
        reveal(Seq::filter);
    }
    assert(views(texts@).take(0) =~= Seq::empty());
    assert(views(out@) =~= non_empty(views(texts@).take(0)));
    while i < texts.len()
        invariant
            i <= texts@.len(),
            views(out@) == non_empty(views(texts@).take(i as int)),
        decreases texts@.len() - i,
    {
        proof {
            reveal(Seq::filter);
        }
        assert(views(texts@).take(i + 1).drop_last() =~= views(texts@).take(i as int));
        if !texts[i].as_str().is_empty() {
            let ghost before = out@;
            out.push(texts[i].clone());
            assert(views(out@) =~= views(before).push(texts@[i as int]@));
        }
        i += 1;
    }
    assert(views(texts@).take(texts@.len() as int) =~= views(texts@));
    out
}

/// The texts that are not empty, listed with commas.
fn list_texts(texts: &Vec<String>) -> (r: String)
    ensures
        r@ == listed(views(texts@)),
{
    join(&keep_non_empty(texts), ", ")
}

/// The text for the JSON value.
pub fn value_to_string(v: &Json) -> (r: String)
    ensures
        r@ == value_text(v@),
    decreases v,
{
    match v {
        Json::Null => String::new(),
        Json::Bool(b) => if *b {
            "true".to_owned()
        } else {
            "false".to_owned()
        },
        Json::Number(n) => n.text.clone(),
        Json::Text(s) => s.clone(),
        Json::Array(items) => {
            let mut texts: Vec<String> = Vec::new();
            let mut i: usize = 0;
            assert(views(texts@) =~= Seq::empty());
            while i < items.len()
                invariant
                    i <= items@.len(),
                    v matches Json::Array(own) && own == items,
                    views(texts@) == item_texts(items_view(items@).take(i as int)),
                decreases items@.len() - i,
            {
                let ghost before = texts@;
                assert(items_view(items@).take(i + 1).drop_last() =~= items_view(items@).take(
                    i as int,
                ));
                let text = value_to_string(&items[i]);
                texts.push(text);
                assert(views(texts@) =~= views(before).push(text@));
                i += 1;
            }
            proof {
                lemma_array_view(*v);
                assert(items_view(items@).take(items@.len() as int) =~= items_view(items@));
            }
            list_texts(&texts)
        },
        Json::Object(entries) => {
            let mut texts: Vec<String> = Vec::new();
            let mut i: usize = 0;
            assert(views(texts@) =~= Seq::empty());
            while i < entries.len()
                invariant
                    i <= entries@.len(),
                    v matches Json::Object(own) && own == entries,
                    views(texts@) == entry_texts(entries_view(entries@).take(i as int)),
                decreases entries@.len() - i,
            {
                let ghost before = texts@;
                assert(entries_view(entries@).take(i + 1).drop_last() =~= entries_view(
                    entries@,
                ).take(i as int));
                let text = value_to_string(&entries[i].1);
                texts.push(text);
                assert(views(texts@) =~= views(before).push(text@));
                i += 1;
            }
            proof {
                lemma_object_view(*v);
                assert(entries_view(entries@).take(entries@.len() as int) =~= entries_view(
                    entries@,
                ));
            }
            list_texts(&texts)
        },
    }
}

/// What a piece of a loose list says.
fn read_piece(piece: &str) -> (r: String)
    ensures
        r@ == piece_text(piece@),
{
    let right = match split_once(piece, ':') {
        Some(cut) => cut.1,
        None => piece.to_owned(),
    };
    trim_of(&trim_of(&trim(&right), CharClass::Just('"')), CharClass::Just('\''))
}

/// The text for a list in a notation of its own.
pub fn flatten_loose_list(s: &str) -> (r: String)
    ensures
        r@ == loose_list_text(s@),
{
    let chunks = split(&trim_of(s, CharClass::Curly), ',');
    let ghost said = split_by(trimmed_of(s@, CharClass::Curly), ',').map_values(
        |p: Seq<char>| piece_text(p),
    );
    let mut pieces: Vec<String> = Vec::new();
    let mut i: usize = 0;
    while i < chunks.len()
        invariant
            i <= chunks@.len(),
            said == views(chunks@).map_values(|p: Seq<char>| piece_text(p)),
            views(pieces@) =~= said.take(i as int),
        decreases chunks@.len() - i,
    {
        let ghost before = pieces@;
        let piece = read_piece(&chunks[i]);
        pieces.push(piece);
        assert(views(pieces@) =~= views(before).push(piece@));
        i += 1;
    }
    assert(views(pieces@) =~= said);
    let kept = keep_non_empty(&pieces);
    assert(views(kept@).len() == kept@.len());
    if kept.len() == 0 {
        s.to_owned()
    } else {
        join(&kept, ", ")
    }
}

/// The length of a text that is known from JSON, counted from one; zero where
/// anything else or nothing is known.
pub open spec fn known_length(parsed: Option<&Json>) -> nat {
    match parsed {
        Some(Json::Text(inner)) => inner@.len() + 1,
        _ => 0,
    }
}

/// The text for a trimmed text of which it is known what it is in JSON.
pub fn flatten_known(s: &str, parsed: Option<&Json>) -> (r: String)
    ensures
        r@ == known_text(s@, opt_view(parsed)),
    decreases known_length(parsed), 1nat,
{
    proof {
        reveal_strlit("{");
        reveal_strlit("[");
        assert(opens_like_json(s@) ==> s@.subrange(0, 1) =~= "{"@ || s@.subrange(0, 1) =~= "["@);
        assert(s@.len() > 0 ==> s@.subrange(0, 1)[0] == s@[0]);
    }
    if starts_with(s, "{") || starts_with(s, "[") {
        match parsed {
            Some(Json::Text(inner)) => flatten_text(inner),
            Some(v) => value_to_string(v),
            None => flatten_loose_list(s),
        }
    } else {
        flatten_loose_list(s)
    }
}

/// The text for the text.
fn flatten_text(s: &str) -> (r: String)
    ensures
        r@ == flat_text(s@),
        r@ == known_text(trimmed(s@), parsed_json(trimmed(s@))),
    decreases s@.len() + 1, 0nat,
{
    let text = trim(s);
    proof {
        lemma_trimmed(s@, CharClass::White);
    }
    match parse_json(&text) {
        Some(v) => flatten_known(&text, Some(&v)),
        None => flatten_known(&text, None),
    }
}

/// The readable text for the optional value. A text that opens like a JSON
/// object or array, and is JSON, reads like the value that it holds.
pub fn flatten_value(value: Option<&Json>) -> (r: String)
    ensures
        r@ == flat_value(opt_view(value)),
        opt_view(value) matches Some(JsonView::Text(s)) ==> r@ == known_text(
            trimmed(s),
            parsed_json(trimmed(s)),
        ),
        opt_view(value) matches Some(JsonView::Text(s)) ==> opens_like_json(trimmed(s)) ==> (
        parsed_json(trimmed(s)) matches Some(v) ==> r@ == flat_value(Some(v))),
{
    match value {
        None => String::new(),
        Some(Json::Text(s)) => flatten_text(s),
        Some(v) => value_to_string(v),
    }
}

/// The formats that were found, each once and in capitals.
pub fn join_formats(found: &Vec<String>) -> (r: String)
    ensures
        r@ == formats_text(views(found@)),
{
    let ghost capitals = views(found@).map_values(|t: Seq<char>| uppercased(t));
    let mut kept: Vec<String> = Vec::new();
    let mut i: usize = 0;
    assert(capitals.take(0) =~= Seq::empty());
    assert(views(kept@) =~= Seq::empty());
    while i < found.len()
        invariant
            i <= found@.len(),
            capitals == views(found@).map_values(|t: Seq<char>| uppercased(t)),
            views(kept@) == distinct(capitals.take(i as int)),
        decreases found@.len() - i,
    {
        assert(capitals.take(i + 1).drop_last() =~= capitals.take(i as int));
        let word = found[i].to_uppercase();
        assert(word@ == capitals[i as int]);
        if !is_one_of(&word, &kept) {
            let ghost before = kept@;
            kept.push(word);
            assert(views(kept@) =~= views(before).push(capitals[i as int]));
        }
        i += 1;
    }
    assert(capitals.take(found@.len() as int) =~= capitals);
    join(&kept, "/")
}

/// The text under `key` without white space around it, unless that is empty.
fn stated_text(item: &Json, key: &str) -> (r: Option<String>)
    ensures
        opt_view(r) == stated(item@, key@),
{
    match item.get_text(key) {
        Some(s) => {
            let text = trim(s);
            if text.as_str().is_empty() {
                None
            } else {
                Some(text)
            }
        },
        None => None,
    }
}

/// The format of the item.
pub fn detect_format(item: &Json) -> (r: String)
    ensures
        r@ == format_of(item@),
{
    let fields: Vec<&str> = vec!["format", "filetype", "container", "encoding", "format_name"];
    let mut i: usize = 0;
    while i < fields.len()
        invariant
            i <= fields@.len(),
            fields@ =~= seq!["format", "filetype", "container", "encoding", "format_name"],
            i > 0 ==> stated(item@, "format"@) is None,
            i > 1 ==> stated(item@, "filetype"@) is None,
            i > 2 ==> stated(item@, "container"@) is None,
            i > 3 ==> stated(item@, "encoding"@) is None,
            i > 4 ==> stated(item@, "format_name"@) is None,
        decreases fields@.len() - i,
    {
        match stated_text(item, fields[i]) {
            Some(text) => {
                return text;
            },
            None => {},
        }
        i += 1;
    }
    let name = match item.get_text("title") {
        Some(s) => s.clone(),
        None => match item.get_text("name") {
            Some(s) => s.clone(),
            None => String::new(),
        },
    };
    let found = capture_first_groups(
        "(?i)\\b(mp3|m4b|flac|aac|ogg|opus|wav|alac|ape|epub|pdf|mobi|azw3|cbz|cbr)\\b",
        &name,
    );
    join_formats(&found)
}

/// Whether the optional value switches something on.
pub fn truthy_value(value: Option<&Json>) -> (r: bool)
    ensures
        r == truthy(opt_view(value)),
{
    match value {
        Some(v) => is_truthy_json(v),
        None => false,
    }
}

/// The identifier that the optional value is.
pub fn extract_string_id(value: Option<&Json>) -> (r: String)
    ensures
        r@ == id_text(opt_view(value)),
{
    match value {
        Some(Json::Number(n)) => n.text.clone(),
        Some(v) => trim(&value_to_string(v)),
        None => String::new(),
    }
}

// ---------------------------------------------------------------------------
// Laws
// ---------------------------------------------------------------------------

/// Leaving out what came before leaves every text once.
pub proof fn distinct_texts_come_once(texts: Seq<Seq<char>>, text: Seq<char>)
    ensures
        distinct(texts).no_duplicates(),
        distinct(texts).contains(text) <==> texts.contains(text),
    decreases texts.len(),
{
    if texts.len() > 0 {
        let short = texts.drop_last();
        let before = distinct(short);
        let all = distinct(texts);
        distinct_texts_come_once(short, text);
        distinct_texts_come_once(short, texts.last());
        if texts.contains(text) {
            let k = choose|k: int| 0 <= k < texts.len() && texts[k] == text;
            if k < short.len() {
                assert(short[k] == text);
                let j = choose|j: int| 0 <= j < before.len() && before[j] == text;
                assert(all[j] == text);
            } else if !before.contains(text) {
                assert(all[all.len() - 1] == text);
            }
        }
        if all.contains(text) {
            let j = choose|j: int| 0 <= j < all.len() && all[j] == text;
            if j < before.len() {
                assert(before[j] == text);
                let k = choose|k: int| 0 <= k < short.len() && short[k] == text;
                assert(texts[k] == text);
            } else {
                assert(texts[texts.len() - 1] == text);
            }
        }
    }
}

/// A value that is no list reads as it is written, and nothing reads as
/// nothing.
pub proof fn values_read_as_they_are_written(n: NumberView, s: Seq<char>)
    ensures
        value_text(JsonView::Null).len() == 0,
        value_text(JsonView::Bool(true)) == seq!['t', 'r', 'u', 'e'],
        value_text(JsonView::Bool(false)) == seq!['f', 'a', 'l', 's', 'e'],
        value_text(JsonView::Number(n)) == n.text,
        value_text(JsonView::Text(s)) == s,
{
    reveal_strlit("true");
    reveal_strlit("false");
    assert("true"@ =~= seq!['t', 'r', 'u', 'e']);
    assert("false"@ =~= seq!['f', 'a', 'l', 's', 'e']);
}

/// One more text lengthens a list by a comma, a space and itself, unless it or
/// the list is empty.
proof fn lemma_listed(texts: Seq<Seq<char>>, text: Seq<char>)
    ensures
        listed(Seq::empty()).len() == 0,
        listed(texts.push(text)) == if text.len() == 0 {
            listed(texts)
        } else if listed(texts).len() == 0 {
            text
        } else {
            listed(texts) + seq![',', ' '] + text
        },
    decreases texts.len(),
{
    reveal(Seq::filter);
    reveal_strlit(", ");
    assert(", "@ =~= seq![',', ' ']);
    let kept = non_empty(texts);
    assert(texts.push(text).drop_last() =~= texts);
    assert(kept.push(text).drop_last() =~= kept);
    broadcast use Seq::lemma_filter_pred;

    let has_text = |t: Seq<char>| t.len() > 0;
    assert forall|i: int| 0 <= i < kept.len() implies (#[trigger] kept[i]).len() > 0 by {
        assert(has_text(texts.filter(has_text)[i]));
    }
    if kept.len() > 0 {
        assert(kept[kept.len() - 1].len() > 0);
        assert(kept.len() == 1 ==> kept[0].len() > 0);
        assert(joined(kept, ", "@).len() > 0);
    }
}

/// A list reads as the texts of its items in their order, with a comma and a
/// space between neighbours; items without text are passed over. Nothing but
/// the values of an object counts: its keys do not show.
pub proof fn lists_read_as_their_items(
    items: Seq<JsonView>,
    entries: Seq<(Seq<char>, JsonView)>,
    key: Seq<char>,
    item: JsonView,
)
    ensures
        value_text(JsonView::Array(Seq::empty())).len() == 0,
        value_text(JsonView::Object(Seq::empty())).len() == 0,
        ({
            let before = value_text(JsonView::Array(items));
            let after = value_text(JsonView::Array(items.push(item)));
            let text = value_text(item);
            after == if text.len() == 0 {
                before
            } else if before.len() == 0 {
                text
            } else {
                before + seq![',', ' '] + text
            }
        }),
        ({
            let before = value_text(JsonView::Object(entries));
            let after = value_text(JsonView::Object(entries.push((key, item))));
            let text = value_text(item);
            after == if text.len() == 0 {
                before
            } else if before.len() == 0 {
                text
            } else {
                before + seq![',', ' '] + text
            }
        }),
        value_text(JsonView::Array(seq![item])) == value_text(item),
        value_text(JsonView::Object(seq![(key, item)])) == value_text(item),
{
    let text = value_text(item);
    assert(items.push(item).drop_last() =~= items);
    assert(entries.push((key, item)).drop_last() =~= entries);
    lemma_listed(item_texts(items), text);
    lemma_listed(entry_texts(entries), text);
    lemma_listed(Seq::empty(), text);
    assert(seq![item].drop_last() =~= Seq::empty());
    assert(seq![(key, item)].drop_last() =~= Seq::empty());
    assert(item_texts(Seq::empty()) == Seq::<Seq<char>>::empty());
    assert(entry_texts(Seq::empty()) == Seq::<Seq<char>>::empty());
    assert(item_texts(seq![item]) =~= Seq::empty().push(text));
    assert(entry_texts(seq![(key, item)]) =~= Seq::empty().push(text));
    assert(text.len() == 0 ==> text =~= listed(Seq::empty()));
}

/// Whether a text is a single name in any notation: it opens no JSON, has
/// neither comma nor colon, and neither white space, quotes nor curly brackets
/// at its ends.
pub open spec fn is_one_name(s: Seq<char>) -> bool {
    &&& s.len() > 0
    &&& s[0] != '['
    &&& !s.contains(',')
    &&& !s.contains(':')
    &&& forall|c: char| #[trigger]
        edge_mark(c) ==> c != s[0] && c != s.last()
}

/// What does not belong to a name at its ends.
pub open spec fn edge_mark(c: char) -> bool {
    is_whitespace(c) || c == '"' || c == '\'' || c == '{' || c == '}'
}

/// A piece of a list reads as the name in it: what stands behind its first
/// colon, without the white space and the quotes around it.
pub proof fn pieces_read_as_their_name(
    key: Seq<char>,
    front: Seq<char>,
    name: Seq<char>,
    back: Seq<char>,
)
    requires
        !key.contains(':'),
        is_one_name(name),
        forall|i: int| 0 <= i < front.len() ==> is_whitespace(#[trigger] front[i]),
        forall|i: int| 0 <= i < back.len() ==> is_whitespace(#[trigger] back[i]),
    ensures
        piece_text(key.push(':') + (front + name + back)) == name,
        piece_text(key.push(':') + (front + (seq!['"'] + name + seq!['"']) + back)) == name,
        piece_text(key.push(':') + (front + (seq!['\''] + name + seq!['\'']) + back)) == name,
        piece_text(front + name + back) == name,
{
    let empty = Seq::<char>::empty();
    let double = seq!['"'] + name + seq!['"'];
    let single = seq!['\''] + name + seq!['\''];
    assert(edge_mark('"') && edge_mark('\''));
    assert(!edge_mark(name[0]) && !edge_mark(name.last()));
    cuts_are_at_the_first(key, ':', front + name + back);
    cuts_are_at_the_first(key, ':', front + double + back);
    cuts_are_at_the_first(key, ':', front + single + back);
    trimming_takes_what_stands_around(front, name, back, CharClass::White);
    trimming_takes_what_stands_around(front, double, back, CharClass::White);
    trimming_takes_what_stands_around(front, single, back, CharClass::White);
    trimming_takes_what_stands_around(empty, name, empty, CharClass::Just('"'));
    trimming_takes_what_stands_around(empty, name, empty, CharClass::Just('\''));
    trimming_takes_what_stands_around(seq!['"'], name, seq!['"'], CharClass::Just('"'));
    trimming_takes_what_stands_around(seq!['\''], name, seq!['\''], CharClass::Just('\''));
    trimming_takes_what_stands_around(empty, single, empty, CharClass::Just('"'));
    assert(empty + name + empty =~= name);
    assert(empty + single + empty =~= single);
    let whole = front + name + back;
    assert(!whole.contains(':')) by {
        if whole.contains(':') {
            let k = choose|k: int| 0 <= k < whole.len() && whole[k] == ':';
            if k < front.len() {
                assert(front[k] == ':');
                assert(is_whitespace(front[k]));
            } else if k < front.len() + name.len() {
                assert(name[k - front.len()] == ':');
            } else {
                assert(back[k - front.len() - name.len()] == ':');
                assert(is_whitespace(back[k - front.len() - name.len()]));
            }
        }
    }
    cuts_are_at_the_first(whole, ':', empty);
}

/// A loose list reads piece by piece: what stands behind its last comma is
/// read by itself and put behind the rest with a comma and a space, or passed
/// over where it has no text. Curly brackets around the list do not show.
pub proof fn loose_lists_read_piece_by_piece(front: Seq<char>, piece: Seq<char>, i: int)
    requires
        front.len() > 0,
        front[0] != '{' && front[0] != '}',
        front.last() != '{' && front.last() != '}',
        piece.len() > 0,
        piece.last() != '{' && piece.last() != '}',
        !piece.contains(','),
        0 <= i < split_by(front, ',').len(),
        piece_text(split_by(front, ',')[i]).len() > 0,
    ensures
        loose_list_text(front.push(',') + piece) == loose_list_text(front) + if piece_text(
            piece,
        ).len() > 0 {
            seq![',', ' '] + piece_text(piece)
        } else {
            Seq::empty()
        },
        loose_list_text(seq!['{'] + (front.push(',') + piece) + seq!['}']) == loose_list_text(
            front.push(',') + piece,
        ),
{
    let empty = Seq::<char>::empty();
    let whole = front.push(',') + piece;
    let read = |p: Seq<char>| piece_text(p);
    trimming_takes_what_stands_around(empty, front, empty, CharClass::Curly);
    trimming_takes_what_stands_around(empty, whole, empty, CharClass::Curly);
    trimming_takes_what_stands_around(seq!['{'], whole, seq!['}'], CharClass::Curly);
    assert(empty + front + empty =~= front);
    assert(empty + whole + empty =~= whole);
    assert(whole[0] == front[0]);
    assert(whole.last() == piece.last());
    assert(front.push(',').drop_last() =~= front);
    lemma_split_append(front.push(','), piece, ',');
    let pieces = split_by(front, ',');
    assert(split_by(front.push(','), ',').drop_last() =~= pieces);
    assert(empty + piece =~= piece);
    assert(split_by(whole, ',') == pieces.push(piece));
    let texts = pieces.map_values(read);
    assert(pieces.push(piece).map_values(read) =~= texts.push(piece_text(piece)));
    reveal(Seq::filter);
    let has_text = |t: Seq<char>| t.len() > 0;
    assert(texts[i] == piece_text(pieces[i]));
    assert(has_text(texts[i]));
    texts.lemma_filter_contains(has_text, i);
    assert(non_empty(texts).len() > 0);
    lemma_listed(texts, piece_text(piece));
    assert(texts.push(piece_text(piece)).drop_last() =~= texts);
    assert(non_empty(texts.push(piece_text(piece))).len() > 0);
    assert(listed(texts).len() > 0) by {
        lemma_listed_text(texts, i);
    }
    assert(loose_list_text(front) == listed(texts));
    assert(listed(texts) + empty =~= listed(texts));
    assert(listed(texts) + seq![',', ' '] + piece_text(piece) =~= listed(texts) + (seq![',', ' ']
        + piece_text(piece)));
}

/// A list with a text in it is not empty.
proof fn lemma_listed_text(texts: Seq<Seq<char>>, i: int)
    requires
        0 <= i < texts.len(),
        texts[i].len() > 0,
    ensures
        listed(texts).len() > 0,
    decreases texts.len(),
{
    let short = texts.drop_last();
    assert(texts =~= short.push(texts.last()));
    lemma_listed(short, texts.last());
    if i < short.len() {
        lemma_listed_text(short, i);
    }
}

/// A single name reads as itself, and so does one that stands in a loose
/// notation with a key, in quotes or in curly brackets.
pub proof fn single_names_read_as_they_are(key: Seq<char>, name: Seq<char>)
    requires
        is_one_name(name),
        is_one_name(key),
    ensures
        flat_value(Some(JsonView::Text(name))) == name,
        flat_value(Some(JsonView::Text(key.push(':') + name))) == name,
        flat_value(Some(JsonView::Text(key.push(':') + (seq!['"'] + name + seq!['"'])))) == name,
        flat_value(None).len() == 0,
{
    let empty = Seq::<char>::empty();
    let double = seq!['"'] + name + seq!['"'];
    pieces_read_as_their_name(key, empty, name, empty);
    assert(empty + name + empty =~= name);
    assert(empty + double + empty =~= double);
    assert(edge_mark('"') && edge_mark('{') && edge_mark('}'));
    assert(!edge_mark(name[0]) && !edge_mark(name.last()));
    assert(!edge_mark(key[0]));
    lemma_one_piece(name);
    let a = key.push(':') + name;
    let b = key.push(':') + double;
    assert(a[0] == key[0] && a.last() == name.last());
    assert(b[0] == key[0] && b.last() == '"');
    assert(!a.contains(',')) by {
        if a.contains(',') {
            let k = choose|k: int| 0 <= k < a.len() && a[k] == ',';
            if k < key.len() {
                assert(key[k] == ',');
            } else if k > key.len() {
                assert(name[k - key.len() - 1] == ',');
            }
        }
    }
    assert(!b.contains(',')) by {
        if b.contains(',') {
            let k = choose|k: int| 0 <= k < b.len() && b[k] == ',';
            if k < key.len() {
                assert(key[k] == ',');
            } else if key.len() + 1 < k < b.len() - 1 {
                assert(name[k - key.len() - 2] == ',');
            }
        }
    }
    lemma_one_piece(a);
    lemma_one_piece(b);
}

/// A text without commas that opens no JSON and has neither white space nor
/// curly brackets at its ends is one piece.
proof fn lemma_one_piece(s: Seq<char>)
    requires
        s.len() > 0,
        s[0] != '[' && s[0] != '{' && s[0] != '}' && !is_whitespace(s[0]),
        s.last() != '{' && s.last() != '}' && !is_whitespace(s.last()),
        !s.contains(','),
        piece_text(s).len() > 0,
    ensures
        flat_value(Some(JsonView::Text(s))) == piece_text(s),
{
    let empty = Seq::<char>::empty();
    let read = |p: Seq<char>| piece_text(p);
    trimming_takes_what_stands_around(empty, s, empty, CharClass::White);
    trimming_takes_what_stands_around(empty, s, empty, CharClass::Curly);
    assert(empty + s + empty =~= s);
    lemma_split_append(empty, s, ',');
    assert(empty + s =~= s);
    assert(split_by(empty, ',') =~= seq![empty]);
    assert(split_by(s, ',') =~= seq![s]);
    let texts = seq![s].map_values(read);
    assert(texts =~= Seq::empty().push(piece_text(s)));
    lemma_listed(Seq::empty(), piece_text(s));
    lemma_listed_text(texts, 0);
    assert(non_empty(texts).len() > 0) by {
        let has_text = |t: Seq<char>| t.len() > 0;
        assert(has_text(texts[0]));
        texts.lemma_filter_contains(has_text, 0);
    }
    assert(loose_list_text(s) == listed(texts));
}

/// The fields in which an item may state its format, in the order in which
/// they are looked at.
pub open spec fn format_keys() -> Seq<Seq<char>> {
    seq!["format"@, "filetype"@, "container"@, "encoding"@, "format_name"@]
}

/// Whether an item states nothing under a key: no text, or a blank one.
pub open spec fn states_nothing(item: JsonView, key: Seq<char>) -> bool {
    item.get(key) matches Some(JsonView::Text(s)) ==> blank(s)
}

/// The format of an item is the first text that it states for one, without the
/// white space around it.
pub proof fn first_stated_format_counts(
    item: JsonView,
    at: int,
    front: Seq<char>,
    format: Seq<char>,
    back: Seq<char>,
)
    requires
        0 <= at < 5,
        forall|i: int| 0 <= i < at ==> states_nothing(item, #[trigger] format_keys()[i]),
        item.get(format_keys()[at]) == Some(JsonView::Text(front + format + back)),
        blank(front),
        blank(back),
        format.len() > 0,
        !is_whitespace(format[0]),
        !is_whitespace(format.last()),
    ensures
        format_of(item) == format,
{
    trimming_takes_what_stands_around(front, format, back, CharClass::White);
    assert(stated(item, format_keys()[at]) == Some(format));
    lemma_states_nothing(item);
    assert forall|i: int| 0 <= i < at implies stated(item, #[trigger] format_keys()[i]) is None by {
        assert(states_nothing(item, format_keys()[i]));
    }
    let keys = format_keys();
    assert(keys[0] == "format"@ && keys[1] == "filetype"@ && keys[2] == "container"@ && keys[3]
        == "encoding"@ && keys[4] == "format_name"@);
}

/// What states nothing has nothing stated.
proof fn lemma_states_nothing(item: JsonView)
    ensures
        forall|key: Seq<char>| #[trigger]
            states_nothing(item, key) ==> stated(item, key) is None,
{
    assert forall|key: Seq<char>| #[trigger] states_nothing(item, key) implies stated(item, key)
        is None by {
        if let Some(JsonView::Text(s)) = item.get(key) {
            lemma_trimmed(s, CharClass::White);
        }
    }
}

/// An item that states no format has those that its title names, and those
/// that its name names only where it has no title: each in capitals and once,
/// in the order in which they are named, with a slash between them.
pub proof fn formats_are_found_in_the_title(item: JsonView, text: Seq<char>)
    requires
        forall|i: int| 0 <= i < 5 ==> states_nothing(item, #[trigger] format_keys()[i]),
        item.get("title"@) == Some(JsonView::Text(text)) || (!(item.get("title"@) matches Some(
            JsonView::Text(_),
        )) && item.get("name"@) == Some(JsonView::Text(text))),
    ensures
        ({
            let named = first_groups(format_pattern(), text);
            &&& named.len() == 0 ==> format_of(item).len() == 0
            &&& named.len() == 1 ==> format_of(item) == uppercased(named[0])
            &&& named.len() == 2 && uppercased(named[0]) == uppercased(named[1]) ==> format_of(item)
                == uppercased(named[0])
            &&& named.len() == 2 && uppercased(named[0]) != uppercased(named[1]) ==> format_of(item)
                == uppercased(named[0]) + seq!['/'] + uppercased(named[1])
            &&& format_of(item) == formats_text(named)
        }),
{
    lemma_states_nothing(item);
    let keys = format_keys();
    assert(states_nothing(item, keys[0]) && states_nothing(item, keys[1]) && states_nothing(
        item,
        keys[2],
    ) && states_nothing(item, keys[3]) && states_nothing(item, keys[4]));
    let named = first_groups(format_pattern(), text);
    let none = Seq::<Seq<char>>::empty();
    if named.len() == 0 {
        formats_are_listed_once(named, Seq::empty());
        assert(named =~= none);
    } else if named.len() == 1 {
        formats_are_listed_once(none, named[0]);
        assert(named =~= none.push(named[0]));
    } else if named.len() == 2 {
        formats_are_listed_once(none, named[0]);
        formats_are_listed_once(none.push(named[0]), named[1]);
        assert(named =~= none.push(named[0]).push(named[1]));
        if uppercased(named[0]) == uppercased(named[1]) {
            assert(uppercased(none.push(named[0])[0]) == uppercased(named[1]));
        }
    }
}

/// One more format that is named is put behind the others in capitals and with
/// a slash between, unless it was named before.
pub proof fn formats_are_listed_once(named: Seq<Seq<char>>, format: Seq<char>)
    ensures
        formats_text(Seq::empty()).len() == 0,
        (exists|i: int|
            0 <= i < named.len() && uppercased(#[trigger] named[i]) == uppercased(format))
            ==> formats_text(named.push(format)) == formats_text(named),
        named.len() > 0 && (forall|i: int|
            0 <= i < named.len() ==> uppercased(#[trigger] named[i]) != uppercased(format))
            ==> formats_text(named.push(format)) == formats_text(named) + seq!['/'] + uppercased(
            format,
        ),
        named.len() == 0 ==> formats_text(named.push(format)) == uppercased(format),
{
    reveal_strlit("/");
    assert("/"@ =~= seq!['/']);
    let upper = |t: Seq<char>| uppercased(t);
    let before = named.map_values(upper);
    let all = named.push(format).map_values(upper);
    assert(all =~= before.push(uppercased(format)));
    assert(all.drop_last() =~= before);
    assert(Seq::<Seq<char>>::empty().map_values(upper) =~= Seq::empty());
    distinct_texts_come_once(before, uppercased(format));
    if exists|i: int|
        0 <= i < named.len() && uppercased(#[trigger] named[i]) == uppercased(format) {
        let i = choose|i: int|
            0 <= i < named.len() && uppercased(#[trigger] named[i]) == uppercased(format);
        assert(before[i] == uppercased(format));
        assert(before.contains(uppercased(format)));
    } else {
        if before.contains(uppercased(format)) {
            let i = choose|i: int| 0 <= i < before.len() && before[i] == uppercased(format);
            assert(uppercased(named[i]) == uppercased(format));
        }
        assert(distinct(all) =~= distinct(before).push(uppercased(format)));
        assert(distinct(all).drop_last() =~= distinct(before));
        if named.len() > 0 {
            distinct_texts_come_once(before, before[0]);
            assert(before.contains(before[0]));
            assert(distinct(before).len() > 0);
        }
    }
}

/// An identifier is the number as it is written, or the text without the white
/// space around it, and empty where there is none.
pub proof fn identifiers_are_numbers_or_texts(
    n: NumberView,
    front: Seq<char>,
    id: Seq<char>,
    back: Seq<char>,
)
    requires
        blank(front),
        blank(back),
        id.len() > 0,
        !is_whitespace(id[0]),
        !is_whitespace(id.last()),
    ensures
        id_text(Some(JsonView::Number(n))) == n.text,
        id_text(Some(JsonView::Text(front + id + back))) == id,
        id_text(None).len() == 0,
{
    trimming_takes_what_stands_around(front, id, back, CharClass::White);
}

/// A text that holds an object or an array in JSON reads like what it holds,
/// and a value that is no text reads as its own text.
pub proof fn texts_read_like_the_json_in_them(
    front: Seq<char>,
    text: Seq<char>,
    back: Seq<char>,
    value: JsonView,
)
    requires
        blank(front),
        blank(back),
        text.len() > 0,
        text[0] == '{' || text[0] == '[',
        !is_whitespace(text.last()),
        parsed_json(text) == Some(value),
        !(value is Text),
    ensures
        flat_value(Some(JsonView::Text(front + text + back))) == value_text(value),
        flat_value(Some(value)) == value_text(value),
{
    trimming_takes_what_stands_around(front, text, back, CharClass::White);
}

/// The formats that are looked for in a name.
pub open spec fn known_formats() -> Seq<Seq<char>> {
    seq![
        "mp3"@,
        "m4b"@,
        "flac"@,
        "aac"@,
        "ogg"@,
        "opus"@,
        "wav"@,
        "alac"@,
        "ape"@,
        "epub"@,
        "pdf"@,
        "mobi"@,
        "azw3"@,
        "cbz"@,
        "cbr"@,
    ]
}

/// Each of the known formats is looked for as a word of its own, in any case,
/// and nothing else is.
pub proof fn known_formats_are_looked_for()
    ensures
        format_pattern() == "(?i)\\b("@ + joined(known_formats(), "|"@) + ")\\b"@,
{
    reveal_with_fuel(joined, 16);
    reveal_strlit("(?i)\\b(mp3|m4b|flac|aac|ogg|opus|wav|alac|ape|epub|pdf|mobi|azw3|cbz|cbr)\\b");
    reveal_strlit("(?i)\\b(");
    reveal_strlit(")\\b");
    reveal_strlit("|");
    reveal_strlit("mp3");
    reveal_strlit("m4b");
    reveal_strlit("flac");
    reveal_strlit("aac");
    reveal_strlit("ogg");
    reveal_strlit("opus");
    reveal_strlit("wav");
    reveal_strlit("alac");
    reveal_strlit("ape");
    reveal_strlit("epub");
    reveal_strlit("pdf");
    reveal_strlit("mobi");
    reveal_strlit("azw3");
    reveal_strlit("cbz");
    reveal_strlit("cbr");
    assert(format_pattern() =~= "(?i)\\b("@ + joined(known_formats(), "|"@) + ")\\b"@);
}

/// A list in which no piece has any text is kept as it stands.
pub proof fn lists_without_text_are_kept(s: Seq<char>)
    requires
        forall|i: int|
            0 <= i < split_by(trimmed_of(s, CharClass::Curly), ',').len() ==> piece_text(
                #[trigger] split_by(trimmed_of(s, CharClass::Curly), ',')[i],
            ).len() == 0,
    ensures
        loose_list_text(s) == s,
{
    broadcast use Seq::lemma_filter_pred;

    let read = |p: Seq<char>| piece_text(p);
    let has_text = |t: Seq<char>| t.len() > 0;
    let pieces = split_by(trimmed_of(s, CharClass::Curly), ',');
    let texts = pieces.map_values(read);
    let kept = texts.filter(has_text);
    if kept.len() > 0 {
        assert(has_text(kept[0]));
        assert(kept.contains(kept[0]));
        texts.lemma_filter_contains_rev(has_text, kept[0]);
        let i = choose|i: int| 0 <= i < texts.len() && texts[i] == kept[0];
        assert(piece_text(pieces[i]).len() == 0);
        assert(texts[i] == piece_text(pieces[i]));
    }
}

/// An item that neither states a format nor has a title or a name is looked at
/// as if its name were empty.
pub proof fn items_without_names_have_the_format_of_none(item: JsonView)
    requires
        forall|i: int| 0 <= i < 5 ==> states_nothing(item, #[trigger] format_keys()[i]),
        !(item.get("title"@) matches Some(JsonView::Text(_))),
        !(item.get("name"@) matches Some(JsonView::Text(_))),
    ensures
        format_of(item) == formats_text(first_groups(format_pattern(), Seq::empty())),
{
    lemma_states_nothing(item);
    let keys = format_keys();
    assert(states_nothing(item, keys[0]) && states_nothing(item, keys[1]) && states_nothing(
        item,
        keys[2],
    ) && states_nothing(item, keys[3]) && states_nothing(item, keys[4]));
}

/// An identifier that is neither a number nor a text reads as its value does,
/// without the white space around it.
pub proof fn other_identifiers_read_as_their_value(
    value: JsonView,
    front: Seq<char>,
    id: Seq<char>,
    back: Seq<char>,
)
    requires
        !(value is Number),
        value_text(value) == front + id + back,
        blank(front),
        blank(back),
        id.len() > 0,
        !is_whitespace(id[0]),
        !is_whitespace(id.last()),
    ensures
        id_text(Some(value)) == id,
{
    trimming_takes_what_stands_around(front, id, back, CharClass::White);
}

/// A mark is a truth value as it is, a whole number unless it is zero, or a word
/// that switches something on. Nothing else is one.
pub proof fn marks_are_switches(value: JsonView)
    ensures
        match value {
            JsonView::Bool(b) => truthy(Some(value)) == b,
            JsonView::Number(n) => truthy(Some(value)) == (n.signed is Some && n.signed != Some(
                0i64,
            )),
            JsonView::Text(word) => truthy(Some(value)) == truthy_text(word),
            _ => !truthy(Some(value)),
        },
        !truthy(None),
{
}

/// Quotes are taken off around the white space, double ones before single
/// ones: what they enclose is kept as it is.
pub proof fn quotes_are_taken_off_in_turn(name: Seq<char>, front: Seq<char>, back: Seq<char>)
    requires
        is_one_name(name),
        blank(front),
        blank(back),
    ensures
        piece_text(seq!['"'] + (seq!['\''] + name + seq!['\'']) + seq!['"']) == name,
        piece_text(seq!['\''] + (seq!['"'] + name + seq!['"']) + seq!['\'']) == seq!['"'] + name
            + seq!['"'],
        piece_text(seq!['"'] + (front + name + back) + seq!['"']) == front + name + back,
{
    let empty = Seq::<char>::empty();
    let double = seq!['"'] + name + seq!['"'];
    let single = seq!['\''] + name + seq!['\''];
    let spaced = front + name + back;
    assert(edge_mark('"') && edge_mark('\''));
    assert(!edge_mark(name[0]) && !edge_mark(name.last()));
    let a = seq!['"'] + single + seq!['"'];
    let b = seq!['\''] + double + seq!['\''];
    let c = seq!['"'] + spaced + seq!['"'];
    assert(spaced[0] == if front.len() > 0 {
        front[0]
    } else {
        name[0]
    });
    assert(spaced.last() == if back.len() > 0 {
        back[back.len() - 1]
    } else {
        name.last()
    });
    assert(front.len() > 0 ==> is_whitespace(front[0]));
    assert(back.len() > 0 ==> is_whitespace(back[back.len() - 1]));
    lemma_no_colon(name, seq!['"', '\''], seq!['\'', '"'], a);
    lemma_no_colon(name, seq!['\'', '"'], seq!['"', '\''], b);
    lemma_no_colon(name, seq!['"'] + front, back + seq!['"'], c);
    cuts_are_at_the_first(a, ':', empty);
    cuts_are_at_the_first(b, ':', empty);
    cuts_are_at_the_first(c, ':', empty);
    trimming_takes_what_stands_around(empty, a, empty, CharClass::White);
    trimming_takes_what_stands_around(empty, b, empty, CharClass::White);
    trimming_takes_what_stands_around(empty, c, empty, CharClass::White);
    assert(empty + a + empty =~= a);
    assert(empty + b + empty =~= b);
    assert(empty + c + empty =~= c);
    trimming_takes_what_stands_around(seq!['"'], single, seq!['"'], CharClass::Just('"'));
    trimming_takes_what_stands_around(seq!['\''], name, seq!['\''], CharClass::Just('\''));
    trimming_takes_what_stands_around(empty, b, empty, CharClass::Just('"'));
    trimming_takes_what_stands_around(seq!['\''], double, seq!['\''], CharClass::Just('\''));
    trimming_takes_what_stands_around(seq!['"'], spaced, seq!['"'], CharClass::Just('"'));
    trimming_takes_what_stands_around(empty, spaced, empty, CharClass::Just('\''));
    assert(empty + spaced + empty =~= spaced);
}

/// Neither quotes nor white space around a name bring a colon in.
proof fn lemma_no_colon(name: Seq<char>, front: Seq<char>, back: Seq<char>, whole: Seq<char>)
    requires
        is_one_name(name),
        forall|i: int| 0 <= i < front.len() ==> edge_mark(#[trigger] front[i]),
        forall|i: int| 0 <= i < back.len() ==> edge_mark(#[trigger] back[i]),
        whole =~= front + name + back,
    ensures
        !whole.contains(':'),
{
    if whole.contains(':') {
        let k = choose|k: int| 0 <= k < whole.len() && whole[k] == ':';
        if k < front.len() {
            assert(edge_mark(front[k]));
        } else if k < front.len() + name.len() {
            assert(name[k - front.len()] == ':');
        } else {
            assert(edge_mark(back[k - front.len() - name.len()]));
        }
    }
}

/// A text that opens like JSON and is none, and one that does not open like
/// JSON at all, is read as a loose list.
pub proof fn other_texts_read_as_loose_lists(front: Seq<char>, text: Seq<char>, back: Seq<char>)
    requires
        blank(front),
        blank(back),
        text.len() > 0,
        !is_whitespace(text[0]),
        !is_whitespace(text.last()),
        parsed_json(text) is None || (text[0] != '{' && text[0] != '['),
    ensures
        flat_value(Some(JsonView::Text(front + text + back))) == loose_list_text(text),
{
    trimming_takes_what_stands_around(front, text, back, CharClass::White);
}

/// What is known of a text that opens like JSON is read in its place; of any
/// other text it does not count.
pub proof fn what_is_known_is_read(s: Seq<char>, value: JsonView)
    ensures
        s.len() > 0 && (s[0] == '{' || s[0] == '[') && !(value is Text) ==> known_text(s, Some(value))
            == value_text(value),
        s.len() == 0 || (s[0] != '{' && s[0] != '[') ==> known_text(s, Some(value))
            == loose_list_text(s),
        known_text(s, None) == loose_list_text(s),
{
}

}
