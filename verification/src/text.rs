//! Text as a sequence of characters: trimming, splitting, joining, searching
//! and numbers in decimal.
use vstd::prelude::*;
use vstd::string::*;

verus! {

broadcast use vstd::string::group_string_axioms;

// ---------------------------------------------------------------------------
// Models
// ---------------------------------------------------------------------------

/// Whether `c` has the Unicode property `White_Space`.
pub open spec fn is_whitespace(c: char) -> bool {
    let n = c as u32;
    ||| 0x09 <= n <= 0x0D
    ||| n == 0x20
    ||| n == 0x85
    ||| n == 0xA0
    ||| n == 0x1680
    ||| 0x2000 <= n <= 0x200A
    ||| n == 0x2028
    ||| n == 0x2029
    ||| n == 0x202F
    ||| n == 0x205F
    ||| n == 0x3000
}

/// A set of characters that trimming removes.
#[derive(Clone, Copy, Debug, PartialEq, Eq, Structural)]
pub enum CharClass {
    /// Unicode white space.
    White,
    /// The two curly brackets.
    Curly,
    /// One character.
    Just(char),
}

impl CharClass {
    pub open spec fn has(self, c: char) -> bool {
        match self {
            CharClass::White => is_whitespace(c),
            CharClass::Curly => c == '{' || c == '}',
            CharClass::Just(d) => c == d,
        }
    }
}

/// `s` without its longest prefix of characters in `class`.
pub open spec fn trimmed_start(s: Seq<char>, class: CharClass) -> Seq<char>
    decreases s.len(),
{
    if s.len() > 0 && class.has(s[0]) {
        trimmed_start(s.skip(1), class)
    } else {
        s
    }
}

/// `s` without its longest suffix of characters in `class`.
pub open spec fn trimmed_end(s: Seq<char>, class: CharClass) -> Seq<char>
    decreases s.len(),
{
    if s.len() > 0 && class.has(s.last()) {
        trimmed_end(s.drop_last(), class)
    } else {
        s
    }
}

/// `s` trimmed of `class` at both ends.
pub open spec fn trimmed_of(s: Seq<char>, class: CharClass) -> Seq<char> {
    trimmed_end(trimmed_start(s, class), class)
}

/// `s` trimmed of white space at both ends.
pub open spec fn trimmed(s: Seq<char>) -> Seq<char> {
    trimmed_of(s, CharClass::White)
}

/// Whether nothing but white space is in `s`.
pub open spec fn blank(s: Seq<char>) -> bool {
    forall|i: int| 0 <= i < s.len() ==> is_whitespace(#[trigger] s[i])
}

/// The place of the first `c` in `s`, or the length of `s`.
pub open spec fn find_char(s: Seq<char>, c: char) -> int
    decreases s.len(),
{
    if s.len() == 0 || s[0] == c {
        0
    } else {
        1 + find_char(s.skip(1), c)
    }
}

/// The texts before and after the first `c`.
pub open spec fn cut_at(s: Seq<char>, c: char) -> Option<(Seq<char>, Seq<char>)> {
    if s.contains(c) {
        Some((s.take(find_char(s, c)), s.skip(find_char(s, c) + 1)))
    } else {
        None
    }
}

/// The pieces of `s` between the occurrences of `c`.
pub open spec fn split_by(s: Seq<char>, c: char) -> Seq<Seq<char>>
    decreases s.len(),
{
    if s.len() == 0 {
        seq![s]
    } else if s.last() == c {
        split_by(s.drop_last(), c).push(Seq::empty())
    } else {
        let before = split_by(s.drop_last(), c);
        before.drop_last().push(before.last().push(s.last()))
    }
}

/// The pieces with `sep` between neighbours.
pub open spec fn joined(parts: Seq<Seq<char>>, sep: Seq<char>) -> Seq<char>
    decreases parts.len(),
{
    if parts.len() == 0 {
        Seq::empty()
    } else if parts.len() == 1 {
        parts[0]
    } else {
        joined(parts.drop_last(), sep) + sep + parts.last()
    }
}

/// Whether `needle` occurs in `s` from place `at` on.
pub open spec fn occurs_at(s: Seq<char>, needle: Seq<char>, at: int) -> bool {
    0 <= at && at + needle.len() <= s.len() && s.subrange(at, at + needle.len()) == needle
}

/// Whether `needle` occurs in `s`.
pub open spec fn contains_text(s: Seq<char>, needle: Seq<char>) -> bool {
    exists|at: int| #[trigger] occurs_at(s, needle, at)
}

/// Whether `s` begins with `prefix`.
pub open spec fn begins_with(s: Seq<char>, prefix: Seq<char>) -> bool {
    occurs_at(s, prefix, 0)
}

/// The first `n` characters of `s`, or all of it.
pub open spec fn first_chars(s: Seq<char>, n: int) -> Seq<char> {
    if s.len() <= n {
        s
    } else {
        s.take(n)
    }
}

/// `s` with `with` in place of every `c`.
pub open spec fn replaced_char(s: Seq<char>, c: char, with: Seq<char>) -> Seq<char>
    decreases s.len(),
{
    if s.len() == 0 {
        s
    } else if s.last() == c {
        replaced_char(s.drop_last(), c, with) + with
    } else {
        replaced_char(s.drop_last(), c, with).push(s.last())
    }
}

/// `s` with `with` in place of every longest run of white space.
pub open spec fn spaced(s: Seq<char>, with: Seq<char>) -> Seq<char>
    decreases s.len(),
{
    if s.len() == 0 {
        s
    } else if !is_whitespace(s.last()) {
        spaced(s.drop_last(), with).push(s.last())
    } else if s.len() > 1 && is_whitespace(s[s.len() - 2]) {
        spaced(s.drop_last(), with)
    } else {
        spaced(s.drop_last(), with) + with
    }
}

/// The ASCII capital letters in lower case, everything else as it is.
pub open spec fn ascii_lower(c: char) -> char {
    if 'A' <= c <= 'Z' {
        ((c as u32) + 32) as char
    } else {
        c
    }
}

/// `s` with its ASCII capital letters in lower case.
pub open spec fn ascii_lowered(s: Seq<char>) -> Seq<char> {
    s.map_values(|c: char| ascii_lower(c))
}

/// The ASCII small letters in upper case, everything else as it is.
pub open spec fn ascii_upper(c: char) -> char {
    if 'a' <= c <= 'z' {
        ((c as u32) - 32) as char
    } else {
        c
    }
}

/// `s` with its ASCII small letters in upper case.
pub open spec fn ascii_uppered(s: Seq<char>) -> Seq<char> {
    s.map_values(|c: char| ascii_upper(c))
}

/// Whether all characters are ASCII.
pub open spec fn is_ascii_text(s: Seq<char>) -> bool {
    forall|i: int| 0 <= i < s.len() ==> (#[trigger] s[i] as u32) < 128
}

/// Whether two texts differ at most in the case of ASCII letters.
pub open spec fn same_ignoring_case(a: Seq<char>, b: Seq<char>) -> bool {
    a.len() == b.len() && forall|i: int|
        0 <= i < a.len() ==> ascii_lower(#[trigger] a[i]) == ascii_lower(b[i])
}

// ---------------------------------------------------------------------------
// Facts
// ---------------------------------------------------------------------------

/// What trimming the start takes away is of the class, and what it leaves does
/// not begin with the class.
pub proof fn lemma_trimmed_start(s: Seq<char>, class: CharClass)
    ensures
        trimmed_start(s, class).len() <= s.len(),
        trimmed_start(s, class) == s.skip(s.len() - trimmed_start(s, class).len()),
        forall|i: int|
            0 <= i < s.len() - trimmed_start(s, class).len() ==> class.has(#[trigger] s[i]),
        trimmed_start(s, class).len() > 0 ==> !class.has(trimmed_start(s, class)[0]),
    decreases s.len(),
{
    if s.len() > 0 && class.has(s[0]) {
        let rest = s.skip(1);
        lemma_trimmed_start(rest, class);
        let cut = s.len() - trimmed_start(s, class).len();
        assert(rest.skip(cut - 1) =~= s.skip(cut));
        assert forall|i: int| 0 <= i < cut implies class.has(#[trigger] s[i]) by {
            if i > 0 {
                assert(s[i] == rest[i - 1]);
            }
        }
    } else {
        assert(s.skip(0) =~= s);
    }
}

/// What trimming the end takes away is of the class, and what it leaves does
/// not end with the class.
pub proof fn lemma_trimmed_end(s: Seq<char>, class: CharClass)
    ensures
        trimmed_end(s, class).len() <= s.len(),
        trimmed_end(s, class) == s.take(trimmed_end(s, class).len() as int),
        forall|i: int|
            trimmed_end(s, class).len() <= i < s.len() ==> class.has(#[trigger] s[i]),
        trimmed_end(s, class).len() > 0 ==> !class.has(trimmed_end(s, class).last()),
    decreases s.len(),
{
    if s.len() > 0 && class.has(s.last()) {
        let rest = s.drop_last();
        lemma_trimmed_end(rest, class);
        let kept = trimmed_end(s, class).len() as int;
        assert(rest.take(kept) =~= s.take(kept));
        assert forall|i: int| kept <= i < s.len() implies class.has(#[trigger] s[i]) by {
            if i < s.len() - 1 {
                assert(s[i] == rest[i]);
            }
        }
    } else {
        assert(s.take(s.len() as int) =~= s);
    }
}

/// A trimmed text is empty or has nothing to trim at either end, and trimming
/// it again changes nothing.
pub proof fn lemma_trimmed(s: Seq<char>, class: CharClass)
    ensures
        ({
            let t = trimmed_of(s, class);
            &&& t.len() <= s.len()
            &&& t.len() > 0 ==> !class.has(t[0]) && !class.has(t.last())
            &&& forall|i: int| 0 <= i < t.len() ==> s.contains(#[trigger] t[i])
            &&& trimmed_of(t, class) == t
        }),
        trimmed_of(s, class).len() == 0 <==> (forall|i: int|
            0 <= i < s.len() ==> class.has(#[trigger] s[i])),
{
    let m = trimmed_start(s, class);
    let t = trimmed_of(s, class);
    let cut = s.len() - m.len();
    lemma_trimmed_start(s, class);
    lemma_trimmed_end(m, class);
    assert forall|i: int| 0 <= i < t.len() implies s.contains(#[trigger] t[i]) by {
        assert(t[i] == m[i]);
        assert(m[i] == s[cut + i]);
    }
    if t.len() > 0 {
        assert(t[0] == m[0]);
        assert(m[0] == s[cut]);
        assert(trimmed_start(t, class) == t);
        assert(!class.has(s[cut]));
    } else {
        assert forall|i: int| 0 <= i < s.len() implies class.has(#[trigger] s[i]) by {
            if i >= cut {
                assert(s[i] == m[i - cut]);
            }
        }
    }
}

/// What a value is picked for is among what is picked.
pub(crate) proof fn lemma_picked<A, B>(items: Seq<A>, pick: spec_fn(A) -> Option<B>, item: A)
    requires
        items.contains(item),
        pick(item) is Some,
    ensures
        items.filter_map(pick).contains(pick(item)->0),
    decreases items.len(),
{
    let before = items.drop_last();
    let all = items.filter_map(pick);
    if items.last() == item {
        assert(all[all.len() - 1] == pick(item)->0);
    } else {
        let k = choose|k: int| 0 <= k < items.len() && items[k] == item;
        assert(before[k] == item);
        lemma_picked(before, pick, item);
        let picked = before.filter_map(pick);
        let j = choose|j: int| 0 <= j < picked.len() && picked[j] == pick(item)->0;
        assert(all[j] == pick(item)->0);
    }
}

// ---------------------------------------------------------------------------
// Executable text
// ---------------------------------------------------------------------------

/// The characters of a text.
pub fn chars_of(s: &str) -> (r: Vec<char>)
    ensures
        r@ == s@,
{
    let mut out: Vec<char> = Vec::new();
    for c in it: s.chars()
        invariant
            out@ == s@.take(it.index() as int),
            it.seq() == s@,
    {
        out.push(c);
    }
    out
}

/// The text that a range of characters spells.
pub fn text_of(chars: &Vec<char>, from: usize, to: usize) -> (r: String)
    requires
        from <= to <= chars@.len(),
    ensures
        r@ == chars@.subrange(from as int, to as int),
{
    let mut out = String::new();
    let mut i: usize = from;
    while i < to
        invariant
            from <= i <= to <= chars@.len(),
            out@ == chars@.subrange(from as int, i as int),
        decreases to - i,
    {
        out.push(chars[i]);
        i += 1;
    }
    out
}

/// Whether two texts are equal.
pub fn same_text(a: &str, b: &str) -> (r: bool)
    ensures
        r == (a@ == b@),
{
    a.to_owned() == b.to_owned()
}

/// Whether `c` is white space.
pub fn is_white(c: char) -> (r: bool)
    ensures
        r == is_whitespace(c),
{
    let n: u32 = c as u32;
    (0x09 <= n && n <= 0x0D) || n == 0x20 || n == 0x85 || n == 0xA0 || n == 0x1680 || (0x2000 <= n
        && n <= 0x200A) || n == 0x2028 || n == 0x2029 || n == 0x202F || n == 0x205F || n == 0x3000
}

impl CharClass {
    /// Whether `c` belongs to the class.
    pub fn holds(self, c: char) -> (r: bool)
        ensures
            r == self.has(c),
    {
        match self {
            CharClass::White => is_white(c),
            CharClass::Curly => c == '{' || c == '}',
            CharClass::Just(d) => c == d,
        }
    }
}

/// The text without leading characters of the class.
pub fn trim_start_of(s: &str, class: CharClass) -> (r: String)
    ensures
        r@ == trimmed_start(s@, class),
{
    let chars = chars_of(s);
    let mut i: usize = 0;
    assert(chars@.skip(0) == chars@);
    while i < chars.len() && class.holds(chars[i])
        invariant
            i <= chars@.len(),
            trimmed_start(chars@, class) == trimmed_start(chars@.skip(i as int), class),
        decreases chars@.len() - i,
    {
        assert(chars@.skip(i as int).skip(1) == chars@.skip(i + 1));
        i += 1;
    }
    assert(chars@.skip(i as int) == chars@.subrange(i as int, chars@.len() as int));
    text_of(&chars, i, chars.len())
}

/// The text without trailing characters of the class.
pub fn trim_end_of(s: &str, class: CharClass) -> (r: String)
    ensures
        r@ == trimmed_end(s@, class),
{
    let chars = chars_of(s);
    let mut n: usize = chars.len();
    assert(chars@.take(chars@.len() as int) == chars@);
    while n > 0 && class.holds(chars[n - 1])
        invariant
            n <= chars@.len(),
            trimmed_end(chars@, class) == trimmed_end(chars@.take(n as int), class),
        decreases n,
    {
        assert(chars@.take(n as int).drop_last() == chars@.take(n - 1));
        n -= 1;
    }
    assert(chars@.take(n as int) == chars@.subrange(0, n as int));
    text_of(&chars, 0, n)
}

/// The text without characters of the class at either end.
pub fn trim_of(s: &str, class: CharClass) -> (r: String)
    ensures
        r@ == trimmed_of(s@, class),
{
    let rest = trim_start_of(s, class);
    trim_end_of(&rest, class)
}

/// The text without white space at either end.
pub fn trim(s: &str) -> (r: String)
    ensures
        r@ == trimmed(s@),
{
    trim_of(s, CharClass::White)
}

/// The place of the first `c` at or after `from`, or the length.
fn place_of(chars: &Vec<char>, c: char) -> (r: usize)
    ensures
        r == find_char(chars@, c),
        r <= chars@.len(),
        chars@.contains(c) <==> r < chars@.len(),
{
    let mut i: usize = 0;
    assert(chars@.skip(0) == chars@);
    while i < chars.len() && chars[i] != c
        invariant
            i <= chars@.len(),
            find_char(chars@, c) == i + find_char(chars@.skip(i as int), c),
            forall|j: int| 0 <= j < i ==> chars@[j] != c,
        decreases chars@.len() - i,
    {
        assert(chars@.skip(i as int).skip(1) == chars@.skip(i + 1));
        i += 1;
    }
    i
}

/// Whether the character occurs in the text.
pub fn has_char(s: &str, c: char) -> (r: bool)
    ensures
        r == s@.contains(c),
{
    let chars = chars_of(s);
    place_of(&chars, c) < chars.len()
}

/// Cuts the text at the first `c`.
pub fn split_once(s: &str, c: char) -> (r: Option<(String, String)>)
    ensures
        match r {
            Some(cut) => cut_at(s@, c) == Some((cut.0@, cut.1@)),
            None => cut_at(s@, c) is None,
        },
{
    let chars = chars_of(s);
    let at = place_of(&chars, c);
    if at < chars.len() {
        assert(chars@.take(at as int) == chars@.subrange(0, at as int));
        assert(chars@.skip(at + 1) == chars@.subrange(at + 1, chars@.len() as int));
        Some((text_of(&chars, 0, at), text_of(&chars, at + 1, chars.len())))
    } else {
        None
    }
}

/// The views of a list of texts.
pub open spec fn views(parts: Seq<String>) -> Seq<Seq<char>> {
    parts.map_values(|p: String| p@)
}

/// The pieces of the text between the occurrences of `c`.
pub fn split(s: &str, c: char) -> (r: Vec<String>)
    ensures
        views(r@) == split_by(s@, c),
        r@.len() > 0,
{
    let chars = chars_of(s);
    let mut out: Vec<String> = Vec::new();
    let mut piece = String::new();
    let mut i: usize = 0;
    assert(chars@.take(0) =~= Seq::empty());
    assert(views(out@).push(piece@) =~= seq![Seq::empty()]);
    while i < chars.len()
        invariant
            i <= chars@.len(),
            views(out@).push(piece@) =~= split_by(chars@.take(i as int), c),
        decreases chars@.len() - i,
    {
        assert(chars@.take(i + 1).drop_last() == chars@.take(i as int));
        let ghost before = out@;
        let ghost last = piece@;
        if chars[i] == c {
            out.push(piece);
            piece = String::new();
            assert(views(out@) =~= views(before).push(last));
        } else {
            piece.push(chars[i]);
            assert(views(before).push(last).drop_last() =~= views(before));
        }
        i += 1;
    }
    assert(chars@.take(chars@.len() as int) == chars@);
    let ghost before = out@;
    let ghost last = piece@;
    out.push(piece);
    assert(views(out@) =~= views(before).push(last));
    out
}

/// The pieces with `sep` between neighbours.
pub fn join(parts: &Vec<String>, sep: &str) -> (r: String)
    ensures
        r@ == joined(views(parts@), sep@),
{
    let mut out = String::new();
    let mut i: usize = 0;
    while i < parts.len()
        invariant
            i <= parts@.len(),
            out@ == joined(views(parts@).take(i as int), sep@),
        decreases parts@.len() - i,
    {
        assert(views(parts@).take(i + 1).drop_last() =~= views(parts@).take(i as int));
        if i > 0 {
            out.append(sep);
        }
        out.append(&parts[i]);
        i += 1;
        assert(out@ =~= joined(views(parts@).take(i as int), sep@));
    }
    assert(views(parts@).take(parts@.len() as int) =~= views(parts@));
    out
}

/// Whether `needle` stands in `chars` from place `at` on.
fn stands_at(chars: &Vec<char>, needle: &Vec<char>, at: usize) -> (r: bool)
    requires
        at <= chars@.len(),
    ensures
        r == occurs_at(chars@, needle@, at as int),
{
    if needle.len() > chars.len() - at {
        return false;
    }
    let mut i: usize = 0;
    while i < needle.len()
        invariant
            i <= needle@.len(),
            at + needle@.len() <= chars.len(),
            chars@.subrange(at as int, at + i) == needle@.take(i as int),
        decreases needle@.len() - i,
    {
        if chars[at + i] != needle[i] {
            assert(chars@.subrange(at as int, at + needle@.len())[i as int] != needle@[i as int]);
            return false;
        }
        assert(chars@.subrange(at as int, at + i + 1) =~= chars@.subrange(
            at as int,
            at + i,
        ).push(chars@[at + i]));
        assert(needle@.take(i + 1) =~= needle@.take(i as int).push(needle@[i as int]));
        i += 1;
    }
    assert(needle@.take(needle@.len() as int) == needle@);
    true
}

/// Whether `needle` occurs in the text.
pub fn contains(s: &str, needle: &str) -> (r: bool)
    ensures
        r == contains_text(s@, needle@),
{
    let chars = chars_of(s);
    let wanted = chars_of(needle);
    let mut at: usize = 0;
    while at < chars.len()
        invariant
            chars@ == s@,
            wanted@ == needle@,
            at <= chars@.len(),
            forall|j: int| 0 <= j < at ==> !#[trigger] occurs_at(s@, needle@, j),
        decreases chars@.len() - at,
    {
        if stands_at(&chars, &wanted, at) {
            return true;
        }
        at += 1;
    }
    stands_at(&chars, &wanted, at)
}

/// Whether the text begins with `prefix`.
pub fn starts_with(s: &str, prefix: &str) -> (r: bool)
    ensures
        r == begins_with(s@, prefix@),
{
    let chars = chars_of(s);
    let wanted = chars_of(prefix);
    stands_at(&chars, &wanted, 0)
}

/// The first `n` characters of the text.
pub fn take_chars(s: &str, n: usize) -> (r: String)
    ensures
        r@ == first_chars(s@, n as int),
{
    let chars = chars_of(s);
    let end: usize = if chars.len() <= n {
        chars.len()
    } else {
        n
    };
    assert(chars@.subrange(0, end as int) =~= first_chars(s@, n as int));
    text_of(&chars, 0, end)
}

/// The text with `with` in place of every `c`.
pub fn replace_char(s: &str, c: char, with: &str) -> (r: String)
    ensures
        r@ == replaced_char(s@, c, with@),
{
    let chars = chars_of(s);
    let mut out = String::new();
    let mut i: usize = 0;
    while i < chars.len()
        invariant
            i <= chars@.len(),
            out@ == replaced_char(chars@.take(i as int), c, with@),
        decreases chars@.len() - i,
    {
        assert(chars@.take(i + 1).drop_last() == chars@.take(i as int));
        if chars[i] == c {
            out.append(with);
        } else {
            out.push(chars[i]);
        }
        i += 1;
    }
    assert(chars@.take(chars@.len() as int) == chars@);
    out
}

/// Whether nothing but white space is in the text.
pub fn is_blank(s: &str) -> (r: bool)
    ensures
        r == blank(s@),
{
    let chars = chars_of(s);
    let mut i: usize = 0;
    while i < chars.len()
        invariant
            chars@ == s@,
            i <= chars@.len(),
            forall|j: int| 0 <= j < i ==> is_whitespace(#[trigger] chars@[j]),
        decreases chars@.len() - i,
    {
        if !is_white(chars[i]) {
            assert(!is_whitespace(chars@[i as int]));
            return false;
        }
        i += 1;
    }
    true
}

/// The ASCII capital letters in lower case.
fn lower_ascii(c: char) -> (r: char)
    ensures
        r == ascii_lower(c),
{
    if 'A' <= c && c <= 'Z' {
        ((c as u8) + 32) as char
    } else {
        c
    }
}

/// Whether two texts differ at most in the case of ASCII letters.
pub fn eq_ignore_case(a: &str, b: &str) -> (r: bool)
    ensures
        r == same_ignoring_case(a@, b@),
{
    let x = chars_of(a);
    let y = chars_of(b);
    if x.len() != y.len() {
        return false;
    }
    let mut i: usize = 0;
    while i < x.len()
        invariant
            x@ == a@,
            y@ == b@,
            i <= x@.len(),
            x@.len() == y@.len(),
            forall|j: int| 0 <= j < i ==> ascii_lower(#[trigger] x@[j]) == ascii_lower(y@[j]),
        decreases x@.len() - i,
    {
        if lower_ascii(x[i]) != lower_ascii(y[i]) {
            assert(ascii_lower(x@[i as int]) != ascii_lower(y@[i as int]));
            return false;
        }
        i += 1;
    }
    true
}

/// Whether the text is one of some texts.
pub fn is_one_of(text: &str, texts: &Vec<String>) -> (r: bool)
    ensures
        r == views(texts@).contains(text@),
{
    let mut i: usize = 0;
    while i < texts.len()
        invariant
            i <= texts@.len(),
            forall|j: int| 0 <= j < i ==> #[trigger] views(texts@)[j] != text@,
        decreases texts@.len() - i,
    {
        if same_text(&texts[i], text) {
            assert(views(texts@)[i as int] == text@);
            return true;
        }
        i += 1;
    }
    false
}

// ---------------------------------------------------------------------------
// Laws
// ---------------------------------------------------------------------------

/// Where the first value that anything is picked for stands, there stands the
/// first thing that is picked; where there is no such value nothing is picked.
pub(crate) proof fn lemma_first_picked<A, B>(items: Seq<A>, pick: spec_fn(A) -> Option<B>, at: int)
    requires
        0 <= at <= items.len(),
        forall|i: int| 0 <= i < at ==> pick(#[trigger] items[i]) is None,
        at < items.len() ==> pick(items[at]) is Some,
    ensures
        at < items.len() ==> items.filter_map(pick).len() > 0 && items.filter_map(pick)[0] == pick(
            items[at],
        )->0,
        at == items.len() ==> items.filter_map(pick).len() == 0,
    decreases items.len(),
{
    if items.len() > 0 {
        let before = items.drop_last();
        if at == items.len() {
            assert(pick(items[items.len() - 1]) is None);
            lemma_first_picked(before, pick, at - 1);
        } else {
            lemma_first_picked(before, pick, at);
        }
    }
}

/// Trimming takes away all that belongs to the class around a text that
/// neither begins nor ends with it, and nothing of that text.
pub proof fn trimming_takes_what_stands_around(
    front: Seq<char>,
    text: Seq<char>,
    back: Seq<char>,
    class: CharClass,
)
    requires
        forall|i: int| 0 <= i < front.len() ==> class.has(#[trigger] front[i]),
        forall|i: int| 0 <= i < back.len() ==> class.has(#[trigger] back[i]),
    ensures
        text.len() > 0 && !class.has(text[0]) && !class.has(text.last()) ==> trimmed_of(
            front + text + back,
            class,
        ) == text,
        text.len() > 0 && !class.has(text[0]) ==> trimmed_start(front + text, class) == text,
        text.len() > 0 && !class.has(text.last()) ==> trimmed_end(text + back, class) == text,
        trimmed_of(front, class).len() == 0,
        trimmed_start(front, class).len() == 0,
        trimmed_end(back, class).len() == 0,
{
    lemma_trimmed(front, class);
    lemma_trimmed_front(front, Seq::empty(), class);
    lemma_trimmed_back(Seq::empty(), back, class);
    assert(front + Seq::<char>::empty() =~= front);
    assert(Seq::<char>::empty() + back =~= back);
    if text.len() > 0 && !class.has(text[0]) {
        lemma_trimmed_front(front, text, class);
        lemma_trimmed_front(front, text + back, class);
        assert(front + text + back =~= front + (text + back));
    }
    if text.len() > 0 && !class.has(text.last()) {
        lemma_trimmed_back(text, back, class);
    }
}

/// Trimming the start takes away a front of the class.
proof fn lemma_trimmed_front(front: Seq<char>, text: Seq<char>, class: CharClass)
    requires
        forall|i: int| 0 <= i < front.len() ==> class.has(#[trigger] front[i]),
        text.len() == 0 || !class.has(text[0]),
    ensures
        trimmed_start(front + text, class) == text,
    decreases front.len(),
{
    let s = front + text;
    if front.len() > 0 {
        assert(s[0] == front[0]);
        let rest = front.skip(1);
        assert(s.skip(1) =~= rest + text);
        assert forall|i: int| 0 <= i < rest.len() implies class.has(#[trigger] rest[i]) by {
            assert(rest[i] == front[i + 1]);
        }
        lemma_trimmed_front(rest, text, class);
    } else {
        assert(s =~= text);
    }
}

/// Trimming the end takes away a back of the class.
proof fn lemma_trimmed_back(text: Seq<char>, back: Seq<char>, class: CharClass)
    requires
        forall|i: int| 0 <= i < back.len() ==> class.has(#[trigger] back[i]),
        text.len() == 0 || !class.has(text.last()),
    ensures
        trimmed_end(text + back, class) == text,
    decreases back.len(),
{
    let s = text + back;
    if back.len() > 0 {
        assert(s.last() == back[back.len() - 1]);
        assert(s.drop_last() =~= text + back.drop_last());
        lemma_trimmed_back(text, back.drop_last(), class);
    } else {
        assert(s =~= text);
    }
}

/// A text is cut at the first place where the character stands, and what
/// stands before and after it, with the character between, is the whole text.
/// A text without the character is not cut.
pub proof fn cuts_are_at_the_first(front: Seq<char>, c: char, back: Seq<char>)
    requires
        !front.contains(c),
    ensures
        cut_at(front.push(c) + back, c) == Some((front, back)),
        cut_at(front, c) is None,
    decreases front.len(),
{
    lemma_find_char(front, c, back);
    let s = front.push(c) + back;
    assert(s[front.len() as int] == c);
    assert(s.take(front.len() as int) =~= front);
    assert(s.skip(front.len() as int + 1) =~= back);
}

/// The first place of a character is behind a text without it.
proof fn lemma_find_char(front: Seq<char>, c: char, back: Seq<char>)
    requires
        !front.contains(c),
    ensures
        find_char(front.push(c) + back, c) == front.len(),
    decreases front.len(),
{
    let s = front.push(c) + back;
    if front.len() > 0 {
        assert(front.contains(front[0]));
        assert(s[0] == front[0]);
        let rest = front.skip(1);
        assert(!rest.contains(c)) by {
            if rest.contains(c) {
                let k = choose|k: int| 0 <= k < rest.len() && rest[k] == c;
                assert(front[k + 1] == c);
            }
        }
        assert(s.skip(1) =~= rest.push(c) + back);
        lemma_find_char(rest, c, back);
    } else {
        assert(s[0] == c);
    }
}

/// Splitting a text and joining the pieces with the same character gives the
/// text back, and no piece holds the character: there is one piece more than
/// there are such characters.
pub proof fn joined_pieces_are_the_text(s: Seq<char>, c: char)
    ensures
        joined(split_by(s, c), seq![c]) == s,
        split_by(s, c).len() == s.filter(|d: char| d == c).len() + 1,
        forall|i: int|
            0 <= i < split_by(s, c).len() ==> !(#[trigger] split_by(s, c)[i]).contains(c),
    decreases s.len(),
{
    reveal(Seq::filter);
    if s.len() > 0 {
        let short = s.drop_last();
        joined_pieces_are_the_text(short, c);
        let before = split_by(short, c);
        let pieces = split_by(s, c);
        assert(before.len() > 0);
        if s.last() == c {
            assert(pieces.drop_last() =~= before);
            assert(joined(pieces, seq![c]) == joined(before, seq![c]) + seq![c] + Seq::empty());
            assert(joined(pieces, seq![c]) =~= s);
            assert(!Seq::<char>::empty().contains(c));
        } else {
            assert(pieces.drop_last() =~= before.drop_last());
            assert(joined(pieces, seq![c]) =~= joined(before, seq![c]).push(s.last()));
            assert(joined(pieces, seq![c]) =~= s);
            assert(!before[before.len() - 1].contains(c));
            let piece = before.last().push(s.last());
            if piece.contains(c) {
                let k = choose|k: int| 0 <= k < piece.len() && piece[k] == c;
                assert(before.last()[k] == c);
            }
        }
        assert forall|i: int| 0 <= i < pieces.len() implies !(#[trigger] pieces[i]).contains(c) by {
            if i < before.len() - 1 {
                assert(pieces[i] == before[i]);
            } else if i == before.len() - 1 && s.last() == c {
                assert(pieces[i] == before[i]);
            }
        }
    } else {
        assert(split_by(s, c)[0] =~= s);
    }
}

/// Joining puts the separator between neighbours and nowhere else.
pub proof fn separators_stand_between_neighbours(
    parts: Seq<Seq<char>>,
    part: Seq<char>,
    sep: Seq<char>,
)
    ensures
        joined(Seq::empty(), sep).len() == 0,
        joined(seq![part], sep) == part,
        parts.len() > 0 ==> joined(parts.push(part), sep) == joined(parts, sep) + sep + part,
{
    assert(parts.push(part).drop_last() =~= parts);
}

/// A replacement treats each character by itself: the character is replaced
/// wherever it stands, and every other one stays.
pub proof fn characters_are_replaced_one_by_one(
    a: Seq<char>,
    b: Seq<char>,
    c: char,
    with: Seq<char>,
)
    ensures
        replaced_char(a + b, c, with) == replaced_char(a, c, with) + replaced_char(b, c, with),
        replaced_char(seq![c], c, with) == with,
        !a.contains(c) ==> replaced_char(a, c, with) == a,
    decreases a.len() + b.len(),
{
    let empty = Seq::<char>::empty();
    assert(seq![c].drop_last() =~= empty);
    assert(replaced_char(empty, c, with) + with =~= with);
    if b.len() > 0 {
        characters_are_replaced_one_by_one(a, b.drop_last(), c, with);
        assert((a + b).drop_last() =~= a + b.drop_last());
        assert(replaced_char(a + b, c, with) =~= replaced_char(a, c, with) + replaced_char(
            b,
            c,
            with,
        ));
    } else {
        assert(a + b =~= a);
        assert(replaced_char(a, c, with) + b =~= replaced_char(a, c, with));
        if a.len() > 0 {
            let short = a.drop_last();
            characters_are_replaced_one_by_one(short, empty, c, with);
            assert(a.contains(a.last()));
            if !a.contains(c) {
                assert(!short.contains(c)) by {
                    if short.contains(c) {
                        let k = choose|k: int| 0 <= k < short.len() && short[k] == c;
                        assert(a[k] == c);
                    }
                }
                assert(replaced_char(a, c, with) =~= a);
            }
        }
    }
}

/// A run of white space, however long, becomes the replacement once, and what
/// is not white stays as it is.
pub proof fn runs_of_white_space_become_one(
    word: Seq<char>,
    run: Seq<char>,
    rest: Seq<char>,
    with: Seq<char>,
)
    requires
        forall|i: int| 0 <= i < word.len() ==> !is_whitespace(#[trigger] word[i]),
        run.len() > 0,
        forall|i: int| 0 <= i < run.len() ==> is_whitespace(#[trigger] run[i]),
        rest.len() == 0 || !is_whitespace(rest[0]),
    ensures
        spaced(word, with) == word,
        spaced(word + run + rest, with) == word + with + spaced(rest, with),
    decreases word.len() + run.len() + rest.len(),
{
    let empty = Seq::<char>::empty();
    let s = word + run + rest;
    if word.len() > 0 {
        runs_of_white_space_become_one(word.drop_last(), run, empty, with);
        assert(!is_whitespace(word[word.len() - 1]));
        assert(spaced(word, with) =~= word);
    }
    if rest.len() > 0 {
        let short = rest.drop_last();
        runs_of_white_space_become_one(word, run, short, with);
        assert(s.drop_last() =~= word + run + short);
        assert(s.last() == rest.last());
        if rest.len() > 1 {
            assert(s[s.len() - 2] == rest[rest.len() - 2]);
        }
        assert(spaced(s, with) =~= word + with + spaced(rest, with));
    } else {
        assert(s =~= word + run);
        assert(s.last() == run[run.len() - 1]);
        if run.len() > 1 {
            let shorter = run.drop_last();
            assert(s[s.len() - 2] == run[run.len() - 2]);
            runs_of_white_space_become_one(word, shorter, rest, with);
            assert(s.drop_last() =~= word + shorter + rest);
            assert(is_whitespace(s[s.len() - 2]));
            assert(spaced(s, with) == spaced(s.drop_last(), with));
        } else {
            assert(s.drop_last() =~= word);
            assert(s.len() > 1 ==> s[s.len() - 2] == word[word.len() - 1]);
            assert(spaced(s, with) == spaced(word, with) + with);
            assert(word + with + spaced(rest, with) =~= word + with);
        }
    }
}

/// The beginning of a text is as long as was asked, or the whole text.
pub proof fn beginnings_are_as_long_as_asked(s: Seq<char>, n: int)
    requires
        n >= 0,
    ensures
        first_chars(s, n).len() == if s.len() <= n {
            s.len() as int
        } else {
            n
        },
        forall|i: int| 0 <= i < first_chars(s, n).len() ==> first_chars(s, n)[i] == s[i],
{
}

/// A text begins with another one, or holds it, exactly if it is made of it
/// and of what stands around it.
pub proof fn texts_hold_what_they_are_made_of(a: Seq<char>, needle: Seq<char>, b: Seq<char>)
    ensures
        begins_with(needle + b, needle),
        contains_text(a + needle + b, needle),
        begins_with(a, needle) ==> a == needle + a.skip(needle.len() as int),
        contains_text(a, needle) ==> exists|at: int|
            0 <= at <= a.len() && a == #[trigger] a.take(at) + needle + a.skip(
                at + needle.len() as int,
            ),
{
    assert((needle + b).subrange(0, needle.len() as int) =~= needle);
    assert((a + needle + b).subrange(a.len() as int, a.len() + needle.len() as int) =~= needle);
    assert(occurs_at(a + needle + b, needle, a.len() as int));
    if begins_with(a, needle) {
        assert(a =~= a.subrange(0, needle.len() as int) + a.skip(needle.len() as int));
    }
    if contains_text(a, needle) {
        let at = choose|at: int| #[trigger] occurs_at(a, needle, at);
        assert(a =~= a.take(at) + a.subrange(at, at + needle.len()) + a.skip(
            at + needle.len() as int,
        ));
        assert(a == a.take(at) + needle + a.skip(at + needle.len() as int));
    }
}

/// Case is ignored for the ASCII letters and for nothing else: two characters
/// are the same ignoring case exactly if they are equal or the two cases of
/// one such letter.
pub proof fn only_the_case_of_letters_is_ignored(a: char, b: char)
    ensures
        same_ignoring_case(seq![a], seq![b]) <==> a == b || ('A' <= a <= 'Z' && b as int == a as int
            + 32) || ('A' <= b <= 'Z' && a as int == b as int + 32),
{
    if same_ignoring_case(seq![a], seq![b]) {
        assert(ascii_lower(seq![a][0]) == ascii_lower(seq![b][0]));
    }
}

/// No more is picked than there are values.
pub(crate) proof fn lemma_picked_at_most<A, B>(items: Seq<A>, pick: spec_fn(A) -> Option<B>)
    ensures
        items.filter_map(pick).len() <= items.len(),
    decreases items.len(),
{
    if items.len() > 0 {
        lemma_picked_at_most(items.drop_last(), pick);
    }
}

/// Where something is picked for every value, all that is picked stands where
/// its value stands.
pub(crate) proof fn lemma_all_picked<A, B>(items: Seq<A>, pick: spec_fn(A) -> Option<B>)
    requires
        forall|i: int| 0 <= i < items.len() ==> pick(#[trigger] items[i]) is Some,
    ensures
        items.filter_map(pick).len() == items.len(),
        forall|i: int|
            0 <= i < items.len() ==> items.filter_map(pick)[i] == pick(#[trigger] items[i])->0,
    decreases items.len(),
{
    if items.len() > 0 {
        let before = items.drop_last();
        lemma_all_picked(before, pick);
        let all = items.filter_map(pick);
        let last = items[items.len() - 1];
        assert(pick(last) is Some);
        assert(all =~= before.filter_map(pick) + seq![pick(last)->0]);
        assert forall|i: int| 0 <= i < items.len() implies all[i] == pick(#[trigger] items[i])->0 by {
            if i < before.len() {
                assert(before[i] == items[i]);
                assert(before.filter_map(pick)[i] == pick(before[i])->0);
            }
        }
    }
}

}
