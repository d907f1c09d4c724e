//! Paths of files as texts with slashes, read the way Unix reads them.
use crate::json::opt_view;
use crate::numbers::{decimal, decimal_spells_its_number, decimal_text};
use crate::text::{
    ascii_lower, chars_of, eq_ignore_case, same_ignoring_case, same_text, split, split_by, starts_with, text_of,
    views,
};
use vstd::prelude::*;
use vstd::string::*;

verus! {

broadcast use vstd::string::group_string_axioms;

// ---------------------------------------------------------------------------
// Models
// ---------------------------------------------------------------------------

/// `b` seen from the directory `a`; an absolute `b` stands for itself.
pub open spec fn joined_path(a: Seq<char>, b: Seq<char>) -> Seq<char> {
    if b.len() > 0 && b[0] == '/' {
        b
    } else if a.len() == 0 || a.last() == '/' {
        a + b
    } else {
        a.push('/') + b
    }
}

/// Whether a part of a path leads anywhere: empty parts and single dots do not.
pub open spec fn is_step(part: Seq<char>) -> bool {
    part.len() > 0 && part != "."@
}

/// The parts of a path that lead somewhere.
pub open spec fn steps(path: Seq<char>) -> Seq<Seq<char>> {
    split_by(path, '/').filter(|part: Seq<char>| is_step(part))
}

/// Whether a path leads up anywhere.
pub open spec fn climbs(path: Seq<char>) -> bool {
    steps(path).contains(".."@)
}

/// Where some steps from the root lead: a step up takes back the last one, and
/// at the root it leads nowhere.
pub open spec fn resolved(parts: Seq<Seq<char>>) -> Seq<Seq<char>>
    decreases parts.len(),
{
    if parts.len() == 0 {
        parts
    } else {
        let before = resolved(parts.drop_last());
        if parts.last() != ".."@ {
            before.push(parts.last())
        } else if before.len() > 0 {
            before.drop_last()
        } else {
            before
        }
    }
}

/// Whether a path starts at the root.
pub open spec fn is_absolute(path: Seq<char>) -> bool {
    path.len() > 0 && path[0] == '/'
}

/// Whether a path leads to the directory `top` at the root or below it, once
/// every step up is taken.
pub open spec fn lies_in(path: Seq<char>, top: Seq<char>) -> bool {
    &&& is_absolute(path)
    &&& resolved(steps(path)).len() > 0
    &&& seq!['/'] + resolved(steps(path))[0] == top
}

/// Whether a path leads to a place below the directory `top` at the root, once
/// every step up is taken.
pub open spec fn lies_below(path: Seq<char>, top: Seq<char>) -> bool {
    lies_in(path, top) && resolved(steps(path)).len() > 1
}

/// The path from the root through some steps.
pub open spec fn rooted(parts: Seq<Seq<char>>) -> Seq<char>
    decreases parts.len(),
{
    if parts.len() == 0 {
        "/"@
    } else {
        joined_path(rooted(parts.drop_last()), parts.last())
    }
}

/// A path from the root without steps up: one that has any is written anew.
pub open spec fn settled_path(path: Seq<char>) -> Seq<char> {
    if climbs(path) {
        rooted(resolved(steps(path)))
    } else {
        path
    }
}

/// The name at the end of a path, unless it ends in two dots.
pub open spec fn file_name(path: Seq<char>) -> Option<Seq<char>> {
    let parts = steps(path);
    if parts.len() == 0 || parts.last() == ".."@ {
        None
    } else {
        Some(parts.last())
    }
}

/// What stands behind the last dot of a file name, unless that dot begins it.
pub open spec fn name_extension(name: Seq<char>) -> Option<Seq<char>> {
    let pieces = split_by(name, '.');
    if pieces.len() < 2 || (pieces.len() == 2 && pieces[0].len() == 0) {
        None
    } else {
        Some(pieces.last())
    }
}

/// Whether a path leads to a cue sheet.
pub open spec fn is_cue(path: Seq<char>) -> bool {
    file_name(path) matches Some(name) && (name_extension(name) matches Some(extension)
        && same_ignoring_case(extension, "cue"@))
}

/// How much of a path is there before its parts: the root, or the dot that a
/// relative path begins with.
pub open spec fn anchor(path: Seq<char>) -> int {
    if path.len() > 0 && (path[0] == '/' || (path[0] == '.' && (path.len() == 1 || path[1]
        == '/'))) {
        1
    } else {
        0
    }
}

/// A path without the slashes and single dots at its end.
pub open spec fn bare(path: Seq<char>) -> Seq<char>
    decreases path.len(),
{
    if path.len() > anchor(path) && (path.last() == '/' || (path.last() == '.' && path.len() >= 2
        && path[path.len() - 2] == '/')) {
        bare(path.drop_last())
    } else {
        path
    }
}

/// The directory that a path which ends in a name lies in.
pub open spec fn parent(path: Seq<char>, name: Seq<char>) -> Seq<char> {
    let whole = bare(path);
    bare(whole.take(whole.len() - name.len()))
}

/// A path with another name at its end, or with a name where it has none.
pub open spec fn with_name(path: Seq<char>, name: Seq<char>) -> Seq<char> {
    match file_name(path) {
        Some(old) => joined_path(parent(path, old), name),
        None => joined_path(path, name),
    }
}

/// The name for the copy with this number.
pub open spec fn numbered_name(path: Seq<char>, number: int) -> Seq<char> {
    (match file_name(path) {
        Some(name) => name,
        None => "Unknown"@,
    }) + " ("@ + decimal(number) + ")"@
}

/// The paths that are tried in turn for something to be put at `path`: the
/// path itself, then with a number behind its name, from two on.
pub open spec fn candidate(path: Seq<char>, index: int) -> Seq<char> {
    if index == 0 {
        path
    } else {
        with_name(path, numbered_name(path, index + 1))
    }
}

// ---------------------------------------------------------------------------
// Executable paths
// ---------------------------------------------------------------------------

/// `b` seen from the directory `a`.
pub fn join_path(a: &str, b: &str) -> (r: String)
    ensures
        r@ == joined_path(a@, b@),
{
    let head = chars_of(b);
    if head.len() > 0 && head[0] == '/' {
        return b.to_owned();
    }
    let dir = chars_of(a);
    if dir.len() == 0 || dir[dir.len() - 1] == '/' {
        a.to_owned().concat(b)
    } else {
        proof {
            reveal_strlit("/");
        }
        let out = a.to_owned().concat("/");
        assert(out@ =~= a@.push('/'));
        out.concat(b)
    }
}

/// Whether the path leads up anywhere.
pub fn path_climbs(path: &str) -> (r: bool)
    ensures
        r == climbs(path@),
{
    let parts = split(path, '/');
    let ghost all = views(parts@);
    let ghost leads = |part: Seq<char>| is_step(part);
    let mut i: usize = 0;
    while i < parts.len()
        invariant
            i <= parts@.len(),
            all == views(parts@),
            all == split_by(path@, '/'),
            leads == (|part: Seq<char>| is_step(part)),
            forall|j: int| 0 <= j < i ==> #[trigger] all[j] != ".."@,
        decreases parts@.len() - i,
    {
        if same_text(&parts[i], "..") {
            proof {
                reveal_strlit(".");
                reveal_strlit("..");
                assert("."@.len() == 1 && ".."@.len() == 2);
                assert(leads(all[i as int]));
                all.lemma_filter_contains(leads, i as int);
            }
            return true;
        }
        i += 1;
    }
    proof {
        if climbs(path@) {
            all.lemma_filter_contains_rev(leads, ".."@);
        }
    }
    false
}

/// Where the steps of the path lead from the root.
pub fn resolved_steps(path: &str) -> (r: Vec<String>)
    ensures
        views(r@) == resolved(steps(path@)),
{
    let parts = split(path, '/');
    let ghost all = views(parts@);
    let ghost leads = |part: Seq<char>| is_step(part);
    let mut out: Vec<String> = Vec::new();
    let mut i: usize = 0;
    proof {
        reveal(Seq::filter);
        assert(all.take(0) =~= Seq::empty());
        assert(views(out@) =~= Seq::empty());
        assert(all.take(0).filter(leads) =~= Seq::empty());
    }
    while i < parts.len()
        invariant
            i <= parts@.len(),
            all == views(parts@),
            leads == (|part: Seq<char>| is_step(part)),
            views(out@) == resolved(all.take(i as int).filter(leads)),
        decreases parts@.len() - i,
    {
        proof {
            reveal(Seq::filter);
            assert(all.take(i + 1).drop_last() =~= all.take(i as int));
        }
        let ghost before = all.take(i as int).filter(leads);
        if !parts[i].as_str().is_empty() && !same_text(&parts[i], ".") {
            assert(all.take(i + 1).filter(leads) == before.push(all[i as int]));
            assert(before.push(all[i as int]).drop_last() =~= before);
            let ghost gone = views(out@);
            if same_text(&parts[i], "..") {
                let _ = out.pop();
                assert(gone.len() > 0 ==> views(out@) =~= gone.drop_last());
                assert(gone.len() == 0 ==> views(out@) =~= gone);
            } else {
                out.push(parts[i].clone());
                assert(views(out@) =~= gone.push(all[i as int]));
            }
        }
        i += 1;
    }
    assert(all.take(parts@.len() as int) =~= all);
    out
}

/// Whether the path leads to the directory `top` at the root or below it.
pub fn path_lies_in(path: &str, top: &str) -> (r: bool)
    ensures
        r == lies_in(path@, top@),
{
    proof {
        reveal_strlit("/");
        if is_absolute(path@) {
            assert(path@.subrange(0, 1) =~= "/"@);
        }
        assert(path@.len() > 0 ==> path@.subrange(0, 1)[0] == path@[0]);
        assert("/"@ =~= seq!['/']);
    }
    if !starts_with(path, "/") {
        return false;
    }
    let parts = resolved_steps(path);
    assert(views(parts@).len() == parts@.len());
    if parts.len() == 0 {
        return false;
    }
    assert(views(parts@)[0] == parts@[0]@);
    same_text(&"/".to_owned().concat(&parts[0]), top)
}

/// Whether the path leads to a place below the directory `top` at the root.
pub fn path_lies_below(path: &str, top: &str) -> (r: bool)
    ensures
        r == lies_below(path@, top@),
{
    let parts = resolved_steps(path);
    assert(views(parts@).len() == parts@.len());
    parts.len() > 1 && path_lies_in(path, top)
}

/// A path from the root without steps up.
pub fn settle_path(path: &str) -> (r: String)
    ensures
        r@ == settled_path(path@),
{
    if !path_climbs(path) {
        return path.to_owned();
    }
    let parts = resolved_steps(path);
    let ghost all = views(parts@);
    let mut out = "/".to_owned();
    let mut i: usize = 0;
    assert(all.take(0) =~= Seq::empty());
    while i < parts.len()
        invariant
            i <= parts@.len(),
            all == views(parts@),
            out@ == rooted(all.take(i as int)),
        decreases parts@.len() - i,
    {
        assert(all.take(i + 1).drop_last() =~= all.take(i as int));
        out = join_path(&out, &parts[i]);
        i += 1;
    }
    assert(all.take(parts@.len() as int) =~= all);
    out
}

/// The name at the end of the path.
pub fn path_file_name(path: &str) -> (r: Option<String>)
    ensures
        opt_view(r) == file_name(path@),
{
    let parts = split(path, '/');
    let mut last: Option<String> = None;
    let mut i: usize = 0;
    let ghost leads = |part: Seq<char>| is_step(part);
    proof {
        reveal(Seq::filter);
        assert(views(parts@).take(0) =~= Seq::empty());
    }
    while i < parts.len()
        invariant
            i <= parts@.len(),
            leads == (|part: Seq<char>| is_step(part)),
            match last {
                Some(name) => {
                    let done = views(parts@).take(i as int).filter(leads);
                    done.len() > 0 && done.last() == name@
                },
                None => views(parts@).take(i as int).filter(leads).len() == 0,
            },
        decreases parts@.len() - i,
    {
        proof {
            reveal(Seq::filter);
            assert(views(parts@).take(i + 1).drop_last() =~= views(parts@).take(i as int));
        }
        if !parts[i].as_str().is_empty() && !same_text(&parts[i], ".") {
            last = Some(parts[i].clone());
        }
        i += 1;
    }
    assert(views(parts@).take(parts@.len() as int) =~= views(parts@));
    match last {
        Some(name) => if same_text(&name, "..") {
            None
        } else {
            Some(name)
        },
        None => None,
    }
}

/// What stands behind the last dot of the file name, unless that dot begins it.
pub fn extension_of(name: &str) -> (r: Option<String>)
    ensures
        opt_view(r) == name_extension(name@),
{
    let pieces = split(name, '.');
    assert(views(pieces@).len() == pieces@.len());
    if pieces.len() < 2 {
        return None;
    }
    assert(views(pieces@)[0] == pieces@[0]@);
    if pieces.len() == 2 && pieces[0].as_str().is_empty() {
        return None;
    }
    assert(views(pieces@).last() == pieces@.last()@);
    Some(pieces[pieces.len() - 1].clone())
}

/// Whether the path leads to a cue sheet.
pub fn leads_to_cue(path: &str) -> (r: bool)
    ensures
        r == is_cue(path@),
{
    match path_file_name(path) {
        Some(name) => match extension_of(&name) {
            Some(extension) => eq_ignore_case(&extension, "cue"),
            None => false,
        },
        None => false,
    }
}

/// The path without the slashes and single dots at its end.
fn bare_path(path: &str) -> (r: String)
    ensures
        r@ == bare(path@),
{
    let chars = chars_of(path);
    let mut n: usize = chars.len();
    assert(chars@.take(chars@.len() as int) =~= chars@);
    loop
        invariant
            n <= chars@.len(),
            chars@ == path@,
            bare(path@) == bare(chars@.take(n as int)),
        ensures
            n <= chars@.len(),
            bare(path@) == chars@.take(n as int),
        decreases n,
    {
        let ghost now = chars@.take(n as int);
        let start: usize = if n > 0 && (chars[0] == '/' || (chars[0] == '.' && (n == 1 || chars[1]
            == '/'))) {
            1
        } else {
            0
        };
        assert(start == anchor(now));
        if n > start && (chars[n - 1] == '/' || (chars[n - 1] == '.' && n >= 2 && chars[n - 2]
            == '/')) {
            assert(now.drop_last() =~= chars@.take(n - 1));
            n -= 1;
        } else {
            break ;
        }
    }
    assert(chars@.take(n as int) =~= chars@.subrange(0, n as int));
    text_of(&chars, 0, n)
}

/// A path is at least as long as what is left of it without its end.
proof fn lemma_bare(path: Seq<char>)
    ensures
        bare(path).len() <= path.len(),
        bare(path) == path.take(bare(path).len() as int),
    decreases path.len(),
{
    if bare(path) != path {
        lemma_bare(path.drop_last());
        assert(path.drop_last().take(bare(path).len() as int) =~= path.take(
            bare(path).len() as int,
        ));
    } else {
        assert(path.take(path.len() as int) =~= path);
    }
}

/// The last piece of a text is what stands at its end.
proof fn lemma_last_piece(s: Seq<char>, c: char)
    ensures
        split_by(s, c).len() > 0,
        split_by(s, c).last().len() <= s.len(),
        s.skip(s.len() - split_by(s, c).last().len()) == split_by(s, c).last(),
    decreases s.len(),
{
    if s.len() > 0 {
        lemma_last_piece(s.drop_last(), c);
        let last = split_by(s, c).last();
        if s.last() != c {
            let before = split_by(s.drop_last(), c).last();
            assert(s.skip(s.len() - last.len()) =~= s.drop_last().skip(
                s.drop_last().len() - before.len(),
            ).push(s.last()));
        } else {
            assert(s.skip(s.len() - 0) =~= last);
        }
    } else {
        assert(s.skip(0) =~= s);
    }
}

/// The pieces of a text do not hold what it is split by.
proof fn lemma_pieces(s: Seq<char>, c: char)
    ensures
        forall|i: int| 0 <= i < split_by(s, c).len() ==> !(#[trigger] split_by(s, c)[i]).contains(c),
    decreases s.len(),
{
    if s.len() > 0 {
        lemma_pieces(s.drop_last(), c);
        lemma_last_piece(s.drop_last(), c);
        let before = split_by(s.drop_last(), c);
        assert forall|i: int| 0 <= i < split_by(s, c).len() implies !(#[trigger] split_by(
            s,
            c,
        )[i]).contains(c) by {
            if i < before.len() - 1 || (i < before.len() && s.last() == c) {
                assert(split_by(s, c)[i] == before[i]);
            } else if s.last() != c {
                let piece = before.last().push(s.last());
                assert(!before[before.len() - 1].contains(c));
                assert(split_by(s, c)[i] == piece);
                if piece.contains(c) {
                    let k = choose|k: int| 0 <= k < piece.len() && piece[k] == c;
                    assert(before.last()[k] == c);
                    assert(before.last().contains(c));
                }
            }
        }
    }
}

/// A text without `c` behind another one lengthens its last piece.
pub(crate) proof fn lemma_split_append(s: Seq<char>, b: Seq<char>, c: char)
    requires
        !b.contains(c),
    ensures
        split_by(s + b, c) == split_by(s, c).drop_last().push(split_by(s, c).last() + b),
    decreases b.len(),
{
    lemma_last_piece(s, c);
    if b.len() == 0 {
        assert(s + b =~= s);
        assert(split_by(s, c).last() + b =~= split_by(s, c).last());
        assert(split_by(s, c).drop_last().push(split_by(s, c).last()) =~= split_by(s, c));
    } else {
        let short = b.drop_last();
        assert(!short.contains(c)) by {
            if short.contains(c) {
                let k = choose|k: int| 0 <= k < short.len() && short[k] == c;
                assert(b[k] == c);
            }
        }
        assert(b.contains(b.last()));
        lemma_split_append(s, short, c);
        assert((s + b).drop_last() =~= s + short);
        assert((split_by(s, c).last() + short).push(b.last()) =~= split_by(s, c).last() + b);
        assert(split_by(s, c).drop_last().push(split_by(s, c).last() + short).drop_last()
            =~= split_by(s, c).drop_last());
    }
}

/// The parts of a path that lead somewhere are those of the path without its
/// end, whose last part leads somewhere if any does.
proof fn lemma_bare_steps(path: Seq<char>)
    ensures
        steps(bare(path)) == steps(path),
        steps(path).len() > 0 ==> steps(path).last() == split_by(bare(path), '/').last(),
    decreases path.len(),
{
    reveal(Seq::filter);
    reveal_strlit(".");
    lemma_last_piece(path, '/');
    let leads = |part: Seq<char>| is_step(part);
    if path.len() > anchor(path) && path.last() == '/' {
        lemma_bare_steps(path.drop_last());
        assert(split_by(path, '/').drop_last() =~= split_by(path.drop_last(), '/'));
    } else if path.len() > anchor(path) && path.last() == '.' && path.len() >= 2 && path[path.len()
        - 2] == '/' {
        let a = path.drop_last();
        let b = a.drop_last();
        lemma_bare_steps(a);
        assert(a.last() == '/');
        assert(split_by(a, '/') == split_by(b, '/').push(Seq::empty()));
        assert(split_by(a, '/').drop_last() =~= split_by(b, '/'));
        assert(Seq::<char>::empty().push('.') =~= "."@);
        assert(split_by(path, '/').drop_last() =~= split_by(b, '/'));
        assert(split_by(path, '/').last() == "."@);
    } else {
        assert(bare(path) == path);
        let parts = split_by(path, '/');
        if !is_step(parts.last()) {
            if path.len() > 0 {
                if parts.last().len() > 0 {
                    assert(path.skip(path.len() - 1) == "."@);
                    assert(path.skip(path.len() - 1)[0] == '.');
                    assert(path.last() == '.');
                }
                if path.len() >= 2 {
                    lemma_last_piece(path.drop_last(), '/');
                    if path.last() == '.' {
                        assert(parts.last() == split_by(path.drop_last(), '/').last().push('.'));
                        assert(parts.last().len() == 1);
                        assert(split_by(path.drop_last(), '/').last().len() == 0);
                        assert(path.drop_last().last() == '/');
                    }
                }
                assert(path.len() == 1);
                assert(path.drop_last() =~= Seq::empty());
                let first = split_by(path.drop_last(), '/');
                assert(first =~= seq![Seq::<char>::empty()]);
                assert(first.drop_last() =~= Seq::empty());
                assert(first.drop_last().filter(leads).len() == 0);
                assert(!leads(first.last()));
                assert(first.filter(leads).len() == 0);
                assert(parts.drop_last() =~= first || parts.drop_last() =~= first.drop_last());
                assert(parts.drop_last().filter(leads).len() == 0);
            } else {
                assert(parts.drop_last() =~= Seq::empty());
                assert(parts.drop_last().filter(leads).len() == 0);
            }
            assert(!leads(parts.last()));
            assert(parts.filter(leads) == steps(path));
            assert(steps(path).len() == 0);
        }
    }
}

/// A path that ends in a name ends in it also without its end.
pub(crate) proof fn lemma_name_ends_path(path: Seq<char>)
    ensures
        file_name(path) matches Some(name) ==> {
            &&& name.len() <= bare(path).len()
            &&& bare(path).skip(bare(path).len() - name.len()) == name
            &&& name.len() > 0
            &&& !name.contains('/')
        },
{
    if file_name(path) is Some {
        lemma_bare_steps(path);
        lemma_last_piece(bare(path), '/');
        lemma_pieces(bare(path), '/');
        let parts = split_by(bare(path), '/');
        assert(!parts[parts.len() - 1].contains('/'));
        broadcast use Seq::lemma_filter_pred;

        let leads = |part: Seq<char>| is_step(part);
        assert(leads(steps(path)[steps(path).len() - 1]));
    }
}

/// The path with another name at its end.
pub fn with_file_name(path: &str, name: &str) -> (r: String)
    ensures
        r@ == with_name(path@, name@),
{
    match path_file_name(path) {
        Some(old) => {
            proof {
                lemma_name_ends_path(path@);
            }
            let whole = chars_of(&bare_path(path));
            let cut = chars_of(&old);
            let keep: usize = whole.len() - cut.len();
            assert(whole@.take(keep as int) =~= whole@.subrange(0, keep as int));
            let dir = bare_path(&text_of(&whole, 0, keep));
            join_path(&dir, name)
        },
        None => join_path(path, name),
    }
}

/// The path that is tried at this turn.
pub fn candidate_path(path: &str, index: usize) -> (r: String)
    requires
        index < usize::MAX,
    ensures
        r@ == candidate(path@, index as int),
{
    if index == 0 {
        return path.to_owned();
    }
    let name = match path_file_name(path) {
        Some(name) => name,
        None => "Unknown".to_owned(),
    };
    let number = decimal_text(index as u64 + 1);
    with_file_name(path, &name.concat(" (").concat(&number).concat(")"))
}

/// How the search for a free path goes on.
#[derive(Debug, PartialEq)]
pub enum NextName {
    /// This path is free.
    Free(String),
    /// Find out whether there is anything at this path.
    Probe(String),
}

/// The first turn at which nothing was there, or the number of turns.
pub open spec fn first_free(answers: Seq<bool>) -> int
    decreases answers.len(),
{
    if answers.len() == 0 || !answers[0] {
        0
    } else {
        1 + first_free(answers.skip(1))
    }
}

/// The search for a free path, given for each path tried so far whether there
/// is anything at it.
pub fn next_available(path: &str, answers: &Vec<bool>) -> (r: NextName)
    requires
        answers@.len() < usize::MAX,
    ensures
        match r {
            NextName::Free(free) => first_free(answers@) < answers@.len() && free@ == candidate(
                path@,
                first_free(answers@),
            ),
            NextName::Probe(next) => first_free(answers@) == answers@.len() && next@ == candidate(
                path@,
                answers@.len() as int,
            ),
        },
{
    let mut i: usize = 0;
    assert(answers@.skip(0) =~= answers@);
    while i < answers.len() && answers[i]
        invariant
            i <= answers@.len(),
            first_free(answers@) == i + first_free(answers@.skip(i as int)),
        decreases answers@.len() - i,
    {
        assert(answers@.skip(i as int).skip(1) =~= answers@.skip(i + 1));
        i += 1;
    }
    if i < answers.len() {
        NextName::Free(candidate_path(path, i))
    } else {
        NextName::Probe(candidate_path(path, i))
    }
}

// ---------------------------------------------------------------------------
// Laws
// ---------------------------------------------------------------------------

/// A name that is joined to a directory is the name at the end of the path.
pub proof fn joined_name_is_the_file_name(dir: Seq<char>, name: Seq<char>)
    requires
        !name.contains('/'),
        is_step(name),
        name != ".."@,
    ensures
        file_name(joined_path(dir, name)) == Some(name),
{
    reveal(Seq::filter);
    assert(name[0] != '/') by {
        assert(name.contains(name[0]));
    }
    let base = if dir.len() == 0 || dir.last() == '/' {
        dir
    } else {
        dir.push('/')
    };
    assert(joined_path(dir, name) =~= base + name);
    lemma_split_append(base, name, '/');
    lemma_last_piece(base, '/');
    if base.len() > 0 {
        assert(base.last() == '/');
        assert(split_by(base, '/').last() =~= Seq::empty());
    }
    assert(split_by(base, '/').last() + name =~= name);
    assert(split_by(base + name, '/').last() == name);
}

/// A numbered name stands for itself at the end of a path.
pub(crate) proof fn lemma_numbered_name(path: Seq<char>, number: int)
    requires
        number >= 0,
    ensures
        !numbered_name(path, number).contains('/'),
        is_step(numbered_name(path, number)),
        numbered_name(path, number) != ".."@,
{
    reveal_strlit("Unknown");
    reveal_strlit(" (");
    reveal_strlit(")");
    reveal_strlit(".");
    reveal_strlit("..");
    lemma_name_ends_path(path);
    decimal_spells_its_number(number);
    let name = match file_name(path) {
        Some(name) => name,
        None => "Unknown"@,
    };
    let whole = numbered_name(path, number);
    let digits = decimal(number);
    assert(whole.len() == name.len() + 2 + digits.len() + 1);
    assert forall|i: int| 0 <= i < whole.len() implies whole[i] != '/' by {
        if i < name.len() {
            assert(whole[i] == name[i]);
            assert(name.contains(name[i]));
        } else if i < name.len() + 2 {
            assert(whole[i] == " ("@[i - name.len()]);
        } else if i < name.len() + 2 + digits.len() {
            assert(whole[i] == digits[i - name.len() - 2]);
        } else {
            assert(whole[i] == ')');
        }
    }
}

/// The paths that are tried for something all differ, so that where only
/// finitely many are taken a free one is found.
pub proof fn candidates_differ(path: Seq<char>, i: int, j: int)
    requires
        0 <= i < j,
    ensures
        candidate(path, i) != candidate(path, j),
{
    reveal_strlit(" (");
    reveal_strlit(")");
    let name = match file_name(path) {
        Some(name) => name,
        None => "Unknown"@,
    };
    let dir = match file_name(path) {
        Some(name) => parent(path, name),
        None => path,
    };
    let b = numbered_name(path, j + 1);
    lemma_numbered_name(path, j + 1);
    joined_name_is_the_file_name(dir, b);
    decimal_spells_its_number(j + 1);
    if i == 0 {
        assert(b.len() > name.len());
    } else {
        let a = numbered_name(path, i + 1);
        lemma_numbered_name(path, i + 1);
        joined_name_is_the_file_name(dir, a);
        decimal_spells_its_number(i + 1);
        if a == b {
            assert(a.subrange(name.len() as int + 2, a.len() - 1) =~= decimal(i + 1));
            assert(b.subrange(name.len() as int + 2, b.len() - 1) =~= decimal(j + 1));
        }
    }
}

/// Where nothing is at a path it is taken as it is; otherwise the path with
/// the first number for which nothing is there. Everything tried before was
/// taken.
pub proof fn first_free_is_the_first(answers: Seq<bool>)
    ensures
        0 <= first_free(answers) <= answers.len(),
        first_free(answers) < answers.len() ==> !answers[first_free(answers)],
        forall|i: int| 0 <= i < first_free(answers) ==> #[trigger] answers[i],
    decreases answers.len(),
{
    if answers.len() > 0 && answers[0] {
        let rest = answers.skip(1);
        first_free_is_the_first(rest);
        assert forall|i: int| 0 <= i < first_free(answers) implies #[trigger] answers[i] by {
            if i > 0 {
                assert(answers[i] == rest[i - 1]);
            }
        }
    }
}

/// Two texts with a slash between them have the parts of both.
pub(crate) proof fn lemma_split_join(a: Seq<char>, b: Seq<char>)
    ensures
        split_by(a.push('/') + b, '/') == split_by(a, '/') + split_by(b, '/'),
    decreases b.len(),
{
    lemma_last_piece(b, '/');
    lemma_last_piece(a, '/');
    if b.len() == 0 {
        assert(a.push('/') + b =~= a.push('/'));
        assert(a.push('/').drop_last() =~= a);
        assert(b =~= Seq::empty());
        assert(split_by(b, '/') =~= seq![Seq::<char>::empty()]);
        assert(split_by(a.push('/'), '/') == split_by(a, '/').push(Seq::empty()));
        assert(split_by(a.push('/'), '/') =~= split_by(a, '/') + split_by(b, '/'));
    } else {
        let short = b.drop_last();
        lemma_split_join(a, short);
        lemma_last_piece(short, '/');
        assert((a.push('/') + b).drop_last() =~= a.push('/') + short);
        let both = split_by(a, '/') + split_by(short, '/');
        assert(both.last() == split_by(short, '/').last());
        assert(both.drop_last() =~= split_by(a, '/') + split_by(short, '/').drop_last());
        assert(split_by(a.push('/') + b, '/') =~= split_by(a, '/') + split_by(b, '/'));
    }
}

/// What is joined to a directory leads through the directory and on from
/// there.
pub proof fn joined_path_leads_through_both(dir: Seq<char>, path: Seq<char>)
    requires
        !is_absolute(path),
    ensures
        steps(joined_path(dir, path)) == steps(dir) + steps(path),
        is_absolute(dir) ==> is_absolute(joined_path(dir, path)),
{
    reveal(Seq::filter);
    let leads = |part: Seq<char>| is_step(part);
    if dir.len() == 0 {
        assert(joined_path(dir, path) =~= path);
        assert(split_by(dir, '/').drop_last() =~= Seq::empty());
        assert(split_by(dir, '/').drop_last().filter(leads).len() == 0);
        assert(!leads(split_by(dir, '/').last()));
        assert(steps(dir) =~= Seq::empty());
    } else {
        let short = if dir.last() == '/' {
            dir.drop_last()
        } else {
            dir
        };
        assert(joined_path(dir, path) =~= short.push('/') + path);
        lemma_split_join(short, path);
        Seq::filter_distributes_over_add(split_by(short, '/'), split_by(path, '/'), leads);
        if dir.last() == '/' {
            assert(split_by(dir, '/').drop_last() =~= split_by(short, '/'));
            assert(!leads(split_by(dir, '/').last()));
        }
    }
}

/// A name without a slash that leads somewhere is one step.
pub(crate) proof fn lemma_one_step(name: Seq<char>)
    requires
        !name.contains('/'),
        is_step(name),
    ensures
        steps(name) == seq![name],
        !is_absolute(name),
{
    reveal(Seq::filter);
    let leads = |part: Seq<char>| is_step(part);
    if name[0] == '/' {
        assert(name.contains('/'));
    }
    lemma_split_append(Seq::empty(), name, '/');
    assert(Seq::empty() + name =~= name);
    assert(split_by(Seq::empty(), '/') =~= seq![Seq::<char>::empty()]);
    assert(Seq::<char>::empty() + name =~= name);
    let parts = split_by(name, '/');
    assert(parts =~= seq![name]);
    assert(parts.drop_last() =~= Seq::empty());
    assert(parts.drop_last().filter(leads).len() == 0);
    assert(leads(parts.last()));
    assert(steps(name) =~= seq![name]);
}

/// An absolute path without its end is still absolute.
proof fn lemma_bare_absolute(path: Seq<char>)
    requires
        is_absolute(path),
    ensures
        is_absolute(bare(path)),
    decreases path.len(),
{
    if bare(path) != path {
        assert(path.drop_last()[0] == '/');
        lemma_bare_absolute(path.drop_last());
    }
}

/// A number behind its name does not move a path: it leads through the same
/// directory, and an absolute path stays one.
pub proof fn candidate_stays_in_its_directory(path: Seq<char>, index: int)
    requires
        index > 0,
    ensures
        steps(candidate(path, index)) == (if file_name(path) is Some {
            steps(path).drop_last()
        } else {
            steps(path)
        }).push(numbered_name(path, index + 1)),
        is_absolute(path) ==> is_absolute(candidate(path, index)),
{
    reveal(Seq::filter);
    let name = numbered_name(path, index + 1);
    lemma_numbered_name(path, index + 1);
    lemma_one_step(name);
    match file_name(path) {
        Some(old) => {
            let leads = |part: Seq<char>| is_step(part);
            let whole = bare(path);
            let dir = whole.take(whole.len() - old.len());
            lemma_bare_steps(path);
            lemma_name_ends_path(path);
            assert(whole =~= dir + old);
            lemma_split_append(dir, old, '/');
            lemma_last_piece(dir, '/');
            let inner = split_by(dir, '/');
            assert(split_by(whole, '/').last() == inner.last() + old);
            assert(inner.last().len() == 0);
            assert(!leads(inner.last()));
            assert(split_by(whole, '/').drop_last() =~= inner.drop_last());
            assert(leads(split_by(whole, '/').last())) by {
                broadcast use Seq::lemma_filter_pred;

                assert(leads(steps(path)[steps(path).len() - 1]));
            }
            assert(steps(whole) == steps(dir).push(old));
            assert(steps(path).drop_last() =~= steps(dir));
            lemma_bare_steps(dir);
            joined_path_leads_through_both(parent(path, old), name);
            if is_absolute(path) {
                lemma_bare_absolute(path);
                if old.len() == whole.len() {
                    assert(whole.skip(0) =~= whole);
                    assert(old.contains(old[0]));
                }
                assert(dir[0] == '/');
                lemma_bare_absolute(dir);
            }
            assert(steps(candidate(path, index)) =~= steps(dir).push(name));
        },
        None => {
            joined_path_leads_through_both(path, name);
            assert(steps(candidate(path, index)) =~= steps(path).push(name));
        },
    }
}

/// The steps of a path have no slash in them and lead somewhere.
proof fn lemma_steps_are_steps(path: Seq<char>, i: int)
    requires
        0 <= i < steps(path).len(),
    ensures
        is_step(steps(path)[i]),
        !steps(path)[i].contains('/'),
{
    broadcast use Seq::lemma_filter_pred;

    let leads = |part: Seq<char>| is_step(part);
    let parts = split_by(path, '/');
    assert(leads(steps(path)[i]));
    assert(parts.filter(leads).contains(steps(path)[i]));
    parts.lemma_filter_contains_rev(leads, steps(path)[i]);
    let k = choose|k: int| 0 <= k < parts.len() && parts[k] == steps(path)[i];
    lemma_pieces(path, '/');
    assert(!parts[k].contains('/'));
}

/// Where steps lead there is no step up left, and every step was there before.
proof fn lemma_resolved(parts: Seq<Seq<char>>)
    ensures
        !resolved(parts).contains(".."@),
        forall|i: int|
            0 <= i < resolved(parts).len() ==> parts.contains(#[trigger] resolved(parts)[i]),
        !parts.contains(".."@) ==> resolved(parts) == parts,
    decreases parts.len(),
{
    if parts.len() > 0 {
        let short = parts.drop_last();
        let before = resolved(short);
        let all = resolved(parts);
        lemma_resolved(short);
        assert forall|p: Seq<char>| #[trigger] short.contains(p) implies parts.contains(p) by {
            let k = choose|k: int| 0 <= k < short.len() && short[k] == p;
            assert(parts[k] == p);
        }
        assert(parts.contains(parts.last()));
        assert forall|i: int| 0 <= i < all.len() implies #[trigger] all[i] != ".."@
            && parts.contains(all[i]) by {
            if i < before.len() {
                assert(all[i] == before[i]);
                assert(before.contains(before[i]));
            }
        }
        if !parts.contains(".."@) {
            assert(!short.contains(".."@));
            assert(all =~= parts);
        }
    }
}

/// Steps on from somewhere that do not lead up lead on from there.
proof fn lemma_resolved_on(a: Seq<Seq<char>>, b: Seq<Seq<char>>)
    requires
        !b.contains(".."@),
    ensures
        resolved(a + b) == resolved(a) + b,
    decreases b.len(),
{
    if b.len() == 0 {
        assert(a + b =~= a);
        assert(resolved(a) + b =~= resolved(a));
    } else {
        let short = b.drop_last();
        if short.contains(".."@) {
            let k = choose|k: int| 0 <= k < short.len() && short[k] == ".."@;
            assert(b[k] == ".."@);
        }
        assert(b.contains(b.last()));
        lemma_resolved_on(a, short);
        assert((a + b).drop_last() =~= a + short);
        assert((resolved(a) + short).push(b.last()) =~= resolved(a) + b);
    }
}

/// The path from the root through some steps leads through them.
proof fn lemma_rooted(parts: Seq<Seq<char>>)
    requires
        forall|i: int|
            0 <= i < parts.len() ==> is_step(#[trigger] parts[i]) && !parts[i].contains('/'),
    ensures
        is_absolute(rooted(parts)),
        steps(rooted(parts)) == parts,
    decreases parts.len(),
{
    if parts.len() == 0 {
        reveal(Seq::filter);
        reveal_strlit("/");
        let leads = |part: Seq<char>| is_step(part);
        let root = "/"@;
        let empty = Seq::<char>::empty();
        assert(root.drop_last() =~= empty);
        let first = split_by(empty, '/');
        assert(first =~= seq![empty]);
        assert(first.drop_last() =~= Seq::empty());
        assert(first.drop_last().filter(leads).len() == 0);
        assert(!leads(empty));
        assert(first.filter(leads).len() == 0);
        assert(split_by(root, '/').drop_last() =~= first);
        assert(steps(root) =~= parts);
    } else {
        let short = parts.drop_last();
        assert forall|i: int| 0 <= i < short.len() implies is_step(#[trigger] short[i])
            && !short[i].contains('/') by {
            assert(short[i] == parts[i]);
        }
        lemma_rooted(short);
        assert(parts.last() == parts[parts.len() - 1]);
        lemma_one_step(parts.last());
        joined_path_leads_through_both(rooted(short), parts.last());
        assert(steps(rooted(parts)) =~= parts);
    }
}

/// A path without steps up leads where the path it was made of leads.
pub proof fn settled_path_leads_to_the_same_place(path: Seq<char>)
    requires
        is_absolute(path),
    ensures
        is_absolute(settled_path(path)),
        !climbs(settled_path(path)),
        resolved(steps(settled_path(path))) == resolved(steps(path)),
        steps(settled_path(path)) == resolved(steps(path)),
{
    let parts = resolved(steps(path));
    lemma_resolved(steps(path));
    if climbs(path) {
        assert forall|i: int| 0 <= i < parts.len() implies is_step(#[trigger] parts[i])
            && !parts[i].contains('/') by {
            let k = choose|k: int| 0 <= k < steps(path).len() && steps(path)[k] == parts[i];
            lemma_steps_are_steps(path, k);
        }
        lemma_rooted(parts);
        lemma_resolved(parts);
    }
}

/// A path that goes on from a directory without leading up lies in whatever
/// the directory lies in.
pub proof fn joined_path_lies_with_its_directory(dir: Seq<char>, path: Seq<char>, top: Seq<char>)
    requires
        !is_absolute(path),
        !climbs(path),
        lies_in(dir, top),
    ensures
        lies_in(joined_path(dir, path), top),
        steps(path).len() > 0 || lies_below(dir, top) ==> lies_below(joined_path(dir, path), top),
{
    joined_path_leads_through_both(dir, path);
    lemma_resolved_on(steps(dir), steps(path));
}

/// A path leads to a cue sheet exactly if its file name, after its last dot,
/// reads "cue" in small or capital letters, and something stands before that
/// dot. No other ending makes a cue sheet, and neither does a name without a
/// dot.
pub proof fn cue_sheets_are_told_by_the_end_of_their_name(
    dir: Seq<char>,
    stem: Seq<char>,
    ending: Seq<char>,
)
    requires
        dir.len() == 0 || dir.last() == '/',
        !stem.contains('/'),
        !ending.contains('/'),
        !ending.contains('.'),
    ensures
        stem.len() + ending.len() > 0 ==> (is_cue(dir + stem.push('.') + ending) <==> stem.len() > 0
            && ending.len() == 3 && (ending[0] == 'c' || ending[0] == 'C') && (ending[1] == 'u'
            || ending[1] == 'U') && (ending[2] == 'e' || ending[2] == 'E')),
        stem.len() > 0 && !stem.contains('.') ==> !is_cue(dir + stem),
{
    reveal_strlit("cue");
    reveal_strlit(".");
    reveal_strlit("..");
    let name = stem.push('.') + ending;
    assert(dir + stem.push('.') + ending =~= dir + name);
    assert(!name.contains('/')) by {
        if name.contains('/') {
            let k = choose|k: int| 0 <= k < name.len() && name[k] == '/';
            if k < stem.len() {
                assert(stem[k] == '/');
            } else if k > stem.len() {
                assert(ending[k - stem.len() - 1] == '/');
            }
        }
    }
    if stem.len() + ending.len() > 0 {
        assert(name.contains(name[0]));
        assert(joined_path(dir, name) == dir + name);
        lemma_last_piece(stem, '.');
        assert(stem.push('.').drop_last() =~= stem);
        lemma_split_append(stem.push('.'), ending, '.');
        assert(Seq::<char>::empty() + ending =~= ending);
        let before = split_by(stem, '.');
        assert(split_by(stem.push('.'), '.').drop_last() =~= before);
        assert(split_by(name, '.') == before.push(ending));
        if stem.len() > 0 {
            lemma_last_piece(stem.drop_last(), '.');
            if stem.last() != '.' {
                assert(before.last().len() > 0);
            }
        } else {
            assert(before[0] == stem);
        }
        assert(name_extension(name) == if stem.len() > 0 {
            Some(ending)
        } else {
            None
        });
        if name == ".."@ {
            assert(ending.len() == 0 || ending[0] == name[stem.len() as int + 1]);
            assert(ending.len() > 0 ==> ending.contains('.'));
            lemma_one_step(name);
            joined_path_leads_through_both(dir, name);
            assert(steps(dir + name).last() == name);
        } else {
            joined_name_is_the_file_name(dir, name);
            assert(file_name(dir + name) == Some(name));
            assert(ending.len() == 3 ==> ("cue"@[0] == 'c' && "cue"@[1] == 'u' && "cue"@[2]
                == 'e'));
            if same_ignoring_case(ending, "cue"@) {
                assert(ascii_lower(ending[0]) == ascii_lower('c'));
                assert(ascii_lower(ending[1]) == ascii_lower('u'));
                assert(ascii_lower(ending[2]) == ascii_lower('e'));
            }
        }
    }
    if stem.len() > 0 && !stem.contains('.') {
        assert(stem.contains(stem[0]));
        assert(joined_path(dir, stem) == dir + stem);
        joined_name_is_the_file_name(dir, stem);
        lemma_split_append(Seq::empty(), stem, '.');
        assert(Seq::<char>::empty() + stem =~= stem);
        assert(split_by(Seq::<char>::empty(), '.') =~= seq![Seq::<char>::empty()]);
        assert(split_by(stem, '.').len() == 1);
    }
}

/// A path seen from a directory is the directory, one slash and the path, so
/// that taking the front away gives the path back; an absolute path and one
/// seen from nowhere stand for themselves.
pub proof fn paths_are_joined_by_one_slash(dir: Seq<char>, path: Seq<char>)
    ensures
        path.len() > 0 && path[0] == '/' ==> joined_path(dir, path) == path,
        joined_path(Seq::empty(), path) == path,
        dir.len() > 0 && (path.len() == 0 || path[0] != '/') ==> {
            let whole = joined_path(dir, path);
            &&& whole.take(dir.len() as int) == dir
            &&& whole.skip(whole.len() - path.len()) == path
            &&& whole[whole.len() - path.len() - 1] == '/'
            &&& whole.len() == dir.len() + path.len() + if dir.last() == '/' {
                0int
            } else {
                1int
            }
        },
{
    assert(Seq::empty() + path =~= path);
    if dir.len() > 0 && (path.len() == 0 || path[0] != '/') {
        let whole = joined_path(dir, path);
        assert(whole.take(dir.len() as int) =~= dir);
        assert(whole.skip(whole.len() - path.len()) =~= path);
    }
}

/// A path leads through its parts between the slashes in their order, but for
/// empty ones and single dots.
pub proof fn paths_lead_through_their_parts(path: Seq<char>, name: Seq<char>)
    requires
        !name.contains('/'),
    ensures
        name.len() == 0 || name == seq!['.'] ==> steps(name).len() == 0 && steps(
            path.push('/') + name,
        ) == steps(path),
        name.len() > 0 && name != seq!['.'] ==> steps(name) == seq![name] && steps(
            path.push('/') + name,
        ) == steps(path).push(name),
{
    reveal(Seq::filter);
    reveal_strlit(".");
    let leads = |part: Seq<char>| is_step(part);
    assert("."@ =~= seq!['.']);
    lemma_split_join(path, name);
    Seq::filter_distributes_over_add(split_by(path, '/'), split_by(name, '/'), leads);
    lemma_split_append(Seq::empty(), name, '/');
    assert(Seq::<char>::empty() + name =~= name);
    assert(split_by(Seq::<char>::empty(), '/') =~= seq![Seq::<char>::empty()]);
    let parts = split_by(name, '/');
    assert(parts =~= seq![name]);
    assert(parts.drop_last() =~= Seq::empty());
    assert(parts.drop_last().filter(leads).len() == 0);
    assert(leads(name) ==> steps(name) =~= seq![name]);
    assert(!leads(name) ==> steps(name) =~= Seq::empty());
    assert(steps(path.push('/') + name) == steps(path) + steps(name));
    assert(steps(path) + seq![name] =~= steps(path).push(name));
    assert(steps(path) + Seq::<Seq<char>>::empty() =~= steps(path));
}

/// Where something is in the way, the next path that is tried has the same
/// directory and the same name, with a number from two on behind the name in
/// round brackets.
pub proof fn copies_are_numbered_from_two_on(dir: Seq<char>, name: Seq<char>, index: int)
    requires
        dir.len() > 1,
        dir.last() != '/',
        dir.last() != '.',
        name.len() > 0,
        !name.contains('/'),
        name != seq!['.'],
        name != seq!['.', '.'],
        index > 0,
    ensures
        candidate(dir.push('/') + name, 0) == dir.push('/') + name,
        candidate(dir.push('/') + name, index) == dir.push('/') + name + seq![' ', '('] + decimal(
            index + 1,
        ) + seq![')'],
{
    reveal_strlit(".");
    reveal_strlit("..");
    reveal_strlit(" (");
    reveal_strlit(")");
    assert("."@ =~= seq!['.']);
    assert(".."@ =~= seq!['.', '.']);
    assert(" ("@ =~= seq![' ', '(']);
    assert(")"@ =~= seq![')']);
    let base = dir.push('/');
    let path = base + name;
    assert(name.contains(name[0]));
    assert(name.contains(name.last()));
    assert(joined_path(dir, name) =~= path);
    joined_name_is_the_file_name(dir, name);
    assert(path.last() == name.last());
    assert(name.len() >= 2 ==> path[path.len() - 2] == name[name.len() - 2]);
    if name.len() >= 2 {
        assert(name.contains(name[name.len() - 2]));
    } else {
        assert(name =~= seq![name[0]]);
    }
    assert(bare(path) == path);
    assert(path.take(path.len() - name.len()) =~= base);
    assert(base.drop_last() =~= dir);
    assert(bare(dir) == dir);
    assert(bare(base) == dir);
    lemma_numbered_name(path, index + 1);
    let numbered = numbered_name(path, index + 1);
    assert(numbered.contains(numbered[0]));
    assert(candidate(path, index) == base + numbered);
    assert(base + numbered =~= base + name + seq![' ', '('] + decimal(index + 1) + seq![')']);
}

/// The place of the last dot of a text.
proof fn lemma_last_dot(s: Seq<char>) -> (at: int)
    requires
        s.contains('.'),
    ensures
        0 <= at < s.len(),
        s[at] == '.',
        forall|i: int| at < i < s.len() ==> #[trigger] s[i] != '.',
    decreases s.len(),
{
    if s.last() == '.' {
        s.len() - 1
    } else {
        let k = choose|k: int| 0 <= k < s.len() && s[k] == '.';
        assert(s.drop_last()[k] == '.');
        let at = lemma_last_dot(s.drop_last());
        assert forall|i: int| at < i < s.len() implies #[trigger] s[i] != '.' by {
            if i < s.len() - 1 {
                assert(s.drop_last()[i] == s[i]);
            }
        }
        at
    }
}

/// Whether a name ends in a dot and the letters of "cue", small or capital,
/// behind at least one other character: told by its last characters.
pub open spec fn ends_in_cue(name: Seq<char>) -> bool {
    let n = name.len() as int;
    &&& n > 4
    &&& name[n - 4] == '.'
    &&& name[n - 3] == 'c' || name[n - 3] == 'C'
    &&& name[n - 2] == 'u' || name[n - 2] == 'U'
    &&& name[n - 1] == 'e' || name[n - 1] == 'E'
}

/// Whether a path leads to a cue sheet is told by the last characters of the
/// name at its end.
pub proof fn cue_sheets_end_in_cue(dir: Seq<char>, name: Seq<char>)
    requires
        dir.len() == 0 || dir.last() == '/',
        !name.contains('/'),
        name.len() > 0,
        name != seq!['.'],
    ensures
        is_cue(dir + name) <==> ends_in_cue(name),
{
    let n = name.len() as int;
    if name.contains('.') {
        let at = lemma_last_dot(name);
        let stem = name.take(at);
        let ending = name.skip(at + 1);
        assert(name =~= stem.push('.') + ending);
        assert(dir + name =~= dir + stem.push('.') + ending);
        if stem.contains('/') {
            let k = choose|k: int| 0 <= k < stem.len() && stem[k] == '/';
            assert(name[k] == '/');
        }
        if ending.contains('/') {
            let k = choose|k: int| 0 <= k < ending.len() && ending[k] == '/';
            assert(name[k + at + 1] == '/');
        }
        if ending.contains('.') {
            let k = choose|k: int| 0 <= k < ending.len() && ending[k] == '.';
            assert(name[k + at + 1] == '.');
        }
        if n == 1 {
            assert(name =~= seq!['.']);
        }
        cue_sheets_are_told_by_the_end_of_their_name(dir, stem, ending);
        if ends_in_cue(name) {
            assert(at == n - 4) by {
                if at < n - 4 {
                    assert(name[n - 4] != '.');
                }
            }
            assert(ending[0] == name[n - 3] && ending[1] == name[n - 2] && ending[2] == name[n
                - 1]);
        }
        if ending.len() == 3 {
            assert(at == n - 4);
            assert(ending[0] == name[n - 3] && ending[1] == name[n - 2] && ending[2] == name[n
                - 1]);
        }
    } else {
        cue_sheets_are_told_by_the_end_of_their_name(dir, name, Seq::empty());
        if ends_in_cue(name) {
            assert(name.contains(name[n - 4]));
        }
    }
}

/// A step up takes back the step before it, and leads nowhere at the root;
/// every other step leads on.
pub proof fn steps_up_take_back_the_last_step(parts: Seq<Seq<char>>, step: Seq<char>)
    requires
        step != seq!['.', '.'],
    ensures
        resolved(parts.push(step)) == resolved(parts).push(step),
        resolved(parts.push(step).push(seq!['.', '.'])) == resolved(parts),
        resolved(seq![seq!['.', '.']]).len() == 0,
        resolved(Seq::empty()).len() == 0,
{
    reveal_strlit("..");
    assert(".."@ =~= seq!['.', '.']);
    assert(parts.push(step).drop_last() =~= parts);
    let on = parts.push(step);
    let back = on.push(seq!['.', '.']);
    assert(back.drop_last() =~= on);
    assert(resolved(on) == resolved(parts).push(step));
    assert(back.last() == ".."@);
    assert(resolved(back) == resolved(on).drop_last());
    assert(resolved(parts).push(step).drop_last() =~= resolved(parts));
    let up = seq![seq!['.', '.']];
    assert(up.drop_last() =~= Seq::empty());
    assert(resolved(up.drop_last()).len() == 0);
}

/// A path leads up exactly if one of its parts between the slashes is two
/// dots.
pub proof fn two_dots_lead_up(path: Seq<char>, part: Seq<char>)
    requires
        !part.contains('/'),
    ensures
        climbs(path.push('/') + part) <==> climbs(path) || part == seq!['.', '.'],
        climbs(part) <==> part == seq!['.', '.'],
{
    reveal_strlit("..");
    assert(".."@ =~= seq!['.', '.']);
    paths_lead_through_their_parts(path, part);
    let whole = steps(path.push('/') + part);
    if climbs(path) {
        let k = choose|k: int| 0 <= k < steps(path).len() && steps(path)[k] == ".."@;
        assert(whole[k] == ".."@);
    }
    if part == ".."@ {
        assert(whole.last() == ".."@);
        assert(steps(part)[0] == ".."@);
    } else if climbs(path.push('/') + part) {
        let k = choose|k: int| 0 <= k < whole.len() && whole[k] == ".."@;
        assert(k < steps(path).len());
        assert(steps(path)[k] == ".."@);
    }
    if climbs(part) {
        let k = choose|k: int| 0 <= k < steps(part).len() && steps(part)[k] == ".."@;
        assert(steps(part)[k] == part);
    }
}

/// A path from the root lies in the directory that its first part names, and
/// in no other, if it does not lead up; it lies below that directory exactly
/// if it goes on from there.
pub proof fn paths_lie_in_their_first_directory(top: Seq<char>, rest: Seq<char>, other: Seq<char>)
    requires
        top.len() > 0,
        !top.contains('/'),
        top != seq!['.'],
        top != seq!['.', '.'],
        !climbs(rest),
        other != top,
    ensures
        ({
            let path = seq!['/'] + top + seq!['/'] + rest;
            &&& lies_in(path, seq!['/'] + top)
            &&& !lies_in(path, seq!['/'] + other)
            &&& lies_below(path, seq!['/'] + top) <==> steps(rest).len() > 0
            &&& !lies_in(top + seq!['/'] + rest, seq!['/'] + top)
        }),
{
    reveal_strlit(".");
    reveal_strlit("..");
    assert("."@ =~= seq!['.']);
    assert(".."@ =~= seq!['.', '.']);
    let empty = Seq::<char>::empty();
    let dir = seq!['/'] + top;
    let path = seq!['/'] + top + seq!['/'] + rest;
    paths_lead_through_their_parts(empty, top);
    paths_lead_through_their_parts(empty, empty);
    assert(empty.push('/') + top =~= dir);
    assert(steps(empty).len() == 0);
    assert(steps(dir) =~= seq![top]);
    assert(path =~= dir.push('/') + rest);
    lemma_split_join(dir, rest);
    let leads = |part: Seq<char>| is_step(part);
    Seq::filter_distributes_over_add(split_by(dir, '/'), split_by(rest, '/'), leads);
    assert(steps(path) == steps(dir) + steps(rest));
    assert(steps(path)[0] == top);
    if climbs(path) {
        let k = choose|k: int| 0 <= k < steps(path).len() && steps(path)[k] == ".."@;
        assert(k > 0);
        assert(steps(rest)[k - 1] == ".."@);
    }
    settled_path_leads_to_the_same_place(path);
    assert(resolved(steps(path)) == steps(path));
    if seq!['/'] + top == seq!['/'] + other {
        assert((seq!['/'] + top).skip(1) =~= top);
        assert((seq!['/'] + other).skip(1) =~= other);
    }
    assert(top.contains(top[0]));
    assert((top + seq!['/'] + rest)[0] == top[0]);
}

/// The file name of a path is its last part that leads somewhere, unless that
/// leads up.
pub proof fn file_names_are_last_parts(dir: Seq<char>, name: Seq<char>)
    requires
        !name.contains('/'),
    ensures
        name.len() > 0 && name != seq!['.'] && name != seq!['.', '.'] ==> file_name(
            dir.push('/') + name,
        ) == Some(name) && file_name(name) == Some(name),
        name == seq!['.', '.'] ==> file_name(dir.push('/') + name) is None,
        name.len() == 0 || name == seq!['.'] ==> file_name(dir.push('/') + name) == file_name(dir),
        file_name(Seq::empty()) is None,
{
    reveal_strlit("..");
    assert(".."@ =~= seq!['.', '.']);
    paths_lead_through_their_parts(dir, name);
    paths_lead_through_their_parts(dir, Seq::empty());
}

/// The extension of a name is what stands behind its last dot, unless that dot
/// begins the name.
pub proof fn extensions_stand_behind_the_last_dot(stem: Seq<char>, ending: Seq<char>)
    requires
        !ending.contains('.'),
    ensures
        stem.len() > 0 ==> name_extension(stem.push('.') + ending) == Some(ending),
        name_extension(seq!['.'] + ending) is None,
        name_extension(ending) is None,
{
    let empty = Seq::<char>::empty();
    lemma_last_piece(stem, '.');
    assert(stem.push('.').drop_last() =~= stem);
    lemma_split_append(stem.push('.'), ending, '.');
    assert(empty + ending =~= ending);
    let before = split_by(stem, '.');
    assert(split_by(stem.push('.'), '.').drop_last() =~= before);
    assert(split_by(stem.push('.') + ending, '.') == before.push(ending));
    if stem.len() > 0 {
        lemma_last_piece(stem.drop_last(), '.');
        if stem.last() != '.' {
            assert(before.last().len() > 0);
        }
    }
    assert(split_by(empty, '.') =~= seq![empty]);
    lemma_split_append(empty, ending, '.');
    assert(empty.push('.').drop_last() =~= empty);
    assert(empty.push('.') =~= seq!['.']);
    lemma_split_append(seq!['.'], ending, '.');
    assert(split_by(seq!['.'], '.') =~= seq![empty, empty]);
}

/// A path with another name at its end has the same directory and that name.
pub proof fn names_are_exchanged_in_their_directory(
    dir: Seq<char>,
    name: Seq<char>,
    other: Seq<char>,
)
    requires
        dir.len() > 1,
        dir.last() != '/',
        dir.last() != '.',
        name.len() > 0,
        !name.contains('/'),
        name != seq!['.'],
        name != seq!['.', '.'],
        other.len() > 0,
        other[0] != '/',
    ensures
        with_name(dir.push('/') + name, other) == dir.push('/') + other,
{
    reveal_strlit(".");
    reveal_strlit("..");
    assert("."@ =~= seq!['.']);
    assert(".."@ =~= seq!['.', '.']);
    let base = dir.push('/');
    let path = base + name;
    assert(name.contains(name.last()));
    file_names_are_last_parts(dir, name);
    assert(path.last() == name.last());
    if name.len() >= 2 {
        assert(path[path.len() - 2] == name[name.len() - 2]);
        assert(name.contains(name[name.len() - 2]));
    } else {
        assert(name =~= seq![name[0]]);
    }
    assert(bare(path) == path);
    assert(path.take(path.len() - name.len()) =~= base);
    assert(base.drop_last() =~= dir);
    assert(bare(dir) == dir);
    assert(bare(base) == dir);
}

/// A path that does not lead up is kept as it is written; one that does is
/// written anew from the root, with one slash before each step.
pub proof fn paths_are_written_anew_only_to_lead_up_no_more(
    path: Seq<char>,
    parts: Seq<Seq<char>>,
    step: Seq<char>,
)
    requires
        step.len() > 0,
        step[0] != '/',
    ensures
        !climbs(path) ==> settled_path(path) == path,
        climbs(path) ==> settled_path(path) == rooted(resolved(steps(path))),
        rooted(Seq::empty()) == seq!['/'],
        rooted(seq![step]) == seq!['/'] + step,
        rooted(parts).len() > 0 && rooted(parts).last() != '/' ==> rooted(parts.push(step))
            == rooted(parts).push('/') + step,
{
    reveal_strlit("/");
    assert("/"@ =~= seq!['/']);
    assert(parts.push(step).drop_last() =~= parts);
    assert(seq![step].drop_last() =~= Seq::empty());
    assert(rooted(Seq::empty()) == "/"@);
    assert(rooted(seq![step]) == joined_path(rooted(Seq::empty()), step));
}

/// A path that ends in no name is given one in its own directory: "Unknown",
/// with a number from two on behind it.
pub proof fn nameless_paths_are_given_a_name(path: Seq<char>, index: int)
    requires
        path.len() > 0,
        path.last() != '/',
        file_name(path) is None,
        index > 0,
    ensures
        candidate(path, 0) == path,
        candidate(path, index) == path.push('/') + "Unknown ("@ + decimal(index + 1) + seq![')'],
{
    reveal_strlit("Unknown");
    reveal_strlit(" (");
    reveal_strlit("Unknown (");
    reveal_strlit(")");
    assert("Unknown"@ + " ("@ =~= "Unknown ("@);
    assert(")"@ =~= seq![')']);
    let name = numbered_name(path, index + 1);
    assert(name[0] == 'U');
    assert(candidate(path, index) =~= path.push('/') + "Unknown ("@ + decimal(index + 1)
        + seq![')']);
}

}
