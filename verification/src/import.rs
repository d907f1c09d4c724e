//! What is copied where when a finished torrent is brought into the library.
use crate::error::{bad_request, not_found, result_view, AppError, ErrorView, Status};
use crate::json::{
    found, get_items, items_in, items_view, opt_view, owned, text_array, text_in, text_values,
    Json, JsonView,
};
use crate::names::{safe_name, safe_name_fits_a_directory, sanitize_name};
use crate::outside::{map_insert, map_of, new_map};
use crate::paths::{
    candidate, candidate_stays_in_its_directory, climbs, cue_sheets_end_in_cue, ends_in_cue,
    file_name, is_absolute, is_cue, is_step, join_path, joined_name_is_the_file_name, joined_path,
    joined_path_leads_through_both, joined_path_lies_with_its_directory, leads_to_cue,
    lemma_name_ends_path, lemma_numbered_name, lemma_one_step, lemma_split_join, lies_below,
    lies_in, path_file_name, path_lies_below, path_lies_in, paths_lead_through_their_parts,
    resolved, settle_path, settled_path, settled_path_leads_to_the_same_place, steps,
};
use crate::text::{
    begins_with, blank, chars_of, contains_text, cut_at, cuts_are_at_the_first, is_whitespace,
    lemma_all_picked, lemma_first_picked, lemma_picked, lemma_picked_at_most, lemma_trimmed,
    lemma_trimmed_start, same_text, split_by, split_once, starts_with, text_of,
    texts_hold_what_they_are_made_of, trim, trim_start_of, trimmed, trimmed_start,
    trimming_takes_what_stands_around, views, CharClass,
};
use crate::transmission::file_name_in;
use crate::words::{is_media_type, media_type_of, normalize_media_type};
use vstd::prelude::*;
use vstd::string::*;

verus! {

broadcast use vstd::string::group_string_axioms;

// ---------------------------------------------------------------------------
// The directory that downloads lie in
// ---------------------------------------------------------------------------

/// The directory of a download, where it is one that the application can see,
/// or none at all. A path that leads out of the downloads is not taken for one.
pub open spec fn visible_directory(p: Seq<char>) -> Result<Seq<char>, ErrorView> {
    let dir = trimmed(p);
    if dir.len() == 0 || ((dir == "/downloads"@ || begins_with(dir, "/downloads/"@)) && lies_in(
        dir,
        "/downloads"@,
    )) {
        Ok(dir)
    } else {
        Err(
            bad_request(
                "Transmission reports downloadDir '"@ + dir
                    + "', but this app expects completed downloads under /downloads. Mount the same downloads directory at /downloads in both containers."@,
            ),
        )
    }
}

/// The directory of a download, where the application can see it.
pub fn validate_download_path(p: &str) -> (r: Result<String, AppError>)
    ensures
        result_view(r) == visible_directory(p@),
{
    let dir = trim(p);
    if dir.as_str().is_empty() || ((same_text(&dir, "/downloads") || starts_with(
        &dir,
        "/downloads/",
    )) && path_lies_in(&dir, "/downloads")) {
        Ok(dir)
    } else {
        Err(
            AppError::bad_request(
                &"Transmission reports downloadDir '".to_owned().concat(&dir).concat(
                    "', but this app expects completed downloads under /downloads. Mount the same downloads directory at /downloads in both containers.",
                ),
            ),
        )
    }
}

// ---------------------------------------------------------------------------
// The question for the files of a torrent
// ---------------------------------------------------------------------------

/// What is to be imported, and the question for its files.
#[derive(Debug)]
pub struct ImportRequest {
    /// The directory name for the author.
    pub author: String,
    /// The directory name for the title.
    pub title: String,
    pub media_type: String,
    /// The arguments of the call that asks for the torrent.
    pub arguments: serde_json::Map<String, serde_json::Value>,
}

/// The model of what is to be imported.
pub struct ImportRequestView {
    pub author: Seq<char>,
    pub title: Seq<char>,
    pub media_type: Seq<char>,
    pub arguments: Map<Seq<char>, JsonView>,
}

impl View for ImportRequest {
    type V = ImportRequestView;

    open spec fn view(&self) -> ImportRequestView {
        ImportRequestView {
            author: self.author@,
            title: self.title@,
            media_type: self.media_type@,
            arguments: map_of(self.arguments),
        }
    }
}

/// What is asked of a torrent that is to be imported.
pub open spec fn import_fields() -> Seq<Seq<char>> {
    seq!["id"@, "hashString"@, "name"@, "downloadDir"@, "labels"@, "files"@]
}

/// The arguments of the call that asks for one torrent.
pub open spec fn torrent_arguments(hash: Seq<char>) -> Map<Seq<char>, JsonView> {
    Map::empty().insert("ids"@, JsonView::Array(text_values(seq![hash]))).insert(
        "fields"@,
        JsonView::Array(text_values(import_fields())),
    )
}

/// What is to be imported, or the refusal of its media type.
pub open spec fn import_request_for(
    author: Seq<char>,
    title: Seq<char>,
    hash: Seq<char>,
    media_type: Seq<char>,
) -> Result<ImportRequestView, ErrorView> {
    match media_type_of(Some(media_type)) {
        Ok(media_type) => Ok(
            ImportRequestView {
                author: safe_name(author),
                title: safe_name(title),
                media_type,
                arguments: torrent_arguments(hash),
            },
        ),
        Err(e) => Err(e),
    }
}

/// What is to be imported, and the question for its files.
pub fn request_import(author: &str, title: &str, hash: &str, media_type: &str) -> (r: Result<
    ImportRequest,
    AppError,
>)
    ensures
        result_view(r) == import_request_for(author@, title@, hash@, media_type@),
        is_media_type(media_type@) ==> (r matches Ok(request) && request@.media_type
            == media_type@),
{
    let media_type = match normalize_media_type(Some(media_type)) {
        Ok(media_type) => media_type,
        Err(e) => {
            return Err(e);
        },
    };
    let fields: Vec<&str> = vec!["id", "hashString", "name", "downloadDir", "labels", "files"];
    assert(fields@.map_values(|t: &str| t@) =~= import_fields());
    let ids: Vec<&str> = vec![hash];
    assert(ids@.map_values(|t: &str| t@) =~= seq![hash@]);
    let mut arguments = new_map();
    assert(map_of(arguments) =~= Map::empty());
    map_insert(&mut arguments, "ids", text_array(&owned(&ids)));
    map_insert(&mut arguments, "fields", text_array(&owned(&fields)));
    Ok(
        ImportRequest {
            author: sanitize_name(author),
            title: sanitize_name(title),
            media_type,
            arguments,
        },
    )
}

// ---------------------------------------------------------------------------
// The plan of an import
// ---------------------------------------------------------------------------

/// Where the files of a torrent are, and where they belong.
#[derive(Debug)]
pub struct ImportPlan {
    /// The directory that the files lie in.
    pub source_dir: String,
    /// The library that they belong in.
    pub library: String,
    /// The directory of the author, which has to be there first.
    pub author_dir: String,
    /// The directory for the book, unless something is there already.
    pub book_dir: String,
    /// The files, as paths below the directory that they lie in.
    pub names: Vec<String>,
}

/// The model of where files are and where they belong.
pub struct ImportPlanView {
    pub source_dir: Seq<char>,
    pub library: Seq<char>,
    pub author_dir: Seq<char>,
    pub book_dir: Seq<char>,
    pub names: Seq<Seq<char>>,
}

impl View for ImportPlan {
    type V = ImportPlanView;

    open spec fn view(&self) -> ImportPlanView {
        ImportPlanView {
            source_dir: self.source_dir@,
            library: self.library@,
            author_dir: self.author_dir@,
            book_dir: self.book_dir@,
            names: views(self.names@),
        }
    }
}

/// The library that a media type belongs in.
pub open spec fn library_for(media_type: Seq<char>) -> Seq<char> {
    if media_type == "ebook"@ {
        "/ebooks"@
    } else {
        "/library"@
    }
}

/// The path of a file below the directory that the torrent lies in.
pub open spec fn relative_name(file: JsonView) -> Option<Seq<char>> {
    match file_name_in(file) {
        Some(name) => Some(trimmed_start(name, CharClass::Just('/'))),
        None => None,
    }
}

/// The paths of a torrent's files below the directory that it lies in.
pub open spec fn relative_names(files: Seq<JsonView>) -> Seq<Seq<char>> {
    files.filter_map(|f: JsonView| relative_name(f))
}

/// The plan for importing the torrent that an answer tells of, or why there is
/// nothing to import.
pub open spec fn import_plan_for(
    author: Seq<char>,
    title: Seq<char>,
    media_type: Seq<char>,
    args: JsonView,
) -> Result<ImportPlanView, ErrorView> {
    let torrents = items_in(args.get("torrents"@));
    if torrents.len() == 0 || items_in(torrents[0].get("files"@)).len() == 0 {
        Err(not_found("No files found for torrent"@))
    } else {
        match text_in(torrents[0].get("downloadDir"@)) {
            Some(dir) => if trimmed(dir).len() == 0 {
                Err(not_found("Torrent download directory not found"@))
            } else {
                match visible_directory(dir) {
                    Ok(source_dir) => {
                        let author_dir = joined_path(library_for(media_type), author);
                        Ok(
                            ImportPlanView {
                                source_dir,
                                library: library_for(media_type),
                                author_dir,
                                book_dir: joined_path(author_dir, title),
                                names: relative_names(items_in(torrents[0].get("files"@))),
                            },
                        )
                    },
                    Err(e) => Err(e),
                }
            },
            None => Err(not_found("Torrent download directory not found"@)),
        }
    }
}

/// The library that the media type belongs in.
fn library_dir(media_type: &str) -> (r: &'static str)
    ensures
        r@ == library_for(media_type@),
{
    if same_text(media_type, "ebook") {
        "/ebooks"
    } else {
        "/library"
    }
}

/// The paths of the torrent's files below the directory that it lies in.
fn read_names(files: &Vec<Json>) -> (r: Vec<String>)
    ensures
        views(r@) == relative_names(items_view(files@)),
{
    let ghost pick = |f: JsonView| relative_name(f);
    let mut out: Vec<String> = Vec::new();
    let mut i: usize = 0;
    assert(views(out@) =~= items_view(files@).take(0).filter_map(pick));
    while i < files.len()
        invariant
            i <= files@.len(),
            pick == (|f: JsonView| relative_name(f)),
            views(out@) == items_view(files@).take(i as int).filter_map(pick),
        decreases files@.len() - i,
    {
        assert(items_view(files@).take(i + 1).drop_last() =~= items_view(files@).take(i as int));
        match files[i].get_text("name") {
            Some(name) => {
                let ghost before = out@;
                let short = trim_start_of(name, CharClass::Just('/'));
                out.push(short);
                assert(views(out@) =~= views(before) + seq![short@]);
            },
            None => {},
        }
        i += 1;
    }
    assert(items_view(files@).take(files@.len() as int) =~= items_view(files@));
    out
}

/// The plan for importing the torrent that the answer tells of.
pub fn import_torrent_to_library(request: &ImportRequest, args: &Json) -> (r: Result<
    ImportPlan,
    AppError,
>)
    ensures
        result_view(r) == import_plan_for(
            request@.author,
            request@.title,
            request@.media_type,
            args@,
        ),
{
    let none: Vec<Json> = Vec::new();
    let torrents = get_items(args, "torrents", &none);
    assert(items_view(torrents@).len() == torrents@.len());
    if torrents.len() == 0 {
        return Err(AppError::not_found("No files found for torrent"));
    }
    let info = &torrents[0];
    assert(items_view(torrents@)[0] == info@);
    let files = get_items(info, "files", &none);
    assert(items_view(files@).len() == files@.len());
    if files.len() == 0 {
        return Err(AppError::not_found("No files found for torrent"));
    }
    let download_dir = match info.get_text("downloadDir") {
        Some(dir) => dir.clone(),
        None => {
            return Err(AppError::not_found("Torrent download directory not found"));
        },
    };
    if trim(&download_dir).as_str().is_empty() {
        return Err(AppError::not_found("Torrent download directory not found"));
    }
    match validate_download_path(&download_dir) {
        Ok(source_dir) => {
            let library = library_dir(&request.media_type).to_owned();
            let author_dir = join_path(&library, &request.author);
            let book_dir = join_path(&author_dir, &request.title);
            Ok(ImportPlan { source_dir, library, author_dir, book_dir, names: read_names(files) })
        },
        Err(e) => Err(e),
    }
}

// ---------------------------------------------------------------------------
// The files that are copied
// ---------------------------------------------------------------------------

/// One file to copy.
#[derive(Debug, PartialEq)]
pub struct FileCopy {
    pub from: String,
    pub to: String,
}

/// The model of one file to copy.
pub struct FileCopyView {
    pub from: Seq<char>,
    pub to: Seq<char>,
}

impl View for FileCopy {
    type V = FileCopyView;

    open spec fn view(&self) -> FileCopyView {
        FileCopyView { from: self.from@, to: self.to@ }
    }
}

/// The models of some files to copy.
pub open spec fn copy_views(copies: Seq<FileCopy>) -> Seq<FileCopyView> {
    copies.map_values(|c: FileCopy| c@)
}

/// The directory at the top of a path, where it has one.
pub open spec fn top_of(name: Seq<char>) -> Option<Seq<char>> {
    match cut_at(name, '/') {
        Some(cut) => Some(cut.0),
        None => None,
    }
}

/// The directory that all files lie in that lie in any; empty where there is
/// no such directory.
pub open spec fn common_root(names: Seq<Seq<char>>) -> Seq<char> {
    let tops = names.filter_map(|n: Seq<char>| top_of(n));
    if tops.len() > 0 && (forall|i: int| 0 <= i < tops.len() ==> #[trigger] tops[i] == tops[0]) {
        tops[0]
    } else {
        Seq::empty()
    }
}

/// The path of a file below the directory that all files lie in.
pub open spec fn name_below(name: Seq<char>, root: Seq<char>) -> Seq<char> {
    if root.len() > 0 && begins_with(name, root + "/"@) {
        trimmed_start(name.skip(root.len() as int + 1), CharClass::Just('/'))
    } else {
        name
    }
}

/// Where a file goes below the directory of the book: the only file of a
/// torrent right into it, and one of many as it lies below the directory that
/// they share.
pub open spec fn place_for(plan: ImportPlanView, name: Seq<char>) -> Seq<char> {
    if plan.names.len() == 1 {
        match file_name(joined_path(plan.source_dir, name)) {
            Some(name) => name,
            None => Seq::empty(),
        }
    } else {
        name_below(name, common_root(plan.names))
    }
}

/// The copy of a file into the directory `dest`. Cue sheets are left behind,
/// and among many files those that are nothing below the directory that they
/// share. So is what would not be read from below the downloads or written
/// below the library.
pub open spec fn copy_of_file(plan: ImportPlanView, dest: Seq<char>, name: Seq<char>) -> Option<
    FileCopyView,
> {
    let from = joined_path(plan.source_dir, name);
    let below = place_for(plan, name);
    let to = joined_path(dest, below);
    if is_cue(from) || (plan.names.len() != 1 && below.len() == 0) {
        None
    } else if lies_below(from, "/downloads"@) && lies_below(to, plan.library) {
        Some(FileCopyView { from, to: settled_path(to) })
    } else {
        None
    }
}

/// The files to copy into the directory `dest`, or why there are none.
pub open spec fn copies_for(plan: ImportPlanView, dest: Seq<char>) -> Result<
    Seq<FileCopyView>,
    ErrorView,
> {
    let copies = plan.names.filter_map(|n: Seq<char>| copy_of_file(plan, dest, n));
    if plan.names.len() == 1 && is_cue(joined_path(plan.source_dir, plan.names[0])) {
        Err(bad_request("Only .cue file found; nothing to import"@))
    } else if copies.len() == 0 {
        Err(bad_request("No importable files found"@))
    } else {
        Ok(copies)
    }
}

/// The directory that all files lie in that lie in any.
fn find_common_root(names: &Vec<String>) -> (r: String)
    ensures
        r@ == common_root(views(names@)),
{
    let ghost pick = |n: Seq<char>| top_of(n);
    let mut tops: Vec<String> = Vec::new();
    let mut i: usize = 0;
    assert(views(tops@) =~= views(names@).take(0).filter_map(pick));
    while i < names.len()
        invariant
            i <= names@.len(),
            pick == (|n: Seq<char>| top_of(n)),
            views(tops@) == views(names@).take(i as int).filter_map(pick),
        decreases names@.len() - i,
    {
        assert(views(names@).take(i + 1).drop_last() =~= views(names@).take(i as int));
        match split_once(&names[i], '/') {
            Some(cut) => {
                let ghost before = tops@;
                let top = cut.0;
                tops.push(top);
                assert(views(tops@) =~= views(before) + seq![top@]);
            },
            None => {},
        }
        i += 1;
    }
    assert(views(names@).take(names@.len() as int) =~= views(names@));
    assert(views(tops@).len() == tops@.len());
    if tops.len() == 0 {
        return String::new();
    }
    let mut k: usize = 1;
    while k < tops.len()
        invariant
            1 <= k <= tops@.len(),
            views(tops@) == views(names@).filter_map(|n: Seq<char>| top_of(n)),
            forall|j: int| 0 <= j < k ==> #[trigger] views(tops@)[j] == views(tops@)[0],
        decreases tops@.len() - k,
    {
        if !same_text(&tops[k], &tops[0]) {
            assert(views(tops@)[k as int] != views(tops@)[0]);
            return String::new();
        }
        k += 1;
    }
    tops[0].clone()
}

/// The path of the file below the directory that all files lie in.
fn below_root(name: &str, root: &str) -> (r: String)
    ensures
        r@ == name_below(name@, root@),
{
    let chars = chars_of(name);
    let top = chars_of(root);
    let end: usize = chars.len();
    if top.len() > 0 && starts_with(name, &root.to_owned().concat("/")) {
        proof {
            reveal_strlit("/");
            assert((root@ + "/"@).len() == root@.len() + 1);
        }
        assert(chars@.skip(top@.len() as int + 1) =~= chars@.subrange(
            top@.len() as int + 1,
            chars@.len() as int,
        ));
        trim_start_of(&text_of(&chars, top.len() + 1, end), CharClass::Just('/'))
    } else {
        name.to_owned()
    }
}

/// Where the file goes below the directory of the book, given the directory
/// that all files share.
fn find_place(plan: &ImportPlan, root: &str, name: &str, from: &str) -> (r: String)
    requires
        root@ == common_root(views(plan.names@)),
        from@ == joined_path(plan@.source_dir, name@),
    ensures
        r@ == place_for(plan@, name@),
{
    assert(views(plan.names@).len() == plan.names@.len());
    if plan.names.len() == 1 {
        match path_file_name(from) {
            Some(name) => name,
            None => String::new(),
        }
    } else {
        below_root(name, root)
    }
}

/// The copy of the file into the directory `dest`, given the directory that
/// all files share.
fn plan_copy(plan: &ImportPlan, root: &str, dest: &str, name: &str) -> (r: Option<FileCopy>)
    requires
        root@ == common_root(views(plan.names@)),
    ensures
        opt_view(r) == copy_of_file(plan@, dest@, name@),
{
    let from = join_path(&plan.source_dir, name);
    let below = find_place(plan, root, name, &from);
    assert(views(plan.names@).len() == plan.names@.len());
    if leads_to_cue(&from) || (plan.names.len() != 1 && below.as_str().is_empty()) {
        return None;
    }
    let to = join_path(dest, &below);
    if path_lies_below(&from, "/downloads") && path_lies_below(&to, &plan.library) {
        Some(FileCopy { from, to: settle_path(&to) })
    } else {
        None
    }
}

/// The files to copy into the directory `dest`.
pub fn plan_copies(plan: &ImportPlan, dest: &str) -> (r: Result<Vec<FileCopy>, AppError>)
    ensures
        match r {
            Ok(copies) => copies_for(plan@, dest@) == Ok::<_, ErrorView>(copy_views(copies@)),
            Err(e) => copies_for(plan@, dest@) == Err::<Seq<FileCopyView>, _>(e@),
        },
{
    let names = &plan.names;
    assert(views(names@).len() == names@.len());
    if names.len() == 1 {
        assert(views(names@)[0] == names@[0]@);
        if leads_to_cue(&join_path(&plan.source_dir, &names[0])) {
            return Err(AppError::bad_request("Only .cue file found; nothing to import"));
        }
    }
    let root = find_common_root(names);
    let ghost pick = |n: Seq<char>| copy_of_file(plan@, dest@, n);
    let mut copies: Vec<FileCopy> = Vec::new();
    let mut i: usize = 0;
    assert(copy_views(copies@) =~= views(names@).take(0).filter_map(pick));
    while i < names.len()
        invariant
            i <= names@.len(),
            names == plan.names,
            root@ == common_root(views(plan.names@)),
            pick == (|n: Seq<char>| copy_of_file(plan@, dest@, n)),
            copy_views(copies@) == views(names@).take(i as int).filter_map(pick),
        decreases names@.len() - i,
    {
        assert(views(names@).take(i + 1).drop_last() =~= views(names@).take(i as int));
        match plan_copy(plan, &root, dest, &names[i]) {
            Some(copy) => {
                let ghost before = copies@;
                copies.push(copy);
                assert(copy_views(copies@) =~= copy_views(before) + seq![copy@]);
            },
            None => {},
        }
        i += 1;
    }
    assert(views(names@).take(names@.len() as int) =~= views(names@));
    assert(copy_views(copies@).len() == copies@.len());
    if copies.len() == 0 {
        return Err(AppError::bad_request("No importable files found"));
    }
    Ok(copies)
}

// ---------------------------------------------------------------------------
// Failures that pass
// ---------------------------------------------------------------------------

/// Whether an import that failed so is to be tried again: Transmission could
/// not be asked.
pub open spec fn is_transient(e: ErrorView) -> bool {
    e.status == Status::BadGateway && begins_with(e.detail, "Transmission"@)
}

/// Whether an import that failed so is to be tried again.
pub fn is_transient_auto_import_error(e: &AppError) -> (r: bool)
    ensures
        r == is_transient(e@),
{
    match e.status {
        Status::BadGateway => starts_with(&e.detail, "Transmission"),
        _ => false,
    }
}

// ---------------------------------------------------------------------------
// Laws
// ---------------------------------------------------------------------------

/// A directory at the root is one step away from it.
proof fn lemma_root_directory(dir: Seq<char>, name: Seq<char>)
    requires
        !name.contains('/'),
        is_step(name),
        dir == seq!['/'] + name,
    ensures
        steps(dir) == seq![name],
        is_absolute(dir),
{
    reveal(Seq::filter);
    let leads = |part: Seq<char>| is_step(part);
    let root = seq!['/'];
    lemma_one_step(name);
    assert(joined_path(root, name) =~= dir);
    joined_path_leads_through_both(root, name);
    let empty = Seq::<char>::empty();
    assert(root.drop_last() =~= empty);
    assert(split_by(empty, '/') =~= seq![empty]);
    let parts = split_by(root, '/');
    assert(parts =~= seq![empty, empty]);
    assert(parts.drop_last() =~= seq![empty]);
    assert(parts.drop_last().drop_last() =~= Seq::empty());
    assert(parts.drop_last().drop_last().filter(leads).len() == 0);
    assert(!leads(empty));
    assert(parts.drop_last().filter(leads).len() == 0);
    assert(steps(root) =~= Seq::empty());
    assert(steps(dir) =~= seq![name]);
}

/// The paths of files below the directory of their torrent are not absolute.
proof fn lemma_relative_names(files: Seq<JsonView>, name: Seq<char>)
    requires
        relative_names(files).contains(name),
    ensures
        !is_absolute(name),
{
    let pick = |f: JsonView| relative_name(f);
    files.lemma_filter_map_contains(pick, name);
    let file = choose|f: JsonView| #[trigger] files.contains(f) && pick(f) == Some(name);
    lemma_trimmed_start(file_name_in(file)->0, CharClass::Just('/'));
}

/// Every copy is that of a file of the plan.
pub proof fn copies_are_of_files(plan: ImportPlanView, dest: Seq<char>, copy: FileCopyView)
    requires
        copies_for(plan, dest) matches Ok(copies) && copies.contains(copy),
    ensures
        exists|name: Seq<char>| #[trigger]
            plan.names.contains(name) && copy_of_file(plan, dest, name) == Some(copy),
{
    let pick = |n: Seq<char>| copy_of_file(plan, dest, n);
    plan.names.lemma_filter_map_contains(pick, copy);
    let name = choose|n: Seq<char>| #[trigger] plan.names.contains(n) && pick(n) == Some(copy);
    assert(plan.names.contains(name) && copy_of_file(plan, dest, name) == Some(copy));
}

/// Every file that has a copy is copied.
pub proof fn files_are_copied(plan: ImportPlanView, dest: Seq<char>, name: Seq<char>)
    requires
        plan.names.contains(name),
        copy_of_file(plan, dest, name) is Some,
    ensures
        copies_for(plan, dest) matches Ok(copies) && copies.contains(
            copy_of_file(plan, dest, name)->0,
        ),
{
    let pick = |n: Seq<char>| copy_of_file(plan, dest, n);
    lemma_picked(plan.names, pick, name);
    let copies = plan.names.filter_map(pick);
    assert(copies.contains(pick(name)->0));
    assert(copies_for(plan, dest) == Ok::<_, ErrorView>(copies));
}

/// Every file that is imported is read from below the downloads and is no cue
/// sheet, whatever Transmission reports.
pub proof fn imports_read_from_downloads(
    plan: ImportPlanView,
    dest: Seq<char>,
    name: Seq<char>,
    copy: FileCopyView,
)
    requires
        copy_of_file(plan, dest, name) == Some(copy),
    ensures
        lies_below(copy.from, "/downloads"@),
        !is_cue(copy.from),
{
}

/// A path that is joined leads up only where one of its parts does.
proof fn lemma_joined_climbs(dir: Seq<char>, path: Seq<char>)
    requires
        !is_absolute(path),
    ensures
        steps(joined_path(dir, path)) == steps(dir) + steps(path),
        is_absolute(dir) ==> is_absolute(joined_path(dir, path)),
        climbs(joined_path(dir, path)) ==> climbs(dir) || climbs(path),
{
    joined_path_leads_through_both(dir, path);
    let a = steps(dir);
    let b = steps(path);
    if climbs(joined_path(dir, path)) {
        let k = choose|k: int| 0 <= k < (a + b).len() && (a + b)[k] == ".."@;
        if k < a.len() {
            assert(a[k] == ".."@);
        } else {
            assert(b[k - a.len()] == ".."@);
        }
    }
}

/// The slashes that a path begins with lead nowhere.
proof fn lemma_leading_slashes(path: Seq<char>)
    ensures
        steps(trimmed_start(path, CharClass::Just('/'))) == steps(path),
        !is_absolute(trimmed_start(path, CharClass::Just('/'))),
    decreases path.len(),
{
    lemma_trimmed_start(path, CharClass::Just('/'));
    if path.len() > 0 && path[0] == '/' {
        let empty = Seq::<char>::empty();
        let rest = path.skip(1);
        lemma_leading_slashes(rest);
        assert(path =~= empty.push('/') + rest);
        lemma_split_join(empty, rest);
        let leads = |part: Seq<char>| is_step(part);
        Seq::filter_distributes_over_add(split_by(empty, '/'), split_by(rest, '/'), leads);
        lemma_no_steps(empty);
        assert(steps(path) =~= steps(rest));
    }
}

/// The path of a file below the common directory is not absolute, and leads up
/// only where its whole path does.
proof fn lemma_name_below(name: Seq<char>, root: Seq<char>)
    requires
        !is_absolute(name),
    ensures
        !is_absolute(name_below(name, root)),
        climbs(name_below(name, root)) ==> climbs(name),
{
    let below = name_below(name, root);
    if root.len() > 0 && begins_with(name, root + "/"@) {
        reveal_strlit("/");
        let front = root + "/"@;
        let rest = name.skip(root.len() as int + 1);
        assert(name.subrange(0, front.len() as int) == front);
        assert(name =~= root.push('/') + rest) by {
            assert forall|i: int| 0 <= i < front.len() implies name[i] == root.push('/')[i] by {
                assert(name[i] == name.subrange(0, front.len() as int)[i]);
            }
        }
        lemma_leading_slashes(rest);
        lemma_split_join(root, rest);
        let leads = |part: Seq<char>| is_step(part);
        Seq::filter_distributes_over_add(split_by(root, '/'), split_by(rest, '/'), leads);
        if climbs(below) {
            let k = choose|k: int| 0 <= k < steps(below).len() && steps(below)[k] == ".."@;
            assert(steps(name)[steps(root).len() + k] == ".."@);
        }
    }
}

/// The empty path leads nowhere.
proof fn lemma_no_steps(path: Seq<char>)
    requires
        path.len() == 0,
    ensures
        steps(path).len() == 0,
        !is_absolute(path),
{
    reveal(Seq::filter);
    let leads = |part: Seq<char>| is_step(part);
    let parts = split_by(path, '/');
    assert(parts.drop_last() =~= Seq::empty());
    assert(parts.drop_last().filter(leads).len() == 0);
    assert(!leads(parts.last()));
}

/// Whether a path lies below the library of a media type: it starts there,
/// goes on from there, and does not lead up.
pub open spec fn lies_in_library(path: Seq<char>, media_type: Seq<char>) -> bool {
    &&& is_absolute(path)
    &&& steps(path).len() > 1
    &&& seq!['/'] + steps(path)[0] == library_for(media_type)
    &&& !climbs(path)
}

/// The directory of the author and the one for the book lie in the library,
/// whatever the author and the title are, and so does every other directory
/// that is tried in place of the latter.
pub proof fn book_directories_lie_in_the_library(
    author: Seq<char>,
    title: Seq<char>,
    media_type: Seq<char>,
    index: int,
)
    requires
        index >= 0,
    ensures
        ({
            let author_dir = joined_path(library_for(media_type), safe_name(author));
            let dest = candidate(joined_path(author_dir, safe_name(title)), index);
            lies_in_library(author_dir, media_type) && lies_in_library(dest, media_type)
        }),
{
    reveal_strlit("/library");
    reveal_strlit("/ebooks");
    reveal_strlit("library");
    reveal_strlit("ebooks");
    reveal_strlit(".");
    reveal_strlit("..");
    let name = if media_type == "ebook"@ {
        "ebooks"@
    } else {
        "library"@
    };
    let root = library_for(media_type);
    assert(root =~= seq!['/'] + name);
    lemma_root_directory(root, name);
    let a = safe_name(author);
    let t = safe_name(title);
    safe_name_fits_a_directory(author);
    safe_name_fits_a_directory(title);
    lemma_one_step(a);
    lemma_one_step(t);
    let author_dir = joined_path(root, a);
    let book_dir = joined_path(author_dir, t);
    joined_path_leads_through_both(root, a);
    joined_path_leads_through_both(author_dir, t);
    assert(steps(author_dir) =~= seq![name, a]);
    assert(steps(book_dir) =~= seq![name, a, t]);
    let dest = candidate(book_dir, index);
    if index > 0 {
        candidate_stays_in_its_directory(book_dir, index);
        lemma_numbered_name(book_dir, index + 1);
    }
    assert(name.len() > 2);
    if climbs(author_dir) {
        let k = choose|k: int| 0 <= k < steps(author_dir).len() && steps(author_dir)[k] == ".."@;
        assert(k == 0 || k == 1);
    }
    if climbs(dest) {
        let k = choose|k: int| 0 <= k < steps(dest).len() && steps(dest)[k] == ".."@;
        if index == 0 || k < steps(dest).len() - 1 {
            assert(steps(book_dir)[k] == ".."@);
        }
    }
}

/// Every file that is imported is put below the library of its media type, by
/// a path that does not lead up, so that every directory on the way lies there
/// too: whatever the author, the title and the names of the files are.
pub proof fn imports_write_into_the_library(
    author: Seq<char>,
    title: Seq<char>,
    hash: Seq<char>,
    media_type: Seq<char>,
    request: ImportRequestView,
    args: JsonView,
    plan: ImportPlanView,
    index: int,
    name: Seq<char>,
    copy: FileCopyView,
)
    requires
        import_request_for(author, title, hash, media_type) == Ok::<_, ErrorView>(request),
        import_plan_for(request.author, request.title, request.media_type, args) == Ok::<
            _,
            ErrorView,
        >(plan),
        index >= 0,
        copy_of_file(plan, candidate(plan.book_dir, index), name) == Some(copy),
    ensures
        lies_in_library(plan.author_dir, request.media_type),
        lies_in_library(candidate(plan.book_dir, index), request.media_type),
        lies_in_library(copy.to, request.media_type),
{
    let dest = candidate(plan.book_dir, index);
    book_directories_lie_in_the_library(author, title, request.media_type, index);
    settled_path_leads_to_the_same_place(joined_path(dest, place_for(plan, name)));
}

/// Nothing is left behind of a torrent whose names do not lead up but cue
/// sheets and what is nothing below the directory that the files share: every
/// other file is copied from where it is to its place below the directory that
/// was chosen for the book.
pub proof fn ordinary_files_are_copied(
    author: Seq<char>,
    title: Seq<char>,
    hash: Seq<char>,
    media_type: Seq<char>,
    request: ImportRequestView,
    args: JsonView,
    plan: ImportPlanView,
    index: int,
    name: Seq<char>,
)
    requires
        import_request_for(author, title, hash, media_type) == Ok::<_, ErrorView>(request),
        import_plan_for(request.author, request.title, request.media_type, args) == Ok::<
            _,
            ErrorView,
        >(plan),
        index >= 0,
        plan.names.contains(name),
        !climbs(name),
        steps(name).len() > 0 || lies_below(plan.source_dir, "/downloads"@),
        !is_cue(joined_path(plan.source_dir, name)),
        plan.names.len() == 1 || place_for(plan, name).len() > 0,
    ensures
        ({
            let dest = candidate(plan.book_dir, index);
            copy_of_file(plan, dest, name) == Some(
                FileCopyView {
                    from: joined_path(plan.source_dir, name),
                    to: joined_path(dest, place_for(plan, name)),
                },
            )
        }),
{
    let dest = candidate(plan.book_dir, index);
    let from = joined_path(plan.source_dir, name);
    let below = place_for(plan, name);
    let info = items_in(args.get("torrents"@))[0];
    book_directories_lie_in_the_library(author, title, request.media_type, index);
    lemma_relative_names(items_in(info.get("files"@)), name);
    joined_path_lies_with_its_directory(plan.source_dir, name, "/downloads"@);
    if plan.names.len() == 1 {
        lemma_name_ends_path(from);
        if below.len() > 0 {
            lemma_file_name_is_a_step(from);
            lemma_one_step(below);
        } else {
            lemma_no_steps(below);
        }
        if climbs(below) {
            assert(steps(below)[0] == ".."@);
        }
    } else {
        lemma_name_below(name, common_root(plan.names));
    }
    lemma_climbless_path(dest);
    joined_path_lies_with_its_directory(dest, below, plan.library);
    lemma_joined_climbs(dest, below);
}

/// A path without steps up leads through its own steps.
proof fn lemma_climbless_path(path: Seq<char>)
    requires
        is_absolute(path),
        !climbs(path),
    ensures
        resolved(steps(path)) == steps(path),
{
    settled_path_leads_to_the_same_place(path);
}

/// The name at the end of a path leads somewhere.
proof fn lemma_file_name_is_a_step(path: Seq<char>)
    ensures
        file_name(path) matches Some(name) ==> is_step(name),
{
    if file_name(path) is Some {
        broadcast use Seq::lemma_filter_pred;

        let leads = |part: Seq<char>| is_step(part);
        assert(leads(steps(path)[steps(path).len() - 1]));
    }
}

/// The end of a path is that of the name which was joined to it.
proof fn lemma_joined_end(dir: Seq<char>, front: Seq<char>, last: Seq<char>) -> (base: Seq<char>)
    requires
        dir.len() > 0,
        front.len() == 0 || front.last() == '/',
        !is_absolute(front + last),
        last.len() > 0,
    ensures
        base.len() > 0,
        base.last() == '/',
        joined_path(dir, front + last) == base + last,
{
    let slashed = if dir.last() == '/' {
        dir
    } else {
        dir.push('/')
    };
    let base = slashed + front;
    assert(joined_path(dir, front + last) =~= base + last);
    base
}

/// A name that ends in a part leads somewhere.
proof fn lemma_named_end(front: Seq<char>, last: Seq<char>)
    requires
        front.len() == 0 || front.last() == '/',
        !last.contains('/'),
        last.len() > 0,
        last != seq!['.'],
    ensures
        steps(front + last).len() > 0,
{
    if front.len() > 0 {
        assert(front.drop_last().push('/') =~= front);
        paths_lead_through_their_parts(front.drop_last(), last);
    } else {
        assert(front + last =~= last);
        paths_lead_through_their_parts(front, last);
    }
}

/// The directory that a plan reads from starts at the root, and its names do
/// not.
proof fn lemma_plan(
    author: Seq<char>,
    title: Seq<char>,
    media_type: Seq<char>,
    args: JsonView,
    plan: ImportPlanView,
    name: Seq<char>,
)
    requires
        import_plan_for(author, title, media_type, args) == Ok::<_, ErrorView>(plan),
        plan.names.contains(name),
    ensures
        plan.source_dir.len() > 0,
        plan.source_dir[0] == '/',
        !is_absolute(name),
{
    let info = items_in(args.get("torrents"@))[0];
    lemma_relative_names(items_in(info.get("files"@)), name);
}

/// A file is left behind as a cue sheet only if its name ends in a dot and
/// "cue". Every other file of a torrent whose name does not lead up is among
/// the copies, from where it is to its place below the directory that was
/// chosen for the book.
pub proof fn only_cue_sheets_are_left_behind(
    author: Seq<char>,
    title: Seq<char>,
    hash: Seq<char>,
    media_type: Seq<char>,
    request: ImportRequestView,
    args: JsonView,
    plan: ImportPlanView,
    index: int,
    front: Seq<char>,
    last: Seq<char>,
)
    requires
        import_request_for(author, title, hash, media_type) == Ok::<_, ErrorView>(request),
        import_plan_for(request.author, request.title, request.media_type, args) == Ok::<
            _,
            ErrorView,
        >(plan),
        index >= 0,
        plan.names.contains(front + last),
        front.len() == 0 || front.last() == '/',
        !last.contains('/'),
        last.len() > 0,
        last != seq!['.'],
        !climbs(front + last),
        plan.names.len() == 1 || place_for(plan, front + last).len() > 0,
        !ends_in_cue(last),
    ensures
        ({
            let dest = candidate(plan.book_dir, index);
            let copy = FileCopyView {
                from: joined_path(plan.source_dir, front + last),
                to: joined_path(dest, place_for(plan, front + last)),
            };
            copies_for(plan, dest) matches Ok(copies) && copies.contains(copy)
        }),
{
    let name = front + last;
    let dest = candidate(plan.book_dir, index);
    lemma_plan(request.author, request.title, request.media_type, args, plan, name);
    let base = lemma_joined_end(plan.source_dir, front, last);
    cue_sheets_end_in_cue(base, last);
    lemma_named_end(front, last);
    ordinary_files_are_copied(
        author,
        title,
        hash,
        media_type,
        request,
        args,
        plan,
        index,
        name,
    );
    files_are_copied(plan, dest, name);
}

/// No file whose name ends in a dot and "cue", in small or capital letters, is
/// among the copies, and where it is the only file there is nothing to import.
pub proof fn cue_sheets_are_never_copied(
    plan: ImportPlanView,
    dest: Seq<char>,
    front: Seq<char>,
    last: Seq<char>,
    copy: FileCopyView,
)
    requires
        plan.source_dir.len() > 0,
        front.len() == 0 || front.last() == '/',
        !is_absolute(front + last),
        !last.contains('/'),
        ends_in_cue(last),
        copy.from == joined_path(plan.source_dir, front + last),
    ensures
        !(copies_for(plan, dest) matches Ok(copies) && copies.contains(copy)),
        plan.names == seq![front + last] ==> (copies_for(plan, dest) matches Err(e) && e.status
            == Status::BadRequest && e.detail == "Only .cue file found; nothing to import"@),
{
    let base = lemma_joined_end(plan.source_dir, front, last);
    cue_sheets_end_in_cue(base, last);
    if copies_for(plan, dest) matches Ok(copies) && copies.contains(copy) {
        copies_are_of_files(plan, dest, copy);
        let name = choose|name: Seq<char>| #[trigger]
            plan.names.contains(name) && copy_of_file(plan, dest, name) == Some(copy);
        assert(is_cue(copy.from));
    }
}

/// An import without a single copy is refused as a bad request, and one with
/// any is not: the copies are those of the names, in their order.
pub proof fn imports_need_a_file(plan: ImportPlanView, dest: Seq<char>)
    ensures
        (forall|i: int|
            0 <= i < plan.names.len() ==> copy_of_file(plan, dest, #[trigger] plan.names[i])
                is None) ==> (copies_for(plan, dest) matches Err(e) && e.status
            == Status::BadRequest && (e.detail == "No importable files found"@ || plan.names.len()
            == 1)),
        plan.names.len() > 0 && (forall|i: int|
            0 <= i < plan.names.len() ==> copy_of_file(plan, dest, #[trigger] plan.names[i])
                is Some) ==> (copies_for(plan, dest) matches Ok(copies) && copies.len()
            == plan.names.len() && (forall|i: int|
            0 <= i < plan.names.len() ==> copy_of_file(plan, dest, #[trigger] plan.names[i])
                == Some(copies[i]))),
{
    let pick = |n: Seq<char>| copy_of_file(plan, dest, n);
    let names = plan.names;
    if forall|i: int| 0 <= i < names.len() ==> copy_of_file(plan, dest, #[trigger] names[i]) is None {
        assert forall|i: int| 0 <= i < names.len() implies pick(#[trigger] names[i]) is None by {
            assert(copy_of_file(plan, dest, names[i]) is None);
        }
        lemma_first_picked(names, pick, names.len() as int);
    }
    if names.len() > 0 && (forall|i: int|
        0 <= i < names.len() ==> copy_of_file(plan, dest, #[trigger] names[i]) is Some) {
        assert forall|i: int| 0 <= i < names.len() implies pick(#[trigger] names[i]) is Some by {
            assert(copy_of_file(plan, dest, names[i]) is Some);
        }
        lemma_all_picked(names, pick);
        assert(copy_of_file(plan, dest, names[0]) is Some);
        let copies = names.filter_map(pick);
        assert(copies_for(plan, dest) == Ok::<_, ErrorView>(copies));
        assert forall|i: int| 0 <= i < names.len() implies copy_of_file(
            plan,
            dest,
            #[trigger] names[i],
        ) == Some(copies[i]) by {
            assert(pick(names[i]) is Some);
        }
    }
}

/// The only file of a torrent goes right into the directory of the book, by the
/// name at the end of its path.
pub proof fn single_files_go_right_into_the_book(
    plan: ImportPlanView,
    front: Seq<char>,
    last: Seq<char>,
)
    requires
        plan.source_dir.len() > 0,
        plan.names == seq![front + last],
        front.len() == 0 || front.last() == '/',
        !is_absolute(front + last),
        !last.contains('/'),
        last.len() > 0,
        last != seq!['.'],
        last != seq!['.', '.'],
    ensures
        place_for(plan, front + last) == last,
{
    reveal_strlit(".");
    reveal_strlit("..");
    assert("."@ =~= seq!['.']);
    assert(".."@ =~= seq!['.', '.']);
    let base = lemma_joined_end(plan.source_dir, front, last);
    assert(last.contains(last[0]));
    assert(joined_path(base, last) == base + last);
    joined_name_is_the_file_name(base, last);
}

/// Where all files of a torrent that lie in a directory lie in the same one,
/// each goes to where it lies below that directory; files beside it go by
/// their own names.
pub proof fn files_go_to_where_they_lie_below_their_directory(
    plan: ImportPlanView,
    root: Seq<char>,
    slashes: Seq<char>,
    rest: Seq<char>,
    beside: Seq<char>,
)
    requires
        plan.names.len() > 1,
        root.len() > 0,
        !root.contains('/'),
        plan.names.contains(root.push('/') + (slashes + rest)),
        forall|i: int| 0 <= i < slashes.len() ==> #[trigger] slashes[i] == '/',
        rest.len() > 0,
        rest[0] != '/',
        !beside.contains('/'),
        forall|i: int|
            0 <= i < plan.names.len() ==> !(#[trigger] plan.names[i]).contains('/') || (exists|
                below: Seq<char>,
            | plan.names[i] == #[trigger] (root.push('/') + below)),
    ensures
        place_for(plan, root.push('/') + (slashes + rest)) == rest,
        place_for(plan, beside) == beside,
{
    reveal_strlit("/");
    assert("/"@ =~= seq!['/']);
    let pick = |n: Seq<char>| top_of(n);
    let names = plan.names;
    let tops = names.filter_map(pick);
    let name = root.push('/') + (slashes + rest);
    cuts_are_at_the_first(root, '/', slashes + rest);
    assert(pick(name) == Some(root));
    lemma_picked(names, pick, name);
    assert(tops.contains(root));
    assert forall|i: int| 0 <= i < tops.len() implies #[trigger] tops[i] == root by {
        assert(tops.contains(tops[i]));
        names.lemma_filter_map_contains(pick, tops[i]);
        let n = choose|n: Seq<char>| #[trigger] names.contains(n) && pick(n) == Some(tops[i]);
        let k = choose|k: int| 0 <= k < names.len() && names[k] == n;
        assert(names[k] == n);
        if !n.contains('/') {
            cuts_are_at_the_first(n, '/', Seq::empty());
        } else {
            let below = choose|below: Seq<char>| names[k] == #[trigger] (root.push('/') + below);
            cuts_are_at_the_first(root, '/', below);
        }
    }
    assert(common_root(names) == root);
    let front = root + "/"@;
    assert(front =~= root.push('/'));
    assert(name.subrange(0, front.len() as int) =~= front);
    assert(name.skip(root.len() as int + 1) =~= slashes + rest);
    trimming_takes_what_stands_around(slashes, rest, Seq::empty(), CharClass::Just('/'));
    if begins_with(beside, front) {
        assert(beside.subrange(0, front.len() as int)[root.len() as int] == '/');
        assert(beside[root.len() as int] == '/');
    }
}

/// Where the files of a torrent lie in different directories each goes by its
/// whole path.
pub proof fn files_of_different_directories_keep_their_paths(
    plan: ImportPlanView,
    one: Seq<char>,
    other: Seq<char>,
    below_one: Seq<char>,
    below_other: Seq<char>,
    name: Seq<char>,
)
    requires
        plan.names.len() != 1,
        one != other,
        !one.contains('/'),
        !other.contains('/'),
        plan.names.contains(one.push('/') + below_one),
        plan.names.contains(other.push('/') + below_other),
    ensures
        place_for(plan, name) == name,
{
    let pick = |n: Seq<char>| top_of(n);
    let names = plan.names;
    let tops = names.filter_map(pick);
    cuts_are_at_the_first(one, '/', below_one);
    cuts_are_at_the_first(other, '/', below_other);
    lemma_picked(names, pick, one.push('/') + below_one);
    lemma_picked(names, pick, other.push('/') + below_other);
    assert(tops.contains(one) && tops.contains(other));
    let i = choose|i: int| 0 <= i < tops.len() && tops[i] == one;
    let j = choose|j: int| 0 <= j < tops.len() && tops[j] == other;
    assert(tops[i] != tops[j]);
    assert(common_root(names).len() == 0) by {
        if forall|k: int| 0 <= k < tops.len() ==> #[trigger] tops[k] == tops[0] {
            assert(tops[i] == tops[0] && tops[j] == tops[0]);
        }
    }
}

/// Ebooks and audiobooks are kept apart: the library of a plan, and the
/// directories of the author and of the book in it, go by the media type alone.
pub proof fn libraries_go_by_the_media_type(
    author: Seq<char>,
    title: Seq<char>,
    media_type: Seq<char>,
    args: JsonView,
)
    requires
        media_type == "audiobook"@ || media_type == "ebook"@,
        author.len() > 0 && author[0] != '/',
        title.len() > 0 && title[0] != '/',
        author.last() != '/',
    ensures
        import_plan_for(author, title, media_type, args) matches Ok(plan) ==> {
            &&& plan.library == if media_type == "ebook"@ {
                seq!['/', 'e', 'b', 'o', 'o', 'k', 's']
            } else {
                seq!['/', 'l', 'i', 'b', 'r', 'a', 'r', 'y']
            }
            &&& plan.author_dir == plan.library.push('/') + author
            &&& plan.book_dir == plan.author_dir.push('/') + title
        },
{
    reveal_strlit("/ebooks");
    reveal_strlit("/library");
    assert("/ebooks"@ =~= seq!['/', 'e', 'b', 'o', 'o', 'k', 's']);
    assert("/library"@ =~= seq!['/', 'l', 'i', 'b', 'r', 'a', 'r', 'y']);
    let dir = library_for(media_type).push('/') + author;
    assert(dir.last() == author.last());
}

/// A torrent is asked for by its hash alone. It is imported under names that
/// can stand as directories, made of the author and of the title, and under
/// the media type that was named.
pub proof fn imports_ask_for_their_own_torrent(
    author: Seq<char>,
    title: Seq<char>,
    hash: Seq<char>,
    media_type: Seq<char>,
    field: Seq<char>,
)
    ensures
        import_request_for(author, title, hash, media_type) matches Ok(request) ==> {
            &&& request.author == safe_name(author)
            &&& request.title == safe_name(title)
            &&& media_type_of(Some(media_type)) == Ok::<_, ErrorView>(request.media_type)
            &&& found(request.arguments, "ids"@) == Some(
                JsonView::Array(seq![JsonView::Text(hash)]),
            )
            &&& found(request.arguments, "fields"@) matches Some(JsonView::Array(fields)) && (field
                == "hashString"@ || field == "downloadDir"@ || field == "files"@ || field
                == "name"@ || field == "labels"@ || field == "id"@ <==> fields.contains(
                JsonView::Text(field),
            ))
        },
        import_request_for(author, title, hash, media_type) is Ok <==> media_type_of(
            Some(media_type),
        ) is Ok,
        import_request_for(author, title, hash, media_type) matches Err(e) ==> media_type_of(
            Some(media_type),
        ) == Err::<Seq<char>, _>(e),
{
    reveal_strlit("ids");
    reveal_strlit("fields");
    assert("ids"@.len() == 3 && "fields"@.len() == 6);
    assert(text_values(seq![hash]) =~= seq![JsonView::Text(hash)]);
    let named = import_fields();
    let fields = text_values(named);
    assert(named[0] == "id"@ && named[1] == "hashString"@ && named[2] == "name"@ && named[3]
        == "downloadDir"@ && named[4] == "labels"@ && named[5] == "files"@ && named.len() == 6);
    assert forall|i: int| 0 <= i < 6 implies #[trigger] fields[i] == JsonView::Text(named[i]) by {}
    assert(fields[0] == JsonView::Text(named[0]) && fields[1] == JsonView::Text(named[1])
        && fields[2] == JsonView::Text(named[2]) && fields[3] == JsonView::Text(named[3])
        && fields[4] == JsonView::Text(named[4]) && fields[5] == JsonView::Text(named[5]));
    if fields.contains(JsonView::Text(field)) {
        let i = choose|i: int| 0 <= i < fields.len() && fields[i] == JsonView::Text(field);
        assert(i == 0 || i == 1 || i == 2 || i == 3 || i == 4 || i == 5);
    }
}

/// The files of a plan are those of the first torrent of the answer, each by
/// its name without the slashes it begins with, in the order in which they are
/// listed; what has no name is passed over.
pub proof fn plans_name_the_files_of_the_torrent(
    author: Seq<char>,
    title: Seq<char>,
    media_type: Seq<char>,
    args: JsonView,
    torrents: Seq<JsonView>,
    files: Seq<JsonView>,
    at: int,
    slashes: Seq<char>,
    name: Seq<char>,
)
    requires
        args.get("torrents"@) == Some(JsonView::Array(torrents)),
        torrents.len() > 0,
        torrents[0].get("files"@) == Some(JsonView::Array(files)),
        0 <= at < files.len(),
        files[at].get("name"@) == Some(JsonView::Text(slashes + name)),
        forall|i: int| 0 <= i < slashes.len() ==> #[trigger] slashes[i] == '/',
        name.len() > 0,
        name[0] != '/',
    ensures
        import_plan_for(author, title, media_type, args) matches Ok(plan) ==> {
            &&& plan.names.contains(name)
            &&& plan.names.len() <= files.len()
            &&& (forall|i: int|
                0 <= i < files.len() ==> ((#[trigger] files[i]).get("name"@) matches Some(
                    JsonView::Text(_),
                ))) ==> plan.names.len() == files.len() && plan.names[at] == name
        },
{
    let pick = |f: JsonView| relative_name(f);
    trimming_takes_what_stands_around(slashes, name, Seq::empty(), CharClass::Just('/'));
    assert(pick(files[at]) == Some(name));
    lemma_picked(files, pick, files[at]);
    lemma_picked_at_most(files, pick);
    if forall|i: int|
        0 <= i < files.len() ==> ((#[trigger] files[i]).get("name"@) matches Some(
            JsonView::Text(_),
        )) {
        assert forall|i: int| 0 <= i < files.len() implies pick(#[trigger] files[i]) is Some by {
            assert(files[i].get("name"@) matches Some(JsonView::Text(_)));
        }
        lemma_all_picked(files, pick);
    }
}

/// There is nothing to import without a torrent or without files, and nowhere
/// to import it from without a directory: both are told as things that are not
/// found. A directory that cannot be seen is told as such. Otherwise there is a
/// plan, which reads from that directory.
pub proof fn plans_need_files_and_a_directory(
    author: Seq<char>,
    title: Seq<char>,
    media_type: Seq<char>,
    args: JsonView,
    torrents: Seq<JsonView>,
    files: Seq<JsonView>,
    dir: Seq<char>,
)
    requires
        args.get("torrents"@) == Some(JsonView::Array(torrents)),
    ensures
        ({
            let made = import_plan_for(author, title, media_type, args);
            let listed = torrents.len() > 0 && torrents[0].get("files"@) == Some(
                JsonView::Array(files),
            ) && files.len() > 0;
            &&& torrents.len() == 0 || !(torrents[0].get("files"@) matches Some(JsonView::Array(_)))
                || torrents[0].get("files"@) == Some(JsonView::Array(Seq::empty())) ==> (made matches Err(e) && e.status
                == Status::NotFound && e.detail == "No files found for torrent"@)
            &&& listed && !(torrents[0].get("downloadDir"@) matches Some(JsonView::Text(_))) ==> (
            made matches Err(e) && e.status == Status::NotFound && e.detail
                == "Torrent download directory not found"@)
            &&& listed && torrents[0].get("downloadDir"@) == Some(JsonView::Text(dir)) && blank(dir)
                ==> (made matches Err(e) && e.status == Status::NotFound && e.detail
                == "Torrent download directory not found"@)
            &&& listed && torrents[0].get("downloadDir"@) == Some(JsonView::Text(dir)) && !blank(
                dir,
            ) ==> (match visible_directory(dir) {
                Ok(source_dir) => made matches Ok(plan) && plan.source_dir == source_dir,
                Err(e) => made == Err::<ImportPlanView, _>(e),
            })
        }),
{
    lemma_trimmed(dir, CharClass::White);
    if blank(dir) {
        assert forall|i: int| 0 <= i < dir.len() implies CharClass::White.has(#[trigger] dir[i]) by {
            assert(is_whitespace(dir[i]));
        }
    } else if trimmed(dir).len() == 0 {
        assert forall|i: int| 0 <= i < dir.len() implies is_whitespace(#[trigger] dir[i]) by {
            assert(CharClass::White.has(dir[i]));
        }
    }
}

/// The downloads and every directory below them can be seen, and are kept as
/// they are reported but for the white space around them.
pub proof fn downloads_can_be_seen(front: Seq<char>, path: Seq<char>, back: Seq<char>)
    requires
        blank(front),
        blank(back),
        !climbs(path),
        path.len() > 0,
        path[0] != '/',
        !is_whitespace(path.last()),
    ensures
        visible_directory(front + "/downloads"@ + back) == Ok::<_, ErrorView>("/downloads"@),
        visible_directory(front + ("/downloads/"@ + path) + back) == Ok::<_, ErrorView>(
            "/downloads/"@ + path,
        ),
        visible_directory(front) == Ok::<_, ErrorView>(Seq::<char>::empty()),
{
    reveal_strlit("/downloads");
    reveal_strlit("/downloads/");
    reveal_strlit(".");
    let top = "/downloads"@;
    let name = top.skip(1);
    assert(top =~= seq!['/'] + name);
    assert(!name.contains('/'));
    assert("."@.len() == 1);
    lemma_root_directory(top, name);
    assert(!climbs(top)) by {
        reveal_strlit("..");
        assert(".."@.len() == 2);
        assert(steps(top)[0].len() == 9);
    }
    lemma_climbless_path(top);
    assert(lies_in(top, top));
    let whole = "/downloads/"@ + path;
    assert(joined_path(top, path) =~= whole);
    joined_path_lies_with_its_directory(top, path, top);
    assert(whole.subrange(0, 11) =~= "/downloads/"@);
    trimming_takes_what_stands_around(front, top, back, CharClass::White);
    trimming_takes_what_stands_around(front, whole, back, CharClass::White);
    assert(trimmed(front) =~= Seq::empty());
}

/// Nothing but the downloads and what lies below them can be seen, however the
/// path is written: other directories are refused as a bad request that names
/// them.
pub proof fn only_downloads_can_be_seen(front: Seq<char>, dir: Seq<char>, back: Seq<char>)
    requires
        blank(front),
        blank(back),
        dir.len() > 0,
        !is_whitespace(dir[0]),
        !is_whitespace(dir.last()),
    ensures
        visible_directory(front + dir + back) matches Ok(seen) ==> {
            &&& seen == dir
            &&& dir.take(10) == "/downloads"@
            &&& dir.len() == 10 || dir[10] == '/'
            &&& resolved(steps(dir)).len() > 0
            &&& seq!['/'] + resolved(steps(dir))[0] == "/downloads"@
        },
        visible_directory(front + dir + back) matches Err(e) ==> e.status == Status::BadRequest
            && contains_text(e.detail, dir),
{
    reveal_strlit("/downloads");
    reveal_strlit("/downloads/");
    trimming_takes_what_stands_around(front, dir, back, CharClass::White);
    if visible_directory(front + dir + back) is Ok {
        if dir == "/downloads"@ {
            assert(dir.take(10) =~= "/downloads"@);
        } else {
            assert(dir.subrange(0, 11) == "/downloads/"@);
            assert(dir.take(10) =~= "/downloads/"@.take(10));
            assert("/downloads/"@.take(10) =~= "/downloads"@);
            assert(dir[10] == dir.subrange(0, 11)[10]);
        }
    } else {
        texts_hold_what_they_are_made_of(
            "Transmission reports downloadDir '"@,
            dir,
            "', but this app expects completed downloads under /downloads. Mount the same downloads directory at /downloads in both containers."@,
        );
    }
}

/// A failure passes exactly if it is that of another server and its message
/// begins with the name of Transmission.
pub proof fn failures_of_transmission_pass(e: ErrorView, rest: Seq<char>)
    ensures
        e.status == Status::BadGateway && e.detail == "Transmission"@ + rest ==> is_transient(e),
        e.status != Status::BadGateway ==> !is_transient(e),
        is_transient(e) ==> e.detail.len() >= 12 && e.detail.take(12) == "Transmission"@,
{
    reveal_strlit("Transmission");
    assert(("Transmission"@ + rest).subrange(0, 12) =~= "Transmission"@);
    if is_transient(e) {
        assert(e.detail.take(12) =~= e.detail.subrange(0, 12));
    }
}

/// A file that is nothing below the directory that the files share is left
/// behind.
pub proof fn shared_directories_are_not_copied(
    plan: ImportPlanView,
    dest: Seq<char>,
    root: Seq<char>,
    slashes: Seq<char>,
)
    requires
        plan.names.len() != 1,
        root.len() > 0,
        common_root(plan.names) == root,
        forall|i: int| 0 <= i < slashes.len() ==> #[trigger] slashes[i] == '/',
    ensures
        copy_of_file(plan, dest, root.push('/') + slashes) is None,
        place_for(plan, root.push('/') + slashes).len() == 0,
{
    reveal_strlit("/");
    assert("/"@ =~= seq!['/']);
    let name = root.push('/') + slashes;
    let front = root + "/"@;
    assert(front =~= root.push('/'));
    assert(name.subrange(0, front.len() as int) =~= front);
    assert(name.skip(root.len() as int + 1) =~= slashes);
    trimming_takes_what_stands_around(slashes, Seq::empty(), Seq::empty(), CharClass::Just('/'));
}

/// A name that leads up is no reason to leave a file behind: what is read from
/// below the downloads and put below the library is copied all the same, to
/// where its path leads once every step up is taken.
pub proof fn files_are_copied_to_where_their_path_leads(
    plan: ImportPlanView,
    dest: Seq<char>,
    front: Seq<char>,
    last: Seq<char>,
)
    requires
        plan.source_dir.len() > 0,
        plan.names.contains(front + last),
        front.len() == 0 || front.last() == '/',
        !is_absolute(front + last),
        !last.contains('/'),
        last.len() > 0,
        last != seq!['.'],
        !ends_in_cue(last),
        plan.names.len() == 1 || place_for(plan, front + last).len() > 0,
        lies_below(joined_path(plan.source_dir, front + last), "/downloads"@),
        lies_below(joined_path(dest, place_for(plan, front + last)), plan.library),
    ensures
        copy_of_file(plan, dest, front + last) matches Some(copy) && {
            &&& copy.from == joined_path(plan.source_dir, front + last)
            &&& !climbs(copy.to)
            &&& steps(copy.to) == resolved(
                steps(joined_path(dest, place_for(plan, front + last))),
            )
            &&& copies_for(plan, dest) matches Ok(copies) && copies.contains(copy)
        },
{
    let base = lemma_joined_end(plan.source_dir, front, last);
    cue_sheets_end_in_cue(base, last);
    settled_path_leads_to_the_same_place(joined_path(dest, place_for(plan, front + last)));
    files_are_copied(plan, dest, front + last);
}

/// What is not read from below the downloads, or would not be put below the
/// library, is left behind.
pub proof fn nothing_is_copied_from_or_to_elsewhere(
    plan: ImportPlanView,
    dest: Seq<char>,
    name: Seq<char>,
)
    requires
        !lies_below(joined_path(plan.source_dir, name), "/downloads"@) || !lies_below(
            joined_path(dest, place_for(plan, name)),
            plan.library,
        ),
    ensures
        copy_of_file(plan, dest, name) is None,
{
}

/// An answer that lists no torrents, or whose first one has no list of files or
/// no text for its directory, gives nothing to import.
pub proof fn answers_without_files_give_no_plan(
    author: Seq<char>,
    title: Seq<char>,
    media_type: Seq<char>,
    args: JsonView,
)
    ensures
        import_plan_for(author, title, media_type, args) is Ok ==> (args.get("torrents"@) matches
            Some(JsonView::Array(torrents)) && torrents.len() > 0 && (torrents[0].get("files"@)
            matches Some(JsonView::Array(files)) && files.len() > 0) && (torrents[0].get(
            "downloadDir"@,
        ) matches Some(JsonView::Text(_)))),
        !(args.get("torrents"@) matches Some(JsonView::Array(_))) ==> (import_plan_for(
            author,
            title,
            media_type,
            args,
        ) matches Err(e) && e.status == Status::NotFound && e.detail
            == "No files found for torrent"@),
{
}

/// Files that lie in no directory at all go by their own names.
pub proof fn files_without_directories_keep_their_names(plan: ImportPlanView, name: Seq<char>)
    requires
        plan.names.len() != 1,
        forall|i: int| 0 <= i < plan.names.len() ==> !(#[trigger] plan.names[i]).contains('/'),
    ensures
        place_for(plan, name) == name,
{
    let pick = |n: Seq<char>| top_of(n);
    let names = plan.names;
    assert forall|i: int| 0 <= i < names.len() implies pick(#[trigger] names[i]) is None by {
        cuts_are_at_the_first(names[i], '/', Seq::empty());
    }
    lemma_first_picked(names, pick, names.len() as int);
}

/// A directory below the downloads can be seen also where its path leads up on
/// the way, as long as it leads back there.
pub proof fn downloads_can_be_seen_by_any_path(front: Seq<char>, rest: Seq<char>, back: Seq<char>)
    requires
        blank(front),
        blank(back),
        rest.len() > 0,
        !is_whitespace(rest.last()),
        resolved(steps("/downloads/"@ + rest)).len() > 0,
        seq!['/'] + resolved(steps("/downloads/"@ + rest))[0] == "/downloads"@,
    ensures
        visible_directory(front + ("/downloads/"@ + rest) + back) == Ok::<_, ErrorView>(
            "/downloads/"@ + rest,
        ),
{
    reveal_strlit("/downloads/");
    let whole = "/downloads/"@ + rest;
    assert(whole.subrange(0, 11) =~= "/downloads/"@);
    assert(whole[0] == '/');
    trimming_takes_what_stands_around(front, whole, back, CharClass::White);
}

}
