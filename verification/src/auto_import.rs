//! Imports that are done by hand or by themselves, and what the history says
//! of them.
use crate::error::{bad_gateway, result_view, AppError, ErrorView, Status};
use crate::history::{
    candidates, changed, failed_change, get_auto_import_candidates, get_history_media_type,
    imported_change, is_settled, is_waiting, mark_history_failed, mark_history_imported, row_views,
    status_change, stored_media_type, update_history_status, HistoryChange, HistoryChangeView,
    HistoryItem, HistoryItemView,
};
use crate::import::{
    import_plan_for, import_request_for, is_transient, is_transient_auto_import_error,
    request_import, ImportPlanView, ImportRequest, ImportRequestView,
};
use crate::json::{opt_view, JsonView};
use crate::names::{kept_detail, nothing_is_kept_of_nothing};
use crate::outside::status_line;
use crate::text::{
    begins_with, blank, first_chars, is_whitespace, lemma_trimmed, trim, trimmed, views, CharClass,
};
use crate::transmission::{
    call_outcome, next_step, refusal, unreadable, CompletedTorrent, RpcReply, RpcState,
    RpcStepView,
};
use crate::words::{is_media_type, media_type_of, normalize_media_type};
use vstd::prelude::*;
use vstd::string::*;

verus! {

broadcast use vstd::string::group_string_axioms;

// ---------------------------------------------------------------------------
// Imports that are done by themselves
// ---------------------------------------------------------------------------

/// What a row of the history tells of an import.
#[derive(Debug)]
pub struct ImportJob {
    pub history_id: i64,
    pub torrent_hash: String,
    pub author: String,
    pub title: String,
    pub media_type: String,
}

/// The model of what a row tells of an import.
pub struct ImportJobView {
    pub history_id: i64,
    pub torrent_hash: Seq<char>,
    pub author: Seq<char>,
    pub title: Seq<char>,
    pub media_type: Seq<char>,
}

impl View for ImportJob {
    type V = ImportJobView;

    open spec fn view(&self) -> ImportJobView {
        ImportJobView {
            history_id: self.history_id,
            torrent_hash: self.torrent_hash@,
            author: self.author@,
            title: self.title@,
            media_type: self.media_type@,
        }
    }
}

/// What to do about a row that is waiting.
#[derive(Debug)]
pub enum RowPlan {
    /// Import its torrent.
    Import(ImportJob),
    /// Mark it as failed for this reason.
    Fail { history_id: i64, torrent_hash: String, detail: String },
}

/// The model of what to do about a row.
pub enum RowPlanView {
    Import(ImportJobView),
    Fail { history_id: i64, torrent_hash: Seq<char>, detail: Seq<char> },
}

impl View for RowPlan {
    type V = RowPlanView;

    open spec fn view(&self) -> RowPlanView {
        match self {
            RowPlan::Import(job) => RowPlanView::Import(job@),
            RowPlan::Fail { history_id, torrent_hash, detail } => RowPlanView::Fail {
                history_id: *history_id,
                torrent_hash: torrent_hash@,
                detail: detail@,
            },
        }
    }
}

/// The models of what to do about some rows.
pub open spec fn plan_views(plans: Seq<RowPlan>) -> Seq<RowPlanView> {
    plans.map_values(|p: RowPlan| p@)
}

/// The text of a column; empty where it is not set.
pub open spec fn column(value: Option<Seq<char>>) -> Seq<char> {
    match value {
        Some(s) => s,
        None => Seq::empty(),
    }
}

/// What to do about a row: it can be imported where its media type is known
/// and it has an author and a title.
pub open spec fn row_plan(row: HistoryItemView) -> RowPlanView {
    match media_type_of(row.media_type) {
        Ok(media_type) => if trimmed(column(row.author)).len() == 0 || trimmed(
            column(row.title),
        ).len() == 0 {
            RowPlanView::Fail {
                history_id: row.id,
                torrent_hash: column(row.torrent_hash),
                detail: "History row is missing author/title; use manual import."@,
            }
        } else {
            RowPlanView::Import(
                ImportJobView {
                    history_id: row.id,
                    torrent_hash: column(row.torrent_hash),
                    author: column(row.author),
                    title: column(row.title),
                    media_type,
                },
            )
        },
        Err(e) => RowPlanView::Fail {
            history_id: row.id,
            torrent_hash: column(row.torrent_hash),
            detail: e.detail,
        },
    }
}

/// The hashes of some torrents.
pub open spec fn hashes_of(torrents: Seq<CompletedTorrent>) -> Seq<Seq<char>> {
    torrents.map_values(|t: CompletedTorrent| t.hash@)
}

/// What to do about the rows that are waiting, in the order of the history.
pub open spec fn cycle_plans(rows: Seq<HistoryItemView>, completed: Seq<Seq<char>>) -> Seq<
    RowPlanView,
> {
    candidates(rows, completed).map_values(|row: HistoryItemView| row_plan(row))
}

/// The text of the column.
fn read_column(value: &Option<String>) -> (r: String)
    ensures
        r@ == column(opt_view(*value)),
{
    match value {
        Some(s) => s.clone(),
        None => String::new(),
    }
}

/// What to do about the row.
pub fn plan_row(row: &HistoryItem) -> (r: RowPlan)
    ensures
        r@ == row_plan(row@),
        r@ matches RowPlanView::Import(job) ==> (row@.media_type matches Some(named)
            ==> is_media_type(named) ==> job.media_type == named),
        r@ matches RowPlanView::Import(job) ==> (row@.media_type is None ==> job.media_type
            == "audiobook"@),
{
    let torrent_hash = read_column(&row.torrent_hash);
    let author = read_column(&row.author);
    let title = read_column(&row.title);
    let named = match &row.media_type {
        Some(s) => normalize_media_type(Some(s.as_str())),
        None => normalize_media_type(None),
    };
    match named {
        Ok(media_type) => if trim(&author).as_str().is_empty() || trim(
            &title,
        ).as_str().is_empty() {
            RowPlan::Fail {
                history_id: row.id,
                torrent_hash,
                detail: "History row is missing author/title; use manual import.".to_owned(),
            }
        } else {
            RowPlan::Import(
                ImportJob { history_id: row.id, torrent_hash, author, title, media_type },
            )
        },
        Err(e) => RowPlan::Fail { history_id: row.id, torrent_hash, detail: e.detail },
    }
}

/// What to do about the rows that are waiting, given the finished torrents.
pub fn auto_import_cycle(completed: &Vec<CompletedTorrent>, rows: &Vec<HistoryItem>) -> (r: Vec<
    RowPlan,
>)
    ensures
        plan_views(r@) == cycle_plans(row_views(rows@), hashes_of(completed@)),
{
    let mut hashes: Vec<String> = Vec::new();
    let mut i: usize = 0;
    while i < completed.len()
        invariant
            i <= completed@.len(),
            views(hashes@) =~= hashes_of(completed@).take(i as int),
        decreases completed@.len() - i,
    {
        let ghost before = hashes@;
        let hash = completed[i].hash.clone();
        hashes.push(hash);
        assert(views(hashes@) =~= views(before).push(hash@));
        i += 1;
    }
    assert(views(hashes@) =~= hashes_of(completed@));
    let waiting = get_auto_import_candidates(rows, &hashes);
    let ghost wanted = cycle_plans(row_views(rows@), hashes_of(completed@));
    let mut plans: Vec<RowPlan> = Vec::new();
    let mut k: usize = 0;
    assert(row_views(waiting@).len() == waiting@.len());
    while k < waiting.len()
        invariant
            k <= waiting@.len(),
            wanted == row_views(waiting@).map_values(|row: HistoryItemView| row_plan(row)),
            plan_views(plans@) =~= wanted.take(k as int),
        decreases waiting@.len() - k,
    {
        let ghost before = plans@;
        let plan = plan_row(&waiting[k]);
        plans.push(plan);
        assert(plan_views(plans@) =~= plan_views(before).push(plan@));
        k += 1;
    }
    assert(plan_views(plans@) =~= wanted);
    plans
}

/// How an import ended.
#[derive(Debug)]
pub enum ImportOutcome {
    /// The files are in this directory.
    Imported(String),
    Failed(AppError),
}

/// The change when the import of a row begins.
pub open spec fn begun(job: ImportJobView, now: Seq<char>) -> HistoryChangeView {
    status_change(job.history_id, "importing"@, None, None, now)
}

/// The change when the import of a row has ended: where Transmission could not
/// be asked the row goes back to where it was.
pub open spec fn ended(job: ImportJobView, outcome: ImportOutcome, now: Seq<char>) -> HistoryChangeView {
    match outcome {
        ImportOutcome::Imported(_) => imported_change(Some(job.history_id), job.torrent_hash, now),
        ImportOutcome::Failed(e) => if is_transient(e@) {
            status_change(job.history_id, "added"@, None, None, now)
        } else {
            failed_change(Some(job.history_id), job.torrent_hash, e@.detail, now)
        },
    }
}

/// The change when the import of the row begins.
pub fn begin_job(job: &ImportJob, now: &str) -> (r: HistoryChange)
    ensures
        r@ == begun(job@, now@),
{
    update_history_status(job.history_id, "importing", None, None, now)
}

/// The change when the import of the row has ended.
pub fn end_job(job: &ImportJob, outcome: &ImportOutcome, now: &str) -> (r: HistoryChange)
    ensures
        r@ == ended(job@, *outcome, now@),
{
    match outcome {
        ImportOutcome::Imported(_) => mark_history_imported(
            Some(job.history_id),
            &job.torrent_hash,
            now,
        ),
        ImportOutcome::Failed(e) => if is_transient_auto_import_error(e) {
            update_history_status(job.history_id, "added", None, None, now)
        } else {
            mark_history_failed(Some(job.history_id), &job.torrent_hash, &e.detail, now)
        },
    }
}

// ---------------------------------------------------------------------------
// Imports by hand
// ---------------------------------------------------------------------------

/// The import that the user asks for.
#[derive(Debug)]
pub struct ImportBody {
    pub author: String,
    pub title: String,
    pub hash: String,
    pub history_id: Option<i64>,
    pub media_type: Option<String>,
}

/// The media type of an import by hand: that of its row in the history where
/// there is one, and else the one asked for.
pub open spec fn item_media_type(stored: Option<Seq<char>>, asked_for: Option<Seq<char>>) -> Result<
    Seq<char>,
    ErrorView,
> {
    match stored_media_type(stored) {
        Ok(Some(media_type)) => Ok(media_type),
        Ok(None) => media_type_of(asked_for),
        Err(e) => Err(e),
    }
}

/// The change when an import by hand begins, where it has a row.
pub open spec fn item_begun(history_id: Option<i64>, now: Seq<char>) -> Option<HistoryChangeView> {
    match history_id {
        Some(id) => Some(status_change(id, "importing"@, None, None, now)),
        None => None,
    }
}

/// The change when an import by hand has ended. A failure is recorded where
/// the import has a row.
pub open spec fn item_ended(
    history_id: Option<i64>,
    hash: Seq<char>,
    outcome: ImportOutcome,
    now: Seq<char>,
) -> Option<HistoryChangeView> {
    match outcome {
        ImportOutcome::Imported(_) => Some(imported_change(history_id, hash, now)),
        ImportOutcome::Failed(e) => match history_id {
            Some(id) => Some(failed_change(Some(id), hash, e@.detail, now)),
            None => None,
        },
    }
}

/// The change when the import by hand begins.
pub fn begin_item(body: &ImportBody, now: &str) -> (r: Option<HistoryChange>)
    ensures
        opt_view(r) == item_begun(body.history_id, now@),
{
    match body.history_id {
        Some(id) => Some(update_history_status(id, "importing", None, None, now)),
        None => None,
    }
}

/// What is to be imported by hand, given the media type that its row has.
pub fn import_item(body: &ImportBody, stored: Option<&str>) -> (r: Result<ImportRequest, AppError>)
    ensures
        match item_media_type(opt_view(stored), opt_view(body.media_type)) {
            Ok(media_type) => {
                &&& result_view(r) == import_request_for(
                    body.author@,
                    body.title@,
                    body.hash@,
                    media_type,
                )
                &&& r matches Ok(request) && request@.media_type == media_type
            },
            Err(e) => result_view(r) == Err::<ImportRequestView, _>(e),
        },
{
    let named = match get_history_media_type(stored) {
        Ok(Some(media_type)) => Ok(media_type),
        Ok(None) => match &body.media_type {
            Some(s) => normalize_media_type(Some(s.as_str())),
            None => normalize_media_type(None),
        },
        Err(e) => Err(e),
    };
    match named {
        Ok(media_type) => request_import(&body.author, &body.title, &body.hash, &media_type),
        Err(e) => Err(e),
    }
}

/// The change when the import by hand has ended.
pub fn end_item(body: &ImportBody, outcome: &ImportOutcome, now: &str) -> (r: Option<HistoryChange>)
    ensures
        opt_view(r) == item_ended(body.history_id, body.hash@, *outcome, now@),
{
    match outcome {
        ImportOutcome::Imported(_) => Some(
            mark_history_imported(body.history_id, &body.hash, now),
        ),
        ImportOutcome::Failed(e) => match body.history_id {
            Some(id) => Some(mark_history_failed(Some(id), &body.hash, &e.detail, now)),
            None => None,
        },
    }
}

// ---------------------------------------------------------------------------
// The task that imports by itself
// ---------------------------------------------------------------------------

/// The task that imports by itself.
#[derive(Clone, Copy, Debug, PartialEq, Eq, Structural)]
pub enum Task {
    /// There is none.
    Absent,
    Running,
    /// It has come to its end.
    Ended,
}

/// What to do about the task.
#[derive(Clone, Copy, Debug, PartialEq, Eq, Structural)]
pub struct TaskChange {
    /// Stop the task that there is.
    pub stop: bool,
    /// Then start another one.
    pub start: bool,
}

/// What to do about the task, given whether imports are to be done by
/// themselves.
pub open spec fn task_change(enabled: bool, task: Task) -> TaskChange {
    TaskChange {
        stop: if enabled {
            task == Task::Ended
        } else {
            task != Task::Absent
        },
        start: enabled && task != Task::Running,
    }
}

/// What to do about the task.
pub fn reconcile_auto_import_task(enabled: bool, task: Task) -> (r: TaskChange)
    ensures
        r == task_change(enabled, task),
{
    if enabled {
        match task {
            Task::Running => TaskChange { stop: false, start: false },
            Task::Absent => TaskChange { stop: false, start: true },
            Task::Ended => TaskChange { stop: true, start: true },
        }
    } else {
        match task {
            Task::Absent => TaskChange { stop: false, start: false },
            _ => TaskChange { stop: true, start: false },
        }
    }
}

/// How long the task waits after another round, in seconds; nothing where it
/// is to come to its end.
pub open spec fn wait_after_round(enabled: bool, poll_interval: u64) -> Option<u64> {
    if enabled {
        Some(poll_interval)
    } else {
        None
    }
}

/// How long the task waits after another round.
pub fn next_round(enabled: bool, poll_interval: u64) -> (r: Option<u64>)
    ensures
        r == wait_after_round(enabled, poll_interval),
{
    if enabled {
        Some(poll_interval)
    } else {
        None
    }
}

// ---------------------------------------------------------------------------
// Laws
// ---------------------------------------------------------------------------

/// A task runs afterwards if and only if imports are to be done by themselves,
/// and one that runs is not started a second time.
pub proof fn task_runs_when_enabled(enabled: bool, task: Task)
    ensures
        ({
            let change = task_change(enabled, task);
            let kept = task == Task::Running && !change.stop;
            &&& (kept || change.start) == enabled
            &&& !(kept && change.start)
        }),
{
}

/// A row is not taken up again while its import is under way. Once that has
/// ended it is taken up again if and only if Transmission could not be asked.
pub proof fn imports_are_tried_again_after_transient_failures(
    row: HistoryItemView,
    completed: Seq<Seq<char>>,
    outcome: ImportOutcome,
    now: Seq<char>,
    later: Seq<char>,
)
    requires
        is_waiting(row, completed),
        row_plan(row) is Import,
    ensures
        ({
            let job = row_plan(row)->Import_0;
            let during = changed(row, begun(job, now));
            let after = changed(during, ended(job, outcome, later));
            &&& !is_waiting(during, completed)
            &&& is_waiting(after, completed) <==> (outcome matches ImportOutcome::Failed(e)
                && is_transient(e@))
            &&& outcome is Imported ==> after.imported_at == Some(later)
            &&& outcome is Failed ==> after.imported_at == row.imported_at
        }),
{
    reveal_strlit("added");
    reveal_strlit("imported");
    reveal_strlit("import_failed");
    reveal_strlit("importing");
    assert("added"@.len() == 5 && "imported"@.len() == 8 && "import_failed"@.len() == 13
        && "importing"@.len() == 9);
    assert(!is_settled("added"@));
}

/// Whatever goes wrong in a call of Transmission is a failure that passes, so
/// that the import it was made for is tried again.
pub proof fn failed_calls_are_transient(
    state: RpcState,
    reply: RpcReply,
    status: u16,
    body: Seq<char>,
    reason: Seq<char>,
    method: Seq<char>,
    data: JsonView,
    result_text: Option<Seq<char>>,
)
    ensures
        next_step(state, reply) matches RpcStepView::Fail(e) ==> is_transient(e),
        is_transient(refusal(status, body)),
        is_transient(bad_gateway("Transmission returned non-JSON: "@ + reason)),
        call_outcome(method, data, result_text) matches Err(e) ==> is_transient(e),
{
    if let RpcReply::Unreachable(why) = reply {
        lemma_said_by_transmission("Transmission RPC failed: "@, why@);
    }
    let rest = status_line(status) + " "@ + first_chars(body, 160);
    lemma_said_by_transmission("Transmission RPC failed: "@, rest);
    assert(refusal(status, body).detail =~= "Transmission RPC failed: "@ + rest);
    lemma_said_by_transmission("Transmission returned non-JSON: "@, reason);
    let said = match result_text {
        Some(text) => text,
        None => "unknown"@,
    };
    let tail = method + " failed: "@ + said;
    lemma_said_by_transmission("Transmission "@, tail);
    assert("Transmission "@ + method + " failed: "@ + said =~= "Transmission "@ + tail);
}

/// What begins with one of the headings begins with the name of Transmission.
proof fn lemma_said_by_transmission(heading: Seq<char>, rest: Seq<char>)
    requires
        heading == "Transmission RPC failed: "@ || heading == "Transmission returned non-JSON: "@
            || heading == "Transmission "@,
    ensures
        begins_with(heading + rest, "Transmission"@),
{
    reveal_strlit("Transmission");
    reveal_strlit("Transmission RPC failed: ");
    reveal_strlit("Transmission returned non-JSON: ");
    reveal_strlit("Transmission ");
    assert((heading + rest).subrange(0, 12) =~= "Transmission"@);
}

/// A row is imported under the media type that was recorded in it, and under
/// no other: one that names no media type is not imported at all.
pub proof fn rows_are_imported_under_their_media_type(row: HistoryItemView)
    ensures
        row_plan(row) matches RowPlanView::Import(job) ==> media_type_of(row.media_type) == Ok::<
            _,
            ErrorView,
        >(job.media_type),
        row_plan(row) matches RowPlanView::Import(job) ==> job.media_type == "audiobook"@
            || job.media_type == "ebook"@,
        media_type_of(row.media_type) matches Err(e) ==> (row_plan(row) matches RowPlanView::Fail {
            detail,
            ..
        } && detail == e.detail),
{
}

/// A row is imported into the library of its media type: an ebook among the
/// ebooks, and an audiobook among the audiobooks.
pub proof fn rows_are_imported_into_the_library_of_their_media_type(
    row: HistoryItemView,
    job: ImportJobView,
    request: ImportRequestView,
    args: JsonView,
    plan: ImportPlanView,
)
    requires
        row_plan(row) == RowPlanView::Import(job),
        import_request_for(job.author, job.title, job.torrent_hash, job.media_type) == Ok::<
            _,
            ErrorView,
        >(request),
        request.media_type == job.media_type,
        import_plan_for(request.author, request.title, request.media_type, args) == Ok::<
            _,
            ErrorView,
        >(plan),
    ensures
        media_type_of(row.media_type) == Ok::<_, ErrorView>("ebook"@) ==> plan.library
            == "/ebooks"@,
        media_type_of(row.media_type) == Ok::<_, ErrorView>("audiobook"@) ==> plan.library
            == "/library"@,
{
    reveal_strlit("audiobook");
    reveal_strlit("ebook");
    assert("audiobook"@.len() == 9 && "ebook"@.len() == 5);
}

/// What is imported of a row is what was recorded in it: its number, its hash,
/// its author and its title, each as it stands.
pub proof fn rows_are_imported_as_they_were_recorded(row: HistoryItemView)
    ensures
        row_plan(row) matches RowPlanView::Import(job) ==> {
            &&& job.history_id == row.id
            &&& row.author == Some(job.author)
            &&& row.title == Some(job.title)
            &&& row.torrent_hash matches Some(hash) ==> job.torrent_hash == hash
            &&& row.torrent_hash is None ==> job.torrent_hash.len() == 0
        },
        row_plan(row) matches RowPlanView::Fail { history_id, torrent_hash, .. } ==> {
            &&& history_id == row.id
            &&& row.torrent_hash matches Some(hash) ==> torrent_hash == hash
            &&& row.torrent_hash is None ==> torrent_hash.len() == 0
        },
{
    lemma_trimmed(Seq::empty(), CharClass::White);
}

/// A row whose media type is known is imported exactly if both its author and
/// its title say something; a row where one of them is missing or blank is
/// left to be imported by hand.
pub proof fn rows_need_an_author_and_a_title(row: HistoryItemView)
    requires
        media_type_of(row.media_type) is Ok,
    ensures
        row_plan(row) is Import <==> (row.author matches Some(author) && !blank(author)) && (
        row.title matches Some(title) && !blank(title)),
        row_plan(row) matches RowPlanView::Fail { detail, .. } ==> detail
            == "History row is missing author/title; use manual import."@,
{
    lemma_blank(column(row.author));
    lemma_blank(column(row.title));
}

/// Nothing is left of a text exactly if it is blank.
proof fn lemma_blank(text: Seq<char>)
    ensures
        trimmed(text).len() == 0 <==> blank(text),
{
    lemma_trimmed(text, CharClass::White);
    if blank(text) {
        assert forall|i: int| 0 <= i < text.len() implies CharClass::White.has(
            #[trigger] text[i],
        ) by {
            assert(is_whitespace(text[i]));
        }
    }
    if trimmed(text).len() == 0 {
        assert forall|i: int| 0 <= i < text.len() implies is_whitespace(#[trigger] text[i]) by {
            assert(CharClass::White.has(text[i]));
        }
    }
}

/// Every candidate gets a plan of its own, in the order of the history.
pub proof fn every_candidate_gets_a_plan(
    rows: Seq<HistoryItemView>,
    completed: Seq<Seq<char>>,
    i: int,
)
    requires
        0 <= i < candidates(rows, completed).len(),
    ensures
        cycle_plans(rows, completed).len() == candidates(rows, completed).len(),
        cycle_plans(rows, completed)[i] == row_plan(candidates(rows, completed)[i]),
{
}

/// While a row is imported it is marked as such. In the end it is marked as
/// imported, as failed for the reason it failed for, or, where that passes, as
/// added. No other row is touched.
pub proof fn rows_tell_how_their_import_goes(
    row: HistoryItemView,
    job: ImportJobView,
    dir: String,
    e: AppError,
    now: Seq<char>,
)
    ensures
        ({
            let during = changed(row, begun(job, now));
            let done = changed(row, ended(job, ImportOutcome::Imported(dir), now));
            let failed = changed(row, ended(job, ImportOutcome::Failed(e), now));
            let passes = e@.status == Status::BadGateway && begins_with(
                e@.detail,
                "Transmission"@,
            );
            &&& row.id != job.history_id ==> during == row && done == row && failed == row
            &&& row.id == job.history_id ==> {
                &&& during.torrent_status == Some("importing"@)
                &&& during.status_detail is None
                &&& during.status_updated_at == Some(now)
                &&& during.imported_at == row.imported_at
                &&& done.torrent_status == Some("imported"@)
                &&& done.status_detail is None
                &&& done.status_updated_at == Some(now)
                &&& done.imported_at == Some(now)
                &&& passes ==> failed.torrent_status == Some("added"@) && failed.status_detail
                    is None
                &&& !passes ==> failed.torrent_status == Some("import_failed"@)
                    && failed.status_detail == kept_detail(Some(e@.detail))
                &&& failed.status_updated_at == Some(now)
                &&& failed.imported_at == row.imported_at
            }
        }),
{
    nothing_is_kept_of_nothing();
}

/// An import by hand is of the media type that its row has, whatever was asked
/// for; only without a row is it of the one asked for.
pub proof fn imports_by_hand_keep_the_media_type_of_their_row(
    stored: Seq<char>,
    asked_for: Option<Seq<char>>,
)
    ensures
        item_media_type(Some(stored), asked_for) == media_type_of(Some(stored)),
        item_media_type(None, asked_for) == media_type_of(asked_for),
{
}

/// An import by hand that has a row is recorded in that row alone: as under
/// way, as done, or as failed for its reason. Without a row its beginning and
/// its failure are not recorded, and its success is recorded in the rows of its
/// torrent.
pub proof fn imports_by_hand_are_recorded(
    row: HistoryItemView,
    id: i64,
    hash: Seq<char>,
    dir: String,
    e: AppError,
    now: Seq<char>,
)
    ensures
        ({
            let begins = item_begun(Some(id), now);
            let done = item_ended(Some(id), hash, ImportOutcome::Imported(dir), now);
            let failed = item_ended(Some(id), hash, ImportOutcome::Failed(e), now);
            let alone = item_ended(None, hash, ImportOutcome::Imported(dir), now);
            &&& begins is Some && done is Some && failed is Some && alone is Some
            &&& item_begun(None, now) is None
            &&& item_ended(None, hash, ImportOutcome::Failed(e), now) is None
            &&& row.id != id ==> changed(row, begins->0) == row && changed(row, done->0) == row
                && changed(row, failed->0) == row
            &&& row.id == id ==> {
                &&& changed(row, begins->0).torrent_status == Some("importing"@)
                &&& changed(row, begins->0).status_detail is None
                &&& changed(row, begins->0).imported_at == row.imported_at
                &&& changed(row, done->0).torrent_status == Some("imported"@)
                &&& changed(row, done->0).imported_at == Some(now)
                &&& changed(row, failed->0).torrent_status == Some("import_failed"@)
                &&& changed(row, failed->0).status_detail == kept_detail(Some(e@.detail))
                &&& changed(row, failed->0).imported_at == row.imported_at
            }
            &&& row.torrent_hash == Some(hash) ==> changed(row, alone->0).torrent_status == Some(
                "imported"@,
            ) && changed(row, alone->0).imported_at == Some(now)
            &&& row.torrent_hash != Some(hash) ==> changed(row, alone->0) == row
        }),
{
    nothing_is_kept_of_nothing();
}

/// After a round the task waits as long as is set while it is enabled, and
/// comes to its end once it is not.
pub proof fn rounds_go_on_while_enabled(poll_interval: u64)
    ensures
        wait_after_round(true, poll_interval) == Some(poll_interval),
        wait_after_round(false, poll_interval) is None,
{
}

/// Whatever is wrong with an answer of Transmission passes too.
pub proof fn unreadable_answers_are_transient(reason: Seq<char>)
    ensures
        is_transient(unreadable(reason)),
{
    lemma_said_by_transmission("Transmission returned non-JSON: "@, reason);
}

/// A task that is there is stopped exactly if there is to be none or it has
/// come to its end, and one is started exactly if there is to be one and none
/// runs.
pub proof fn tasks_are_stopped_and_started(enabled: bool, task: Task)
    ensures
        task_change(enabled, task).stop <==> task != Task::Absent && (!enabled || task
            == Task::Ended),
        task_change(enabled, task).start <==> enabled && task != Task::Running,
{
}

}
