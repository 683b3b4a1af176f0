//! Bulk file operations run as jobs: the operations, the states a job goes through, what
//! its summary counts and what a status report holds.
//!
//! The file system work of each operation, the worker thread and the locking happen at
//! the caller, which hands each outcome to the job.

use vstd::prelude::*;

use crate::configuration::{is_workspace_relative_path, workspace_relative};
use crate::errors::{
    copy_tool_error, is_error, tool_error_copied, tool_error_of, AlfredError, ErrorKind, ToolError,
};
use crate::json::{copy_json, json_mapped, same_text, JsonValue};
use crate::path_encoding::{normalize_inbound_separators, normalized_separators};
use crate::text::{
    chars_of, concat2, decimal_chars, decimal_string, join_range, join_with, lemma_parse_decimal,
    split_chars, split_on, str_eq, string_of, trim_spec, trim_str, views_of,
};

verus! {

broadcast use vstd::string::group_string_axioms;

/// One operation of a bulk request.
#[derive(Debug)]
pub enum FsBulkOperation {
    Move { from: String, to: String, overwrite: bool, create_parents: bool },
    Copy { from: String, to: String, overwrite: bool, create_parents: bool },
    Delete { path: String, recursive: bool },
}

/// The state of a bulk job.
#[derive(Debug, Clone, Copy, PartialEq, Eq, Structural)]
pub enum FsBulkState {
    Queued,
    Running,
    Succeeded,
    Failed,
    Canceled,
    Partial,
}

/// How many operations a job has, and how many of them succeeded or failed so far.
#[derive(Debug, Clone, Copy, PartialEq, Eq, Structural)]
pub struct FsBulkSummary {
    pub total: usize,
    pub completed: usize,
    pub failed: usize,
}

/// The outcome of one operation of a bulk job.
#[derive(Debug)]
pub struct FsBulkItem {
    pub index: usize,
    pub kind: String,
    pub from: Option<String>,
    pub to: Option<String>,
    pub path: Option<String>,
    pub succeeded: bool,
    pub result: Option<JsonValue>,
    pub error: Option<ToolError>,
}

/// A status report of a bulk job.
#[derive(Debug)]
pub struct FsBulkStatus {
    pub operation_id: String,
    pub state: FsBulkState,
    pub summary: FsBulkSummary,
    pub items: Option<Vec<FsBulkItem>>,
}

/// The text of an optional string.
pub open spec fn opt_chars(s: Option<String>) -> Option<Seq<char>> {
    match s {
        Some(t) => Some(t@),
        None => None,
    }
}

/// The kind name of an operation.
pub open spec fn operation_kind(op: FsBulkOperation) -> Seq<char> {
    match op {
        FsBulkOperation::Move { .. } => "move"@,
        FsBulkOperation::Copy { .. } => "copy"@,
        FsBulkOperation::Delete { .. } => "delete"@,
    }
}

/// The source of a move or copy.
pub open spec fn operation_from(op: FsBulkOperation) -> Option<Seq<char>> {
    match op {
        FsBulkOperation::Move { from, .. } => Some(from@),
        FsBulkOperation::Copy { from, .. } => Some(from@),
        FsBulkOperation::Delete { .. } => None,
    }
}

/// The destination of a move or copy.
pub open spec fn operation_to(op: FsBulkOperation) -> Option<Seq<char>> {
    match op {
        FsBulkOperation::Move { to, .. } => Some(to@),
        FsBulkOperation::Copy { to, .. } => Some(to@),
        FsBulkOperation::Delete { .. } => None,
    }
}

/// The target of a delete.
pub open spec fn operation_path(op: FsBulkOperation) -> Option<Seq<char>> {
    match op {
        FsBulkOperation::Delete { path, .. } => Some(path@),
        _ => None,
    }
}

/// `item` records operation `op` at position `index` with outcome `result`.
pub open spec fn item_records(
    item: FsBulkItem,
    index: usize,
    op: FsBulkOperation,
    result: Result<JsonValue, AlfredError>,
) -> bool {
    &&& item.index == index
    &&& item.kind@ == operation_kind(op)
    &&& opt_chars(item.from) == operation_from(op)
    &&& opt_chars(item.to) == operation_to(op)
    &&& opt_chars(item.path) == operation_path(op)
    &&& match result {
        Ok(v) => item.succeeded && item.result == Some(v) && item.error is None,
        Err(e) => !item.succeeded && item.result is None && item.error == Some(tool_error_of(e)),
    }
}

/// `b` is a copy of `a`.
pub open spec fn item_copied(a: FsBulkItem, b: FsBulkItem) -> bool {
    &&& b.index == a.index
    &&& b.kind@ == a.kind@
    &&& opt_chars(b.from) == opt_chars(a.from)
    &&& opt_chars(b.to) == opt_chars(a.to)
    &&& opt_chars(b.path) == opt_chars(a.path)
    &&& b.succeeded == a.succeeded
    &&& match a.result {
        Some(v) => b.result matches Some(w) && json_mapped(v, w, same_text()),
        None => b.result is None,
    }
    &&& match a.error {
        Some(e) => b.error matches Some(f) && tool_error_copied(e, f),
        None => b.error is None,
    }
}

/// The number of succeeded items.
pub open spec fn succeeded_count(items: Seq<FsBulkItem>) -> nat
    decreases items.len(),
{
    if items.len() == 0 {
        0
    } else {
        succeeded_count(items.drop_last()) + if items.last().succeeded {
            1nat
        } else {
            0nat
        }
    }
}

/// The number of failed items.
pub open spec fn failed_count(items: Seq<FsBulkItem>) -> nat
    decreases items.len(),
{
    if items.len() == 0 {
        0
    } else {
        failed_count(items.drop_last()) + if items.last().succeeded {
            0nat
        } else {
            1nat
        }
    }
}

/// Every item either succeeded or failed.
pub proof fn lemma_counts_add_up(items: Seq<FsBulkItem>)
    ensures
        succeeded_count(items) + failed_count(items) == items.len(),
    decreases items.len(),
{
    if items.len() > 0 {
        lemma_counts_add_up(items.drop_last());
    }
}

/// The state a job ends in once every operation was tried, unless it was canceled.
pub open spec fn finished_state(summary: FsBulkSummary) -> FsBulkState {
    if summary.failed == 0 {
        FsBulkState::Succeeded
    } else if summary.completed == 0 {
        FsBulkState::Failed
    } else {
        FsBulkState::Partial
    }
}

/// Records one operation's outcome.
pub fn build_item(
    index: usize,
    operation: FsBulkOperation,
    result: Result<JsonValue, AlfredError>,
) -> (item: FsBulkItem)
    ensures
        item_records(item, index, operation, result),
{
    let ghost op = operation;
    let (kind, from, to, path) = match operation {
        FsBulkOperation::Move { from, to, .. } => ("move".to_string(), Some(from), Some(to), None),
        FsBulkOperation::Copy { from, to, .. } => ("copy".to_string(), Some(from), Some(to), None),
        FsBulkOperation::Delete { path, .. } => ("delete".to_string(), None, None, Some(path)),
    };
    match result {
        Ok(value) => FsBulkItem {
            index,
            kind,
            from,
            to,
            path,
            succeeded: true,
            result: Some(value),
            error: None,
        },
        Err(error) => FsBulkItem {
            index,
            kind,
            from,
            to,
            path,
            succeeded: false,
            result: None,
            error: Some(ToolError::from(error)),
        },
    }
}

/// A copy of an optional string.
fn copy_opt_string(s: &Option<String>) -> (r: Option<String>)
    ensures
        opt_chars(r) == opt_chars(*s),
{
    match s {
        Some(t) => Some(t.clone()),
        None => None,
    }
}

/// A deep copy of an item.
pub fn copy_item(item: &FsBulkItem) -> (r: FsBulkItem)
    ensures
        item_copied(*item, r),
{
    let result = match &item.result {
        Some(v) => Some(copy_json(v)),
        None => None,
    };
    let error = match &item.error {
        Some(e) => Some(copy_tool_error(e)),
        None => None,
    };
    FsBulkItem {
        index: item.index,
        kind: item.kind.clone(),
        from: copy_opt_string(&item.from),
        to: copy_opt_string(&item.to),
        path: copy_opt_string(&item.path),
        succeeded: item.succeeded,
        result,
        error,
    }
}

/// One bulk job: its identifier, whether cancellation was asked for, its state, its
/// counts and the outcomes recorded so far.
pub struct FsBulkJob {
    operation_id: String,
    cancel_requested: bool,
    state: FsBulkState,
    summary: FsBulkSummary,
    items: Vec<FsBulkItem>,
}

impl FsBulkJob {
    /// The counts agree with the recorded outcomes.
    pub closed spec fn counts_agree(&self) -> bool {
        &&& self.summary.completed == succeeded_count(self.items@)
        &&& self.summary.failed == failed_count(self.items@)
    }

    /// The job's identifier.
    pub closed spec fn id_view(&self) -> Seq<char> {
        self.operation_id@
    }

    /// Whether cancellation was asked for.
    pub closed spec fn cancel_view(&self) -> bool {
        self.cancel_requested
    }

    /// The job's state.
    pub closed spec fn state_view(&self) -> FsBulkState {
        self.state
    }

    /// The job's counts.
    pub closed spec fn summary_view(&self) -> FsBulkSummary {
        self.summary
    }

    /// The outcomes recorded so far, in order.
    pub closed spec fn items_view(&self) -> Seq<FsBulkItem> {
        self.items@
    }

    /// The succeeded and failed counts are those of the recorded outcomes, and together
    /// they are the number of outcomes.
    pub proof fn lemma_summary_counts(&self)
        requires
            self.counts_agree(),
        ensures
            self.summary_view().completed == succeeded_count(self.items_view()),
            self.summary_view().failed == failed_count(self.items_view()),
            self.summary_view().completed + self.summary_view().failed == self.items_view().len(),
    {
        lemma_counts_add_up(self.items@);
    }

    /// A queued job of `total` operations, with nothing recorded.
    pub fn new(operation_id: String, total: usize) -> (job: Self)
        ensures
            job.counts_agree(),
            job.id_view() == operation_id@,
            !job.cancel_view(),
            job.state_view() == FsBulkState::Queued,
            job.summary_view() == (FsBulkSummary { total, completed: 0, failed: 0 }),
            job.items_view().len() == 0,
    {
        FsBulkJob {
            operation_id,
            cancel_requested: false,
            state: FsBulkState::Queued,
            summary: FsBulkSummary { total, completed: 0, failed: 0 },
            items: Vec::new(),
        }
    }

    /// Asks for cancellation; a queued or running job becomes canceled at once.
    pub fn cancel(&mut self)
        ensures
            final(self).counts_agree() == old(self).counts_agree(),
            final(self).cancel_view(),
            final(self).state_view() == if old(self).state_view() == FsBulkState::Queued
                || old(self).state_view() == FsBulkState::Running {
                FsBulkState::Canceled
            } else {
                old(self).state_view()
            },
            final(self).id_view() == old(self).id_view(),
            final(self).summary_view() == old(self).summary_view(),
            final(self).items_view() == old(self).items_view(),
    {
        self.cancel_requested = true;
        if self.state == FsBulkState::Queued || self.state == FsBulkState::Running {
            self.state = FsBulkState::Canceled;
        }
    }

    /// Whether cancellation was asked for.
    pub fn is_cancel_requested(&self) -> (r: bool)
        ensures
            r == self.cancel_view(),
    {
        self.cancel_requested
    }

    /// Moves the job to `state`.
    pub fn set_state(&mut self, state: FsBulkState)
        ensures
            final(self).counts_agree() == old(self).counts_agree(),
            final(self).state_view() == state,
            final(self).cancel_view() == old(self).cancel_view(),
            final(self).id_view() == old(self).id_view(),
            final(self).summary_view() == old(self).summary_view(),
            final(self).items_view() == old(self).items_view(),
    {
        self.state = state;
    }

    /// Records the outcome of operation `index`, counting it as completed or failed.
    pub fn record_item(
        &mut self,
        index: usize,
        operation: FsBulkOperation,
        result: Result<JsonValue, AlfredError>,
    )
        requires
            old(self).counts_agree(),
            old(self).items_view().len() < usize::MAX,
        ensures
            final(self).counts_agree(),
            final(self).items_view().len() == old(self).items_view().len() + 1,
            final(self).items_view().drop_last() == old(self).items_view(),
            item_records(final(self).items_view().last(), index, operation, result),
            final(self).summary_view() == if result is Ok {
                FsBulkSummary { completed: (old(self).summary_view().completed + 1) as usize, ..old(self).summary_view() }
            } else {
                FsBulkSummary { failed: (old(self).summary_view().failed + 1) as usize, ..old(self).summary_view() }
            },
            final(self).state_view() == old(self).state_view(),
            final(self).cancel_view() == old(self).cancel_view(),
            final(self).id_view() == old(self).id_view(),
    {
        proof {
            lemma_counts_add_up(self.items@);
        }
        let item = build_item(index, operation, result);
        let ghost before = self.items@;
        if item.succeeded {
            self.summary.completed = self.summary.completed + 1;
        } else {
            self.summary.failed = self.summary.failed + 1;
        }
        self.items.push(item);
        proof {
            assert(self.items@.drop_last() =~= before);
        }
    }

    /// Settles the state once the operations were tried: a canceled job stays canceled;
    /// otherwise it succeeded when nothing failed, failed when nothing completed, and is
    /// partial else.
    pub fn finalize(&mut self)
        ensures
            final(self).counts_agree() == old(self).counts_agree(),
            final(self).state_view() == if old(self).state_view() == FsBulkState::Canceled {
                FsBulkState::Canceled
            } else {
                finished_state(old(self).summary_view())
            },
            final(self).cancel_view() == old(self).cancel_view(),
            final(self).id_view() == old(self).id_view(),
            final(self).summary_view() == old(self).summary_view(),
            final(self).items_view() == old(self).items_view(),
    {
        if self.state == FsBulkState::Canceled {
            return;
        }
        let completed = self.summary.completed;
        let failed = self.summary.failed;
        self.state = if failed == 0 {
            FsBulkState::Succeeded
        } else if completed == 0 {
            FsBulkState::Failed
        } else {
            FsBulkState::Partial
        };
    }

    /// The job's status; the outcomes are included when asked for and there are some.
    pub fn snapshot(&self, include_items: bool) -> (s: FsBulkStatus)
        ensures
            s.operation_id@ == self.id_view(),
            s.state == self.state_view(),
            s.summary == self.summary_view(),
            match s.items {
                Some(v) => include_items && self.items_view().len() > 0 && v@.len()
                    == self.items_view().len() && forall|i: int|
                    0 <= i < v@.len() ==> #[trigger] item_copied(self.items_view()[i], v@[i]),
                None => !include_items || self.items_view().len() == 0,
            },
    {
        let items = if include_items && self.items.len() > 0 {
            let mut out: Vec<FsBulkItem> = Vec::new();
            let mut i: usize = 0;
            while i < self.items.len()
                invariant
                    i <= self.items@.len(),
                    out@.len() == i,
                    forall|j: int| 0 <= j < i ==> #[trigger] item_copied(self.items@[j], out@[j]),
                decreases self.items@.len() - i,
            {
                out.push(copy_item(&self.items[i]));
                i = i + 1;
            }
            Some(out)
        } else {
            None
        };
        FsBulkStatus {
            operation_id: self.operation_id.clone(),
            state: self.state,
            summary: self.summary,
            items,
        }
    }
}

// ---------------------------------------------------------------------------
// Paths of bulk operations
// ---------------------------------------------------------------------------

/// A segment that stays in a normalized path: neither empty nor `.`.
pub open spec fn kept_segment(s: Seq<char>) -> bool {
    s.len() > 0 && s != seq!['.']
}

/// The segments that stay, in order.
pub open spec fn kept_segments(segs: Seq<Seq<char>>) -> Seq<Seq<char>>
    decreases segs.len(),
{
    if segs.len() == 0 {
        Seq::empty()
    } else {
        let rest = kept_segments(segs.drop_last());
        if kept_segment(segs.last()) {
            rest.push(segs.last())
        } else {
            rest
        }
    }
}

/// A path that starts at a root: `/...`, or a drive letter followed by `:/`.
pub open spec fn absolute_chars(p: Seq<char>) -> bool {
    let b = vstd::utf8::encode_utf8(p);
    (p.len() > 0 && p[0] == '/') || (b.len() >= 3 && b[1] == 58 && b[2] == 47)
}

/// The normalized form of a bulk operation path, or the kind and message of the error
/// it is refused with.
pub open spec fn bulk_path_outcome(raw_path: Seq<char>) -> Result<Seq<char>, (ErrorKind, Seq<char>)> {
    let raw = normalized_separators(trim_spec(raw_path));
    let segs = split_on(raw, '/');
    let n = join_with(kept_segments(segs), seq!['/']);
    if raw.len() == 0 {
        Err((ErrorKind::InvalidArgument, "path must not be empty"@))
    } else if absolute_chars(raw) {
        Err((ErrorKind::InvalidArgument, "absolute paths are not allowed: "@ + raw_path))
    } else if segs.contains(seq!['.', '.']) {
        Err(
            (
                ErrorKind::WorkspaceBoundaryViolation,
                "path must be workspace-relative and must not contain '..': "@ + raw_path,
            ),
        )
    } else if n.len() == 0 {
        Err((ErrorKind::InvalidArgument, "path must not be empty"@))
    } else if !workspace_relative(n) {
        Err((ErrorKind::WorkspaceBoundaryViolation, "path must be workspace-relative: "@ + raw_path))
    } else {
        Ok(n)
    }
}

/// Whether a path starts at a root: `/...`, or a drive letter followed by `:/`.
pub fn is_absolute_path(path: &str) -> (r: bool)
    ensures
        r == absolute_chars(path@),
{
    let chars = chars_of(path);
    if chars.len() > 0 && chars[0] == '/' {
        return true;
    }
    let bytes = path.as_bytes();
    bytes.len() >= 3 && bytes[1] == 58 && bytes[2] == 47
}

/// Normalizes a workspace-relative path of a bulk operation: separators become `/`,
/// empty and `.` segments go, and `..`, absolute and empty paths are refused.
pub fn normalize_workspace_path(raw_path: &str) -> (r: Result<String, AlfredError>)
    ensures
        match r {
            Ok(p) => bulk_path_outcome(raw_path@) == Ok::<Seq<char>, (ErrorKind, Seq<char>)>(p@),
            Err(e) => bulk_path_outcome(raw_path@) is Err && is_error(
                e,
                bulk_path_outcome(raw_path@)->Err_0.0,
                bulk_path_outcome(raw_path@)->Err_0.1,
            ),
        },
{
    let trimmed = trim_str(raw_path);
    let raw = normalize_inbound_separators(trimmed.as_str());
    let raw_chars = chars_of(raw.as_str());
    if raw_chars.len() == 0 {
        return Err(AlfredError::InvalidArgument("path must not be empty".to_string()));
    }
    if is_absolute_path(raw.as_str()) {
        return Err(
            AlfredError::InvalidArgument(concat2("absolute paths are not allowed: ", raw_path)),
        );
    }
    let segments = split_chars(raw_chars.as_slice(), '/');
    let ghost segs = split_on(raw@, '/');
    let mut kept: Vec<Vec<char>> = Vec::new();
    let mut i: usize = 0;
    while i < segments.len()
        invariant
            raw@ == normalized_separators(trim_spec(raw_path@)),
            raw@.len() > 0,
            !absolute_chars(raw@),
            segs == split_on(raw@, '/'),
            i <= segments@.len(),
            views_of(segments@) == segs,
            views_of(kept@) == kept_segments(segs.take(i as int)),
            forall|j: int| 0 <= j < i ==> segs[j] != seq!['.', '.'],
        decreases segments@.len() - i,
    {
        let seg = &segments[i];
        proof {
            assert(segs[i as int] == seg@);
            assert(segs.take(i + 1).drop_last() =~= segs.take(i as int));
            assert(segs.take(i + 1).last() == seg@);
        }
        let is_dot = seg.len() == 1 && seg[0] == '.';
        let is_dotdot = seg.len() == 2 && seg[0] == '.' && seg[1] == '.';
        proof {
            assert(is_dot == (seg@ =~= seq!['.']));
            assert(is_dotdot == (seg@ =~= seq!['.', '.']));
        }
        if is_dotdot {
            proof {
                assert(segs[i as int] == seq!['.', '.']);
                assert(segs.contains(seq!['.', '.']));
            }
            return Err(
                AlfredError::WorkspaceBoundaryViolation(
                    concat2("path must be workspace-relative and must not contain '..': ", raw_path),
                ),
            );
        }
        if seg.len() > 0 && !is_dot {
            kept.push(seg.clone());
            proof {
                assert(views_of(kept@) =~= views_of(kept@.drop_last()).push(seg@));
            }
        }
        i = i + 1;
    }
    proof {
        assert(segs.take(segs.len() as int) =~= segs);
        assert(!segs.contains(seq!['.', '.'])) by {
            if segs.contains(seq!['.', '.']) {
                let j = choose|j: int| 0 <= j < segs.len() && segs[j] == seq!['.', '.'];
                assert(segs[j] != seq!['.', '.']);
            }
        }
    }
    let mut sep: Vec<char> = Vec::new();
    sep.push('/');
    assert(sep@ =~= seq!['/']);
    let joined = join_range(&kept, 0, kept.len(), sep.as_slice());
    proof {
        assert(views_of(kept@).subrange(0, kept@.len() as int) =~= views_of(kept@));
    }
    let normalized = string_of(joined.as_slice());
    if joined.len() == 0 {
        return Err(AlfredError::InvalidArgument("path must not be empty".to_string()));
    }
    if !is_workspace_relative_path(normalized.as_str()) {
        return Err(
            AlfredError::WorkspaceBoundaryViolation(
                concat2("path must be workspace-relative: ", raw_path),
            ),
        );
    }
    Ok(normalized)
}

/// The items of `v` in the opposite order.
pub(crate) fn reversed<T>(v: Vec<T>) -> (r: Vec<T>)
    ensures
        r@.len() == v@.len(),
        forall|k: int| 0 <= k < v@.len() ==> #[trigger] r@[k] == v@[v@.len() - 1 - k],
{
    let ghost v0 = v@;
    let mut v = v;
    let mut r: Vec<T> = Vec::new();
    while v.len() > 0
        invariant
            v@ == v0.take(v@.len() as int),
            r@.len() + v@.len() == v0.len(),
            forall|k: int| 0 <= k < r@.len() ==> #[trigger] r@[k] == v0[v0.len() - 1 - k],
        decreases v@.len(),
    {
        let x = v.pop().unwrap();
        r.push(x);
        proof {
            assert(v@ =~= v0.take(v@.len() as int));
        }
    }
    r
}

// ---------------------------------------------------------------------------
// The job manager
// ---------------------------------------------------------------------------

/// A step of a job that runs in the background.
pub enum FsBulkEvent {
    /// The worker starts.
    Begin,
    /// The worker is about to run the next operation.
    NextItem,
    /// An operation finished with this outcome.
    ItemDone { index: usize, operation: FsBulkOperation, result: Result<JsonValue, AlfredError> },
    /// Every operation was tried, or the worker stopped.
    Finish,
}

/// Allocates job identifiers and keeps the bulk jobs by their identifiers.
pub struct JobManager {
    next_id: u64,
    bulk_jobs: Vec<FsBulkJob>,
}

/// Whether no two jobs share an identifier and every job's counts agree.
pub open spec fn jobs_wf(jobs: Seq<FsBulkJob>) -> bool {
    &&& forall|i: int| 0 <= i < jobs.len() ==> (#[trigger] jobs[i]).counts_agree()
    &&& forall|i: int, j: int|
        0 <= i < j < jobs.len() ==> (#[trigger] jobs[i]).id_view() != (#[trigger] jobs[j]).id_view()
}

/// The position of the job with identifier `id`.
pub open spec fn job_position(jobs: Seq<FsBulkJob>, id: Seq<char>) -> Option<int> {
    if exists|i: int| 0 <= i < jobs.len() && (#[trigger] jobs[i]).id_view() == id {
        Some(choose|i: int| 0 <= i < jobs.len() && (#[trigger] jobs[i]).id_view() == id)
    } else {
        None
    }
}

/// The message of a lookup of an unknown job.
pub open spec fn unknown_job_text(id: Seq<char>) -> Seq<char> {
    "bulk operation not found: "@ + id
}

/// Distinct counter values give distinct job ids: the ids one manager hands out differ from
/// each other until its counter wraps around.
pub proof fn lemma_job_ids_distinct(a: u64, b: u64)
    requires
        a != b,
    ensures
        "job-"@ + decimal_chars(a as nat) != "job-"@ + decimal_chars(b as nat),
{
    reveal_strlit("job-");
    lemma_parse_decimal(a as nat, u64::MAX as int);
    lemma_parse_decimal(b as nat, u64::MAX as int);
    let x = "job-"@ + decimal_chars(a as nat);
    let y = "job-"@ + decimal_chars(b as nat);
    if x == y {
        assert(x.skip(4) =~= decimal_chars(a as nat));
        assert(y.skip(4) =~= decimal_chars(b as nat));
    }
}

impl JobManager {
    /// The next job number.
    pub closed spec fn next_id_view(&self) -> u64 {
        self.next_id
    }

    /// The bulk jobs.
    pub closed spec fn jobs_view(&self) -> Seq<FsBulkJob> {
        self.bulk_jobs@
    }

    /// Whether the jobs are well formed.
    pub open spec fn wf(&self) -> bool {
        jobs_wf(self.jobs_view())
    }

    /// A manager with no jobs whose first job number is 1.
    pub fn new() -> (m: Self)
        ensures
            m.wf(),
            m.next_id_view() == 1,
            m.jobs_view().len() == 0,
    {
        JobManager { next_id: 1, bulk_jobs: Vec::new() }
    }

    /// Allocates the next job id, `job-<n>`; the number wraps around after `u64::MAX`.
    pub fn allocate_job_id(&mut self) -> (id: String)
        ensures
            id@ == "job-"@ + decimal_chars(old(self).next_id_view() as nat),
            final(self).next_id_view() == if old(self).next_id_view() == u64::MAX {
                0
            } else {
                (old(self).next_id_view() + 1) as u64
            },
            final(self).jobs_view() == old(self).jobs_view(),
    {
        let id = self.next_id;
        self.next_id = id.wrapping_add(1);
        let digits = decimal_string(id);
        concat2("job-", digits.as_str())
    }

    /// The position of the job with identifier `operation_id`.
    fn lookup_bulk_job(&self, operation_id: &str) -> (r: Result<usize, AlfredError>)
        requires
            self.wf(),
        ensures
            match r {
                Ok(i) => job_position(self.jobs_view(), operation_id@) == Some(i as int),
                Err(e) => job_position(self.jobs_view(), operation_id@) is None && is_error(
                    e,
                    ErrorKind::NotFound,
                    unknown_job_text(operation_id@),
                ),
            },
    {
        let mut i: usize = 0;
        while i < self.bulk_jobs.len()
            invariant
                self.wf(),
                i <= self.bulk_jobs@.len(),
                forall|j: int| 0 <= j < i ==> (#[trigger] self.bulk_jobs@[j]).id_view() != operation_id@,
            decreases self.bulk_jobs@.len() - i,
        {
            if str_eq(self.bulk_jobs[i].operation_id.as_str(), operation_id) {
                proof {
                    let p = job_position(self.jobs_view(), operation_id@);
                    assert(self.jobs_view()[i as int].id_view() == operation_id@);
                    let k = choose|k: int|
                        0 <= k < self.jobs_view().len() && (#[trigger] self.jobs_view()[k]).id_view()
                            == operation_id@;
                    assert(k == i as int) by {
                        if k != i as int {
                            if k < i as int {
                                assert(self.bulk_jobs@[k].id_view() != operation_id@);
                            } else {
                                assert(self.jobs_view()[i as int].id_view() != self.jobs_view()[k].id_view());
                            }
                        }
                    }
                }
                return Ok(i);
            }
            i = i + 1;
        }
        Err(AlfredError::NotFound(concat2("bulk operation not found: ", operation_id)))
    }

    /// Registers a background job for `operations` under `operation_id` (a job already
    /// under that identifier is replaced) and reports it without outcomes; no operation is
    /// an error.
    pub fn start_fs_bulk_background(
        &mut self,
        operation_id: String,
        operations: &Vec<FsBulkOperation>,
    ) -> (r: Result<FsBulkStatus, AlfredError>)
        requires
            old(self).wf(),
        ensures
            final(self).wf(),
            final(self).next_id_view() == old(self).next_id_view(),
            operations@.len() == 0 ==> final(self).jobs_view() == old(self).jobs_view() && r is Err
                && is_error(r->Err_0, ErrorKind::InvalidArgument, "fs.bulk.operations must not be empty"@),
            operations@.len() > 0 ==> r is Ok && {
                let s = r->Ok_0;
                let p = job_position(final(self).jobs_view(), operation_id@);
                &&& p is Some
                &&& final(self).jobs_view()[p->Some_0].state_view() == FsBulkState::Queued
                &&& final(self).jobs_view()[p->Some_0].summary_view() == (FsBulkSummary {
                    total: operations@.len() as usize,
                    completed: 0,
                    failed: 0,
                })
                &&& final(self).jobs_view()[p->Some_0].items_view().len() == 0
                &&& !final(self).jobs_view()[p->Some_0].cancel_view()
                &&& s.operation_id@ == operation_id@
                &&& s.state == FsBulkState::Queued
                &&& s.summary == final(self).jobs_view()[p->Some_0].summary_view()
                &&& s.items is None
                &&& forall|i: int|
                    0 <= i < old(self).jobs_view().len() && (#[trigger] old(self).jobs_view()[i]).id_view()
                        != operation_id@ ==> final(self).jobs_view().contains(old(self).jobs_view()[i])
            },
    {
        if operations.len() == 0 {
            return Err(
                AlfredError::InvalidArgument("fs.bulk.operations must not be empty".to_string()),
            );
        }
        let job = FsBulkJob::new(operation_id.clone(), operations.len());
        let status = job.snapshot(false);
        let ghost old_jobs = self.bulk_jobs@;
        let mut kept: Vec<FsBulkJob> = Vec::new();
        let mut jobs: Vec<FsBulkJob> = Vec::new();
        std::mem::swap(&mut jobs, &mut self.bulk_jobs);
        let ghost jobs0 = jobs@;
        while jobs.len() > 0
            invariant
                jobs0 == old_jobs,
                jobs_wf(old_jobs),
                jobs@.len() <= old_jobs.len(),
                jobs@ == old_jobs.take(jobs@.len() as int),
                forall|j: int| 0 <= j < kept@.len() ==> (#[trigger] kept@[j]).id_view() != operation_id@,
                forall|j: int, a: int|
                    0 <= j < kept@.len() && 0 <= a < jobs@.len() ==> (#[trigger] kept@[j]).id_view()
                        != (#[trigger] old_jobs[a]).id_view(),
                jobs_wf(kept@),
                forall|i: int|
                    jobs@.len() <= i < old_jobs.len() && (#[trigger] old_jobs[i]).id_view()
                        != operation_id@ ==> kept@.contains(old_jobs[i]),
            decreases jobs@.len(),
        {
            let ghost before = jobs@;
            let last = jobs.pop().unwrap();
            proof {
                assert(jobs@ =~= old_jobs.take(jobs@.len() as int));
                assert(last == old_jobs[jobs@.len() as int]);
            }
            if !str_eq(last.operation_id.as_str(), operation_id.as_str()) {
                let ghost kept0 = kept@;
                let ghost n = jobs@.len() as int;
                proof {
                    assert forall|j: int| 0 <= j < kept0.len() implies (#[trigger] kept0[j]).id_view()
                        != last.id_view() by {
                        assert(kept0[j].id_view() != old_jobs[n].id_view());
                    }
                }
                kept.push(last);
                proof {
                    assert forall|i: int|
                        jobs@.len() <= i < old_jobs.len() && (#[trigger] old_jobs[i]).id_view()
                            != operation_id@ implies kept@.contains(old_jobs[i]) by {
                        if i == jobs@.len() as int {
                            assert(kept@[kept@.len() - 1] == old_jobs[i]);
                        } else {
                            assert(kept0.contains(old_jobs[i]));
                            let a = choose|a: int| 0 <= a < kept0.len() && kept0[a] == old_jobs[i];
                            assert(kept@[a] == old_jobs[i]);
                        }
                    }
                    assert forall|j: int, a: int|
                        0 <= j < kept@.len() && 0 <= a < jobs@.len() implies (#[trigger] kept@[j]).id_view()
                            != (#[trigger] old_jobs[a]).id_view() by {
                        if j < kept0.len() {
                            assert(kept@[j] == kept0[j]);
                            assert(kept0[j].id_view() != old_jobs[a].id_view());
                        } else {
                            assert(kept@[j] == old_jobs[n]);
                            assert(old_jobs[a].id_view() != old_jobs[n].id_view());
                        }
                    }
                    assert(jobs_wf(kept@)) by {
                        assert forall|a: int, b: int| 0 <= a < b < kept@.len() implies (#[trigger] kept@[a]).id_view()
                            != (#[trigger] kept@[b]).id_view() by {
                            if b == kept0.len() {
                                assert(kept@[a] == kept0[a]);
                            } else {
                                assert(kept@[a] == kept0[a] && kept@[b] == kept0[b]);
                            }
                        }
                        assert forall|a: int| 0 <= a < kept@.len() implies (#[trigger] kept@[a]).counts_agree() by {
                            if a < kept0.len() {
                                assert(kept@[a] == kept0[a]);
                            } else {
                                assert(old_jobs[n].counts_agree());
                            }
                        }
                    }
                }
            }
        }
        let ghost kept_final = kept@;
        kept.push(job);
        self.bulk_jobs = kept;
        proof {
            let n = kept_final.len() as int;
            let fj = self.bulk_jobs@;
            assert(fj[n].id_view() == operation_id@);
            assert(forall|j: int| 0 <= j < n ==> fj[j] == kept_final[j]);
            assert(jobs_wf(fj)) by {
                assert forall|a: int, b: int| 0 <= a < b < fj.len() implies (#[trigger] fj[a]).id_view()
                    != (#[trigger] fj[b]).id_view() by {
                    if b == n {
                        assert(kept_final[a].id_view() != operation_id@);
                    } else {
                        assert(kept_final[a].id_view() != kept_final[b].id_view());
                    }
                }
            }
            let p = job_position(fj, operation_id@);
            assert(fj[n].id_view() == operation_id@);
            let k = choose|k: int| 0 <= k < fj.len() && (#[trigger] fj[k]).id_view() == operation_id@;
            assert(k == n) by {
                if k != n {
                    assert(kept_final[k].id_view() != operation_id@);
                }
            }
            assert forall|i: int|
                0 <= i < old_jobs.len() && (#[trigger] old_jobs[i]).id_view() != operation_id@ implies fj.contains(
                old_jobs[i],
            ) by {
                assert(kept_final.contains(old_jobs[i]));
                let a = choose|a: int| 0 <= a < kept_final.len() && kept_final[a] == old_jobs[i];
                assert(fj[a] == old_jobs[i]);
            }
        }
        Ok(status)
    }

    /// Runs a job to its end in the caller's thread: `outcomes[i]` is the outcome of
    /// `operations[i]`; the report holds every outcome. No operation is an error.
    pub fn execute_fs_bulk_sync(
        &self,
        operation_id: String,
        operations: Vec<FsBulkOperation>,
        outcomes: Vec<Result<JsonValue, AlfredError>>,
    ) -> (r: Result<FsBulkStatus, AlfredError>)
        requires
            outcomes@.len() == operations@.len(),
        ensures
            operations@.len() == 0 ==> r is Err && is_error(
                r->Err_0,
                ErrorKind::InvalidArgument,
                "fs.bulk.operations must not be empty"@,
            ),
            operations@.len() > 0 ==> r is Ok && {
                let s = r->Ok_0;
                &&& s.operation_id@ == operation_id@
                &&& s.summary.total == operations@.len()
                &&& s.summary.completed + s.summary.failed == operations@.len()
                &&& s.state == finished_state(s.summary)
                &&& s.items is Some
                &&& s.items->Some_0@.len() == operations@.len()
                &&& forall|i: int|
                    0 <= i < operations@.len() ==> (#[trigger] s.items->Some_0@[i]).index == i
                        && s.items->Some_0@[i].kind@ == operation_kind(operations@[i])
                        && s.items->Some_0@[i].succeeded == outcomes@[i] is Ok
            },
    {
        if operations.len() == 0 {
            return Err(
                AlfredError::InvalidArgument("fs.bulk.operations must not be empty".to_string()),
            );
        }
        let total = operations.len();
        let mut job = FsBulkJob::new(operation_id, total);
        job.set_state(FsBulkState::Running);
        let ghost ops0 = operations@;
        let ghost outs0 = outcomes@;
        let mut operations = reversed(operations);
        let mut outcomes = reversed(outcomes);
        let mut index: usize = 0;
        while index < total
            invariant
                total == ops0.len() == outs0.len(),
                index <= total,
                operations@.len() == total - index,
                outcomes@.len() == total - index,
                forall|k: int| 0 <= k < operations@.len() ==> #[trigger] operations@[k] == ops0[total - 1 - k],
                forall|k: int| 0 <= k < outcomes@.len() ==> #[trigger] outcomes@[k] == outs0[total - 1 - k],
                job.counts_agree(),
                job.id_view() == operation_id@,
                job.state_view() == FsBulkState::Running,
                job.summary_view().total == total,
                job.items_view().len() == index,
                forall|i: int|
                    0 <= i < index ==> (#[trigger] job.items_view()[i]).index == i
                        && job.items_view()[i].kind@ == operation_kind(ops0[i])
                        && job.items_view()[i].succeeded == outs0[i] is Ok,
            decreases total - index,
        {
            let op = operations.pop().unwrap();
            let outcome = outcomes.pop().unwrap();
            proof {
                assert(op == ops0[index as int]);
                assert(outcome == outs0[index as int]);
            }
            let ghost before = job.items_view();
            job.record_item(index, op, outcome);
            proof {
                assert forall|i: int| 0 <= i < index + 1 implies (#[trigger] job.items_view()[i]).index == i
                    && job.items_view()[i].kind@ == operation_kind(ops0[i])
                    && job.items_view()[i].succeeded == outs0[i] is Ok by {
                    if i < index {
                        assert(job.items_view()[i] == job.items_view().drop_last()[i]);
                    }
                }
            }
            index = index + 1;
        }
        job.finalize();
        proof {
            job.lemma_summary_counts();
        }
        let status = job.snapshot(true);
        proof {
            let v = status.items->Some_0@;
            assert forall|i: int| 0 <= i < ops0.len() implies (#[trigger] v[i]).index == i
                && v[i].kind@ == operation_kind(ops0[i]) && v[i].succeeded == outs0[i] is Ok by {
                assert(item_copied(job.items_view()[i], v[i]));
            }
        }
        Ok(status)
    }

    /// The full report of a job.
    pub fn fs_bulk_status(&self, operation_id: &str) -> (r: Result<FsBulkStatus, AlfredError>)
        requires
            self.wf(),
        ensures
            match job_position(self.jobs_view(), operation_id@) {
                Some(p) => r is Ok && {
                    let job = self.jobs_view()[p];
                    let s = r->Ok_0;
                    &&& s.operation_id@ == job.id_view()
                    &&& s.state == job.state_view()
                    &&& s.summary == job.summary_view()
                    &&& match s.items {
                        Some(v) => job.items_view().len() > 0 && v@.len() == job.items_view().len()
                            && forall|i: int|
                            0 <= i < v@.len() ==> #[trigger] item_copied(job.items_view()[i], v@[i]),
                        None => job.items_view().len() == 0,
                    }
                },
                None => r is Err && is_error(r->Err_0, ErrorKind::NotFound, unknown_job_text(operation_id@)),
            },
    {
        let i = self.lookup_bulk_job(operation_id)?;
        Ok(self.bulk_jobs[i].snapshot(true))
    }

    /// Asks a job to stop and reports it in full.
    pub fn fs_bulk_cancel(&mut self, operation_id: &str) -> (r: Result<FsBulkStatus, AlfredError>)
        requires
            old(self).wf(),
        ensures
            final(self).wf(),
            final(self).next_id_view() == old(self).next_id_view(),
            final(self).jobs_view().len() == old(self).jobs_view().len(),
            match job_position(old(self).jobs_view(), operation_id@) {
                Some(p) => r is Ok && {
                    let before = old(self).jobs_view()[p];
                    let after = final(self).jobs_view()[p];
                    let s = r->Ok_0;
                    &&& after.cancel_view()
                    &&& after.state_view() == if before.state_view() == FsBulkState::Queued
                        || before.state_view() == FsBulkState::Running {
                        FsBulkState::Canceled
                    } else {
                        before.state_view()
                    }
                    &&& after.items_view() == before.items_view()
                    &&& after.summary_view() == before.summary_view()
                    &&& s.state == after.state_view()
                    &&& s.summary == after.summary_view()
                    &&& s.operation_id@ == before.id_view()
                    &&& forall|i: int|
                        0 <= i < old(self).jobs_view().len() && i != p ==> final(self).jobs_view()[i]
                            == #[trigger] old(self).jobs_view()[i]
                },
                None => r is Err && final(self).jobs_view() == old(self).jobs_view() && is_error(
                    r->Err_0,
                    ErrorKind::NotFound,
                    unknown_job_text(operation_id@),
                ),
            },
    {
        let i = self.lookup_bulk_job(operation_id)?;
        let ghost before = self.bulk_jobs@;
        self.bulk_jobs[i].cancel();
        proof {
            assert(self.bulk_jobs@[i as int].id_view() == before[i as int].id_view());
            assert forall|a: int| 0 <= a < self.bulk_jobs@.len() implies (#[trigger] self.bulk_jobs@[a]).id_view()
                == before[a].id_view() by {}
            assert(jobs_wf(self.bulk_jobs@)) by {
                assert forall|a: int, b: int| 0 <= a < b < self.bulk_jobs@.len() implies (#[trigger] self.bulk_jobs@[a]).id_view()
                    != (#[trigger] self.bulk_jobs@[b]).id_view() by {
                    assert(before[a].id_view() != before[b].id_view());
                }
            }
        }
        Ok(self.bulk_jobs[i].snapshot(true))
    }

    /// Applies one step of a background job: the result says whether the worker goes on
    /// (`None` when no job has that identifier). A job that already holds `usize::MAX - 1`
    /// outcomes records no more.
    pub fn run_bulk_event(&mut self, operation_id: &str, event: FsBulkEvent) -> (r: Option<bool>)
        requires
            old(self).wf(),
        ensures
            final(self).wf(),
            final(self).next_id_view() == old(self).next_id_view(),
            final(self).jobs_view().len() == old(self).jobs_view().len(),
            match job_position(old(self).jobs_view(), operation_id@) {
                Some(p) => r is Some && bulk_step(
                    old(self).jobs_view()[p],
                    event,
                    final(self).jobs_view()[p],
                    r->Some_0,
                ) && forall|i: int|
                    0 <= i < old(self).jobs_view().len() && i != p ==> final(self).jobs_view()[i]
                        == #[trigger] old(self).jobs_view()[i],
                None => r is None && final(self).jobs_view() == old(self).jobs_view(),
            },
    {
        let i = match self.lookup_bulk_job(operation_id) {
            Ok(i) => i,
            Err(_) => return None,
        };
        let ghost before = self.bulk_jobs@;
        let go_on = self.bulk_jobs[i].step(event);
        proof {
            assert(jobs_wf(self.bulk_jobs@)) by {
                assert forall|a: int, b: int| 0 <= a < b < self.bulk_jobs@.len() implies (#[trigger] self.bulk_jobs@[a]).id_view()
                    != (#[trigger] self.bulk_jobs@[b]).id_view() by {
                    assert(before[a].id_view() != before[b].id_view());
                }
            }
        }
        Some(go_on)
    }
}

/// What one step does to a job and whether the worker goes on.
pub open spec fn bulk_step(before: FsBulkJob, event: FsBulkEvent, after: FsBulkJob, go_on: bool) -> bool {
    &&& after.counts_agree()
    &&& after.id_view() == before.id_view()
    &&& after.cancel_view() == before.cancel_view()
    &&& match event {
        FsBulkEvent::Begin => {
            &&& go_on == !before.cancel_view()
            &&& after.state_view() == if before.cancel_view() {
                FsBulkState::Canceled
            } else {
                FsBulkState::Running
            }
            &&& after.summary_view() == before.summary_view()
            &&& after.items_view() == before.items_view()
        },
        FsBulkEvent::NextItem => {
            &&& go_on == !before.cancel_view()
            &&& after.state_view() == if before.cancel_view() {
                FsBulkState::Canceled
            } else {
                before.state_view()
            }
            &&& after.summary_view() == before.summary_view()
            &&& after.items_view() == before.items_view()
        },
        FsBulkEvent::ItemDone { index, operation, result } => {
            &&& go_on
            &&& after.state_view() == before.state_view()
            &&& if before.items_view().len() < usize::MAX {
                &&& after.items_view().drop_last() == before.items_view()
                &&& after.items_view().len() == before.items_view().len() + 1
                &&& item_records(after.items_view().last(), index, operation, result)
                &&& after.summary_view() == if result is Ok {
                    FsBulkSummary { completed: (before.summary_view().completed + 1) as usize, ..before.summary_view() }
                } else {
                    FsBulkSummary { failed: (before.summary_view().failed + 1) as usize, ..before.summary_view() }
                }
            } else {
                after.items_view() == before.items_view() && after.summary_view() == before.summary_view()
            }
        },
        FsBulkEvent::Finish => {
            &&& !go_on
            &&& after.state_view() == if before.state_view() == FsBulkState::Canceled {
                FsBulkState::Canceled
            } else {
                finished_state(before.summary_view())
            }
            &&& after.summary_view() == before.summary_view()
            &&& after.items_view() == before.items_view()
        },
    }
}

impl FsBulkJob {
    /// Applies one step of a background run: see `bulk_step`.
    pub fn step(&mut self, event: FsBulkEvent) -> (go_on: bool)
        requires
            old(self).counts_agree(),
        ensures
            bulk_step(*old(self), event, *final(self), go_on),
    {
        match event {
            FsBulkEvent::Begin => {
                if self.cancel_requested {
                    self.set_state(FsBulkState::Canceled);
                    false
                } else {
                    self.set_state(FsBulkState::Running);
                    true
                }
            },
            FsBulkEvent::NextItem => {
                if self.cancel_requested {
                    self.set_state(FsBulkState::Canceled);
                    false
                } else {
                    true
                }
            },
            FsBulkEvent::ItemDone { index, operation, result } => {
                if self.items.len() < usize::MAX {
                    self.record_item(index, operation, result);
                }
                true
            },
            FsBulkEvent::Finish => {
                self.finalize();
                false
            },
        }
    }
}

} // verus!
