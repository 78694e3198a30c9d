//! Discovering the scripts of the workspace when the server starts, and the
//! progress reports that go with it.
use vstd::prelude::*;

use crate::config::{copy_workspace, same_workspace, Workspace};
use crate::lsp::{copy_id, is_log_message, log_message, Message};
use crate::protocol::{
    FileRename, NumberOrString, ProgressParams, ProgressToken, Uri, WorkDoneProgressBegin, WorkDoneProgressEnd,
    WorkDoneProgressReport, WorkDoneProgressValue,
};
use crate::files::{copy_path, FileIndex, RenameFileOperations, WorkspaceMembers};
use crate::startup::Tasks;
use crate::references::only_slot_changed;
use crate::tasks::{
    find_ongoing_task_by_id, first_task_with_id, now, progress_advanced, progress_can_advance,
    progress_finished, progress_ready, OngoingTask, Task, TaskDone, TaskProgress, WorkDoneProgressPhase,
    WorkspaceDiscoveryPhase,
};
use crate::text::{decimal_text, push_decimal, push_text};
use crate::docstore::{stored, TextDocStatus, TextDocs};
use crate::progress::{find_workdone_progress_by_id, has_work, work_search_defined};
use crate::protocol::TraceValue;
use crate::textdoc::TextDoc;
use tree_sitter::Tree;

verus! {

/// The beginning of the progress report for the workspace discovery.
pub open spec fn is_announce_params(p: ProgressParams, token: ProgressToken) -> bool {
    &&& p.token == token
    &&& p.value matches WorkDoneProgressValue::Begin(b)
    &&& b.title@ == "Indexing workspace"@
    &&& b.cancellable == Some(false)
    &&& b.message is None
    &&& b.percentage == Some(0u32)
}

pub fn announce_progress_workspace_discovery(token: ProgressToken) -> (p: ProgressParams)
    ensures
        is_announce_params(p, token),
{
    ProgressParams {
        token,
        value: WorkDoneProgressValue::Begin(WorkDoneProgressBegin {
            title: String::from_str("Indexing workspace"),
            cancellable: Some(false),
            message: None,
            percentage: Some(0),
        }),
    }
}

/// The share of completed files, as the report states it.
pub open spec fn reported_share(total: u32, completed: u32) -> int {
    completed as int / total as int
}

/// A report is due: there are files, and the share has grown by at least
/// five since the last report.
pub open spec fn report_due(reported: u32, total: u32, completed: u32) -> bool {
    total > 0 && reported_share(total, completed) > reported && reported_share(total, completed)
        - reported >= 5
}

/// The text of a progress report.
pub open spec fn report_text(total: u32, completed: u32) -> Seq<char> {
    decimal_text(completed as int) + " of "@ + decimal_text(total as int) + " files completed"@
}

/// A progress report for the workspace discovery.
pub open spec fn is_report_params(p: ProgressParams, token: ProgressToken, total: u32, completed: u32) -> bool {
    &&& p.token == token
    &&& p.value matches WorkDoneProgressValue::Report(r)
    &&& r.cancellable == Some(false)
    &&& r.message matches Some(m) && m@ == report_text(total, completed)
    &&& r.percentage == Some(reported_share(total, completed) as u32)
}

/// The next progress report, where one is due.
pub fn report_progress_workspace_discovery(
    token: ProgressToken,
    reported: u32,
    total: u32,
    completed: u32,
) -> (r: Option<ProgressParams>)
    ensures
        r is Some <==> report_due(reported, total, completed),
        r matches Some(p) ==> is_report_params(p, token, total, completed),
{
    if total <= 0 {
        return None;
    }
    let percent = completed / total;
    if percent <= reported || percent - reported < 5 {
        return None;
    }
    let mut message = String::new();
    push_decimal(&mut message, completed as i64);
    push_text(&mut message, " of ");
    push_decimal(&mut message, total as i64);
    push_text(&mut message, " files completed");
    Some(ProgressParams {
        token,
        value: WorkDoneProgressValue::Report(WorkDoneProgressReport {
            cancellable: Some(false),
            message: Some(message),
            percentage: Some(percent),
        }),
    })
}

/// The end of the progress report for the workspace discovery.
pub open spec fn is_finish_params(p: ProgressParams, token: ProgressToken) -> bool {
    &&& p.token == token
    &&& p.value matches WorkDoneProgressValue::End(e)
    &&& e.message matches Some(m) && m@ == "All files have been indexed."@
}

pub fn finish_progress_workspace_discovery(token: ProgressToken) -> (p: ProgressParams)
    ensures
        is_finish_params(p, token),
{
    ProgressParams {
        token,
        value: WorkDoneProgressValue::End(
            WorkDoneProgressEnd { message: Some(String::from_str("All files have been indexed.")) },
        ),
    }
}

/// The progress of a step that runs once.
pub open spec fn single_round() -> TaskProgress {
    TaskProgress { total: 1, completed: 0, cycles: 0, limit: Some(1u32), acknowledged: false }
}

/// A workspace discovery that has just started, scanning `workspace`.
pub open spec fn is_new_discovery(slot: Option<OngoingTask>, id: NumberOrString, workspace: Workspace) -> bool {
    match slot {
        Some(OngoingTask::WorkspaceDiscovery { id: tid, progress, phase, .. }) => {
            &&& tid == id
            &&& progress == single_round()
            &&& phase == WorkspaceDiscoveryPhase::Scanning(workspace, None)
        },
        _ => false,
    }
}

/// Registers the workspace discovery as the first task, in its scanning step.
pub fn prepare_workspace_discovery(
    id: NumberOrString,
    workspace: Workspace,
    ongoing: &mut Vec<Option<OngoingTask>>,
)
    ensures
        final(ongoing)@.len() == old(ongoing)@.len() + 1,
        final(ongoing)@.drop_last() == old(ongoing)@,
        is_new_discovery(final(ongoing)@.last(), id, workspace),
{
    ongoing.push(
        Some(
            OngoingTask::WorkspaceDiscovery {
                id,
                onset: now(),
                progress: TaskProgress::new(1).with_limit(1),
                phase: WorkspaceDiscoveryPhase::Scanning(workspace, None),
            },
        ),
    );
    proof {
        assert(ongoing@.drop_last() =~= old(ongoing)@);
    }
}

/// The progress reporting is still under way: it has not ended.
pub open spec fn concludable(task: Option<OngoingTask>) -> bool {
    task matches Some(OngoingTask::WindowWorkDoneProgress { phase, .. }) && !(phase is Finished)
}

/// The reporting has ended, with the end report of the workspace discovery
/// still to be sent; the task is otherwise unchanged.
pub open spec fn concluded(before: Option<OngoingTask>, after: Option<OngoingTask>) -> bool {
    match (before, after) {
        (
            Some(OngoingTask::WindowWorkDoneProgress { id, token, work, onset, .. }),
            Some(OngoingTask::WindowWorkDoneProgress { id: i2, token: t2, work: w2, onset: o2, phase }),
        ) => {
            &&& i2 == id
            &&& t2 == token
            &&& w2 == work
            &&& o2 == onset
            &&& phase matches WorkDoneProgressPhase::Finished(Some(end))
            &&& is_finish_params(end, token)
        },
        _ => false,
    }
}

/// Ends the progress reporting for the workspace discovery: the end report
/// is what remains to be sent.
pub fn conclude_workspace_file_parsing_progress(task: &mut Option<OngoingTask>)
    requires
        concludable(*old(task)),
    ensures
        concluded(*old(task), *final(task)),
{
    let t = task.take();
    match t {
        Some(OngoingTask::WindowWorkDoneProgress { id, token, work, onset, phase }) => {
            let params = finish_progress_workspace_discovery(copy_id(&token));
            *task = Some(
                OngoingTask::WindowWorkDoneProgress {
                    id,
                    token,
                    work,
                    onset,
                    phase: WorkDoneProgressPhase::Finished(Some(params)),
                },
            );
        },
        _ => {},
    }
}

/// The warning that workspace roots do not exist.
pub open spec fn root_invalid_text(roots: Seq<String>) -> Seq<char> {
    "WARNING: Workspace root(s) \""@ + joined(roots, "\", \""@) + "\" do not exist."@
}

/// The strings joined with `sep` between them.
pub open spec fn joined(parts: Seq<String>, sep: Seq<char>) -> Seq<char>
    decreases parts.len(),
{
    if parts.len() == 0 {
        Seq::empty()
    } else if parts.len() == 1 {
        parts[0]@
    } else {
        joined(parts.drop_last(), sep) + sep + parts.last()@
    }
}

pub fn trace_root_invalid(roots: &Vec<Uri>) -> (m: Message)
    ensures
        is_log_message(m, root_invalid_text(roots@)),
{
    let mut text = String::from_str("WARNING: Workspace root(s) \"");
    let ghost start = text@;
    let mut i: usize = 0;
    while i < roots.len()
        invariant
            i <= roots@.len(),
            start == "WARNING: Workspace root(s) \""@,
            text@ == start + joined(roots@.take(i as int), "\", \""@),
        decreases roots@.len() - i,
    {
        if i > 0 {
            push_text(&mut text, "\", \"");
        }
        push_text(&mut text, roots[i].as_str());
        proof {
            assert(roots@.take(i + 1).drop_last() =~= roots@.take(i as int));
            if i == 0 {
                assert(joined(roots@.take(1), "\", \""@) == roots@[0]@);
            }
        }
        i = i + 1;
    }
    push_text(&mut text, "\" do not exist.");
    proof {
        assert(roots@.take(roots@.len() as int) =~= roots@);
    }
    log_message(text)
}

/// The warning that a script could not be read.
pub open spec fn cannot_read_text(uri: Seq<char>) -> Seq<char> {
    "WARNING: File \""@ + uri + "\" could not be read."@
}

pub fn trace_doc_cannot_read(uri: &str) -> (m: Message)
    ensures
        is_log_message(m, cannot_read_text(uri@)),
{
    let mut text = String::from_str("WARNING: File \"");
    push_text(&mut text, uri);
    push_text(&mut text, "\" could not be read.");
    log_message(text)
}

/// The first task with `id` is the workspace discovery in the given step,
/// and its progress can advance.
pub open spec fn discovery_in_step(ongoing: Seq<Option<OngoingTask>>, id: NumberOrString, step: int) -> bool {
    let i = first_task_with_id(ongoing, id);
    &&& i >= 0
    &&& match ongoing[i] {
        Some(OngoingTask::WorkspaceDiscovery { progress, phase, .. }) => {
            &&& progress_can_advance(progress)
            &&& match phase {
                WorkspaceDiscoveryPhase::Scanning(..) => step == 0,
                WorkspaceDiscoveryPhase::Indexing(..) => step == 1,
                WorkspaceDiscoveryPhase::Parsing(..) => step == 2,
            }
        },
        _ => false,
    }
}

/// The scan's outcome has been recorded and the progress advanced.
pub open spec fn scan_recorded(before: Option<OngoingTask>, after: Option<OngoingTask>, sync: WorkspaceMembers) -> bool {
    match (before, after) {
        (
            Some(OngoingTask::WorkspaceDiscovery { id, onset, progress, phase: WorkspaceDiscoveryPhase::Scanning(ws, _) }),
            Some(OngoingTask::WorkspaceDiscovery { id: i2, onset: o2, progress: p2, phase: WorkspaceDiscoveryPhase::Scanning(w2, members) }),
        ) => i2 == id && o2 == onset && w2 == ws && p2 == progress_advanced(progress) && members == Some(sync),
        _ => false,
    }
}

/// Records the scripts that the scan of the workspace found; roots that do
/// not exist are warned about.
pub fn recv_workspace_file_discovery_sync(
    id: &NumberOrString,
    sync: WorkspaceMembers,
    ongoing: &mut Vec<Option<OngoingTask>>,
    outgoing: &mut Vec<Option<Message>>,
)
    requires
        discovery_in_step(old(ongoing)@, *id, 0),
    ensures
        only_slot_changed(
            old(ongoing)@,
            final(ongoing)@,
            first_task_with_id(old(ongoing)@, *id),
            |a: Option<OngoingTask>, b: Option<OngoingTask>| scan_recorded(a, b, sync),
        ),
        sync.missing_roots@.len() > 0 ==> {
            &&& final(outgoing)@.len() == old(outgoing)@.len() + 1
            &&& final(outgoing)@.drop_last() == old(outgoing)@
            &&& final(outgoing)@.last() matches Some(m) && is_log_message(m, root_invalid_text(sync.missing_roots@))
        },
        sync.missing_roots@.len() == 0 ==> final(outgoing)@ == old(outgoing)@,
{
    let idx = match find_ongoing_task_by_id(id, ongoing) {
        Some(i) => i,
        None => { return; },
    };
    let mut t: Option<OngoingTask> = None;
    std::mem::swap(&mut t, &mut ongoing[idx]);
    if let Some(OngoingTask::WorkspaceDiscovery { id: tid, onset, mut progress, phase: WorkspaceDiscoveryPhase::Scanning(workspace, _) }) = t {
        if sync.missing_roots.len() > 0 {
            outgoing.push(Some(trace_root_invalid(&sync.missing_roots)));
            proof {
                assert(outgoing@.drop_last() =~= old(outgoing)@);
            }
        }
        progress.advance();
        ongoing.set(
            idx,
            Some(OngoingTask::WorkspaceDiscovery {
                id: tid,
                onset,
                progress,
                phase: WorkspaceDiscoveryPhase::Scanning(workspace, Some(sync)),
            }),
        );
    }
}

/// The file index has been recorded and the progress advanced.
pub open spec fn index_recorded(before: Option<OngoingTask>, after: Option<OngoingTask>, sync: FileIndex) -> bool {
    match (before, after) {
        (
            Some(OngoingTask::WorkspaceDiscovery { id, onset, progress, phase: WorkspaceDiscoveryPhase::Indexing(ws, _) }),
            Some(OngoingTask::WorkspaceDiscovery { id: i2, onset: o2, progress: p2, phase: WorkspaceDiscoveryPhase::Indexing(w2, files) }),
        ) => i2 == id && o2 == onset && w2 == ws && p2 == progress_advanced(progress) && files == Some(sync),
        _ => false,
    }
}

/// Records the index of the workspace's scripts.
pub fn recv_workspace_file_indexing_sync(id: &NumberOrString, sync: FileIndex, ongoing: &mut Vec<Option<OngoingTask>>)
    requires
        discovery_in_step(old(ongoing)@, *id, 1),
    ensures
        only_slot_changed(
            old(ongoing)@,
            final(ongoing)@,
            first_task_with_id(old(ongoing)@, *id),
            |a: Option<OngoingTask>, b: Option<OngoingTask>| index_recorded(a, b, sync),
        ),
{
    let idx = match find_ongoing_task_by_id(id, ongoing) {
        Some(i) => i,
        None => { return; },
    };
    let mut t: Option<OngoingTask> = None;
    std::mem::swap(&mut t, &mut ongoing[idx]);
    if let Some(OngoingTask::WorkspaceDiscovery { id: tid, onset, mut progress, phase: WorkspaceDiscoveryPhase::Indexing(members, _) }) = t {
        progress.advance();
        ongoing.set(
            idx,
            Some(OngoingTask::WorkspaceDiscovery {
                id: tid,
                onset,
                progress,
                phase: WorkspaceDiscoveryPhase::Indexing(members, Some(sync)),
            }),
        );
    }
}

/// The notice that a script has been read and parsed.
pub open spec fn doc_change_text(uri: Seq<char>, version: i64) -> Seq<char> {
    "INFO: Text document \""@ + uri + "\" updated to version "@ + decimal_text(version as int) + "."@
}

pub fn trace_doc_change(doc: &TextDoc) -> (m: Message)
    ensures
        is_log_message(m, doc_change_text(doc.uri@, doc.version)),
{
    let mut text = String::from_str("INFO: Text document \"");
    push_text(&mut text, doc.uri.as_str());
    push_text(&mut text, "\" updated to version ");
    push_decimal(&mut text, doc.version);
    push_text(&mut text, ".");
    log_message(text)
}

/// The progress of a workspace discovery, or fresh progress for any other
/// slot.
pub open spec fn discovery_progress(t: Option<OngoingTask>) -> TaskProgress {
    match t {
        Some(OngoingTask::WorkspaceDiscovery { progress, .. }) => progress,
        _ => TaskProgress::new_spec(0),
    }
}

/// The parsing step with its progress advanced by one script.
pub open spec fn parse_recorded(before: Option<OngoingTask>, after: Option<OngoingTask>) -> bool {
    match before {
        Some(OngoingTask::WorkspaceDiscovery { id, onset, progress, phase }) => after == Some(
            OngoingTask::WorkspaceDiscovery { id, onset, progress: progress_advanced(progress), phase },
        ),
        _ => false,
    }
}

/// `j` is the first slot that reports the progress of the work `work`.
pub open spec fn is_first_work_slot(ongoing: Seq<Option<OngoingTask>>, work: NumberOrString, j: int) -> bool {
    &&& 0 <= j < ongoing.len()
    &&& has_work(ongoing[j], work)
    &&& forall|k: int| 0 <= k < j ==> !has_work(#[trigger] ongoing[k], work)
}

/// The progress reporting of the discovery: where it is reporting and a new
/// report is due for `completed` of `total`, the report is the next one to
/// send and its share is recorded; otherwise the slot is as it was.
pub open spec fn parse_reported(before: Option<OngoingTask>, after: Option<OngoingTask>, total: u32, completed: u32) -> bool {
    match before {
        Some(OngoingTask::WindowWorkDoneProgress { id, token, work, onset, phase: WorkDoneProgressPhase::Reporting { reported, .. } }) => {
            if report_due(reported, total, completed) {
                after matches Some(OngoingTask::WindowWorkDoneProgress { id: i2, token: t2, work: w2, onset: o2, phase: WorkDoneProgressPhase::Reporting { reported: r2, next: Some(p) } })
                    && i2 == id && t2 == token && w2 == work && o2 == onset && r2 == completed / total
                    && is_report_params(p, token, total, completed)
            } else {
                after == before
            }
        },
        _ => after == before,
    }
}

/// Takes in a script that has been read and parsed for the workspace
/// discovery (or the URI of one that could not be read): the progress
/// advances, a report is scheduled where one is due, and the document is
/// stored as closed unless the store already holds one with that URI, which
/// is newer: the client has opened it meanwhile.
pub fn recv_workspace_file_parsing_sync(
    trace_level: TraceValue,
    id: &NumberOrString,
    sync: Result<(TextDoc, Tree), Uri>,
    docs: &mut TextDocs,
    ongoing: &mut Vec<Option<OngoingTask>>,
    outgoing: &mut Vec<Option<Message>>,
)
    requires
        discovery_in_step(old(ongoing)@, *id, 2),
        work_search_defined(old(ongoing)@, *id),
        old(docs).wf(),
    ensures
        ({
            let i = first_task_with_id(old(ongoing)@, *id);
            let p = progress_advanced(discovery_progress(old(ongoing)@[i]));
            &&& final(ongoing)@.len() == old(ongoing)@.len()
            &&& parse_recorded(old(ongoing)@[i], final(ongoing)@[i])
            &&& forall|j: int| #![trigger final(ongoing)@[j]]
                0 <= j < old(ongoing)@.len() && j != i ==> {
                    if is_first_work_slot(old(ongoing)@, *id, j) {
                        parse_reported(old(ongoing)@[j], final(ongoing)@[j], p.total, p.completed)
                    } else {
                        final(ongoing)@[j] == old(ongoing)@[j]
                    }
                }
        }),
        trace_level == TraceValue::Off ==> final(outgoing)@ == old(outgoing)@,
        trace_level != TraceValue::Off ==> {
            &&& final(outgoing)@.len() == old(outgoing)@.len() + 1
            &&& final(outgoing)@.drop_last() == old(outgoing)@
            &&& final(outgoing)@.last() matches Some(m) && match sync {
                Ok((doc, _)) => is_log_message(m, doc_change_text(doc.uri@, doc.version)),
                Err(uri) => is_log_message(m, cannot_read_text(uri@)),
            }
        },
        match sync {
            Ok((doc, tree)) => if old(docs).entry(doc.uri@) is None {
                stored(*old(docs), *final(docs), doc.uri@, (TextDocStatus::Closed, doc, tree))
            } else {
                *final(docs) == *old(docs)
            },
            Err(_) => *final(docs) == *old(docs),
        },
{
    let ghost i = first_task_with_id(old(ongoing)@, *id);
    let idx = match find_ongoing_task_by_id(id, ongoing) {
        Some(k) => k,
        None => { return; },
    };
    assert(idx == i);
    if trace_level != TraceValue::Off {
        let msg = match &sync {
            Ok((doc, _)) => trace_doc_change(doc),
            Err(uri) => trace_doc_cannot_read(uri.as_str()),
        };
        outgoing.push(Some(msg));
        proof {
            assert(outgoing@.drop_last() =~= old(outgoing)@);
        }
    }
    let mut t: Option<OngoingTask> = None;
    std::mem::swap(&mut t, &mut ongoing[idx]);
    let (total, completed) = match t {
        Some(OngoingTask::WorkspaceDiscovery { id: tid, onset, mut progress, phase }) => {
            progress.advance();
            let tc = (progress.total, progress.completed);
            ongoing.set(idx, Some(OngoingTask::WorkspaceDiscovery { id: tid, onset, progress, phase }));
            tc
        },
        _ => {
            return;
        },
    };
    let ghost mid = ongoing@;
    assert forall|k: int| 0 <= k < mid.len() implies has_work(#[trigger] mid[k], *id) == has_work(old(ongoing)@[k], *id) by {
        if k != idx {
            assert(mid[k] == old(ongoing)@[k]);
        }
    }
    assert(work_search_defined(ongoing@, *id)) by {
        assert forall|j: int|
            0 <= j < mid.len() && (forall|k: int| 0 <= k < j ==> !has_work(#[trigger] mid[k], *id))
                implies (#[trigger] mid[j]) is Some by {
            assert forall|k: int| 0 <= k < j implies !has_work(#[trigger] old(ongoing)@[k], *id) by {
                assert(has_work(mid[k], *id) == has_work(old(ongoing)@[k], *id));
            }
            if j != idx {
                assert(mid[j] == old(ongoing)@[j]);
            }
        }
    }
    match find_workdone_progress_by_id(id, ongoing) {
        Some(w) => {
            assert(w != idx);
            assert(is_first_work_slot(old(ongoing)@, *id, w as int)) by {
                assert(mid[w as int] == old(ongoing)@[w as int]);
                assert forall|k: int| 0 <= k < w implies !has_work(#[trigger] old(ongoing)@[k], *id) by {
                    assert(has_work(mid[k], *id) == has_work(old(ongoing)@[k], *id));
                }
            }
            assert forall|j: int| 0 <= j < mid.len() && j != w implies !is_first_work_slot(old(ongoing)@, *id, j) by {
                if is_first_work_slot(old(ongoing)@, *id, j) {
                    if j < w {
                        assert(has_work(mid[j], *id) == has_work(old(ongoing)@[j], *id));
                    } else {
                        assert(!has_work(old(ongoing)@[w as int], *id));
                    }
                }
            }
            let mut u: Option<OngoingTask> = None;
            std::mem::swap(&mut u, &mut ongoing[w]);
            match u {
                Some(OngoingTask::WindowWorkDoneProgress { id: uid, token, work, onset, phase: WorkDoneProgressPhase::Reporting { reported, next } }) => {
                    let params = report_progress_workspace_discovery(copy_id(&token), reported, total, completed);
                    if params.is_some() {
                        ongoing.set(w, Some(OngoingTask::WindowWorkDoneProgress {
                            id: uid, token, work, onset,
                            phase: WorkDoneProgressPhase::Reporting { reported: completed / total, next: params },
                        }));
                    } else {
                        ongoing.set(w, Some(OngoingTask::WindowWorkDoneProgress {
                            id: uid, token, work, onset,
                            phase: WorkDoneProgressPhase::Reporting { reported, next },
                        }));
                    }
                },
                other => {
                    ongoing.set(w, other);
                },
            }
        },
        None => {
            assert forall|j: int| 0 <= j < mid.len() implies !is_first_work_slot(old(ongoing)@, *id, j) by {
                if is_first_work_slot(old(ongoing)@, *id, j) {
                    assert(has_work(mid[j], *id) == has_work(old(ongoing)@[j], *id));
                }
            }
        },
    }
    match sync {
        Ok((doc, tree)) => {
            if docs.get_doc(doc.uri.as_str()).is_none() {
                docs.add(doc, tree, TextDocStatus::Closed);
            }
        },
        Err(_) => {},
    }
}

/// `after` is `before` with one more task at its end.
pub open spec fn pushed_one(before: Seq<Task>, after: Seq<Task>) -> bool {
    after.len() == before.len() + 1 && after.drop_last() == before
}

/// The progress once the next round has been taken up.
pub open spec fn acknowledged(p: TaskProgress) -> TaskProgress {
    TaskProgress { acknowledged: true, ..p }
}

/// The discovery task in its scanning step; once the step is finished, the
/// scripts found are at hand.
pub open spec fn scanning_ok(t: Option<OngoingTask>) -> bool {
    t matches Some(OngoingTask::WorkspaceDiscovery { progress, phase: WorkspaceDiscoveryPhase::Scanning(_, m), .. })
        && (progress_finished(progress) ==> m is Some)
}

/// Takes up the scanning: the progress is acknowledged and the scripts of
/// the workspace are to be located.
pub fn move_to_file_discovery_stage(task: &mut OngoingTask, outgoing: &mut Vec<Task>)
    requires
        *old(task) matches OngoingTask::WorkspaceDiscovery { phase: WorkspaceDiscoveryPhase::Scanning(..), .. },
    ensures
        match *old(task) {
            OngoingTask::WorkspaceDiscovery { id, onset, progress, phase } => {
                &&& *final(task) == OngoingTask::WorkspaceDiscovery { id, onset, progress: acknowledged(progress), phase }
                &&& pushed_one(old(outgoing)@, final(outgoing)@)
                &&& final(outgoing)@.last() matches Task::WorkspaceFileDiscovery(i, w)
                &&& i == id
                &&& phase matches WorkspaceDiscoveryPhase::Scanning(ws, _) && same_workspace(w, ws)
            },
            _ => false,
        },
{
    match task {
        OngoingTask::WorkspaceDiscovery { id, progress, phase: WorkspaceDiscoveryPhase::Scanning(workspace, _), .. } => {
            progress.ack_ready();
            outgoing.push(Task::WorkspaceFileDiscovery(copy_id(id), copy_workspace(workspace)));
            proof {
                assert(outgoing@.drop_last() =~= old(outgoing)@);
            }
        },
        _ => {},
    }
}

/// One step of the scanning: once it is finished, the discovery goes on to
/// index the scripts found; when the next round is due, the workspace is to
/// be scanned; otherwise nothing changes.
pub open spec fn scan_progressed(before: Option<OngoingTask>, after: Option<OngoingTask>, out: Seq<Task>, out2: Seq<Task>) -> bool {
    match before {
        Some(OngoingTask::WorkspaceDiscovery { id, onset, progress, phase: WorkspaceDiscoveryPhase::Scanning(ws, m) }) => {
            if progress_finished(progress) {
                &&& after == Some(
                    OngoingTask::WorkspaceDiscovery {
                        id,
                        onset,
                        progress: single_round(),
                        phase: WorkspaceDiscoveryPhase::Indexing(m->Some_0, None),
                    },
                )
                &&& out2 == out
            } else if progress_ready(progress) {
                &&& after == Some(
                    OngoingTask::WorkspaceDiscovery {
                        id,
                        onset,
                        progress: acknowledged(progress),
                        phase: WorkspaceDiscoveryPhase::Scanning(ws, m),
                    },
                )
                &&& pushed_one(out, out2)
                &&& out2.last() matches Task::WorkspaceFileDiscovery(i, w)
                &&& i == id
                &&& same_workspace(w, ws)
            } else {
                &&& after == before
                &&& out2 == out
            }
        },
        _ => false,
    }
}

/// Moves the scanning step on: once it is finished, the discovery goes on
/// to index the scripts found; when the next round is due, the scripts are
/// to be located.
pub fn progress_workspace_file_discovery(task: &mut Option<OngoingTask>, outgoing: &mut Vec<Task>)
    requires
        scanning_ok(*old(task)),
    ensures
        scan_progressed(*old(task), *final(task), old(outgoing)@, final(outgoing)@),
{
    let finished = match task {
        Some(OngoingTask::WorkspaceDiscovery { progress, .. }) => progress.finished(),
        _ => false,
    };
    if finished {
        let t = task.take();
        match t {
            Some(OngoingTask::WorkspaceDiscovery { id, onset, phase: WorkspaceDiscoveryPhase::Scanning(_, Some(members)), .. }) => {
                *task = Some(
                    OngoingTask::WorkspaceDiscovery {
                        id,
                        onset,
                        progress: TaskProgress::new(1).with_limit(1),
                        phase: WorkspaceDiscoveryPhase::Indexing(members, None),
                    },
                );
            },
            _ => {},
        }
        return;
    }
    let ready = match task {
        Some(OngoingTask::WorkspaceDiscovery { progress, .. }) => progress.ready(),
        _ => false,
    };
    if ready {
        match task {
            Some(t) => move_to_file_discovery_stage(t, outgoing),
            None => {},
        }
    }
}

/// The discovery task in its indexing step: once the step is finished, the
/// index is at hand; before, it is not.
pub open spec fn indexing_ok(t: Option<OngoingTask>) -> bool {
    t matches Some(OngoingTask::WorkspaceDiscovery { progress, phase: WorkspaceDiscoveryPhase::Indexing(_, f), .. })
        && (progress_finished(progress) ==> f is Some)
        && (!progress_finished(progress) && progress_ready(progress) ==> f is None)
}

/// Takes up the indexing: the progress is acknowledged and the scripts found
/// are to be indexed.
pub fn move_to_file_indexing_stage(task: &mut OngoingTask, outgoing: &mut Vec<Task>)
    requires
        *old(task) matches OngoingTask::WorkspaceDiscovery { phase: WorkspaceDiscoveryPhase::Indexing(_, None), .. },
    ensures
        match *old(task) {
            OngoingTask::WorkspaceDiscovery { id, onset, progress, phase } => {
                &&& *final(task) == OngoingTask::WorkspaceDiscovery { id, onset, progress: acknowledged(progress), phase }
                &&& pushed_one(old(outgoing)@, final(outgoing)@)
                &&& final(outgoing)@.last() matches Task::WorkspaceFileIndexNew(i, files)
                &&& i == id
                &&& phase matches WorkspaceDiscoveryPhase::Indexing(members, _) && files@ == members.files@
            },
            _ => false,
        },
{
    match task {
        OngoingTask::WorkspaceDiscovery { id, progress, phase: WorkspaceDiscoveryPhase::Indexing(members, None), .. } => {
            progress.ack_ready();
            outgoing.push(Task::WorkspaceFileIndexNew(copy_id(id), copy_path(&members.files)));
            proof {
                assert(outgoing@.drop_last() =~= old(outgoing)@);
            }
        },
        _ => {},
    }
}

/// One step of the indexing, with what it hands back: once it is finished,
/// the discovery goes on to parse the scripts and the index is handed back;
/// when the next round is due, the scripts are to be indexed; otherwise
/// nothing changes.
pub open spec fn index_progressed(
    before: Option<OngoingTask>,
    after: Option<OngoingTask>,
    out: Seq<Task>,
    out2: Seq<Task>,
    r: Option<FileIndex>,
) -> bool {
    match before {
        Some(OngoingTask::WorkspaceDiscovery { id, onset, progress, phase: WorkspaceDiscoveryPhase::Indexing(members, f) }) => {
            if progress_finished(progress) {
                &&& r == f
                &&& after matches Some(OngoingTask::WorkspaceDiscovery { id: i2, onset: o2, progress: p2, phase: WorkspaceDiscoveryPhase::Parsing(m2, c) })
                &&& i2 == id && o2 == onset && m2 == members
                &&& p2 == (TaskProgress { limit: Some(1u32), ..TaskProgress::new_spec(members.files@.len() as u32) })
                &&& c.view_all() == f->Some_0.view_all()
                &&& out2 == out
            } else if progress_ready(progress) {
                &&& r is None
                &&& after == Some(
                    OngoingTask::WorkspaceDiscovery {
                        id,
                        onset,
                        progress: acknowledged(progress),
                        phase: WorkspaceDiscoveryPhase::Indexing(members, f),
                    },
                )
                &&& pushed_one(out, out2)
                &&& out2.last() matches Task::WorkspaceFileIndexNew(i, files)
                &&& i == id
                &&& files@ == members.files@
            } else {
                &&& r is None
                &&& after == before
                &&& out2 == out
            }
        },
        _ => false,
    }
}

/// Moves the indexing step on: once it is finished, the discovery goes on to
/// parse each script found, and the index is handed back; when the next
/// round is due, the scripts are to be indexed.
pub fn progress_workspace_file_indexing(task: &mut Option<OngoingTask>, outgoing: &mut Vec<Task>) -> (r: Option<FileIndex>)
    requires
        indexing_ok(*old(task)),
    ensures
        index_progressed(*old(task), *final(task), old(outgoing)@, final(outgoing)@, r),
{
    let finished = match task {
        Some(OngoingTask::WorkspaceDiscovery { progress, .. }) => progress.finished(),
        _ => false,
    };
    if finished {
        let t = task.take();
        match t {
            Some(OngoingTask::WorkspaceDiscovery { id, onset, phase: WorkspaceDiscoveryPhase::Indexing(members, Some(files)), .. }) => {
                let total = members.get_num_files();
                let copy = files.copy_index();
                *task = Some(
                    OngoingTask::WorkspaceDiscovery {
                        id,
                        onset,
                        progress: TaskProgress::new(total).with_limit(1),
                        phase: WorkspaceDiscoveryPhase::Parsing(members, copy),
                    },
                );
                return Some(files);
            },
            _ => { return None; },
        }
    }
    let ready = match task {
        Some(OngoingTask::WorkspaceDiscovery { progress, .. }) => progress.ready(),
        _ => false,
    };
    if ready {
        match task {
            Some(t) => move_to_file_indexing_stage(t, outgoing),
            None => {},
        }
    }
    None
}

/// Takes up the parsing: the progress is acknowledged and each script found
/// is to be read and parsed with a copy of the index; a copy of the index is
/// handed back.
pub fn move_to_file_parsing_stage(task: &mut OngoingTask, outgoing: &mut Vec<Task>) -> (r: FileIndex)
    requires
        *old(task) matches OngoingTask::WorkspaceDiscovery { phase: WorkspaceDiscoveryPhase::Parsing(..), .. },
    ensures
        match *old(task) {
            OngoingTask::WorkspaceDiscovery { id, onset, progress, phase: WorkspaceDiscoveryPhase::Parsing(members, files) } => {
                &&& *final(task) == OngoingTask::WorkspaceDiscovery {
                    id,
                    onset,
                    progress: acknowledged(progress),
                    phase: WorkspaceDiscoveryPhase::Parsing(members, files),
                }
                &&& scans_dispatched(old(outgoing)@, final(outgoing)@, id, members.files@, files)
                &&& r.view_all() == files.view_all()
            },
            _ => false,
        },
{
    match task {
        OngoingTask::WorkspaceDiscovery { id, progress, phase: WorkspaceDiscoveryPhase::Parsing(members, files), .. } => {
            progress.ack_ready();
            let ghost before = outgoing@;
            let mut k: usize = 0;
            while k < members.files.len()
                invariant
                    k <= members.files@.len(),
                    outgoing@.len() == before.len() + k,
                    outgoing@.take(before.len() as int) == before,
                    forall|j: int| 0 <= j < k ==> (#[trigger] outgoing@[before.len() + j] matches Task::WorkspaceFileScan(i, u, c)
                        && i == *id && u@ == members.files@[j]@ && c.view_all() == files.view_all()),
                decreases members.files@.len() - k,
            {
                let ghost o0 = outgoing@;
                outgoing.push(Task::WorkspaceFileScan(copy_id(id), members.files[k].clone(), files.copy_index()));
                proof {
                    assert(outgoing@.take(before.len() as int) =~= o0.take(before.len() as int));
                    assert forall|j: int| 0 <= j < k + 1 implies (#[trigger] outgoing@[before.len() + j] matches Task::WorkspaceFileScan(i, u, c)
                        && i == *id && u@ == members.files@[j]@ && c.view_all() == files.view_all()) by {
                        if j < k {
                            assert(outgoing@[before.len() + j] == o0[before.len() + j]);
                        }
                    }
                }
                k = k + 1;
            }
            files.copy_index()
        },
        _ => FileIndex::new(),
    }
}

/// `after` is `before` followed by one scan of each script of `uris`, in
/// order, each with a copy of the index.
pub open spec fn scans_dispatched(before: Seq<Task>, after: Seq<Task>, id: NumberOrString, uris: Seq<Uri>, files: FileIndex) -> bool {
    &&& after.len() == before.len() + uris.len()
    &&& after.take(before.len() as int) == before
    &&& forall|j: int| 0 <= j < uris.len() ==> (#[trigger] after[before.len() + j] matches Task::WorkspaceFileScan(i, u, c)
        && i == id && u@ == uris[j]@ && c.view_all() == files.view_all())
}

/// Moves the parsing step on: once it is finished, the discovery is done;
/// when the next round is due, each script is to be read and parsed.
pub fn progress_workspace_file_parsing(
    task: &mut Option<OngoingTask>,
    outgoing: &mut Vec<Task>,
    done: &mut Vec<Option<TaskDone>>,
)
    requires
        *old(task) matches Some(OngoingTask::WorkspaceDiscovery { phase: WorkspaceDiscoveryPhase::Parsing(..), .. }),
    ensures
        match *old(task) {
            Some(OngoingTask::WorkspaceDiscovery { id, onset, progress, phase: WorkspaceDiscoveryPhase::Parsing(members, files) }) => {
                if progress_finished(progress) {
                    &&& *final(task) == *old(task)
                    &&& final(outgoing)@ == old(outgoing)@
                    &&& final(done)@ == old(done)@.push(Some(TaskDone::WorkspaceFileDiscovery(id)))
                } else if progress_ready(progress) {
                    &&& *final(task) == Some(
                        OngoingTask::WorkspaceDiscovery {
                            id,
                            onset,
                            progress: acknowledged(progress),
                            phase: WorkspaceDiscoveryPhase::Parsing(members, files),
                        },
                    )
                    &&& scans_dispatched(old(outgoing)@, final(outgoing)@, id, members.files@, files)
                    &&& final(done)@ == old(done)@
                } else {
                    &&& *final(task) == *old(task)
                    &&& final(outgoing)@ == old(outgoing)@
                    &&& final(done)@ == old(done)@
                }
            },
            _ => false,
        },
{
    let finished = match task {
        Some(OngoingTask::WorkspaceDiscovery { progress, .. }) => progress.finished(),
        _ => false,
    };
    if finished {
        match task {
            Some(OngoingTask::WorkspaceDiscovery { id, .. }) => {
                done.push(Some(TaskDone::WorkspaceFileDiscovery(copy_id(id))));
            },
            _ => {},
        }
        return;
    }
    let ready = match task {
        Some(OngoingTask::WorkspaceDiscovery { progress, .. }) => progress.ready(),
        _ => false,
    };
    if ready {
        match task {
            Some(t) => {
                move_to_file_parsing_stage(t, outgoing);
            },
            None => {},
        }
    }
}

/// Numbers the moves that the client reported as an internal task, and gives
/// the work that records them in the index and among the documents.
pub fn process_files_did_rename_notif(tasks: &mut Tasks, renamed: Vec<FileRename>, files: FileIndex) -> (job: Task)
    requires
        old(tasks).counters.tasks_int.count < i64::MAX,
    ensures
        final(tasks).counters.tasks_int.count == old(tasks).counters.tasks_int.count + 1,
        final(tasks).counters.progress == old(tasks).counters.progress,
        final(tasks).counters.tasks_ext == old(tasks).counters.tasks_ext,
        final(tasks).ongoing == old(tasks).ongoing,
        final(tasks).completed == old(tasks).completed,
        job matches Task::DidRenameFiles(id, ops, f) && id == NumberOrString::Number(old(tasks).counters.tasks_int.count)
            && f == files && ops.old@.len() == renamed@.len() && ops.new@.len() == renamed@.len()
            && forall|i: int| 0 <= i < renamed@.len() ==> #[trigger] ops.old@[i] == renamed@[i].old_uri
                && ops.new@[i] == renamed@[i].new_uri,
{
    let id = tasks.counters.tasks_int.next_id();
    Task::DidRenameFiles(id, RenameFileOperations::from_renames(renamed), files)
}

} // verus!
