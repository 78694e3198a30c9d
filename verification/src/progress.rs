//! Reporting the progress of server work to the client.
//!
//! A report runs through fixed steps: the server asks the client for a
//! progress token, the client accepts it, the server sends the beginning,
//! then reports, then the end. The client may cancel at any time.
use vstd::prelude::*;

use crate::discovery::{announce_progress_workspace_discovery, is_announce_params};
use crate::lsp::{
    copy_id, id_equal, id_text, is_log_message, log_message, push_id, same_id, Message,
    Notification, Request,
};
use crate::protocol::{
    NumberOrString, ProgressParams, ProgressToken, TraceValue, WorkDoneProgressCreateParams,
    WorkDoneProgressReport, WorkDoneProgressValue,
};
use crate::tasks::{
    now, response_already_processed_text, warn_response_already_processed, OngoingTask,
    TaskCounterExternal, TaskCounters, TaskDone, WorkDoneProgressPhase,
};

verus! {

/// The text that announces progress reporting with a token.
pub open spec fn announced_text(token: ProgressToken) -> Seq<char> {
    "INFO: Server has announced progress reporting with token \""@ + id_text(token) + "\"."@
}

/// The text that confirms that the client canceled progress reporting.
pub open spec fn canceled_text(token: ProgressToken) -> Seq<char> {
    "INFO: Client has canceled server progress reporting with token \""@ + id_text(token) + "\"."@
}

/// The warning that no progress reporting has the token to cancel.
pub open spec fn not_found_text(token: ProgressToken) -> Seq<char> {
    "WARNING: Server cannot cancel progress reporting with token \""@ + id_text(token)
        + "\". Token not found."@
}

fn trace_server_work_announced(token: &ProgressToken) -> (m: Message)
    ensures
        is_log_message(m, announced_text(*token)),
{
    let mut text = String::from_str("INFO: Server has announced progress reporting with token \"");
    push_id(&mut text, token);
    text.append("\".");
    log_message(text)
}

fn trace_server_work_canceled(token: &ProgressToken) -> (m: Message)
    ensures
        is_log_message(m, canceled_text(*token)),
{
    let mut text = String::from_str("INFO: Client has canceled server progress reporting with token \"");
    push_id(&mut text, token);
    text.append("\".");
    log_message(text)
}

fn warn_server_work_not_found(token: &ProgressToken) -> (m: Message)
    ensures
        is_log_message(m, not_found_text(*token)),
{
    let mut text = String::from_str("WARNING: Server cannot cancel progress reporting with token \"");
    push_id(&mut text, token);
    text.append("\". Token not found.");
    log_message(text)
}

/// `outgoing` gained one log message with `text` where tracing is on, and
/// nothing otherwise.
pub open spec fn traced(
    trace_level: TraceValue,
    before: Seq<Option<Message>>,
    after: Seq<Option<Message>>,
    text: Seq<char>,
) -> bool {
    if trace_level == TraceValue::Off {
        after == before
    } else {
        &&& after.len() == before.len() + 1
        &&& after.drop_last() == before
        &&& after.last() matches Some(m) && is_log_message(m, text)
    }
}

/// A progress reporting that has just been set up, waiting to ask the client
/// for `token`.
pub open spec fn is_new_progress(
    slot: Option<OngoingTask>,
    id: NumberOrString,
    token: ProgressToken,
    work: NumberOrString,
) -> bool {
    match slot {
        Some(OngoingTask::WindowWorkDoneProgress { id: i, token: t, work: w, phase, .. }) => {
            &&& i == id
            &&& t == token
            &&& w == work
            &&& phase matches WorkDoneProgressPhase::Ready(p) && is_announce_params(p, token)
        },
        _ => false,
    }
}

/// Sets up progress reporting for the work `work`: a new token, and a task
/// that waits to announce it.
pub fn initiate_server_workdone_progress(
    trace_level: TraceValue,
    work: NumberOrString,
    counters: &mut TaskCounters,
    ongoing: &mut Vec<Option<OngoingTask>>,
    outgoing: &mut Vec<Option<Message>>,
)
    requires
        old(counters).progress.count < i64::MAX,
        old(counters).tasks_ext.count < i64::MAX,
    ensures
        final(counters).progress.count == old(counters).progress.count + 1,
        final(counters).tasks_ext.count == old(counters).tasks_ext.count + 1,
        final(counters).tasks_int == old(counters).tasks_int,
        final(ongoing)@.len() == old(ongoing)@.len() + 1,
        final(ongoing)@.drop_last() == old(ongoing)@,
        is_new_progress(
            final(ongoing)@.last(),
            NumberOrString::Number(old(counters).tasks_ext.count),
            NumberOrString::Number(old(counters).progress.count),
            work,
        ),
        traced(
            trace_level,
            old(outgoing)@,
            final(outgoing)@,
            announced_text(NumberOrString::Number(old(counters).progress.count)),
        ),
{
    let token = counters.progress.next_id();
    let params = announce_progress_workspace_discovery(copy_id(&token));
    let id = counters.tasks_ext.next_id();
    let message = if trace_level != TraceValue::Off {
        Some(trace_server_work_announced(&token))
    } else {
        None
    };
    ongoing.push(
        Some(
            OngoingTask::WindowWorkDoneProgress {
                id,
                token,
                work,
                onset: now(),
                phase: WorkDoneProgressPhase::Ready(params),
            },
        ),
    );
    if let Some(m) = message {
        outgoing.push(Some(m));
        proof {
            assert(outgoing@.drop_last() =~= old(outgoing)@);
        }
    }
    proof {
        assert(ongoing@.drop_last() =~= old(ongoing)@);
    }
}

/// The slot holds progress reporting with the token `tok`.
pub open spec fn has_token(slot: Option<OngoingTask>, tok: ProgressToken) -> bool {
    slot matches Some(OngoingTask::WindowWorkDoneProgress { token, .. }) && same_id(token, tok)
}

/// The slot holds progress reporting for the work `work`.
pub open spec fn has_work(slot: Option<OngoingTask>, work: NumberOrString) -> bool {
    slot matches Some(OngoingTask::WindowWorkDoneProgress { work: w, .. }) && same_id(w, work)
}

/// Every slot that a search for `tok` reaches holds a task.
pub open spec fn token_search_defined(ongoing: Seq<Option<OngoingTask>>, tok: ProgressToken) -> bool {
    forall|j: int|
        0 <= j < ongoing.len() && (forall|k: int| 0 <= k < j ==> !has_token(#[trigger] ongoing[k], tok))
            ==> (#[trigger] ongoing[j]) is Some
}

/// Every slot that a search for `work` reaches holds a task.
pub open spec fn work_search_defined(ongoing: Seq<Option<OngoingTask>>, work: NumberOrString) -> bool {
    forall|j: int|
        0 <= j < ongoing.len() && (forall|k: int| 0 <= k < j ==> !has_work(#[trigger] ongoing[k], work))
            ==> (#[trigger] ongoing[j]) is Some
}

/// `r` is the first slot with token `tok`, or none is.
pub open spec fn first_with_token(ongoing: Seq<Option<OngoingTask>>, tok: ProgressToken, r: Option<usize>) -> bool {
    match r {
        Some(i) => {
            &&& i < ongoing.len()
            &&& has_token(ongoing[i as int], tok)
            &&& forall|k: int| 0 <= k < i ==> !has_token(#[trigger] ongoing[k], tok)
        },
        None => forall|k: int| 0 <= k < ongoing.len() ==> !has_token(#[trigger] ongoing[k], tok),
    }
}

/// `r` is the first slot for the work `work`, or none is.
pub open spec fn first_with_work(ongoing: Seq<Option<OngoingTask>>, work: NumberOrString, r: Option<usize>) -> bool {
    match r {
        Some(i) => {
            &&& i < ongoing.len()
            &&& has_work(ongoing[i as int], work)
            &&& forall|k: int| 0 <= k < i ==> !has_work(#[trigger] ongoing[k], work)
        },
        None => forall|k: int| 0 <= k < ongoing.len() ==> !has_work(#[trigger] ongoing[k], work),
    }
}

/// Finds the progress reporting with the token `tok`.
pub fn find_workdone_progress_by_token(tok: &ProgressToken, ongoing: &Vec<Option<OngoingTask>>) -> (r: Option<usize>)
    requires
        token_search_defined(ongoing@, *tok),
    ensures
        first_with_token(ongoing@, *tok, r),
{
    let mut i: usize = 0;
    while i < ongoing.len()
        invariant
            i <= ongoing@.len(),
            token_search_defined(ongoing@, *tok),
            forall|k: int| 0 <= k < i ==> !has_token(#[trigger] ongoing@[k], *tok),
        decreases ongoing@.len() - i,
    {
        assert(ongoing@[i as int] is Some);
        match &ongoing[i] {
            Some(OngoingTask::WindowWorkDoneProgress { token, .. }) => {
                if id_equal(token, tok) {
                    return Some(i);
                }
            },
            _ => {},
        }
        i = i + 1;
    }
    None
}

/// Finds the progress reporting for the work `id`.
pub fn find_workdone_progress_by_id(id: &ProgressToken, ongoing: &Vec<Option<OngoingTask>>) -> (r: Option<usize>)
    requires
        work_search_defined(ongoing@, *id),
    ensures
        first_with_work(ongoing@, *id, r),
{
    let mut i: usize = 0;
    while i < ongoing.len()
        invariant
            i <= ongoing@.len(),
            work_search_defined(ongoing@, *id),
            forall|k: int| 0 <= k < i ==> !has_work(#[trigger] ongoing@[k], *id),
        decreases ongoing@.len() - i,
    {
        assert(ongoing@[i as int] is Some);
        match &ongoing[i] {
            Some(OngoingTask::WindowWorkDoneProgress { work, .. }) => {
                if id_equal(work, id) {
                    return Some(i);
                }
            },
            _ => {},
        }
        i = i + 1;
    }
    None
}

/// The task with its reporting step replaced.
pub open spec fn with_phase(t: OngoingTask, phase: WorkDoneProgressPhase) -> OngoingTask {
    match t {
        OngoingTask::WindowWorkDoneProgress { id, token, work, onset, .. } => {
            OngoingTask::WindowWorkDoneProgress { id, token, work, onset, phase }
        },
        _ => t,
    }
}

/// Takes the task out of a slot, leaving it empty.
fn take_slot(ongoing: &mut Vec<Option<OngoingTask>>, i: usize) -> (t: Option<OngoingTask>)
    requires
        i < old(ongoing)@.len(),
    ensures
        t == old(ongoing)@[i as int],
        final(ongoing)@ == old(ongoing)@.update(i as int, None),
{
    let mut t: Option<OngoingTask> = None;
    std::mem::swap(&mut t, &mut ongoing[i]);
    t
}

/// Marks the progress reporting with `token` as canceled by the client.
pub fn cancel_server_workdone_progress(
    trace_level: TraceValue,
    token: ProgressToken,
    ongoing: &mut Vec<Option<OngoingTask>>,
    outgoing: &mut Vec<Option<Message>>,
)
    requires
        token_search_defined(old(ongoing)@, token),
    ensures
        exists|r: Option<usize>| #![trigger first_with_token(old(ongoing)@, token, r)]
            first_with_token(old(ongoing)@, token, r) && match r {
                Some(i) => {
                    &&& final(ongoing)@ == old(ongoing)@.update(
                        i as int,
                        Some(with_phase(old(ongoing)@[i as int]->Some_0, WorkDoneProgressPhase::Aborted)),
                    )
                    &&& traced(trace_level, old(outgoing)@, final(outgoing)@, canceled_text(token))
                },
                None => {
                    &&& final(ongoing)@ == old(ongoing)@
                    &&& traced(trace_level, old(outgoing)@, final(outgoing)@, not_found_text(token))
                },
            },
{
    let slot = find_workdone_progress_by_token(&token, ongoing);
    if let Some(idx) = slot {
        let t = take_slot(ongoing, idx);
        if let Some(OngoingTask::WindowWorkDoneProgress { id, token: tok, work, onset, .. }) = t {
            ongoing.set(
                idx,
                Some(
                    OngoingTask::WindowWorkDoneProgress {
                        id,
                        token: tok,
                        work,
                        onset,
                        phase: WorkDoneProgressPhase::Aborted,
                    },
                ),
            );
        }
        proof {
            assert(ongoing@ =~= old(ongoing)@.update(
                idx as int,
                Some(with_phase(old(ongoing)@[idx as int]->Some_0, WorkDoneProgressPhase::Aborted)),
            ));
        }
    }
    if trace_level != TraceValue::Off {
        let msg = if slot.is_some() {
            trace_server_work_canceled(&token)
        } else {
            warn_server_work_not_found(&token)
        };
        outgoing.push(Some(msg));
        proof {
            assert(outgoing@.drop_last() =~= old(outgoing)@);
        }
    }
    assert(first_with_token(old(ongoing)@, token, slot));
}

/// The client has accepted the token: an announced reporting moves on to
/// send its beginning. A second acceptance is warned about.
pub fn confirm_server_workdone_progress(
    trace_level: TraceValue,
    job: &mut OngoingTask,
    outgoing: &mut Vec<Option<Message>>,
)
    requires
        *old(job) is WindowWorkDoneProgress,
    ensures
        match *old(job) {
            OngoingTask::WindowWorkDoneProgress { id, phase, .. } => match phase {
                WorkDoneProgressPhase::Announced(p) => {
                    &&& *final(job) == with_phase(*old(job), WorkDoneProgressPhase::Initialized(p))
                    &&& final(outgoing)@ == old(outgoing)@
                },
                _ => {
                    &&& *final(job) == *old(job)
                    &&& traced(trace_level, old(outgoing)@, final(outgoing)@, response_already_processed_text(id))
                },
            },
            _ => false,
        },
{
    match job {
        OngoingTask::WindowWorkDoneProgress { id, phase, .. } => {
            let mut current = WorkDoneProgressPhase::Aborted;
            std::mem::swap(&mut current, phase);
            match current {
                WorkDoneProgressPhase::Announced(params) => {
                    *phase = WorkDoneProgressPhase::Initialized(params);
                },
                other => {
                    *phase = other;
                    if trace_level != TraceValue::Off {
                        outgoing.push(Some(warn_response_already_processed(id)));
                        proof {
                            assert(outgoing@.drop_last() =~= old(outgoing)@);
                        }
                    }
                },
            }
        },
        _ => {},
    }
}

/// The client has canceled: the reporting ends as aborted.
pub fn abort_server_workdone_progress(
    trace_level: TraceValue,
    job: &mut OngoingTask,
    outgoing: &mut Vec<Option<Message>>,
)
    requires
        *old(job) is WindowWorkDoneProgress,
    ensures
        *final(job) == with_phase(*old(job), WorkDoneProgressPhase::Aborted),
        final(outgoing)@ == old(outgoing)@,
{
    match job {
        OngoingTask::WindowWorkDoneProgress { phase, .. } => {
            *phase = WorkDoneProgressPhase::Aborted;
        },
        _ => {},
    }
}

/// A notification that carries a progress report.
pub open spec fn is_progress_notification(m: Option<Message>, p: ProgressParams) -> bool {
    m == Some(Message::Notification(Notification::WorkDoneProgressNotification { params: p }))
}

/// What a broadcast needs: a report that states its percentage, and an
/// identifier left for the request that asks the client for the token.
pub open spec fn broadcast_defined(task: Option<OngoingTask>, counter: TaskCounterExternal) -> bool {
    match task {
        Some(OngoingTask::WindowWorkDoneProgress { phase, .. }) => match phase {
            WorkDoneProgressPhase::Reporting { next: Some(p), .. } => {
                p.value matches WorkDoneProgressValue::Report(r) && r.percentage is Some
            },
            WorkDoneProgressPhase::Ready(_) => counter.count < i64::MAX,
            _ => true,
        },
        _ => false,
    }
}

/// The percentage that a report states.
pub open spec fn report_percentage(p: ProgressParams) -> u32 {
    match p.value {
        WorkDoneProgressValue::Report(r) => match r.percentage {
            Some(x) => x,
            None => 0,
        },
        _ => 0,
    }
}

/// One step of progress reporting: what is sent to the client, what is
/// reported as done, and the step that follows.
pub open spec fn broadcast_step(
    task: OngoingTask,
    counter: TaskCounterExternal,
    task2: OngoingTask,
    counter2: TaskCounterExternal,
    out: Seq<Option<Message>>,
    out2: Seq<Option<Message>>,
    done: Seq<Option<TaskDone>>,
    done2: Seq<Option<TaskDone>>,
) -> bool {
    match task {
        OngoingTask::WindowWorkDoneProgress { id, token, phase, .. } => match phase {
            WorkDoneProgressPhase::Reporting { reported, next } => match next {
                Some(p) => {
                    &&& task2 == with_phase(task, WorkDoneProgressPhase::Reporting { reported: report_percentage(p), next: None })
                    &&& out2 == out.push(Some(Message::Notification(Notification::WorkDoneProgressNotification { params: p })))
                    &&& done2 == done
                    &&& counter2 == counter
                },
                None => task2 == task && out2 == out && done2 == done && counter2 == counter,
            },
            WorkDoneProgressPhase::Ready(p) => {
                &&& task2 == with_phase(task, WorkDoneProgressPhase::Announced(p))
                &&& out2 == out.push(Some(Message::Request(Request::WindowWorkDoneProgressCreate {
                    id: NumberOrString::Number(counter.count),
                    params: WorkDoneProgressCreateParams { token },
                })))
                &&& counter2.count == counter.count + 1
                &&& done2 == done
            },
            WorkDoneProgressPhase::Initialized(p) => {
                &&& task2 == with_phase(task, WorkDoneProgressPhase::Reporting { reported: 0, next: None })
                &&& out2 == out.push(Some(Message::Notification(Notification::WorkDoneProgressNotification { params: p })))
                &&& done2 == done
                &&& counter2 == counter
            },
            WorkDoneProgressPhase::Finished(Some(p)) => {
                &&& task2 == with_phase(task, WorkDoneProgressPhase::Finished(None))
                &&& out2 == out.push(Some(Message::Notification(Notification::WorkDoneProgressNotification { params: p })))
                &&& done2 == done.push(Some(TaskDone::WindowWorkDoneProgress(id, false)))
                &&& counter2 == counter
            },
            WorkDoneProgressPhase::Finished(None) | WorkDoneProgressPhase::Announced(_) => {
                task2 == task && out2 == out && done2 == done && counter2 == counter
            },
            WorkDoneProgressPhase::Aborted => {
                &&& task2 == with_phase(task, WorkDoneProgressPhase::Finished(None))
                &&& out2 == out
                &&& done2 == done.push(Some(TaskDone::WindowWorkDoneProgress(id, true)))
                &&& counter2 == counter
            },
        },
        _ => false,
    }
}

/// Takes progress reporting one step further: asks the client for the token,
/// sends the beginning, a pending report or the end, or reports that the
/// reporting has ended.
pub fn broadcast_work_done(
    task: &mut Option<OngoingTask>,
    counter: &mut TaskCounterExternal,
    outgoing: &mut Vec<Option<Message>>,
    done: &mut Vec<Option<TaskDone>>,
)
    requires
        broadcast_defined(*old(task), *old(counter)),
    ensures
        *final(task) is Some,
        broadcast_step(
            old(task)->Some_0,
            *old(counter),
            final(task)->Some_0,
            *final(counter),
            old(outgoing)@,
            final(outgoing)@,
            old(done)@,
            final(done)@,
        ),
{
    let t = task.take();
    match t {
        Some(OngoingTask::WindowWorkDoneProgress { id, token, work, onset, phase }) => {
            let next_phase = match phase {
                WorkDoneProgressPhase::Reporting { reported, next } => match next {
                    Some(params) => {
                        let percentage = match &params.value {
                            WorkDoneProgressValue::Report(WorkDoneProgressReport { percentage: Some(percentage), .. }) => *percentage,
                            _ => reported,
                        };
                        outgoing.push(Some(Message::Notification(Notification::WorkDoneProgressNotification { params })));
                        WorkDoneProgressPhase::Reporting { reported: percentage, next: None }
                    },
                    None => WorkDoneProgressPhase::Reporting { reported, next: None },
                },
                WorkDoneProgressPhase::Ready(params) => {
                    let msg = Message::Request(Request::WindowWorkDoneProgressCreate {
                        id: counter.next_id(),
                        params: WorkDoneProgressCreateParams { token: copy_id(&token) },
                    });
                    outgoing.push(Some(msg));
                    WorkDoneProgressPhase::Announced(params)
                },
                WorkDoneProgressPhase::Initialized(params) => {
                    outgoing.push(Some(Message::Notification(Notification::WorkDoneProgressNotification { params })));
                    WorkDoneProgressPhase::Reporting { reported: 0, next: None }
                },
                WorkDoneProgressPhase::Finished(Some(params)) => {
                    outgoing.push(Some(Message::Notification(Notification::WorkDoneProgressNotification { params })));
                    done.push(Some(TaskDone::WindowWorkDoneProgress(copy_id(&id), false)));
                    WorkDoneProgressPhase::Finished(None)
                },
                WorkDoneProgressPhase::Finished(None) => WorkDoneProgressPhase::Finished(None),
                WorkDoneProgressPhase::Announced(params) => WorkDoneProgressPhase::Announced(params),
                WorkDoneProgressPhase::Aborted => {
                    done.push(Some(TaskDone::WindowWorkDoneProgress(copy_id(&id), true)));
                    WorkDoneProgressPhase::Finished(None)
                },
            };
            *task = Some(OngoingTask::WindowWorkDoneProgress { id, token, work, onset, phase: next_phase });
        },
        _ => {},
    }
}

/// Once reporting has ended, broadcasting does nothing more: no message, no
/// report of completion, no change of the task.
pub proof fn law_finished_reporting_is_final(
    task: OngoingTask,
    counter: TaskCounterExternal,
    task2: OngoingTask,
    counter2: TaskCounterExternal,
    out: Seq<Option<Message>>,
    out2: Seq<Option<Message>>,
    done: Seq<Option<TaskDone>>,
    done2: Seq<Option<TaskDone>>,
)
    requires
        task matches OngoingTask::WindowWorkDoneProgress { phase: WorkDoneProgressPhase::Finished(None), .. },
        broadcast_step(task, counter, task2, counter2, out, out2, done, done2),
    ensures
        task2 == task,
        counter2 == counter,
        out2 == out,
        done2 == done,
{
}

/// A reporting that the client canceled ends with one report of completion
/// marked as canceled, sends nothing, and is final afterwards.
pub proof fn law_canceled_reporting_ends_once(
    task: OngoingTask,
    counter: TaskCounterExternal,
    task2: OngoingTask,
    counter2: TaskCounterExternal,
    task3: OngoingTask,
    counter3: TaskCounterExternal,
    out: Seq<Option<Message>>,
    out2: Seq<Option<Message>>,
    out3: Seq<Option<Message>>,
    done: Seq<Option<TaskDone>>,
    done2: Seq<Option<TaskDone>>,
    done3: Seq<Option<TaskDone>>,
)
    requires
        task matches OngoingTask::WindowWorkDoneProgress { phase: WorkDoneProgressPhase::Aborted, .. },
        broadcast_step(task, counter, task2, counter2, out, out2, done, done2),
        broadcast_step(task2, counter2, task3, counter3, out2, out3, done2, done3),
    ensures
        out3 == out,
        done3 == done.push(Some(TaskDone::WindowWorkDoneProgress(task_id_of(task), true))),
        task3 == with_phase(task, WorkDoneProgressPhase::Finished(None)),
{
}

/// The identifier of a progress reporting task.
pub open spec fn task_id_of(task: OngoingTask) -> NumberOrString {
    match task {
        OngoingTask::WindowWorkDoneProgress { id, .. } => id,
        _ => NumberOrString::Number(0),
    }
}

/// A reporting that is ready asks the client for its token once: the first
/// broadcast sends the request with the next identifier, a second one,
/// before the client answers, sends nothing.
pub proof fn law_token_requested_once(
    task: OngoingTask,
    counter: TaskCounterExternal,
    task2: OngoingTask,
    counter2: TaskCounterExternal,
    task3: OngoingTask,
    counter3: TaskCounterExternal,
    out: Seq<Option<Message>>,
    out2: Seq<Option<Message>>,
    out3: Seq<Option<Message>>,
    done: Seq<Option<TaskDone>>,
    done2: Seq<Option<TaskDone>>,
    done3: Seq<Option<TaskDone>>,
)
    requires
        task matches OngoingTask::WindowWorkDoneProgress { phase: WorkDoneProgressPhase::Ready(_), .. },
        broadcast_step(task, counter, task2, counter2, out, out2, done, done2),
        broadcast_step(task2, counter2, task3, counter3, out2, out3, done2, done3),
    ensures
        out3.len() == out.len() + 1,
        out3.last() matches Some(Message::Request(Request::WindowWorkDoneProgressCreate { id, .. }))
            && id == NumberOrString::Number(counter.count),
        counter3.count == counter.count + 1,
        done3 == done,
        task3 == task2,
{
}

/// Confirmation moves an announced reporting on, so that the next broadcast
/// sends the beginning with the announced parameters.
pub proof fn law_confirmed_reporting_sends_beginning(
    task: OngoingTask,
    counter: TaskCounterExternal,
    task2: OngoingTask,
    counter2: TaskCounterExternal,
    out: Seq<Option<Message>>,
    out2: Seq<Option<Message>>,
    done: Seq<Option<TaskDone>>,
    done2: Seq<Option<TaskDone>>,
    p: ProgressParams,
)
    requires
        task matches OngoingTask::WindowWorkDoneProgress { .. },
        broadcast_step(with_phase(task, WorkDoneProgressPhase::Initialized(p)), counter, task2, counter2, out, out2, done, done2),
    ensures
        out2 == out.push(Some(Message::Notification(Notification::WorkDoneProgressNotification { params: p }))),
        task2 == with_phase(task, WorkDoneProgressPhase::Reporting { reported: 0, next: None }),
        done2 == done,
{
}

} // verus!
