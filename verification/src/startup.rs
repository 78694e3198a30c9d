//! What the server does while it starts: it discovers the workspace, and it
//! answers or holds back the messages that arrive meanwhile.
use vstd::prelude::*;

use crate::config::{Config, Workspace};
use crate::discovery::{
    discovery_in_step, index_recorded, is_new_discovery, prepare_workspace_discovery, recv_workspace_file_discovery_sync,
    recv_workspace_file_indexing_sync, root_invalid_text, scan_recorded, scan_progressed, index_progressed,
    scanning_ok, indexing_ok, progress_workspace_file_discovery, progress_workspace_file_indexing,
};
use crate::files::FileIndex;
use crate::references::only_slot_changed;
use crate::text::push_text;
use crate::lsp::{
    copy_id, error_shutdown_seq, id_text, is_invalid_request_error, is_log_message, log_message, push_id, request_id,
    shutdown_seq_text, Message,
    Notification, NullResponse, Request, Response,
};
use crate::progress::{
    broadcast_step, broadcast_work_done, canceled_text, cancel_server_workdone_progress, first_with_token, initiate_server_workdone_progress,
    is_new_progress, not_found_text, token_search_defined, traced, with_phase,
};
use crate::protocol::{
    NumberOrString, SetTraceParams, TraceValue, WorkDoneProgressCancelParams, WorkDoneProgressValue,
};
use crate::tasks::{
    first_task_with_id, OngoingTask, Task, TaskCounterExternal, TaskCounters, TaskDone, WorkDoneProgressPhase,
    WorkspaceDiscoveryPhase,
};

verus! {

/// The tasks of the server and the counters for their identifiers.
#[derive(Debug, PartialEq)]
pub struct Tasks {
    pub counters: TaskCounters,
    pub ongoing: Vec<Option<OngoingTask>>,
    pub completed: Vec<Option<TaskDone>>,
}

/// The state of a starting server.
#[derive(Debug, PartialEq)]
pub struct InitState {
    pub shutdown_request_recv: bool,
    pub exit_requested: bool,
    pub tasks: Tasks,
}

/// Starts the discovery of the workspace's scripts, with progress reporting
/// where the client supports it.
pub fn discover_files(
    cfg: &Config,
    workspace: Workspace,
    counters: &mut TaskCounters,
    ongoing: &mut Vec<Option<OngoingTask>>,
    outgoing: &mut Vec<Option<Message>>,
)
    requires
        old(counters).tasks_int.count < i64::MAX,
        cfg.server_progress_supported ==> old(counters).progress.count < i64::MAX
            && old(counters).tasks_ext.count < i64::MAX,
    ensures
        final(counters).tasks_int.count == old(counters).tasks_int.count + 1,
        is_new_discovery(
            final(ongoing)@[old(ongoing)@.len() as int],
            NumberOrString::Number(old(counters).tasks_int.count),
            workspace,
        ),
        final(ongoing)@.take(old(ongoing)@.len() as int) == old(ongoing)@,
        if cfg.server_progress_supported {
            &&& final(ongoing)@.len() == old(ongoing)@.len() + 2
            &&& final(counters).progress.count == old(counters).progress.count + 1
            &&& final(counters).tasks_ext.count == old(counters).tasks_ext.count + 1
            &&& is_new_progress(
                final(ongoing)@[old(ongoing)@.len() + 1int],
                NumberOrString::Number(old(counters).tasks_ext.count),
                NumberOrString::Number(old(counters).progress.count),
                NumberOrString::Number(old(counters).tasks_int.count),
            )
            &&& traced(
                cfg.trace_level,
                old(outgoing)@,
                final(outgoing)@,
                crate::progress::announced_text(NumberOrString::Number(old(counters).progress.count)),
            )
        } else {
            &&& final(ongoing)@.len() == old(ongoing)@.len() + 1
            &&& final(counters).progress == old(counters).progress
            &&& final(counters).tasks_ext == old(counters).tasks_ext
            &&& final(outgoing)@ == old(outgoing)@
        },
{
    let work = counters.tasks_int.next_id();
    prepare_workspace_discovery(copy_id(&work), workspace, ongoing);
    let ghost mid = ongoing@;
    if cfg.server_progress_supported {
        initiate_server_workdone_progress(cfg.trace_level, work, counters, ongoing, outgoing);
        proof {
            assert(ongoing@.drop_last() == mid);
            assert(ongoing@[old(ongoing)@.len() as int] == mid[old(ongoing)@.len() as int]);
        }
    }
    proof {
        assert(ongoing@.take(old(ongoing)@.len() as int) =~= old(ongoing)@);
    }
}

/// Messages that can only be dealt with once the workspace is known: they
/// are held back.
pub open spec fn is_postponed(msg: Message) -> bool {
    match msg {
        Message::Notification(n) => match n {
            Notification::DidChangeTextDocumentNotification { .. }
            | Notification::DidCloseTextDocumentNotification { .. }
            | Notification::DidOpenTextDocumentNotification { .. }
            | Notification::DidRenameFilesNotification { .. } => true,
            _ => false,
        },
        Message::Request(r) => match r {
            Request::FindReferences { .. }
            | Request::FoldingRange { .. }
            | Request::GoToDefinition { .. }
            | Request::SemanticTokensFull { .. }
            | Request::SemanticTokensRange { .. } => true,
            _ => false,
        },
        Message::Response(_) => false,
    }
}

/// A request that arrives after the shutdown request is refused.
pub open spec fn refused_after_shutdown(g: InitState, msg: Message) -> bool {
    g.shutdown_request_recv && msg is Request
}

/// What a message asks of a starting server can be done: a cancellation
/// searches the tasks without meeting an empty slot.
pub open spec fn process_msg_defined(msg: Message, g: InitState) -> bool {
    !refused_after_shutdown(g, msg) ==> match msg {
        Message::Notification(Notification::WorkDoneProgressCancelNotification { params }) => {
            token_search_defined(g.tasks.ongoing@, params.token)
        },
        _ => true,
    }
}

/// What processing `msg` does to the server's state, configuration, and the
/// outgoing and held-back messages.
pub open spec fn processed(
    msg: Message,
    g: InitState,
    cfg: Config,
    out: Seq<Option<Message>>,
    post: Seq<Option<Message>>,
    g2: InitState,
    cfg2: Config,
    out2: Seq<Option<Message>>,
    post2: Seq<Option<Message>>,
) -> bool {
    if refused_after_shutdown(g, msg) {
        &&& g2 == g
        &&& cfg2 == cfg
        &&& post2 == post
        &&& out2.len() == out.len() + 1
        &&& out2.drop_last() == out
        &&& out2.last() matches Some(m) && is_invalid_request_error(
            m,
            Some(request_id(msg->Request_0)),
            shutdown_seq_text(),
        )
    } else if is_postponed(msg) {
        &&& g2 == g
        &&& cfg2 == cfg
        &&& out2 == out
        &&& post2 == post.push(Some(msg))
    } else {
        &&& post2 == post
        &&& match msg {
            Message::Notification(Notification::SetTraceNotification { params }) => {
                &&& cfg2 == (Config { trace_level: params.value, ..cfg })
                &&& g2 == g
                &&& out2 == out
            },
            Message::Request(Request::ShutdownRequest { id }) => {
                &&& g2 == (InitState { shutdown_request_recv: true, ..g })
                &&& cfg2 == cfg
                &&& out2 == out.push(
                    Some(Message::Response(Response::NullResponse(NullResponse { id }))),
                )
            },
            Message::Notification(Notification::ExitNotification {}) => {
                &&& g2 == (InitState { exit_requested: true, ..g })
                &&& cfg2 == cfg
                &&& out2 == out
            },
            Message::Notification(Notification::WorkDoneProgressCancelNotification { params }) => {
                &&& cfg2 == cfg
                &&& g2.shutdown_request_recv == g.shutdown_request_recv
                &&& g2.exit_requested == g.exit_requested
                &&& g2.tasks.counters == g.tasks.counters
                &&& g2.tasks.completed == g.tasks.completed
                &&& canceled(
                    cfg.trace_level,
                    params.token,
                    g.tasks.ongoing@,
                    g2.tasks.ongoing@,
                    out,
                    out2,
                )
            },
            _ => {
                &&& g2 == g
                &&& cfg2 == cfg
                &&& out2 == out
            },
        }
    }
}

/// Deals with a message that arrives while the server starts.
pub fn process_msg(
    msg: Message,
    g: &mut InitState,
    cfg: &mut Config,
    outgoing: &mut Vec<Option<Message>>,
    postponed: &mut Vec<Option<Message>>,
)
    requires
        process_msg_defined(msg, *old(g)),
    ensures
        processed(
            msg,
            *old(g),
            *old(cfg),
            old(outgoing)@,
            old(postponed)@,
            *final(g),
            *final(cfg),
            final(outgoing)@,
            final(postponed)@,
        ),
{
    if g.shutdown_request_recv && msg.is_request() {
        if let Message::Request(r) = &msg {
            let id = copy_id(r.get_id());
            outgoing.push(Some(error_shutdown_seq(id)));
            proof {
                assert(outgoing@.drop_last() =~= old(outgoing)@);
            }
        }
        return;
    }
    match msg {
        Message::Notification(Notification::DidChangeTextDocumentNotification { .. })
        | Message::Notification(Notification::DidCloseTextDocumentNotification { .. })
        | Message::Notification(Notification::DidOpenTextDocumentNotification { .. })
        | Message::Notification(Notification::DidRenameFilesNotification { .. })
        | Message::Request(Request::FindReferences { .. })
        | Message::Request(Request::FoldingRange { .. })
        | Message::Request(Request::GoToDefinition { .. })
        | Message::Request(Request::SemanticTokensFull { .. })
        | Message::Request(Request::SemanticTokensRange { .. }) => {
            postponed.push(Some(msg));
        },
        Message::Notification(Notification::SetTraceNotification { params: SetTraceParams { value } }) => {
            cfg.trace_level = value;
        },
        Message::Request(Request::ShutdownRequest { id }) => {
            g.shutdown_request_recv = true;
            outgoing.push(Some(Message::Response(Response::NullResponse(NullResponse { id }))));
        },
        Message::Notification(Notification::ExitNotification {}) => {
            g.exit_requested = true;
        },
        Message::Notification(
            Notification::WorkDoneProgressCancelNotification { params: WorkDoneProgressCancelParams { token } },
        ) => {
            cancel_server_workdone_progress(cfg.trace_level, token, &mut g.tasks.ongoing, outgoing);
        },
        Message::Notification(Notification::InitializedNotification { .. })
        | Message::Notification(Notification::LogTraceNotification { .. })
        | Message::Notification(Notification::WorkDoneProgressNotification { .. })
        | Message::Response(_)
        | Message::Request(Request::InitializeRequest { .. })
        | Message::Request(Request::WindowWorkDoneProgressCreate { .. }) => {},
    }
}

/// The progress reporting with `token`, if any, has been marked as canceled,
/// and the cancellation traced.
pub open spec fn canceled(
    trace_level: TraceValue,
    token: NumberOrString,
    before: Seq<Option<OngoingTask>>,
    after: Seq<Option<OngoingTask>>,
    out: Seq<Option<Message>>,
    out2: Seq<Option<Message>>,
) -> bool {
    exists|r: Option<usize>| #![trigger first_with_token(before, token, r)]
        first_with_token(before, token, r) && match r {
            Some(i) => {
                &&& after == before.update(
                    i as int,
                    Some(with_phase(before[i as int]->Some_0, WorkDoneProgressPhase::Aborted)),
                )
                &&& traced(trace_level, out, out2, canceled_text(token))
            },
            None => {
                &&& after == before
                &&& traced(trace_level, out, out2, not_found_text(token))
            },
        }
}

/// Once the shutdown request has been processed, every request that follows
/// is refused with an invalid-request error, and nothing else changes.
pub proof fn law_requests_refused_after_shutdown(
    id: NumberOrString,
    msg: Message,
    g0: InitState,
    cfg0: Config,
    out0: Seq<Option<Message>>,
    post0: Seq<Option<Message>>,
    g1: InitState,
    cfg1: Config,
    out1: Seq<Option<Message>>,
    post1: Seq<Option<Message>>,
    g2: InitState,
    cfg2: Config,
    out2: Seq<Option<Message>>,
    post2: Seq<Option<Message>>,
)
    requires
        processed(Message::Request(Request::ShutdownRequest { id }), g0, cfg0, out0, post0, g1, cfg1, out1, post1),
        processed(msg, g1, cfg1, out1, post1, g2, cfg2, out2, post2),
        msg is Request,
    ensures
        g2 == g1,
        cfg2 == cfg1,
        post2 == post1,
        out2.len() == out1.len() + 1,
        out2.last() matches Some(m) && is_invalid_request_error(m, Some(request_id(msg->Request_0)), shutdown_seq_text()),
{
}

/// A shutdown request is answered with an empty response that carries its
/// identifier, unless a shutdown was already requested.
pub proof fn law_shutdown_answered(
    id: NumberOrString,
    g0: InitState,
    cfg0: Config,
    out0: Seq<Option<Message>>,
    post0: Seq<Option<Message>>,
    g1: InitState,
    cfg1: Config,
    out1: Seq<Option<Message>>,
    post1: Seq<Option<Message>>,
)
    requires
        processed(Message::Request(Request::ShutdownRequest { id }), g0, cfg0, out0, post0, g1, cfg1, out1, post1),
        !g0.shutdown_request_recv,
    ensures
        g1.shutdown_request_recv,
        g1.exit_requested == g0.exit_requested,
        out1 == out0.push(Some(Message::Response(Response::NullResponse(NullResponse { id })))),
{
}

/// The note that a step of the workspace discovery has ended.
pub open spec fn discovery_sync_text(id: NumberOrString, note: Seq<char>) -> Seq<char> {
    "INFO: Workspace discovery with ID \""@ + id_text(id) + "\": "@ + note
}

fn trace_workspace_discovery_sync(id: &NumberOrString, note: &str) -> (m: Message)
    ensures
        is_log_message(m, discovery_sync_text(*id, note@)),
{
    let mut text = String::from_str("INFO: Workspace discovery with ID \"");
    push_id(&mut text, id);
    push_text(&mut text, "\": ");
    push_text(&mut text, note);
    log_message(text)
}

/// A completed task that is dealt with while the server starts: the end of
/// a step of the workspace discovery, whose task is in that step.
pub open spec fn boot_done(done: TaskDone, ongoing: Seq<Option<OngoingTask>>) -> bool {
    match done {
        TaskDone::WorkspaceFileDiscoverySync(id, _) => discovery_in_step(ongoing, id, 0),
        TaskDone::WorkspaceFileIndexSync(id, _) => discovery_in_step(ongoing, id, 1),
        _ => false,
    }
}

/// `after` is `before` with the note for the step's end added where tracing
/// is on.
pub open spec fn sync_traced(level: TraceValue, before: Seq<Option<Message>>, after: Seq<Option<Message>>, id: NumberOrString, note: Seq<char>) -> bool {
    if level == TraceValue::Off {
        after == before
    } else {
        &&& after.len() == before.len() + 1
        &&& after.drop_last() == before
        &&& after.last() matches Some(m) && is_log_message(m, discovery_sync_text(id, note))
    }
}

/// Records what a step of the workspace discovery produced while the server
/// starts: the scan's members, or the index. Where tracing is on, a note that
/// the step has ended follows the messages of the step itself.
pub fn process_completed_task(done: TaskDone, cfg: &Config, ts: &mut Tasks, outgoing: &mut Vec<Option<Message>>)
    requires
        boot_done(done, old(ts).ongoing@),
    ensures
        final(ts).counters == old(ts).counters,
        final(ts).completed@ == old(ts).completed@,
        match done {
            TaskDone::WorkspaceFileDiscoverySync(id, members) => {
                &&& only_slot_changed(
                    old(ts).ongoing@,
                    final(ts).ongoing@,
                    first_task_with_id(old(ts).ongoing@, id),
                    |a: Option<OngoingTask>, b: Option<OngoingTask>| scan_recorded(a, b, members),
                )
                &&& exists|mid: Seq<Option<Message>>| {
                    &&& (members.missing_roots@.len() > 0 ==> mid.len() == old(outgoing)@.len() + 1
                        && mid.drop_last() == old(outgoing)@
                        && (mid.last() matches Some(m) && is_log_message(m, root_invalid_text(members.missing_roots@))))
                    &&& (members.missing_roots@.len() == 0 ==> mid == old(outgoing)@)
                    &&& sync_traced(cfg.trace_level, mid, final(outgoing)@, id, "Workspace has been scanned for files."@)
                }
            },
            TaskDone::WorkspaceFileIndexSync(id, files) => {
                &&& only_slot_changed(
                    old(ts).ongoing@,
                    final(ts).ongoing@,
                    first_task_with_id(old(ts).ongoing@, id),
                    |a: Option<OngoingTask>, b: Option<OngoingTask>| index_recorded(a, b, files),
                )
                &&& sync_traced(cfg.trace_level, old(outgoing)@, final(outgoing)@, id, "File index for workspace has been created."@)
            },
            _ => false,
        },
{
    match done {
        TaskDone::WorkspaceFileDiscoverySync(id, members) => {
            recv_workspace_file_discovery_sync(&id, members, &mut ts.ongoing, outgoing);
            let ghost mid = outgoing@;
            if cfg.trace_level != TraceValue::Off {
                outgoing.push(Some(trace_workspace_discovery_sync(&id, "Workspace has been scanned for files.")));
                proof {
                    assert(outgoing@.drop_last() =~= mid);
                }
            }
        },
        TaskDone::WorkspaceFileIndexSync(id, files) => {
            recv_workspace_file_indexing_sync(&id, files, &mut ts.ongoing);
            if cfg.trace_level != TraceValue::Off {
                outgoing.push(Some(trace_workspace_discovery_sync(&id, "File index for workspace has been created.")));
                proof {
                    assert(outgoing@.drop_last() =~= old(outgoing)@);
                }
            }
        },
        _ => {},
    }
}

/// What stepping the multi-part tasks carries from one slot to the next:
/// the work to schedule, the messages to send, the completed tasks, the
/// counter of requests to the client, and the index handed back.
pub type StepCarry = (Seq<Task>, Seq<Option<Message>>, Seq<Option<TaskDone>>, TaskCounterExternal, Option<FileIndex>);

/// A task that is stepped while the server starts: the workspace discovery
/// in its scanning or indexing step, or progress reporting whose pending
/// report states its percentage.
pub open spec fn multi_part_slot_ok(slot: Option<OngoingTask>) -> bool {
    ||| scanning_ok(slot)
    ||| indexing_ok(slot)
    ||| slot matches Some(OngoingTask::WindowWorkDoneProgress { phase, .. }) && match phase {
        WorkDoneProgressPhase::Reporting { next: Some(p), .. } => {
            p.value matches WorkDoneProgressValue::Report(r) && r.percentage is Some
        },
        _ => true,
    }
}

/// One slot has been stepped: the discovery by its step, progress reporting
/// by one broadcast.
pub open spec fn multi_part_stepped(before: Option<OngoingTask>, after: Option<OngoingTask>, c: StepCarry, c2: StepCarry) -> bool {
    match before {
        Some(OngoingTask::WorkspaceDiscovery { phase: WorkspaceDiscoveryPhase::Scanning(..), .. }) => {
            &&& scan_progressed(before, after, c.0, c2.0)
            &&& c2.1 == c.1 && c2.2 == c.2 && c2.3 == c.3 && c2.4 == c.4
        },
        Some(OngoingTask::WorkspaceDiscovery { phase: WorkspaceDiscoveryPhase::Indexing(..), .. }) => {
            &&& index_progressed(before, after, c.0, c2.0, c2.4)
            &&& c2.1 == c.1 && c2.2 == c.2 && c2.3 == c.3
        },
        Some(OngoingTask::WindowWorkDoneProgress { .. }) => {
            &&& after is Some
            &&& broadcast_step(before->Some_0, c.3, after->Some_0, c2.3, c.1, c2.1, c.2, c2.2)
            &&& c2.0 == c.0 && c2.4 == c.4
        },
        _ => false,
    }
}

/// Steps every multi-part task once while the server starts, slot by slot:
/// the workspace discovery moves through scanning and indexing, and progress
/// reporting sends what is due. Hands back the index where the indexing
/// step of a slot handed one back (the last such slot's result counts), and
/// the work to schedule, in the order of the slots.
pub fn progress_multi_part_tasks(ts: &mut Tasks, outgoing: &mut Vec<Option<Message>>) -> (r: (Option<FileIndex>, Vec<Task>))
    requires
        forall|k: int| 0 <= k < old(ts).ongoing@.len() ==> multi_part_slot_ok(#[trigger] old(ts).ongoing@[k]),
        old(ts).counters.tasks_ext.count + old(ts).ongoing@.len() < i64::MAX,
    ensures
        final(ts).ongoing@.len() == old(ts).ongoing@.len(),
        final(ts).counters.progress == old(ts).counters.progress,
        final(ts).counters.tasks_int == old(ts).counters.tasks_int,
        exists|cs: Seq<StepCarry>| {
            &&& cs.len() == old(ts).ongoing@.len() + 1
            &&& cs[0] == (Seq::<Task>::empty(), old(outgoing)@, old(ts).completed@, old(ts).counters.tasks_ext, None::<FileIndex>)
            &&& cs[old(ts).ongoing@.len() as int] == (r.1@, final(outgoing)@, final(ts).completed@, final(ts).counters.tasks_ext, r.0)
            &&& forall|k: int| #![trigger final(ts).ongoing@[k]]
                0 <= k < old(ts).ongoing@.len() ==> multi_part_stepped(old(ts).ongoing@[k], final(ts).ongoing@[k], cs[k], cs[k + 1])
        },
{
    let ghost n = old(ts).ongoing@.len();
    let mut files: Option<FileIndex> = None;
    let mut jobs: Vec<Task> = Vec::new();
    let ghost mut cs: Seq<StepCarry> = seq![(Seq::<Task>::empty(), old(outgoing)@, old(ts).completed@, old(ts).counters.tasks_ext, None::<FileIndex>)];
    let mut i: usize = 0;
    while i < ts.ongoing.len()
        invariant
            n == old(ts).ongoing@.len(),
            ts.ongoing@.len() == n,
            i <= n,
            forall|k: int| 0 <= k < n ==> multi_part_slot_ok(#[trigger] old(ts).ongoing@[k]),
            old(ts).counters.tasks_ext.count + n < i64::MAX,
            ts.counters.tasks_ext.count <= old(ts).counters.tasks_ext.count + i,
            ts.counters.progress == old(ts).counters.progress,
            ts.counters.tasks_int == old(ts).counters.tasks_int,
            forall|k: int| i <= k < n ==> #[trigger] ts.ongoing@[k] == old(ts).ongoing@[k],
            cs.len() == i + 1,
            cs[0] == (Seq::<Task>::empty(), old(outgoing)@, old(ts).completed@, old(ts).counters.tasks_ext, None::<FileIndex>),
            cs[i as int] == (jobs@, outgoing@, ts.completed@, ts.counters.tasks_ext, files),
            forall|k: int| #![trigger ts.ongoing@[k]]
                0 <= k < i ==> multi_part_stepped(old(ts).ongoing@[k], ts.ongoing@[k], cs[k], cs[k + 1]),
        decreases n - i,
    {
        let ghost before = (jobs@, outgoing@, ts.completed@, ts.counters.tasks_ext, files);
        let ghost mid = ts.ongoing@;
        let mut slot: Option<OngoingTask> = None;
        std::mem::swap(&mut slot, &mut ts.ongoing[i]);
        assert(slot == old(ts).ongoing@[i as int]);
        let kind: u8 = match &slot {
            Some(OngoingTask::WorkspaceDiscovery { phase: WorkspaceDiscoveryPhase::Scanning(..), .. }) => 0,
            Some(OngoingTask::WorkspaceDiscovery { phase: WorkspaceDiscoveryPhase::Indexing(..), .. }) => 1,
            _ => 2,
        };
        if kind == 0 {
            progress_workspace_file_discovery(&mut slot, &mut jobs);
        } else if kind == 1 {
            files = progress_workspace_file_indexing(&mut slot, &mut jobs);
        } else {
            broadcast_work_done(&mut slot, &mut ts.counters.tasks_ext, outgoing, &mut ts.completed);
        }
        ts.ongoing.set(i, slot);
        proof {
            let after = (jobs@, outgoing@, ts.completed@, ts.counters.tasks_ext, files);
            assert(multi_part_stepped(old(ts).ongoing@[i as int], ts.ongoing@[i as int], before, after));
            cs = cs.push(after);
            assert forall|k: int| #![trigger ts.ongoing@[k]]
                0 <= k < i + 1 implies multi_part_stepped(old(ts).ongoing@[k], ts.ongoing@[k], cs[k], cs[k + 1]) by {
                if k < i {
                    assert(ts.ongoing@[k] == mid[k]);
                }
            }
            assert forall|k: int| i + 1 <= k < n implies #[trigger] ts.ongoing@[k] == old(ts).ongoing@[k] by {
                assert(ts.ongoing@[k] == mid[k]);
            }
        }
        i = i + 1;
    }
    (files, jobs)
}

} // verus!
