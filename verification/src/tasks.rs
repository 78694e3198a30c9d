//! The bookkeeping of work in progress: identifiers, progress of multi-step
//! tasks, and the tasks the server is waiting on.
use std::time::Instant;

use vstd::prelude::*;

use crate::config::Workspace;
use crate::definitions::MacroReferenceOrigin;
use crate::files::{FileIndex, RenameFileOperations, WorkspaceMembers};
use crate::lookups::{ExtMacroDefLookups, FileCallMap, FileLocationMap, UriMap};
use crate::lsp::{copy_id, id_equal, push_id, same_id, id_text, log_message, is_log_message, Message};
use crate::protocol::{Location, LocationLink, NumberOrString, ProgressParams, ProgressToken, TextDocumentItem, Uri};
use crate::references::MacroDefinitionLocation;

verus! {

/// A point in time, from the standard library's monotonic clock.
#[verifier::external_type_specification]
#[verifier::external_body]
pub struct ExInstant(Instant);

/// The current time (`Instant::now`). Nothing is claimed of the value: it
/// depends on the clock.
#[verifier::external_body]
pub(crate) fn now() -> Instant {
    Instant::now()
}

/// Hands out consecutive identifiers, starting at zero.
#[derive(Clone, Copy, Debug, PartialEq, Eq, Structural)]
pub struct TaskCounter {
    pub count: i64,
}

/// The counter for requests that the server sends to the client.
pub type TaskCounterExternal = TaskCounter;

impl TaskCounter {
    pub fn new() -> (c: Self)
        ensures
            c.count == 0,
    {
        TaskCounter { count: 0 }
    }

    /// The next identifier.
    pub fn next_id(&mut self) -> (id: NumberOrString)
        requires
            old(self).count < i64::MAX,
        ensures
            id == NumberOrString::Number(old(self).count),
            final(self).count == old(self).count + 1,
    {
        let id = NumberOrString::Number(self.count);
        self.count = self.count + 1;
        id
    }
}

/// The counters of the server: progress tokens, requests to the client, and
/// internal tasks.
#[derive(Clone, Copy, Debug, PartialEq, Eq, Structural)]
pub struct TaskCounters {
    pub progress: TaskCounter,
    pub tasks_ext: TaskCounter,
    pub tasks_int: TaskCounter,
}

impl TaskCounters {
    pub fn new() -> (c: Self)
        ensures
            c.progress.count == 0,
            c.tasks_ext.count == 0,
            c.tasks_int.count == 0,
    {
        TaskCounters { progress: TaskCounter::new(), tasks_ext: TaskCounter::new(), tasks_int: TaskCounter::new() }
    }
}

/// The progress of a task that runs in rounds: a round dispatches `total`
/// pieces of work and ends when all of them have been completed.
#[derive(Clone, Copy, Debug, PartialEq, Eq, Structural)]
pub struct TaskProgress {
    pub total: u32,
    pub completed: u32,
    pub cycles: u32,
    pub limit: Option<u32>,
    pub acknowledged: bool,
}

/// The next round may be dispatched: the last one has ended and nobody has
/// taken it up yet.
pub open spec fn progress_ready(p: TaskProgress) -> bool {
    !p.acknowledged && p.completed == 0
}

/// Nothing is left to do: there is no work, or the task has run all the
/// rounds it is limited to.
pub open spec fn progress_finished(p: TaskProgress) -> bool {
    p.total == 0 || (p.limit matches Some(l) && p.cycles >= l)
}

/// The progress after one piece of work has been completed.
pub open spec fn progress_advanced(p: TaskProgress) -> TaskProgress {
    if p.completed + 1 >= p.total {
        TaskProgress { completed: 0, cycles: (p.cycles + 1) as u32, acknowledged: false, ..p }
    } else {
        TaskProgress { completed: (p.completed + 1) as u32, ..p }
    }
}

/// Advancing does not overflow a counter.
pub open spec fn progress_can_advance(p: TaskProgress) -> bool {
    p.completed < u32::MAX && p.cycles < u32::MAX
}

impl TaskProgress {
    /// Fresh progress over `total` pieces of work.
    pub open spec fn new_spec(total: u32) -> TaskProgress {
        TaskProgress { total, completed: 0, cycles: 0, limit: None, acknowledged: false }
    }

    pub fn new(total: u32) -> (p: Self)
        ensures
            p == Self::new_spec(total),
    {
        TaskProgress { total, completed: 0, cycles: 0, limit: None, acknowledged: false }
    }

    /// The same progress, limited to `limit` rounds.
    pub fn with_limit(self, limit: u32) -> (p: Self)
        ensures
            p == (TaskProgress { limit: Some(limit), ..self }),
    {
        TaskProgress { limit: Some(limit), ..self }
    }

    pub fn set_cycles(&mut self, cycles: u32)
        ensures
            *final(self) == (TaskProgress { cycles, ..*old(self) }),
    {
        self.cycles = cycles;
    }

    pub fn ready(&self) -> (r: bool)
        ensures
            r == progress_ready(*self),
    {
        !self.acknowledged && self.completed == 0
    }

    pub fn finished(&self) -> (r: bool)
        ensures
            r == progress_finished(*self),
    {
        self.total == 0 || match self.limit {
            Some(l) => self.cycles >= l,
            None => false,
        }
    }

    /// Takes up the next round.
    pub fn ack_ready(&mut self)
        ensures
            *final(self) == (TaskProgress { acknowledged: true, ..*old(self) }),
    {
        self.acknowledged = true;
    }

    /// Records one completed piece of work.
    pub fn advance(&mut self)
        requires
            progress_can_advance(*old(self)),
        ensures
            *final(self) == progress_advanced(*old(self)),
    {
        if self.completed + 1 >= self.total {
            self.completed = 0;
            self.cycles = self.cycles + 1;
            self.acknowledged = false;
        } else {
            self.completed = self.completed + 1;
        }
    }

    /// Records that all work is done: nothing is left to do.
    pub fn mark_completed(&mut self)
        ensures
            *final(self) == (TaskProgress { total: 0, ..*old(self) }),
    {
        self.total = 0;
    }

    /// Ends the task: nothing is left to do.
    pub fn abort(&mut self)
        ensures
            *final(self) == (TaskProgress { total: 0, ..*old(self) }),
    {
        self.total = 0;
    }
}

/// The steps of reporting the progress of server work to the client.
#[derive(Clone, Debug, PartialEq)]
pub enum WorkDoneProgressPhase {
    /// Waiting to ask the client for a progress token.
    Ready(ProgressParams),
    /// The client has been asked, no answer yet.
    Announced(ProgressParams),
    /// The client has accepted the token; the beginning is to be sent.
    Initialized(ProgressParams),
    /// Reports are sent: the last reported percentage and the next report.
    Reporting { reported: u32, next: Option<ProgressParams> },
    /// The work is done; the end is to be sent where there is one.
    Finished(Option<ProgressParams>),
    /// The client has canceled the reporting.
    Aborted,
}

/// The steps of discovering the scripts of the workspace.
#[derive(Debug, PartialEq)]
pub enum WorkspaceDiscoveryPhase {
    Scanning(Workspace, Option<WorkspaceMembers>),
    Indexing(WorkspaceMembers, Option<FileIndex>),
    Parsing(WorkspaceMembers, FileIndex),
}

/// The steps of a macro reference lookup.
#[derive(Debug, PartialEq)]
pub enum FindMacroReferencesPhase {
    /// Collecting definitions in calling scripts.
    ExternalDefinitions {
        visited: FileCallMap,
        results: UriMap<MacroDefinitionLocation>,
        undone: ExtMacroDefLookups,
    },
    /// Collecting references in the scripts with a definition.
    ReferencesFromDefinitions {
        subscripts: Vec<Uri>,
        results: FileLocationMap,
        undone: UriMap<MacroDefinitionLocation>,
    },
    /// Collecting references in the scripts called from there.
    ReferencesInSubscripts { visited: Vec<Uri>, results: FileLocationMap, undone: Vec<Uri> },
}

/// A task that the server has started and not yet completed.
#[derive(Debug, PartialEq)]
pub enum OngoingTask {
    CodeFolds(NumberOrString, Instant),
    FindMacroReferences {
        id: NumberOrString,
        onset: Instant,
        progress: TaskProgress,
        origin: MacroReferenceOrigin,
        phase: FindMacroReferencesPhase,
    },
    FindReferences(NumberOrString, Instant),
    GoToDefinition(NumberOrString, Instant),
    GoToExternalMacroDef {
        id: NumberOrString,
        onset: Instant,
        progress: TaskProgress,
        origin: MacroReferenceOrigin,
        visited: FileCallMap,
        undone: ExtMacroDefLookups,
        results: Vec<LocationLink>,
    },
    SemanticTokensFull(NumberOrString, Instant),
    SemanticTokensRange(NumberOrString, Instant),
    WindowWorkDoneProgress {
        id: NumberOrString,
        token: ProgressToken,
        work: NumberOrString,
        onset: Instant,
        phase: WorkDoneProgressPhase,
    },
    WorkspaceDiscovery {
        id: NumberOrString,
        onset: Instant,
        progress: TaskProgress,
        phase: WorkspaceDiscoveryPhase,
    },
}

/// The identifier of a task.
pub open spec fn task_id(t: OngoingTask) -> NumberOrString {
    match t {
        OngoingTask::CodeFolds(id, _) => id,
        OngoingTask::FindMacroReferences { id, .. } => id,
        OngoingTask::FindReferences(id, _) => id,
        OngoingTask::GoToDefinition(id, _) => id,
        OngoingTask::GoToExternalMacroDef { id, .. } => id,
        OngoingTask::SemanticTokensFull(id, _) => id,
        OngoingTask::SemanticTokensRange(id, _) => id,
        OngoingTask::WindowWorkDoneProgress { id, .. } => id,
        OngoingTask::WorkspaceDiscovery { id, .. } => id,
    }
}

/// The slot holds a task with the identifier `id`.
pub open spec fn slot_has_id(slot: Option<OngoingTask>, id: NumberOrString) -> bool {
    slot matches Some(t) && same_id(task_id(t), id)
}

/// The first slot with a task of identifier `id`, or -1.
pub open spec fn first_task_with_id(ongoing: Seq<Option<OngoingTask>>, id: NumberOrString) -> int {
    if exists|i: int| 0 <= i < ongoing.len() && #[trigger] slot_has_id(ongoing[i], id) {
        choose|i: int|
            0 <= i < ongoing.len() && #[trigger] slot_has_id(ongoing[i], id) && forall|j: int|
                0 <= j < i ==> !slot_has_id(#[trigger] ongoing[j], id)
    } else {
        -1
    }
}

/// There is a first slot with `id`, and it is the one `first_task_with_id` names.
pub proof fn lemma_first_task_with_id(ongoing: Seq<Option<OngoingTask>>, id: NumberOrString, i: int)
    requires
        0 <= i < ongoing.len(),
        slot_has_id(ongoing[i], id),
        forall|j: int| 0 <= j < i ==> !slot_has_id(#[trigger] ongoing[j], id),
    ensures
        first_task_with_id(ongoing, id) == i,
{
    let k = first_task_with_id(ongoing, id);
    assert(slot_has_id(ongoing[i], id));
    assert(0 <= k < ongoing.len() && slot_has_id(ongoing[k], id) && forall|j: int|
        0 <= j < k ==> !slot_has_id(#[trigger] ongoing[j], id));
    if k < i {
        assert(!slot_has_id(ongoing[k], id));
    } else if k > i {
        assert(!slot_has_id(ongoing[i], id));
    }
}

/// The identifier of a task.
pub fn get_task_id(task: &OngoingTask) -> (id: &NumberOrString)
    ensures
        *id == task_id(*task),
{
    match task {
        OngoingTask::CodeFolds(id, _) => id,
        OngoingTask::FindMacroReferences { id, .. } => id,
        OngoingTask::FindReferences(id, _) => id,
        OngoingTask::GoToDefinition(id, _) => id,
        OngoingTask::GoToExternalMacroDef { id, .. } => id,
        OngoingTask::SemanticTokensFull(id, _) => id,
        OngoingTask::SemanticTokensRange(id, _) => id,
        OngoingTask::WindowWorkDoneProgress { id, .. } => id,
        OngoingTask::WorkspaceDiscovery { id, .. } => id,
    }
}

/// Finds the first task with the identifier `id`; empty slots are skipped.
pub fn find_ongoing_task_by_id(id: &NumberOrString, ongoing: &Vec<Option<OngoingTask>>) -> (r: Option<usize>)
    ensures
        match r {
            Some(i) => i < ongoing@.len() && first_task_with_id(ongoing@, *id) == i,
            None => first_task_with_id(ongoing@, *id) == -1,
        },
{
    let mut i: usize = 0;
    while i < ongoing.len()
        invariant
            i <= ongoing@.len(),
            forall|j: int| 0 <= j < i ==> !slot_has_id(#[trigger] ongoing@[j], *id),
        decreases ongoing@.len() - i,
    {
        if let Some(task) = &ongoing[i] {
            if id_equal(get_task_id(task), id) {
                proof {
                    lemma_first_task_with_id(ongoing@, *id, i as int);
                }
                return Some(i);
            }
        }
        i = i + 1;
    }
    None
}

/// A count as a progress total (the lower 32 bits).
pub fn progress_count(n: usize) -> (c: u32)
    ensures
        c == n as u32,
{
    #[verifier::truncate]
    (n as u32)
}

/// Work that the server hands to its task runners.
#[derive(Clone, Debug, PartialEq)]
pub enum Task {
    /// Locate the scripts of the workspace, by their suffixes.
    WorkspaceFileDiscovery(NumberOrString, Workspace),
    /// Index the scripts that were found.
    WorkspaceFileIndexNew(NumberOrString, Vec<Uri>),
    /// Read and parse one script, with the index of the workspace at hand.
    WorkspaceFileScan(NumberOrString, Uri, FileIndex),
    /// Look for references to the macro in `script`, starting from its
    /// definitions there.
    FindMacroReferencesFromDefinitions {
        id: NumberOrString,
        script: Uri,
        macro_name: String,
        definitions: Vec<MacroDefinitionLocation>,
    },
    /// Look for references to the macro in the subscript `script`.
    FindMacroReferencesInSubscripts { id: NumberOrString, script: Uri, macro_name: String },
    /// Look for definitions of the macro in `script`, which calls `callee`.
    FindExternalDefinitionsForMacroRef { id: NumberOrString, script: Uri, origin: MacroReferenceOrigin, callee: Uri },
    /// Look for the definition of the macro in `script`, which calls
    /// `backtrace`.
    GoToExternalMacroDef { id: NumberOrString, script: Uri, origin: MacroReferenceOrigin, backtrace: Uri },
    /// Record that scripts moved, in the index and among the documents.
    DidRenameFiles(NumberOrString, RenameFileOperations, FileIndex),
    /// Read in a document that the client has opened.
    TextDocNew(TextDocumentItem, FileIndex),
}

/// A task that has completed, with its outcome.
#[derive(Debug, PartialEq)]
pub enum TaskDone {
    FindMacroReferences(NumberOrString, Option<Vec<Location>>),
    GoToExternalMacroDef(NumberOrString, Vec<LocationLink>),
    /// Progress reporting has ended; whether it was canceled.
    WindowWorkDoneProgress(NumberOrString, bool),
    WorkspaceFileDiscovery(NumberOrString),
    /// The scan of the workspace for scripts has ended.
    WorkspaceFileDiscoverySync(NumberOrString, WorkspaceMembers),
    /// The index of the workspace's scripts has been built.
    WorkspaceFileIndexSync(NumberOrString, FileIndex),
}

/// What a completed task is found by among the ongoing ones: the identifier
/// of its request, or the document it worked on.
#[derive(Debug, PartialEq)]
pub enum OngoingTaskHandle {
    Identifier(NumberOrString),
    Uri(Uri),
}

impl TaskDone {
    /// The identifier of the completed task.
    pub open spec fn done_id(self) -> NumberOrString {
        match self {
            TaskDone::FindMacroReferences(id, _) => id,
            TaskDone::GoToExternalMacroDef(id, _) => id,
            TaskDone::WindowWorkDoneProgress(id, _) => id,
            TaskDone::WorkspaceFileDiscovery(id) => id,
            TaskDone::WorkspaceFileDiscoverySync(id, _) => id,
            TaskDone::WorkspaceFileIndexSync(id, _) => id,
        }
    }

    /// The handle by which the ongoing task is found: its identifier.
    pub fn get_task_handle(&self) -> (h: Option<OngoingTaskHandle>)
        ensures
            h == Some(OngoingTaskHandle::Identifier(self.done_id())),
    {
        match self {
            TaskDone::FindMacroReferences(id, ..)
            | TaskDone::GoToExternalMacroDef(id, ..)
            | TaskDone::WindowWorkDoneProgress(id, ..)
            | TaskDone::WorkspaceFileDiscovery(id)
            | TaskDone::WorkspaceFileDiscoverySync(id, _)
            | TaskDone::WorkspaceFileIndexSync(id, _) => Some(OngoingTaskHandle::Identifier(copy_id(id))),
        }
    }
}

/// The warning that a response arrived for a request that was already dealt
/// with.
pub open spec fn response_already_processed_text(id: NumberOrString) -> Seq<char> {
    "WARNING: Response to request \""@ + id_text(id) + "\" has already been processed."@
}

pub fn warn_response_already_processed(id: &NumberOrString) -> (m: Message)
    ensures
        is_log_message(m, response_already_processed_text(*id)),
{
    let mut text = String::from_str("WARNING: Response to request \"");
    push_id(&mut text, id);
    text.append("\" has already been processed.");
    log_message(text)
}

} // verus!
