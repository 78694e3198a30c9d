use std::path;
use std::time::Instant;

use url::Url;

use t32_language_server::config::Workspace;
use t32_language_server::discovery::{
    move_to_file_discovery_stage, move_to_file_indexing_stage, move_to_file_parsing_stage,
    progress_workspace_file_discovery, progress_workspace_file_indexing,
    progress_workspace_file_parsing, recv_workspace_file_discovery_sync,
    recv_workspace_file_indexing_sync,
};
use t32_language_server::files::{index_files, FileIndex, WorkspaceMembers};
use t32_language_server::lsp::{Message, Notification};
use t32_language_server::protocol::{LogTraceParams, NumberOrString};
use t32_language_server::tasks::{
    OngoingTask, OngoingTaskHandle, Task, TaskDone, TaskProgress, WorkspaceDiscoveryPhase,
};
use t32_language_server::discovery::process_files_did_rename_notif;
use t32_language_server::files::RenameFileOperations;
use t32_language_server::protocol::FileRename;
use t32_language_server::startup::Tasks;
use t32_language_server::tasks::TaskCounters;
use t32_language_server::docsync::process_doc_open_notif;
use t32_language_server::protocol::TextDocumentItem;

fn sample(rel: &str) -> path::PathBuf {
    path::absolute(path::Path::new("tests").join("samples").join(rel)).unwrap()
}

fn workspace() -> Workspace {
    let dir = path::absolute(path::Path::new("tests").join("samples")).unwrap();
    let uri: Url = Url::from_directory_path(dir).unwrap();

    Workspace::Root(Some(uri.to_string()))
}

fn workspace_members() -> WorkspaceMembers {
    let uri: Url = Url::from_file_path(sample("c1.cmm")).unwrap();

    WorkspaceMembers {
        files: vec![uri.to_string()],
        missing_roots: Vec::new(),
    }
}

fn create_file_idx() -> FileIndex {
    let files = [
        "c.cmm",
        "same.cmm",
        "a/a.cmm",
        "a/same.cmm",
        "a/d/d.cmmt",
        "b/b.cmm",
        "b/same.cmm",
    ]
    .iter()
    .map(|f| Url::from_file_path(sample(f)).unwrap().to_string())
    .collect();
    index_files(files)
}

fn onset_of(task: &OngoingTask) -> Instant {
    match task {
        OngoingTask::WorkspaceDiscovery { onset, .. } => *onset,
        _ => panic!("No other variant allowed."),
    }
}

#[test]
fn can_start_file_discovery_stage() {
    let id = NumberOrString::Number(0);
    let mut ongoing: Vec<Option<OngoingTask>> = Vec::new();

    let workspace = workspace();

    t32_language_server::discovery::prepare_workspace_discovery(
        id.clone(),
        workspace.clone(),
        &mut ongoing,
    );

    let mut ongoing = ongoing[0].take().expect("Must not be empty.");
    let mut outgoing: Vec<Task> = Vec::new();

    move_to_file_discovery_stage(&mut ongoing, &mut outgoing);

    let mut progress = TaskProgress::new(1).with_limit(1);
    progress.ack_ready();

    let onset = onset_of(&ongoing);

    assert!(
        ongoing
            == OngoingTask::WorkspaceDiscovery {
                id,
                onset,
                progress,
                phase: WorkspaceDiscoveryPhase::Scanning(workspace, None),
            }
    );
    assert_eq!(outgoing.len(), 1);
}

#[test]
fn can_progress_file_discovery_stage() {
    let id = NumberOrString::Number(1);
    let onset = Instant::now();

    let workspace = workspace();
    let sync = workspace_members();

    let mut progress = TaskProgress::new(1).with_limit(1);

    let mut ongoing = vec![Some(OngoingTask::WorkspaceDiscovery {
        id: id.clone(),
        onset: onset.clone(),
        progress: progress.clone(),
        phase: WorkspaceDiscoveryPhase::Scanning(workspace.clone(), None),
    })];

    let mut outgoing: Vec<Option<Message>> = Vec::new();

    recv_workspace_file_discovery_sync(&id, sync.clone(), &mut ongoing, &mut outgoing);

    let ongoing = ongoing[0].take().expect("Must not be empty.");

    progress.advance();

    assert_eq!(
        ongoing,
        OngoingTask::WorkspaceDiscovery {
            id,
            onset,
            progress,
            phase: WorkspaceDiscoveryPhase::Scanning(workspace, Some(sync)),
        }
    );

    let OngoingTask::WorkspaceDiscovery { progress, .. } = ongoing else {
        panic!("No other variant allowed.");
    };
    assert!(progress.finished());
}

#[test]
fn can_finish_file_discovery_stage() {
    let id = NumberOrString::Number(1);
    let onset = Instant::now();

    let workspace = workspace();
    let members = workspace_members();

    let mut ongoing = Some(OngoingTask::WorkspaceDiscovery {
        id: id.clone(),
        onset: onset.clone(),
        progress: TaskProgress::new(0),
        phase: WorkspaceDiscoveryPhase::Scanning(workspace.clone(), Some(members.clone())),
    });
    let mut outgoing: Vec<Task> = Vec::new();

    progress_workspace_file_discovery(&mut ongoing, &mut outgoing);

    let ongoing = ongoing.expect("Must not be empty.");

    assert!(
        ongoing
            == OngoingTask::WorkspaceDiscovery {
                id,
                onset,
                progress: TaskProgress::new(1).with_limit(1),
                phase: WorkspaceDiscoveryPhase::Indexing(members, None),
            }
    );
    assert_eq!(outgoing.len(), 0);
}

#[test]
fn reports_missing_workspace_roots() {
    fn missing_roots() -> WorkspaceMembers {
        let dir = path::absolute(path::Path::new("tests").join("samples")).unwrap();
        let uri: Url = Url::from_directory_path(dir).unwrap();

        WorkspaceMembers {
            files: Vec::new(),
            missing_roots: vec![uri.to_string()],
        }
    }

    let id = NumberOrString::Number(1);
    let onset = Instant::now();

    let workspace = workspace();

    let mut progress = TaskProgress::new(1).with_limit(1);

    let mut ongoing = vec![Some(OngoingTask::WorkspaceDiscovery {
        id: id.clone(),
        onset: onset.clone(),
        progress: progress.clone(),
        phase: WorkspaceDiscoveryPhase::Scanning(workspace.clone(), None),
    })];

    let sync = missing_roots();

    let mut outgoing: Vec<Option<Message>> = Vec::new();

    recv_workspace_file_discovery_sync(&id, sync.clone(), &mut ongoing, &mut outgoing);

    let ongoing = ongoing[0].take().expect("Must not be empty.");

    progress.advance();

    assert_eq!(outgoing.len(), 1);
    assert!(outgoing.iter().any(|m| {
        let Some(Message::Notification(Notification::LogTraceNotification {
            params: LogTraceParams { message, .. },
        })) = m
        else {
            panic!()
        };

        message.contains("WARNING: Workspace root(s)") && message.contains("not exist")
    }));
    assert_eq!(
        ongoing,
        OngoingTask::WorkspaceDiscovery {
            id,
            onset,
            progress,
            phase: WorkspaceDiscoveryPhase::Scanning(workspace, Some(sync)),
        }
    );
}

#[test]
fn can_start_file_indexing_stage() {
    let id = NumberOrString::Number(1);
    let onset = Instant::now();

    let workspace = workspace_members();

    let mut ongoing = OngoingTask::WorkspaceDiscovery {
        id: id.clone(),
        onset,
        progress: TaskProgress::new(1).with_limit(1),
        phase: WorkspaceDiscoveryPhase::Indexing(workspace.clone(), None),
    };

    let mut outgoing: Vec<Task> = Vec::new();

    move_to_file_indexing_stage(&mut ongoing, &mut outgoing);

    let mut progress = TaskProgress::new(1).with_limit(1);
    progress.ack_ready();

    assert_eq!(outgoing.len(), 1);
    assert!(
        ongoing
            == OngoingTask::WorkspaceDiscovery {
                id,
                onset,
                progress,
                phase: WorkspaceDiscoveryPhase::Indexing(workspace, None),
            }
    );
}

#[test]
fn can_progress_file_indexing_stage() {
    let id = NumberOrString::Number(1);
    let onset = Instant::now();

    let mut progress = TaskProgress::new(1).with_limit(1);
    let workspace = workspace_members();

    let mut ongoing = vec![Some(OngoingTask::WorkspaceDiscovery {
        id: id.clone(),
        onset: onset.clone(),
        progress: progress.clone(),
        phase: WorkspaceDiscoveryPhase::Indexing(workspace.clone(), None),
    })];

    let sync = create_file_idx();

    recv_workspace_file_indexing_sync(&id, sync.clone(), &mut ongoing);

    progress.advance();

    let ongoing = ongoing[0].take().expect("Must not be empty.");

    assert_eq!(
        ongoing,
        OngoingTask::WorkspaceDiscovery {
            id,
            onset,
            progress,
            phase: WorkspaceDiscoveryPhase::Indexing(workspace, Some(sync)),
        }
    );

    let OngoingTask::WorkspaceDiscovery { progress, .. } = ongoing else {
        panic!("No other variant allowed.");
    };
    assert!(progress.finished());
}

#[test]
fn can_finish_file_indexing_stage() {
    let id = NumberOrString::Number(1);
    let onset = Instant::now();

    let workspace = workspace_members();
    let files = create_file_idx();

    let mut ongoing = Some(OngoingTask::WorkspaceDiscovery {
        id: id.clone(),
        onset: onset.clone(),
        progress: TaskProgress::new(0),
        phase: WorkspaceDiscoveryPhase::Indexing(workspace.clone(), Some(files.clone())),
    });
    let mut outgoing: Vec<Task> = Vec::new();

    assert!(
        progress_workspace_file_indexing(&mut ongoing, &mut outgoing).is_some_and(|f| f == files)
    );

    let ongoing = ongoing.expect("Must not be empty.");

    assert!(
        ongoing
            == OngoingTask::WorkspaceDiscovery {
                id,
                onset,
                progress: TaskProgress::new(1).with_limit(1),
                phase: WorkspaceDiscoveryPhase::Parsing(workspace, files),
            }
    );
    assert_eq!(outgoing.len(), 0);
}

#[test]
fn can_start_file_scanning_stage() {
    let id = NumberOrString::Number(1);
    let onset = Instant::now();

    let workspace = workspace_members();
    let files = create_file_idx();

    let mut ongoing = OngoingTask::WorkspaceDiscovery {
        id: id.clone(),
        onset,
        progress: TaskProgress::new(1).with_limit(1),
        phase: WorkspaceDiscoveryPhase::Parsing(workspace.clone(), files.clone()),
    };

    let mut outgoing: Vec<Task> = Vec::new();

    move_to_file_parsing_stage(&mut ongoing, &mut outgoing);

    let mut progress = TaskProgress::new(1).with_limit(1);
    progress.ack_ready();

    assert_eq!(outgoing.len(), 1);
    assert!(
        ongoing
            == OngoingTask::WorkspaceDiscovery {
                id,
                onset,
                progress,
                phase: WorkspaceDiscoveryPhase::Parsing(workspace, files),
            }
    );
}

#[test]
fn can_finish_file_parsing_stage() {
    let id = NumberOrString::Number(1);
    let onset = Instant::now();

    let workspace = workspace_members();
    let files = create_file_idx();

    let mut ongoing = Some(OngoingTask::WorkspaceDiscovery {
        id: id.clone(),
        onset: onset.clone(),
        progress: TaskProgress::new(0),
        phase: WorkspaceDiscoveryPhase::Parsing(workspace.clone(), files.clone()),
    });
    let mut outgoing: Vec<Task> = Vec::new();
    let mut done: Vec<Option<TaskDone>> = Vec::new();

    progress_workspace_file_parsing(&mut ongoing, &mut outgoing, &mut done);

    assert_eq!(outgoing.len(), 0);
    assert_eq!(done.len(), 1);

    let done = done[0].take().expect("Must not be empty.");

    assert!(matches!(done, TaskDone::WorkspaceFileDiscovery(_)));
    assert_eq!(
        done.get_task_handle().expect("Must not be empty."),
        OngoingTaskHandle::Identifier(id)
    );
}

#[test]
fn dispatches_one_scan_per_script() {
    let id = NumberOrString::Number(7);
    let files = create_file_idx();
    let members = WorkspaceMembers {
        files: vec!["file:///x/a.cmm".to_string(), "file:///x/b.cmm".to_string()],
        missing_roots: Vec::new(),
    };

    let mut ongoing = Some(OngoingTask::WorkspaceDiscovery {
        id: id.clone(),
        onset: Instant::now(),
        progress: TaskProgress::new(2).with_limit(1),
        phase: WorkspaceDiscoveryPhase::Parsing(members, files.clone()),
    });
    let mut outgoing: Vec<Task> = Vec::new();
    let mut done: Vec<Option<TaskDone>> = Vec::new();

    progress_workspace_file_parsing(&mut ongoing, &mut outgoing, &mut done);

    assert!(done.is_empty());
    assert_eq!(
        outgoing,
        vec![
            Task::WorkspaceFileScan(id.clone(), "file:///x/a.cmm".to_string(), files.clone()),
            Task::WorkspaceFileScan(id.clone(), "file:///x/b.cmm".to_string(), files.clone()),
        ]
    );

    // The round has been taken up: nothing more is dispatched.
    progress_workspace_file_parsing(&mut ongoing, &mut outgoing, &mut done);
    assert_eq!(outgoing.len(), 2);
    assert!(done.is_empty());
}

#[test]
fn dispatches_discovery_and_indexing_with_their_inputs() {
    let id = NumberOrString::Number(3);
    let workspace = workspace();
    let mut ongoing = Some(OngoingTask::WorkspaceDiscovery {
        id: id.clone(),
        onset: Instant::now(),
        progress: TaskProgress::new(1).with_limit(1),
        phase: WorkspaceDiscoveryPhase::Scanning(workspace.clone(), None),
    });
    let mut outgoing: Vec<Task> = Vec::new();

    progress_workspace_file_discovery(&mut ongoing, &mut outgoing);
    assert_eq!(outgoing, vec![Task::WorkspaceFileDiscovery(id.clone(), workspace)]);

    let members = workspace_members();
    let mut ongoing = Some(OngoingTask::WorkspaceDiscovery {
        id: id.clone(),
        onset: Instant::now(),
        progress: TaskProgress::new(1).with_limit(1),
        phase: WorkspaceDiscoveryPhase::Indexing(members.clone(), None),
    });
    let mut outgoing: Vec<Task> = Vec::new();

    assert!(progress_workspace_file_indexing(&mut ongoing, &mut outgoing).is_none());
    assert_eq!(outgoing, vec![Task::WorkspaceFileIndexNew(id, members.files)]);
}

#[test]
fn numbers_reported_moves_as_internal_tasks() {

    let mut tasks = Tasks {
        counters: TaskCounters::new(),
        ongoing: Vec::new(),
        completed: Vec::new(),
    };
    tasks.counters.tasks_int.next_id();
    let files = create_file_idx();
    let job = process_files_did_rename_notif(
        &mut tasks,
        vec![
            FileRename { old_uri: "file:///a.cmm".to_string(), new_uri: "file:///b.cmm".to_string() },
            FileRename { old_uri: "file:///c".to_string(), new_uri: "file:///d".to_string() },
        ],
        files.clone(),
    );
    assert_eq!(
        job,
        Task::DidRenameFiles(
            NumberOrString::Number(1),
            RenameFileOperations {
                old: vec!["file:///a.cmm".to_string(), "file:///c".to_string()],
                new: vec!["file:///b.cmm".to_string(), "file:///d".to_string()],
            },
            files,
        )
    );
    assert_eq!(tasks.counters.tasks_int.count, 2);
}

#[test]
fn opened_documents_are_read_in() {

    let item = || TextDocumentItem {
        uri: "file:///a.cmm".to_string(),
        language_id: "practice".to_string(),
        version: 3,
        text: "PRINT 1\n".to_string(),
    };
    let files = create_file_idx();
    assert_eq!(
        process_doc_open_notif(item(), files.clone()),
        Task::TextDocNew(item(), files)
    );
}
