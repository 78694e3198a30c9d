use std::path;
use std::time::Instant;

use url::Url;

use t32_language_server::config::{Config, Workspace};
use t32_language_server::definitions::{GotoDefinitionResult, MacroReferenceOrigin};
use t32_language_server::discovery::recv_workspace_file_parsing_sync;
use t32_language_server::docstore::{import_doc, TextDocStatus, TextDocs};
use t32_language_server::files::{index_files, FileIndex, WorkspaceMembers};
use t32_language_server::findrefs::{
    process_find_references_result, process_goto_definition_result, FindReferencesPartialResult,
    FindReferencesResult, GoToDefinitionResponse, LocationResult,
};
use t32_language_server::lookups::{ExtMacroDefLookups, FileCallMap, FileLocationMap, UriMap};
use t32_language_server::lsp::{FindReferencesResponse, Message, Notification};
use t32_language_server::protocol::{
    Location, LocationLink, LogTraceParams, NumberOrString, Position, Range, TextDocumentItem, TraceValue,
};
use t32_language_server::references::{BRange, FileLocation, MacroDefinitionLocation, MacroScope};
use t32_language_server::startup::{process_completed_task, progress_multi_part_tasks, Tasks};
use t32_language_server::tasks::{
    FindMacroReferencesPhase, OngoingTask, Task, TaskCounters, TaskDone, TaskProgress, WorkspaceDiscoveryPhase,
};
use t32_language_server::xrefs::ScriptRefs;

type MacroDefinitionLocationMap = UriMap<MacroDefinitionLocation>;

fn to_file_uri(p: &str) -> String {
    Url::from_file_path(path::absolute(p).unwrap())
        .unwrap()
        .to_string()
}

fn config() -> Config {
    Config {
        trace_level: TraceValue::Off,
        server_progress_supported: false,
    }
}

fn tasks_with(task: OngoingTask) -> Tasks {
    Tasks {
        counters: TaskCounters::new(),
        ongoing: vec![Some(task)],
        completed: Vec::new(),
    }
}

fn range(l0: u32, c0: u32, l1: u32, c1: u32) -> Range {
    Range {
        start: Position {
            line: l0,
            character: c0,
        },
        end: Position {
            line: l1,
            character: c1,
        },
    }
}

fn create_file_idx() -> FileIndex {
    let files = ["c.cmm", "a/a.cmm", "a/d/d.cmmt", "b/b.cmm"]
        .iter()
        .map(|f| to_file_uri(&format!("tests/samples/{}", f)))
        .collect();
    index_files(files)
}

fn workspace_members() -> WorkspaceMembers {
    WorkspaceMembers {
        files: vec![to_file_uri("tests/samples/c.cmm")],
        missing_roots: Vec::new(),
    }
}

fn file(version: i64) -> (t32_language_server::textdoc::TextDoc, tree_sitter::Tree) {
    import_doc(TextDocumentItem {
        uri: to_file_uri("tests/samples/c.cmm"),
        language_id: "practice".to_string(),
        version,
        text: "PRINT \"c\"\nENDDO\n".to_string(),
    })
}

#[test]
fn does_not_overwrite_doc_with_stale_data() {
    let id = NumberOrString::Number(1);
    let onset = Instant::now();

    let workspace = workspace_members();
    let files = create_file_idx();
    let mut docs = TextDocs::build();

    let mut progress = TaskProgress::new(1).with_limit(1);

    let mut ongoing = vec![Some(OngoingTask::WorkspaceDiscovery {
        id: id.clone(),
        onset: onset.clone(),
        progress: progress.clone(),
        phase: WorkspaceDiscoveryPhase::Parsing(workspace.clone(), files.clone()),
    })];
    let mut outgoing: Vec<Option<Message>> = Vec::new();

    let doc = file(1);
    let uri = doc.0.uri.clone();
    docs.add(doc.0, doc.1, TextDocStatus::Open);

    let sync = Ok(file(0));

    recv_workspace_file_parsing_sync(
        TraceValue::Messages,
        &id,
        sync,
        &mut docs,
        &mut ongoing,
        &mut outgoing,
    );

    let ongoing = ongoing[0].take().expect("Must not be empty.");

    progress.advance();

    assert_eq!(outgoing.len(), 1);
    assert!(outgoing.iter().any(|m| {
        let Some(Message::Notification(Notification::LogTraceNotification {
            params: LogTraceParams { message, .. },
        })) = m
        else {
            panic!()
        };

        message.contains("INFO: Text document") && message.contains("updated")
    }));

    assert_eq!(
        ongoing,
        OngoingTask::WorkspaceDiscovery {
            id,
            onset,
            progress,
            phase: WorkspaceDiscoveryPhase::Parsing(workspace, files),
        }
    );

    let OngoingTask::WorkspaceDiscovery { progress, .. } = ongoing else {
        panic!("No other variant allowed.");
    };
    assert!(progress.finished());

    assert!(docs.get_doc(&uri).is_some_and(|d| d.version == 1));
}

#[test]
fn stores_parsed_doc_as_closed_and_reports_unreadable_files() {
    let id = NumberOrString::Number(1);
    let mut docs = TextDocs::build();
    let mut ongoing = vec![Some(OngoingTask::WorkspaceDiscovery {
        id: id.clone(),
        onset: Instant::now(),
        progress: TaskProgress::new(2).with_limit(1),
        phase: WorkspaceDiscoveryPhase::Parsing(workspace_members(), create_file_idx()),
    })];
    let mut outgoing: Vec<Option<Message>> = Vec::new();

    recv_workspace_file_parsing_sync(TraceValue::Off, &id, Ok(file(0)), &mut docs, &mut ongoing, &mut outgoing);
    assert!(outgoing.is_empty());
    let uri = to_file_uri("tests/samples/c.cmm");
    assert!(docs.get_doc(&uri).is_some_and(|d| d.version == 0));
    assert!(!docs.is_open(&uri));

    let missing = to_file_uri("tests/samples/missing.cmm");
    recv_workspace_file_parsing_sync(
        TraceValue::Messages,
        &id,
        Err(missing.clone()),
        &mut docs,
        &mut ongoing,
        &mut outgoing,
    );
    assert_eq!(outgoing.len(), 1);
    let Some(Message::Notification(Notification::LogTraceNotification { params })) = &outgoing[0] else {
        panic!()
    };
    assert_eq!(params.message, format!("WARNING: File \"{}\" could not be read.", missing));
    let Some(OngoingTask::WorkspaceDiscovery { progress, .. }) = &ongoing[0] else {
        panic!()
    };
    assert!(progress.finished());
    assert!(docs.get_doc(&missing).is_none());
}

#[test]
fn can_process_find_refs_result_for_macro_only_defined_in_file() {
    let cfg = config();
    let refs = ScriptRefs::new();

    let id = NumberOrString::Number(1);
    let onset = Instant::now();

    let mut ts = tasks_with(OngoingTask::FindReferences(id.clone(), onset.clone()));

    let origin = MacroReferenceOrigin {
        name: "&a".to_string(),
        span: range(10, 0, 10, 2),
        uri: to_file_uri("tests/samples/a/d/d.cmm"),
    };

    let find_refs_res = Some(FindReferencesResult::Partial(
        FindReferencesPartialResult::MacroDefsComplete {
            origin: origin.clone(),
            definitions: vec![(
                FileLocation {
                    uri: to_file_uri("tests/samples/a/d/d.cmm"),
                    range: BRange::from(149..151),
                },
                Some(MacroScope::Local),
            )],
        },
    ));

    let definitions: MacroDefinitionLocationMap = {
        let mut defs = MacroDefinitionLocationMap::new();

        defs.insert(
            &origin.uri,
            MacroDefinitionLocation::Local(BRange::from(149..151)),
        );
        defs
    };

    let mut outgoing: Vec<Option<Message>> = Vec::new();

    let result = process_find_references_result(
        &cfg,
        &refs,
        None,
        &id,
        find_refs_res,
        &mut ts,
        &mut outgoing,
    );

    assert!(result.is_none());
    assert!(ts.completed.is_empty());
    assert!(ts.ongoing[0].as_ref().is_some_and(|t| {
        let OngoingTask::FindMacroReferences { progress, .. } = t else {
            unreachable!()
        };
        progress.ready()
    }));
    assert!(ts.ongoing[0].take().is_some_and(|t| t
        == OngoingTask::FindMacroReferences {
            id: id,
            onset,
            progress: TaskProgress::new(1),
            origin,
            phase: FindMacroReferencesPhase::ReferencesFromDefinitions {
                subscripts: Vec::new(),
                results: FileLocationMap::new(),
                undone: definitions,
            },
        }));
}

#[test]
fn can_process_find_refs_result_for_externally_defined_macro() {
    let cfg = config();
    let mut refs = ScriptRefs::new();
    refs.callers.push((
        to_file_uri("tests/samples/a/a.cmm"),
        vec![
            to_file_uri("tests/samples/c.cmm"),
            to_file_uri("tests/samples/a/d/d.cmm"),
        ],
    ));

    let id = NumberOrString::Number(1);
    let onset = Instant::now();

    let mut ts = tasks_with(OngoingTask::FindReferences(id.clone(), onset.clone()));

    let origin = MacroReferenceOrigin {
        name: "&from_c_cmm".to_string(),
        span: range(139, 7, 139, 18),
        uri: to_file_uri("tests/samples/a/a.cmm"),
    };

    let lookups: ExtMacroDefLookups = {
        let mut def_lookups = ExtMacroDefLookups::new();

        def_lookups.add(
            to_file_uri("tests/samples/c.cmm"),
            to_file_uri("tests/samples/a/a.cmm"),
        );

        def_lookups.add(
            to_file_uri("tests/samples/a/d/d.cmm"),
            to_file_uri("tests/samples/a/a.cmm"),
        );
        def_lookups
    };

    let find_refs_res = Some(FindReferencesResult::Partial(
        FindReferencesPartialResult::MacroDefsIncomplete {
            origin: origin.clone(),
            definitions: Vec::new(),
        },
    ));

    let mut outgoing: Vec<Option<Message>> = Vec::new();

    let result = process_find_references_result(
        &cfg,
        &refs,
        None,
        &id,
        find_refs_res,
        &mut ts,
        &mut outgoing,
    );

    assert!(result.is_none());

    assert!(ts.ongoing[0].as_ref().is_some_and(|t| {
        let OngoingTask::FindMacroReferences { progress, .. } = t else {
            unreachable!()
        };
        progress.ready()
    }));

    assert!(ts.ongoing[0].take().is_some_and(|t| t
        == OngoingTask::FindMacroReferences {
            id,
            onset,
            progress: TaskProgress::new(2),
            origin,
            phase: FindMacroReferencesPhase::ExternalDefinitions {
                visited: FileCallMap::new(),
                results: MacroDefinitionLocationMap::new(),
                undone: lookups,
            }
        }));
}

#[test]
fn can_process_find_refs_result_for_macro_without_definition() {
    let cfg = config();
    let refs = ScriptRefs::new();

    let id = NumberOrString::Number(1);
    let onset = Instant::now();

    let mut ts = tasks_with(OngoingTask::FindReferences(id.clone(), onset.clone()));

    let origin = MacroReferenceOrigin {
        name: "&undefined".to_string(),
        span: range(6, 7, 6, 17),
        uri: to_file_uri("tests/samples/orphan.cmm"),
    };

    let find_refs_res = Some(FindReferencesResult::Partial(
        FindReferencesPartialResult::MacroDefsIncomplete {
            origin: origin.clone(),
            definitions: Vec::new(),
        },
    ));

    let mut outgoing: Vec<Option<Message>> = Vec::new();

    let result = process_find_references_result(
        &cfg,
        &refs,
        None,
        &id,
        find_refs_res,
        &mut ts,
        &mut outgoing,
    );

    assert!(result.is_some_and(|r| r
        == FindReferencesResponse {
            id,
            result: Some(vec![Location {
                uri: origin.uri,
                range: origin.span
            }])
        }));
}

#[test]
fn can_process_find_refs_result_for_file_target() {
    let cfg = config();
    let mut refs = ScriptRefs::new();
    let mut places = FileLocationMap::new();
    places.insert(&to_file_uri("tests/samples/a/a.cmm"), range(49, 3, 49, 13));
    refs.file_targets.push((to_file_uri("tests/samples/b/b.cmm"), places));

    let id = NumberOrString::Number(1);
    let onset = Instant::now();

    let mut ts = tasks_with(OngoingTask::FindReferences(id.clone(), onset.clone()));

    let find_refs_res = Some(FindReferencesResult::Partial(
        FindReferencesPartialResult::FileTarget {
            origin_uri: to_file_uri("tests/samples/a/a.cmm"),
            target: to_file_uri("tests/samples/b/b.cmm"),
        },
    ));

    let mut outgoing: Vec<Option<Message>> = Vec::new();

    let result = process_find_references_result(
        &cfg,
        &refs,
        Some(vec![to_file_uri("tests/samples/b/b.cmm")]),
        &id,
        find_refs_res,
        &mut ts,
        &mut outgoing,
    );

    assert!(result.is_some_and(|r| r
        == FindReferencesResponse {
            id,
            result: Some(vec![Location {
                uri: to_file_uri("tests/samples/a/a.cmm"),
                range: range(49, 3, 49, 13),
            },]),
        }));
}

#[test]
fn answers_command_references_from_all_scripts() {
    let cfg = config();
    let mut refs = ScriptRefs::new();
    let mut places = FileLocationMap::new();
    places.insert(&"file:///a.cmm".to_string(), range(1, 0, 1, 5));
    places.insert(&"file:///b.cmm".to_string(), range(2, 0, 2, 5));
    places.insert(&"file:///a.cmm".to_string(), range(7, 2, 7, 7));
    refs.commands.push(("PRINT".to_string(), places));

    let id = NumberOrString::Number(3);
    let mut ts = tasks_with(OngoingTask::FindReferences(id.clone(), Instant::now()));
    let mut outgoing: Vec<Option<Message>> = Vec::new();

    let result = process_find_references_result(
        &cfg,
        &refs,
        None,
        &id,
        Some(FindReferencesResult::Partial(FindReferencesPartialResult::Command("PRINT".to_string()))),
        &mut ts,
        &mut outgoing,
    );
    assert_eq!(
        result,
        Some(FindReferencesResponse {
            id: id.clone(),
            result: Some(vec![
                Location { uri: "file:///a.cmm".to_string(), range: range(1, 0, 1, 5) },
                Location { uri: "file:///a.cmm".to_string(), range: range(7, 2, 7, 7) },
                Location { uri: "file:///b.cmm".to_string(), range: range(2, 0, 2, 5) },
            ]),
        })
    );

    let result = process_find_references_result(
        &cfg,
        &refs,
        None,
        &id,
        Some(FindReferencesResult::Partial(FindReferencesPartialResult::Command("ENDDO".to_string()))),
        &mut ts,
        &mut outgoing,
    );
    assert_eq!(result, Some(FindReferencesResponse { id: id.clone(), result: None }));

    let result = process_find_references_result(&cfg, &refs, None, &id, None, &mut ts, &mut outgoing);
    assert_eq!(result, Some(FindReferencesResponse { id, result: None }));
    assert!(outgoing.is_empty());
    assert!(matches!(ts.ongoing[0], Some(OngoingTask::FindReferences(..))));
}

#[test]
fn notes_conversion_to_macro_reference_lookup() {
    let cfg = Config {
        trace_level: TraceValue::Messages,
        server_progress_supported: false,
    };
    let refs = ScriptRefs::new();
    let id = NumberOrString::Number(9);
    let mut ts = tasks_with(OngoingTask::FindReferences(id.clone(), Instant::now()));
    let mut outgoing: Vec<Option<Message>> = Vec::new();
    let origin = MacroReferenceOrigin {
        name: "&m".to_string(),
        span: range(0, 0, 0, 2),
        uri: "file:///m.cmm".to_string(),
    };

    let result = process_find_references_result(
        &cfg,
        &refs,
        None,
        &id,
        Some(FindReferencesResult::Partial(FindReferencesPartialResult::MacroDefsIncomplete {
            origin,
            definitions: vec![(
                FileLocation {
                    uri: "file:///m.cmm".to_string(),
                    range: BRange::from(3..5),
                },
                None,
            )],
        })),
        &mut ts,
        &mut outgoing,
    );
    assert!(result.is_none());
    assert_eq!(outgoing.len(), 1);
    let Some(Message::Notification(Notification::LogTraceNotification { params })) = &outgoing[0] else {
        panic!()
    };
    assert_eq!(
        params.message,
        "INFO: Request with ID \"9\" converted to find macro references request."
    );
    assert!(matches!(
        ts.ongoing[0],
        Some(OngoingTask::FindMacroReferences {
            phase: FindMacroReferencesPhase::ReferencesFromDefinitions { .. },
            ..
        })
    ));
}

#[test]
fn can_process_goto_definition_result() {
    let mut refs = ScriptRefs::new();
    let uri_a = to_file_uri("tests/samples/a/a.cmm");
    let uri_c = to_file_uri("tests/samples/c.cmm");
    let uri_d = to_file_uri("tests/samples/a/d/d.cmm");
    refs.callers.push((uri_a.clone(), vec![uri_c.clone(), uri_d.clone()]));

    let id = NumberOrString::Number(2);
    let onset = Instant::now();

    let mut ts = tasks_with(OngoingTask::GoToDefinition(id.clone(), onset.clone()));

    let goto_def_result = Some(GotoDefinitionResult::PartialMacro(
        uri_a.clone(),
        "&from_c_cmm".to_string(),
        range(139, 7, 139, 18),
        Vec::new(),
    ));

    let mut outgoing: Vec<Option<Message>> = Vec::new();

    let origin = MacroReferenceOrigin {
        name: "&from_c_cmm".to_string(),
        span: range(139, 7, 139, 18),
        uri: uri_a.clone(),
    };

    let result = process_goto_definition_result(
        &refs,
        &id,
        goto_def_result,
        TraceValue::Off,
        &mut ts,
        &mut outgoing,
    );

    assert!(result.is_none());
    assert!(outgoing.is_empty());

    assert!(ts.ongoing[0].as_ref().is_some_and(|t| {
        let OngoingTask::GoToExternalMacroDef { progress, .. } = t else {
            unreachable!()
        };
        progress.ready()
    }));

    assert!(ts.ongoing[0].take().is_some_and(|t| t
        == OngoingTask::GoToExternalMacroDef {
            id,
            onset,
            progress: TaskProgress::new(2),
            origin,
            visited: FileCallMap::new(),
            undone: ExtMacroDefLookups {
                files: vec![uri_c.clone(), uri_d.clone()],
                callees: vec![uri_a.clone(), uri_a.clone()],
            },
            results: Vec::new(),
        }));
}

#[test]
fn answers_definition_request_without_callers() {
    let refs = ScriptRefs::new();
    let id = NumberOrString::Number(4);
    let mut ts = tasks_with(OngoingTask::GoToDefinition(id.clone(), Instant::now()));
    let mut outgoing: Vec<Option<Message>> = Vec::new();
    let link = LocationLink {
        origin_selection_range: None,
        target_uri: "file:///x.cmm".to_string(),
        target_range: range(1, 0, 1, 4),
        target_selection_range: range(1, 0, 1, 4),
    };

    let result = process_goto_definition_result(
        &refs,
        &id,
        Some(GotoDefinitionResult::PartialMacro(
            "file:///x.cmm".to_string(),
            "&m".to_string(),
            range(3, 0, 3, 2),
            vec![link.clone()],
        )),
        TraceValue::Messages,
        &mut ts,
        &mut outgoing,
    );
    assert_eq!(
        result,
        Some(GoToDefinitionResponse {
            id: id.clone(),
            result: Some(LocationResult::ExtMeta(vec![link.clone()])),
        })
    );

    let result = process_goto_definition_result(
        &refs,
        &id,
        Some(GotoDefinitionResult::PartialMacro(
            "file:///x.cmm".to_string(),
            "&m".to_string(),
            range(3, 0, 3, 2),
            Vec::new(),
        )),
        TraceValue::Messages,
        &mut ts,
        &mut outgoing,
    );
    assert_eq!(result, Some(GoToDefinitionResponse { id: id.clone(), result: None }));

    let result = process_goto_definition_result(&refs, &id, None, TraceValue::Messages, &mut ts, &mut outgoing);
    assert_eq!(result, Some(GoToDefinitionResponse { id, result: None }));
    assert!(outgoing.is_empty());
}

#[test]
fn records_discovery_steps_while_booting() {
    let cfg = Config {
        trace_level: TraceValue::Messages,
        server_progress_supported: false,
    };
    let id = NumberOrString::Number(1);
    let mut ts = tasks_with(OngoingTask::WorkspaceDiscovery {
        id: id.clone(),
        onset: Instant::now(),
        progress: TaskProgress::new(1).with_limit(1),
        phase: WorkspaceDiscoveryPhase::Indexing(workspace_members(), None),
    });
    let mut outgoing: Vec<Option<Message>> = Vec::new();

    let files = create_file_idx();
    process_completed_task(TaskDone::WorkspaceFileIndexSync(id.clone(), files.clone()), &cfg, &mut ts, &mut outgoing);

    let Some(OngoingTask::WorkspaceDiscovery { progress, phase, .. }) = &ts.ongoing[0] else {
        panic!()
    };
    assert!(progress.finished());
    assert_eq!(*phase, WorkspaceDiscoveryPhase::Indexing(workspace_members(), Some(files)));
    assert_eq!(outgoing.len(), 1);
    let Some(Message::Notification(Notification::LogTraceNotification { params })) = &outgoing[0] else {
        panic!()
    };
    assert_eq!(
        params.message,
        "INFO: Workspace discovery with ID \"1\": File index for workspace has been created."
    );
}

#[test]
fn steps_multi_part_tasks_slot_by_slot() {
    let id = NumberOrString::Number(1);
    let mut ts = tasks_with(OngoingTask::WorkspaceDiscovery {
        id: id.clone(),
        onset: Instant::now(),
        progress: TaskProgress::new(1).with_limit(1),
        phase: WorkspaceDiscoveryPhase::Scanning(Workspace::Root(None), None),
    });
    let mut outgoing: Vec<Option<Message>> = Vec::new();

    let (files, jobs) = progress_multi_part_tasks(&mut ts, &mut outgoing);
    assert!(files.is_none());
    assert_eq!(jobs.len(), 1);
    assert!(matches!(&jobs[0], Task::WorkspaceFileDiscovery(i, Workspace::Root(None)) if *i == id));
    assert!(outgoing.is_empty());

    // The round is taken up: nothing more is dispatched until it ends.
    let (files, jobs) = progress_multi_part_tasks(&mut ts, &mut outgoing);
    assert!(files.is_none());
    assert!(jobs.is_empty());

    // Once the scan has ended, the discovery moves on to indexing.
    process_completed_task(
        TaskDone::WorkspaceFileDiscoverySync(id.clone(), workspace_members()),
        &config(),
        &mut ts,
        &mut outgoing,
    );
    let (files, jobs) = progress_multi_part_tasks(&mut ts, &mut outgoing);
    assert!(files.is_none());
    assert!(jobs.is_empty());
    assert!(matches!(
        &ts.ongoing[0],
        Some(OngoingTask::WorkspaceDiscovery { phase: WorkspaceDiscoveryPhase::Indexing(_, None), .. })
    ));
    let (_, jobs) = progress_multi_part_tasks(&mut ts, &mut outgoing);
    assert_eq!(jobs.len(), 1);
    assert!(matches!(&jobs[0], Task::WorkspaceFileIndexNew(i, f) if *i == id && *f == workspace_members().files));
}

fn parsing_task(id: &NumberOrString, onset: Instant, progress: TaskProgress) -> Vec<Option<OngoingTask>> {
    vec![Some(OngoingTask::WorkspaceDiscovery {
        id: id.clone(),
        onset,
        progress,
        phase: WorkspaceDiscoveryPhase::Parsing(workspace_members(), create_file_idx()),
    })]
}

#[test]
fn can_progress_file_parsing_stage() {
    let id = NumberOrString::Number(1);
    let onset = Instant::now();

    let workspace = workspace_members();
    let files = create_file_idx();
    let mut docs = TextDocs::build();

    let mut progress = TaskProgress::new(1).with_limit(1);

    let mut ongoing = parsing_task(&id, onset, progress.clone());
    let mut outgoing: Vec<Option<Message>> = Vec::new();

    let sync = Ok(file(0));

    recv_workspace_file_parsing_sync(
        TraceValue::Messages,
        &id,
        sync,
        &mut docs,
        &mut ongoing,
        &mut outgoing,
    );

    let ongoing = ongoing[0].take().expect("Must not be empty.");

    progress.advance();

    assert_eq!(outgoing.len(), 1);
    assert!(outgoing.iter().any(|m| {
        let Some(Message::Notification(Notification::LogTraceNotification {
            params: LogTraceParams { message, .. },
        })) = m
        else {
            panic!()
        };

        message.contains("INFO: Text document") && message.contains("updated")
    }));

    assert_eq!(
        ongoing,
        OngoingTask::WorkspaceDiscovery {
            id,
            onset,
            progress,
            phase: WorkspaceDiscoveryPhase::Parsing(workspace, files),
        }
    );

    let OngoingTask::WorkspaceDiscovery { progress, .. } = ongoing else {
        panic!("No other variant allowed.");
    };
    assert!(progress.finished());
}

#[test]
fn reports_file_parse_errors() {
    let id = NumberOrString::Number(1);
    let onset = Instant::now();

    let workspace = workspace_members();
    let files = create_file_idx();
    let mut docs = TextDocs::build();

    let mut progress = TaskProgress::new(1).with_limit(1);

    let mut ongoing = parsing_task(&id, onset, progress.clone());
    let mut outgoing: Vec<Option<Message>> = Vec::new();

    let sync = Err(to_file_uri("tests/samples/missing.cmm"));

    recv_workspace_file_parsing_sync(
        TraceValue::Messages,
        &id,
        sync,
        &mut docs,
        &mut ongoing,
        &mut outgoing,
    );

    let ongoing = ongoing[0].take().expect("Must not be empty.");

    progress.advance();

    assert_eq!(outgoing.len(), 1);
    assert!(outgoing.iter().any(|m| {
        let Some(Message::Notification(Notification::LogTraceNotification {
            params: LogTraceParams { message, .. },
        })) = m
        else {
            panic!()
        };

        message.contains("WARNING: File") && message.contains("could not be read")
    }));

    assert_eq!(
        ongoing,
        OngoingTask::WorkspaceDiscovery {
            id,
            onset,
            progress,
            phase: WorkspaceDiscoveryPhase::Parsing(workspace, files),
        }
    );

    let OngoingTask::WorkspaceDiscovery { progress, .. } = ongoing else {
        panic!("No other variant allowed.");
    };
    assert!(progress.finished());
}
