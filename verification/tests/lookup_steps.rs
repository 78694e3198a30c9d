use std::time::Instant;

use t32_language_server::definitions::{
    next_lookups_goto_external_macro_def, progress_goto_external_macro_def, MacroReferenceOrigin,
};
use t32_language_server::lookups::{ExtMacroDefLookups, FileCallMap, FileLocationMap, UriMap};
use t32_language_server::protocol::{Location, LocationLink, NumberOrString, Position, Range};
use t32_language_server::references::{
    next_lookups_find_external_macro_defs, next_lookups_find_macro_def_references,
    next_lookups_find_subscript_macro_refs, prepare_find_macro_references_req,
    progress_find_external_macro_definitions, progress_find_macro_def_references,
    progress_find_subscript_macro_refs, BRange, FileLocation, MacroDefinitionLocation, MacroScope,
};
use t32_language_server::tasks::{
    FindMacroReferencesPhase, OngoingTask, Task, TaskDone, TaskProgress,
};

fn range(line: u32, a: u32, b: u32) -> Range {
    Range {
        start: Position { line, character: a },
        end: Position { line, character: b },
    }
}

fn origin() -> MacroReferenceOrigin {
    MacroReferenceOrigin {
        name: "&m".to_string(),
        span: range(3, 4, 6),
        uri: "file:///w/a.cmm".to_string(),
    }
}

fn s(t: &str) -> String {
    t.to_string()
}

type MacroDefinitionLocationMap = UriMap<MacroDefinitionLocation>;

fn to_file_uri(path: &str) -> String {
    url::Url::from_file_path(std::path::absolute(path).unwrap())
        .unwrap()
        .to_string()
}

fn pos(line: u32, character: u32) -> Position {
    Position { line, character }
}

#[test]
fn reports_origin_when_no_definition_was_found() {
    let id = NumberOrString::Number(4);
    let mut task = Some(OngoingTask::FindMacroReferences {
        id: id.clone(),
        onset: Instant::now(),
        progress: TaskProgress::new(0),
        origin: origin(),
        phase: FindMacroReferencesPhase::ExternalDefinitions {
            visited: FileCallMap::new(),
            results: UriMap::new(),
            undone: ExtMacroDefLookups::new(),
        },
    });
    let mut outgoing: Vec<Task> = Vec::new();
    let mut done: Vec<Option<TaskDone>> = Vec::new();

    progress_find_external_macro_definitions(&mut task, &mut outgoing, &mut done);

    assert!(task.is_none());
    assert!(outgoing.is_empty());
    assert_eq!(
        done,
        vec![Some(TaskDone::FindMacroReferences(
            id,
            Some(vec![Location { uri: s("file:///w/a.cmm"), range: range(3, 4, 6) }])
        ))]
    );
}

#[test]
fn moves_on_to_references_from_definitions() {
    let id = NumberOrString::Number(4);
    let onset = Instant::now();
    let mut results: UriMap<MacroDefinitionLocation> = UriMap::new();
    results.insert(&s("file:///w/b.cmm"), MacroDefinitionLocation::Local(BRange::new(1, 3)));
    results.insert(&s("file:///w/c.cmm"), MacroDefinitionLocation::Global(BRange::new(5, 7)));
    let mut task = Some(OngoingTask::FindMacroReferences {
        id: id.clone(),
        onset,
        progress: TaskProgress::new(0),
        origin: origin(),
        phase: FindMacroReferencesPhase::ExternalDefinitions {
            visited: FileCallMap::new(),
            results: results.clone(),
            undone: ExtMacroDefLookups::new(),
        },
    });
    let mut outgoing: Vec<Task> = Vec::new();
    let mut done: Vec<Option<TaskDone>> = Vec::new();

    progress_find_external_macro_definitions(&mut task, &mut outgoing, &mut done);

    assert!(done.is_empty());
    assert_eq!(
        task,
        Some(OngoingTask::FindMacroReferences {
            id: id.clone(),
            onset,
            progress: TaskProgress::new(2),
            origin: origin(),
            phase: FindMacroReferencesPhase::ReferencesFromDefinitions {
                subscripts: Vec::new(),
                results: FileLocationMap::new(),
                undone: results.clone(),
            },
        })
    );

    // The next round looks at each script with definitions.
    progress_find_macro_def_references(&mut task, &mut outgoing);
    assert_eq!(
        outgoing,
        vec![
            Task::FindMacroReferencesFromDefinitions {
                id: id.clone(),
                script: s("file:///w/b.cmm"),
                macro_name: s("&m"),
                definitions: vec![MacroDefinitionLocation::Local(BRange::new(1, 3))],
            },
            Task::FindMacroReferencesFromDefinitions {
                id: id.clone(),
                script: s("file:///w/c.cmm"),
                macro_name: s("&m"),
                definitions: vec![MacroDefinitionLocation::Global(BRange::new(5, 7))],
            },
        ]
    );
    let Some(OngoingTask::FindMacroReferences { progress, phase, .. }) = &task else {
        panic!("Must not be empty.");
    };
    assert_eq!(progress.total, 2);
    assert!(!progress.ready());
    assert!(matches!(
        phase,
        FindMacroReferencesPhase::ReferencesFromDefinitions { undone, .. } if undone.keys.is_empty()
    ));
}

#[test]
fn queues_each_caller_and_call_once() {
    let id = NumberOrString::Number(9);
    let mut visited = FileCallMap::new();
    visited.insert(s("file:///w/x.cmm"), s("file:///w/a.cmm"));
    let mut undone = ExtMacroDefLookups::new();
    undone.add(s("file:///w/x.cmm"), s("file:///w/a.cmm"));
    undone.add(s("file:///w/y.cmm"), s("file:///w/a.cmm"));
    undone.add(s("file:///w/y.cmm"), s("file:///w/a.cmm"));
    undone.add(s("file:///w/x.cmm"), s("file:///w/b.cmm"));

    let mut task = Some(OngoingTask::FindMacroReferences {
        id: id.clone(),
        onset: Instant::now(),
        progress: TaskProgress::new(1),
        origin: origin(),
        phase: FindMacroReferencesPhase::ExternalDefinitions {
            visited,
            results: UriMap::new(),
            undone,
        },
    });
    let mut outgoing: Vec<Task> = Vec::new();
    let mut done: Vec<Option<TaskDone>> = Vec::new();

    progress_find_external_macro_definitions(&mut task, &mut outgoing, &mut done);

    assert!(done.is_empty());
    assert_eq!(
        outgoing,
        vec![
            Task::FindExternalDefinitionsForMacroRef {
                id: id.clone(),
                script: s("file:///w/y.cmm"),
                origin: origin(),
                callee: s("file:///w/a.cmm"),
            },
            Task::FindExternalDefinitionsForMacroRef {
                id: id.clone(),
                script: s("file:///w/x.cmm"),
                origin: origin(),
                callee: s("file:///w/b.cmm"),
            },
        ]
    );
    let Some(OngoingTask::FindMacroReferences {
        progress,
        phase: FindMacroReferencesPhase::ExternalDefinitions { visited, undone, .. },
        ..
    }) = &task
    else {
        panic!("Must not be empty.");
    };
    assert_eq!(progress.total, 2);
    assert!(undone.files.is_empty());
    assert_eq!(visited.get("file:///w/x.cmm"), Some(&vec![s("file:///w/a.cmm"), s("file:///w/b.cmm")]));
    assert_eq!(visited.get("file:///w/y.cmm"), Some(&vec![s("file:///w/a.cmm")]));
}

#[test]
fn looks_at_each_subscript_once() {
    let id = NumberOrString::Number(2);
    let mut task = Some(OngoingTask::FindMacroReferences {
        id: id.clone(),
        onset: Instant::now(),
        progress: TaskProgress::new(3),
        origin: origin(),
        phase: FindMacroReferencesPhase::ReferencesInSubscripts {
            visited: vec![s("file:///w/b.cmm")],
            results: FileLocationMap::new(),
            undone: vec![s("file:///w/b.cmm"), s("file:///w/c.cmm"), s("file:///w/d.cmm")],
        },
    });
    let mut outgoing: Vec<Task> = Vec::new();
    let mut done: Vec<Option<TaskDone>> = Vec::new();

    progress_find_subscript_macro_refs(&mut task, &mut outgoing, &mut done);

    assert!(done.is_empty());
    assert_eq!(
        outgoing,
        vec![
            Task::FindMacroReferencesInSubscripts {
                id: id.clone(),
                script: s("file:///w/c.cmm"),
                macro_name: s("&m"),
            },
            Task::FindMacroReferencesInSubscripts {
                id: id.clone(),
                script: s("file:///w/d.cmm"),
                macro_name: s("&m"),
            },
        ]
    );
    let Some(OngoingTask::FindMacroReferences {
        progress,
        phase: FindMacroReferencesPhase::ReferencesInSubscripts { visited, undone, .. },
        ..
    }) = &task
    else {
        panic!("Must not be empty.");
    };
    assert_eq!(progress.total, 2);
    assert!(undone.is_empty());
    assert_eq!(
        visited,
        &vec![s("file:///w/b.cmm"), s("file:///w/c.cmm"), s("file:///w/d.cmm")]
    );
}

#[test]
fn hands_out_references_found_in_subscripts() {
    let id = NumberOrString::Number(2);
    let mut results = FileLocationMap::new();
    results.insert(&s("file:///w/c.cmm"), range(1, 0, 2));
    results.insert(&s("file:///w/b.cmm"), range(4, 1, 3));
    results.insert(&s("file:///w/c.cmm"), range(7, 2, 4));
    let mut task = Some(OngoingTask::FindMacroReferences {
        id: id.clone(),
        onset: Instant::now(),
        progress: TaskProgress::new(0),
        origin: origin(),
        phase: FindMacroReferencesPhase::ReferencesInSubscripts {
            visited: Vec::new(),
            results,
            undone: Vec::new(),
        },
    });
    let mut outgoing: Vec<Task> = Vec::new();
    let mut done: Vec<Option<TaskDone>> = Vec::new();

    progress_find_subscript_macro_refs(&mut task, &mut outgoing, &mut done);

    assert!(outgoing.is_empty());
    assert_eq!(
        done,
        vec![Some(TaskDone::FindMacroReferences(
            id,
            Some(vec![
                Location { uri: s("file:///w/c.cmm"), range: range(1, 0, 2) },
                Location { uri: s("file:///w/c.cmm"), range: range(7, 2, 4) },
                Location { uri: s("file:///w/b.cmm"), range: range(4, 1, 3) },
            ])
        ))]
    );
    let Some(OngoingTask::FindMacroReferences {
        phase: FindMacroReferencesPhase::ReferencesInSubscripts { results, .. },
        ..
    }) = &task
    else {
        panic!("Must not be empty.");
    };
    assert!(results.keys.is_empty());
}

#[test]
fn hands_out_definitions_with_global_ones() {
    let id = NumberOrString::Number(6);
    let link = |uri: &str| LocationLink {
        origin_selection_range: Some(range(3, 4, 6)),
        target_uri: s(uri),
        target_range: range(0, 0, 1),
        target_selection_range: range(0, 0, 1),
    };
    let mut task = Some(OngoingTask::GoToExternalMacroDef {
        id: id.clone(),
        onset: Instant::now(),
        progress: TaskProgress::new(0),
        origin: origin(),
        visited: FileCallMap::new(),
        undone: ExtMacroDefLookups::new(),
        results: vec![link("file:///w/b.cmm")],
    });
    let mut outgoing: Vec<Task> = Vec::new();
    let mut done: Vec<Option<TaskDone>> = Vec::new();

    progress_goto_external_macro_def(vec![link("file:///w/g.cmm")], &mut task, &mut outgoing, &mut done);

    assert!(outgoing.is_empty());
    assert_eq!(
        done,
        vec![Some(TaskDone::GoToExternalMacroDef(
            id,
            vec![link("file:///w/b.cmm"), link("file:///w/g.cmm")]
        ))]
    );
    let Some(OngoingTask::GoToExternalMacroDef { results, .. }) = &task else {
        panic!("Must not be empty.");
    };
    assert!(results.is_empty());
}

#[test]
fn queues_definition_lookups_in_callers() {
    let id = NumberOrString::Number(6);
    let mut undone = ExtMacroDefLookups::new();
    undone.add(s("file:///w/x.cmm"), s("file:///w/a.cmm"));
    let mut task = Some(OngoingTask::GoToExternalMacroDef {
        id: id.clone(),
        onset: Instant::now(),
        progress: TaskProgress::new(1),
        origin: origin(),
        visited: FileCallMap::new(),
        undone,
        results: Vec::new(),
    });
    let mut outgoing: Vec<Task> = Vec::new();
    let mut done: Vec<Option<TaskDone>> = Vec::new();

    progress_goto_external_macro_def(Vec::new(), &mut task, &mut outgoing, &mut done);

    assert!(done.is_empty());
    assert_eq!(
        outgoing,
        vec![Task::GoToExternalMacroDef {
            id,
            script: s("file:///w/x.cmm"),
            origin: origin(),
            backtrace: s("file:///w/a.cmm"),
        }]
    );
}

#[test]
fn can_queue_lookups_for_macro_definition_references() {
    let id = NumberOrString::Number(1);
    let onset = Instant::now();

    let origin = MacroReferenceOrigin {
        name: "&local_macro".to_string(),
        span: Range { start: pos(38, 4), end: pos(38, 16) },
        uri: to_file_uri("tests/samples/a/a.cmm"),
    };

    let definitions: MacroDefinitionLocationMap = {
        let mut defs = MacroDefinitionLocationMap::new();

        defs.insert(&origin.uri, MacroDefinitionLocation::Local(BRange::from(509..521)));
        defs
    };

    let mut ongoing = OngoingTask::FindMacroReferences {
        id: id.clone(),
        onset: onset.clone(),
        progress: TaskProgress::new(10),
        origin: origin.clone(),
        phase: FindMacroReferencesPhase::ReferencesFromDefinitions {
            subscripts: Vec::new(),
            results: FileLocationMap::new(),
            undone: definitions.clone(),
        },
    };

    let mut progress = TaskProgress::new(1);
    progress.ack_ready();

    let mut outgoing: Vec<Task> = Vec::new();

    next_lookups_find_macro_def_references(&mut ongoing, &mut outgoing);

    assert!(
        ongoing
            == OngoingTask::FindMacroReferences {
                id,
                onset,
                progress,
                origin,
                phase: FindMacroReferencesPhase::ReferencesFromDefinitions {
                    subscripts: Vec::new(),
                    results: FileLocationMap::new(),
                    undone: MacroDefinitionLocationMap::new(),
                },
            }
    );
    assert!(!outgoing.is_empty());
}

#[test]
fn can_queue_global_macro_reference_lookups() {
    let id = NumberOrString::Number(3);
    let onset = Instant::now();

    let origin = MacroReferenceOrigin {
        name: "&global_macro".to_string(),
        span: Range { start: pos(41, 7), end: pos(41, 20) },
        uri: to_file_uri("tests/samples/a/a.cmm"),
    };

    let definitions: Vec<(FileLocation, Option<MacroScope>)> = {
        let mut defs: Vec<(FileLocation, Option<MacroScope>)> = Vec::new();

        defs.push((
            FileLocation {
                uri: to_file_uri("tests/samples/a/a.cmm"),
                range: BRange::from(489..502),
            },
            Some(MacroScope::Global),
        ));
        defs
    };

    // The scripts that reference the global macro, as the document store
    // lists them.
    let scripts_with_macro = vec![
        to_file_uri("tests/samples/c.cmm"),
        to_file_uri("tests/samples/a/a.cmm"),
    ];

    let mut ongoing = vec![Some(OngoingTask::FindReferences(id.clone(), onset.clone()))];

    let undone: MacroDefinitionLocationMap = {
        let mut macros = MacroDefinitionLocationMap::new();

        for (FileLocation { uri, range }, scope) in definitions.iter() {
            macros.insert(uri, MacroDefinitionLocation::from_span(scope.as_ref(), range.clone()));
        }
        macros
    };

    prepare_find_macro_references_req(
        &scripts_with_macro,
        id.clone(),
        origin.clone(),
        definitions,
        &mut ongoing,
    );

    let ongoing = ongoing[0].take();
    assert!(ongoing.as_ref().is_some_and(|t| *t
        == OngoingTask::FindMacroReferences {
            id,
            onset,
            progress: TaskProgress::new(undone.num_files() as u32),
            origin,
            phase: FindMacroReferencesPhase::ReferencesFromDefinitions {
                subscripts: vec![
                    to_file_uri("tests/samples/c.cmm"),
                    to_file_uri("tests/samples/a/a.cmm"),
                ],
                results: FileLocationMap::new(),
                undone,
            },
        }));

    assert!(ongoing.is_some_and(|t| {
        let OngoingTask::FindMacroReferences { progress, .. } = t else {
            panic!()
        };

        progress.ready()
    }));
}

#[test]
fn skips_redundant_subscript_macro_ref_checks() {
    let mut task = Some(OngoingTask::FindMacroReferences {
        id: NumberOrString::Number(1),
        onset: Instant::now(),
        progress: TaskProgress::new(3),
        origin: MacroReferenceOrigin {
            name: "test".to_string(),
            span: Range { start: pos(0, 0), end: pos(0, 5) },
            uri: "test.cmm".to_string(),
        },
        phase: FindMacroReferencesPhase::ReferencesInSubscripts {
            visited: vec!["file:///sample/a.cmm".to_string(), "file:///sample/b.cmm".to_string()],
            undone: vec!["file:///sample/a.cmm".to_string(), "file:///sample/b.cmm".to_string()],
            results: FileLocationMap::new(),
        },
    });

    let mut outgoing: Vec<Task> = Vec::new();
    let mut completed: Vec<Option<TaskDone>> = Vec::new();

    progress_find_subscript_macro_refs(&mut task, &mut outgoing, &mut completed);

    assert!(outgoing.is_empty());
    assert!(completed.is_empty());

    progress_find_subscript_macro_refs(&mut task, &mut outgoing, &mut completed);

    assert!(outgoing.is_empty());
    assert!(!completed.is_empty());
}

fn from_c_cmm_origin() -> MacroReferenceOrigin {
    MacroReferenceOrigin {
        name: "&from_c_cmm".to_string(),
        span: Range { start: pos(139, 7), end: pos(139, 18) },
        uri: to_file_uri("tests/samples/a/a.cmm"),
    }
}

fn c_and_d_lookups() -> ExtMacroDefLookups {
    let mut def_lookups = ExtMacroDefLookups::new();

    def_lookups.add(to_file_uri("tests/samples/c.cmm"), to_file_uri("tests/samples/a/a.cmm"));
    def_lookups.add(to_file_uri("tests/samples/a/d/d.cmm"), to_file_uri("tests/samples/a/a.cmm"));
    def_lookups
}

#[test]
fn can_queue_lookups_for_externally_defined_macros() {
    let id = NumberOrString::Number(1);
    let onset = Instant::now();

    let mut progress = TaskProgress::new(2);

    let origin = from_c_cmm_origin();
    let undone = c_and_d_lookups();

    let mut ongoing = OngoingTask::FindMacroReferences {
        id: id.clone(),
        onset: onset.clone(),
        progress: progress.clone(),
        origin: origin.clone(),
        phase: FindMacroReferencesPhase::ExternalDefinitions {
            visited: FileCallMap::new(),
            results: MacroDefinitionLocationMap::new(),
            undone: undone.clone(),
        },
    };

    let visited: FileCallMap = {
        let mut calls = FileCallMap::new();

        for (file, callee) in undone.files.into_iter().zip(undone.callees.into_iter()) {
            calls.insert(file, callee);
        }
        calls
    };
    progress.ack_ready();

    let mut outgoing: Vec<Task> = Vec::new();

    next_lookups_find_external_macro_defs(&mut ongoing, &mut outgoing);

    assert!(
        ongoing
            == OngoingTask::FindMacroReferences {
                id,
                onset,
                progress,
                origin,
                phase: FindMacroReferencesPhase::ExternalDefinitions {
                    visited,
                    results: MacroDefinitionLocationMap::new(),
                    undone: ExtMacroDefLookups::new(),
                }
            }
    );
    assert!(!outgoing.is_empty());
}

#[test]
fn can_skip_redundant_lookups_for_externally_defined_macros() {
    let id = NumberOrString::Number(1);
    let onset = Instant::now();

    let origin = from_c_cmm_origin();
    let undone = c_and_d_lookups();

    let visited: FileCallMap = {
        let mut calls = FileCallMap::new();

        for (file, callee) in undone
            .clone()
            .files
            .into_iter()
            .zip(undone.clone().callees.into_iter())
        {
            calls.insert(file, callee);
        }
        calls
    };

    let mut ongoing = OngoingTask::FindMacroReferences {
        id: id.clone(),
        onset: onset.clone(),
        progress: TaskProgress::new(2),
        origin: origin.clone(),
        phase: FindMacroReferencesPhase::ExternalDefinitions {
            visited: visited.clone(),
            results: MacroDefinitionLocationMap::new(),
            undone: undone.clone(),
        },
    };

    let mut progress = TaskProgress::new(0);
    progress.ack_ready();

    let mut outgoing: Vec<Task> = Vec::new();

    next_lookups_find_external_macro_defs(&mut ongoing, &mut outgoing);

    assert!(
        ongoing
            == OngoingTask::FindMacroReferences {
                id,
                onset,
                progress,
                origin,
                phase: FindMacroReferencesPhase::ExternalDefinitions {
                    visited,
                    results: MacroDefinitionLocationMap::new(),
                    undone: ExtMacroDefLookups::new(),
                }
            }
    );
    assert!(outgoing.is_empty());
}

fn local_macro_origin() -> MacroReferenceOrigin {
    MacroReferenceOrigin {
        name: "&local_macro".to_string(),
        span: Range { start: pos(38, 4), end: pos(38, 16) },
        uri: to_file_uri("tests/samples/a/a.cmm"),
    }
}

#[test]
fn can_queue_lookups_for_subscript_macro_references() {
    let id = NumberOrString::Number(1);
    let onset = Instant::now();

    let origin = local_macro_origin();

    let mut progress = TaskProgress::new(1);

    let mut ongoing = OngoingTask::FindMacroReferences {
        id: id.clone(),
        onset: onset.clone(),
        progress: progress.clone(),
        origin: origin.clone(),
        phase: FindMacroReferencesPhase::ReferencesInSubscripts {
            visited: Vec::new(),
            results: FileLocationMap::new(),
            undone: vec![to_file_uri("tests/samples/b/b.cmm")],
        },
    };
    progress.ack_ready();

    let mut outgoing: Vec<Task> = Vec::new();

    next_lookups_find_subscript_macro_refs(&mut ongoing, &mut outgoing);

    assert!(
        ongoing
            == OngoingTask::FindMacroReferences {
                id,
                onset,
                progress,
                origin,
                phase: FindMacroReferencesPhase::ReferencesInSubscripts {
                    visited: vec![to_file_uri("tests/samples/b/b.cmm")],
                    results: FileLocationMap::new(),
                    undone: Vec::new(),
                },
            }
    );
    assert!(!outgoing.is_empty());
}

#[test]
fn visits_subscripts_for_macro_reference_lookup_only_once() {
    let id = NumberOrString::Number(1);
    let onset = Instant::now();

    let origin = local_macro_origin();

    let mut ongoing = OngoingTask::FindMacroReferences {
        id: id.clone(),
        onset: onset.clone(),
        progress: TaskProgress::new(1),
        origin: origin.clone(),
        phase: FindMacroReferencesPhase::ReferencesInSubscripts {
            visited: vec![to_file_uri("tests/samples/b/b.cmm")],
            results: FileLocationMap::new(),
            undone: vec![to_file_uri("tests/samples/b/b.cmm")],
        },
    };

    let mut progress = TaskProgress::new(0);
    progress.ack_ready();

    let mut outgoing: Vec<Task> = Vec::new();

    next_lookups_find_subscript_macro_refs(&mut ongoing, &mut outgoing);

    assert!(
        ongoing
            == OngoingTask::FindMacroReferences {
                id,
                onset,
                progress,
                origin,
                phase: FindMacroReferencesPhase::ReferencesInSubscripts {
                    visited: vec![to_file_uri("tests/samples/b/b.cmm")],
                    results: FileLocationMap::new(),
                    undone: Vec::new(),
                },
            }
    );
    assert!(outgoing.is_empty());
}

#[test]
fn can_queue_lookups_for_external_macro_definitions() {
    let id = NumberOrString::Number(2);
    let onset = Instant::now();

    let uri_c = to_file_uri("tests/samples/c.cmm");
    let uri_d = to_file_uri("tests/samples/a/d/d.cmm");

    let origin = from_c_cmm_origin();

    let mut ongoing = OngoingTask::GoToExternalMacroDef {
        id: id.clone(),
        onset: onset.clone(),
        progress: TaskProgress::new(10),
        origin: origin.clone(),
        visited: FileCallMap::new(),
        undone: ExtMacroDefLookups {
            files: vec![uri_c.clone(), uri_d.clone()],
            callees: vec![
                to_file_uri("tests/samples/a/a.cmm"),
                to_file_uri("tests/samples/a/a.cmm"),
            ],
        },
        results: Vec::new(),
    };

    let visited: FileCallMap = {
        let mut map = FileCallMap::new();

        for file in [uri_c.clone(), uri_d.clone()] {
            map.insert(file, to_file_uri("tests/samples/a/a.cmm"));
        }
        map
    };

    let mut progress = TaskProgress::new(2);
    progress.ack_ready();

    let mut outgoing: Vec<Task> = Vec::new();

    next_lookups_goto_external_macro_def(&mut ongoing, &mut outgoing);

    assert!(
        ongoing
            == OngoingTask::GoToExternalMacroDef {
                id: id,
                onset,
                progress,
                origin,
                visited,
                undone: ExtMacroDefLookups::new(),
                results: Vec::new(),
            }
    );

    assert!(outgoing.len() == 2);
    assert!(outgoing.iter().any(|o| {
        let Task::GoToExternalMacroDef { script, .. } = o else {
            return false;
        };
        *script == uri_c
    }));
    assert!(outgoing.iter().any(|o| {
        let Task::GoToExternalMacroDef { script, .. } = o else {
            return false;
        };
        *script == uri_d
    }));
}

#[test]
fn visits_scripts_for_external_macro_definition_lookup_only_once() {
    let mut visited = FileCallMap::new();
    visited.insert("file:///sample/a.cmm".to_string(), "file:///sample/b.cmm".to_string());

    let mut task = Some(OngoingTask::GoToExternalMacroDef {
        id: NumberOrString::Number(1),
        onset: Instant::now(),
        progress: TaskProgress::new(3),
        origin: MacroReferenceOrigin {
            name: "test".to_string(),
            span: Range { start: pos(0, 0), end: pos(0, 1) },
            uri: "file:///sample/test.cmm".to_string(),
        },
        visited,
        undone: ExtMacroDefLookups {
            files: vec!["file:///sample/a.cmm".to_string()],
            callees: vec!["file:///sample/b.cmm".to_string()],
        },
        results: Vec::new(),
    });

    let mut outgoing: Vec<Task> = Vec::new();
    let mut completed: Vec<Option<TaskDone>> = Vec::new();

    // An empty document store lists no global macros.
    progress_goto_external_macro_def(Vec::new(), &mut task, &mut outgoing, &mut completed);

    assert!(outgoing.is_empty());
    assert!(completed.is_empty());

    progress_goto_external_macro_def(Vec::new(), &mut task, &mut outgoing, &mut completed);

    assert!(outgoing.is_empty());
    assert!(!completed.is_empty());
}
