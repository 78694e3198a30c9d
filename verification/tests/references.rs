use std::time::Instant;

use t32_language_server::definitions::MacroReferenceOrigin;
use t32_language_server::lookups::{ExtMacroDefLookups, FileCallMap, FileLocationMap, UriMap};
use t32_language_server::protocol::{NumberOrString, Position, Range};
use t32_language_server::references::{
    recv_find_external_definitions_for_macro_reference_sync, recv_find_macro_def_references_sync,
    recv_find_subscript_macro_references_sync, BRange, FindDefintionsForMacroRefResult,
    FindMacroReferencesResult, MacroDefinitionLocation,
};
use t32_language_server::references::{complete_macro_definition_references, sort_spans, MacroScope};
use t32_language_server::tasks::{FindMacroReferencesPhase, OngoingTask, TaskProgress};

type MacroDefinitionLocationMap = UriMap<MacroDefinitionLocation>;

fn to_file_uri(path: &str) -> String {
    url::Url::from_file_path(std::path::absolute(path).unwrap())
        .unwrap()
        .to_string()
}

#[test]
fn can_progress_macro_ref_lookup_from_definition() {
    let id = NumberOrString::Number(1);
    let onset = Instant::now();

    let mut progress = TaskProgress::new(1);

    let origin = MacroReferenceOrigin {
        name: "&local_macro".to_string(),
        span: Range {
            start: Position {
                line: 38,
                character: 4,
            },
            end: Position {
                line: 38,
                character: 16,
            },
        },
        uri: to_file_uri("tests/samples/a/a.cmm"),
    };

    let references: Vec<Range> = vec![
        Range {
            start: Position {
                line: 38,
                character: 4,
            },
            end: Position {
                line: 38,
                character: 16,
            },
        },
        Range {
            start: Position {
                line: 139,
                character: 7,
            },
            end: Position {
                line: 139,
                character: 18,
            },
        },
        Range {
            start: Position {
                line: 162,
                character: 7,
            },
            end: Position {
                line: 162,
                character: 18,
            },
        },
    ];

    let undone: MacroDefinitionLocationMap = {
        let mut defs = MacroDefinitionLocationMap::new();

        defs.insert(
            &origin.uri,
            MacroDefinitionLocation::Local(BRange::from(509..521)),
        );
        defs
    };

    let sync = FindMacroReferencesResult {
        uri: to_file_uri("tests/samples/a/a.cmm"),
        references: references.clone(),
        subscripts: vec![to_file_uri("test/samples/b/b.cmm")],
    };

    let mut ongoing = vec![Some(OngoingTask::FindMacroReferences {
        id: id.clone(),
        onset: onset.clone(),
        progress: progress.clone(),
        origin: origin.clone(),
        phase: FindMacroReferencesPhase::ReferencesFromDefinitions {
            subscripts: Vec::new(),
            results: FileLocationMap::new(),
            undone: undone.clone(),
        },
    })];

    let results: FileLocationMap = {
        let mut locations = FileLocationMap::new();
        for loc in references {
            locations.insert(&sync.uri, loc);
        }
        locations
    };
    progress.set_cycles(1);

    recv_find_macro_def_references_sync(&id, sync, &mut ongoing);

    let ongoing = ongoing[0].take();
    assert!(ongoing.as_ref().is_some_and(|t| *t
        == OngoingTask::FindMacroReferences {
            id,
            onset,
            progress,
            origin,
            phase: FindMacroReferencesPhase::ReferencesFromDefinitions {
                subscripts: vec![to_file_uri("test/samples/b/b.cmm")],
                results,
                undone,
            },
        }));

    assert!(ongoing.as_ref().is_some_and(|t| {
        let OngoingTask::FindMacroReferences { progress, .. } = t else {
            panic!()
        };
        progress.ready()
    }));

    assert!(ongoing.is_some_and(|t| {
        let OngoingTask::FindMacroReferences {
            phase: FindMacroReferencesPhase::ReferencesFromDefinitions { subscripts, .. },
            ..
        } = t
        else {
            panic!()
        };
        subscripts == vec![to_file_uri("test/samples/b/b.cmm")]
    }));
}

#[test]
fn can_progress_external_definition_lookup_for_partial_definitions() {
    let id = NumberOrString::Number(1);
    let onset = Instant::now();

    let progress = TaskProgress::new(1);

    let origin = MacroReferenceOrigin {
        name: "&from_c_cmm".to_string(),
        span: Range {
            start: Position {
                line: 139,
                character: 7,
            },
            end: Position {
                line: 139,
                character: 18,
            },
        },
        uri: to_file_uri("tests/samples/a/a.cmm"),
    };

    let mut ongoing = vec![Some(OngoingTask::FindMacroReferences {
        id: id.clone(),
        onset: onset.clone(),
        progress: progress.clone(),
        origin: origin.clone(),
        phase: FindMacroReferencesPhase::ExternalDefinitions {
            visited: FileCallMap::new(),
            results: MacroDefinitionLocationMap::new(),
            undone: ExtMacroDefLookups::new(),
        },
    })];

    let sync = FindDefintionsForMacroRefResult::Partial(
        Vec::new(),
        to_file_uri("tests/samples/a/d/d.cmm"),
        vec![to_file_uri("tests/samples/c.cmm")],
    );

    let lookups: ExtMacroDefLookups = {
        let mut lu: ExtMacroDefLookups = ExtMacroDefLookups::new();

        lu.add(
            to_file_uri("tests/samples/c.cmm"),
            to_file_uri("tests/samples/a/d/d.cmm"),
        );
        lu
    };

    let mut progress = TaskProgress::new(1);
    progress.set_cycles(1);

    recv_find_external_definitions_for_macro_reference_sync(&id, sync, &mut ongoing);

    let ongoing = ongoing[0].take();
    assert!(ongoing.as_ref().is_some_and(|t| *t
        == OngoingTask::FindMacroReferences {
            id,
            onset,
            progress,
            origin,
            phase: FindMacroReferencesPhase::ExternalDefinitions {
                visited: FileCallMap::new(),
                results: MacroDefinitionLocationMap::new(),
                undone: lookups,
            },
        }));

    assert!(ongoing.is_some_and(|t| {
        let OngoingTask::FindMacroReferences { progress, .. } = t else {
            panic!()
        };
        progress.ready()
    }));
}

#[test]
fn can_progress_external_definition_lookup_for_final_definitions() {
    let id = NumberOrString::Number(1);
    let onset = Instant::now();

    let progress = TaskProgress::new(1);

    let origin = MacroReferenceOrigin {
        name: "&from_c_cmm".to_string(),
        span: Range {
            start: Position {
                line: 139,
                character: 7,
            },
            end: Position {
                line: 139,
                character: 18,
            },
        },
        uri: to_file_uri("tests/samples/a/a.cmm"),
    };

    let definitions: Vec<MacroDefinitionLocation> = vec![
        MacroDefinitionLocation::Local(BRange::from(411..422)),
        MacroDefinitionLocation::Local(BRange::from(497..508)),
    ];

    let mut ongoing = vec![Some(OngoingTask::FindMacroReferences {
        id: id.clone(),
        onset: onset.clone(),
        progress: progress.clone(),
        origin: origin.clone(),
        phase: FindMacroReferencesPhase::ExternalDefinitions {
            visited: FileCallMap::new(),
            results: MacroDefinitionLocationMap::new(),
            undone: ExtMacroDefLookups::new(),
        },
    })];

    let sync = FindDefintionsForMacroRefResult::Final(
        definitions.clone(),
        to_file_uri("tests/samples/c.cmm"),
    );

    let results: MacroDefinitionLocationMap = {
        let uri = to_file_uri("tests/samples/c.cmm");

        let mut locations = MacroDefinitionLocationMap::new();
        for loc in definitions {
            locations.insert(&uri, loc);
        }
        locations
    };

    let mut progress = TaskProgress::new(0);
    progress.set_cycles(1);

    recv_find_external_definitions_for_macro_reference_sync(&id, sync, &mut ongoing);

    let ongoing = ongoing[0].take();
    assert!(ongoing.as_ref().is_some_and(|t| *t
        == OngoingTask::FindMacroReferences {
            id,
            onset,
            progress,
            origin,
            phase: FindMacroReferencesPhase::ExternalDefinitions {
                visited: FileCallMap::new(),
                results,
                undone: ExtMacroDefLookups::new(),
            },
        }));

    assert!(ongoing.is_some_and(|t| {
        let OngoingTask::FindMacroReferences { progress, .. } = t else {
            panic!()
        };
        progress.finished()
    }));
}

#[test]
fn can_progress_macro_ref_lookup_in_subscripts() {
    let id = NumberOrString::Number(1);
    let onset = Instant::now();

    let mut progress = TaskProgress::new(1);

    let origin = MacroReferenceOrigin {
        name: "&from_c_cmm".to_string(),
        span: Range {
            start: Position {
                line: 139,
                character: 7,
            },
            end: Position {
                line: 139,
                character: 18,
            },
        },
        uri: to_file_uri("tests/samples/a/a.cmm"),
    };

    let references: Vec<Range> = vec![
        Range {
            start: Position {
                line: 139,
                character: 7,
            },
            end: Position {
                line: 139,
                character: 18,
            },
        },
        Range {
            start: Position {
                line: 162,
                character: 7,
            },
            end: Position {
                line: 162,
                character: 18,
            },
        },
    ];

    let sync = FindMacroReferencesResult {
        uri: to_file_uri("tests/samples/a/a.cmm"),
        references: references.clone(),
        subscripts: vec![to_file_uri("test/samples/b/b.cmm")],
    };

    let mut ongoing = vec![Some(OngoingTask::FindMacroReferences {
        id: id.clone(),
        onset: onset.clone(),
        progress: progress.clone(),
        origin: origin.clone(),
        phase: FindMacroReferencesPhase::ReferencesInSubscripts {
            visited: Vec::new(),
            results: FileLocationMap::new(),
            undone: Vec::new(),
        },
    })];

    let results: FileLocationMap = {
        let mut locations = FileLocationMap::new();
        for loc in references {
            locations.insert(&sync.uri, loc);
        }
        locations
    };
    progress.set_cycles(1);

    recv_find_subscript_macro_references_sync(&id, sync, &mut ongoing);

    let ongoing = ongoing[0].take();
    assert!(ongoing.as_ref().is_some_and(|t| *t
        == OngoingTask::FindMacroReferences {
            id,
            onset,
            progress,
            origin,
            phase: FindMacroReferencesPhase::ReferencesInSubscripts {
                visited: Vec::new(),
                results,
                undone: vec![to_file_uri("test/samples/b/b.cmm")]
            },
        }));

    assert!(ongoing.is_some_and(|t| {
        let OngoingTask::FindMacroReferences { progress, .. } = t else {
            panic!()
        };
        progress.ready()
    }));
}

#[test]
fn completes_macro_definition_references() {
    let refs = vec![BRange::from(30..32), BRange::from(10..12), BRange::from(10..11)];
    let (sorted, callees) = complete_macro_definition_references(
        refs.clone(),
        vec!["file:///b.cmm".to_string()],
        MacroScope::Private,
        BRange::from(5..7),
    );
    assert_eq!(
        sorted,
        vec![BRange::from(5..7), BRange::from(10..11), BRange::from(10..12), BRange::from(30..32)]
    );
    assert!(callees.is_empty());

    let (sorted, callees) = complete_macro_definition_references(
        refs,
        vec!["file:///b.cmm".to_string()],
        MacroScope::Global,
        BRange::from(10..12),
    );
    assert_eq!(sorted, vec![BRange::from(10..11), BRange::from(10..12), BRange::from(30..32)]);
    assert_eq!(callees, vec!["file:///b.cmm".to_string()]);

    assert_eq!(sort_spans(Vec::new()), Vec::new());
}
