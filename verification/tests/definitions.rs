use std::time::Instant;

use t32_language_server::definitions::{
    recv_goto_external_macro_def_sync, GotoDefinitionResult, MacroReferenceOrigin,
};
use t32_language_server::lookups::{ExtMacroDefLookups, FileCallMap};
use t32_language_server::protocol::{LocationLink, NumberOrString, Position, Range as LRange};
use t32_language_server::tasks::{OngoingTask, TaskProgress};

fn to_file_uri(path: &str) -> String {
    url::Url::from_file_path(std::path::absolute(path).unwrap())
        .unwrap()
        .to_string()
}

#[test]
fn can_progress_goto_external_macro_definition_req() {
    let id = NumberOrString::Number(2);
    let onset = Instant::now();

    let uri_c = to_file_uri("tests/samples/c.cmm");
    let uri_d = to_file_uri("tests/samples/a/d/d.cmm");

    let origin = MacroReferenceOrigin {
        name: "&from_c_cmm".to_string(),
        span: LRange {
            start: Position {
                line: 139,
                character: 7,
            },
            end: Position {
                line: 139,
                character: 18,
            },
        },
        uri: to_file_uri("tests/samples/a/a.cmm"),
    };

    let sync_goto_ext_def = Some(GotoDefinitionResult::PartialMacro(
        uri_d.clone(),
        "&from_c_cmm".to_string(),
        origin.span.clone(),
        Vec::new(),
    ));

    let visited: FileCallMap = {
        let mut map = FileCallMap::new();

        map.insert(uri_d.clone(), uri_c.clone());
        map
    };

    let mut ongoing = vec![Some(OngoingTask::GoToExternalMacroDef {
        id: id.clone(),
        onset: onset.clone(),
        progress: TaskProgress::new(2),
        origin: origin.clone(),
        visited: visited.clone(),
        undone: ExtMacroDefLookups::new(),
        results: Vec::new(),
    })];

    let mut progress = TaskProgress::new(2);
    progress.advance();

    recv_goto_external_macro_def_sync(
        &id,
        &uri_d,
        sync_goto_ext_def,
        vec![uri_c.clone()],
        &mut ongoing,
    );

    let ongoing = ongoing[0].take();
    assert!(ongoing.as_ref().is_some_and(|t| *t
        == OngoingTask::GoToExternalMacroDef {
            id,
            onset,
            progress,
            origin,
            visited,
            results: Vec::new(),
            undone: ExtMacroDefLookups {
                files: vec![uri_c],
                callees: vec![uri_d],
            },
        }));

    assert!(ongoing.is_some_and(|t| {
        let OngoingTask::GoToExternalMacroDef { progress, .. } = t else {
            panic!()
        };
        !progress.ready()
    }));
}

#[test]
fn keeps_results_free_of_repeats() {
    let id = NumberOrString::Number(3);
    let r = |l: u32| LRange {
        start: Position { line: l, character: 0 },
        end: Position { line: l, character: 4 },
    };
    let link = |l: u32| LocationLink {
        origin_selection_range: None,
        target_uri: "file:///c.cmm".to_string(),
        target_range: r(l),
        target_selection_range: r(l),
    };
    let origin = MacroReferenceOrigin {
        name: "&m".to_string(),
        span: r(0),
        uri: "file:///a.cmm".to_string(),
    };
    let mut ongoing = vec![Some(OngoingTask::GoToExternalMacroDef {
        id: id.clone(),
        onset: Instant::now(),
        progress: TaskProgress::new(2),
        origin,
        visited: FileCallMap::new(),
        undone: ExtMacroDefLookups::new(),
        results: vec![link(1), link(2)],
    })];

    recv_goto_external_macro_def_sync(
        &id,
        &"file:///c.cmm".to_string(),
        Some(GotoDefinitionResult::Final(vec![link(2), link(3)])),
        Vec::new(),
        &mut ongoing,
    );

    let Some(OngoingTask::GoToExternalMacroDef { results, .. }) = &ongoing[0] else {
        panic!()
    };
    assert_eq!(*results, vec![link(1), link(2), link(3)]);
}
