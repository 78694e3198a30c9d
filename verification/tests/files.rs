use std::path;

use url::Url;

use t32_language_server::files::{
    convert_uri_to_path, find_shortest_unique_path_suffix, index_files, is_script_path,
    path_ends_with, path_file_name, path_parent, rename_files, resolve_path_conflicts,
    try_index_files, try_rename_files, FileIndex, RenameFileOperations, SUFFIXES,
};
use t32_language_server::config::Workspace;
use t32_language_server::files::workspace_roots;
use t32_language_server::protocol::WorkspaceFolder;
use t32_language_server::files::collect_members;

fn components(p: &path::Path) -> Vec<String> {
    p.iter().map(|c| c.to_string_lossy().into_owned()).collect()
}

fn parts(p: &[&str]) -> Vec<String> {
    p.iter().map(|s| s.to_string()).collect()
}

fn files() -> Vec<String> {
    [
        "tests/samples/c.cmm",
        "tests/samples/same.cmm",
        "tests/samples/a/a.cmm",
        "tests/samples/a/same.cmm",
        "tests/samples/a/d/d.cmmt",
        "tests/samples/b/b.cmm",
        "tests/samples/b/same.cmm",
    ]
    .iter()
    .map(|f| {
        Url::from_file_path(path::absolute(f).expect("File must exist."))
            .unwrap()
            .to_string()
    })
    .collect()
}

fn create_file_idx() -> FileIndex {
    let files = files();
    index_files(files)
}

#[test]
fn can_update_file_idx() {
    let mut file_idx = create_file_idx();

    let old_files = [
        "tests/samples/c.cmm",
        "tests/samples/same.cmm",
        "tests/samples/a/a.cmm",
        "tests/samples/a/d/d.cmmt",
    ];
    let old_dir = "tests/samples/b";

    let new_files = [
        "tests/samples/c1.cmm",
        "tests/samples/a.cmm",
        "tests/samples/a/a1.cmm",
        "tests/samples/a/d/d1.cmmt",
    ];
    let new_dir = "tests/samples/b1";

    let mut renamed = RenameFileOperations {
        old: Vec::with_capacity(old_files.len() + old_dir.len()),
        new: Vec::with_capacity(new_files.len() + new_dir.len()),
    };

    for (old, new) in old_files.iter().zip(new_files.iter()) {
        renamed.old.push(
            Url::from_file_path(path::absolute(old).expect("File must exist."))
                .unwrap()
                .to_string(),
        );
        renamed.new.push(
            Url::from_file_path(path::absolute(new).expect("File must exist."))
                .unwrap()
                .to_string(),
        );
    }

    renamed.old.push(
        Url::from_directory_path(path::absolute(old_dir).expect("Directory must exist."))
            .unwrap()
            .to_string(),
    );
    renamed.new.push(
        Url::from_directory_path(path::absolute(new_dir).expect("Directory must exist."))
            .unwrap()
            .to_string(),
    );

    let changes = rename_files(renamed.clone(), &mut file_idx);

    for new in new_files
        .iter()
        .chain(["tests/samples/b1/b.cmm", "tests/samples/b1/same.cmm"].iter())
    {
        let path = path::absolute(&new).expect("File must exist.");
        let target = Url::from_file_path(path.clone()).unwrap().to_string();

        assert!(changes.renamed.new.contains(&target));
        assert!(file_idx.contains(&components(&path)));
    }

    for old in old_files
        .iter()
        .chain(["tests/samples/b/b.cmm", "tests/samples/b/same.cmm"].iter())
    {
        let path = path::absolute(&old).expect("File must exist.");
        let target = Url::from_file_path(path.clone()).unwrap().to_string();

        assert!(changes.renamed.old.contains(&target));
        assert!(!file_idx.contains(&components(&path)));
    }
}

#[test]
fn indexed_scripts_are_found() {
    let file_idx = create_file_idx();
    for uri in files() {
        let path = Url::parse(&uri).unwrap().to_file_path().unwrap();
        assert!(file_idx.contains(&components(&path)));
    }
    let missing = path::absolute("tests/samples/missing.cmm").unwrap();
    assert!(!file_idx.contains(&components(&missing)));
    // A script with a shared name is found by its tail.
    let other = path::absolute("tests/samples/c/same.cmm").unwrap();
    assert!(!file_idx.contains(&components(&other)));
}

#[test]
fn indexes_unique_names_directories_and_tails() {
    let files = vec![
        "file:///w/x.cmm".to_string(),
        "file:///w/a/same.cmm".to_string(),
        "file:///w/b/same.cmm".to_string(),
    ];
    let idx = try_index_files(files).expect("Scripts can be told apart.");

    assert_eq!(idx.by_filename, vec![("x.cmm".to_string(), "file:///w/x.cmm".to_string())]);
    assert_eq!(
        idx.by_directory,
        vec![
            (parts(&["/", "w"]), parts(&["x.cmm"])),
            (parts(&["/", "w", "a"]), parts(&["same.cmm"])),
            (parts(&["/", "w", "b"]), parts(&["same.cmm"])),
        ]
    );
    assert_eq!(
        idx.conflict_resolutions,
        Some((
            vec![parts(&["a", "same.cmm"]), parts(&["b", "same.cmm"])],
            vec!["file:///w/a/same.cmm".to_string(), "file:///w/b/same.cmm".to_string()],
        ))
    );
}

#[test]
fn refuses_to_index_scripts_that_cannot_be_told_apart() {
    let files = vec!["file:///w/x.cmm".to_string(), "file:///w/x.cmm".to_string()];
    assert!(try_index_files(files).is_none());
}

#[test]
fn finds_shortest_unique_path_suffix() {
    let names = parts(&["same.cmm", "same.cmm", "same.cmm"]);
    let paths = vec![
        parts(&["/", "w", "samples", "same.cmm"]),
        parts(&["/", "w", "samples", "a", "same.cmm"]),
        parts(&["/", "w", "samples", "b", "same.cmm"]),
    ];
    assert_eq!(
        find_shortest_unique_path_suffix("same.cmm", &paths[0], (&names, &paths)),
        parts(&["samples", "same.cmm"])
    );
    assert_eq!(
        find_shortest_unique_path_suffix("same.cmm", &paths[1], (&names, &paths)),
        parts(&["a", "same.cmm"])
    );

    let uris = vec!["u0".to_string(), "u1".to_string(), "u2".to_string()];
    let (tails, kept) = resolve_path_conflicts(names, paths, uris.clone());
    assert_eq!(
        tails,
        vec![
            parts(&["samples", "same.cmm"]),
            parts(&["a", "same.cmm"]),
            parts(&["b", "same.cmm"]),
        ]
    );
    assert_eq!(kept, uris);
}

#[test]
fn reads_paths_of_uris_and_plain_texts() {
    assert_eq!(convert_uri_to_path("file:///w/a/b.cmm"), parts(&["/", "w", "a", "b.cmm"]));
    assert_eq!(convert_uri_to_path("/w/a/b.cmm"), parts(&["/", "w", "a", "b.cmm"]));
    assert_eq!(convert_uri_to_path("w/a"), parts(&["w", "a"]));
}

#[test]
fn takes_paths_apart() {
    let p = parts(&["/", "w", "a.cmm"]);
    assert_eq!(path_file_name(&p), Some("a.cmm".to_string()));
    assert_eq!(path_parent(&p), Some(parts(&["/", "w"])));
    assert_eq!(path_parent(&parts(&["/"])), None);
    assert_eq!(path_file_name(&parts(&["/"])), None);
    assert!(path_ends_with(&p, &parts(&["w", "a.cmm"])));
    assert!(!path_ends_with(&p, &parts(&["v", "a.cmm"])));
}

#[test]
fn recognizes_scripts_by_their_suffix() {
    assert_eq!(SUFFIXES, ["cmm", "cmmt"]);
    assert!(is_script_path(&parts(&["/", "w", "a.cmm"])));
    assert!(is_script_path(&parts(&["/", "w", "a.b.cmmt"])));
    assert!(!is_script_path(&parts(&["/", "w", ".cmm"])));
    assert!(!is_script_path(&parts(&["/", "w", "a.cmmx"])));
    assert!(!is_script_path(&parts(&["/", "w", "cmm"])));
    assert!(!is_script_path(&parts(&["/", "w"])));
}

#[test]
fn reports_unknown_scripts_and_directories() {
    let mut idx = try_index_files(vec!["file:///w/x.cmm".to_string()]).unwrap();
    let renamed = RenameFileOperations {
        old: vec!["file:///w/y.cmm".to_string(), "file:///v".to_string()],
        new: vec!["file:///w/z.cmm".to_string(), "file:///u".to_string()],
    };
    let changes = try_rename_files(renamed, &mut idx).expect("Moves can be resolved.");
    assert!(changes.renamed.old.is_empty());
    assert!(changes.renamed.new.is_empty());
    assert_eq!(changes.missing_files, vec!["file:///w/y.cmm".to_string()]);
    assert_eq!(changes.missing_dirs, vec!["file:///v".to_string()]);
    assert!(idx.contains(&parts(&["/", "w", "x.cmm"])));
}

#[test]
fn moves_a_script_and_its_directory_entry() {
    let mut idx = try_index_files(vec!["file:///w/x.cmm".to_string()]).unwrap();
    let renamed = RenameFileOperations {
        old: vec!["file:///w/x.cmm".to_string()],
        new: vec!["file:///v/y.cmm".to_string()],
    };
    let changes = try_rename_files(renamed, &mut idx).expect("Moves can be resolved.");
    assert_eq!(changes.renamed.old, vec!["file:///w/x.cmm".to_string()]);
    assert_eq!(changes.renamed.new, vec!["file:///v/y.cmm".to_string()]);
    assert!(idx.contains(&parts(&["/", "v", "y.cmm"])));
    assert!(!idx.contains(&parts(&["/", "w", "x.cmm"])));
    assert_eq!(
        idx.by_directory,
        vec![(parts(&["/", "w"]), Vec::new()), (parts(&["/", "v"]), parts(&["y.cmm"]))]
    );
}

#[test]
fn empty_rename_leaves_index_unchanged() {
    let mut idx = create_file_idx();
    let before = idx.clone();
    let changes = rename_files(RenameFileOperations { old: Vec::new(), new: Vec::new() }, &mut idx);
    assert!(changes.renamed.old.is_empty());
    assert!(changes.missing_files.is_empty());
    assert!(changes.missing_dirs.is_empty());
    assert_eq!(idx, before);
}

#[test]
fn new_index_is_empty() {
    let idx = FileIndex::new();
    assert!(idx.by_filename.is_empty());
    assert!(idx.by_directory.is_empty());
    assert!(idx.conflict_resolutions.is_none());
}

#[test]
fn lists_workspace_roots() {

    assert_eq!(
        workspace_roots(&Workspace::Root(Some("file:///w/".to_string()))),
        vec!["file:///w/".to_string()]
    );
    assert!(workspace_roots(&Workspace::Root(None)).is_empty());
    assert!(workspace_roots(&Workspace::Folders(None)).is_empty());
    assert_eq!(
        workspace_roots(&Workspace::Folders(Some(vec![
            WorkspaceFolder { uri: "file:///a/".to_string(), name: "a".to_string() },
            WorkspaceFolder { uri: "file:///b/".to_string(), name: "b".to_string() },
        ]))),
        vec!["file:///a/".to_string(), "file:///b/".to_string()]
    );
}

#[test]
fn collects_members_root_by_root() {

    let members = collect_members(vec![
        ("file:///a/".to_string(), Some(vec!["file:///a/x.cmm".to_string()])),
        ("file:///m/".to_string(), None),
        (
            "file:///b/".to_string(),
            Some(vec!["file:///b/y.cmm".to_string(), "file:///b/z.cmmt".to_string()]),
        ),
    ]);
    assert_eq!(
        members.files,
        vec![
            "file:///a/x.cmm".to_string(),
            "file:///b/y.cmm".to_string(),
            "file:///b/z.cmmt".to_string(),
        ]
    );
    assert_eq!(members.missing_roots, vec!["file:///m/".to_string()]);
}

#[test]
fn skips_scripts_whose_names_are_no_text() {
    let idx = index_files(vec![
        "file:///x/%FF.cmm".to_string(),
        "file:///x/a.cmm".to_string(),
    ]);
    assert_eq!(idx.by_filename.len(), 1);
    assert_eq!(idx.by_filename[0].0, "a.cmm");
    assert_eq!(idx.by_directory.len(), 1);
    assert_eq!(idx.by_directory[0].1, vec!["a.cmm".to_string()]);
    assert!(!idx.contains(&convert_uri_to_path("file:///x/%FF.cmm")));
}

#[test]
fn keeps_directories_whose_names_are_no_text_apart() {
    let idx = index_files(vec![
        "file:///x/%FF/a.cmm".to_string(),
        "file:///x/%FE/b.cmm".to_string(),
    ]);
    assert_eq!(idx.by_filename.len(), 2);
    assert_eq!(idx.by_directory.len(), 2);
    assert_ne!(idx.by_directory[0].0, idx.by_directory[1].0);
    assert!(idx.contains(&convert_uri_to_path("file:///x/%FF/a.cmm")));
    assert!(!idx.contains(&convert_uri_to_path("file:///x/%FE/a.cmm")));
}
