use t32_language_server::docstore::{parse, TextDocStatus, TextDocs};
use t32_language_server::linemap::create_line_map_for_text;
use t32_language_server::textdoc::{TextDoc, LANGUAGE_ID};
use tree_sitter::Tree;

fn create_doc(uri: &str) -> (TextDoc, Tree) {
    let text = "PRINT \"Hello, World!\"\n";
    let lines = create_line_map_for_text(&text, None, None);
    let doc = TextDoc {
        uri: uri.to_string(),
        lang_id: LANGUAGE_ID.to_string(),
        version: 1,
        text: text.to_string(),
        lines,
    };
    let tree = parse(text.as_bytes(), None);

    (doc, tree)
}

#[test]
fn can_open_documents() {
    let mut docs = TextDocs::build();

    let uri_a = "file:///a.cmm";
    let (doc, tree) = create_doc(uri_a);

    docs.add(doc, tree, TextDocStatus::Open);

    assert!(docs.is_open(uri_a));

    let uri_b = "file:///b.cmm";
    let (doc, tree) = create_doc(uri_b);

    docs.add(doc, tree, TextDocStatus::Open);

    assert!(docs.is_open(uri_b));
    assert!(docs.free_list.open.is_empty());
    assert!(docs.free_list.closed.is_empty());

    docs.close(uri_a);
    docs.close(uri_b);

    assert!(!docs.free_list.open.is_empty());
    assert!(docs.free_list.closed.is_empty());

    let uri_a = "file:///a.cmm";
    let (doc, tree) = create_doc(uri_a);

    docs.add(doc, tree, TextDocStatus::Open);

    assert!(!docs.free_list.open.is_empty());
    assert!(!docs.free_list.closed.is_empty());

    let uri_b = "file:///b.cmm";
    let (doc, tree) = create_doc(uri_b);

    docs.add(doc, tree, TextDocStatus::Open);

    assert!(docs.free_list.open.is_empty());
    assert!(!docs.free_list.closed.is_empty());
}

#[test]
fn can_close_documents() {
    let mut docs = TextDocs::build();

    let uri_a = "file:///test.cmm";
    let (doc, tree) = create_doc(uri_a);

    docs.add(doc, tree, TextDocStatus::Open);

    assert!(docs.free_list.closed.is_empty());

    docs.close(uri_a);

    assert!(!docs.free_list.open.is_empty());
    assert!(!docs.is_open(uri_a));
}
