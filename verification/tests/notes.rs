use t32_language_server::config::{copy_workspace, Workspace};
use t32_language_server::definitions::log_find_defs_req;
use t32_language_server::lsp::{Message, Notification};
use t32_language_server::protocol::{LogTraceParams, NumberOrString, WorkspaceFolder};
use t32_language_server::references::log_find_ref_req;
use t32_language_server::semantic::{log_semantic_tok_full_req, log_semantic_tok_range_req};

fn text_of(m: Message) -> String {
    let Message::Notification(Notification::LogTraceNotification {
        params: LogTraceParams { message, verbose },
    }) = m
    else {
        panic!("Must be a log message.");
    };
    assert!(verbose.is_none());
    message
}

#[test]
fn notes_received_requests_with_their_identifier() {
    assert_eq!(
        text_of(log_find_defs_req(NumberOrString::Number(3))),
        "INFO: Received find definitions request with ID \"3\"."
    );
    assert_eq!(
        text_of(log_find_ref_req(NumberOrString::String("abc".to_string()))),
        "INFO: Received find references request with ID \"abc\"."
    );
    assert_eq!(
        text_of(log_semantic_tok_full_req(NumberOrString::Number(-7))),
        "INFO: Received semantic tokens for full file request with ID \"-7\"."
    );
    assert_eq!(
        text_of(log_semantic_tok_range_req(NumberOrString::Number(0))),
        "INFO: Received semantic tokens for file range request with ID \"0\"."
    );
}

#[test]
fn copies_workspaces() {
    let root = Workspace::Root(Some("file:///w/".to_string()));
    assert_eq!(copy_workspace(&root), root);
    let folders = Workspace::Folders(Some(vec![
        WorkspaceFolder { uri: "file:///a/".to_string(), name: "a".to_string() },
        WorkspaceFolder { uri: "file:///b/".to_string(), name: "b".to_string() },
    ]));
    assert_eq!(copy_workspace(&folders), folders);
    assert_eq!(copy_workspace(&Workspace::Folders(None)), Workspace::Folders(None));
}
