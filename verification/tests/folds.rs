use t32_language_server::folds::{
    encode_code_folds, log_folding_range_req, mark_code_folds, strip_unsupported_fold_range_types,
    CodeFoldingEncoding,
};
use t32_language_server::lsp::{Message, Notification};
use t32_language_server::protocol::{FoldingRange, FoldingRangeKind, LogTraceParams, NumberOrString};

fn fold(sl: u32, sc: Option<u32>, el: u32, ec: Option<u32>, kind: Option<FoldingRangeKind>) -> FoldingRange {
    FoldingRange {
        start_line: sl,
        start_character: sc,
        end_line: el,
        end_character: ec,
        kind,
        collapsed_text: Some("...".to_string()),
    }
}

fn folds() -> Vec<FoldingRange> {
    vec![
        fold(0, Some(2), 3, Some(0), Some(FoldingRangeKind::Comment)),
        fold(4, Some(0), 9, Some(5), Some(FoldingRangeKind::Region)),
        fold(10, None, 12, None, None),
        fold(13, Some(1), 13, Some(0), Some(FoldingRangeKind::Imports)),
    ]
}

#[test]
fn encodes_line_folds_without_characters() {
    let encoded = encode_code_folds(
        &CodeFoldingEncoding { line_folds_only: true, collapsed_text_supported: false },
        folds(),
    );
    assert!(encoded.iter().all(|f| f.start_character.is_none() && f.end_character.is_none()));
    // The collapsed text is left as it is.
    assert!(encoded.iter().all(|f| f.collapsed_text.as_deref() == Some("...")));
    // An end at the first character of a line leaves that line out.
    assert_eq!(encoded[0].end_line, 2);
    assert_eq!(encoded[1].end_line, 9);
    // A fold on one line keeps its line.
    assert_eq!(encoded[3].end_line, 13);
}

#[test]
fn keeps_characters_and_text_where_supported() {
    let encoded = encode_code_folds(
        &CodeFoldingEncoding { line_folds_only: false, collapsed_text_supported: true },
        folds(),
    );
    assert_eq!(encoded, folds());
}

#[test]
fn strips_unsupported_fold_kinds() {
    let stripped = strip_unsupported_fold_range_types(&[], folds());
    assert!(!stripped.iter().any(|f| {
        f.kind.as_ref().is_some_and(|k| *k == FoldingRangeKind::Comment || *k == FoldingRangeKind::Region)
    }));
    assert_eq!(stripped[3].kind, Some(FoldingRangeKind::Imports));

    let stripped = strip_unsupported_fold_range_types(&[FoldingRangeKind::Comment], folds());
    assert_eq!(stripped[0].kind, Some(FoldingRangeKind::Comment));
    assert_eq!(stripped[1].kind, None);

    let stripped = strip_unsupported_fold_range_types(
        &[FoldingRangeKind::Comment, FoldingRangeKind::Region],
        folds(),
    );
    assert_eq!(stripped, folds());
}

#[test]
fn marks_folds_for_the_client() {
    let marked = mark_code_folds(
        CodeFoldingEncoding { line_folds_only: true, collapsed_text_supported: true },
        vec![FoldingRangeKind::Region],
        folds(),
    );
    assert_eq!(marked.len(), 4);
    assert_eq!(marked[0].kind, None);
    assert_eq!(marked[1].kind, Some(FoldingRangeKind::Region));
    assert_eq!(marked[0].end_line, 2);
    assert!(marked[0].collapsed_text.is_some());
}

#[test]
fn notes_folding_range_requests() {
    let Message::Notification(Notification::LogTraceNotification {
        params: LogTraceParams { message, verbose },
    }) = log_folding_range_req(NumberOrString::Number(12))
    else {
        panic!("Must be a log message.");
    };
    assert_eq!(
        message,
        "INFO: Received semantic tokens for full file request with ID \"12\"."
    );
    assert!(verbose.is_none());
}
