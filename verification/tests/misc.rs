use std::time::Instant;

use t32_language_server::config::Config;
use t32_language_server::discovery::{
    announce_progress_workspace_discovery, conclude_workspace_file_parsing_progress,
    finish_progress_workspace_discovery, report_progress_workspace_discovery,
    trace_doc_cannot_read, trace_root_invalid,
};
use t32_language_server::docstore::TextDocs;
use t32_language_server::docsync::{
    error_textdoc_cannot_close, error_textdoc_not_open, process_doc_close_notif,
};
use t32_language_server::lsp::{
    ErrorResponse, Message, Notification, NullResponse, Request, Response,
};
use t32_language_server::protocol::{
    LogTraceParams, NumberOrString, ProgressParams, ResponseError, SetTraceParams, TraceValue,
    WorkDoneProgressEnd, WorkDoneProgressReport, WorkDoneProgressValue,
};
use t32_language_server::startup::{process_msg, InitState, Tasks};
use t32_language_server::tasks::{OngoingTask, TaskCounters, WorkDoneProgressPhase};
use t32_language_server::textdoc::lang_id_supported;
use t32_language_server::transport::{error_read, Decoder};

fn log_text(m: &Message) -> &str {
    let Message::Notification(Notification::LogTraceNotification {
        params: LogTraceParams { message, .. },
    }) = m
    else {
        panic!("Must be a log message.");
    };
    message
}

fn init_state() -> InitState {
    InitState {
        shutdown_request_recv: false,
        exit_requested: false,
        tasks: Tasks {
            counters: TaskCounters::new(),
            ongoing: Vec::new(),
            completed: Vec::new(),
        },
    }
}

#[test]
fn reports_discovery_progress_in_steps_of_five() {
    let token = NumberOrString::Number(4);
    assert!(report_progress_workspace_discovery(token.clone(), 0, 0, 0).is_none());
    assert!(report_progress_workspace_discovery(token.clone(), 0, 10, 9).is_none());
    // The share is the number of completed files per file.
    assert!(report_progress_workspace_discovery(token.clone(), 0, 2, 9).is_none());
    assert_eq!(
        report_progress_workspace_discovery(token.clone(), 0, 2, 10),
        Some(ProgressParams {
            token: token.clone(),
            value: WorkDoneProgressValue::Report(WorkDoneProgressReport {
                cancellable: Some(false),
                message: Some("10 of 2 files completed".to_string()),
                percentage: Some(5),
            }),
        })
    );
    assert!(report_progress_workspace_discovery(token, 5, 2, 10).is_none());
}

#[test]
fn concludes_discovery_progress() {
    let token = NumberOrString::String("tok".to_string());
    let begin = announce_progress_workspace_discovery(token.clone());
    let mut task = Some(OngoingTask::WindowWorkDoneProgress {
        id: NumberOrString::Number(1),
        token: token.clone(),
        work: NumberOrString::Number(0),
        onset: Instant::now(),
        phase: WorkDoneProgressPhase::Announced(begin),
    });

    conclude_workspace_file_parsing_progress(&mut task);

    let Some(OngoingTask::WindowWorkDoneProgress { phase, .. }) = task else {
        panic!("Must not be empty.");
    };
    assert_eq!(
        phase,
        WorkDoneProgressPhase::Finished(Some(ProgressParams {
            token: token.clone(),
            value: WorkDoneProgressValue::End(WorkDoneProgressEnd {
                message: Some("All files have been indexed.".to_string()),
            }),
        }))
    );
    assert_eq!(
        finish_progress_workspace_discovery(token.clone()),
        ProgressParams {
            token,
            value: WorkDoneProgressValue::End(WorkDoneProgressEnd {
                message: Some("All files have been indexed.".to_string()),
            }),
        }
    );
}

#[test]
fn traces_unreadable_files_and_missing_roots() {
    assert_eq!(
        log_text(&trace_doc_cannot_read("file:///a.cmm")),
        "WARNING: File \"file:///a.cmm\" could not be read."
    );
    assert_eq!(
        log_text(&trace_root_invalid(&vec!["file:///a/".to_string(), "file:///b/".to_string()])),
        "WARNING: Workspace root(s) \"file:///a/\", \"file:///b/\" do not exist."
    );
}

#[test]
fn answers_changes_and_closes_of_unknown_documents() {
    assert_eq!(
        error_textdoc_not_open("file:///x.cmm"),
        Message::Response(Response::ErrorResponse(ErrorResponse {
            id: None,
            error: ResponseError {
                code: -32600,
                message: "Error: Text document \"file:///x.cmm\" has not been opened, so it cannot be changed."
                    .to_string(),
                data: None,
            },
        }))
    );

    let mut docs = TextDocs::build();
    let mut outgoing: Vec<Option<Message>> = Vec::new();
    process_doc_close_notif("file:///x.cmm", &mut docs, &mut outgoing);
    assert_eq!(outgoing, vec![Some(error_textdoc_cannot_close("file:///x.cmm"))]);
    assert!(!docs.is_open("file:///x.cmm"));
}

#[test]
fn shutdown_is_answered_and_later_requests_refused() {
    let mut g = init_state();
    let mut cfg = Config {
        trace_level: TraceValue::Off,
        server_progress_supported: false,
    };
    let mut outgoing: Vec<Option<Message>> = Vec::new();
    let mut postponed: Vec<Option<Message>> = Vec::new();

    process_msg(
        Message::Notification(Notification::SetTraceNotification {
            params: SetTraceParams { value: TraceValue::Verbose },
        }),
        &mut g,
        &mut cfg,
        &mut outgoing,
        &mut postponed,
    );
    assert_eq!(cfg.trace_level, TraceValue::Verbose);

    process_msg(
        Message::Request(Request::ShutdownRequest { id: NumberOrString::Number(7) }),
        &mut g,
        &mut cfg,
        &mut outgoing,
        &mut postponed,
    );
    assert!(g.shutdown_request_recv);
    assert_eq!(
        outgoing,
        vec![Some(Message::Response(Response::NullResponse(NullResponse {
            id: NumberOrString::Number(7)
        })))]
    );

    process_msg(
        Message::Request(Request::ShutdownRequest { id: NumberOrString::Number(8) }),
        &mut g,
        &mut cfg,
        &mut outgoing,
        &mut postponed,
    );
    assert_eq!(outgoing.len(), 2);
    assert_eq!(
        outgoing[1],
        Some(Message::Response(Response::ErrorResponse(ErrorResponse {
            id: Some(NumberOrString::Number(8)),
            error: ResponseError {
                code: -32600,
                message: "Error: Server is shutting down, so it does not accept any further requests."
                    .to_string(),
                data: None,
            },
        })))
    );

    process_msg(
        Message::Notification(Notification::ExitNotification {}),
        &mut g,
        &mut cfg,
        &mut outgoing,
        &mut postponed,
    );
    assert!(g.exit_requested);
    assert!(postponed.is_empty());
}

#[test]
fn supports_the_practice_language_only() {
    assert!(lang_id_supported("practice"));
    assert!(!lang_id_supported("c"));
    assert!(!lang_id_supported(""));
}

#[test]
fn decoder_starts_empty_and_reports_parse_errors() {
    let decoder = Decoder::build();
    assert!(decoder.rest.is_empty());
    assert!(decoder.tokens.is_empty());
    assert_eq!(decoder.room(10), 10);
    assert_eq!(decoder.room(100_000), 4096);

    let err = error_read("broken pipe");
    assert_eq!(err.id, None);
    assert_eq!(err.error.code, -32700);
    assert_eq!(err.error.message, "broken pipe");
}
