use std::time::Instant;

use t32_language_server::lsp::{Message, Notification, Request};
use t32_language_server::progress::{
    abort_server_workdone_progress, broadcast_work_done, cancel_server_workdone_progress,
    confirm_server_workdone_progress, initiate_server_workdone_progress,
};
use t32_language_server::protocol::{
    NumberOrString, ProgressParams, ProgressToken, TraceValue, WorkDoneProgressBegin,
    WorkDoneProgressCreateParams, WorkDoneProgressEnd, WorkDoneProgressReport,
    WorkDoneProgressValue,
};
use t32_language_server::tasks::{
    OngoingTask, TaskCounterExternal, TaskCounters, TaskDone, WorkDoneProgressPhase,
};

#[test]
fn can_initiate_workdone_progress() {
    let mut counters = TaskCounters::new();
    counters.tasks_ext.next_id();

    counters.progress.next_id();
    counters.progress.next_id();

    let mut ongoing: Vec<Option<OngoingTask>> = Vec::new();
    let mut outgoing: Vec<Option<Message>> = Vec::new();

    initiate_server_workdone_progress(
        TraceValue::Off,
        NumberOrString::Number(5),
        &mut counters,
        &mut ongoing,
        &mut outgoing,
    );

    assert!(outgoing.is_empty());
    assert_eq!(ongoing.len(), 1);

    let ongoing = ongoing[0].take().expect("Must not be empty.");

    assert!(matches!(
        ongoing,
        OngoingTask::WindowWorkDoneProgress {
            id: NumberOrString::Number(1),
            token: ProgressToken::Number(2),
            work: NumberOrString::Number(5),
            phase: WorkDoneProgressPhase::Ready(ProgressParams {
                value: WorkDoneProgressValue::Begin(WorkDoneProgressBegin { .. }),
                ..
            }),
            ..
        }
    ));
}

#[test]
fn can_announce_workdone_progress() {
    let id = NumberOrString::Number(2);
    let token = NumberOrString::Number(1);
    let work = NumberOrString::Number(3);
    let onset = Instant::now();
    let title = "Ready".to_string();
    let message = "Message".to_string();

    let mut ongoing = Some(OngoingTask::WindowWorkDoneProgress {
        id: id.clone(),
        token: token.clone(),
        work: work.clone(),
        onset: onset.clone(),
        phase: WorkDoneProgressPhase::Ready(ProgressParams {
            token: token.clone(),
            value: WorkDoneProgressValue::Begin(WorkDoneProgressBegin {
                title: title.clone(),
                cancellable: Some(false),
                message: Some(message.clone()),
                percentage: Some(0),
            }),
        }),
    });

    let mut counter = TaskCounterExternal::new();

    let mut outgoing: Vec<Option<Message>> = Vec::new();
    let mut done: Vec<Option<TaskDone>> = Vec::new();

    broadcast_work_done(&mut ongoing, &mut counter, &mut outgoing, &mut done);

    assert!(done.is_empty());
    assert_eq!(outgoing.len(), 1);

    let outgoing = outgoing[0].take().expect("Must not be empty.");

    assert!(
        outgoing
            == Message::Request(Request::WindowWorkDoneProgressCreate {
                id: NumberOrString::Number(0),
                params: WorkDoneProgressCreateParams {
                    token: token.clone()
                }
            })
    );

    assert_eq!(
        ongoing,
        Some(OngoingTask::WindowWorkDoneProgress {
            id,
            token: token.clone(),
            work,
            onset,
            phase: WorkDoneProgressPhase::Announced(ProgressParams {
                token,
                value: WorkDoneProgressValue::Begin(WorkDoneProgressBegin {
                    title,
                    cancellable: Some(false),
                    message: Some(message),
                    percentage: Some(0)
                })
            }),
        })
    );
}

#[test]
fn can_confirm_workdone_progress() {
    let id = NumberOrString::Number(2);
    let token = NumberOrString::Number(1);
    let work = NumberOrString::Number(3);
    let onset = Instant::now();
    let title = "Announced".to_string();
    let message = "Message".to_string();

    let params = WorkDoneProgressValue::Begin(WorkDoneProgressBegin {
        title: title.clone(),
        cancellable: Some(false),
        message: Some(message.clone()),
        percentage: Some(0),
    });

    let mut ongoing = OngoingTask::WindowWorkDoneProgress {
        id: id.clone(),
        token: token.clone(),
        work: work.clone(),
        onset: onset.clone(),
        phase: WorkDoneProgressPhase::Announced(ProgressParams {
            token: token.clone(),
            value: params.clone(),
        }),
    };

    let mut outgoing: Vec<Option<Message>> = Vec::new();

    confirm_server_workdone_progress(TraceValue::Off, &mut ongoing, &mut outgoing);

    assert!(outgoing.is_empty());

    assert_eq!(
        ongoing,
        OngoingTask::WindowWorkDoneProgress {
            id,
            token: token.clone(),
            work,
            onset,
            phase: WorkDoneProgressPhase::Initialized(ProgressParams {
                token,
                value: params,
            }),
        }
    );
}

#[test]
fn can_begin_workdone_progress() {
    let id = NumberOrString::Number(2);
    let token = NumberOrString::Number(1);
    let work = NumberOrString::Number(3);
    let onset = Instant::now();
    let title = "Initialized".to_string();
    let message = "Message".to_string();

    let params = WorkDoneProgressValue::Begin(WorkDoneProgressBegin {
        title: title.clone(),
        cancellable: Some(false),
        message: Some(message.clone()),
        percentage: Some(0),
    });

    let mut ongoing = Some(OngoingTask::WindowWorkDoneProgress {
        id: id.clone(),
        token: token.clone(),
        work: work.clone(),
        onset: onset.clone(),
        phase: WorkDoneProgressPhase::Initialized(ProgressParams {
            token: token.clone(),
            value: params.clone(),
        }),
    });

    let mut counter = TaskCounterExternal::new();

    let mut outgoing: Vec<Option<Message>> = Vec::new();
    let mut done: Vec<Option<TaskDone>> = Vec::new();

    broadcast_work_done(&mut ongoing, &mut counter, &mut outgoing, &mut done);

    assert!(done.is_empty());
    assert_eq!(outgoing.len(), 1);

    let outgoing = outgoing[0].take().expect("Must not be empty.");

    assert!(
        outgoing
            == Message::Notification(Notification::WorkDoneProgressNotification {
                params: ProgressParams {
                    token: token.clone(),
                    value: params,
                }
            })
    );

    assert_eq!(
        ongoing,
        Some(OngoingTask::WindowWorkDoneProgress {
            id,
            token: token.clone(),
            work,
            onset,
            phase: WorkDoneProgressPhase::Reporting {
                reported: 0,
                next: None,
            },
        })
    );
}

#[test]
fn can_report_workdone_progress() {
    let id = NumberOrString::Number(2);
    let token = NumberOrString::Number(1);
    let work = NumberOrString::Number(3);
    let onset = Instant::now();
    let message = "1 / 10".to_string();

    let params = WorkDoneProgressValue::Report(WorkDoneProgressReport {
        cancellable: None,
        message: Some(message.clone()),
        percentage: Some(60),
    });

    let mut ongoing = Some(OngoingTask::WindowWorkDoneProgress {
        id: id.clone(),
        token: token.clone(),
        work: work.clone(),
        onset,
        phase: WorkDoneProgressPhase::Reporting {
            reported: 55,
            next: Some(ProgressParams {
                token: token.clone(),
                value: params.clone(),
            }),
        },
    });

    let mut counter = TaskCounterExternal::new();

    let mut outgoing: Vec<Option<Message>> = Vec::new();
    let mut done: Vec<Option<TaskDone>> = Vec::new();

    broadcast_work_done(&mut ongoing, &mut counter, &mut outgoing, &mut done);

    assert!(done.is_empty());
    assert_eq!(outgoing.len(), 1);

    let outgoing = outgoing[0].take().expect("Must not be empty.");

    assert!(
        outgoing
            == Message::Notification(Notification::WorkDoneProgressNotification {
                params: ProgressParams {
                    token: token.clone(),
                    value: params,
                }
            })
    );

    assert_eq!(
        ongoing,
        Some(OngoingTask::WindowWorkDoneProgress {
            id: id.clone(),
            token: token.clone(),
            work: work.clone(),
            onset,
            phase: WorkDoneProgressPhase::Reporting {
                reported: 60,
                next: None,
            },
        })
    );

    let mut ongoing = Some(OngoingTask::WindowWorkDoneProgress {
        id: id.clone(),
        token: token.clone(),
        work: work.clone(),
        onset,
        phase: WorkDoneProgressPhase::Reporting {
            reported: 60,
            next: None,
        },
    });

    let mut outgoing: Vec<Option<Message>> = Vec::new();
    let mut done: Vec<Option<TaskDone>> = Vec::new();

    broadcast_work_done(&mut ongoing, &mut counter, &mut outgoing, &mut done);

    assert!(outgoing.is_empty());
    assert!(done.is_empty());

    assert_eq!(
        ongoing,
        Some(OngoingTask::WindowWorkDoneProgress {
            id,
            token,
            work,
            onset,
            phase: WorkDoneProgressPhase::Reporting {
                reported: 60,
                next: None,
            },
        })
    );
}

#[test]
fn can_finish_wordone_progress() {
    let id = NumberOrString::Number(2);
    let token = NumberOrString::Number(1);
    let work = NumberOrString::Number(3);
    let onset = Instant::now();
    let message = "Done".to_string();

    let params = WorkDoneProgressValue::End(WorkDoneProgressEnd {
        message: Some(message.clone()),
    });

    let mut ongoing = Some(OngoingTask::WindowWorkDoneProgress {
        id: id.clone(),
        token: token.clone(),
        work: work.clone(),
        onset: onset.clone(),
        phase: WorkDoneProgressPhase::Finished(Some(ProgressParams {
            token: token.clone(),
            value: params.clone(),
        })),
    });

    let mut counter = TaskCounterExternal::new();

    let mut outgoing: Vec<Option<Message>> = Vec::new();
    let mut done: Vec<Option<TaskDone>> = Vec::new();

    broadcast_work_done(&mut ongoing, &mut counter, &mut outgoing, &mut done);

    assert_eq!(done.len(), 1);
    assert_eq!(outgoing.len(), 1);

    let TaskDone::WindowWorkDoneProgress(identifier, aborted) =
        done[0].take().expect("Must not be empty.")
    else {
        panic!("Must be this variant.");
    };

    assert_eq!(identifier, id);
    assert_eq!(aborted, false);

    let outgoing = outgoing[0].take().expect("Must not be empty.");

    assert!(
        outgoing
            == Message::Notification(Notification::WorkDoneProgressNotification {
                params: ProgressParams {
                    token: token.clone(),
                    value: params,
                }
            })
    );

    assert_eq!(
        ongoing,
        Some(OngoingTask::WindowWorkDoneProgress {
            id: id.clone(),
            token: token.clone(),
            work: work.clone(),
            onset,
            phase: WorkDoneProgressPhase::Finished(None),
        })
    );

    let mut ongoing = Some(OngoingTask::WindowWorkDoneProgress {
        id: id.clone(),
        token: token.clone(),
        work: work.clone(),
        onset,
        phase: WorkDoneProgressPhase::Finished(None),
    });

    let mut outgoing: Vec<Option<Message>> = Vec::new();
    let mut done: Vec<Option<TaskDone>> = Vec::new();

    broadcast_work_done(&mut ongoing, &mut counter, &mut outgoing, &mut done);

    assert!(done.is_empty());
    assert!(outgoing.is_empty());

    assert_eq!(
        ongoing,
        Some(OngoingTask::WindowWorkDoneProgress {
            id,
            token,
            work,
            onset,
            phase: WorkDoneProgressPhase::Finished(None),
        })
    );
}

#[test]
fn can_abort_workdone_progress() {
    let id = NumberOrString::Number(2);
    let token = NumberOrString::Number(1);
    let work = NumberOrString::Number(3);
    let onset = Instant::now();
    let message = "Aborted".to_string();

    let params = WorkDoneProgressValue::Report(WorkDoneProgressReport {
        cancellable: Some(false),
        message: Some(message.clone()),
        percentage: Some(31),
    });

    let mut ongoing = OngoingTask::WindowWorkDoneProgress {
        id: id.clone(),
        token: token.clone(),
        work: work.clone(),
        onset: onset.clone(),
        phase: WorkDoneProgressPhase::Finished(Some(ProgressParams {
            token: token.clone(),
            value: params.clone(),
        })),
    };

    let mut outgoing: Vec<Option<Message>> = Vec::new();

    abort_server_workdone_progress(TraceValue::Off, &mut ongoing, &mut outgoing);

    assert!(outgoing.is_empty());

    assert_eq!(
        ongoing,
        OngoingTask::WindowWorkDoneProgress {
            id: id.clone(),
            token: token.clone(),
            work: work.clone(),
            onset,
            phase: WorkDoneProgressPhase::Aborted,
        }
    );

    let mut ongoing = Some(OngoingTask::WindowWorkDoneProgress {
        id: id.clone(),
        token: token.clone(),
        work: work.clone(),
        onset: onset.clone(),
        phase: WorkDoneProgressPhase::Aborted,
    });

    let mut counter = TaskCounterExternal::new();

    let mut outgoing: Vec<Option<Message>> = Vec::new();
    let mut done: Vec<Option<TaskDone>> = Vec::new();

    broadcast_work_done(&mut ongoing, &mut counter, &mut outgoing, &mut done);

    assert!(outgoing.is_empty());

    let TaskDone::WindowWorkDoneProgress(identifier, aborted) =
        done[0].take().expect("Must not be empty.")
    else {
        panic!("Must be this variant.");
    };

    assert_eq!(identifier, id);
    assert_eq!(aborted, true);

    assert_eq!(
        ongoing,
        Some(OngoingTask::WindowWorkDoneProgress {
            id,
            token,
            work,
            onset,
            phase: WorkDoneProgressPhase::Finished(None),
        })
    );
}

#[test]
fn can_cancel_workdone_progress() {
    let id = NumberOrString::Number(2);
    let token = NumberOrString::Number(1);
    let work = NumberOrString::Number(3);
    let onset = Instant::now();
    let title = "Cancelled".to_string();
    let message = "Message".to_string();

    let params = WorkDoneProgressValue::Begin(WorkDoneProgressBegin {
        title: title.clone(),
        cancellable: Some(false),
        message: Some(message.clone()),
        percentage: Some(0),
    });

    let mut ongoing = vec![Some(OngoingTask::WindowWorkDoneProgress {
        id: id.clone(),
        token: token.clone(),
        work: work.clone(),
        onset: onset.clone(),
        phase: WorkDoneProgressPhase::Announced(ProgressParams {
            token: token.clone(),
            value: params.clone(),
        }),
    })];

    let mut outgoing: Vec<Option<Message>> = Vec::new();

    cancel_server_workdone_progress(
        TraceValue::Off,
        token.clone(),
        &mut ongoing,
        &mut outgoing,
    );

    assert!(outgoing.is_empty());

    assert!(ongoing.iter().any(|o| *o
        == Some(OngoingTask::WindowWorkDoneProgress {
            id: id.clone(),
            token: token.clone(),
            work: work.clone(),
            onset,
            phase: WorkDoneProgressPhase::Aborted,
        })));
}
