use ro_control::orchestrator::{InstallOrchestrator, ObserverEvent, OperationStatus};

fn progress_events(op: &InstallOrchestrator) -> Vec<i32> {
    let mut out = Vec::new();
    for e in op.events.iter() {
        if let ObserverEvent::Progress(v) = e {
            out.push(*v);
        }
    }
    out
}

#[test]
fn express_install_scenario() {
    let mut op = InstallOrchestrator::new();
    assert_eq!(op.status, OperationStatus::Idle);
    assert!(op.accept_express_install());
    assert_eq!(op.status, OperationStatus::Running);
    assert_eq!(op.progress, 0);
    assert_eq!(op.log.len(), 1);
    assert_eq!(op.log[0], "Starting express installation...");

    op.handle_log_line("Resolving dependencies".to_string());
    op.handle_log_line("Downloading packages".to_string());
    op.handle_log_line("Installing akmod-nvidia".to_string());
    op.handle_log_line("Building kernel module".to_string());
    assert_eq!(progress_events(&op), vec![5, 10, 15, 20]);
    assert_eq!(op.progress, 20);

    op.complete(true);
    assert_eq!(op.status, OperationStatus::Succeeded);
    assert_eq!(op.progress, 100);
    assert_eq!(progress_events(&op), vec![5, 10, 15, 20, 100]);
    assert_eq!(op.events.last(), Some(&ObserverEvent::Terminal(OperationStatus::Succeeded)));
    assert!(op.log.last().unwrap().contains("REBOOT"));
}

#[test]
fn second_request_while_running_is_silent_noop() {
    let mut op = InstallOrchestrator::new();
    assert!(op.accept_remove(false));
    op.handle_log_line("Removing package".to_string());
    let log_before = op.log.clone();
    let progress_before = op.progress;
    let events_before = op.events.len();

    // All three request kinds are rejected while the operation runs.
    assert!(!op.accept_express_install());
    assert!(!op.accept_custom_install("565".to_string(), false));
    assert!(!op.accept_remove(true));

    assert_eq!(op.status, OperationStatus::Running);
    assert_eq!(op.log, log_before);
    assert_eq!(op.progress, progress_before);
    assert_eq!(op.events.len(), events_before);
}

#[test]
fn remove_with_deep_clean_starts_immediately() {
    let mut op = InstallOrchestrator::new();
    assert_eq!(op.status, OperationStatus::Idle);
    assert!(op.accept_remove(true));
    assert_eq!(op.status, OperationStatus::Running);
    assert!(op.log[0].contains("deep clean"));
}

#[test]
fn failed_operation_resets_progress_to_zero() {
    let mut op = InstallOrchestrator::new();
    assert!(op.accept_custom_install("550".to_string(), true));
    assert!(op.log[0].contains("550"));
    assert!(op.log[0].contains("OpenKernel: true"));
    op.handle_log_line("Trying".to_string());
    op.handle_log_line("Failing".to_string());
    assert_eq!(progress_events(&op), vec![2, 4]);
    op.complete(false);
    assert_eq!(op.status, OperationStatus::Failed);
    assert_eq!(op.progress, 0);
    assert_eq!(progress_events(&op), vec![2, 4, 0]);
    assert_eq!(op.events.last(), Some(&ObserverEvent::Terminal(OperationStatus::Failed)));
}

#[test]
fn progress_capped_at_ninety_until_completion() {
    let mut op = InstallOrchestrator::new();
    assert!(op.accept_remove(false));
    for i in 0..20 {
        op.handle_log_line(format!("step {}", i));
    }
    assert_eq!(op.progress, 90);
    let pv = progress_events(&op);
    assert_eq!(pv.last(), Some(&90));
    assert!(pv.iter().all(|v| *v <= 90));
    assert!(pv.windows(2).all(|w| w[0] <= w[1]));
    op.complete(true);
    assert_eq!(op.progress, 100);
}

#[test]
fn new_operation_accepted_after_terminal_state() {
    let mut op = InstallOrchestrator::new();
    assert!(op.accept_express_install());
    op.complete(false);
    assert_eq!(op.status, OperationStatus::Failed);
    // A terminal state releases the single-flight guard.
    assert!(op.accept_remove(false));
    assert_eq!(op.status, OperationStatus::Running);
    assert_eq!(op.progress, 0);
    assert_eq!(op.log.len(), 1);
    assert_eq!(op.events.len(), 0);
}

#[test]
fn events_outside_running_change_nothing() {
    let mut op = InstallOrchestrator::new();
    op.handle_log_line("stray line".to_string());
    op.complete(true);
    assert_eq!(op.status, OperationStatus::Idle);
    assert!(op.log.is_empty());
    assert!(op.events.is_empty());
    assert_eq!(op.progress, 0);
}

#[test]
fn log_lines_forwarded_in_order() {
    let mut op = InstallOrchestrator::new();
    assert!(op.accept_express_install());
    op.handle_log_line("first".to_string());
    op.handle_log_line("second".to_string());
    assert_eq!(op.log, vec!["Starting express installation...", "first", "second"]);
    assert_eq!(op.events[0], ObserverEvent::LogLine("first".to_string()));
    assert_eq!(op.events[2], ObserverEvent::LogLine("second".to_string()));
}
