use apptrack::procs::{snapshot_names, ProcessInfo};
use apptrack::sched::{AccrualError, Scheduler, SchedulerAction, TickSignal};

#[test]
fn runs_while_no_signal() {
    let mut s = Scheduler::new();
    for _ in 0..3 {
        let a = s.on_signal(&TickSignal::Empty);
        assert!(matches!(a, SchedulerAction::RunTick));
    }
}

#[test]
fn stops_on_shutdown_and_stays_stopped() {
    let mut s = Scheduler::new();
    assert!(matches!(s.on_signal(&TickSignal::Shutdown), SchedulerAction::Stop));
    assert!(matches!(s.on_signal(&TickSignal::Empty), SchedulerAction::Stop));
}

#[test]
fn stops_on_disconnect() {
    let mut s = Scheduler::new();
    assert!(matches!(s.on_signal(&TickSignal::Disconnected), SchedulerAction::Stop));
}

#[test]
fn tick_errors_never_stop_the_loop() {
    let s = Scheduler::new();
    let (a, log) = s.after_tick(&Err(AccrualError::TransactionFailure));
    assert!(matches!(a, SchedulerAction::RunTick));
    assert!(log);
    let (a, log) = s.after_tick(&Ok(()));
    assert!(matches!(a, SchedulerAction::RunTick));
    assert!(!log);
}

#[test]
fn error_messages_name_the_failure() {
    assert_eq!(AccrualError::StoreUnavailable.message(), "storage unavailable");
    assert_eq!(AccrualError::TransactionFailure.message(), "transaction failure");
    assert_eq!(
        AccrualError::EnumerationFailure.message(),
        "process enumeration failure"
    );
}

fn proc(pid: u32, name: &str) -> ProcessInfo {
    ProcessInfo { pid, name: name.to_string(), exe_path: format!("/bin/{}", name) }
}

#[test]
fn snapshot_collapses_duplicate_names() {
    let procs = vec![proc(1, "editor"), proc(2, "shell"), proc(3, "editor")];
    let names = snapshot_names(&procs);
    let as_str: Vec<&str> = names.iter().map(|s| s.as_str()).collect();
    assert_eq!(as_str, vec!["editor", "shell"]);
}

#[test]
fn snapshot_of_nothing_is_empty() {
    let names = snapshot_names(&Vec::new());
    assert!(names.is_empty());
}
