use stream_worker::registry::StartOutcome;
use stream_worker::registry::StopOutcome;
use stream_worker::registry::WorkerRegistry;

#[test]
fn second_start_for_same_name_is_refused() {
    let mut registry: WorkerRegistry<u32> = WorkerRegistry::new();
    assert!(matches!(
        registry.start("generation".to_string(), 1),
        StartOutcome::Started
    ));
    match registry.start("generation".to_string(), 2) {
        StartOutcome::AlreadyRunning(signal) => assert_eq!(signal, 2),
        StartOutcome::Started => panic!("second start must not succeed"),
    }
}

#[test]
fn stop_without_active_worker_reports_not_running() {
    let mut registry: WorkerRegistry<u32> = WorkerRegistry::new();
    assert!(matches!(registry.stop("generation"), StopOutcome::NotRunning));
    // No side effects: a later start still succeeds.
    assert!(matches!(
        registry.start("generation".to_string(), 7),
        StartOutcome::Started
    ));
}

#[test]
fn stop_hands_back_the_registered_signal() {
    let mut registry: WorkerRegistry<u32> = WorkerRegistry::new();
    assert!(matches!(
        registry.start("generation".to_string(), 41),
        StartOutcome::Started
    ));
    match registry.stop("generation") {
        StopOutcome::Stopped(signal) => assert_eq!(signal, 41),
        StopOutcome::NotRunning => panic!("a live worker must be stoppable"),
    }
    // The slot is free again.
    assert!(matches!(
        registry.start("generation".to_string(), 42),
        StartOutcome::Started
    ));
}

#[test]
fn names_are_independent() {
    let mut registry: WorkerRegistry<u32> = WorkerRegistry::new();
    assert!(matches!(registry.start("a".to_string(), 1), StartOutcome::Started));
    assert!(matches!(registry.start("b".to_string(), 2), StartOutcome::Started));
    match registry.stop("a") {
        StopOutcome::Stopped(signal) => assert_eq!(signal, 1),
        StopOutcome::NotRunning => panic!("worker a is live"),
    }
    match registry.stop("b") {
        StopOutcome::Stopped(signal) => assert_eq!(signal, 2),
        StopOutcome::NotRunning => panic!("worker b is live"),
    }
}

#[test]
fn natural_completion_clears_the_slot() {
    let mut registry: WorkerRegistry<u32> = WorkerRegistry::new();
    assert!(matches!(registry.start("task".to_string(), 5), StartOutcome::Started));
    assert!(registry.clear_finished("task"));
    assert!(!registry.clear_finished("task"));
    assert!(matches!(registry.start("task".to_string(), 6), StartOutcome::Started));
}
