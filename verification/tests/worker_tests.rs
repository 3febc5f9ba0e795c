use stream_worker::worker::CancellableWorker;
use stream_worker::worker::StartResult;
use stream_worker::worker::StopResult;
use stream_worker::worker::WorkerPhase;

#[test]
fn start_succeeds_once_then_reports_already_running() {
    let mut worker = CancellableWorker::new();
    assert_eq!(worker.current_phase(), WorkerPhase::Idle);
    assert_eq!(worker.start(), StartResult::Started);
    assert_eq!(worker.current_phase(), WorkerPhase::Running);
    assert_eq!(worker.start(), StartResult::AlreadyRunning);
    assert_eq!(worker.current_phase(), WorkerPhase::Running);
}

#[test]
fn stop_on_idle_worker_is_a_no_op() {
    let mut worker = CancellableWorker::new();
    assert_eq!(worker.request_stop(), StopResult::NotRunning);
    assert_eq!(worker.current_phase(), WorkerPhase::Idle);
}

#[test]
fn cancellation_is_observed_between_units_of_work() {
    let mut worker = CancellableWorker::new();
    assert_eq!(worker.start(), StartResult::Started);
    assert!(!worker.observe_cancel());
    assert_eq!(worker.request_stop(), StopResult::Stopped);
    assert_eq!(worker.current_phase(), WorkerPhase::Running);
    assert!(worker.observe_cancel());
    assert_eq!(worker.current_phase(), WorkerPhase::Cancelled);
}

#[test]
fn terminal_phases_are_final() {
    let mut worker = CancellableWorker::new();
    assert_eq!(worker.start(), StartResult::Started);
    worker.complete();
    assert_eq!(worker.current_phase(), WorkerPhase::Completed);
    assert_eq!(worker.start(), StartResult::AlreadyRunning);
    assert_eq!(worker.request_stop(), StopResult::NotRunning);
    assert!(!worker.observe_cancel());
    worker.fail();
    assert_eq!(worker.current_phase(), WorkerPhase::Completed);
}

#[test]
fn failure_is_recorded() {
    let mut worker = CancellableWorker::new();
    assert_eq!(worker.start(), StartResult::Started);
    worker.fail();
    assert_eq!(worker.current_phase(), WorkerPhase::Failed);
    worker.complete();
    assert_eq!(worker.current_phase(), WorkerPhase::Failed);
}
