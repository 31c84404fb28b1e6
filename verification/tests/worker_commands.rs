use gpuf_c::worker_loop::{CancelSet, start_tasks_check, worker_step, StartError, WorkerAction, WorkerEvent, WorkerState};

fn task(id: &str, loaded: bool) -> WorkerEvent {
    WorkerEvent::Task { task_id: id.to_string(), model_loaded: loaded }
}

#[test]
fn cancel_stops_only_the_active_task() {
    let mut s = WorkerState::new();
    assert!(matches!(worker_step(&mut s, task("t1", true)), WorkerAction::StartGeneration { task_id } if task_id == "t1"));
    assert!(matches!(
        worker_step(&mut s, WorkerEvent::Cancel { task_id: "t2".to_string() }),
        WorkerAction::Nothing
    ));
    assert!(matches!(
        worker_step(&mut s, WorkerEvent::Cancel { task_id: "t1".to_string() }),
        WorkerAction::StopGeneration
    ));
    worker_step(&mut s, WorkerEvent::TaskFinished { task_id: "t1".to_string() });
    assert!(matches!(
        worker_step(&mut s, WorkerEvent::Cancel { task_id: "t1".to_string() }),
        WorkerAction::Nothing
    ));
}

#[test]
fn task_without_model_is_rejected() {
    let mut s = WorkerState::new();
    assert!(matches!(worker_step(&mut s, task("t9", false)), WorkerAction::RejectTask { task_id } if task_id == "t9"));
    assert!(matches!(
        worker_step(&mut s, WorkerEvent::Cancel { task_id: "t9".to_string() }),
        WorkerAction::Nothing
    ));
}

#[test]
fn login_outcomes_and_stop() {
    let mut s = WorkerState::new();
    assert!(matches!(worker_step(&mut s, WorkerEvent::LoginResult { success: true }), WorkerAction::ReportModelStatus));
    assert!(matches!(worker_step(&mut s, WorkerEvent::PullModelResult { failed: true }), WorkerAction::Nothing));
    assert!(!s.is_stopped());
    assert!(matches!(worker_step(&mut s, WorkerEvent::LoginResult { success: false }), WorkerAction::Stop));
    assert!(s.is_stopped());
    assert!(matches!(worker_step(&mut s, task("t1", true)), WorkerAction::Stop));
}

#[test]
fn connection_loss_ends_the_loop() {
    let mut s = WorkerState::new();
    assert!(matches!(worker_step(&mut s, WorkerEvent::ConnectionLost), WorkerAction::Stop));
    assert!(s.is_stopped());
    let mut s = WorkerState::new();
    assert!(matches!(worker_step(&mut s, WorkerEvent::StopRequested), WorkerAction::Stop));
    assert!(matches!(worker_step(&mut s, WorkerEvent::Other), WorkerAction::Stop));
}

#[test]
fn start_checks() {
    assert_eq!(start_tasks_check(true, false), Ok(()));
    assert_eq!(start_tasks_check(false, false), Err(StartError::NotConnected));
    assert_eq!(start_tasks_check(false, true), Err(StartError::NotConnected));
    assert_eq!(start_tasks_check(true, true), Err(StartError::AlreadyStarted));
}

#[test]
fn cancel_set_remembers_any_task_until_it_finishes() {
    let mut c = CancelSet::new();
    assert!(!c.is_cancelled("t1"));
    c.cancel("t2".to_string());
    assert!(c.is_cancelled("t2"));
    assert!(!c.is_cancelled("t1"));
    c.cancel("t1".to_string());
    c.cancel("t1".to_string());
    assert!(c.is_cancelled("t1"));
    c.finish("t1");
    assert!(!c.is_cancelled("t1"));
    assert!(c.is_cancelled("t2"));
    c.finish("t2");
    assert!(!c.is_cancelled("t2"));
}
