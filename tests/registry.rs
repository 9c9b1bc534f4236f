use alarm_server::alarm::AlarmId;
use alarm_server::scheduler::{Scheduler, SchedulerError};

fn runtime() -> tokio::runtime::Runtime {
    tokio::runtime::Builder::new_current_thread().enable_all().build().unwrap()
}

fn idle_task(rt: &tokio::runtime::Runtime) -> tokio::task::AbortHandle {
    rt.spawn(std::future::pending::<()>()).abort_handle()
}

#[test]
fn register_twice_fails() {
    let rt = runtime();
    let mut s = Scheduler::new();
    assert_eq!(s.add_schedule(AlarmId(1), idle_task(&rt)), Ok(()));
    assert!(s.is_armed(AlarmId(1)));
    assert_eq!(s.add_schedule(AlarmId(1), idle_task(&rt)), Err(SchedulerError::DuplicateKey));
    assert!(s.is_armed(AlarmId(1)));
}

#[test]
fn cancel_then_register_succeeds() {
    let rt = runtime();
    let mut s = Scheduler::new();
    assert_eq!(s.add_schedule(AlarmId(3), idle_task(&rt)), Ok(()));
    s.cancel_schedule(AlarmId(3));
    assert!(!s.is_armed(AlarmId(3)));
    assert_eq!(s.add_schedule(AlarmId(3), idle_task(&rt)), Ok(()));
    assert!(s.is_armed(AlarmId(3)));
}

#[test]
fn cancel_unknown_is_noop() {
    let rt = runtime();
    let mut s = Scheduler::new();
    s.cancel_schedule(AlarmId(42));
    assert!(!s.is_armed(AlarmId(42)));
    assert_eq!(s.add_schedule(AlarmId(7), idle_task(&rt)), Ok(()));
    s.cancel_schedule(AlarmId(42));
    assert!(s.is_armed(AlarmId(7)));
}

#[test]
fn ids_are_independent() {
    let rt = runtime();
    let mut s = Scheduler::new();
    assert_eq!(s.add_schedule(AlarmId(1), idle_task(&rt)), Ok(()));
    assert_eq!(s.add_schedule(AlarmId(2), idle_task(&rt)), Ok(()));
    s.cancel_schedule(AlarmId(1));
    assert!(!s.is_armed(AlarmId(1)));
    assert!(s.is_armed(AlarmId(2)));
}

#[test]
fn cancel_aborts_the_task() {
    let rt = runtime();
    let mut s = Scheduler::new();
    let task = rt.spawn(std::future::pending::<()>());
    assert_eq!(s.add_schedule(AlarmId(5), task.abort_handle()), Ok(()));
    s.cancel_schedule(AlarmId(5));
    let result = rt.block_on(task);
    assert!(result.unwrap_err().is_cancelled());
}

#[test]
fn duplicate_task_is_aborted() {
    let rt = runtime();
    let mut s = Scheduler::new();
    assert_eq!(s.add_schedule(AlarmId(5), idle_task(&rt)), Ok(()));
    let task = rt.spawn(std::future::pending::<()>());
    assert_eq!(s.add_schedule(AlarmId(5), task.abort_handle()), Err(SchedulerError::DuplicateKey));
    assert!(rt.block_on(task).unwrap_err().is_cancelled());
}

#[test]
fn duplicate_key_message() {
    assert_eq!(SchedulerError::DuplicateKey.message(), "contains duplicate alarm key");
}
