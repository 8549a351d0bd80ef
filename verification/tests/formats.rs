use horust::formats::{
    contains_name, Event, Failure, FailureStrategy, HealthinessStatus, Pid, RestartStrategy,
    Service, ServiceStatus, TerminationSignal,
};
use std::time::Duration;

#[test]
fn a_service_with_nothing_configured() {
    let service = Service::from_name("web");
    assert_eq!(service.name, "web");
    assert!(service.start_after.is_empty());
    assert_eq!(service.restart.strategy, RestartStrategy::Never);
    assert_eq!(service.restart.backoff, Duration::from_secs(0));
    assert_eq!(service.restart.attempts, 0);
    assert_eq!(service.failure.successful_exit_code, vec![0]);
    assert_eq!(service.failure.strategy, FailureStrategy::Ignore);
    assert_eq!(service.termination.signal, TerminationSignal::TERM);
    assert_eq!(service.termination.wait, Duration::from_secs(5));
    assert!(service.termination.die_if_failed.is_empty());
}

#[test]
fn copies_are_equal() {
    let mut service = Service::from_name("web");
    service.start_after = vec!["db".to_string(), "log".to_string()];
    service.failure.successful_exit_code = vec![0, 3, -1];
    service.failure.strategy = FailureStrategy::Shutdown;
    service.termination.die_if_failed = vec!["db".to_string()];
    assert_eq!(service.clone(), service);
    let name = "web".to_string();
    for ev in vec![
        Event::PidChanged(name.clone(), Pid::from_raw(4)),
        Event::new_status_changed(&name, ServiceStatus::Running),
        Event::ServiceExited(name.clone(), 2),
        Event::new_force_kill(&name),
        Event::Kill(name.clone()),
        Event::ShuttingDownInitiated,
        Event::SpawnFailed(name.clone()),
        Event::Run(name.clone()),
        Event::HealthCheck(name.clone(), HealthinessStatus::Unhealthy),
    ] {
        assert_eq!(ev.clone(), ev);
    }
}

#[test]
fn membership() {
    let names = vec!["a".to_string(), "b".to_string()];
    assert!(contains_name(&names, &"b".to_string()));
    assert!(!contains_name(&names, &"c".to_string()));
    let failure = Failure {
        successful_exit_code: vec![0, 7],
        strategy: FailureStrategy::Ignore,
    };
    assert!(!failure.is_failure(7));
    assert!(failure.is_failure(1));
    assert_eq!(Pid::from_raw(-5).as_raw(), -5);
}
