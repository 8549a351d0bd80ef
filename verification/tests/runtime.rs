use crossbeam::channel::{unbounded, Receiver, Sender};
use horust::bus::BusConnector;
use horust::formats::{
    Event, ExitStatus, FailureStrategy, HealthinessStatus, Pid, RestartStrategy, Service,
    ServiceStatus, TerminationSignal,
};
use horust::runtime::{
    final_signals, handle_failed_service, handle_restart_strategy, handle_status_changed_event,
    kill, next_events_shutting_down, next_events_shutting_down_given, should_force_kill,
    should_force_kill_after, Action, Handled, Runtime,
};
use horust::service_handler::ServiceHandler;
use std::ops::Sub;
use std::time::{Duration, Instant};

/// The part of a service's definition that these tests depend on.
fn parse_service(text: &str) -> Service {
    let value: toml::Value = toml::from_str(text).unwrap();
    let name = value.get("name").map_or("", |n| n.as_str().unwrap());
    let mut service = Service::from_name(name);
    if let Some(strategy) = value.get("restart").and_then(|r| r.get("strategy")) {
        service.restart.strategy = match strategy.as_str().unwrap() {
            "always" => RestartStrategy::Always,
            "on-failure" => RestartStrategy::OnFailure,
            "never" => RestartStrategy::Never,
            other => panic!("no restart strategy: {}", other),
        };
    }
    if let Some(wait) = value.get("termination").and_then(|t| t.get("wait")) {
        service.termination.wait = humantime::parse_duration(wait.as_str().unwrap()).unwrap();
    }
    service
}

#[test]
fn test_handle_restart_strategy() {
    let new_status = |status| Event::new_status_changed(&"servicename".to_string(), status);
    let matrix = vec![
        (false, "always", new_status(ServiceStatus::Initial)),
        (true, "always", new_status(ServiceStatus::Initial)),
        (true, "on-failure", new_status(ServiceStatus::Initial)),
        (false, "on-failure", new_status(ServiceStatus::Finished)),
        (true, "never", new_status(ServiceStatus::FinishedFailed)),
        (false, "never", new_status(ServiceStatus::Finished)),
    ];
    matrix
        .into_iter()
        .for_each(|(has_failed, strategy, expected)| {
            let service = format!(
                r#"name="servicename"
command = "Not relevant"
[restart]
strategy = "{}"
"#,
                strategy
            );
            let service: Service = parse_service(service.as_str());
            let received = handle_restart_strategy(&service, has_failed);
            assert_eq!(received, expected);
        });
}

#[test]
fn test_should_force_kill() {
    let service = r#"command="notrelevant"
[termination]
wait = "10s"
"#;
    let service: Service = parse_service(service);
    let mut sh: ServiceHandler = service.into();
    assert!(!should_force_kill(&sh));
    sh.shutting_down_started();
    sh.status = ServiceStatus::InKilling;
    assert!(!should_force_kill(&sh));
    let old_start = sh.shutting_down_start;
    let past_wait = Some(sh.shutting_down_start.unwrap().sub(Duration::from_secs(20)));
    sh.shutting_down_start = past_wait;
    assert!(!should_force_kill(&sh));
    sh.pid = Some(Pid::from_raw(nix::unistd::Pid::this().as_raw()));
    sh.shutting_down_start = old_start;
    assert!(!should_force_kill(&sh));
    sh.shutting_down_start = past_wait;
    assert!(should_force_kill(&sh));
}

#[test]
fn test_handle_failed_service() {
    let mut service = Service::from_name("b");
    let evs = handle_failed_service(vec!["a".into()], &service.clone());
    assert!(evs.is_empty());

    service.failure.strategy = FailureStrategy::KillDependents;
    let evs = handle_failed_service(vec!["a".into()], &service.clone());
    let exp = vec![
        Event::new_status_changed(&"a".to_string(), ServiceStatus::InKilling),
        Event::Kill("a".into()),
    ];
    assert_eq!(evs, exp);

    service.failure.strategy = FailureStrategy::Shutdown;
    let evs = handle_failed_service(vec!["a".into()], &service.into());
    let exp = vec![Event::ShuttingDownInitiated];
    assert_eq!(evs, exp);
}

fn connected() -> (BusConnector, Receiver<Event>, Sender<Event>) {
    let (to_bus, sent) = unbounded();
    let (incoming, from_bus) = unbounded();
    (BusConnector::new(to_bus, from_bus), sent, incoming)
}

fn runtime_of(services: Vec<Service>) -> Runtime {
    Runtime::new(connected().0, services)
}

fn named(name: &str) -> Service {
    Service::from_name(name)
}

fn text(name: &str) -> String {
    name.to_string()
}

fn status(name: &str, status: ServiceStatus) -> Event {
    Event::new_status_changed(&name.to_string(), status)
}

fn status_of(runtime: &Runtime, name: &str) -> ServiceStatus {
    handler(runtime, name).status
}

fn handler(runtime: &Runtime, name: &str) -> ServiceHandler {
    runtime
        .services()
        .iter()
        .find(|sh| sh.name() == name)
        .unwrap()
        .clone()
}

/// Hands an event to the runtime, which has to accept it.
fn hand(runtime: &mut Runtime, ev: Event) -> Handled {
    assert!(runtime.accepts_event(&ev, true));
    runtime.handle_event(ev, true)
}

fn answer(events: Vec<Event>, action: Option<Action>) -> Handled {
    Handled { events, action }
}

const STATUSES: [ServiceStatus; 10] = [
    ServiceStatus::Initial,
    ServiceStatus::ToBeRun,
    ServiceStatus::Starting,
    ServiceStatus::Started,
    ServiceStatus::Running,
    ServiceStatus::InKilling,
    ServiceStatus::Success,
    ServiceStatus::Finished,
    ServiceStatus::Failed,
    ServiceStatus::FinishedFailed,
];

#[test]
fn transition_table() {
    let allowed = vec![
        (
            ServiceStatus::Initial,
            vec![ServiceStatus::Success, ServiceStatus::Failed],
        ),
        (ServiceStatus::Started, vec![ServiceStatus::Starting]),
        (
            ServiceStatus::InKilling,
            vec![
                ServiceStatus::Initial,
                ServiceStatus::Running,
                ServiceStatus::Starting,
                ServiceStatus::Started,
            ],
        ),
        (ServiceStatus::Running, vec![ServiceStatus::Started]),
        (
            ServiceStatus::FinishedFailed,
            vec![ServiceStatus::Failed, ServiceStatus::InKilling],
        ),
        (
            ServiceStatus::Success,
            vec![
                ServiceStatus::Starting,
                ServiceStatus::Started,
                ServiceStatus::Running,
                ServiceStatus::InKilling,
            ],
        ),
        (
            ServiceStatus::Failed,
            vec![
                ServiceStatus::Starting,
                ServiceStatus::Started,
                ServiceStatus::Running,
                ServiceStatus::InKilling,
            ],
        ),
        (
            ServiceStatus::Finished,
            vec![ServiceStatus::Success, ServiceStatus::Initial],
        ),
    ];
    for (to, from) in allowed {
        for current in STATUSES {
            let mut sh = ServiceHandler::from(named("a"));
            sh.status = current;
            let after = handle_status_changed_event(sh, &to).status;
            let expected = if !from.contains(&current) {
                current
            } else if to == ServiceStatus::InKilling && current == ServiceStatus::Initial {
                ServiceStatus::Success
            } else {
                to
            };
            assert_eq!(after, expected, "from {:?} to {:?}", current, to);
        }
    }
}

#[test]
fn transitions_reset_the_counters() {
    let mut sh = ServiceHandler::from(named("a"));
    sh.restart_attempts = 3;
    sh.healthiness_checks_failed = 2;
    sh.status = ServiceStatus::Starting;
    let sh = handle_status_changed_event(sh, &ServiceStatus::Started);
    assert_eq!((sh.restart_attempts, sh.healthiness_checks_failed), (0, 2));
    let sh = handle_status_changed_event(sh, &ServiceStatus::Running);
    assert_eq!((sh.restart_attempts, sh.healthiness_checks_failed), (0, 0));
}

#[test]
fn force_kill_compares_whole_seconds() {
    let mut sh = ServiceHandler::from(named("a"));
    sh.pid = Some(Pid::from_raw(1));
    sh.shutting_down_start = Some(Instant::now());
    sh.service.termination.wait = Duration::from_millis(2900);
    assert!(!should_force_kill_after(&sh, Duration::from_millis(2950)));
    assert!(should_force_kill_after(&sh, Duration::from_secs(3)));
    sh.shutting_down_start = None;
    assert!(!should_force_kill_after(&sh, Duration::from_secs(3)));
    sh.shutting_down_start = Some(Instant::now());
    sh.pid = None;
    assert!(!should_force_kill_after(&sh, Duration::from_secs(3)));
}

#[test]
fn kill_needs_a_process() {
    let mut sh = ServiceHandler::from(named("a"));
    sh.service.termination.signal = TerminationSignal::HUP;
    assert_eq!(kill(&sh, None), None);
    let pid = Pid::from_raw(77);
    sh.pid = Some(pid);
    assert_eq!(
        kill(&sh, None),
        Some(Action::Signal(pid, TerminationSignal::HUP))
    );
    assert_eq!(
        kill(&sh, Some(TerminationSignal::KILL)),
        Some(Action::Signal(pid, TerminationSignal::KILL))
    );
}

#[test]
fn needs_while_up() {
    let mut waiting = named("b");
    waiting.start_after = vec![text("a")];
    let runtime = runtime_of(vec![named("a"), waiting]);
    let a = handler(&runtime, "a");
    let b = handler(&runtime, "b");
    assert_eq!(runtime.next(&a), vec![Event::Run(text("a"))]);
    assert_eq!(runtime.next_events(&b), vec![]);

    let mut sh = a.clone();
    sh.status = ServiceStatus::Starting;
    assert_eq!(runtime.next(&sh), vec![]);
    sh.status = ServiceStatus::Started;
    assert_eq!(runtime.next(&sh), vec![status("a", ServiceStatus::Running)]);
    sh.healthiness_checks_failed = 1;
    assert_eq!(runtime.next(&sh), vec![]);
    sh.status = ServiceStatus::Running;
    sh.healthiness_checks_failed = 2;
    assert_eq!(runtime.next(&sh), vec![]);
    sh.healthiness_checks_failed = 3;
    assert_eq!(
        runtime.next(&sh),
        vec![status("a", ServiceStatus::InKilling), Event::Kill(text("a"))]
    );
    sh.status = ServiceStatus::Success;
    assert_eq!(runtime.next(&sh), vec![status("a", ServiceStatus::Finished)]);
    sh.status = ServiceStatus::InKilling;
    assert_eq!(runtime.next_given(&sh, false), vec![]);
    assert_eq!(
        runtime.next_given(&sh, true),
        vec![
            Event::ForceKill(text("a")),
            status("a", ServiceStatus::Failed)
        ]
    );
    sh.status = ServiceStatus::Finished;
    assert_eq!(runtime.next(&sh), vec![]);
}

#[test]
fn a_failure_reaches_the_others() {
    let mut failing = named("a");
    failing.failure.strategy = FailureStrategy::KillDependents;
    failing.restart.strategy = RestartStrategy::OnFailure;
    let mut waiting = named("b");
    waiting.start_after = vec![text("a")];
    let mut mourning = named("c");
    mourning.termination.die_if_failed = vec![text("x"), text("a")];
    let runtime = runtime_of(vec![failing, waiting, mourning, named("d")]);
    let mut sh = handler(&runtime, "a");
    sh.status = ServiceStatus::Failed;
    let own = status("a", ServiceStatus::Initial);
    let of_c = vec![status("c", ServiceStatus::InKilling), Event::Kill(text("c"))];
    assert_eq!(
        runtime.next_events(&sh),
        vec![
            status("b", ServiceStatus::InKilling),
            Event::Kill(text("b")),
            own.clone(),
            of_c[0].clone(),
            of_c[1].clone(),
        ]
    );
    sh.service.failure.strategy = FailureStrategy::Shutdown;
    assert_eq!(
        runtime.next_events(&sh),
        vec![
            Event::ShuttingDownInitiated,
            own.clone(),
            of_c[0].clone(),
            of_c[1].clone(),
        ]
    );
    sh.service.failure.strategy = FailureStrategy::Ignore;
    assert_eq!(
        runtime.next_events(&sh),
        vec![own, of_c[0].clone(), of_c[1].clone()]
    );
}

#[test]
fn a_failure_for_good_reaches_the_others() {
    let mut failing = named("a");
    failing.failure.strategy = FailureStrategy::Shutdown;
    let mut waiting = named("b");
    waiting.start_after = vec![text("a")];
    let mut mourning = named("c");
    mourning.termination.die_if_failed = vec![text("a")];
    let mut runtime = runtime_of(vec![failing, waiting, mourning]);
    hand(&mut runtime, Event::PidChanged(text("a"), Pid::from_raw(3)));
    hand(&mut runtime, Event::ServiceExited(text("a"), 1));
    let mut sh = handler(&runtime, "a");
    assert_eq!(sh.status, ServiceStatus::FinishedFailed);
    assert_eq!(runtime.next(&sh), vec![Event::ShuttingDownInitiated]);
    sh.service.failure.strategy = FailureStrategy::KillDependents;
    assert_eq!(
        runtime.next_events(&sh),
        vec![status("b", ServiceStatus::InKilling), Event::Kill(text("b"))]
    );
    sh.service.failure.strategy = FailureStrategy::Ignore;
    assert_eq!(runtime.next_events(&sh), vec![]);
    sh.service.failure.strategy = FailureStrategy::Shutdown;
    hand(&mut runtime, Event::ShuttingDownInitiated);
    assert_eq!(runtime.next(&sh), vec![]);
}

#[test]
fn needs_while_shutting_down() {
    let expected = |s: ServiceStatus| match s {
        ServiceStatus::Running | ServiceStatus::Started => vec![
            status("a", ServiceStatus::InKilling),
            Event::Kill(text("a")),
        ],
        ServiceStatus::Success | ServiceStatus::Initial => {
            vec![status("a", ServiceStatus::Finished)]
        }
        ServiceStatus::Failed => vec![status("a", ServiceStatus::FinishedFailed)],
        _ => vec![],
    };
    let mut runtime = runtime_of(vec![named("a")]);
    hand(&mut runtime, Event::ShuttingDownInitiated);
    assert!(runtime.is_shutting_down());
    for s in STATUSES {
        let mut sh = ServiceHandler::from(named("a"));
        sh.status = s;
        assert_eq!(next_events_shutting_down(&sh), expected(s));
        assert_eq!(runtime.next(&sh), expected(s));
        assert_eq!(runtime.next_events(&sh), expected(s));
        let forced = if s == ServiceStatus::InKilling {
            vec![Event::ForceKill(text("a"))]
        } else {
            expected(s)
        };
        assert_eq!(next_events_shutting_down_given(&sh, true), forced);
    }
}

#[test]
fn a_service_lives_and_ends() {
    let mut runtime = runtime_of(vec![named("a")]);
    assert!(!runtime.all_have_finished());
    assert!(runtime.needs_preparation(&Event::Run(text("a"))));
    let delay = Duration::from_secs(0);
    assert_eq!(
        hand(&mut runtime, Event::Run(text("a"))),
        answer(
            vec![status("a", ServiceStatus::Starting)],
            Some(Action::Spawn(text("a"), delay))
        )
    );
    assert!(!runtime.needs_preparation(&Event::Run(text("a"))));
    assert_eq!(
        hand(&mut runtime, Event::Run(text("a"))),
        answer(vec![], None)
    );
    let pid = Pid::from_raw(11);
    assert_eq!(
        hand(&mut runtime, Event::PidChanged(text("a"), pid)),
        answer(vec![status("a", ServiceStatus::Started)], None)
    );
    assert_eq!(handler(&runtime, "a").pid, Some(pid));
    assert_eq!(
        runtime.advance(vec![]),
        vec![status("a", ServiceStatus::Running)]
    );
    assert_eq!(status_of(&runtime, "a"), ServiceStatus::Running);
    let exited = runtime.exit_event(pid, 0).unwrap();
    assert_eq!(exited, Event::ServiceExited(text("a"), 0));
    assert_eq!(runtime.exit_event(Pid::from_raw(12), 0), None);
    assert_eq!(
        hand(&mut runtime, exited),
        answer(vec![status("a", ServiceStatus::Success)], None)
    );
    assert_eq!(handler(&runtime, "a").pid, None);
    assert_eq!(runtime.exit_event(pid, 0), None);
    assert_eq!(
        runtime.advance(vec![]),
        vec![status("a", ServiceStatus::Finished)]
    );
    assert!(runtime.all_have_finished());
    assert_eq!(runtime.advance(vec![]), vec![]);
    assert_eq!(runtime.finish(), Err(Event::ShuttingDownInitiated));
}

#[test]
fn exits_are_judged() {
    let run = |code: i32, s: ServiceStatus, unhealthy: bool| {
        let mut runtime = runtime_of(vec![named("a")]);
        hand(&mut runtime, Event::PidChanged(text("a"), Pid::from_raw(1)));
        if s == ServiceStatus::Running {
            runtime.advance(vec![]);
        }
        if unhealthy {
            let ev = Event::HealthCheck(text("a"), HealthinessStatus::Unhealthy);
            hand(&mut runtime, ev);
        }
        assert_eq!(status_of(&runtime, "a"), s);
        hand(&mut runtime, Event::ServiceExited(text("a"), code));
        handler(&runtime, "a")
    };
    assert_eq!(
        run(0, ServiceStatus::Running, false).status,
        ServiceStatus::Success
    );
    assert_eq!(
        run(1, ServiceStatus::Running, false).status,
        ServiceStatus::Failed
    );
    assert_eq!(
        run(0, ServiceStatus::Running, true).status,
        ServiceStatus::Failed
    );
    assert_eq!(
        run(0, ServiceStatus::Started, true).status,
        ServiceStatus::Success
    );
    let sh = run(1, ServiceStatus::Started, false);
    assert_eq!(
        (sh.status, sh.restart_attempts),
        (ServiceStatus::FinishedFailed, 1)
    );
}

#[test]
fn early_failures_use_up_attempts() {
    let mut service = named("a");
    service.restart.attempts = 1;
    service.restart.backoff = Duration::from_millis(1500);
    let mut runtime = runtime_of(vec![service]);
    let pid = Pid::from_raw(4);
    hand(&mut runtime, Event::Run(text("a")));
    hand(&mut runtime, Event::PidChanged(text("a"), pid));
    assert_eq!(
        hand(&mut runtime, Event::ServiceExited(text("a"), 9)),
        answer(vec![status("a", ServiceStatus::Initial)], None)
    );
    assert_eq!(
        hand(&mut runtime, Event::Run(text("a"))).action,
        Some(Action::Spawn(text("a"), Duration::from_millis(1500)))
    );
    hand(&mut runtime, Event::PidChanged(text("a"), pid));
    assert_eq!(
        hand(&mut runtime, Event::ServiceExited(text("a"), 9)),
        answer(vec![status("a", ServiceStatus::FinishedFailed)], None)
    );
    assert_eq!(handler(&runtime, "a").restart_attempts, 2);
}

#[test]
fn preparation_that_fails_shuts_down() {
    let mut runtime = runtime_of(vec![named("a"), named("b")]);
    let ev = Event::Run(text("a"));
    assert!(runtime.accepts_event(&ev, false));
    assert_eq!(
        runtime.handle_event(ev, false),
        answer(
            vec![
                status("a", ServiceStatus::FinishedFailed),
                Event::ShuttingDownInitiated
            ],
            None
        )
    );
    assert!(runtime.is_shutting_down());
    assert_eq!(status_of(&runtime, "a"), ServiceStatus::FinishedFailed);
    assert_eq!(status_of(&runtime, "b"), ServiceStatus::Initial);
}

#[test]
fn spawn_that_fails() {
    let mut runtime = runtime_of(vec![named("a")]);
    hand(&mut runtime, Event::Run(text("a")));
    assert_eq!(
        hand(&mut runtime, Event::SpawnFailed(text("a"))),
        answer(vec![status("a", ServiceStatus::Failed)], None)
    );
    assert_eq!(
        runtime.advance(vec![]),
        vec![status("a", ServiceStatus::FinishedFailed)]
    );
    assert!(runtime.all_have_finished());
}

#[test]
fn killing_waits_for_the_process() {
    let mut runtime = runtime_of(vec![named("a")]);
    hand(&mut runtime, Event::Run(text("a")));
    // Not to be killed yet: nothing happens.
    assert_eq!(
        hand(&mut runtime, Event::Kill(text("a"))),
        answer(vec![], None)
    );
    assert_eq!(
        hand(&mut runtime, Event::ForceKill(text("a"))),
        answer(vec![], None)
    );
    runtime.apply_status_changes(&vec![status("a", ServiceStatus::InKilling)]);
    // There is no process to signal.
    assert_eq!(
        hand(&mut runtime, Event::Kill(text("a"))),
        answer(vec![], None)
    );
    assert!(handler(&runtime, "a").shutting_down_start.is_some());
    let pid = Pid::from_raw(21);
    assert_eq!(
        hand(&mut runtime, Event::PidChanged(text("a"), pid)),
        answer(vec![], Some(Action::Signal(pid, TerminationSignal::TERM)))
    );
    let now = Instant::now();
    assert_eq!(
        runtime.handle_event_at(Event::Kill(text("a")), true, now),
        answer(vec![], Some(Action::Signal(pid, TerminationSignal::TERM)))
    );
    assert_eq!(handler(&runtime, "a").shutting_down_start, Some(now));
    assert_eq!(runtime.advance_given(&vec![false], vec![]), vec![]);
    assert_eq!(
        hand(&mut runtime, Event::ForceKill(text("a"))),
        answer(
            vec![status("a", ServiceStatus::Failed)],
            Some(Action::Signal(pid, TerminationSignal::KILL))
        )
    );
}

#[test]
fn health_checks_are_counted() {
    let mut runtime = runtime_of(vec![named("a")]);
    let bad = Event::HealthCheck(text("a"), HealthinessStatus::Unhealthy);
    let good = Event::HealthCheck(text("a"), HealthinessStatus::Healthy);
    hand(&mut runtime, bad.clone());
    assert_eq!(handler(&runtime, "a").healthiness_checks_failed, 0);
    hand(&mut runtime, Event::Run(text("a")));
    hand(&mut runtime, bad.clone());
    hand(&mut runtime, bad.clone());
    assert_eq!(handler(&runtime, "a").healthiness_checks_failed, 2);
    hand(&mut runtime, good);
    assert_eq!(handler(&runtime, "a").healthiness_checks_failed, 0);
}

#[test]
fn events_that_are_not_accepted() {
    let mut service = named("a");
    service.restart.backoff = Duration::new(u64::MAX, 999_999_999);
    service.restart.attempts = 5;
    let mut runtime = runtime_of(vec![service]);
    for ev in vec![
        Event::ServiceExited(text("x"), 0),
        Event::Run(text("x")),
        Event::SpawnFailed(text("x")),
        Event::Kill(text("x")),
        Event::ForceKill(text("x")),
        Event::PidChanged(text("x"), Pid::from_raw(1)),
        Event::HealthCheck(text("x"), HealthinessStatus::Healthy),
        // It has no process.
        Event::ServiceExited(text("a"), 0),
    ] {
        assert!(!runtime.accepts_event(&ev, true), "{:?}", ev);
        assert!(!runtime.needs_preparation(&Event::Run(text("x"))));
    }
    assert!(runtime.accepts_event(&status("x", ServiceStatus::Failed), true));
    assert_eq!(
        hand(&mut runtime, status("a", ServiceStatus::Failed)),
        answer(vec![], None)
    );
    // One failed start can be delayed that long, two cannot.
    for _ in 0..2 {
        let ev = Event::Run(text("a"));
        assert!(runtime.accepts_event(&ev, true));
        hand(&mut runtime, Event::PidChanged(text("a"), Pid::from_raw(1)));
        hand(&mut runtime, Event::ServiceExited(text("a"), 1));
    }
    assert_eq!(handler(&runtime, "a").restart_attempts, 2);
    assert!(!runtime.accepts_event(&Event::Run(text("a")), true));
    assert!(runtime.accepts_event(&Event::Run(text("a")), false));
}

#[test]
fn shutting_down_takes_steps() {
    let mut runtime = runtime_of(vec![named("a"), named("b"), named("c")]);
    hand(&mut runtime, Event::PidChanged(text("b"), Pid::from_raw(2)));
    hand(&mut runtime, Event::SpawnFailed(text("c")));
    hand(&mut runtime, Event::ShuttingDownInitiated);
    let exited = Event::ServiceExited(text("b"), 0);
    assert_eq!(
        runtime.advance(vec![exited.clone()]),
        vec![
            status("a", ServiceStatus::Finished),
            status("b", ServiceStatus::InKilling),
            Event::Kill(text("b")),
            status("c", ServiceStatus::FinishedFailed),
            exited.clone(),
        ]
    );
    assert!(!runtime.all_have_finished());
    hand(&mut runtime, exited);
    assert_eq!(
        runtime.advance(vec![]),
        vec![status("b", ServiceStatus::Finished)]
    );
    assert!(runtime.all_have_finished());
}

#[test]
fn polling_publishing_and_finishing() {
    let (bus, sent, incoming) = connected();
    let mut runtime = Runtime::new(bus, vec![named("a")]);
    incoming.send(Event::Run(text("a"))).unwrap();
    assert_eq!(runtime.poll(false), Ok(vec![Event::Run(text("a"))]));
    assert!(sent.try_recv().is_err());
    assert_eq!(runtime.poll(true), Ok(vec![]));
    assert_eq!(sent.try_recv(), Ok(Event::ShuttingDownInitiated));
    let produced = vec![Event::Run(text("a"))];
    let next = vec![Event::Kill(text("a"))];
    assert_eq!(runtime.publish(produced, next), Ok(()));
    let got: Vec<Event> = sent.try_iter().collect();
    assert_eq!(got, vec![Event::Run(text("a")), Event::Kill(text("a"))]);
    assert_eq!(runtime.bus().send_event(Event::Run(text("z"))), Ok(()));
    assert_eq!(sent.try_recv(), Ok(Event::Run(text("z"))));

    hand(&mut runtime, Event::ShuttingDownInitiated);
    assert_eq!(runtime.poll(true), Ok(vec![]));
    assert!(sent.try_recv().is_err());
    assert_eq!(runtime.finish(), Ok(ExitStatus::Successful));
    assert_eq!(sent.try_recv(), Ok(Event::ShuttingDownInitiated));
    hand(&mut runtime, Event::SpawnFailed(text("a")));
    runtime.advance(vec![]);
    assert_eq!(runtime.finish(), Ok(ExitStatus::SomeServiceFailed));
}

#[test]
fn a_bus_that_is_gone() {
    let (bus, sent, _incoming) = connected();
    drop(sent);
    let mut runtime = Runtime::new(bus, vec![]);
    assert!(runtime.all_have_finished());
    assert_eq!(runtime.poll(true), Err(Event::ShuttingDownInitiated));
    assert_eq!(
        runtime.publish(vec![Event::Run(text("a"))], vec![Event::Run(text("b"))]),
        Err(Event::Run(text("a")))
    );
    assert_eq!(runtime.finish(), Err(Event::ShuttingDownInitiated));
}

#[test]
fn the_last_definition_counts() {
    let mut second = named("a");
    second.restart.attempts = 7;
    let runtime = runtime_of(vec![named("a"), named("b"), second]);
    let names: Vec<&str> = runtime.services().iter().map(|sh| sh.name().as_str()).collect();
    assert_eq!(names, vec!["a", "b"]);
    assert_eq!(handler(&runtime, "a").service.restart.attempts, 7);
}

#[test]
fn only_the_init_system_stops_everything() {
    let all = Pid::from_raw(-1);
    assert_eq!(
        final_signals(Pid::from_raw(1)),
        vec![
            Action::Signal(all, TerminationSignal::TERM),
            Action::Signal(all, TerminationSignal::KILL)
        ]
    );
    assert_eq!(final_signals(Pid::from_raw(2)), vec![]);
    assert_eq!(final_signals(all), vec![]);
}
