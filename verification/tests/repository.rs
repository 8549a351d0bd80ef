use crossbeam::channel::{unbounded, Receiver, Sender};
use horust::bus::BusConnector;
use horust::formats::{Event, Pid, Service, ServiceStatus};
use horust::repository::ServiceRepository;
use horust::service_handler::ServiceHandler;

struct Wires {
    sent: Receiver<Event>,
    incoming: Sender<Event>,
}

fn repository(names: &[&str]) -> (ServiceRepository, Wires) {
    let (to_bus, sent) = unbounded();
    let (incoming, from_bus) = unbounded();
    let services: Vec<Service> = names.iter().map(|n| Service::from_name(n)).collect();
    let repo = ServiceRepository::new(services, BusConnector::new(to_bus, from_bus));
    (repo, Wires { sent, incoming })
}

fn statuses(repo: &ServiceRepository) -> Vec<ServiceStatus> {
    repo.services.iter().map(|sh| sh.status).collect()
}

fn status(name: &str, status: ServiceStatus) -> Event {
    Event::new_status_changed(&name.to_string(), status)
}

fn sent(wires: &Wires) -> Vec<Event> {
    wires.sent.try_iter().collect()
}

#[test]
fn new_takes_services_and_handlers() {
    let (repo, _wires) = repository(&["a", "b"]);
    assert_eq!(repo.services.len(), 2);
    assert_eq!(repo.services[1].name(), "b");
    assert_eq!(statuses(&repo), vec![ServiceStatus::Initial; 2]);

    let (to_bus, _sent) = unbounded();
    let (_incoming, from_bus) = unbounded();
    let mut sh = ServiceHandler::from(Service::from_name("c"));
    sh.set_status(ServiceStatus::Running);
    let repo = ServiceRepository::new(vec![sh], BusConnector::new(to_bus, from_bus));
    assert_eq!(statuses(&repo), vec![ServiceStatus::Running]);
}

#[test]
fn update_status_changes_and_tells() {
    let (mut repo, wires) = repository(&["a", "b", "a"]);
    assert_eq!(repo.update_status("a", ServiceStatus::Running), Ok(()));
    assert_eq!(
        statuses(&repo),
        vec![
            ServiceStatus::Running,
            ServiceStatus::Initial,
            ServiceStatus::Running
        ]
    );
    assert_eq!(
        sent(&wires),
        vec![
            status("a", ServiceStatus::Running),
            status("a", ServiceStatus::Running)
        ]
    );
    assert_eq!(repo.update_status("nobody", ServiceStatus::Failed), Ok(()));
    assert!(sent(&wires).is_empty());
}

#[test]
fn update_pid_changes_and_tells() {
    let (mut repo, wires) = repository(&["a", "b"]);
    let pid = Pid::from_raw(42);
    assert_eq!(repo.update_pid("b".to_string(), pid), Ok(()));
    assert_eq!(repo.services[0].pid(), None);
    assert_eq!(repo.services[1].pid(), Some(pid));
    assert_eq!(repo.services[1].status, ServiceStatus::Initial);
    assert_eq!(sent(&wires), vec![Event::PidChanged("b".to_string(), pid)]);
}

#[test]
fn updates_that_cannot_be_sent_come_back() {
    let (mut repo, wires) = repository(&["a"]);
    drop(wires.sent);
    assert_eq!(
        repo.update_status("a", ServiceStatus::Running),
        Err(status("a", ServiceStatus::Running))
    );
    assert_eq!(
        repo.update_pid("a".to_string(), Pid::from_raw(1)),
        Err(Event::PidChanged("a".to_string(), Pid::from_raw(1)))
    );
    assert_eq!(
        repo.update_status_by_exit_code(Pid::from_raw(1), 1),
        Err(status("a", ServiceStatus::Failed))
    );
    assert_eq!(
        repo.mutate_service_status(|sh| Some(sh)),
        Err(status("a", ServiceStatus::Failed))
    );
    assert_eq!(repo.update_status_by_exit_code(Pid::from_raw(2), 1), Ok(false));
}

#[test]
fn exit_code_decides_the_status() {
    let (mut repo, wires) = repository(&["a", "b", "c"]);
    let pid = Pid::from_raw(9);
    repo.services[1].set_pid(pid);
    repo.services[2].set_pid(pid);
    assert_eq!(repo.update_status_by_exit_code(pid, 0), Ok(true));
    assert_eq!(
        statuses(&repo),
        vec![
            ServiceStatus::Initial,
            ServiceStatus::Success,
            ServiceStatus::Initial
        ]
    );
    assert_eq!(sent(&wires), vec![status("b", ServiceStatus::Success)]);
    assert_eq!(repo.update_status_by_exit_code(pid, 2), Ok(true));
    assert_eq!(repo.services[1].status, ServiceStatus::Failed);
    assert_eq!(
        repo.update_status_by_exit_code(Pid::from_raw(10), 0),
        Ok(false)
    );
    let failed: Vec<&str> = repo.get_failed().iter().map(|sh| sh.name().as_str()).collect();
    assert_eq!(failed, vec!["b"]);
}

#[test]
fn updates_are_consumed_by_the_first_of_the_name() {
    let (mut repo, wires) = repository(&["a", "b", "a"]);
    repo.update_from_events(vec![
        status("a", ServiceStatus::Started),
        Event::PidChanged("b".to_string(), Pid::from_raw(3)),
        status("nobody", ServiceStatus::Failed),
        Event::ShuttingDownInitiated,
        Event::Kill("b".to_string()),
        status("a", ServiceStatus::Running),
    ]);
    assert_eq!(
        statuses(&repo),
        vec![
            ServiceStatus::Running,
            ServiceStatus::Initial,
            ServiceStatus::Initial
        ]
    );
    assert_eq!(repo.services[1].pid(), Some(Pid::from_raw(3)));
    assert_eq!(repo.services[0].pid(), None);
    assert!(sent(&wires).is_empty());
}

#[test]
fn ingest_takes_in_what_has_come() {
    let (mut repo, wires) = repository(&["a"]);
    repo.ingest("test");
    assert_eq!(statuses(&repo), vec![ServiceStatus::Initial]);
    wires
        .incoming
        .send(status("a", ServiceStatus::Starting))
        .unwrap();
    wires
        .incoming
        .send(Event::PidChanged("a".to_string(), Pid::from_raw(5)))
        .unwrap();
    repo.ingest("test");
    assert_eq!(statuses(&repo), vec![ServiceStatus::Starting]);
    assert_eq!(repo.services[0].pid(), Some(Pid::from_raw(5)));
    // All of it was taken in.
    repo.services[0].set_status(ServiceStatus::Running);
    repo.ingest("another");
    assert_eq!(statuses(&repo), vec![ServiceStatus::Running]);
}

#[test]
fn copies_follow_each_other() {
    let (mut one, wires) = repository(&["a", "b"]);
    let mut other = one.clone();
    assert_eq!(one.update_status("b", ServiceStatus::Running), Ok(()));
    assert_eq!(one.update_pid("a".to_string(), Pid::from_raw(8)), Ok(()));
    assert_eq!(one.update_status_by_exit_code(Pid::from_raw(8), 1), Ok(true));
    let updates = sent(&wires);
    other.update_from_events(updates.clone());
    assert_eq!(statuses(&other), statuses(&one));
    assert_eq!(other.services[0].pid(), one.services[0].pid());
    let before = statuses(&one);
    one.update_from_events(updates);
    assert_eq!(statuses(&one), before);
}

#[test]
fn what_is_to_be_run_and_what_has_finished() {
    let (mut repo, _wires) = repository(&["a", "b"]);
    assert!(!repo.is_any_service_to_be_run());
    assert!(!repo.all_finished());
    repo.services[1].set_status(ServiceStatus::ToBeRun);
    assert!(repo.is_any_service_to_be_run());
    repo.services[0].set_status(ServiceStatus::Finished);
    repo.services[1].set_status(ServiceStatus::Failed);
    assert!(repo.all_finished());
    repo.services[1].set_status(ServiceStatus::FinishedFailed);
    assert!(!repo.all_finished());
    let (empty, _wires) = repository(&[]);
    assert!(empty.all_finished());
    assert!(!empty.is_any_service_to_be_run());
}

#[test]
fn runnable_services() {
    let (mut repo, _wires) = repository(&["a", "b", "c", "d"]);
    repo.services[0].set_status(ServiceStatus::Running);
    repo.services[1].service.start_after = vec!["nobody".to_string(), "a".to_string()];
    repo.services[1].set_status(ServiceStatus::Failed);
    repo.services[2].service.start_after = vec!["b".to_string()];
    repo.services[2].set_status(ServiceStatus::ToBeRun);
    let names = |repo: &ServiceRepository| -> Vec<String> {
        repo.get_runnable_services()
            .iter()
            .map(|sh| sh.name().clone())
            .collect()
    };
    // `a` has been started and waits for nothing, `b` waits for something that is up, `c` for
    // something that is not, and `d` has not been started.
    assert_eq!(names(&repo), vec!["b".to_string(), "d".to_string()]);
    repo.services[1].set_status(ServiceStatus::Finished);
    assert_eq!(
        names(&repo),
        vec!["b".to_string(), "c".to_string(), "d".to_string()]
    );
}

#[test]
fn mutate_tells_of_what_is_handed_back() {
    let (mut repo, wires) = repository(&["a", "b", "c"]);
    let mut seen = 0;
    let res = repo.mutate_service_status(|sh| {
        seen += 1;
        if sh.name() == "b" {
            sh.status = ServiceStatus::Started;
            return None;
        }
        sh.status = ServiceStatus::Running;
        Some(sh)
    });
    assert_eq!(res, Ok(()));
    assert_eq!(seen, 3);
    assert_eq!(
        statuses(&repo),
        vec![
            ServiceStatus::Running,
            ServiceStatus::Started,
            ServiceStatus::Running
        ]
    );
    assert_eq!(
        sent(&wires),
        vec![
            status("a", ServiceStatus::Running),
            status("c", ServiceStatus::Running)
        ]
    );
}

#[test]
fn mutate_tells_before_it_goes_on() {
    let (mut repo, wires) = repository(&["a", "b"]);
    let mut seen: Vec<Vec<Event>> = Vec::new();
    let res = repo.mutate_service_status(|sh| {
        seen.push(sent(&wires));
        sh.status = ServiceStatus::Running;
        Some(sh)
    });
    assert_eq!(res, Ok(()));
    let first = vec![status("a", ServiceStatus::Running)];
    assert_eq!(seen, vec![vec![], first]);
    assert_eq!(sent(&wires), vec![status("b", ServiceStatus::Running)]);
}

#[test]
fn mutate_stops_where_nobody_listens() {
    let (mut repo, wires) = repository(&["a", "b", "c"]);
    let mut listener = Some(wires.sent);
    let res = repo.mutate_service_status(|sh| {
        if sh.name() == "b" {
            listener = None;
        }
        sh.status = ServiceStatus::Running;
        Some(sh)
    });
    assert_eq!(res, Err(status("b", ServiceStatus::Running)));
    assert_eq!(
        statuses(&repo),
        vec![
            ServiceStatus::Running,
            ServiceStatus::Running,
            ServiceStatus::Initial
        ]
    );
    assert!(listener.is_none());
}

#[test]
fn updates_stop_where_nobody_listens() {
    let (mut repo, wires) = repository(&["b", "a", "a"]);
    drop(wires.sent);
    assert_eq!(
        repo.update_status("a", ServiceStatus::Running),
        Err(status("a", ServiceStatus::Running))
    );
    assert_eq!(
        statuses(&repo),
        vec![
            ServiceStatus::Initial,
            ServiceStatus::Running,
            ServiceStatus::Initial
        ]
    );
    assert_eq!(repo.update_status("nobody", ServiceStatus::Failed), Ok(()));
}
