use crossbeam::channel::unbounded;
use horust::bus::{Bus, BusConnector};
use horust::formats::{Event, Pid, ServiceStatus};

fn status(name: &str, status: ServiceStatus) -> Event {
    Event::new_status_changed(&name.to_string(), status)
}

#[test]
fn connector_sends_and_receives() {
    let (to_bus, bus_end) = unbounded();
    let (from_bus, own_end) = unbounded();
    let mut connector = BusConnector::new(to_bus, own_end);
    let ev = Event::PidChanged("a".to_string(), Pid::from_raw(7));
    assert_eq!(connector.send_event(ev.clone()), Ok(()));
    assert_eq!(bus_end.recv(), Ok(ev));

    from_bus.send(Event::Run("a".to_string())).unwrap();
    from_bus.send(Event::Kill("a".to_string())).unwrap();
    assert_eq!(
        connector.get_events_blocking(),
        Some(Event::Run("a".to_string()))
    );
    from_bus.send(Event::ForceKill("a".to_string())).unwrap();
    assert_eq!(
        connector.try_get_events(),
        vec![
            Event::Kill("a".to_string()),
            Event::ForceKill("a".to_string())
        ]
    );
    assert!(connector.try_get_events().is_empty());
}

#[test]
fn connector_hands_back_what_it_cannot_send() {
    let (to_bus, bus_end) = unbounded();
    let (from_bus, own_end) = unbounded();
    let mut connector = BusConnector::new(to_bus, own_end);
    drop(bus_end);
    drop(from_bus);
    assert_eq!(
        connector.send_event(Event::ShuttingDownInitiated),
        Err(Event::ShuttingDownInitiated)
    );
    assert_eq!(
        connector.send_events(&vec![
            Event::Run("a".to_string()),
            Event::Run("b".to_string())
        ]),
        Err(Event::Run("a".to_string()))
    );
    assert_eq!(connector.get_events_blocking(), None);
}

#[test]
fn connector_sends_in_order() {
    let (to_bus, bus_end) = unbounded();
    let (_from_bus, own_end) = unbounded();
    let mut connector = BusConnector::new(to_bus, own_end);
    let evs = vec![
        status("a", ServiceStatus::Started),
        status("a", ServiceStatus::Running),
        Event::ShuttingDownInitiated,
    ];
    assert_eq!(connector.send_events(&evs), Ok(()));
    let got: Vec<Event> = bus_end.try_iter().collect();
    assert_eq!(got, evs);
}

#[test]
fn clones_share_their_channels() {
    let (to_bus, bus_end) = unbounded();
    let (from_bus, own_end) = unbounded();
    let mut connector = BusConnector::new(to_bus, own_end);
    let mut copy = connector.clone();
    assert_eq!(copy.send_event(Event::ShuttingDownInitiated), Ok(()));
    assert_eq!(bus_end.recv(), Ok(Event::ShuttingDownInitiated));
    from_bus.send(Event::ShuttingDownInitiated).unwrap();
    assert_eq!(copy.try_get_events(), vec![Event::ShuttingDownInitiated]);
    assert!(connector.try_get_events().is_empty());
}

#[test]
fn every_connector_gets_every_event() {
    let mut bus = Bus::new();
    let mut a = bus.join_bus();
    let mut b = bus.join_bus();
    let ev = Event::Run("x".to_string());
    assert_eq!(bus.broadcast(&ev), vec![true, true]);
    assert_eq!(a.get_events_blocking(), Some(ev.clone()));
    assert_eq!(b.try_get_events(), vec![ev]);
    assert!(a.try_get_events().is_empty());
}

#[test]
fn broadcast_tells_who_is_gone() {
    let mut bus = Bus::new();
    let mut a = bus.join_bus();
    let gone = bus.join_bus();
    let mut b = bus.join_bus();
    drop(gone);
    let ev = status("x", ServiceStatus::Failed);
    let delivered = bus.broadcast(&ev);
    assert_eq!(delivered, vec![true, false, true]);
    bus.retain_delivered(&delivered);
    assert_eq!(bus.broadcast(&ev), vec![true, true]);
    assert_eq!(a.try_get_events(), vec![ev.clone(), ev.clone()]);
    assert_eq!(b.try_get_events(), vec![ev.clone(), ev]);
}

#[test]
fn dispatch_ends_when_no_connector_is_left() {
    let mut bus = Bus::new();
    let mut a = bus.join_bus();
    let b = bus.join_bus();
    assert_eq!(a.send_event(Event::ShuttingDownInitiated), Ok(()));
    drop(a);
    drop(b);
    bus.dispatch();
    assert!(bus.broadcast(&Event::ShuttingDownInitiated).is_empty());
}

#[test]
fn run_ends_when_no_connector_is_left() {
    let mut bus = Bus::new();
    let mut a = bus.join_bus();
    assert_eq!(a.send_event(Event::Run("x".to_string())), Ok(()));
    assert_eq!(a.send_event(Event::Run("y".to_string())), Ok(()));
    drop(a);
    bus.run();
}

#[test]
fn retain_delivered_drops_the_unreachable() {
    let mut bus = Bus::new();
    let mut a = bus.join_bus();
    let mut b = bus.join_bus();
    let mut c = bus.join_bus();
    bus.retain_delivered(&vec![true, false, true]);
    // The channel of `b` has no sender left, those of the others do.
    assert_eq!(b.get_events_blocking(), None);
    assert_eq!(bus.broadcast(&Event::ShuttingDownInitiated), vec![true, true]);
    assert_eq!(a.try_get_events(), vec![Event::ShuttingDownInitiated]);
    assert_eq!(c.try_get_events(), vec![Event::ShuttingDownInitiated]);
    bus.retain_delivered(&vec![false, true]);
    assert_eq!(a.get_events_blocking(), None);
    bus.retain_delivered(&vec![true]);
    assert_eq!(bus.broadcast(&Event::ShuttingDownInitiated), vec![true]);
}

#[test]
fn dispatch_ends_at_once_where_nobody_has_joined() {
    let mut bus = Bus::new();
    bus.dispatch();
    bus.run();
}

#[test]
fn events_come_once_and_in_order() {
    let mut bus = Bus::new();
    let mut a = bus.join_bus();
    let gone = bus.join_bus();
    let mut b = bus.join_bus();
    drop(gone);
    let evs = vec![
        Event::Run("x".to_string()),
        status("x", ServiceStatus::Started),
        Event::Run("x".to_string()),
    ];
    for ev in &evs {
        let delivered = bus.broadcast(ev);
        bus.retain_delivered(&delivered);
    }
    assert_eq!(a.try_get_events(), evs);
    assert_eq!(b.try_get_events(), evs);
}

#[test]
fn a_new_connector_has_a_queue_of_its_own() {
    let mut bus = Bus::new();
    let mut a = bus.join_bus();
    assert!(a.try_get_events().is_empty());
    bus.broadcast(&Event::ShuttingDownInitiated);
    let mut b = bus.join_bus();
    assert!(b.try_get_events().is_empty());
    assert_eq!(a.try_get_events(), vec![Event::ShuttingDownInitiated]);
}
