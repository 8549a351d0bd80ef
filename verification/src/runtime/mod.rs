//! The runtime: moves the services through their lives.

pub mod answers;
pub mod behaviour;
pub mod laws;
pub mod model;
pub mod repo;

use crate::bus::came_in;
use crate::bus::published;
use crate::bus::refused;
use crate::bus::send_refused;
use crate::bus::BusConnector;
use crate::clock;
use crate::clock::duration_nanos;
use crate::clock::elapsed_returned;
use crate::clock::now_returned;
use crate::formats::event_views;
use crate::formats::name_views;
use crate::formats::Event;
use crate::formats::EventView;
use crate::formats::ExitStatus;
use crate::formats::FailureStrategy;
use crate::formats::HealthinessStatus;
use crate::formats::Pid;
use crate::formats::RestartStrategy;
use crate::formats::Service;
use crate::formats::ServiceName;
use crate::formats::ServiceStatus;
use crate::formats::TerminationSignal;
use crate::service_handler::handler_views;
use crate::service_handler::ServiceHandler;
use crate::service_handler::ServiceHandlerView;
use laws::law_needs_are_applicable;
use model::accepts;
use model::after_changes;
use model::all_needs;
use model::allowed_from;
use model::applicable;
use model::exit_status;
use model::failure_events;
use model::force_kill_due;
use model::handled;
use model::is_target;
use model::kill_each;
use model::last_signals;
use model::needs;
use model::needs_of_first;
use model::needs_shutting_down;
use model::next_needs;
use model::restart_status;
use model::signal_to;
use model::status_changed;
use model::ActionView;
use model::HandledView;
use model::RuntimeView;
use repo::all_finished;
use repo::collected;
use repo::known;
use repo::lemma_update_keeps_names;
use repo::position;
use repo::Repo;
use repo::RepoView;
use std::time::Duration;
use std::time::Instant;
use vstd::prelude::*;

verus! {

/// Something that has to be done outside of the runtime.
#[derive(Debug, PartialEq, Eq)]
pub enum Action {
    /// Start the process of this service, after this delay.
    Spawn(ServiceName, Duration),
    /// Send this signal to this process.
    Signal(Pid, TerminationSignal),
}

impl View for Action {
    type V = ActionView;

    open spec fn view(&self) -> ActionView {
        match *self {
            Action::Spawn(name, delay) => ActionView::Spawn(name@, duration_nanos(delay)),
            Action::Signal(pid, signal) => ActionView::Signal(pid@, signal),
        }
    }
}

/// How an event is answered.
#[derive(Debug, PartialEq, Eq)]
pub struct Handled {
    /// The events to be dispatched.
    pub events: Vec<Event>,
    /// What has to be done.
    pub action: Option<Action>,
}

impl View for Handled {
    type V = HandledView;

    open spec fn view(&self) -> HandledView {
        HandledView {
            events: event_views(self.events@),
            action: match self.action {
                Some(action) => Some(action@),
                None => None,
            },
        }
    }
}

/// The services, and whether they are to be shut down.
#[derive(Debug)]
pub struct Runtime {
    is_shutting_down: bool,
    repo: Repo,
}

impl View for Runtime {
    type V = RuntimeView;

    closed spec fn view(&self) -> RuntimeView {
        RuntimeView { is_shutting_down: self.is_shutting_down, repo: self.repo@ }
    }
}

/// Whether a status change may lead from one status to another.
fn is_allowed(from: ServiceStatus, to: ServiceStatus) -> (allowed: bool)
    ensures
        allowed == allowed_from(to).contains(from),
{
    match to {
        ServiceStatus::Initial => matches!(from, ServiceStatus::Success | ServiceStatus::Failed),
        ServiceStatus::Started => matches!(from, ServiceStatus::Starting),
        ServiceStatus::InKilling => matches!(
            from,
            ServiceStatus::Initial | ServiceStatus::Running | ServiceStatus::Starting
                | ServiceStatus::Started
        ),
        ServiceStatus::Running => matches!(from, ServiceStatus::Started),
        ServiceStatus::FinishedFailed => matches!(
            from,
            ServiceStatus::Failed | ServiceStatus::InKilling
        ),
        ServiceStatus::Success | ServiceStatus::Failed => matches!(
            from,
            ServiceStatus::Starting | ServiceStatus::Started | ServiceStatus::Running
                | ServiceStatus::InKilling
        ),
        ServiceStatus::Finished => matches!(from, ServiceStatus::Success | ServiceStatus::Initial),
        ServiceStatus::Starting | ServiceStatus::ToBeRun => false,
    }
}

/// Handles the status changed event.
pub fn handle_status_changed_event(
    service_handler: ServiceHandler,
    new_status: &ServiceStatus,
) -> (new_sh: ServiceHandler)
    requires
        is_target(*new_status),
    ensures
        new_sh@ == status_changed(service_handler@, *new_status),
{
    let mut new_sh = service_handler;
    if is_allowed(new_sh.status, *new_status) {
        match *new_status {
            ServiceStatus::Started => {
                new_sh.status = ServiceStatus::Started;
                new_sh.restart_attempts = 0;
            },
            ServiceStatus::Running => {
                new_sh.status = ServiceStatus::Running;
                new_sh.healthiness_checks_failed = 0;
            },
            ServiceStatus::InKilling => {
                if new_sh.status == ServiceStatus::Initial {
                    new_sh.status = ServiceStatus::Success;
                } else {
                    new_sh.status = ServiceStatus::InKilling;
                }
            },
            _ => {
                new_sh.status = *new_status;
            },
        }
    }
    new_sh
}

/// The requests to kill some services.
fn kill_requests(names: &Vec<ServiceName>) -> (evs: Vec<Event>)
    ensures
        event_views(evs@) == kill_each(name_views(names@)),
{
    let mut evs: Vec<Event> = Vec::new();
    for i in 0..names.len()
        invariant
            evs@.len() == 2 * i,
            forall|j: int|
                0 <= j < evs@.len() ==> #[trigger] evs@[j]@ == kill_each(name_views(names@))[j],
    {
        evs.push(Event::new_status_changed(&names[i], ServiceStatus::InKilling));
        evs.push(Event::Kill(names[i].clone()));
    }
    assert(event_views(evs@) =~= kill_each(name_views(names@)));
    evs
}

/// Produce events based on the restart strategy of the service.
pub fn handle_restart_strategy(service: &Service, is_failed: bool) -> (ev: Event)
    ensures
        ev@ == EventView::StatusChanged(
            service@.name,
            restart_status(service@.restart.strategy, is_failed),
        ),
{
    let status = match service.restart.strategy {
        RestartStrategy::Never => if is_failed {
            ServiceStatus::FinishedFailed
        } else {
            ServiceStatus::Finished
        },
        RestartStrategy::OnFailure => if is_failed {
            ServiceStatus::Initial
        } else {
            ServiceStatus::Finished
        },
        RestartStrategy::Always => ServiceStatus::Initial,
    };
    Event::new_status_changed(&service.name, status)
}

/// This is applied to both failed and FinishedFailed services.
pub fn handle_failed_service(deps: Vec<ServiceName>, failed_sh: &Service) -> (evs: Vec<Event>)
    ensures
        event_views(evs@) == failure_events(failed_sh@.failure.strategy, name_views(deps@)),
{
    let evs = match failed_sh.failure.strategy {
        FailureStrategy::Shutdown => vec![Event::ShuttingDownInitiated],
        FailureStrategy::KillDependents => kill_requests(&deps),
        FailureStrategy::Ignore => vec![],
    };
    assert(event_views(evs@) =~= failure_events(failed_sh@.failure.strategy, name_views(deps@)));
    evs
}

/// Check if we've waited enough for the service to exit, where so much time has passed since
/// it was asked to.
pub fn should_force_kill_after(service_handler: &ServiceHandler, elapsed: Duration) -> (due: bool)
    ensures
        due == force_kill_due(service_handler@, elapsed),
{
    if service_handler.pid.is_none() {
        // Since it was in the started state, it doesn't have a pid yet.
        // Let's give it the time to start and exit.
        return false;
    }
    if service_handler.shutting_down_start.is_none() {
        // this might happen, because InKilling state is emitted before the Kill event.
        // So maybe the runtime has received only the InKilling state change, but hasn't sent the
        // signal yet. So it should be fine.
        return false;
    }
    elapsed.as_secs() > service_handler.service().termination.wait.as_secs()
}

/// Check if we've waited enough for the service to exit.
pub fn should_force_kill(service_handler: &ServiceHandler) -> (due: bool)
    ensures
        overdue_now(service_handler@, due),
{
    match service_handler.shutting_down_start {
        Some(start) => {
            let elapsed = clock::elapsed(&start);
            should_force_kill_after(service_handler, elapsed)
        },
        None => false,
    }
}

/// The signal that a service has to be sent, if it has a process. By default it is the signal
/// defined in the termination section of the service.
pub fn kill(sh: &ServiceHandler, signal: Option<TerminationSignal>) -> (action: Option<Action>)
    ensures
        match action {
            Some(a) => Some(a@),
            None => None,
        } == signal_to(
            sh@,
            match signal {
                Some(s) => s,
                None => sh@.service.termination.signal,
            },
        ),
{
    let signal = match signal {
        Some(s) => s,
        None => sh.service().termination.signal,
    };
    match sh.pid() {
        Some(pid) => Some(Action::Signal(pid, signal)),
        None => None,
    }
}

impl Runtime {
    /// No two services have the same name.
    pub open spec fn wf(self) -> bool {
        repo::distinct(self@.repo.services)
    }

    /// A runtime for these services, none of them started.
    pub fn new(bus: BusConnector, services: Vec<Service>) -> (runtime: Self)
        ensures
            runtime.wf(),
            !runtime@.is_shutting_down,
            runtime@.repo.services == collected(Seq::new(services@.len(), |i: int| services@[i]@)),
            runtime@.repo.pids == Map::<i32, Seq<char>>::empty(),
            runtime@.repo.bus == bus@,
    {
        let repo = Repo::new(bus, services);
        Self { repo, is_shutting_down: false }
    }

    /// Generates events that, if applied, will make the service's state machine progress, where
    /// it is known whether the service has waited long enough to be killed.
    pub fn next_given(&self, service_handler: &ServiceHandler, overdue: bool) -> (evs: Vec<Event>)
        ensures
            event_views(evs@) == next_needs(self@, service_handler@, overdue),
    {
        if self.is_shutting_down {
            next_events_shutting_down_given(service_handler, overdue)
        } else {
            self.next_events_given(service_handler, overdue)
        }
    }

    /// Generates the events needed for moving forward the service's state machine, where it is
    /// known whether the service has waited long enough to be killed. If the system is shutting
    /// down, they are those of `next_events_shutting_down_given`.
    pub fn next_events_given(&self, service_handler: &ServiceHandler, overdue: bool) -> (evs: Vec<
        Event,
    >)
        ensures
            event_views(evs@) == next_needs(self@, service_handler@, overdue),
    {
        if self.is_shutting_down {
            return next_events_shutting_down_given(service_handler, overdue);
        }
        let name = service_handler.name();
        let ghost expected = needs(self@.repo, service_handler@, overdue);
        let evs = match service_handler.status {
            ServiceStatus::Initial => {
                if self.repo.is_service_runnable(service_handler) {
                    vec![Event::Run(name.clone())]
                } else {
                    vec![]
                }
            },
            ServiceStatus::Started => {
                if service_handler.healthiness_checks_failed == 0 {
                    vec![Event::new_status_changed(name, ServiceStatus::Running)]
                } else {
                    vec![]
                }
            },
            ServiceStatus::Running => {
                if service_handler.healthiness_checks_failed > 2 {
                    vec![
                        Event::new_status_changed(name, ServiceStatus::InKilling),
                        Event::Kill(name.clone()),
                    ]
                } else {
                    vec![]
                }
            },
            ServiceStatus::Success => vec![
                handle_restart_strategy(service_handler.service(), false),
            ],
            ServiceStatus::Failed => {
                let mut failure_evs = handle_failed_service(
                    self.repo.get_dependents(name),
                    service_handler.service(),
                );
                let ghost failures = event_views(failure_evs@);
                let mut other_services_termination = kill_requests(
                    &self.repo.get_die_if_failed(name),
                );
                let ghost others = event_views(other_services_termination@);
                let service_ev = handle_restart_strategy(service_handler.service(), true);
                let ghost own = service_ev@;
                failure_evs.push(service_ev);
                failure_evs.append(&mut other_services_termination);
                assert(event_views(failure_evs@) =~= failures.push(own) + others);
                failure_evs
            },
            // Nothing further will happen to the service, but the others are still concerned.
            ServiceStatus::FinishedFailed => handle_failed_service(
                self.repo.get_dependents(name),
                service_handler.service(),
            ),
            ServiceStatus::InKilling => {
                if overdue {
                    vec![
                        Event::new_force_kill(name),
                        Event::new_status_changed(name, ServiceStatus::Failed),
                    ]
                } else {
                    vec![]
                }
            },
            _ => vec![],
        };
        assert(event_views(evs@) =~= expected);
        evs
    }

    /// Generates events that, if applied, will make the service's state machine progress.
    pub fn next(&self, service_handler: &ServiceHandler) -> (evs: Vec<Event>)
        ensures
            exists|overdue: bool|
                #[trigger] overdue_now(service_handler@, overdue) && event_views(evs@)
                    == next_needs(self@, service_handler@, overdue),
    {
        if self.is_shutting_down {
            next_events_shutting_down(service_handler)
        } else {
            self.next_events(service_handler)
        }
    }

    /// Generates the events needed for moving forward the service's state machine. If the
    /// system is shutting down, they are those of `next_events_shutting_down`.
    pub fn next_events(&self, service_handler: &ServiceHandler) -> (evs: Vec<Event>)
        ensures
            exists|overdue: bool|
                #[trigger] overdue_now(service_handler@, overdue) && event_views(evs@)
                    == next_needs(self@, service_handler@, overdue),
    {
        let overdue = should_force_kill(service_handler);
        self.next_events_given(service_handler, overdue)
    }
}

impl Runtime {
    /// Whether an event can be handled: the service that it is about is there, one that has
    /// exited has a process, and what has to be counted or delayed can be.
    pub fn accepts_event(&self, ev: &Event, prepared: bool) -> (accepted: bool)
        requires
            self.wf(),
        ensures
            accepted == accepts(self@, ev@, prepared),
    {
        match ev {
            Event::ServiceExited(name, exit_code) => {
                if self.repo.find(name).is_none() {
                    return false;
                }
                let sh = self.repo.get_sh(name);
                let fails_early = exit_has_failed(sh, *exit_code) && is_not_up_yet(sh);
                sh.pid.is_some() && (!fails_early || sh.restart_attempts < u32::MAX)
            },
            Event::Run(name) => {
                if self.repo.find(name).is_none() {
                    return false;
                }
                let sh = self.repo.get_sh(name);
                !sh.is_initial() || !prepared || sh.service().restart.backoff.checked_mul(
                    sh.restart_attempts,
                ).is_some()
            },
            Event::HealthCheck(name, health) => {
                if self.repo.find(name).is_none() {
                    return false;
                }
                let sh = self.repo.get_sh(name);
                !has_checks_counted(sh) || *health == HealthinessStatus::Healthy
                    || sh.healthiness_checks_failed < u32::MAX
            },
            Event::SpawnFailed(name) => self.repo.find(name).is_some(),
            Event::Kill(name) => self.repo.find(name).is_some(),
            Event::ForceKill(name) => self.repo.find(name).is_some(),
            Event::PidChanged(name, _) => self.repo.find(name).is_some(),
            Event::StatusChanged(_, _) => true,
            Event::ShuttingDownInitiated => true,
        }
    }

    /// Whether an event starts a service, whose healthiness checks have to be prepared then.
    pub fn needs_preparation(&self, ev: &Event) -> (needed: bool)
        requires
            self.wf(),
        ensures
            needed == (ev@ matches EventView::Run(name) && known(self@.repo.services, name)
                && self@.service(name).status == ServiceStatus::Initial),
    {
        match ev {
            Event::Run(name) => {
                if self.repo.find(name).is_some() {
                    self.repo.get_sh(name).is_initial()
                } else {
                    false
                }
            },
            _ => false,
        }
    }

    /// Handle the events, returns events (state changes) to be dispatched, where it is known
    /// what the clock shows.
    pub fn handle_event_at(&mut self, ev: Event, prepared: bool, now: Instant) -> (answer: Handled)
        requires
            old(self).wf(),
            accepts(old(self)@, ev@, prepared),
        ensures
            final(self).wf(),
            (final(self)@, answer@) == handled(old(self)@, ev@, prepared, now),
    {
        let ghost before = self@;
        let ghost expected = handled(before, ev@, prepared, now);
        proof {
            assert forall|name: Seq<char>, sh: ServiceHandlerView|
                known(before.repo.services, name) && sh.name() == name implies repo::distinct(
                #[trigger] before.with_service(name, sh).repo.services,
            ) by {
                lemma_update_keeps_names(
                    before.repo.services,
                    position(before.repo.services, name),
                    sh,
                );
            }
        }
        let answer = match ev {
            Event::ServiceExited(service_name, exit_code) => {
                let pid = self.repo.get_sh(&service_name).pid.unwrap();
                self.repo.remove_pid(pid);
                let service_handler = self.repo.get_mut_sh(&service_name);
                let failed = exit_has_failed(service_handler, exit_code);
                service_handler.shutting_down_start = None;
                service_handler.pid = None;
                if failed {
                    // If it has failed too quickly, increase service_handler's restart attempts
                    // and check if it has more attempts left.
                    if is_not_up_yet(service_handler) {
                        service_handler.restart_attempts = service_handler.restart_attempts + 1;
                        if service_handler.restart_attempts_are_over() {
                            //Game over!
                            service_handler.status = ServiceStatus::FinishedFailed;
                        } else {
                            service_handler.status = ServiceStatus::Initial;
                        }
                    } else {
                        // If wasn't starting, then it's just failed in a usual way:
                        service_handler.status = ServiceStatus::Failed;
                    }
                } else {
                    service_handler.status = ServiceStatus::Success;
                }
                let status = service_handler.status;
                Handled { events: vec![Event::StatusChanged(service_name, status)], action: None }
            },
            Event::Run(service_name) => {
                let service_handler = self.repo.get_mut_sh(&service_name);
                if service_handler.is_initial() {
                    if prepared {
                        let backoff = service_handler.service().restart.backoff.checked_mul(
                            service_handler.restart_attempts,
                        ).unwrap();
                        service_handler.status = ServiceStatus::Starting;
                        Handled {
                            events: vec![
                                Event::new_status_changed(&service_name, ServiceStatus::Starting),
                            ],
                            action: Some(Action::Spawn(service_name, backoff)),
                        }
                    } else {
                        service_handler.status = ServiceStatus::FinishedFailed;
                        self.is_shutting_down = true;
                        Handled {
                            events: vec![
                                Event::StatusChanged(service_name, ServiceStatus::FinishedFailed),
                                Event::ShuttingDownInitiated,
                            ],
                            action: None,
                        }
                    }
                } else {
                    Handled { events: vec![], action: None }
                }
            },
            Event::SpawnFailed(s_name) => {
                let service_handler = self.repo.get_mut_sh(&s_name);
                service_handler.status = ServiceStatus::Failed;
                Handled {
                    events: vec![Event::StatusChanged(s_name, ServiceStatus::Failed)],
                    action: None,
                }
            },
            Event::Kill(service_name) => {
                let service_handler = self.repo.get_mut_sh(&service_name);
                if service_handler.is_in_killing() {
                    service_handler.shutting_down_start = Some(now);
                    Handled { events: vec![], action: kill(service_handler, None) }
                } else {
                    Handled { events: vec![], action: None }
                }
            },
            Event::ForceKill(service_name) => {
                let service_handler = self.repo.get_mut_sh(&service_name);
                if service_handler.is_in_killing() {
                    let action = kill(service_handler, Some(TerminationSignal::KILL));
                    service_handler.status = ServiceStatus::Failed;
                    Handled {
                        events: vec![Event::StatusChanged(service_name, ServiceStatus::Failed)],
                        action,
                    }
                } else {
                    Handled { events: vec![], action: None }
                }
            },
            Event::PidChanged(service_name, pid) => {
                self.repo.add_pid(pid, service_name.clone());
                let service_handler = self.repo.get_mut_sh(&service_name);
                service_handler.pid = Some(pid);
                if service_handler.is_in_killing() {
                    // Ah! Gotcha!
                    service_handler.shutting_down_start = Some(now);
                    Handled { events: vec![], action: kill(service_handler, None) }
                } else {
                    service_handler.status = ServiceStatus::Started;
                    Handled {
                        events: vec![Event::StatusChanged(service_name, ServiceStatus::Started)],
                        action: None,
                    }
                }
            },
            Event::HealthCheck(s_name, health) => {
                let sh = self.repo.get_mut_sh(&s_name);
                // Count the failed healthiness checks. The state change producer will handle
                // states changes (if they're needed)
                if has_checks_counted(sh) {
                    if health == HealthinessStatus::Healthy {
                        sh.healthiness_checks_failed = 0;
                    } else {
                        sh.healthiness_checks_failed = sh.healthiness_checks_failed + 1;
                    }
                }
                Handled { events: vec![], action: None }
            },
            Event::ShuttingDownInitiated => {
                self.is_shutting_down = true;
                Handled { events: vec![], action: None }
            },
            Event::StatusChanged(_, _) => Handled { events: vec![], action: None },
        };
        assert(answer@ =~= expected.1);
        assert(self@ =~= expected.0);
        answer
    }

    /// Handle the events, returns events (state changes) to be dispatched. `prepared` tells
    /// whether the healthiness checks of a service that is to be started could be prepared.
    pub fn handle_event(&mut self, ev: Event, prepared: bool) -> (answer: Handled)
        requires
            old(self).wf(),
            accepts(old(self)@, ev@, prepared),
        ensures
            final(self).wf(),
            exists|now: Instant| #[trigger]
                now_returned(now) && (final(self)@, answer@) == handled(
                    old(self)@,
                    ev@,
                    prepared,
                    now,
                ),
    {
        let now = clock::now();
        self.handle_event_at(ev, prepared, now)
    }
}

/// The services have, or have not, waited long enough to be killed, as the clock shows.
pub open spec fn all_overdue_now(services: Seq<ServiceHandlerView>, overdue: Seq<bool>) -> bool {
    &&& overdue.len() == services.len()
    &&& forall|i: int|
        0 <= i < services.len() ==> overdue_now(#[trigger] services[i], overdue[i])
}

impl Runtime {
    /// The services that there are.
    pub fn services(&self) -> (services: &Vec<ServiceHandler>)
        ensures
            handler_views(services@) == self@.repo.services,
    {
        self.repo.services()
    }

    /// Whether the system is shutting down.
    pub fn is_shutting_down(&self) -> (res: bool)
        ensures
            res == self@.is_shutting_down,
    {
        self.is_shutting_down
    }

    /// Another connector to the bus.
    pub fn bus(&self) -> (bus: BusConnector)
        ensures
            bus@ == self@.repo.bus,
    {
        self.repo.bus()
    }

    /// The event that a process has exited with this code, if it ran for a service.
    pub fn exit_event(&self, pid: Pid, exit_code: i32) -> (ev: Option<Event>)
        ensures
            match ev {
                Some(e) => self@.repo.pids.dom().contains(pid@) && e@ == EventView::ServiceExited(
                    self@.repo.pids[pid@],
                    exit_code,
                ),
                None => !self@.repo.pids.dom().contains(pid@),
            },
    {
        self.repo.exit_event(pid, exit_code)
    }

    /// Whether nothing further will happen to any service.
    pub fn all_have_finished(&self) -> (all: bool)
        ensures
            all == all_finished(self@.repo.services),
    {
        self.repo.all_have_finished()
    }

    /// Ingests updates: the events that have come in. Where a termination of the system was
    /// asked for and is not under way, this is announced. The announcement comes back where
    /// the bus is gone.
    pub fn poll(&mut self, sigterm_received: bool) -> (res: Result<Vec<Event>, Event>)
        ensures
            match res {
                Ok(evs) => {
                    let polled = old(self)@.repo.bus.with_taken(event_views(evs@));
                    &&& came_in(old(self)@.repo.bus.inbox.channel, event_views(evs@))
                    &&& final(self)@ == old(self)@.with_bus(
                        if sigterm_received && !old(self)@.is_shutting_down {
                            polled.with_put(seq![EventView::ShuttingDownInitiated])
                        } else {
                            polled
                        },
                    )
                },
                Err(ev) => {
                    &&& sigterm_received && !old(self)@.is_shutting_down
                    &&& ev@ == EventView::ShuttingDownInitiated
                    &&& send_refused(old(self)@.repo.bus.outbox.channel, ev@)
                    &&& exists|evs: Seq<EventView>|
                        {
                            &&& #[trigger] came_in(old(self)@.repo.bus.inbox.channel, evs)
                            &&& final(self)@ == old(self)@.with_bus(
                                old(self)@.repo.bus.with_taken(evs),
                            )
                        }
                },
            },
    {
        let ghost before = self@;
        let events = self.repo.get_events();
        assert(self@ =~= before.with_bus(before.repo.bus.with_taken(event_views(events@))));
        if sigterm_received && !self.is_shutting_down {
            match self.repo.send_ev(Event::ShuttingDownInitiated) {
                Ok(()) => {},
                Err(ev) => {
                    return Err(ev);
                },
            }
        }
        Ok(events)
    }

    /// Which services have waited long enough to be killed.
    fn overdue_services(&self) -> (overdue: Vec<bool>)
        ensures
            all_overdue_now(self@.repo.services, overdue@),
    {
        let services = self.repo.services();
        let mut overdue: Vec<bool> = Vec::new();
        for i in 0..services.len()
            invariant
                handler_views(services@) == self@.repo.services,
                overdue@.len() == i,
                forall|j: int|
                    0 <= j < i ==> overdue_now(#[trigger] self@.repo.services[j], overdue@[j]),
        {
            assert(self@.repo.services[i as int] == services@[i as int]@);
            overdue.push(should_force_kill(&services[i]));
        }
        assert(services@.len() == self@.repo.services.len());
        overdue
    }

    /// What all services need next, where it is known which of them have waited long enough to
    /// be killed.
    pub fn next_all_given(&self, overdue: &Vec<bool>) -> (evs: Vec<Event>)
        requires
            overdue@.len() == self@.repo.services.len(),
        ensures
            event_views(evs@) == all_needs(self@, overdue@),
    {
        let services = self.repo.services();
        let mut evs: Vec<Event> = Vec::new();
        assert(event_views(evs@) =~= needs_of_first(self@, overdue@, 0));
        assert(services@.len() == self@.repo.services.len());
        for i in 0..services.len()
            invariant
                handler_views(services@) == self@.repo.services,
                services@.len() == self@.repo.services.len(),
                overdue@.len() == self@.repo.services.len(),
                event_views(evs@) == needs_of_first(self@, overdue@, i as nat),
        {
            let mut more = self.next_given(&services[i], overdue[i]);
            let ghost so_far = event_views(evs@);
            let ghost added = event_views(more@);
            evs.append(&mut more);
            assert(event_views(evs@) =~= so_far + added);
            assert(self@.repo.services[i as int] == services@[i as int]@);
        }
        evs
    }

    /// Applies the status changes among some events, one after the other.
    pub fn apply_status_changes(&mut self, evs: &Vec<Event>)
        requires
            old(self).wf(),
            applicable(old(self)@.repo.services, event_views(evs@)),
        ensures
            final(self).wf(),
            final(self)@ == (RuntimeView {
                repo: RepoView {
                    services: after_changes(old(self)@.repo.services, event_views(evs@)),
                    ..old(self)@.repo
                },
                ..old(self)@
            }),
    {
        let ghost before = self@;
        let ghost all = event_views(evs@);
        for i in 0..evs.len()
            invariant
                self.wf(),
                all == event_views(evs@),
                applicable(before.repo.services, all),
                self@.repo.services == after_changes(before.repo.services, all.take(i as int)),
                self@.is_shutting_down == before.is_shutting_down,
                self@.repo.pids == before.repo.pids,
                self@.repo.bus == before.repo.bus,
                forall|name: Seq<char>| #[trigger]
                    known(self@.repo.services, name) == known(before.repo.services, name),
        {
            let ghost now = self@.repo.services;
            assert(all.take(i + 1).drop_last() =~= all.take(i as int));
            assert(all[i as int] == evs@[i as int]@);
            match &evs[i] {
                Event::StatusChanged(name, status) => {
                    assert(known(before.repo.services, name@) && is_target(*status));
                    assert(known(now, name@));
                    let new_sh = handle_status_changed_event(
                        self.repo.get_sh(name).clone(),
                        status,
                    );
                    proof {
                        lemma_update_keeps_names(now, position(now, name@), new_sh@);
                    }
                    *self.repo.get_mut_sh(name) = new_sh;
                },
                _ => {},
            }
        }
        assert(all.take(all.len() as int) =~= all);
        assert(self@ =~= RuntimeView {
            repo: RepoView {
                services: after_changes(before.repo.services, all),
                ..before.repo
            },
            ..before
        });
    }

    /// Moves every service forward: finds out what the services need next, and applies the
    /// status changes among that. Returns it, followed by the events of the processes that have
    /// exited. It is known which services have waited long enough to be killed.
    pub fn advance_given(&mut self, overdue: &Vec<bool>, reaped: Vec<Event>) -> (evs: Vec<Event>)
        requires
            old(self).wf(),
            overdue@.len() == old(self)@.repo.services.len(),
            applicable(old(self)@.repo.services, event_views(reaped@)),
        ensures
            final(self).wf(),
            event_views(evs@) == all_needs(old(self)@, overdue@) + event_views(reaped@),
            final(self)@ == (RuntimeView {
                repo: RepoView {
                    services: after_changes(old(self)@.repo.services, event_views(evs@)),
                    ..old(self)@.repo
                },
                ..old(self)@
            }),
    {
        let mut evs = self.next_all_given(overdue);
        let ghost own = event_views(evs@);
        let ghost others = event_views(reaped@);
        let mut reaped = reaped;
        evs.append(&mut reaped);
        proof {
            assert(event_views(evs@) =~= own + others);
            law_needs_are_applicable(self@, overdue@);
            assert(applicable(self@.repo.services, own + others)) by {
                assert forall|i: int| 0 <= i < (own + others).len() implies (
                #[trigger] (own + others)[i] matches EventView::StatusChanged(name, status)
                    ==> known(self@.repo.services, name) && is_target(status)) by {
                    if i < own.len() {
                        assert((own + others)[i] == own[i]);
                    } else {
                        assert((own + others)[i] == others[i - own.len()]);
                    }
                }
            }
        }
        self.apply_status_changes(&evs);
        evs
    }

    /// Moves every service forward: finds out what the services need next, and applies the
    /// status changes among that. Returns it, followed by the events of the processes that have
    /// exited.
    pub fn advance(&mut self, reaped: Vec<Event>) -> (evs: Vec<Event>)
        requires
            old(self).wf(),
            applicable(old(self)@.repo.services, event_views(reaped@)),
        ensures
            final(self).wf(),
            exists|overdue: Seq<bool>|
                {
                    &&& #[trigger] all_overdue_now(old(self)@.repo.services, overdue)
                    &&& event_views(evs@) == all_needs(old(self)@, overdue) + event_views(reaped@)
                },
            final(self)@ == (RuntimeView {
                repo: RepoView {
                    services: after_changes(old(self)@.repo.services, event_views(evs@)),
                    ..old(self)@.repo
                },
                ..old(self)@
            }),
    {
        let overdue = self.overdue_services();
        self.advance_given(&overdue, reaped)
    }

    /// Sends the events that were produced, and then those that the services need next. The
    /// first one that could not be sent comes back, and those after it are not sent.
    pub fn publish(&mut self, produced: Vec<Event>, next: Vec<Event>) -> (res: Result<(), Event>)
        ensures
            final(self)@ == old(self)@.with_bus(final(self)@.repo.bus),
            final(self)@.repo.bus.inbox == old(self)@.repo.bus.inbox,
            published(
                old(self)@.repo.bus.outbox,
                event_views(produced@) + event_views(next@),
                refused(res),
                final(self)@.repo.bus.outbox,
            ),
    {
        let ghost first = event_views(produced@);
        let ghost second = event_views(next@);
        let mut evs = produced;
        let mut next = next;
        evs.append(&mut next);
        assert(event_views(evs@) =~= first + second);
        self.repo.send_evs(&evs)
    }

    /// Announces that the system has ended, and tells how. The announcement comes back where
    /// the bus is gone.
    pub fn finish(&mut self) -> (res: Result<ExitStatus, Event>)
        ensures
            match res {
                Ok(status) => {
                    &&& status == exit_status(old(self)@.repo.services)
                    &&& final(self)@ == old(self)@.with_bus(
                        old(self)@.repo.bus.with_put(seq![EventView::ShuttingDownInitiated]),
                    )
                },
                Err(ev) => {
                    &&& ev@ == EventView::ShuttingDownInitiated
                    &&& final(self)@ == old(self)@
                    &&& send_refused(old(self)@.repo.bus.outbox.channel, ev@)
                },
            },
    {
        match self.repo.send_ev(Event::ShuttingDownInitiated) {
            Ok(()) => {
                if self.repo.any_finished_failed() {
                    Ok(ExitStatus::SomeServiceFailed)
                } else {
                    Ok(ExitStatus::Successful)
                }
            },
            Err(ev) => Err(ev),
        }
    }
}

/// The last signals, once all services have finished. If we're the init system, let's be sure
/// that everything stops before exiting: all processes are asked to terminate, and are then
/// killed.
pub fn final_signals(own_pid: Pid) -> (actions: Vec<Action>)
    ensures
        Seq::new(actions@.len(), |i: int| actions@[i]@) == last_signals(own_pid@),
{
    let all_processes = Pid::from_raw(-1);
    let actions = if own_pid.as_raw() == 1 {
        vec![
            Action::Signal(all_processes, TerminationSignal::TERM),
            Action::Signal(all_processes, TerminationSignal::KILL),
        ]
    } else {
        vec![]
    };
    assert(Seq::new(actions@.len(), |i: int| actions@[i]@) =~= last_signals(own_pid@));
    actions
}

/// Whether the process of a service, exiting with this code, has failed.
fn exit_has_failed(sh: &ServiceHandler, exit_code: i32) -> (failed: bool)
    ensures
        failed == model::exit_is_failure(sh@, exit_code),
{
    sh.service().failure.is_failure(exit_code) || (sh.healthiness_checks_failed > 0
        && sh.is_running())
}

/// Whether the service is not up yet.
fn is_not_up_yet(sh: &ServiceHandler) -> (early: bool)
    ensures
        early == model::is_early(sh@.status),
{
    matches!(sh.status, ServiceStatus::Initial | ServiceStatus::Starting | ServiceStatus::Started)
}

/// Whether healthiness checks of the service are counted.
fn has_checks_counted(sh: &ServiceHandler) -> (counted: bool)
    ensures
        counted == model::is_checked(sh@.status),
{
    matches!(sh.status, ServiceStatus::Running | ServiceStatus::Started | ServiceStatus::Starting)
}

/// The service has, or has not, waited long enough to be killed, as the clock shows.
pub open spec fn overdue_now(sh: ServiceHandlerView, overdue: bool) -> bool {
    match sh.shutting_down_start {
        Some(start) => exists|elapsed: Duration|
            elapsed_returned(start, elapsed) && overdue == #[trigger] force_kill_due(sh, elapsed),
        None => !overdue,
    }
}

/// This next function assumes that the system is shutting down, and knows whether the service
/// has waited long enough to be killed. It will make progress in the direction of shutting
/// everything down.
pub fn next_events_shutting_down_given(service_handler: &ServiceHandler, overdue: bool) -> (evs:
    Vec<Event>)
    ensures
        event_views(evs@) == needs_shutting_down(service_handler@, overdue),
{
    let name = service_handler.name();
    // Handle the new state separately if we're shutting down.
    let evs = match service_handler.status {
        ServiceStatus::Running | ServiceStatus::Started => vec![
            Event::new_status_changed(name, ServiceStatus::InKilling),
            Event::Kill(name.clone()),
        ],
        ServiceStatus::Success | ServiceStatus::Initial => vec![
            Event::new_status_changed(name, ServiceStatus::Finished),
        ],
        ServiceStatus::Failed => vec![
            Event::new_status_changed(name, ServiceStatus::FinishedFailed),
        ],
        ServiceStatus::InKilling => {
            if overdue {
                vec![Event::new_force_kill(name)]
            } else {
                vec![]
            }
        },
        _ => vec![],
    };
    assert(event_views(evs@) =~= needs_shutting_down(service_handler@, overdue));
    evs
}

/// This next function assumes that the system is shutting down.
/// It will make progress in the direction of shutting everything down.
pub fn next_events_shutting_down(service_handler: &ServiceHandler) -> (evs: Vec<Event>)
    ensures
        exists|overdue: bool|
            #[trigger] overdue_now(service_handler@, overdue) && event_views(evs@)
                == needs_shutting_down(service_handler@, overdue),
{
    let overdue = should_force_kill(service_handler);
    next_events_shutting_down_given(service_handler, overdue)
}

} // verus!
