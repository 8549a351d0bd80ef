//! The life of a service as mathematics: which statuses follow which, what each event does,
//! and what a service needs next.

use super::repo::dependents;
use super::repo::known;
use super::repo::mourners;
use super::repo::position;
use super::repo::runnable;
use super::repo::RepoView;
use crate::bus::BusConnectorView;
use crate::clock::duration_nanos;
use crate::clock::max_nanos;
use crate::clock::whole_secs;
use crate::formats::EventView;
use crate::formats::ExitStatus;
use crate::formats::FailureStrategy;
use crate::formats::HealthinessStatus;
use crate::formats::RestartStrategy;
use crate::formats::ServiceStatus;
use crate::formats::TerminationSignal;
use crate::service_handler::ServiceHandlerView;
use std::time::Duration;
use std::time::Instant;
use vstd::prelude::*;

verus! {

/// The mathematical value of a `Runtime`.
#[verifier::ext_equal]
pub struct RuntimeView {
    pub is_shutting_down: bool,
    pub repo: RepoView,
}

/// The mathematical value of an `Action`.
pub enum ActionView {
    /// Start the process of this service, after so many nanoseconds.
    Spawn(Seq<char>, nat),
    /// Send this signal to this process.
    Signal(i32, TerminationSignal),
}

/// The mathematical value of a `Handled`.
#[verifier::ext_equal]
pub struct HandledView {
    pub events: Seq<EventView>,
    pub action: Option<ActionView>,
}

impl RuntimeView {
    /// The service of this name.
    pub open spec fn service(self, name: Seq<char>) -> ServiceHandlerView {
        self.repo.services[position(self.repo.services, name)]
    }

    /// The same system with another state of the service of this name.
    pub open spec fn with_service(self, name: Seq<char>, sh: ServiceHandlerView) -> RuntimeView {
        RuntimeView {
            repo: RepoView {
                services: self.repo.services.update(position(self.repo.services, name), sh),
                ..self.repo
            },
            ..self
        }
    }

    /// The same system, connected to the bus in another way.
    pub open spec fn with_bus(self, bus: BusConnectorView) -> RuntimeView {
        RuntimeView { repo: RepoView { bus, ..self.repo }, ..self }
    }

    /// The same system with other processes noted.
    pub open spec fn with_pids(self, pids: Map<i32, Seq<char>>) -> RuntimeView {
        RuntimeView { repo: RepoView { pids, ..self.repo }, ..self }
    }
}

/// The statuses from which a service may be moved into this one by a status change. There are
/// none for the statuses that no status change leads to.
pub open spec fn allowed_from(new_status: ServiceStatus) -> Set<ServiceStatus> {
    match new_status {
        ServiceStatus::Initial => set![ServiceStatus::Success, ServiceStatus::Failed],
        ServiceStatus::Started => set![ServiceStatus::Starting],
        ServiceStatus::InKilling => set![
            ServiceStatus::Initial,
            ServiceStatus::Running,
            ServiceStatus::Starting,
            ServiceStatus::Started,
        ],
        ServiceStatus::Running => set![ServiceStatus::Started],
        ServiceStatus::FinishedFailed => set![ServiceStatus::Failed, ServiceStatus::InKilling],
        ServiceStatus::Success => set![
            ServiceStatus::Starting,
            ServiceStatus::Started,
            ServiceStatus::Running,
            ServiceStatus::InKilling,
        ],
        ServiceStatus::Failed => set![
            ServiceStatus::Starting,
            ServiceStatus::Started,
            ServiceStatus::Running,
            ServiceStatus::InKilling,
        ],
        ServiceStatus::Finished => set![ServiceStatus::Success, ServiceStatus::Initial],
        ServiceStatus::Starting | ServiceStatus::ToBeRun => Set::empty(),
    }
}

/// Some status change leads to this status.
pub open spec fn is_target(status: ServiceStatus) -> bool {
    status != ServiceStatus::Starting && status != ServiceStatus::ToBeRun
}

/// A service after a status change: where the change is not allowed it stays as it is. A
/// service that is to be killed before it was ever started has succeeded.
pub open spec fn status_changed(
    sh: ServiceHandlerView,
    new_status: ServiceStatus,
) -> ServiceHandlerView {
    if !allowed_from(new_status).contains(sh.status) {
        sh
    } else {
        match new_status {
            ServiceStatus::Started => ServiceHandlerView {
                status: ServiceStatus::Started,
                restart_attempts: 0,
                ..sh
            },
            ServiceStatus::Running => ServiceHandlerView {
                status: ServiceStatus::Running,
                healthiness_checks_failed: 0,
                ..sh
            },
            ServiceStatus::InKilling if sh.status == ServiceStatus::Initial => sh.with_status(
                ServiceStatus::Success,
            ),
            _ => sh.with_status(new_status),
        }
    }
}

/// The services after the status changes among some events, one after the other.
pub open spec fn after_changes(
    services: Seq<ServiceHandlerView>,
    evs: Seq<EventView>,
) -> Seq<ServiceHandlerView>
    decreases evs.len(),
{
    if evs.len() == 0 {
        services
    } else {
        let before = after_changes(services, evs.drop_last());
        match evs.last() {
            EventView::StatusChanged(name, status) => before.update(
                position(before, name),
                status_changed(before[position(before, name)], status),
            ),
            _ => before,
        }
    }
}

/// The status changes among these events are for services that are there, and to statuses
/// that some status change leads to.
pub open spec fn applicable(services: Seq<ServiceHandlerView>, evs: Seq<EventView>) -> bool {
    forall|i: int|
        0 <= i < evs.len() ==> (#[trigger] evs[i] matches EventView::StatusChanged(name, status)
            ==> known(services, name) && is_target(status))
}

/// The service has waited long enough: it has a process, was asked to terminate, and more
/// whole seconds have passed since then than it was given.
pub open spec fn force_kill_due(sh: ServiceHandlerView, elapsed: Duration) -> bool {
    &&& sh.pid is Some
    &&& sh.shutting_down_start is Some
    &&& whole_secs(elapsed) > whole_secs(sh.service.termination.wait)
}

/// The requests to kill some services: for each the status, then the signal.
pub open spec fn kill_each(names: Seq<Seq<char>>) -> Seq<EventView> {
    Seq::new(
        2 * names.len(),
        |i: int|
            if i % 2 == 0 {
                EventView::StatusChanged(names[i / 2], ServiceStatus::InKilling)
            } else {
                EventView::Kill(names[i / 2])
            },
    )
}

/// The status that the restart strategy gives to a service that has ended.
pub open spec fn restart_status(strategy: RestartStrategy, is_failed: bool) -> ServiceStatus {
    match strategy {
        RestartStrategy::Always => ServiceStatus::Initial,
        RestartStrategy::OnFailure => if is_failed {
            ServiceStatus::Initial
        } else {
            ServiceStatus::Finished
        },
        RestartStrategy::Never => if is_failed {
            ServiceStatus::FinishedFailed
        } else {
            ServiceStatus::Finished
        },
    }
}

/// What the failure of a service means for those that depend on it.
pub open spec fn failure_events(
    strategy: FailureStrategy,
    deps: Seq<Seq<char>>,
) -> Seq<EventView> {
    match strategy {
        FailureStrategy::Shutdown => seq![EventView::ShuttingDownInitiated],
        FailureStrategy::KillDependents => kill_each(deps),
        FailureStrategy::Ignore => Seq::empty(),
    }
}

/// What a service needs next while the system is up.
pub open spec fn needs(repo: RepoView, sh: ServiceHandlerView, overdue: bool) -> Seq<EventView> {
    let name = sh.name();
    match sh.status {
        ServiceStatus::Initial if runnable(repo.services, sh) => seq![EventView::Run(name)],
        ServiceStatus::Started if sh.healthiness_checks_failed == 0 => seq![
            EventView::StatusChanged(name, ServiceStatus::Running),
        ],
        ServiceStatus::Running if sh.healthiness_checks_failed > 2 => seq![
            EventView::StatusChanged(name, ServiceStatus::InKilling),
            EventView::Kill(name),
        ],
        ServiceStatus::Success => seq![
            EventView::StatusChanged(name, restart_status(sh.service.restart.strategy, false)),
        ],
        ServiceStatus::Failed => failure_events(
            sh.service.failure.strategy,
            dependents(repo.services, name),
        ).push(
            EventView::StatusChanged(name, restart_status(sh.service.restart.strategy, true)),
        ) + kill_each(mourners(repo.services, name)),
        ServiceStatus::FinishedFailed => failure_events(
            sh.service.failure.strategy,
            dependents(repo.services, name),
        ),
        ServiceStatus::InKilling if overdue => seq![
            EventView::ForceKill(name),
            EventView::StatusChanged(name, ServiceStatus::Failed),
        ],
        _ => Seq::empty(),
    }
}

/// What a service needs next while the system shuts down.
pub open spec fn needs_shutting_down(sh: ServiceHandlerView, overdue: bool) -> Seq<EventView> {
    let name = sh.name();
    match sh.status {
        ServiceStatus::Running | ServiceStatus::Started => seq![
            EventView::StatusChanged(name, ServiceStatus::InKilling),
            EventView::Kill(name),
        ],
        ServiceStatus::Success | ServiceStatus::Initial => seq![
            EventView::StatusChanged(name, ServiceStatus::Finished),
        ],
        ServiceStatus::Failed => seq![
            EventView::StatusChanged(name, ServiceStatus::FinishedFailed),
        ],
        ServiceStatus::InKilling if overdue => seq![EventView::ForceKill(name)],
        _ => Seq::empty(),
    }
}

/// What a service needs next.
pub open spec fn next_needs(rt: RuntimeView, sh: ServiceHandlerView, overdue: bool) -> Seq<
    EventView,
> {
    if rt.is_shutting_down {
        needs_shutting_down(sh, overdue)
    } else {
        needs(rt.repo, sh, overdue)
    }
}

/// What the first `n` services need next, one after the other.
pub open spec fn needs_of_first(rt: RuntimeView, overdue: Seq<bool>, n: nat) -> Seq<EventView>
    decreases n,
{
    if n == 0 {
        Seq::empty()
    } else {
        needs_of_first(rt, overdue, (n - 1) as nat) + next_needs(
            rt,
            rt.repo.services[n - 1],
            overdue[n - 1],
        )
    }
}

/// What all services need next, one after the other.
pub open spec fn all_needs(rt: RuntimeView, overdue: Seq<bool>) -> Seq<EventView> {
    needs_of_first(rt, overdue, rt.repo.services.len())
}

/// The service is not up yet.
pub open spec fn is_early(status: ServiceStatus) -> bool {
    status == ServiceStatus::Initial || status == ServiceStatus::Starting || status
        == ServiceStatus::Started
}

/// A process that exits with this code has failed, by its code or by its health.
pub open spec fn exit_is_failure(sh: ServiceHandlerView, exit_code: i32) -> bool {
    ||| !sh.service.failure.successful_exit_code.contains(exit_code)
    ||| sh.healthiness_checks_failed > 0 && sh.status == ServiceStatus::Running
}

/// A service after its process has exited. One that fails before it was up has used up an
/// attempt, and starts anew unless no attempt is left.
pub open spec fn exited(sh: ServiceHandlerView, exit_code: i32) -> ServiceHandlerView {
    let gone = ServiceHandlerView { pid: None, shutting_down_start: None, ..sh };
    if !exit_is_failure(sh, exit_code) {
        gone.with_status(ServiceStatus::Success)
    } else if is_early(sh.status) {
        let attempts = (sh.restart_attempts + 1) as u32;
        ServiceHandlerView {
            restart_attempts: attempts,
            status: if attempts > sh.service.restart.attempts {
                ServiceStatus::FinishedFailed
            } else {
                ServiceStatus::Initial
            },
            ..gone
        }
    } else {
        gone.with_status(ServiceStatus::Failed)
    }
}

/// Healthiness checks of the service are counted.
pub open spec fn is_checked(status: ServiceStatus) -> bool {
    status == ServiceStatus::Running || status == ServiceStatus::Started || status
        == ServiceStatus::Starting
}

/// A service after a healthiness check.
pub open spec fn checked(sh: ServiceHandlerView, health: HealthinessStatus) -> ServiceHandlerView {
    if !is_checked(sh.status) {
        sh
    } else if health == HealthinessStatus::Healthy {
        ServiceHandlerView { healthiness_checks_failed: 0, ..sh }
    } else {
        ServiceHandlerView {
            healthiness_checks_failed: (sh.healthiness_checks_failed + 1) as u32,
            ..sh
        }
    }
}

/// The signal for a service, if it has a process.
pub open spec fn signal_to(sh: ServiceHandlerView, signal: TerminationSignal) -> Option<
    ActionView,
> {
    match sh.pid {
        Some(pid) => Some(ActionView::Signal(pid, signal)),
        None => None,
    }
}

/// The delay before a start of the service, in nanoseconds: the backoff for each failed start.
pub open spec fn backoff_nanos(sh: ServiceHandlerView) -> nat {
    duration_nanos(sh.service.restart.backoff) * (sh.restart_attempts as nat)
}

/// An event can be handled: the service that it is about is there, one that has exited has a
/// process, and what has to be counted or delayed can be. `prepared` tells whether the
/// healthiness checks of a service that is to be started could be prepared.
pub open spec fn accepts(rt: RuntimeView, ev: EventView, prepared: bool) -> bool {
    match ev {
        EventView::ServiceExited(name, exit_code) => {
            let sh = rt.service(name);
            &&& known(rt.repo.services, name)
            &&& sh.pid is Some
            &&& exit_is_failure(sh, exit_code) && is_early(sh.status) ==> sh.restart_attempts
                < u32::MAX
        },
        EventView::Run(name) => {
            let sh = rt.service(name);
            &&& known(rt.repo.services, name)
            &&& sh.status == ServiceStatus::Initial && prepared ==> backoff_nanos(sh)
                <= max_nanos()
        },
        EventView::HealthCheck(name, health) => {
            let sh = rt.service(name);
            &&& known(rt.repo.services, name)
            &&& is_checked(sh.status) && health != HealthinessStatus::Healthy
                ==> sh.healthiness_checks_failed < u32::MAX
        },
        EventView::SpawnFailed(name) => known(rt.repo.services, name),
        EventView::Kill(name) => known(rt.repo.services, name),
        EventView::ForceKill(name) => known(rt.repo.services, name),
        EventView::PidChanged(name, _) => known(rt.repo.services, name),
        EventView::StatusChanged(_, _) => true,
        EventView::ShuttingDownInitiated => true,
    }
}

/// An event is answered by nothing.
pub open spec fn no_answer() -> HandledView {
    HandledView { events: Seq::empty(), action: None }
}

/// An event is answered by the status that the service has now, and perhaps an action.
pub open spec fn answer_status(
    name: Seq<char>,
    status: ServiceStatus,
    action: Option<ActionView>,
) -> HandledView {
    HandledView { events: seq![EventView::StatusChanged(name, status)], action }
}

/// The system after an event, and how the event is answered. `prepared` tells whether the
/// healthiness checks of a service that is to be started could be prepared, and `now` what
/// the clock shows.
pub open spec fn handled(rt: RuntimeView, ev: EventView, prepared: bool, now: Instant) -> (
    RuntimeView,
    HandledView,
) {
    match ev {
        EventView::ServiceExited(name, exit_code) => {
            let sh = rt.service(name);
            let after = exited(sh, exit_code);
            (
                rt.with_pids(rt.repo.pids.remove(sh.pid->0)).with_service(name, after),
                answer_status(name, after.status, None),
            )
        },
        EventView::Run(name) => {
            let sh = rt.service(name);
            if sh.status != ServiceStatus::Initial {
                (rt, no_answer())
            } else if prepared {
                (
                    rt.with_service(name, sh.with_status(ServiceStatus::Starting)),
                    answer_status(
                        name,
                        ServiceStatus::Starting,
                        Some(ActionView::Spawn(name, backoff_nanos(sh))),
                    ),
                )
            } else {
                (
                    RuntimeView {
                        is_shutting_down: true,
                        ..rt.with_service(name, sh.with_status(ServiceStatus::FinishedFailed))
                    },
                    HandledView {
                        events: seq![
                            EventView::StatusChanged(name, ServiceStatus::FinishedFailed),
                            EventView::ShuttingDownInitiated,
                        ],
                        action: None,
                    },
                )
            }
        },
        EventView::SpawnFailed(name) => (
            rt.with_service(name, rt.service(name).with_status(ServiceStatus::Failed)),
            answer_status(name, ServiceStatus::Failed, None),
        ),
        EventView::Kill(name) => {
            let sh = rt.service(name);
            if sh.status == ServiceStatus::InKilling {
                (
                    rt.with_service(
                        name,
                        ServiceHandlerView { shutting_down_start: Some(now), ..sh },
                    ),
                    HandledView {
                        events: Seq::empty(),
                        action: signal_to(sh, sh.service.termination.signal),
                    },
                )
            } else {
                (rt, no_answer())
            }
        },
        EventView::ForceKill(name) => {
            let sh = rt.service(name);
            if sh.status == ServiceStatus::InKilling {
                (
                    rt.with_service(name, sh.with_status(ServiceStatus::Failed)),
                    answer_status(
                        name,
                        ServiceStatus::Failed,
                        signal_to(sh, TerminationSignal::KILL),
                    ),
                )
            } else {
                (rt, no_answer())
            }
        },
        EventView::PidChanged(name, pid) => {
            let sh = rt.service(name);
            let noted = rt.with_pids(rt.repo.pids.insert(pid, name));
            if sh.status == ServiceStatus::InKilling {
                (
                    noted.with_service(
                        name,
                        ServiceHandlerView {
                            pid: Some(pid),
                            shutting_down_start: Some(now),
                            ..sh
                        },
                    ),
                    HandledView {
                        events: Seq::empty(),
                        action: Some(ActionView::Signal(pid, sh.service.termination.signal)),
                    },
                )
            } else {
                (
                    noted.with_service(
                        name,
                        ServiceHandlerView {
                            pid: Some(pid),
                            status: ServiceStatus::Started,
                            ..sh
                        },
                    ),
                    answer_status(name, ServiceStatus::Started, None),
                )
            }
        },
        EventView::HealthCheck(name, health) => (
            rt.with_service(name, checked(rt.service(name), health)),
            no_answer(),
        ),
        EventView::ShuttingDownInitiated => (
            RuntimeView { is_shutting_down: true, ..rt },
            no_answer(),
        ),
        EventView::StatusChanged(_, _) => (rt, no_answer()),
    }
}

/// The last signals that a supervisor running as this process sends: the init system, process
/// 1, asks all processes (-1) to terminate and then kills them, and any other sends none.
pub open spec fn last_signals(own_pid: i32) -> Seq<ActionView> {
    if own_pid == 1 {
        seq![
            ActionView::Signal((-1) as i32, TerminationSignal::TERM),
            ActionView::Signal((-1) as i32, TerminationSignal::KILL),
        ]
    } else {
        Seq::empty()
    }
}

/// How the system ends: whether some service has failed for good.
pub open spec fn exit_status(services: Seq<ServiceHandlerView>) -> ExitStatus {
    if exists|i: int|
        0 <= i < services.len() && (#[trigger] services[i]).status
            == ServiceStatus::FinishedFailed {
        ExitStatus::SomeServiceFailed
    } else {
        ExitStatus::Successful
    }
}

} // verus!
