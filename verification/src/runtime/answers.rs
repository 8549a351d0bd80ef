//! What every event does to the services, and how it is answered, said of the services
//! themselves.

use super::model::accepts;
use super::model::handled;
use super::model::next_needs;
use super::model::ActionView;
use super::model::RuntimeView;
use super::repo::distinct;
use super::repo::known;
use super::repo::lemma_position;
use super::repo::lemma_update_keeps_names;
use crate::clock::duration_nanos;
use crate::formats::EventView;
use crate::formats::HealthinessStatus;
use crate::formats::ServiceStatus;
use crate::formats::TerminationSignal;
use crate::service_handler::ServiceHandlerView;
use std::time::Instant;
use vstd::prelude::*;

verus! {

/// Among services with distinct names, each is found by its name.
pub proof fn law_services_are_found_by_name(rt: RuntimeView, i: int)
    requires
        distinct(rt.repo.services),
        0 <= i < rt.repo.services.len(),
    ensures
        known(rt.repo.services, rt.repo.services[i].service.name),
        rt.service(rt.repo.services[i].service.name) == rt.repo.services[i],
{
    lemma_position(rt.repo.services, i);
}

/// A name that no service has is not known.
pub proof fn law_unknown_names(services: Seq<ServiceHandlerView>, name: Seq<char>)
    requires
        forall|i: int| 0 <= i < services.len() ==> (#[trigger] services[i]).service.name != name,
    ensures
        !known(services, name),
{
    if known(services, name) {
        let i = choose|i: int| 0 <= i < services.len() && #[trigger] services[i].name() == name;
        assert(services[i].service.name == name);
    }
}

/// The exit of a process is judged by its code, and by the health of a service that is up. One
/// that is fine has succeeded. One that is not has failed. But where the service was not up
/// yet, that is one more attempt to start it: it starts anew, or is given up where it has no
/// attempt left. Either way it has no process any more, and its new status is told.
pub proof fn law_exit_is_judged(
    rt: RuntimeView,
    i: int,
    exit_code: i32,
    prepared: bool,
    now: Instant,
)
    requires
        distinct(rt.repo.services),
        0 <= i < rt.repo.services.len(),
        accepts(
            rt,
            EventView::ServiceExited(rt.repo.services[i].service.name, exit_code),
            prepared,
        ),
    ensures
        ({
            let sh = rt.repo.services[i];
            let ev = EventView::ServiceExited(sh.service.name, exit_code);
            let (after, answer) = handled(rt, ev, prepared, now);
            let new = after.repo.services[i];
            let fine = sh.service.failure.successful_exit_code.contains(exit_code) && !(sh.status
                == ServiceStatus::Running && sh.healthiness_checks_failed > 0);
            let early = sh.status == ServiceStatus::Initial || sh.status == ServiceStatus::Starting
                || sh.status == ServiceStatus::Started;
            &&& fine <==> new.status == ServiceStatus::Success
            &&& !fine && !early <==> new.status == ServiceStatus::Failed
            &&& !fine && early && sh.restart_attempts + 1 <= sh.service.restart.attempts
                <==> new.status == ServiceStatus::Initial
            &&& !fine && early && sh.restart_attempts + 1 > sh.service.restart.attempts
                <==> new.status == ServiceStatus::FinishedFailed
            &&& new.restart_attempts == sh.restart_attempts + if !fine && early {
                1int
            } else {
                0int
            }
            &&& sh.pid is Some
            &&& new.pid is None
            &&& new.shutting_down_start is None
            &&& new.healthiness_checks_failed == sh.healthiness_checks_failed
            &&& new.service == sh.service
            &&& after.repo.services == rt.repo.services.update(i, new)
            &&& after.repo.pids == rt.repo.pids.remove(sh.pid->0)
            &&& after.repo.bus == rt.repo.bus
            &&& after.is_shutting_down == rt.is_shutting_down
            &&& answer.events == seq![EventView::StatusChanged(sh.service.name, new.status)]
            &&& answer.action is None
        }),
{
    lemma_position(rt.repo.services, i);
}

/// A service that was not started yet, and could be prepared, starts: its process is to be made
/// after the backoff for each attempt that has failed.
pub proof fn law_run_starts_a_service(rt: RuntimeView, i: int, now: Instant)
    requires
        distinct(rt.repo.services),
        0 <= i < rt.repo.services.len(),
        rt.repo.services[i].status == ServiceStatus::Initial,
    ensures
        ({
            let sh = rt.repo.services[i];
            let name = sh.service.name;
            let (after, answer) = handled(rt, EventView::Run(name), true, now);
            &&& after.repo.services == rt.repo.services.update(
                i,
                ServiceHandlerView { status: ServiceStatus::Starting, ..sh },
            )
            &&& after.repo.pids == rt.repo.pids
            &&& after.repo.bus == rt.repo.bus
            &&& after.is_shutting_down == rt.is_shutting_down
            &&& answer.events == seq![EventView::StatusChanged(name, ServiceStatus::Starting)]
            &&& answer.action matches Some(ActionView::Spawn(started, nanos)) && started == name
                && nanos == duration_nanos(sh.service.restart.backoff) * sh.restart_attempts
        }),
{
    lemma_position(rt.repo.services, i);
}

/// A service that was not started yet, and could not be prepared, is given up, and the system
/// shuts down.
pub proof fn law_run_without_preparation(rt: RuntimeView, i: int, now: Instant)
    requires
        distinct(rt.repo.services),
        0 <= i < rt.repo.services.len(),
        rt.repo.services[i].status == ServiceStatus::Initial,
    ensures
        ({
            let sh = rt.repo.services[i];
            let name = sh.service.name;
            let (after, answer) = handled(rt, EventView::Run(name), false, now);
            &&& after.repo.services == rt.repo.services.update(
                i,
                ServiceHandlerView { status: ServiceStatus::FinishedFailed, ..sh },
            )
            &&& after.repo.pids == rt.repo.pids
            &&& after.repo.bus == rt.repo.bus
            &&& after.is_shutting_down
            &&& answer.events == seq![
                EventView::StatusChanged(name, ServiceStatus::FinishedFailed),
                EventView::ShuttingDownInitiated,
            ]
            &&& answer.action is None
        }),
{
    lemma_position(rt.repo.services, i);
}

/// A service is started only where it was not started yet.
pub proof fn law_run_does_not_start_twice(rt: RuntimeView, i: int, prepared: bool, now: Instant)
    requires
        distinct(rt.repo.services),
        0 <= i < rt.repo.services.len(),
        rt.repo.services[i].status != ServiceStatus::Initial,
    ensures
        ({
            let ev = EventView::Run(rt.repo.services[i].service.name);
            let (after, answer) = handled(rt, ev, prepared, now);
            &&& after == rt
            &&& answer.events.len() == 0
            &&& answer.action is None
        }),
{
    lemma_position(rt.repo.services, i);
}

/// A service whose process could not be made has failed.
pub proof fn law_spawn_failure_is_a_failure(rt: RuntimeView, i: int, prepared: bool, now: Instant)
    requires
        distinct(rt.repo.services),
        0 <= i < rt.repo.services.len(),
    ensures
        ({
            let sh = rt.repo.services[i];
            let name = sh.service.name;
            let (after, answer) = handled(rt, EventView::SpawnFailed(name), prepared, now);
            &&& after.repo.services == rt.repo.services.update(
                i,
                ServiceHandlerView { status: ServiceStatus::Failed, ..sh },
            )
            &&& after.repo.pids == rt.repo.pids
            &&& after.repo.bus == rt.repo.bus
            &&& after.is_shutting_down == rt.is_shutting_down
            &&& answer.events == seq![EventView::StatusChanged(name, ServiceStatus::Failed)]
            &&& answer.action is None
        }),
{
    lemma_position(rt.repo.services, i);
}

/// A service that is to be killed gets, where it has a process, the signal that it is configured
/// with, and its time to exit starts to run. Any other service is left alone.
pub proof fn law_kill_asks_to_terminate(rt: RuntimeView, i: int, prepared: bool, now: Instant)
    requires
        distinct(rt.repo.services),
        0 <= i < rt.repo.services.len(),
    ensures
        ({
            let sh = rt.repo.services[i];
            let ev = EventView::Kill(sh.service.name);
            let (after, answer) = handled(rt, ev, prepared, now);
            &&& answer.events.len() == 0
            &&& after.repo.pids == rt.repo.pids
            &&& after.repo.bus == rt.repo.bus
            &&& after.is_shutting_down == rt.is_shutting_down
            &&& sh.status == ServiceStatus::InKilling ==> {
                &&& after.repo.services == rt.repo.services.update(
                    i,
                    ServiceHandlerView { shutting_down_start: Some(now), ..sh },
                )
                &&& match sh.pid {
                    Some(pid) => answer.action == Some(
                        ActionView::Signal(pid, sh.service.termination.signal),
                    ),
                    None => answer.action is None,
                }
            }
            &&& sh.status != ServiceStatus::InKilling ==> {
                &&& after.repo.services == rt.repo.services
                &&& answer.action is None
            }
        }),
{
    lemma_position(rt.repo.services, i);
}

/// A service that is to be killed without further waiting has failed, and its process, where it
/// has one, is killed. A service that is not to be killed is left alone.
pub proof fn law_force_kill_kills(rt: RuntimeView, i: int, prepared: bool, now: Instant)
    requires
        distinct(rt.repo.services),
        0 <= i < rt.repo.services.len(),
    ensures
        ({
            let sh = rt.repo.services[i];
            let name = sh.service.name;
            let (after, answer) = handled(rt, EventView::ForceKill(name), prepared, now);
            &&& after.repo.pids == rt.repo.pids
            &&& after.repo.bus == rt.repo.bus
            &&& after.is_shutting_down == rt.is_shutting_down
            &&& sh.status == ServiceStatus::InKilling ==> {
                &&& after.repo.services == rt.repo.services.update(
                    i,
                    ServiceHandlerView { status: ServiceStatus::Failed, ..sh },
                )
                &&& answer.events == seq![EventView::StatusChanged(name, ServiceStatus::Failed)]
                &&& match sh.pid {
                    Some(pid) => answer.action == Some(
                        ActionView::Signal(pid, TerminationSignal::KILL),
                    ),
                    None => answer.action is None,
                }
            }
            &&& sh.status != ServiceStatus::InKilling ==> {
                &&& after.repo.services == rt.repo.services
                &&& answer.events.len() == 0
                &&& answer.action is None
            }
        }),
{
    lemma_position(rt.repo.services, i);
}

/// A process that was made is noted, for its service and the service for it. The service has
/// started. But where it was to be killed meanwhile, it gets the signal that it is configured
/// with, and its time to exit starts to run.
pub proof fn law_process_is_noted(
    rt: RuntimeView,
    i: int,
    pid: i32,
    prepared: bool,
    now: Instant,
)
    requires
        distinct(rt.repo.services),
        0 <= i < rt.repo.services.len(),
    ensures
        ({
            let sh = rt.repo.services[i];
            let name = sh.service.name;
            let (after, answer) = handled(rt, EventView::PidChanged(name, pid), prepared, now);
            &&& after.repo.pids == rt.repo.pids.insert(pid, name)
            &&& after.repo.bus == rt.repo.bus
            &&& after.is_shutting_down == rt.is_shutting_down
            &&& sh.status == ServiceStatus::InKilling ==> {
                &&& after.repo.services == rt.repo.services.update(
                    i,
                    ServiceHandlerView {
                        pid: Some(pid),
                        shutting_down_start: Some(now),
                        ..sh
                    },
                )
                &&& answer.events.len() == 0
                &&& answer.action == Some(
                    ActionView::Signal(pid, sh.service.termination.signal),
                )
            }
            &&& sh.status != ServiceStatus::InKilling ==> {
                &&& after.repo.services == rt.repo.services.update(
                    i,
                    ServiceHandlerView { pid: Some(pid), status: ServiceStatus::Started, ..sh },
                )
                &&& answer.events == seq![EventView::StatusChanged(name, ServiceStatus::Started)]
                &&& answer.action is None
            }
        }),
{
    lemma_position(rt.repo.services, i);
}

/// A healthiness check of a service that starts or is up is counted: one more has failed, or
/// none has any more. Checks of any other service are not. Nothing else changes.
pub proof fn law_check_is_counted(
    rt: RuntimeView,
    i: int,
    health: HealthinessStatus,
    prepared: bool,
    now: Instant,
)
    requires
        distinct(rt.repo.services),
        0 <= i < rt.repo.services.len(),
        accepts(
            rt,
            EventView::HealthCheck(rt.repo.services[i].service.name, health),
            prepared,
        ),
    ensures
        ({
            let sh = rt.repo.services[i];
            let ev = EventView::HealthCheck(sh.service.name, health);
            let (after, answer) = handled(rt, ev, prepared, now);
            let new = after.repo.services[i];
            let counts = sh.status == ServiceStatus::Running || sh.status == ServiceStatus::Started
                || sh.status == ServiceStatus::Starting;
            &&& counts && health == HealthinessStatus::Healthy ==> new.healthiness_checks_failed
                == 0
            &&& counts && health == HealthinessStatus::Unhealthy ==> new.healthiness_checks_failed
                == sh.healthiness_checks_failed + 1
            &&& !counts ==> new.healthiness_checks_failed == sh.healthiness_checks_failed
            &&& new == ServiceHandlerView {
                healthiness_checks_failed: new.healthiness_checks_failed,
                ..sh
            }
            &&& after.repo.services == rt.repo.services.update(i, new)
            &&& after.repo.pids == rt.repo.pids
            &&& after.repo.bus == rt.repo.bus
            &&& after.is_shutting_down == rt.is_shutting_down
            &&& answer.events.len() == 0
            &&& answer.action is None
        }),
{
    lemma_position(rt.repo.services, i);
}

/// A system that is asked to shuts down. Nothing happens to its services yet.
pub proof fn law_shutdown_is_heeded(rt: RuntimeView, prepared: bool, now: Instant)
    ensures
        ({
            let (after, answer) = handled(rt, EventView::ShuttingDownInitiated, prepared, now);
            &&& after.is_shutting_down
            &&& after.repo == rt.repo
            &&& answer.events.len() == 0
            &&& answer.action is None
        }),
{
}

/// A status that is told of has been taken already: nothing happens.
pub proof fn law_told_statuses_are_ignored(
    rt: RuntimeView,
    name: Seq<char>,
    status: ServiceStatus,
    prepared: bool,
    now: Instant,
)
    ensures
        ({
            let ev = EventView::StatusChanged(name, status);
            let (after, answer) = handled(rt, ev, prepared, now);
            &&& after == rt
            &&& answer.events.len() == 0
            &&& answer.action is None
        }),
{
}

/// The system after some events, one after the other.
pub open spec fn after_events(
    rt: RuntimeView,
    evs: Seq<EventView>,
    prepared: bool,
    now: Instant,
) -> RuntimeView
    decreases evs.len(),
{
    if evs.len() == 0 {
        rt
    } else {
        handled(after_events(rt, evs.drop_last(), prepared, now), evs.last(), prepared, now).0
    }
}

/// Failed checks add up: after so many in a row of a service that is up, that many more have
/// failed, and nothing else has changed. After three, while the system is up, the service is to
/// be killed.
pub proof fn law_failed_checks_add_up(
    rt: RuntimeView,
    i: int,
    evs: Seq<EventView>,
    prepared: bool,
    now: Instant,
    overdue: bool,
)
    requires
        distinct(rt.repo.services),
        0 <= i < rt.repo.services.len(),
        rt.repo.services[i].status == ServiceStatus::Running,
        rt.repo.services[i].healthiness_checks_failed + evs.len() <= u32::MAX,
        forall|k: int|
            0 <= k < evs.len() ==> #[trigger] evs[k] == EventView::HealthCheck(
                rt.repo.services[i].service.name,
                HealthinessStatus::Unhealthy,
            ),
    ensures
        ({
            let sh = rt.repo.services[i];
            let after = after_events(rt, evs, prepared, now);
            let new = after.repo.services[i];
            &&& new.healthiness_checks_failed == sh.healthiness_checks_failed + evs.len()
            &&& new == ServiceHandlerView {
                healthiness_checks_failed: new.healthiness_checks_failed,
                ..sh
            }
            &&& after.repo.services == rt.repo.services.update(i, new)
            &&& after.is_shutting_down == rt.is_shutting_down
            &&& evs.len() >= 3 && !rt.is_shutting_down ==> next_needs(after, new, overdue) == seq![
                EventView::StatusChanged(sh.service.name, ServiceStatus::InKilling),
                EventView::Kill(sh.service.name),
            ]
        }),
    decreases evs.len(),
{
    let services = rt.repo.services;
    if evs.len() == 0 {
        assert(services.update(i, services[i]) =~= services);
    } else {
        let shorter = evs.drop_last();
        assert forall|k: int| 0 <= k < shorter.len() implies #[trigger] shorter[k]
            == EventView::HealthCheck(services[i].service.name, HealthinessStatus::Unhealthy) by {
            assert(shorter[k] == evs[k]);
        }
        law_failed_checks_add_up(rt, i, shorter, prepared, now, overdue);
        let before = after_events(rt, shorter, prepared, now);
        lemma_update_keeps_names(services, i, before.repo.services[i]);
        assert(evs[evs.len() - 1] == evs.last());
        lemma_position(before.repo.services, i);
        law_check_is_counted(before, i, HealthinessStatus::Unhealthy, prepared, now);
        let after = after_events(rt, evs, prepared, now);
        assert(after.repo.services =~= services.update(i, after.repo.services[i]));
    }
}

/// Which events about a service that is there are accepted: those that it can be told at any
/// time; that its process has exited, where it has one, and one more failed start can be
/// counted; that it is to run, where its delay is no longer than a duration can be; and a failed
/// check, where it can be counted.
pub proof fn law_events_of_services_are_accepted(
    rt: RuntimeView,
    i: int,
    prepared: bool,
    pid: i32,
    exit_code: i32,
)
    requires
        distinct(rt.repo.services),
        0 <= i < rt.repo.services.len(),
    ensures
        ({
            let sh = rt.repo.services[i];
            let name = sh.service.name;
            let fine = sh.service.failure.successful_exit_code.contains(exit_code) && !(sh.status
                == ServiceStatus::Running && sh.healthiness_checks_failed > 0);
            let early = sh.status == ServiceStatus::Initial || sh.status == ServiceStatus::Starting
                || sh.status == ServiceStatus::Started;
            let counts = sh.status == ServiceStatus::Running || sh.status == ServiceStatus::Started
                || sh.status == ServiceStatus::Starting;
            let longest = 0xffff_ffff_ffff_ffff * 1_000_000_000 + 999_999_999;
            &&& accepts(rt, EventView::Kill(name), prepared)
            &&& accepts(rt, EventView::ForceKill(name), prepared)
            &&& accepts(rt, EventView::SpawnFailed(name), prepared)
            &&& accepts(rt, EventView::PidChanged(name, pid), prepared)
            &&& accepts(rt, EventView::HealthCheck(name, HealthinessStatus::Healthy), prepared)
            &&& accepts(rt, EventView::ServiceExited(name, exit_code), prepared) <==> sh.pid is Some
                && (fine || !early || sh.restart_attempts < 0xffff_ffff)
            &&& accepts(rt, EventView::Run(name), prepared) <==> sh.status != ServiceStatus::Initial
                || !prepared || duration_nanos(sh.service.restart.backoff) * sh.restart_attempts
                <= longest
            &&& accepts(rt, EventView::HealthCheck(name, HealthinessStatus::Unhealthy), prepared)
                <==> !counts || sh.healthiness_checks_failed < 0xffff_ffff
        }),
{
    lemma_position(rt.repo.services, i);
}

/// Of a service that is not there nothing is accepted but that its status has changed.
pub proof fn law_events_of_strangers_are_refused(
    rt: RuntimeView,
    ev: EventView,
    prepared: bool,
    name: Seq<char>,
)
    requires
        forall|i: int|
            0 <= i < rt.repo.services.len() ==> (#[trigger] rt.repo.services[i]).service.name
                != name,
        match ev {
            EventView::PidChanged(n, _) => n == name,
            EventView::ServiceExited(n, _) => n == name,
            EventView::ForceKill(n) => n == name,
            EventView::Kill(n) => n == name,
            EventView::SpawnFailed(n) => n == name,
            EventView::Run(n) => n == name,
            EventView::HealthCheck(n, _) => n == name,
            _ => false,
        },
    ensures
        !accepts(rt, ev, prepared),
{
    law_unknown_names(rt.repo.services, name);
}

/// Announcements are always accepted.
pub proof fn law_announcements_are_accepted(
    rt: RuntimeView,
    prepared: bool,
    name: Seq<char>,
    status: ServiceStatus,
)
    ensures
        accepts(rt, EventView::StatusChanged(name, status), prepared),
        accepts(rt, EventView::ShuttingDownInitiated, prepared),
{
}

} // verus!
