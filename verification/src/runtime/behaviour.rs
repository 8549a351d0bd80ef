//! What every service needs next, and where status changes take it, said of the services
//! themselves.

use super::all_overdue_now;
use super::laws::lemma_changes_concat;
use super::model::after_changes;
use super::model::all_needs;
use super::model::applicable;
use super::model::exit_status;
use super::model::failure_events;
use super::model::force_kill_due;
use super::model::last_signals;
use super::model::needs_of_first;
use super::model::next_needs;
use super::model::restart_status;
use super::model::signal_to;
use super::model::ActionView;
use super::model::RuntimeView;
use super::overdue_now;
use super::repo::all_finished;
use super::repo::collected;
use super::repo::dependents;
use super::repo::distinct;
use super::repo::fresh_handler;
use super::repo::is_up;
use super::repo::known;
use super::repo::law_last_definition_counts;
use super::repo::lemma_collected_is_distinct;
use super::repo::lemma_position;
use super::repo::mourners;
use super::repo::position;
use crate::bus::BusConnectorView;
use crate::clock::duration_nanos;
use crate::clock::elapsed_returned;
use crate::formats::EventView;
use crate::formats::ExitStatus;
use crate::formats::FailureStrategy;
use crate::formats::RestartStrategy;
use crate::formats::ServiceStatus;
use crate::formats::ServiceView;
use crate::formats::TerminationSignal;
use crate::service_handler::ServiceHandlerView;
use std::time::Duration;
use vstd::prelude::*;

verus! {

/// Services start in the order of their dependencies: one that has not been started yet is to
/// run as soon as for each name that it has to wait for there is a service that runs or has
/// finished.
pub proof fn law_starts_when_dependencies_are_up(
    rt: RuntimeView,
    sh: ServiceHandlerView,
    overdue: bool,
)
    requires
        !rt.is_shutting_down,
        sh.status == ServiceStatus::Initial,
        forall|k: int|
            0 <= k < sh.service.start_after.len() ==> exists|j: int|
                {
                    &&& 0 <= j < rt.repo.services.len()
                    &&& (#[trigger] rt.repo.services[j]).service.name
                        == #[trigger] sh.service.start_after[k]
                    &&& rt.repo.services[j].status == ServiceStatus::Running
                        || rt.repo.services[j].status == ServiceStatus::Finished
                },
    ensures
        next_needs(rt, sh, overdue) == seq![EventView::Run(sh.service.name)],
{
    let services = rt.repo.services;
    let names = sh.service.start_after;
    assert forall|k: int| 0 <= k < names.len() implies is_up(services, #[trigger] names[k]) by {
        let j = choose|j: int|
            {
                &&& 0 <= j < services.len()
                &&& (#[trigger] services[j]).service.name == names[k]
                &&& services[j].status == ServiceStatus::Running || services[j].status
                    == ServiceStatus::Finished
            };
        assert(services[j].name() == names[k]);
    }
}

/// Services start in the order of their dependencies: one does not start while for some name
/// that it has to wait for there is no service that runs or has finished.
pub proof fn law_waits_for_dependencies(
    rt: RuntimeView,
    sh: ServiceHandlerView,
    overdue: bool,
    k: int,
)
    requires
        !rt.is_shutting_down,
        sh.status == ServiceStatus::Initial,
        0 <= k < sh.service.start_after.len(),
        forall|j: int|
            0 <= j < rt.repo.services.len() && (#[trigger] rt.repo.services[j]).service.name
                == sh.service.start_after[k] ==> rt.repo.services[j].status
                != ServiceStatus::Running && rt.repo.services[j].status != ServiceStatus::Finished,
    ensures
        next_needs(rt, sh, overdue) == Seq::<EventView>::empty(),
{
    assert(!is_up(rt.repo.services, sh.service.start_after[k]));
}

/// A service that has started, and whose checks are fine, is up.
pub proof fn law_started_service_runs(rt: RuntimeView, sh: ServiceHandlerView, overdue: bool)
    requires
        !rt.is_shutting_down,
        sh.status == ServiceStatus::Started,
    ensures
        sh.healthiness_checks_failed == 0 ==> next_needs(rt, sh, overdue) == seq![
            EventView::StatusChanged(sh.service.name, ServiceStatus::Running),
        ],
        sh.healthiness_checks_failed > 0 ==> next_needs(rt, sh, overdue) == Seq::<
            EventView,
        >::empty(),
{
}

/// A service that is up is asked to terminate once three checks in a row have failed, and not
/// before.
pub proof fn law_unhealthy_service_is_killed(rt: RuntimeView, sh: ServiceHandlerView, overdue: bool)
    requires
        !rt.is_shutting_down,
        sh.status == ServiceStatus::Running,
    ensures
        sh.healthiness_checks_failed >= 3 ==> next_needs(rt, sh, overdue) == seq![
            EventView::StatusChanged(sh.service.name, ServiceStatus::InKilling),
            EventView::Kill(sh.service.name),
        ],
        sh.healthiness_checks_failed < 3 ==> next_needs(rt, sh, overdue) == Seq::<
            EventView,
        >::empty(),
{
}

/// A service that has succeeded starts anew exactly where it is always restarted, and has
/// finished otherwise.
pub proof fn law_success_follows_the_strategy(
    rt: RuntimeView,
    sh: ServiceHandlerView,
    overdue: bool,
)
    requires
        !rt.is_shutting_down,
        sh.status == ServiceStatus::Success,
    ensures
        sh.service.restart.strategy == RestartStrategy::Always ==> next_needs(rt, sh, overdue)
            == seq![EventView::StatusChanged(sh.service.name, ServiceStatus::Initial)],
        sh.service.restart.strategy != RestartStrategy::Always ==> next_needs(rt, sh, overdue)
            == seq![EventView::StatusChanged(sh.service.name, ServiceStatus::Finished)],
{
}

/// A service that was asked to terminate and did not exit in time is killed, and has failed.
/// Until then it is left alone.
pub proof fn law_overdue_service_is_killed(rt: RuntimeView, sh: ServiceHandlerView)
    requires
        sh.status == ServiceStatus::InKilling,
    ensures
        !rt.is_shutting_down ==> next_needs(rt, sh, true) == seq![
            EventView::ForceKill(sh.service.name),
            EventView::StatusChanged(sh.service.name, ServiceStatus::Failed),
        ],
        rt.is_shutting_down ==> next_needs(rt, sh, true) == seq![
            EventView::ForceKill(sh.service.name),
        ],
        next_needs(rt, sh, false) == Seq::<EventView>::empty(),
{
}

/// A service that starts, or has finished well, needs nothing.
pub proof fn law_waiting_services_need_nothing(
    rt: RuntimeView,
    sh: ServiceHandlerView,
    overdue: bool,
)
    requires
        sh.status == ServiceStatus::Starting || sh.status == ServiceStatus::ToBeRun || sh.status
            == ServiceStatus::Finished,
    ensures
        next_needs(rt, sh, overdue) == Seq::<EventView>::empty(),
{
}

/// While the system shuts down, a service that is up is asked to terminate, one that has no
/// process is done, well or badly, and no service is started.
pub proof fn law_shutting_down_stops_services(
    rt: RuntimeView,
    sh: ServiceHandlerView,
    overdue: bool,
)
    requires
        rt.is_shutting_down,
    ensures
        sh.status == ServiceStatus::Running || sh.status == ServiceStatus::Started ==> next_needs(
            rt,
            sh,
            overdue,
        ) == seq![
            EventView::StatusChanged(sh.service.name, ServiceStatus::InKilling),
            EventView::Kill(sh.service.name),
        ],
        sh.status == ServiceStatus::Success || sh.status == ServiceStatus::Initial ==> next_needs(
            rt,
            sh,
            overdue,
        ) == seq![EventView::StatusChanged(sh.service.name, ServiceStatus::Finished)],
        sh.status == ServiceStatus::Failed ==> next_needs(rt, sh, overdue) == seq![
            EventView::StatusChanged(sh.service.name, ServiceStatus::FinishedFailed),
        ],
        sh.status == ServiceStatus::FinishedFailed ==> next_needs(rt, sh, overdue) == Seq::<
            EventView,
        >::empty(),
{
}

/// A service that has failed gets, besides what its failure means for others, one status of its
/// own: it is given up where it is never restarted, and starts anew otherwise. What its failure
/// means for others is this. Where its strategy is to shut down, the system is to. Where it is to
/// kill its dependents, each service that waits for it is marked and asked to terminate, in
/// order. And so is, whatever the strategy, each service that is to die with it.
pub proof fn law_failure_is_answered(rt: RuntimeView, sh: ServiceHandlerView, overdue: bool)
    requires
        !rt.is_shutting_down,
        sh.status == ServiceStatus::Failed,
    ensures
        ({
            let name = sh.service.name;
            let evs = next_needs(rt, sh, overdue);
            let strategy = sh.service.failure.strategy;
            let waiting = rt.repo.services.filter(
                |s: ServiceHandlerView| s.service.start_after.contains(name),
            );
            let mourning = rt.repo.services.filter(
                |s: ServiceHandlerView| s.service.termination.die_if_failed.contains(name),
            );
            let n: int = if strategy == FailureStrategy::Shutdown {
                1
            } else if strategy == FailureStrategy::KillDependents {
                (2 * waiting.len()) as int
            } else {
                0
            };
            &&& evs.len() == n + 1 + 2 * mourning.len()
            &&& strategy == FailureStrategy::Shutdown ==> evs[0] == EventView::ShuttingDownInitiated
            &&& strategy == FailureStrategy::KillDependents ==> forall|k: int|
                0 <= k < waiting.len() ==> {
                    &&& evs[2 * k] == EventView::StatusChanged(
                        (#[trigger] waiting[k]).service.name,
                        ServiceStatus::InKilling,
                    )
                    &&& evs[2 * k + 1] == EventView::Kill(waiting[k].service.name)
                }
            &&& evs[n] == EventView::StatusChanged(
                name,
                if sh.service.restart.strategy == RestartStrategy::Never {
                    ServiceStatus::FinishedFailed
                } else {
                    ServiceStatus::Initial
                },
            )
            &&& forall|k: int|
                0 <= k < mourning.len() ==> {
                    &&& evs[n + 1 + 2 * k] == EventView::StatusChanged(
                        (#[trigger] mourning[k]).service.name,
                        ServiceStatus::InKilling,
                    )
                    &&& evs[n + 2 + 2 * k] == EventView::Kill(mourning[k].service.name)
                }
        }),
{
}

/// A service that has failed for good concerns the others as its strategy says: the system is to
/// shut down, or each service that waits for it is marked and asked to terminate, in order, or
/// nothing happens.
pub proof fn law_failure_for_good_is_answered(
    rt: RuntimeView,
    sh: ServiceHandlerView,
    overdue: bool,
)
    requires
        !rt.is_shutting_down,
        sh.status == ServiceStatus::FinishedFailed,
    ensures
        ({
            let name = sh.service.name;
            let evs = next_needs(rt, sh, overdue);
            let waiting = rt.repo.services.filter(
                |s: ServiceHandlerView| s.service.start_after.contains(name),
            );
            match sh.service.failure.strategy {
                FailureStrategy::Shutdown => evs == seq![EventView::ShuttingDownInitiated],
                FailureStrategy::Ignore => evs.len() == 0,
                FailureStrategy::KillDependents => {
                    &&& evs.len() == 2 * waiting.len()
                    &&& forall|k: int|
                        0 <= k < waiting.len() ==> {
                            &&& evs[2 * k] == EventView::StatusChanged(
                                (#[trigger] waiting[k]).service.name,
                                ServiceStatus::InKilling,
                            )
                            &&& evs[2 * k + 1] == EventView::Kill(waiting[k].service.name)
                        }
                },
            }
        }),
{
}

/// What the failure of a service means for those that depend on it: nothing, or the end of the
/// system, or of each of them, in order.
pub proof fn law_failure_strategies(deps: Seq<Seq<char>>)
    ensures
        failure_events(FailureStrategy::Ignore, deps).len() == 0,
        failure_events(FailureStrategy::Shutdown, deps) == seq![EventView::ShuttingDownInitiated],
        failure_events(FailureStrategy::KillDependents, deps).len() == 2 * deps.len(),
        forall|k: int|
            0 <= k < deps.len() ==> {
                &&& failure_events(FailureStrategy::KillDependents, deps)[2 * k]
                    == EventView::StatusChanged(#[trigger] deps[k], ServiceStatus::InKilling)
                &&& failure_events(FailureStrategy::KillDependents, deps)[2 * k + 1]
                    == EventView::Kill(deps[k])
            },
{
}

/// A service that always restarts starts anew, one that restarts on failure exactly where it has
/// failed, and one that never restarts never; it then has finished as it has ended.
pub proof fn law_restart_strategies(strategy: RestartStrategy, is_failed: bool)
    ensures
        restart_status(strategy, is_failed) == ServiceStatus::Initial <==> strategy
            == RestartStrategy::Always || (strategy == RestartStrategy::OnFailure && is_failed),
        restart_status(strategy, is_failed) == ServiceStatus::FinishedFailed <==> strategy
            == RestartStrategy::Never && is_failed,
        restart_status(strategy, is_failed) == ServiceStatus::Finished <==> strategy
            != RestartStrategy::Always && !is_failed,
{
}

/// Among the dependents of a service are those that name it as one to wait for, and among its
/// mourners those that name it as one to die with, and no others.
pub proof fn law_dependents_name_the_service(
    services: Seq<ServiceHandlerView>,
    name: Seq<char>,
    other: Seq<char>,
)
    ensures
        dependents(services, name).contains(other) <==> exists|j: int|
            {
                &&& 0 <= j < services.len()
                &&& (#[trigger] services[j]).service.name == other
                &&& services[j].service.start_after.contains(name)
            },
        mourners(services, name).contains(other) <==> exists|j: int|
            {
                &&& 0 <= j < services.len()
                &&& (#[trigger] services[j]).service.name == other
                &&& services[j].service.termination.die_if_failed.contains(name)
            },
{
    let waits = |s: ServiceHandlerView| s.service.start_after.contains(name);
    let mourns = |s: ServiceHandlerView| s.service.termination.die_if_failed.contains(name);
    lemma_picked_names(services, waits, dependents(services, name), other);
    lemma_picked_names(services, mourns, mourners(services, name), other);
    if exists|j: int|
        {
            &&& 0 <= j < services.len()
            &&& (#[trigger] services[j]).service.name == other
            &&& services[j].service.start_after.contains(name)
        } {
        let j = choose|j: int|
            {
                &&& 0 <= j < services.len()
                &&& (#[trigger] services[j]).service.name == other
                &&& services[j].service.start_after.contains(name)
            };
        assert(waits(services[j]));
    }
    if exists|j: int|
        {
            &&& 0 <= j < services.len()
            &&& (#[trigger] services[j]).service.name == other
            &&& services[j].service.termination.die_if_failed.contains(name)
        } {
        let j = choose|j: int|
            {
                &&& 0 <= j < services.len()
                &&& (#[trigger] services[j]).service.name == other
                &&& services[j].service.termination.die_if_failed.contains(name)
            };
        assert(mourns(services[j]));
    }
}

/// The names of the services that are picked are those of services that qualify.
proof fn lemma_picked_names(
    services: Seq<ServiceHandlerView>,
    pick: spec_fn(ServiceHandlerView) -> bool,
    names: Seq<Seq<char>>,
    name: Seq<char>,
)
    requires
        names.len() == services.filter(pick).len(),
        forall|k: int|
            0 <= k < names.len() ==> #[trigger] names[k] == services.filter(pick)[k].service.name,
    ensures
        names.contains(name) <==> exists|j: int|
            0 <= j < services.len() && (#[trigger] services[j]).service.name == name && pick(
                services[j],
            ),
{
    let picked = services.filter(pick);
    if names.contains(name) {
        let k = choose|k: int| 0 <= k < names.len() && names[k] == name;
        assert(picked.contains(picked[k]));
        services.lemma_filter_contains_rev(pick, picked[k]);
        let j = choose|j: int| 0 <= j < services.len() && services[j] == picked[k];
        assert(services[j].service.name == name);
        services.lemma_filter_pred(pick, k);
        assert(pick(picked[k]));
    }
    if exists|j: int|
        0 <= j < services.len() && (#[trigger] services[j]).service.name == name && pick(
            services[j],
        ) {
        let j = choose|j: int|
            0 <= j < services.len() && (#[trigger] services[j]).service.name == name && pick(
                services[j],
            );
        services.lemma_filter_contains(pick, j);
        let k = choose|k: int| 0 <= k < picked.len() && picked[k] == services[j];
        assert(names[k] == name);
    }
}

/// A status change moves a service along one of these ways, and along no other: it is to start
/// anew after it has ended; it has started after it was starting; it is up after it has started;
/// it is to be killed while it is not done; it has ended, well or badly, after there was a
/// process; and it has finished after it has ended. One that is to be killed before it was ever
/// started has succeeded. Failed starts are forgotten with the start, and failed checks as the
/// service is up. Nothing else of the service changes, and no other service does.
pub proof fn law_status_changes(services: Seq<ServiceHandlerView>, i: int, to: ServiceStatus)
    requires
        distinct(services),
        0 <= i < services.len(),
    ensures
        ({
            let sh = services[i];
            let from = sh.status;
            let after = after_changes(
                services,
                seq![EventView::StatusChanged(sh.service.name, to)],
            );
            let new = after[i];
            let had_process = from == ServiceStatus::Starting || from == ServiceStatus::Started
                || from == ServiceStatus::Running || from == ServiceStatus::InKilling;
            let ended = from == ServiceStatus::Success || from == ServiceStatus::Failed;
            let moves = match to {
                ServiceStatus::Initial => ended,
                ServiceStatus::Started => from == ServiceStatus::Starting,
                ServiceStatus::Running => from == ServiceStatus::Started,
                ServiceStatus::InKilling => from == ServiceStatus::Initial || from
                    == ServiceStatus::Starting || from == ServiceStatus::Started || from
                    == ServiceStatus::Running,
                ServiceStatus::Success => had_process,
                ServiceStatus::Failed => had_process,
                ServiceStatus::Finished => from == ServiceStatus::Success || from
                    == ServiceStatus::Initial,
                ServiceStatus::FinishedFailed => from == ServiceStatus::Failed || from
                    == ServiceStatus::InKilling,
                ServiceStatus::Starting => false,
                ServiceStatus::ToBeRun => false,
            };
            &&& !moves ==> new == sh
            &&& moves && !(to == ServiceStatus::InKilling && from == ServiceStatus::Initial)
                ==> new.status == to
            &&& moves && to == ServiceStatus::InKilling && from == ServiceStatus::Initial
                ==> new.status == ServiceStatus::Success
            &&& new == ServiceHandlerView {
                status: new.status,
                restart_attempts: if moves && to == ServiceStatus::Started {
                    0
                } else {
                    sh.restart_attempts
                },
                healthiness_checks_failed: if moves && to == ServiceStatus::Running {
                    0
                } else {
                    sh.healthiness_checks_failed
                },
                ..sh
            }
            &&& after == services.update(i, new)
        }),
{
    let ev = EventView::StatusChanged(services[i].service.name, to);
    lemma_position(services, i);
    reveal_with_fuel(after_changes, 2);
    assert(seq![ev].drop_last() =~= Seq::<EventView>::empty());
    assert(seq![ev].last() == ev);
    let after = after_changes(services, seq![ev]);
    assert(after =~= services.update(i, after[i]));
}

/// Status changes can be applied where each is for a service that is there, and to a status that
/// some change leads to: to any but that a service starts or is to be run.
pub proof fn law_applicable_changes(services: Seq<ServiceHandlerView>, evs: Seq<EventView>)
    ensures
        applicable(services, evs) <==> forall|k: int|
            0 <= k < evs.len() ==> match #[trigger] evs[k] {
                EventView::StatusChanged(name, status) => {
                    &&& known(services, name)
                    &&& status != ServiceStatus::Starting
                    &&& status != ServiceStatus::ToBeRun
                },
                _ => true,
            },
{
}

/// Events that are no status changes change no status, and those that are have their effect one
/// after the other.
pub proof fn law_changes_follow_each_other(
    services: Seq<ServiceHandlerView>,
    first: Seq<EventView>,
    second: Seq<EventView>,
)
    ensures
        (forall|k: int| 0 <= k < first.len() ==> !(#[trigger] first[k] is StatusChanged))
            ==> after_changes(services, first) == services,
        after_changes(services, first + second) == after_changes(
            after_changes(services, first),
            second,
        ),
    decreases first.len(),
{
    lemma_changes_concat(services, first, second);
    if first.len() > 0 {
        law_changes_follow_each_other(services, first.drop_last(), second);
        if forall|k: int| 0 <= k < first.len() ==> !(#[trigger] first[k] is StatusChanged) {
            assert forall|k: int| 0 <= k < first.drop_last().len() implies !(
            #[trigger] first.drop_last()[k] is StatusChanged) by {
                assert(first.drop_last()[k] == first[k]);
            }
            assert(!(first[first.len() - 1] is StatusChanged));
        }
    }
}

/// Every service is asked what it needs next, once and in order: what all of them need is what
/// the first one needs, followed by what the second one needs, and so on.
pub proof fn law_every_service_is_asked(rt: RuntimeView, overdue: Seq<bool>)
    ensures
        exists|at: Seq<int>|
            {
                &&& at.len() == rt.repo.services.len() + 1
                &&& at[0] == 0
                &&& at[at.len() - 1] == all_needs(rt, overdue).len()
                &&& forall|i: int|
                    0 <= i < rt.repo.services.len() ==> {
                        &&& 0 <= #[trigger] at[i] <= at[i + 1] <= all_needs(rt, overdue).len()
                        &&& all_needs(rt, overdue).subrange(at[i], at[i + 1]) == next_needs(
                            rt,
                            rt.repo.services[i],
                            overdue[i],
                        )
                    }
            },
{
    let n = rt.repo.services.len();
    let all = all_needs(rt, overdue);
    let at = Seq::new(n + 1, |i: int| needs_of_first(rt, overdue, i as nat).len() as int);
    assert forall|i: int| 0 <= i < n implies {
        &&& 0 <= #[trigger] at[i] <= at[i + 1] <= all.len()
        &&& all.subrange(at[i], at[i + 1]) == next_needs(rt, rt.repo.services[i], overdue[i])
    } by {
        let own = next_needs(rt, rt.repo.services[i], overdue[i]);
        lemma_needs_are_prefixes(rt, overdue, (i + 1) as nat, n);
        let more = needs_of_first(rt, overdue, (i + 1) as nat);
        assert(more == needs_of_first(rt, overdue, i as nat) + own);
        assert(all.subrange(at[i], at[i + 1]) =~= own);
    }
    assert(at[0] == 0 && at[at.len() - 1] == all.len());
}

/// What some of the first services need comes first in what more of them need.
proof fn lemma_needs_are_prefixes(rt: RuntimeView, overdue: Seq<bool>, m: nat, n: nat)
    requires
        m <= n,
    ensures
        needs_of_first(rt, overdue, m).len() <= needs_of_first(rt, overdue, n).len(),
        forall|k: int|
            0 <= k < needs_of_first(rt, overdue, m).len() ==> #[trigger] needs_of_first(
                rt,
                overdue,
                n,
            )[k] == needs_of_first(rt, overdue, m)[k],
    decreases n,
{
    if m < n {
        lemma_needs_are_prefixes(rt, overdue, m, (n - 1) as nat);
    }
}

/// A service has waited long enough where it has a process, was asked to terminate, and the
/// whole seconds since then are more than those that it was given. So it has where a second more
/// has passed than it was given, and has not where no more has passed.
pub proof fn law_wait_is_over(sh: ServiceHandlerView, elapsed: Duration)
    ensures
        sh.pid is None || sh.shutting_down_start is None ==> !force_kill_due(sh, elapsed),
        sh.pid is Some && sh.shutting_down_start is Some ==> (force_kill_due(sh, elapsed)
            <==> duration_nanos(elapsed) / 1_000_000_000 > duration_nanos(
            sh.service.termination.wait,
        ) / 1_000_000_000),
        sh.pid is Some && sh.shutting_down_start is Some && duration_nanos(elapsed)
            >= duration_nanos(sh.service.termination.wait) + 1_000_000_000 ==> force_kill_due(
            sh,
            elapsed,
        ),
        duration_nanos(elapsed) <= duration_nanos(sh.service.termination.wait)
            ==> !force_kill_due(sh, elapsed),
{
}

/// Whether a service has waited long enough is read from the clock, and only where it was asked
/// to terminate.
pub proof fn law_wait_is_read_from_the_clock(sh: ServiceHandlerView, overdue: bool)
    requires
        overdue_now(sh, overdue),
    ensures
        match sh.shutting_down_start {
            None => !overdue,
            Some(start) => exists|elapsed: Duration| #[trigger]
                elapsed_returned(start, elapsed) && (overdue <==> sh.pid is Some && duration_nanos(
                    elapsed,
                ) / 1_000_000_000 > duration_nanos(sh.service.termination.wait) / 1_000_000_000),
        },
{
    if let Some(start) = sh.shutting_down_start {
        let elapsed = choose|elapsed: Duration|
            elapsed_returned(start, elapsed) && overdue == #[trigger] force_kill_due(sh, elapsed);
        law_wait_is_over(sh, elapsed);
        assert(elapsed_returned(start, elapsed));
    }
}

/// The waits of all services are read from the clock.
pub proof fn law_waits_are_read_from_the_clock(
    services: Seq<ServiceHandlerView>,
    overdue: Seq<bool>,
    i: int,
)
    requires
        all_overdue_now(services, overdue),
        0 <= i < services.len(),
    ensures
        overdue.len() == services.len(),
        overdue_now(services[i], overdue[i]),
{
}

/// The system has finished where every service has, well or badly. It has ended badly exactly
/// where some service has.
pub proof fn law_end_of_the_system(services: Seq<ServiceHandlerView>)
    ensures
        all_finished(services) <==> forall|i: int|
            0 <= i < services.len() ==> (#[trigger] services[i]).status == ServiceStatus::Finished
                || services[i].status == ServiceStatus::FinishedFailed,
        exit_status(services) == ExitStatus::SomeServiceFailed <==> exists|i: int|
            0 <= i < services.len() && (#[trigger] services[i]).status
                == ServiceStatus::FinishedFailed,
        exit_status(services) == ExitStatus::Successful <==> forall|i: int|
            0 <= i < services.len() ==> (#[trigger] services[i]).status
                != ServiceStatus::FinishedFailed,
{
    if all_finished(services) {
        assert forall|i: int| 0 <= i < services.len() implies (#[trigger] services[i]).status
            == ServiceStatus::Finished || services[i].status == ServiceStatus::FinishedFailed by {
            assert(services[i].has_finished());
        }
    }
}

/// Only process 1 stops everything before it exits: it asks all processes to terminate, and then
/// kills them.
pub proof fn law_init_stops_everything(own_pid: i32)
    ensures
        own_pid != 1 ==> last_signals(own_pid).len() == 0,
        own_pid == 1 ==> {
            let all_processes = (-1) as i32;
            &&& last_signals(own_pid).len() == 2
            &&& last_signals(own_pid)[0] == ActionView::Signal(
                all_processes,
                TerminationSignal::TERM,
            )
            &&& last_signals(own_pid)[1] == ActionView::Signal(
                all_processes,
                TerminationSignal::KILL,
            )
        },
{
}

/// A signal goes to the process of the service, where it has one.
pub proof fn law_signals_go_to_the_process(sh: ServiceHandlerView, signal: TerminationSignal)
    ensures
        match sh.pid {
            Some(pid) => signal_to(sh, signal) == Some(ActionView::Signal(pid, signal)),
            None => signal_to(sh, signal) is None,
        },
{
}

/// The services of the system are those that are defined, each as its last definition says, and
/// none of them was started.
pub proof fn law_services_are_those_defined(defs: Seq<ServiceView>, i: int)
    requires
        0 <= i < collected(defs).len(),
    ensures
        exists|d: int|
            {
                &&& 0 <= d < defs.len()
                &&& collected(defs)[i].service == #[trigger] defs[d]
                &&& forall|later: int|
                    d < later < defs.len() ==> (#[trigger] defs[later]).name != defs[d].name
            },
        collected(defs)[i].status == ServiceStatus::Initial,
        collected(defs)[i].pid is None,
        collected(defs)[i].restart_attempts == 0,
        collected(defs)[i].healthiness_checks_failed == 0,
        collected(defs)[i].shutting_down_start is None,
    decreases defs.len(),
{
    let shorter = defs.drop_last();
    let before = collected(shorter);
    let last = defs.len() - 1;
    if known(before, defs.last().name) {
        let p = position(before, defs.last().name);
        assert(before[p].name() == defs.last().name);
    }
    if collected(defs)[i] == fresh_handler(defs.last()) {
        assert(defs[last] == defs.last());
    } else {
        law_services_are_those_defined(shorter, i);
        let d = choose|d: int|
            {
                &&& 0 <= d < shorter.len()
                &&& before[i].service == #[trigger] shorter[d]
                &&& forall|later: int|
                    d < later < shorter.len() ==> (#[trigger] shorter[later]).name
                        != shorter[d].name
            };
        assert(defs[d] == shorter[d]);
        if defs.last().name == before[i].service.name {
            assert(before[i].name() == defs.last().name);
            lemma_collected_is_distinct(shorter);
            lemma_position(before, i);
        }
        assert forall|later: int| d < later < defs.len() implies (#[trigger] defs[later]).name
            != defs[d].name by {
            if later < last {
                assert(shorter[later] == defs[later]);
            }
        }
    }
}

/// Every service that is defined is there, as its last definition says.
pub proof fn law_defined_services_are_there(defs: Seq<ServiceView>, d: int)
    requires
        0 <= d < defs.len(),
        forall|later: int| d < later < defs.len() ==> (#[trigger] defs[later]).name != defs[d].name,
    ensures
        exists|i: int|
            0 <= i < collected(defs).len() && (#[trigger] collected(defs)[i]).service == defs[d],
        forall|i: int, j: int|
            0 <= i < j < collected(defs).len() ==> (#[trigger] collected(defs)[i]).service.name != (
            #[trigger] collected(defs)[j]).service.name,
{
    law_last_definition_counts(defs, d);
    let p = position(collected(defs), defs[d].name);
    assert(collected(defs)[p].name() == defs[d].name);
    assert(collected(defs)[p].service == defs[d]);
    assert forall|i: int, j: int| 0 <= i < j < collected(defs).len() implies (
    #[trigger] collected(defs)[i]).service.name != (
    #[trigger] collected(defs)[j]).service.name by {
        assert(collected(defs)[i].name() != collected(defs)[j].name());
    }
}

/// What goes over the bus changes nothing else of the system.
pub proof fn law_bus_is_apart(rt: RuntimeView, bus: BusConnectorView)
    ensures
        rt.with_bus(bus).repo.bus == bus,
        rt.with_bus(bus).repo.services == rt.repo.services,
        rt.with_bus(bus).repo.pids == rt.repo.pids,
        rt.with_bus(bus).is_shutting_down == rt.is_shutting_down,
{
}

} // verus!
