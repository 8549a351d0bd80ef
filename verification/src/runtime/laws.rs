//! What holds of the services' lives as a whole.

use super::model::accepts;
use super::model::after_changes;
use super::model::all_needs;
use super::model::allowed_from;
use super::model::applicable;
use super::model::checked;
use super::model::exit_is_failure;
use super::model::exit_status;
use super::model::exited;
use super::model::failure_events;
use super::model::force_kill_due;
use super::model::handled;
use super::model::is_early;
use super::model::is_target;
use super::model::kill_each;
use super::model::needs_of_first;
use super::model::next_needs;
use super::model::no_answer;
use super::model::restart_status;
use super::model::status_changed;
use super::model::ActionView;
use super::model::RuntimeView;
use super::repo::all_finished;
use super::repo::dependents;
use super::repo::distinct;
use super::repo::known;
use super::repo::lemma_position;
use super::repo::lemma_update_keeps_names;
use super::repo::mourners;
use super::repo::position;
use super::repo::RepoView;
use crate::formats::EventView;
use crate::formats::ExitStatus;
use crate::formats::FailureStrategy;
use crate::formats::HealthinessStatus;
use crate::formats::RestartStrategy;
use crate::formats::ServiceStatus;
use crate::formats::TerminationSignal;
use crate::service_handler::ServiceHandlerView;
use std::time::Duration;
use std::time::Instant;
use vstd::prelude::*;

verus! {

/// Names that a filter picks are names of services that are there.
proof fn lemma_picked_are_known(
    services: Seq<ServiceHandlerView>,
    pick: spec_fn(ServiceHandlerView) -> bool,
)
    ensures
        forall|k: int|
            0 <= k < services.filter(pick).len() ==> known(
                services,
                (#[trigger] services.filter(pick)[k]).name(),
            ),
{
    assert forall|k: int| 0 <= k < services.filter(pick).len() implies known(
        services,
        (#[trigger] services.filter(pick)[k]).name(),
    ) by {
        let sh = services.filter(pick)[k];
        assert(services.filter(pick).contains(sh));
        services.lemma_filter_contains_rev(pick, sh);
        let i = choose|i: int| 0 <= i < services.len() && services[i] == sh;
        assert(services[i].name() == sh.name());
    }
}

/// Requests to kill services that are there are applicable.
proof fn lemma_kill_each_is_applicable(services: Seq<ServiceHandlerView>, names: Seq<Seq<char>>)
    requires
        forall|k: int| 0 <= k < names.len() ==> known(services, #[trigger] names[k]),
    ensures
        applicable(services, kill_each(names)),
{
    assert forall|i: int| 0 <= i < kill_each(names).len() implies (#[trigger] kill_each(
        names,
    )[i] matches EventView::StatusChanged(name, status) ==> known(services, name) && is_target(
        status,
    )) by {
        assert(0 <= i / 2 < names.len());
        assert(known(services, names[i / 2]));
    }
}

proof fn lemma_applicable_concat(
    services: Seq<ServiceHandlerView>,
    a: Seq<EventView>,
    b: Seq<EventView>,
)
    requires
        applicable(services, a),
        applicable(services, b),
    ensures
        applicable(services, a + b),
{
    assert forall|i: int| 0 <= i < (a + b).len() implies (#[trigger] (a
        + b)[i] matches EventView::StatusChanged(name, status) ==> known(services, name)
        && is_target(status)) by {
        if i < a.len() {
            assert((a + b)[i] == a[i]);
        } else {
            assert((a + b)[i] == b[i - a.len()]);
        }
    }
}

/// What a service needs next are status changes of services that are there, to statuses that
/// some status change leads to.
pub proof fn law_next_is_applicable(rt: RuntimeView, i: int, overdue: bool)
    requires
        0 <= i < rt.repo.services.len(),
    ensures
        applicable(rt.repo.services, next_needs(rt, rt.repo.services[i], overdue)),
{
    let services = rt.repo.services;
    let sh = services[i];
    assert(known(services, sh.name()));
    if !rt.is_shutting_down && (sh.status == ServiceStatus::Failed || sh.status
        == ServiceStatus::FinishedFailed) {
        let waiting = |s: ServiceHandlerView| s.service.start_after.contains(sh.name());
        let mourning = |s: ServiceHandlerView|
            s.service.termination.die_if_failed.contains(sh.name());
        lemma_picked_are_known(services, waiting);
        lemma_picked_are_known(services, mourning);
        assert forall|k: int| 0 <= k < dependents(services, sh.name()).len() implies known(
            services,
            #[trigger] dependents(services, sh.name())[k],
        ) by {
            assert(known(services, services.filter(waiting)[k].name()));
        }
        assert forall|k: int| 0 <= k < mourners(services, sh.name()).len() implies known(
            services,
            #[trigger] mourners(services, sh.name())[k],
        ) by {
            assert(known(services, services.filter(mourning)[k].name()));
        }
        lemma_kill_each_is_applicable(services, dependents(services, sh.name()));
        lemma_kill_each_is_applicable(services, mourners(services, sh.name()));
        let failures = failure_events(
            sh.service.failure.strategy,
            dependents(services, sh.name()),
        );
        let own = EventView::StatusChanged(
            sh.name(),
            restart_status(sh.service.restart.strategy, true),
        );
        assert(applicable(services, seq![own]));
        lemma_applicable_concat(services, failures, seq![own]);
        assert(failures + seq![own] =~= failures.push(own));
        lemma_applicable_concat(
            services,
            failures.push(own),
            kill_each(mourners(services, sh.name())),
        );
    }
}

proof fn lemma_needs_of_first_are_applicable(rt: RuntimeView, overdue: Seq<bool>, n: nat)
    requires
        n <= rt.repo.services.len(),
    ensures
        applicable(rt.repo.services, needs_of_first(rt, overdue, n)),
    decreases n,
{
    if n > 0 {
        lemma_needs_of_first_are_applicable(rt, overdue, (n - 1) as nat);
        law_next_is_applicable(rt, n - 1, overdue[n - 1]);
        lemma_applicable_concat(
            rt.repo.services,
            needs_of_first(rt, overdue, (n - 1) as nat),
            next_needs(rt, rt.repo.services[n - 1], overdue[n - 1]),
        );
    }
}

/// What the services need next can always be applied: its status changes are for services
/// that are there, and to statuses that some status change leads to.
pub proof fn law_needs_are_applicable(rt: RuntimeView, overdue: Seq<bool>)
    ensures
        applicable(rt.repo.services, all_needs(rt, overdue)),
{
    lemma_needs_of_first_are_applicable(rt, overdue, rt.repo.services.len());
}

/// Applying status changes keeps the services and their names.
pub proof fn law_changes_keep_names(services: Seq<ServiceHandlerView>, evs: Seq<EventView>)
    requires
        distinct(services),
        applicable(services, evs),
    ensures
        distinct(after_changes(services, evs)),
        after_changes(services, evs).len() == services.len(),
        forall|i: int|
            0 <= i < services.len() ==> #[trigger] after_changes(services, evs)[i].name()
                == services[i].name(),
    decreases evs.len(),
{
    if evs.len() > 0 {
        let before = after_changes(services, evs.drop_last());
        assert(applicable(services, evs.drop_last())) by {
            assert forall|i: int| 0 <= i < evs.drop_last().len() implies (
            #[trigger] evs.drop_last()[i] matches EventView::StatusChanged(name, status) ==> known(
                services,
                name,
            ) && is_target(status)) by {
                assert(evs.drop_last()[i] == evs[i]);
            }
        }
        law_changes_keep_names(services, evs.drop_last());
        match evs.last() {
            EventView::StatusChanged(name, status) => {
                assert(evs[evs.len() - 1] == evs.last());
                lemma_known_by_names(services, before, name);
                let p = position(before, name);
                lemma_update_keeps_names(before, p, status_changed(before[p], status));
            },
            _ => {},
        }
    }
}

/// Which names there are, and where, depends on the names alone.
proof fn lemma_known_by_names(
    a: Seq<ServiceHandlerView>,
    b: Seq<ServiceHandlerView>,
    name: Seq<char>,
)
    requires
        a.len() == b.len(),
        distinct(a),
        distinct(b),
        forall|i: int| 0 <= i < a.len() ==> #[trigger] b[i].name() == a[i].name(),
    ensures
        known(a, name) == known(b, name),
        known(a, name) ==> position(a, name) == position(b, name),
{
    if known(a, name) {
        let p = position(a, name);
        assert(b[p].name() == name);
        lemma_position(b, p);
    }
    if known(b, name) {
        let p = position(b, name);
        assert(a[p].name() == name);
    }
}

/// A service that has finished, well or badly, is not moved by any status change.
pub proof fn law_finished_is_final(sh: ServiceHandlerView, new_status: ServiceStatus)
    requires
        sh.has_finished(),
    ensures
        status_changed(sh, new_status) == sh,
{
}

/// Whatever status changes are applied, services that have finished stay as they are.
pub proof fn law_changes_keep_the_finished(services: Seq<ServiceHandlerView>, evs: Seq<EventView>)
    requires
        distinct(services),
        applicable(services, evs),
    ensures
        forall|i: int|
            0 <= i < services.len() && (#[trigger] services[i]).has_finished() ==> after_changes(
                services,
                evs,
            )[i] == services[i],
        all_finished(services) ==> after_changes(services, evs) == services,
    decreases evs.len(),
{
    law_changes_keep_names(services, evs);
    if evs.len() > 0 {
        let shorter = evs.drop_last();
        let before = after_changes(services, shorter);
        assert(applicable(services, shorter)) by {
            assert forall|i: int| 0 <= i < shorter.len() implies (
            #[trigger] shorter[i] matches EventView::StatusChanged(name, status) ==> known(
                services,
                name,
            ) && is_target(status)) by {
                assert(shorter[i] == evs[i]);
            }
        }
        law_changes_keep_names(services, shorter);
        law_changes_keep_the_finished(services, shorter);
        match evs.last() {
            EventView::StatusChanged(name, status) => {
                assert(evs[evs.len() - 1] == evs.last());
                lemma_known_by_names(services, before, name);
                let p = position(before, name);
                assert forall|i: int|
                    0 <= i < services.len() && (
                    #[trigger] services[i]).has_finished() implies after_changes(
                    services,
                    evs,
                )[i] == services[i] by {
                    assert(before[i] == services[i]);
                }
            },
            _ => {},
        }
    }
    if all_finished(services) {
        assert forall|i: int| 0 <= i < services.len() implies after_changes(services, evs)[i]
            == #[trigger] services[i] by {
            assert(services[i].has_finished());
        }
        assert(after_changes(services, evs) =~= services);
    }
}

/// Once all services have finished, moving them forward changes nothing, so the system stays
/// finished. While it shuts down, or where no failure concerns the others, nothing is needed
/// any more.
pub proof fn law_all_finished_is_stable(rt: RuntimeView, overdue: Seq<bool>)
    requires
        distinct(rt.repo.services),
        all_finished(rt.repo.services),
    ensures
        after_changes(rt.repo.services, all_needs(rt, overdue)) == rt.repo.services,
        rt.is_shutting_down || (forall|i: int|
            0 <= i < rt.repo.services.len() ==> ((#[trigger] rt.repo.services[i]).status
                == ServiceStatus::FinishedFailed
                ==> rt.repo.services[i].service.failure.strategy == FailureStrategy::Ignore))
            ==> all_needs(rt, overdue) == Seq::<EventView>::empty(),
{
    law_needs_are_applicable(rt, overdue);
    law_changes_keep_the_finished(rt.repo.services, all_needs(rt, overdue));
    if rt.is_shutting_down || (forall|i: int|
        0 <= i < rt.repo.services.len() ==> ((#[trigger] rt.repo.services[i]).status
            == ServiceStatus::FinishedFailed ==> rt.repo.services[i].service.failure.strategy
            == FailureStrategy::Ignore)) {
        lemma_finished_need_nothing(rt, overdue, rt.repo.services.len());
    }
}

proof fn lemma_finished_need_nothing(rt: RuntimeView, overdue: Seq<bool>, n: nat)
    requires
        n <= rt.repo.services.len(),
        all_finished(rt.repo.services),
        rt.is_shutting_down || (forall|i: int|
            0 <= i < rt.repo.services.len() ==> ((#[trigger] rt.repo.services[i]).status
                == ServiceStatus::FinishedFailed
                ==> rt.repo.services[i].service.failure.strategy == FailureStrategy::Ignore)),
    ensures
        needs_of_first(rt, overdue, n) == Seq::<EventView>::empty(),
    decreases n,
{
    if n > 0 {
        lemma_finished_need_nothing(rt, overdue, (n - 1) as nat);
        assert(rt.repo.services[n - 1].has_finished());
        assert(needs_of_first(rt, overdue, n) =~= Seq::<EventView>::empty());
    }
}

/// Applying some status changes and then others is applying all of them.
pub proof fn lemma_changes_concat(
    services: Seq<ServiceHandlerView>,
    a: Seq<EventView>,
    b: Seq<EventView>,
)
    ensures
        after_changes(services, a + b) == after_changes(after_changes(services, a), b),
    decreases b.len(),
{
    if b.len() == 0 {
        assert(a + b =~= a);
    } else {
        lemma_changes_concat(services, a, b.drop_last());
        assert((a + b).drop_last() =~= a + b.drop_last());
        assert((a + b).last() == b.last());
    }
}

/// A service one step nearer to its end.
pub open spec fn shut_down_step(sh: ServiceHandlerView) -> ServiceHandlerView {
    match sh.status {
        ServiceStatus::Running | ServiceStatus::Started => sh.with_status(
            ServiceStatus::InKilling,
        ),
        ServiceStatus::Success | ServiceStatus::Initial => sh.with_status(ServiceStatus::Finished),
        ServiceStatus::Failed => sh.with_status(ServiceStatus::FinishedFailed),
        _ => sh,
    }
}

/// The first `n` services one step nearer to their end.
spec fn first_stepped(services: Seq<ServiceHandlerView>, n: nat) -> Seq<ServiceHandlerView> {
    Seq::new(
        services.len(),
        |i: int|
            if i < n {
                shut_down_step(services[i])
            } else {
                services[i]
            },
    )
}

proof fn lemma_shutting_down_steps(rt: RuntimeView, overdue: Seq<bool>, n: nat)
    requires
        rt.is_shutting_down,
        distinct(rt.repo.services),
        n <= rt.repo.services.len(),
    ensures
        after_changes(rt.repo.services, needs_of_first(rt, overdue, n)) == first_stepped(
            rt.repo.services,
            n,
        ),
    decreases n,
{
    let services = rt.repo.services;
    if n == 0 {
        assert(first_stepped(services, 0) =~= services);
    } else {
        let m = (n - 1) as nat;
        let sh = services[m as int];
        let before = first_stepped(services, m);
        let evs = next_needs(rt, sh, overdue[m as int]);
        lemma_shutting_down_steps(rt, overdue, m);
        lemma_changes_concat(services, needs_of_first(rt, overdue, m), evs);
        assert forall|i: int| 0 <= i < services.len() implies #[trigger] before[i].name()
            == services[i].name() by {}
        assert(distinct(before)) by {
            assert forall|i: int, j: int| 0 <= i < j < before.len() implies
                #[trigger] before[i].name() != #[trigger] before[j].name() by {
                assert(services[i].name() != services[j].name());
            }
        }
        lemma_position(before, m as int);
        assert(before[m as int] == sh);
        let after = before.update(m as int, shut_down_step(sh));
        lemma_update_keeps_names(before, m as int, shut_down_step(sh));
        reveal_with_fuel(after_changes, 3);
        if evs.len() == 0 {
            assert(shut_down_step(sh) == sh);
            assert(after =~= before);
        } else if evs.len() == 1 {
            assert(evs.drop_last() =~= Seq::<EventView>::empty());
        } else {
            assert(evs.drop_last().drop_last() =~= Seq::<EventView>::empty());
        }
        assert(after_changes(before, evs) == after);
        assert(after =~= first_stepped(services, n));
    }
}

/// While the system shuts down, moving the services forward takes every one of them a step
/// nearer to its end.
pub proof fn law_shutting_down_makes_progress(rt: RuntimeView, overdue: Seq<bool>)
    requires
        rt.is_shutting_down,
        distinct(rt.repo.services),
    ensures
        after_changes(rt.repo.services, all_needs(rt, overdue)) == Seq::new(
            rt.repo.services.len(),
            |i: int| shut_down_step(rt.repo.services[i]),
        ),
{
    lemma_shutting_down_steps(rt, overdue, rt.repo.services.len());
    assert(first_stepped(rt.repo.services, rt.repo.services.len()) =~= Seq::new(
        rt.repo.services.len(),
        |i: int| shut_down_step(rt.repo.services[i]),
    ));
}

/// Where no process is left to wait for, a system that shuts down has finished after one step
/// forward, and some service has failed for good exactly where one had failed before.
pub proof fn law_shutting_down_finishes(rt: RuntimeView, overdue: Seq<bool>)
    requires
        rt.is_shutting_down,
        distinct(rt.repo.services),
        forall|i: int|
            0 <= i < rt.repo.services.len() ==> {
                let status = (#[trigger] rt.repo.services[i]).status;
                ||| status == ServiceStatus::Initial
                ||| status == ServiceStatus::Success
                ||| status == ServiceStatus::Failed
                ||| rt.repo.services[i].has_finished()
            },
    ensures
        all_finished(after_changes(rt.repo.services, all_needs(rt, overdue))),
        exit_status(after_changes(rt.repo.services, all_needs(rt, overdue)))
            == ExitStatus::SomeServiceFailed <==> exists|i: int|
            0 <= i < rt.repo.services.len() && ((#[trigger] rt.repo.services[i]).status
                == ServiceStatus::Failed || rt.repo.services[i].status
                == ServiceStatus::FinishedFailed),
{
    let services = rt.repo.services;
    let after = after_changes(services, all_needs(rt, overdue));
    law_shutting_down_makes_progress(rt, overdue);
    assert forall|i: int| 0 <= i < after.len() implies (#[trigger] after[i]).has_finished() by {
        assert(after[i] == shut_down_step(services[i]));
    }
    if exists|i: int|
        0 <= i < services.len() && ((#[trigger] services[i]).status == ServiceStatus::Failed
            || services[i].status == ServiceStatus::FinishedFailed) {
        let i = choose|i: int|
            0 <= i < services.len() && ((#[trigger] services[i]).status == ServiceStatus::Failed
                || services[i].status == ServiceStatus::FinishedFailed);
        assert(after[i].status == ServiceStatus::FinishedFailed);
    }
    if exit_status(after) == ExitStatus::SomeServiceFailed {
        let i = choose|i: int|
            0 <= i < after.len() && (#[trigger] after[i]).status == ServiceStatus::FinishedFailed;
        assert(after[i] == shut_down_step(services[i]));
        assert(services[i].status == ServiceStatus::Failed || services[i].status
            == ServiceStatus::FinishedFailed);
    }
}

/// A status change that a service needs next for itself is one that is allowed. This leaves
/// out a service that waits for itself, or is to die where it itself fails.
pub proof fn law_own_change_is_allowed(rt: RuntimeView, sh: ServiceHandlerView, overdue: bool)
    requires
        !dependents(rt.repo.services, sh.name()).contains(sh.name()),
        !mourners(rt.repo.services, sh.name()).contains(sh.name()),
    ensures
        forall|k: int|
            0 <= k < next_needs(rt, sh, overdue).len() ==> (#[trigger] next_needs(
                rt,
                sh,
                overdue,
            )[k] matches EventView::StatusChanged(name, status) ==> name == sh.name()
                ==> allowed_from(status).contains(sh.status)),
{
    let evs = next_needs(rt, sh, overdue);
    let deps = dependents(rt.repo.services, sh.name());
    let others = mourners(rt.repo.services, sh.name());
    assert forall|k: int| 0 <= k < evs.len() implies (
    #[trigger] evs[k] matches EventView::StatusChanged(name, status) ==> name == sh.name()
        ==> allowed_from(status).contains(sh.status)) by {
        if !rt.is_shutting_down && (sh.status == ServiceStatus::Failed || sh.status
            == ServiceStatus::FinishedFailed) {
            let failures = failure_events(sh.service.failure.strategy, deps);
            if k < failures.len() {
                assert(evs[k] == failures[k]);
                if sh.service.failure.strategy == FailureStrategy::KillDependents {
                    assert(0 <= k / 2 < deps.len());
                    assert(deps.contains(deps[k / 2]));
                }
            } else if k == failures.len() {
                assert(evs[k] == EventView::StatusChanged(
                    sh.name(),
                    restart_status(sh.service.restart.strategy, true),
                ));
            } else {
                let j = k - failures.len() - 1;
                assert(evs[k] == kill_each(others)[j]);
                assert(0 <= j / 2 < others.len());
                assert(others.contains(others[j / 2]));
            }
        }
    }
}

/// The service that an event is about.
pub open spec fn subject(ev: EventView) -> Option<Seq<char>> {
    match ev {
        EventView::PidChanged(name, _) => Some(name),
        EventView::StatusChanged(name, _) => Some(name),
        EventView::ServiceExited(name, _) => Some(name),
        EventView::ForceKill(name) => Some(name),
        EventView::Kill(name) => Some(name),
        EventView::ShuttingDownInitiated => None,
        EventView::SpawnFailed(name) => Some(name),
        EventView::Run(name) => Some(name),
        EventView::HealthCheck(name, _) => Some(name),
    }
}

/// Handling an event changes no service but the one that it is about, and not what that one
/// is. A system that shuts down keeps doing so, and starts to where it is asked to, which is
/// answered by nothing, or where a service that is to be started could not be prepared, and
/// nowhere else.
pub proof fn law_handling_is_local(rt: RuntimeView, ev: EventView, prepared: bool, now: Instant)
    requires
        distinct(rt.repo.services),
        accepts(rt, ev, prepared),
    ensures
        handled(rt, ev, prepared, now).0.repo.services.len() == rt.repo.services.len(),
        forall|i: int|
            0 <= i < rt.repo.services.len() ==> (#[trigger] handled(
                rt,
                ev,
                prepared,
                now,
            ).0.repo.services[i]).service == rt.repo.services[i].service,
        forall|i: int|
            0 <= i < rt.repo.services.len() && subject(ev) != Some(
                (#[trigger] rt.repo.services[i]).name(),
            ) ==> handled(rt, ev, prepared, now).0.repo.services[i] == rt.repo.services[i],
        handled(rt, ev, prepared, now).0.repo.bus == rt.repo.bus,
        handled(rt, ev, prepared, now).0.is_shutting_down == (rt.is_shutting_down || ev
            == EventView::ShuttingDownInitiated || (ev matches EventView::Run(name)
            && rt.service(name).status == ServiceStatus::Initial && !prepared)),
        ev == EventView::ShuttingDownInitiated ==> handled(rt, ev, prepared, now).1 == no_answer(),
{
    let services = rt.repo.services;
    match subject(ev) {
        Some(name) => {
            if known(services, name) {
                let p = position(services, name);
                assert(services[p].name() == name);
            }
        },
        None => {},
    }
}

/// What an event does to the statuses, its answer tells: a status that the answer names is the
/// one that the service has now, and where a status is another one than before, the answer
/// names it. Besides, an answer holds only that the system shuts down, which it then does.
pub proof fn law_answers_tell_the_statuses(
    rt: RuntimeView,
    ev: EventView,
    prepared: bool,
    now: Instant,
)
    requires
        distinct(rt.repo.services),
        accepts(rt, ev, prepared),
    ensures
        ({
            let (after, answer) = handled(rt, ev, prepared, now);
            &&& forall|k: int|
                0 <= k < answer.events.len() ==> match #[trigger] answer.events[k] {
                    EventView::StatusChanged(name, status) => known(after.repo.services, name)
                        && after.service(name).status == status,
                    EventView::ShuttingDownInitiated => after.is_shutting_down,
                    _ => false,
                }
            &&& forall|i: int|
                0 <= i < rt.repo.services.len() && (#[trigger] after.repo.services[i]).status
                    != rt.repo.services[i].status ==> answer.events.contains(
                    EventView::StatusChanged(
                        rt.repo.services[i].name(),
                        after.repo.services[i].status,
                    ),
                )
        }),
{
    let services = rt.repo.services;
    let (after, answer) = handled(rt, ev, prepared, now);
    law_handling_is_local(rt, ev, prepared, now);
    match subject(ev) {
        Some(name) => {
            if known(services, name) {
                let p = position(services, name);
                lemma_update_keeps_names(services, p, after.repo.services[p]);
                assert(after.repo.services =~= services.update(p, after.repo.services[p]));
                assert forall|i: int|
                    0 <= i < services.len() && (#[trigger] after.repo.services[i]).status
                        != services[i].status implies answer.events.contains(
                    EventView::StatusChanged(services[i].name(), after.repo.services[i].status),
                ) by {
                    assert(i == p);
                    assert(answer.events[0] == EventView::StatusChanged(
                        name,
                        after.repo.services[p].status,
                    ));
                }
            }
        },
        None => {},
    }
}

/// Every process that is noted was started for a service that is there.
pub open spec fn pids_are_of_services(rt: RuntimeView) -> bool {
    forall|pid: i32| #[trigger]
        rt.repo.pids.dom().contains(pid) ==> known(rt.repo.services, rt.repo.pids[pid])
}

/// Handling events and moving services forward keep every noted process with a service that
/// is there.
pub proof fn law_pids_stay_with_services(
    rt: RuntimeView,
    ev: EventView,
    prepared: bool,
    now: Instant,
    evs: Seq<EventView>,
)
    requires
        distinct(rt.repo.services),
        pids_are_of_services(rt),
        accepts(rt, ev, prepared),
        applicable(rt.repo.services, evs),
    ensures
        pids_are_of_services(handled(rt, ev, prepared, now).0),
        pids_are_of_services(
            RuntimeView {
                repo: RepoView { services: after_changes(rt.repo.services, evs), ..rt.repo },
                ..rt
            },
        ),
{
    let services = rt.repo.services;
    let after = handled(rt, ev, prepared, now).0;
    law_handling_is_local(rt, ev, prepared, now);
    assert forall|i: int| 0 <= i < services.len() implies #[trigger] after.repo.services[i].name()
        == services[i].name() by {
        assert(after.repo.services[i].service == services[i].service);
    }
    let moved = after.repo.services;
    assert(distinct(moved)) by {
        assert forall|i: int, j: int| 0 <= i < j < moved.len() implies #[trigger] moved[i].name()
            != #[trigger] moved[j].name() by {
            assert(services[i].name() != services[j].name());
        }
    }
    assert forall|pid: i32| #[trigger] after.repo.pids.dom().contains(pid) implies known(
        after.repo.services,
        after.repo.pids[pid],
    ) by {
        let name = after.repo.pids[pid];
        if rt.repo.pids.dom().contains(pid) && rt.repo.pids[pid] == name {
            assert(known(services, name));
        }
        lemma_known_by_names(services, after.repo.services, name);
    }
    law_changes_keep_names(services, evs);
    assert forall|pid: i32| #[trigger] rt.repo.pids.dom().contains(pid) implies known(
        after_changes(services, evs),
        rt.repo.pids[pid],
    ) by {
        lemma_known_by_names(services, after_changes(services, evs), rt.repo.pids[pid]);
    }
}

/// A process that was noted is forgotten once it has exited: its service has no process then,
/// and the process no service.
pub proof fn law_exit_undoes_start(
    rt: RuntimeView,
    name: Seq<char>,
    pid: i32,
    exit_code: i32,
    now: Instant,
)
    requires
        distinct(rt.repo.services),
        known(rt.repo.services, name),
    ensures
        ({
            let started = handled(rt, EventView::PidChanged(name, pid), true, now).0;
            let ended = handled(started, EventView::ServiceExited(name, exit_code), true, now).0;
            &&& started.service(name).pid == Some(pid)
            &&& started.repo.pids.dom().contains(pid) && started.repo.pids[pid] == name
            &&& ended.service(name).pid is None
            &&& ended.service(name).shutting_down_start is None
            &&& ended.repo.pids == rt.repo.pids.remove(pid)
        }),
{
    let p = position(rt.repo.services, name);
    let sh = rt.service(name);
    let started = handled(rt, EventView::PidChanged(name, pid), true, now).0;
    assert(sh.name() == name);
    lemma_update_keeps_names(rt.repo.services, p, started.repo.services[p]);
    assert(position(started.repo.services, name) == p);
    let ended = handled(started, EventView::ServiceExited(name, exit_code), true, now).0;
    lemma_update_keeps_names(started.repo.services, p, ended.repo.services[p]);
    assert(position(ended.repo.services, name) == p);
    assert(rt.repo.pids.insert(pid, name).remove(pid) =~= rt.repo.pids.remove(pid));
}

/// A service that is asked to terminate while it is up gets the signal that it is configured
/// with, and its time to exit starts to run. One that is not to be killed gets no signal.
pub proof fn law_kill_signals_the_process(rt: RuntimeView, name: Seq<char>, now: Instant)
    requires
        distinct(rt.repo.services),
        known(rt.repo.services, name),
        rt.service(name).pid is Some,
        allowed_from(ServiceStatus::InKilling).contains(rt.service(name).status),
        rt.service(name).status != ServiceStatus::Initial,
    ensures
        ({
            let asked = RuntimeView {
                repo: RepoView {
                    services: after_changes(
                        rt.repo.services,
                        seq![EventView::StatusChanged(name, ServiceStatus::InKilling)],
                    ),
                    ..rt.repo
                },
                ..rt
            };
            let (after, answer) = handled(asked, EventView::Kill(name), true, now);
            &&& answer.action == Some(
                ActionView::Signal(
                    rt.service(name).pid->0,
                    rt.service(name).service.termination.signal,
                ),
            )
            &&& after.service(name).shutting_down_start == Some(now)
            &&& after.service(name).status == ServiceStatus::InKilling
        }),
        handled(rt, EventView::Kill(name), true, now) == (rt, no_answer()),
{
    let services = rt.repo.services;
    let p = position(services, name);
    let ev = EventView::StatusChanged(name, ServiceStatus::InKilling);
    assert(seq![ev].drop_last() =~= Seq::<EventView>::empty());
    reveal_with_fuel(after_changes, 2);
    let asked = after_changes(services, seq![ev]);
    lemma_update_keeps_names(services, p, asked[p]);
    assert(position(asked, name) == p);
    lemma_update_keeps_names(
        asked,
        p,
        ServiceHandlerView { shutting_down_start: Some(now), ..asked[p] },
    );
}

/// A service that is asked to terminate while it starts, and has no process yet, is given the
/// time to get one: it gets no signal, and however long it takes it is not killed. As soon as
/// it has a process it gets the signal that it is configured with, and its time to exit starts
/// to run anew.
pub proof fn law_late_process_is_signalled(
    rt: RuntimeView,
    name: Seq<char>,
    pid: i32,
    asked_at: Instant,
    started_at: Instant,
    elapsed: Duration,
)
    requires
        distinct(rt.repo.services),
        known(rt.repo.services, name),
        rt.service(name).pid is None,
        rt.service(name).status == ServiceStatus::Starting,
    ensures
        ({
            let marked = RuntimeView {
                repo: RepoView {
                    services: after_changes(
                        rt.repo.services,
                        seq![EventView::StatusChanged(name, ServiceStatus::InKilling)],
                    ),
                    ..rt.repo
                },
                ..rt
            };
            let (asked, first) = handled(marked, EventView::Kill(name), true, asked_at);
            let started = EventView::PidChanged(name, pid);
            let (after, second) = handled(asked, started, true, started_at);
            &&& first == no_answer()
            &&& !force_kill_due(asked.service(name), elapsed)
            &&& second.events == Seq::<EventView>::empty()
            &&& second.action == Some(
                ActionView::Signal(pid, rt.service(name).service.termination.signal),
            )
            &&& after.service(name).shutting_down_start == Some(started_at)
            &&& after.service(name).status == ServiceStatus::InKilling
        }),
{
    let services = rt.repo.services;
    let p = position(services, name);
    let ev = EventView::StatusChanged(name, ServiceStatus::InKilling);
    assert(seq![ev].drop_last() =~= Seq::<EventView>::empty());
    reveal_with_fuel(after_changes, 2);
    let marked = after_changes(services, seq![ev]);
    lemma_update_keeps_names(services, p, marked[p]);
    assert(position(marked, name) == p);
    let waiting = ServiceHandlerView { shutting_down_start: Some(asked_at), ..marked[p] };
    lemma_update_keeps_names(marked, p, waiting);
    let asked = marked.update(p, waiting);
    assert(position(asked, name) == p);
    lemma_update_keeps_names(
        asked,
        p,
        ServiceHandlerView { pid: Some(pid), shutting_down_start: Some(started_at), ..waiting },
    );
}

/// A service that did not exit in time is killed, and has then failed.
pub proof fn law_force_kill_ends_the_wait(rt: RuntimeView, name: Seq<char>, now: Instant)
    requires
        distinct(rt.repo.services),
        known(rt.repo.services, name),
        rt.service(name).pid is Some,
        rt.service(name).status == ServiceStatus::InKilling,
    ensures
        next_needs(rt, rt.service(name), true).contains(EventView::ForceKill(name)),
        handled(rt, EventView::ForceKill(name), true, now).1.action == Some(
            ActionView::Signal(rt.service(name).pid->0, TerminationSignal::KILL),
        ),
        handled(rt, EventView::ForceKill(name), true, now).0.service(name).status
            == ServiceStatus::Failed,
{
    let sh = rt.service(name);
    let p = position(rt.repo.services, name);
    assert(sh.name() == name);
    assert(next_needs(rt, sh, true)[0] == EventView::ForceKill(name));
    lemma_update_keeps_names(rt.repo.services, p, sh.with_status(ServiceStatus::Failed));
}

/// Requests to kill some services hold, for each, the status change and the signal.
proof fn lemma_kill_each_holds(names: Seq<Seq<char>>, name: Seq<char>)
    requires
        names.contains(name),
    ensures
        kill_each(names).contains(EventView::StatusChanged(name, ServiceStatus::InKilling)),
        kill_each(names).contains(EventView::Kill(name)),
{
    let k = choose|k: int| 0 <= k < names.len() && names[k] == name;
    assert(kill_each(names)[2 * k] == EventView::StatusChanged(name, ServiceStatus::InKilling));
    assert(kill_each(names)[2 * k + 1] == EventView::Kill(name));
}

/// The failure of a service, while the system is up, reaches the others: those that are to
/// die with it are asked to as it fails, and those that wait for it are asked to where its
/// strategy is to kill them. Where its strategy is to shut down, the system is. The strategy
/// counts for services that have failed for good, too.
pub proof fn law_failure_reaches_the_others(rt: RuntimeView, i: int, j: int, overdue: bool)
    requires
        !rt.is_shutting_down,
        0 <= i < rt.repo.services.len(),
        0 <= j < rt.repo.services.len(),
        rt.repo.services[i].status == ServiceStatus::Failed || rt.repo.services[i].status
            == ServiceStatus::FinishedFailed,
    ensures
        ({
            let failed = rt.repo.services[i];
            let other = rt.repo.services[j];
            let evs = next_needs(rt, failed, overdue);
            let asked = evs.contains(
                EventView::StatusChanged(other.name(), ServiceStatus::InKilling),
            ) && evs.contains(EventView::Kill(other.name()));
            &&& failed.status == ServiceStatus::Failed
                && other.service.termination.die_if_failed.contains(failed.name()) ==> asked
            &&& failed.service.failure.strategy == FailureStrategy::KillDependents
                && other.service.start_after.contains(failed.name()) ==> asked
            &&& failed.service.failure.strategy == FailureStrategy::Shutdown ==> evs.contains(
                EventView::ShuttingDownInitiated,
            )
        }),
{
    let services = rt.repo.services;
    let failed = services[i];
    let other = services[j];
    let name = failed.name();
    let evs = next_needs(rt, failed, overdue);
    let deps = dependents(services, name);
    let others = mourners(services, name);
    let failures = failure_events(failed.service.failure.strategy, deps);
    let own = EventView::StatusChanged(name, restart_status(failed.service.restart.strategy, true));
    if failed.status == ServiceStatus::Failed {
        assert(evs == failures.push(own) + kill_each(others));
    } else {
        assert(evs == failures);
    }
    assert forall|ev: EventView| failures.contains(ev) implies #[trigger] evs.contains(ev) by {
        let k = choose|k: int| 0 <= k < failures.len() && failures[k] == ev;
        assert(evs[k] == ev);
    }
    if failed.status == ServiceStatus::Failed
        && other.service.termination.die_if_failed.contains(name) {
        assert forall|ev: EventView| kill_each(others).contains(
            ev,
        ) implies #[trigger] evs.contains(ev) by {
            let k = choose|k: int| 0 <= k < kill_each(others).len() && kill_each(others)[k] == ev;
            assert(evs[failures.len() + 1 + k] == ev);
        }
        let pick = |s: ServiceHandlerView| s.service.termination.die_if_failed.contains(name);
        services.lemma_filter_contains(pick, j);
        let k = choose|k: int|
            0 <= k < services.filter(pick).len() && services.filter(pick)[k] == other;
        assert(others[k] == other.name());
        lemma_kill_each_holds(others, other.name());
    }
    if failed.service.failure.strategy == FailureStrategy::KillDependents
        && other.service.start_after.contains(name) {
        let pick = |s: ServiceHandlerView| s.service.start_after.contains(name);
        services.lemma_filter_contains(pick, j);
        let k = choose|k: int|
            0 <= k < services.filter(pick).len() && services.filter(pick)[k] == other;
        assert(deps[k] == other.name());
        lemma_kill_each_holds(deps, other.name());
    }
    if failed.service.failure.strategy == FailureStrategy::Shutdown {
        assert(failures[0] == EventView::ShuttingDownInitiated);
        assert(failures.contains(EventView::ShuttingDownInitiated));
    }
}

/// A service that is always restarted never ends; one that has failed never ends well; one
/// that has succeeded never ends badly.
pub proof fn law_restart_verdicts(strategy: RestartStrategy, is_failed: bool)
    ensures
        restart_status(RestartStrategy::Always, is_failed) == ServiceStatus::Initial,
        restart_status(strategy, true) != ServiceStatus::Finished,
        restart_status(strategy, false) != ServiceStatus::FinishedFailed,
        restart_status(RestartStrategy::Never, is_failed) != ServiceStatus::Initial,
        allowed_from(restart_status(strategy, is_failed)).contains(
            if is_failed {
                ServiceStatus::Failed
            } else {
                ServiceStatus::Success
            },
        ),
{
}

/// A healthiness check that succeeds makes up for those that failed before.
pub proof fn law_healthy_check_forgives(sh: ServiceHandlerView)
    ensures
        checked(checked(sh, HealthinessStatus::Unhealthy), HealthinessStatus::Healthy) == checked(
            sh,
            HealthinessStatus::Healthy,
        ),
{
}

/// A service that fails before it is up is given up exactly where it has used up more attempts
/// than it has, and otherwise starts anew.
pub proof fn law_attempts_are_limited(sh: ServiceHandlerView, exit_code: i32)
    requires
        is_early(sh.status),
        exit_is_failure(sh, exit_code),
        sh.restart_attempts < u32::MAX,
    ensures
        exited(sh, exit_code).restart_attempts == sh.restart_attempts + 1,
        exited(sh, exit_code).status == ServiceStatus::FinishedFailed <==> sh.restart_attempts
            >= sh.service.restart.attempts,
        exited(sh, exit_code).status == ServiceStatus::Initial <==> sh.restart_attempts
            < sh.service.restart.attempts,
{
}

} // verus!
