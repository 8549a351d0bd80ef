//! The supervised services, by name, and the processes that they run as.

use crate::bus::came_in;
use crate::bus::published;
use crate::bus::refused;
use crate::bus::send_refused;
use crate::bus::was_put;
use crate::bus::BusConnector;
use crate::bus::BusConnectorView;
use crate::formats::contains_name;
use crate::formats::event_views;
use crate::formats::name_views;
use crate::formats::Event;
use crate::formats::EventView;
use crate::formats::Pid;
use crate::formats::Service;
use crate::formats::ServiceName;
use crate::formats::ServiceStatus;
use crate::formats::ServiceView;
use crate::service_handler::handler_views;
use crate::service_handler::ServiceHandler;
use crate::service_handler::ServiceHandlerView;
use std::collections::HashMap;
use vstd::prelude::*;

verus! {

broadcast use vstd::std_specs::hash::group_hash_axioms;

/// The services of the system, and what connects it to the bus.
#[derive(Debug)]
pub struct Repo {
    services: Vec<ServiceHandler>,
    pids: HashMap<i32, ServiceName>,
    bus: BusConnector,
}

/// The mathematical value of a [`Repo`].
#[verifier::ext_equal]
pub struct RepoView {
    /// The services, no two of which have the same name.
    pub services: Seq<ServiceHandlerView>,
    /// The processes, each with the name of the service that it was started for.
    pub pids: Map<i32, Seq<char>>,
    pub bus: BusConnectorView,
}

/// A service has this name.
pub open spec fn known(services: Seq<ServiceHandlerView>, name: Seq<char>) -> bool {
    exists|i: int| 0 <= i < services.len() && #[trigger] services[i].name() == name
}

/// Where the service of this name is.
pub open spec fn position(services: Seq<ServiceHandlerView>, name: Seq<char>) -> int {
    choose|i: int| 0 <= i < services.len() && #[trigger] services[i].name() == name
}

/// No two services have the same name.
pub open spec fn distinct(services: Seq<ServiceHandlerView>) -> bool {
    forall|i: int, j: int|
        0 <= i < j < services.len() ==> #[trigger] services[i].name()
            != #[trigger] services[j].name()
}

/// The services with one more: it replaces the one of the same name, if there is one.
pub open spec fn with_handler(
    services: Seq<ServiceHandlerView>,
    sh: ServiceHandlerView,
) -> Seq<ServiceHandlerView> {
    if known(services, sh.name()) {
        services.update(position(services, sh.name()), sh)
    } else {
        services.push(sh)
    }
}

/// A service that has not been started yet.
pub open spec fn fresh_handler(service: ServiceView) -> ServiceHandlerView {
    ServiceHandlerView {
        service,
        status: ServiceStatus::Initial,
        pid: None,
        restart_attempts: 0,
        healthiness_checks_failed: 0,
        shutting_down_start: None,
    }
}

/// The services that some definitions make: of those with the same name the last one counts.
pub open spec fn collected(services: Seq<ServiceView>) -> Seq<ServiceHandlerView>
    decreases services.len(),
{
    if services.len() == 0 {
        Seq::empty()
    } else {
        with_handler(collected(services.drop_last()), fresh_handler(services.last()))
    }
}

/// The service may start: it has not been started yet, and all that it has to wait for has.
pub open spec fn runnable(services: Seq<ServiceHandlerView>, sh: ServiceHandlerView) -> bool {
    &&& sh.status == ServiceStatus::Initial
    &&& forall|k: int|
        0 <= k < sh.service.start_after.len() ==> is_up(
            services,
            #[trigger] sh.service.start_after[k],
        )
}

/// A service of this name is up, or has been.
pub open spec fn is_up(services: Seq<ServiceHandlerView>, name: Seq<char>) -> bool {
    exists|i: int|
        0 <= i < services.len() && #[trigger] services[i].name() == name
            && services[i].has_started()
}

/// Nothing further will happen to any of the services.
pub open spec fn all_finished(services: Seq<ServiceHandlerView>) -> bool {
    forall|i: int| 0 <= i < services.len() ==> (#[trigger] services[i]).has_finished()
}

/// The names of the services that have to wait for this one, in order.
pub open spec fn dependents(services: Seq<ServiceHandlerView>, name: Seq<char>) -> Seq<Seq<char>> {
    services.filter(|sh: ServiceHandlerView| sh.service.start_after.contains(name)).map_values(
        |sh: ServiceHandlerView| sh.name(),
    )
}

/// The names of the services that are to die where this one fails, in order.
pub open spec fn mourners(services: Seq<ServiceHandlerView>, name: Seq<char>) -> Seq<Seq<char>> {
    services.filter(
        |sh: ServiceHandlerView| sh.service.termination.die_if_failed.contains(name),
    ).map_values(|sh: ServiceHandlerView| sh.name())
}

impl View for Repo {
    type V = RepoView;

    closed spec fn view(&self) -> RepoView {
        RepoView {
            services: handler_views(self.services@),
            pids: self.pids@.map_values(|name: ServiceName| name@),
            bus: self.bus@,
        }
    }
}

/// Among services with distinct names, a service is where its name is.
pub proof fn lemma_position(services: Seq<ServiceHandlerView>, i: int)
    requires
        distinct(services),
        0 <= i < services.len(),
    ensures
        known(services, services[i].name()),
        position(services, services[i].name()) == i,
{
    let p = position(services, services[i].name());
    assert(0 <= p < services.len() && services[p].name() == services[i].name());
    if p < i {
        assert(services[p].name() != services[i].name());
    } else if i < p {
        assert(services[i].name() != services[p].name());
    }
}

/// Replacing a service by one of the same name keeps the names distinct.
pub proof fn lemma_update_keeps_names(
    services: Seq<ServiceHandlerView>,
    i: int,
    sh: ServiceHandlerView,
)
    requires
        distinct(services),
        0 <= i < services.len(),
        sh.name() == services[i].name(),
    ensures
        distinct(services.update(i, sh)),
        forall|name: Seq<char>|
            #![trigger known(services.update(i, sh), name)]
            #![trigger known(services, name)]
            known(services.update(i, sh), name) == known(services, name),
        forall|name: Seq<char>|
            known(services, name) ==> #[trigger] position(services.update(i, sh), name)
                == position(services, name),
{
    let after = services.update(i, sh);
    assert forall|j: int| 0 <= j < services.len() implies #[trigger] after[j].name()
        == services[j].name() by {}
    assert forall|name: Seq<char>| #[trigger] known(after, name) == known(services, name) by {
        if known(services, name) {
            assert(after[position(services, name)].name() == name);
        }
        if known(after, name) {
            assert(services[position(after, name)].name() == name);
        }
    }
    assert forall|name: Seq<char>| known(services, name) implies #[trigger] position(after, name)
        == position(services, name) by {
        let p = position(services, name);
        assert(after[p].name() == name);
        lemma_position(after, p);
    }
}

/// Adding a service keeps the names distinct.
proof fn lemma_with_handler(services: Seq<ServiceHandlerView>, sh: ServiceHandlerView)
    requires
        distinct(services),
    ensures
        distinct(with_handler(services, sh)),
{
    if known(services, sh.name()) {
        lemma_update_keeps_names(services, position(services, sh.name()), sh);
    } else {
        assert forall|i: int| 0 <= i < services.len() implies #[trigger] services[i].name()
            != sh.name() by {}
    }
}

/// The services that some definitions make have distinct names, and each is as its last
/// definition says, not started yet.
pub proof fn law_last_definition_counts(defs: Seq<ServiceView>, i: int)
    requires
        0 <= i < defs.len(),
        forall|j: int| i < j < defs.len() ==> (#[trigger] defs[j]).name != defs[i].name,
    ensures
        distinct(collected(defs)),
        known(collected(defs), defs[i].name),
        collected(defs)[position(collected(defs), defs[i].name)] == fresh_handler(defs[i]),
    decreases defs.len(),
{
    let shorter = defs.drop_last();
    let before = collected(shorter);
    let added = fresh_handler(defs.last());
    lemma_collected_is_distinct(shorter);
    lemma_with_handler(before, added);
    let after = collected(defs);
    if i == defs.len() - 1 {
        if known(before, added.name()) {
            let p = position(before, added.name());
            assert(after[p] == added);
            lemma_position(after, p);
        } else {
            assert(after[before.len() as int] == added);
            lemma_position(after, before.len() as int);
        }
    } else {
        assert(shorter[i] == defs[i]);
        assert forall|j: int| i < j < shorter.len() implies (#[trigger] shorter[j]).name
            != shorter[i].name by {
            assert(defs[j].name != defs[i].name);
        }
        law_last_definition_counts(shorter, i);
        assert(defs[defs.len() - 1].name != defs[i].name);
        let p = position(before, defs[i].name);
        assert(after[p] == before[p]);
        lemma_position(after, p);
    }
}

/// The services that some definitions make have distinct names.
pub proof fn lemma_collected_is_distinct(defs: Seq<ServiceView>)
    ensures
        distinct(collected(defs)),
    decreases defs.len(),
{
    if defs.len() > 0 {
        lemma_collected_is_distinct(defs.drop_last());
        lemma_with_handler(collected(defs.drop_last()), fresh_handler(defs.last()));
    }
}

impl Repo {
    /// No two services have the same name.
    pub open spec fn wf(self) -> bool {
        distinct(self@.services)
    }

    /// The services that these definitions make, none of them started.
    pub fn new(bus: BusConnector, services: Vec<Service>) -> (repo: Self)
        ensures
            repo.wf(),
            repo@.services == collected(
                Seq::new(services@.len(), |i: int| services@[i]@),
            ),
            repo@.pids == Map::<i32, Seq<char>>::empty(),
            repo@.bus == bus@,
    {
        let ghost defs = Seq::new(services@.len(), |i: int| services@[i]@);
        let mut repo = Repo { services: Vec::new(), pids: HashMap::new(), bus };
        assert(repo@.pids =~= Map::<i32, Seq<char>>::empty());
        assert(repo@.services =~= collected(defs.take(0)));
        for i in 0..services.len()
            invariant
                repo.wf(),
                defs == Seq::new(services@.len(), |j: int| services@[j]@),
                repo@.services == collected(defs.take(i as int)),
                repo@.pids == Map::<i32, Seq<char>>::empty(),
                repo@.bus == bus@,
        {
            let sh: ServiceHandler = ServiceHandler::from(services[i].clone());
            proof {
                assert(sh@ == fresh_handler(defs[i as int]));
                assert(defs.take(i + 1).drop_last() =~= defs.take(i as int));
                lemma_with_handler(repo@.services, sh@);
            }
            let ghost before = repo@.services;
            match repo.find(sh.name()) {
                Some(at) => {
                    let ghost added = sh@;
                    repo.services.set(at, sh);
                    assert(repo@.services =~= before.update(at as int, added));
                },
                None => {
                    let ghost added = sh@;
                    repo.services.push(sh);
                    assert(repo@.services =~= before.push(added));
                },
            }
        }
        assert(defs.take(defs.len() as int) =~= defs);
        repo
    }

    /// The services.
    pub fn services(&self) -> (services: &Vec<ServiceHandler>)
        ensures
            handler_views(services@) == self@.services,
    {
        &self.services
    }

    /// Where the service of this name is, if there is one.
    pub(crate) fn find(&self, name: &ServiceName) -> (at: Option<usize>)
        requires
            self.wf(),
        ensures
            at is Some <==> known(self@.services, name@),
            at matches Some(i) ==> i < self@.services.len() && i == position(
                self@.services,
                name@,
            ),
    {
        for i in 0..self.services.len()
            invariant
                self.wf(),
                forall|j: int| 0 <= j < i ==> #[trigger] self@.services[j].name() != name@,
        {
            if *self.services[i].name() == *name {
                proof {
                    assert(self@.services[i as int].name() == name@);
                    lemma_position(self@.services, i as int);
                }
                return Some(i);
            }
        }
        None
    }

    /// The service of this name.
    pub fn get_sh(&self, name: &ServiceName) -> (sh: &ServiceHandler)
        requires
            self.wf(),
            known(self@.services, name@),
        ensures
            sh@ == self@.services[position(self@.services, name@)],
    {
        let at = self.find(name).unwrap();
        &self.services[at]
    }

    /// The service of this name, to be changed.
    pub(crate) fn get_mut_sh(&mut self, name: &ServiceName) -> (sh: &mut ServiceHandler)
        requires
            old(self).wf(),
            known(old(self)@.services, name@),
        ensures
            sh@ == old(self)@.services[position(old(self)@.services, name@)],
            final(self)@.services == old(self)@.services.update(
                position(old(self)@.services, name@),
                final(sh)@,
            ),
            final(self)@.pids == old(self)@.pids,
            final(self)@.bus == old(self)@.bus,
    {
        let at = self.find(name).unwrap();
        &mut self.services[at]
    }

    /// The events that have come in. Non blocking.
    pub fn get_events(&mut self) -> (evs: Vec<Event>)
        ensures
            final(self)@ == (RepoView {
                bus: old(self)@.bus.with_taken(event_views(evs@)),
                ..old(self)@
            }),
            came_in(old(self)@.bus.inbox.channel, event_views(evs@)),
    {
        self.bus.try_get_events()
    }

    /// Sends an event to the bus. The event comes back where the bus is gone.
    pub fn send_ev(&mut self, ev: Event) -> (res: Result<(), Event>)
        ensures
            match res {
                Ok(_) => {
                    &&& final(self)@ == (RepoView {
                        bus: old(self)@.bus.with_put(seq![ev@]),
                        ..old(self)@
                    })
                    &&& was_put(old(self)@.bus.outbox.channel, ev@)
                },
                Err(back) => {
                    &&& back == ev
                    &&& final(self)@ == old(self)@
                    &&& send_refused(old(self)@.bus.outbox.channel, ev@)
                },
            },
    {
        self.bus.send_event(ev)
    }

    /// Sends some events to the bus, in order. The first one that could not be sent comes
    /// back, and those after it are not sent.
    pub fn send_evs(&mut self, evs: &Vec<Event>) -> (res: Result<(), Event>)
        ensures
            final(self)@ == (RepoView { bus: final(self)@.bus, ..old(self)@ }),
            final(self)@.bus.inbox == old(self)@.bus.inbox,
            published(
                old(self)@.bus.outbox,
                event_views(evs@),
                refused(res),
                final(self)@.bus.outbox,
            ),
    {
        self.bus.send_events(evs)
    }

    /// Another connector to the bus.
    pub fn bus(&self) -> (bus: BusConnector)
        ensures
            bus@ == self@.bus,
    {
        self.bus.clone()
    }

    /// Whether nothing further will happen to any service.
    pub fn all_have_finished(&self) -> (all: bool)
        ensures
            all == all_finished(self@.services),
    {
        for i in 0..self.services.len()
            invariant
                forall|j: int| 0 <= j < i ==> (#[trigger] self@.services[j]).has_finished(),
        {
            let sh = &self.services[i];
            assert(self@.services[i as int] == sh@);
            if !sh.is_finished() && !sh.is_finished_failed() {
                return false;
            }
        }
        true
    }

    /// Whether some service has failed for good.
    pub fn any_finished_failed(&self) -> (any: bool)
        ensures
            any == exists|i: int|
                0 <= i < self@.services.len() && (#[trigger] self@.services[i]).status
                    == ServiceStatus::FinishedFailed,
    {
        for i in 0..self.services.len()
            invariant
                forall|j: int|
                    0 <= j < i ==> (#[trigger] self@.services[j]).status
                        != ServiceStatus::FinishedFailed,
        {
            assert(self@.services[i as int] == self.services@[i as int]@);
            if self.services[i].is_finished_failed() {
                return true;
            }
        }
        false
    }

    /// Whether a service of this name is up, or has been.
    fn is_service_up(&self, name: &ServiceName) -> (up: bool)
        ensures
            up == is_up(self@.services, name@),
    {
        for i in 0..self.services.len()
            invariant
                forall|j: int|
                    0 <= j < i ==> !(#[trigger] self@.services[j].name() == name@
                        && self@.services[j].has_started()),
        {
            let sh = &self.services[i];
            assert(self@.services[i as int] == sh@);
            if *sh.name() == *name && (sh.is_running() || sh.is_finished()) {
                assert(self@.services[i as int].name() == name@);
                return true;
            }
        }
        false
    }

    /// Whether the service may start: it has not been started yet, and all that it has to wait
    /// for has.
    pub fn is_service_runnable(&self, sh: &ServiceHandler) -> (can_run: bool)
        ensures
            can_run == runnable(self@.services, sh@),
    {
        if !sh.is_initial() {
            return false;
        }
        let names = sh.start_after();
        for k in 0..names.len()
            invariant
                names == sh.service.start_after,
                forall|j: int|
                    0 <= j < k ==> is_up(self@.services, #[trigger] sh@.service.start_after[j]),
        {
            assert(sh@.service.start_after[k as int] == names@[k as int]@);
            if !self.is_service_up(&names[k]) {
                return false;
            }
        }
        true
    }

    /// The services that have to wait for this one.
    pub fn get_dependents(&self, name: &ServiceName) -> (names: Vec<ServiceName>)
        ensures
            name_views(names@) == dependents(self@.services, name@),
    {
        let mut names: Vec<ServiceName> = Vec::new();
        let ghost all = self@.services;
        reveal(Seq::filter);
        assert(name_views(names@) =~= dependents(all.take(0), name@));
        for i in 0..self.services.len()
            invariant
                all == self@.services,
                name_views(names@) == dependents(all.take(i as int), name@),
        {
            reveal(Seq::filter);
            let sh = &self.services[i];
            let ghost before = name_views(names@);
            assert(all[i as int] == sh@);
            assert(all.take(i + 1).drop_last() =~= all.take(i as int));
            if contains_name(&sh.service.start_after, name) {
                names.push(sh.name().clone());
                assert(name_views(names@) =~= before.push(sh@.name()));
            }
            assert(name_views(names@) =~= dependents(all.take(i + 1), name@));
        }
        assert(all.take(all.len() as int) =~= all);
        names
    }

    /// The services that are to die where this one fails.
    pub fn get_die_if_failed(&self, name: &ServiceName) -> (names: Vec<ServiceName>)
        ensures
            name_views(names@) == mourners(self@.services, name@),
    {
        let mut names: Vec<ServiceName> = Vec::new();
        let ghost all = self@.services;
        reveal(Seq::filter);
        assert(name_views(names@) =~= mourners(all.take(0), name@));
        for i in 0..self.services.len()
            invariant
                all == self@.services,
                name_views(names@) == mourners(all.take(i as int), name@),
        {
            reveal(Seq::filter);
            let sh = &self.services[i];
            let ghost before = name_views(names@);
            assert(all[i as int] == sh@);
            assert(all.take(i + 1).drop_last() =~= all.take(i as int));
            if contains_name(&sh.service.termination.die_if_failed, name) {
                names.push(sh.name().clone());
                assert(name_views(names@) =~= before.push(sh@.name()));
            }
            assert(name_views(names@) =~= mourners(all.take(i + 1), name@));
        }
        assert(all.take(all.len() as int) =~= all);
        names
    }

    /// Notes that a process runs for this service.
    pub(crate) fn add_pid(&mut self, pid: Pid, name: ServiceName)
        ensures
            final(self)@ == (RepoView {
                pids: old(self)@.pids.insert(pid@, name@),
                ..old(self)@
            }),
    {
        let ghost before = self@.pids;
        self.pids.insert(pid.as_raw(), name);
        assert(self@.pids =~= before.insert(pid@, name@));
    }

    /// Forgets a process.
    pub(crate) fn remove_pid(&mut self, pid: Pid)
        ensures
            final(self)@ == (RepoView { pids: old(self)@.pids.remove(pid@), ..old(self)@ }),
    {
        let ghost before = self@.pids;
        self.pids.remove(&pid.as_raw());
        assert(self@.pids =~= before.remove(pid@));
    }

    /// The event that a process has exited with this code, if it ran for a service.
    pub fn exit_event(&self, pid: Pid, exit_code: i32) -> (ev: Option<Event>)
        ensures
            match ev {
                Some(e) => self@.pids.dom().contains(pid@) && e@ == EventView::ServiceExited(
                    self@.pids[pid@],
                    exit_code,
                ),
                None => !self@.pids.dom().contains(pid@),
            },
    {
        match self.pids.get(&pid.as_raw()) {
            Some(name) => Some(Event::ServiceExited(name.clone(), exit_code)),
            None => None,
        }
    }
}

} // verus!
