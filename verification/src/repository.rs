//! The repository of services that the components share: each has its own copy, and tells the
//! others what it changes.

use crate::bus::came_in;
use crate::bus::send_refused;
use crate::bus::BusConnector;
use crate::bus::BusConnectorView;
use crate::formats::event_views;
use crate::formats::Event;
use crate::formats::EventView;
use crate::formats::Pid;
use crate::formats::ServiceName;
use crate::formats::ServiceStatus;
use crate::runtime::repo::distinct;
use crate::runtime::repo::is_up;
use crate::service_handler::handler_views;
use crate::service_handler::ServiceHandler;
use crate::service_handler::ServiceHandlerView;
use vstd::prelude::*;

verus! {

/// This struct hides the internal datastructures and operations on the service handlers.
/// It also handles the communication channel with the updates queue, by sending out all the
/// change requests. It can be freely cloned across threads.
#[derive(Debug)]
pub struct ServiceRepository {
    pub services: Vec<ServiceHandler>,
    updates_queue: BusConnector,
}

/// The mathematical value of a [`ServiceRepository`].
#[verifier::ext_equal]
pub struct ServiceRepositoryView {
    pub services: Seq<ServiceHandlerView>,
    pub updates_queue: BusConnectorView,
}

impl View for ServiceRepository {
    type V = ServiceRepositoryView;

    closed spec fn view(&self) -> ServiceRepositoryView {
        ServiceRepositoryView {
            services: handler_views(self.services@),
            updates_queue: self.updates_queue@,
        }
    }
}

/// A service after an update: only updates that name it concern it.
pub open spec fn updated(sh: ServiceHandlerView, ev: EventView) -> ServiceHandlerView {
    match ev {
        EventView::StatusChanged(name, status) if name == sh.name() => sh.with_status(status),
        EventView::PidChanged(name, pid) if name == sh.name() => ServiceHandlerView {
            pid: Some(pid),
            ..sh
        },
        _ => sh,
    }
}

/// A service after some updates, one after the other.
pub open spec fn after_updates(sh: ServiceHandlerView, evs: Seq<EventView>) -> ServiceHandlerView
    decreases evs.len(),
{
    if evs.len() == 0 {
        sh
    } else {
        updated(after_updates(sh, evs.drop_last()), evs.last())
    }
}

/// No service before this one has its name.
pub open spec fn is_first_of_name(services: Seq<ServiceHandlerView>, i: int) -> bool {
    forall|j: int| 0 <= j < i ==> #[trigger] services[j].name() != services[i].name()
}

/// The services after some updates. An update is consumed by the first service that it names.
pub open spec fn all_updated(
    services: Seq<ServiceHandlerView>,
    evs: Seq<EventView>,
) -> Seq<ServiceHandlerView> {
    Seq::new(
        services.len(),
        |i: int|
            if is_first_of_name(services, i) {
                after_updates(services[i], evs)
            } else {
                services[i]
            },
    )
}

/// The services, those of this name in another status.
pub open spec fn with_status_of(
    services: Seq<ServiceHandlerView>,
    name: Seq<char>,
    status: ServiceStatus,
) -> Seq<ServiceHandlerView> {
    Seq::new(
        services.len(),
        |i: int|
            if services[i].name() == name {
                services[i].with_status(status)
            } else {
                services[i]
            },
    )
}

/// The services, those of this name with another process.
pub open spec fn with_pid_of(
    services: Seq<ServiceHandlerView>,
    name: Seq<char>,
    pid: i32,
) -> Seq<ServiceHandlerView> {
    Seq::new(
        services.len(),
        |i: int|
            if services[i].name() == name {
                ServiceHandlerView { pid: Some(pid), ..services[i] }
            } else {
                services[i]
            },
    )
}

/// How many services have this name.
pub open spec fn count_of_name(services: Seq<ServiceHandlerView>, name: Seq<char>) -> nat {
    services.filter(|sh: ServiceHandlerView| sh.name() == name).len()
}

/// The first service that runs as this process is at `i`.
pub open spec fn is_first_with_pid(services: Seq<ServiceHandlerView>, pid: i32, i: int) -> bool {
    &&& 0 <= i < services.len()
    &&& services[i].pid == Some(pid)
    &&& forall|j: int| 0 <= j < i ==> (#[trigger] services[j]).pid != Some(pid)
}

/// The status that follows from an exit code.
pub open spec fn status_by_exit_code(sh: ServiceHandlerView, exit_code: i32) -> ServiceStatus {
    if sh.service.failure.successful_exit_code.contains(exit_code) {
        ServiceStatus::Success
    } else {
        ServiceStatus::Failed
    }
}

/// The service can run: it has not been started yet, or something that it waits for is up.
pub open spec fn can_run(services: Seq<ServiceHandlerView>, sh: ServiceHandlerView) -> bool {
    ||| sh.status == ServiceStatus::Initial
    ||| exists|k: int|
        0 <= k < sh.service.start_after.len() && is_up(
            services,
            #[trigger] sh.service.start_after[k],
        )
}

/// The updates that tell the status of those services that are given.
pub open spec fn status_updates(changed: Seq<Option<ServiceHandler>>) -> Seq<EventView>
    decreases changed.len(),
{
    if changed.len() == 0 {
        Seq::empty()
    } else {
        let before = status_updates(changed.drop_last());
        match changed.last() {
            Some(sh) => before.push(EventView::StatusChanged(sh@.name(), sh@.status)),
            None => before,
        }
    }
}

/// An update was sent, once, for each service that was handed back, in order, and nothing else
/// was: for all of `n` services, or up to the first update that was refused.
pub open spec fn mutations_told(
    before: BusConnectorView,
    handed_back: Seq<Option<ServiceHandler>>,
    n: nat,
    res: Result<(), Event>,
    after: BusConnectorView,
) -> bool {
    match res {
        Ok(_) => handed_back.len() == n && after == before.with_put(status_updates(handed_back)),
        Err(back) => {
            &&& handed_back.len() > 0
            &&& handed_back.last() matches Some(sh) && back@ == EventView::StatusChanged(
                sh@.name(),
                sh@.status,
            )
            &&& send_refused(before.outbox.channel, back@)
            &&& after == before.with_put(status_updates(handed_back.drop_last()))
        },
    }
}

/// The same event, so many times.
pub open spec fn copies(ev: EventView, n: nat) -> Seq<EventView> {
    Seq::new(n, |i: int| ev)
}

/// The services of this name were changed one after the other, and after each change the update
/// was sent, once, and nothing else was. Where an update was refused, the services after that
/// one were left as they are.
pub open spec fn changed_and_told(
    before: ServiceRepositoryView,
    name: Seq<char>,
    changed: Seq<ServiceHandlerView>,
    update: EventView,
    res: Result<(), Event>,
    after: ServiceRepositoryView,
) -> bool {
    match res {
        Ok(_) => after == (ServiceRepositoryView {
            services: changed,
            updates_queue: before.updates_queue.with_put(
                copies(update, count_of_name(before.services, name)),
            ),
        }),
        Err(back) => exists|k: int|
            {
                &&& 0 <= k < before.services.len()
                &&& #[trigger] before.services[k].name() == name
                &&& back@ == update
                &&& send_refused(before.updates_queue.outbox.channel, update)
                &&& after == (ServiceRepositoryView {
                    services: changed.take(k + 1) + before.services.skip(k + 1),
                    updates_queue: before.updates_queue.with_put(
                        copies(update, count_of_name(before.services.take(k), name)),
                    ),
                })
            },
    }
}

impl Clone for ServiceRepository {
    fn clone(&self) -> (copy: ServiceRepository)
        ensures
            copy@ == self@,
    {
        let mut services: Vec<ServiceHandler> = Vec::new();
        for i in 0..self.services.len()
            invariant
                handler_views(services@) == handler_views(self.services@).take(i as int),
        {
            let ghost before = services@;
            services.push(self.services[i].clone());
            assert(handler_views(services@) =~= handler_views(before).push(
                self.services@[i as int]@,
            ));
        }
        ServiceRepository { services, updates_queue: self.updates_queue.clone() }
    }
}

/// The update that tells the status of a service.
fn status_update(sh: &ServiceHandler) -> (ev: Event)
    ensures
        ev@ == EventView::StatusChanged(sh@.name(), sh@.status),
{
    Event::new_status_changed(sh.name(), sh.status)
}

/// Applies an update to a service, if it names it.
fn apply_update(sh: &mut ServiceHandler, ev: &Event)
    ensures
        final(sh)@ == updated(old(sh)@, ev@),
{
    match ev {
        Event::StatusChanged(name, status) => {
            if *sh.name() == *name {
                sh.set_status(*status);
            }
        },
        Event::PidChanged(name, pid) => {
            if *sh.name() == *name {
                sh.set_pid(*pid);
            }
        },
        _ => {},
    }
}

/// Applies some updates to a service, those that name it, one after the other.
fn apply_updates(sh: &mut ServiceHandler, events: &Vec<Event>)
    ensures
        final(sh)@ == after_updates(old(sh)@, event_views(events@)),
        final(sh)@.name() == old(sh)@.name(),
{
    let ghost before = sh@;
    let ghost evs = event_views(events@);
    for k in 0..events.len()
        invariant
            evs == event_views(events@),
            sh@ == after_updates(before, evs.take(k as int)),
            sh@.name() == before.name(),
    {
        assert(evs.take(k + 1).drop_last() =~= evs.take(k as int));
        assert(evs[k as int] == events@[k as int]@);
        apply_update(sh, &events[k]);
    }
    assert(evs.take(evs.len() as int) =~= evs);
}

/// Which service is the first of its name depends on the names alone.
proof fn lemma_first_by_names(a: Seq<ServiceHandlerView>, b: Seq<ServiceHandlerView>, i: int)
    requires
        a.len() == b.len(),
        0 <= i < a.len(),
        forall|j: int| 0 <= j < a.len() ==> #[trigger] a[j].name() == b[j].name(),
    ensures
        is_first_of_name(a, i) == is_first_of_name(b, i),
{
    if is_first_of_name(a, i) {
        assert forall|j: int| 0 <= j < i implies #[trigger] b[j].name() != b[i].name() by {
            assert(a[j].name() != a[i].name());
        }
    }
    if is_first_of_name(b, i) {
        assert forall|j: int| 0 <= j < i implies #[trigger] a[j].name() != a[i].name() by {
            assert(b[j].name() != b[i].name());
        }
    }
}

/// Among one more service there is one more of this name if it has that name.
proof fn lemma_count_one_more(services: Seq<ServiceHandlerView>, name: Seq<char>, i: int)
    requires
        0 <= i < services.len(),
    ensures
        count_of_name(services.take(i + 1), name) == count_of_name(services.take(i), name) + if
            services[i].name() == name {
            1nat
        } else {
            0nat
        },
{
    reveal(Seq::filter);
    assert(services.take(i + 1).drop_last() =~= services.take(i));
}

/// Sending an event so many times and then once more.
proof fn lemma_told_once_more(queue: BusConnectorView, ev: EventView, n: nat)
    ensures
        queue.with_put(copies(ev, n)).with_put(seq![ev]) == queue.with_put(copies(ev, n + 1)),
{
    assert(queue.outbox.put + copies(ev, n) + seq![ev] =~= queue.outbox.put + copies(ev, n + 1));
}

impl ServiceRepository {
    /// The services as they are held.
    pub closed spec fn handlers(self) -> Seq<ServiceHandler> {
        self.services@
    }

    /// A repository of these services.
    pub fn new<T: Into<ServiceHandler>>(services: Vec<T>, updates_queue: BusConnector) -> (repo:
        Self)
        ensures
            repo@.updates_queue == updates_queue@,
            repo@.services == handler_views(repo.handlers()),
            repo.handlers().len() == services@.len(),
            forall|i: int|
                0 <= i < services@.len() ==> call_ensures(
                    T::into,
                    (services@[i],),
                    #[trigger] repo.handlers()[i],
                ),
    {
        let mut handlers: Vec<ServiceHandler> = Vec::new();
        for service in iter: services
            invariant
                handlers@.len() == iter.index(),
                iter.seq() == services@,
                forall|j: int|
                    #![trigger handlers@[j]]
                    0 <= j < iter.index() ==> call_ensures(T::into, (services@[j],), handlers@[j]),
        {
            let sh: ServiceHandler = service.into();
            handlers.push(sh);
        }
        ServiceRepository { services: handlers, updates_queue }
    }

    /// The services that have failed.
    pub fn get_failed(&self) -> (failed: Vec<&ServiceHandler>)
        ensures
            Seq::new(failed@.len(), |i: int| failed@[i]@) == self@.services.filter(
                |sh: ServiceHandlerView| sh.status == ServiceStatus::Failed,
            ),
    {
        let ghost all = self@.services;
        let ghost pick = |sh: ServiceHandlerView| sh.status == ServiceStatus::Failed;
        let mut failed: Vec<&ServiceHandler> = Vec::new();
        reveal(Seq::filter);
        assert(Seq::new(failed@.len(), |i: int| failed@[i]@) =~= all.take(0).filter(pick));
        for i in 0..self.services.len()
            invariant
                all == self@.services,
                pick == (|sh: ServiceHandlerView| sh.status == ServiceStatus::Failed),
                Seq::new(failed@.len(), |j: int| failed@[j]@) == all.take(i as int).filter(pick),
        {
            reveal(Seq::filter);
            let ghost before = Seq::new(failed@.len(), |j: int| failed@[j]@);
            let sh = &self.services[i];
            assert(all[i as int] == sh@);
            assert(all.take(i + 1).drop_last() =~= all.take(i as int));
            if sh.is_failed() {
                failed.push(sh);
                assert(Seq::new(failed@.len(), |j: int| failed@[j]@) =~= before.push(sh@));
            }
        }
        assert(all.take(all.len() as int) =~= all);
        failed
    }

    /// Whether no service before this one has its name.
    fn is_first_of_its_name(&self, i: usize) -> (first: bool)
        requires
            i < self@.services.len(),
        ensures
            first == is_first_of_name(self@.services, i as int),
    {
        for j in 0..i
            invariant
                i < self@.services.len(),
                forall|k: int|
                    0 <= k < j ==> #[trigger] self@.services[k].name()
                        != self@.services[i as int].name(),
        {
            if *self.services[j].name() == *self.services[i].name() {
                assert(self@.services[j as int].name() == self@.services[i as int].name());
                return false;
            }
        }
        true
    }

    /// Applies some updates. An update is consumed by the first service that it names.
    pub fn update_from_events(&mut self, events: Vec<Event>)
        ensures
            final(self)@ == (ServiceRepositoryView {
                services: all_updated(old(self)@.services, event_views(events@)),
                ..old(self)@
            }),
    {
        let ghost before = self@;
        let ghost evs = event_views(events@);
        let ghost goal = all_updated(before.services, evs);
        let n = self.services.len();
        for i in 0..n
            invariant
                n == before.services.len(),
                evs == event_views(events@),
                goal == all_updated(before.services, evs),
                self@.services.len() == before.services.len(),
                self@.updates_queue == before.updates_queue,
                forall|j: int| 0 <= j < i ==> #[trigger] self@.services[j] == goal[j],
                forall|j: int|
                    i <= j < before.services.len() ==> #[trigger] self@.services[j]
                        == before.services[j],
                forall|j: int|
                    0 <= j < before.services.len() ==> #[trigger] self@.services[j].name()
                        == before.services[j].name(),
        {
            let ghost prior = self@.services;
            let first = self.is_first_of_its_name(i);
            proof {
                lemma_first_by_names(prior, before.services, i as int);
            }
            if first {
                assert(prior[i as int] == self.services@[i as int]@);
                apply_updates(&mut self.services[i], &events);
                assert(self@.services =~= prior.update(
                    i as int,
                    after_updates(prior[i as int], evs),
                ));
            }
        }
        assert(self@.services =~= goal);
    }

    /// Process all the received services changes. Non-blocking.
    pub fn ingest(&mut self, _name: &str)
        ensures
            exists|evs: Seq<EventView>|
                {
                    &&& #[trigger] came_in(old(self)@.updates_queue.inbox.channel, evs)
                    &&& final(self)@ == (ServiceRepositoryView {
                        services: all_updated(old(self)@.services, evs),
                        updates_queue: old(self)@.updates_queue.with_taken(evs),
                    })
                },
    {
        let ghost before = self@;
        let updates = self.updates_queue.try_get_events();
        let ghost evs = event_views(updates@);
        let ghost goal = ServiceRepositoryView {
            services: all_updated(before.services, evs),
            updates_queue: before.updates_queue.with_taken(evs),
        };
        if updates.len() > 0 {
            self.update_from_events(updates);
        } else {
            proof {
                law_no_updates_change_nothing(before.services);
                assert(evs =~= Seq::<EventView>::empty());
            }
        }
        assert(self@ =~= goal);
    }

    /// Puts the first service that runs as this process into the status that follows from an
    /// exit code, and sends an update to the other components. True if the update was applied,
    /// false otherwise. The update comes back where the bus is gone.
    pub fn update_status_by_exit_code(&mut self, pid: Pid, exit_code: i32) -> (res: Result<
        bool,
        Event,
    >)
        ensures
            forall|i: int| #[trigger]
                is_first_with_pid(old(self)@.services, pid@, i) ==> {
                    let sh = old(self)@.services[i];
                    let status = status_by_exit_code(sh, exit_code);
                    let ev = EventView::StatusChanged(sh.name(), status);
                    let queue = old(self)@.updates_queue;
                    &&& final(self)@.services == old(self)@.services.update(
                        i,
                        sh.with_status(status),
                    )
                    &&& match res {
                        Ok(applied) => applied && final(self)@.updates_queue == queue.with_put(
                            seq![ev],
                        ),
                        Err(back) => {
                            &&& back@ == ev
                            &&& final(self)@.updates_queue == queue
                            &&& send_refused(queue.outbox.channel, ev)
                        },
                    }
                },
            (forall|i: int| !#[trigger] is_first_with_pid(old(self)@.services, pid@, i)) ==> res
                == Ok::<bool, Event>(false) && final(self)@ == old(self)@,
    {
        let ghost before = self@;
        let n = self.services.len();
        for i in 0..n
            invariant
                n == before.services.len(),
                self@ == before,
                before == old(self)@,
                forall|j: int| 0 <= j < i ==> (#[trigger] before.services[j]).pid != Some(pid@),
        {
            let ghost sh = before.services[i as int];
            assert(sh == self.services@[i as int]@);
            let found = match self.services[i].pid() {
                Some(p) => p.as_raw() == pid.as_raw(),
                None => false,
            };
            if found {
                proof {
                    assert(is_first_with_pid(before.services, pid@, i as int));
                    assert forall|k: int| #[trigger]
                        is_first_with_pid(before.services, pid@, k) implies k == i by {
                        if k < i {
                            assert(before.services[k].pid != Some(pid@));
                        } else if i < k {
                            assert(before.services[i as int].pid == Some(pid@));
                        }
                    }
                }
                self.services[i].set_status_by_exit_code(exit_code);
                assert(self@.services =~= before.services.update(
                    i as int,
                    sh.with_status(status_by_exit_code(sh, exit_code)),
                ));
                let ev = status_update(&self.services[i]);
                return match self.updates_queue.send_event(ev) {
                    Ok(()) => Ok(true),
                    Err(ev) => Err(ev),
                };
            }
        }
        assert(forall|i: int| !#[trigger] is_first_with_pid(before.services, pid@, i));
        Ok(false)
    }

    /// Adds a pid to a service, and sends an update to other components. The first update that
    /// could not be sent comes back.
    pub fn update_pid(&mut self, service_name: ServiceName, pid: Pid) -> (res: Result<(), Event>)
        ensures
            changed_and_told(
                old(self)@,
                service_name@,
                with_pid_of(old(self)@.services, service_name@, pid@),
                EventView::PidChanged(service_name@, pid@),
                res,
                final(self)@,
            ),
    {
        let ghost before = self@;
        let ghost goal = with_pid_of(before.services, service_name@, pid@);
        let ghost update = EventView::PidChanged(service_name@, pid@);
        let n = self.services.len();
        assert(count_of_name(before.services.take(0), service_name@) == 0) by {
            reveal(Seq::filter);
        }
        assert(before.updates_queue =~= before.updates_queue.with_put(copies(update, 0)));
        for i in 0..n
            invariant
                before == old(self)@,
                n == before.services.len(),
                goal == with_pid_of(before.services, service_name@, pid@),
                update == EventView::PidChanged(service_name@, pid@),
                self@.services.len() == n,
                forall|j: int| 0 <= j < i ==> #[trigger] self@.services[j] == goal[j],
                forall|j: int|
                    i <= j < n ==> #[trigger] self@.services[j] == before.services[j],
                self@.updates_queue == before.updates_queue.with_put(
                    copies(update, count_of_name(before.services.take(i as int), service_name@)),
                ),
        {
            let ghost prior = self@.services;
            let ghost told = count_of_name(before.services.take(i as int), service_name@);
            proof {
                assert(prior[i as int] == self.services@[i as int]@);
                lemma_count_one_more(before.services, service_name@, i as int);
                lemma_told_once_more(before.updates_queue, update, told);
            }
            if *self.services[i].name() == service_name {
                self.services[i].set_pid(pid);
                let name = self.services[i].name().clone();
                assert(forall|j: int|
                    0 <= j < n && j != i ==> #[trigger] self@.services[j] == prior[j]);
                assert(self@.services[i as int] == goal[i as int]);
                match self.updates_queue.send_event(Event::PidChanged(name, pid)) {
                    Ok(()) => {},
                    Err(ev) => {
                        assert(before.services[i as int].name() == service_name@);
                        assert(self@.services =~= goal.take(i + 1) + before.services.skip(i + 1));
                        return Err(ev);
                    },
                }
            }
        }
        assert(self@.services =~= goal);
        assert(before.services.take(n as int) =~= before.services);
        Ok(())
    }

    /// Changes the status of a service, and sends an update to other components. The first
    /// update that could not be sent comes back.
    pub fn update_status(&mut self, service_name: &str, status: ServiceStatus) -> (res: Result<
        (),
        Event,
    >)
        ensures
            changed_and_told(
                old(self)@,
                service_name@,
                with_status_of(old(self)@.services, service_name@, status),
                EventView::StatusChanged(service_name@, status),
                res,
                final(self)@,
            ),
    {
        let name: ServiceName = service_name.to_owned();
        let ghost before = self@;
        let ghost goal = with_status_of(before.services, service_name@, status);
        let ghost update = EventView::StatusChanged(service_name@, status);
        let n = self.services.len();
        assert(count_of_name(before.services.take(0), service_name@) == 0) by {
            reveal(Seq::filter);
        }
        assert(before.updates_queue =~= before.updates_queue.with_put(copies(update, 0)));
        for i in 0..n
            invariant
                before == old(self)@,
                name@ == service_name@,
                n == before.services.len(),
                goal == with_status_of(before.services, service_name@, status),
                update == EventView::StatusChanged(service_name@, status),
                self@.services.len() == n,
                forall|j: int| 0 <= j < i ==> #[trigger] self@.services[j] == goal[j],
                forall|j: int|
                    i <= j < n ==> #[trigger] self@.services[j] == before.services[j],
                self@.updates_queue == before.updates_queue.with_put(
                    copies(update, count_of_name(before.services.take(i as int), service_name@)),
                ),
        {
            let ghost prior = self@.services;
            let ghost told = count_of_name(before.services.take(i as int), service_name@);
            proof {
                assert(prior[i as int] == self.services@[i as int]@);
                lemma_count_one_more(before.services, service_name@, i as int);
                lemma_told_once_more(before.updates_queue, update, told);
            }
            if *self.services[i].name() == name {
                self.services[i].set_status(status);
                let ev = status_update(&self.services[i]);
                assert(forall|j: int|
                    0 <= j < n && j != i ==> #[trigger] self@.services[j] == prior[j]);
                assert(self@.services[i as int] == goal[i as int]);
                match self.updates_queue.send_event(ev) {
                    Ok(()) => {},
                    Err(ev) => {
                        assert(before.services[i as int].name() == service_name@);
                        assert(self@.services =~= goal.take(i + 1) + before.services.skip(i + 1));
                        return Err(ev);
                    },
                }
            }
        }
        assert(self@.services =~= goal);
        assert(before.services.take(n as int) =~= before.services);
        Ok(())
    }

    /// Whether some service is to be run.
    pub fn is_any_service_to_be_run(&self) -> (any: bool)
        ensures
            any == exists|i: int|
                0 <= i < self@.services.len() && (#[trigger] self@.services[i]).status
                    == ServiceStatus::ToBeRun,
    {
        for i in 0..self.services.len()
            invariant
                forall|j: int|
                    0 <= j < i ==> (#[trigger] self@.services[j]).status != ServiceStatus::ToBeRun,
        {
            assert(self@.services[i as int] == self.services@[i as int]@);
            if self.services[i].is_to_be_run() {
                return true;
            }
        }
        false
    }

    /// Whether every service has finished or failed.
    pub fn all_finished(&self) -> (all: bool)
        ensures
            all == forall|i: int|
                0 <= i < self@.services.len() ==> (#[trigger] self@.services[i]).status
                    == ServiceStatus::Finished || self@.services[i].status
                    == ServiceStatus::Failed,
    {
        for i in 0..self.services.len()
            invariant
                forall|j: int|
                    0 <= j < i ==> (#[trigger] self@.services[j]).status == ServiceStatus::Finished
                        || self@.services[j].status == ServiceStatus::Failed,
        {
            assert(self@.services[i as int] == self.services@[i as int]@);
            if !self.services[i].is_finished() && !self.services[i].is_failed() {
                return false;
            }
        }
        true
    }

    /// Whether a service of this name is up, or has been.
    fn is_service_up(&self, name: &ServiceName) -> (up: bool)
        ensures
            up == is_up(self@.services, name@),
    {
        for i in 0..self.services.len()
            invariant
                forall|j: int|
                    0 <= j < i ==> !(#[trigger] self@.services[j].name() == name@
                        && self@.services[j].has_started()),
        {
            let service = &self.services[i];
            assert(self@.services[i as int] == service@);
            if *service.name() == *name && (service.is_running() || service.is_finished()) {
                assert(self@.services[i as int].name() == name@);
                return true;
            }
        }
        false
    }

    /// Whether a service can run.
    fn check_can_run(&self, sh: &ServiceHandler) -> (can: bool)
        ensures
            can == can_run(self@.services, sh@),
    {
        if sh.is_initial() {
            return true;
        }
        let names = sh.start_after();
        for k in 0..names.len()
            invariant
                names == sh.service.start_after,
                forall|j: int|
                    0 <= j < k ==> !is_up(self@.services, #[trigger] sh@.service.start_after[j]),
        {
            assert(sh@.service.start_after[k as int] == names@[k as int]@);
            if self.is_service_up(&names[k]) {
                return true;
            }
        }
        false
    }

    /// The services that can run.
    pub fn get_runnable_services(&self) -> (runnable: Vec<ServiceHandler>)
        ensures
            handler_views(runnable@) == self@.services.filter(
                |sh: ServiceHandlerView| can_run(self@.services, sh),
            ),
    {
        let ghost all = self@.services;
        let ghost pick = |sh: ServiceHandlerView| can_run(self@.services, sh);
        let mut runnable: Vec<ServiceHandler> = Vec::new();
        reveal(Seq::filter);
        assert(handler_views(runnable@) =~= all.take(0).filter(pick));
        for i in 0..self.services.len()
            invariant
                all == self@.services,
                pick == (|sh: ServiceHandlerView| can_run(self@.services, sh)),
                handler_views(runnable@) == all.take(i as int).filter(pick),
        {
            reveal(Seq::filter);
            let ghost before = handler_views(runnable@);
            let sh = &self.services[i];
            assert(all[i as int] == sh@);
            assert(all.take(i + 1).drop_last() =~= all.take(i as int));
            if self.check_can_run(sh) {
                runnable.push(sh.clone());
                assert(handler_views(runnable@) =~= before.push(sh@));
            }
        }
        assert(all.take(all.len() as int) =~= all);
        runnable
    }

    /// Lets a function change every service, one after the other, and sends an update to the
    /// other components for each one that it hands back, before it gets the next one. The first
    /// update that could not be sent comes back, and the services after it are left as they are.
    pub fn mutate_service_status<F>(&mut self, fun: F) -> (res: Result<(), Event>) where
        F: FnMut(&mut ServiceHandler) -> Option<&mut ServiceHandler>,

        requires
            forall|sh: &mut ServiceHandler|
                old(self).handlers().contains(*sh) ==> #[trigger] call_requires(fun, (sh,)),
        ensures
            final(self).handlers().len() == old(self).handlers().len(),
            final(self)@.services == handler_views(final(self).handlers()),
            exists|handed_back: Seq<Option<ServiceHandler>>|
                {
                    &&& handed_back.len() <= old(self).handlers().len()
                    &&& forall|i: int|
                        0 <= i < handed_back.len() ==> match #[trigger] handed_back[i] {
                            Some(now) => exists|sh: &mut ServiceHandler, out: &mut ServiceHandler|
                                {
                                    &&& #[trigger] call_ensures(fun, (sh,), Some(out))
                                    &&& *sh == old(self).handlers()[i]
                                    &&& *final(sh) == final(self).handlers()[i]
                                    &&& *out == now
                                    &&& *final(out) == now
                                },
                            None => exists|sh: &mut ServiceHandler|
                                {
                                    &&& #[trigger] call_ensures(
                                        fun,
                                        (sh,),
                                        None::<&mut ServiceHandler>,
                                    )
                                    &&& *sh == old(self).handlers()[i]
                                    &&& *final(sh) == final(self).handlers()[i]
                                },
                        }
                    &&& forall|i: int|
                        handed_back.len() <= i < old(self).handlers().len()
                            ==> #[trigger] final(self).handlers()[i] == old(self).handlers()[i]
                    &&& #[trigger] mutations_told(
                        old(self)@.updates_queue,
                        handed_back,
                        old(self).handlers().len(),
                        res,
                        final(self)@.updates_queue,
                    )
                },
    {
        let mut call = fun;
        let ghost before = self.handlers();
        let ghost queue = self@.updates_queue;
        let ghost mut handed_back: Seq<Option<ServiceHandler>> = Seq::empty();
        let n = self.services.len();
        assert(queue =~= queue.with_put(status_updates(handed_back)));
        for i in 0..n
            invariant
                n == before.len(),
                before == old(self).handlers(),
                queue == old(self)@.updates_queue,
                call == fun,
                self.handlers().len() == before.len(),
                self@.updates_queue == queue.with_put(status_updates(handed_back)),
                forall|sh: &mut ServiceHandler|
                    before.contains(*sh) ==> #[trigger] call_requires(fun, (sh,)),
                forall|j: int| i <= j < n ==> #[trigger] self.handlers()[j] == before[j],
                handed_back.len() == i,
                forall|j: int|
                    0 <= j < i ==> match #[trigger] handed_back[j] {
                        Some(now) => exists|sh: &mut ServiceHandler, out: &mut ServiceHandler|
                            {
                                &&& #[trigger] call_ensures(fun, (sh,), Some(out))
                                &&& *sh == before[j]
                                &&& *final(sh) == self.handlers()[j]
                                &&& *out == now
                                &&& *final(out) == now
                            },
                        None => exists|sh: &mut ServiceHandler|
                            {
                                &&& #[trigger] call_ensures(
                                    fun,
                                    (sh,),
                                    None::<&mut ServiceHandler>,
                                )
                                &&& *sh == before[j]
                                &&& *final(sh) == self.handlers()[j]
                            },
                    },
        {
            assert(self.handlers()[i as int] == before[i as int]);
            assert(before.contains(before[i as int]));
            let ghost earlier = handed_back;
            let ghost mut out: Option<ServiceHandler> = None;
            let update = match call(&mut self.services[i]) {
                Some(sh) => {
                    proof {
                        out = Some(*sh);
                    }
                    Some(status_update(sh))
                },
                None => None,
            };
            proof {
                handed_back = handed_back.push(out);
                assert(handed_back.drop_last() =~= earlier);
            }
            match update {
                Some(ev) => {
                    let ghost sent = ev@;
                    match self.updates_queue.send_event(ev) {
                        Ok(()) => {
                            assert(status_updates(handed_back) == status_updates(earlier).push(
                                sent,
                            ));
                            assert(queue.outbox.put + status_updates(earlier) + seq![sent]
                                =~= queue.outbox.put + status_updates(handed_back));
                            assert(self@.updates_queue =~= queue.with_put(
                                status_updates(handed_back),
                            ));
                        },
                        Err(ev) => {
                            assert(mutations_told(
                                queue,
                                handed_back,
                                before.len(),
                                Err(ev),
                                self@.updates_queue,
                            ));
                            return Err(ev);
                        },
                    }
                },
                None => {},
            }
        }
        assert(mutations_told(queue, handed_back, before.len(), Ok(()), self@.updates_queue));
        Ok(())
    }
}

/// Some services after the same update, made any number of times.
proof fn lemma_same_update(sh: ServiceHandlerView, ev: EventView, n: nat)
    ensures
        after_updates(sh, copies(ev, n)) == if n == 0 {
            sh
        } else {
            updated(sh, ev)
        },
    decreases n,
{
    if n > 0 {
        assert(copies(ev, n).drop_last() =~= copies(ev, (n - 1) as nat));
        lemma_same_update(sh, ev, (n - 1) as nat);
    }
}

/// Where names are distinct, every service is the first of its name.
proof fn lemma_all_are_first(services: Seq<ServiceHandlerView>)
    requires
        distinct(services),
    ensures
        forall|i: int| 0 <= i < services.len() ==> #[trigger] is_first_of_name(services, i),
{
}

/// A copy of the services takes in an update that was made for each of them.
proof fn lemma_update_carries_over(
    services: Seq<ServiceHandlerView>,
    changed: Seq<ServiceHandlerView>,
    ev: EventView,
    n: nat,
)
    requires
        distinct(services),
        changed.len() == services.len(),
        forall|i: int|
            0 <= i < services.len() ==> #[trigger] changed[i] == updated(services[i], ev),
        forall|i: int|
            0 <= i < services.len() && #[trigger] changed[i] != services[i] ==> n > 0,
    ensures
        all_updated(services, copies(ev, n)) == changed,
        all_updated(changed, copies(ev, n)) == changed,
{
    let sent = copies(ev, n);
    assert(distinct(changed)) by {
        assert forall|i: int, j: int| 0 <= i < j < changed.len() implies
            #[trigger] changed[i].name() != #[trigger] changed[j].name() by {
            assert(services[i].name() != services[j].name());
        }
    }
    lemma_all_are_first(services);
    lemma_all_are_first(changed);
    assert forall|i: int| 0 <= i < services.len() implies #[trigger] all_updated(services, sent)[i]
        == changed[i] && all_updated(changed, sent)[i] == changed[i] by {
        assert(is_first_of_name(services, i));
        assert(is_first_of_name(changed, i));
        lemma_same_update(services[i], ev, n);
        lemma_same_update(changed[i], ev, n);
    }
    assert(all_updated(services, sent) =~= changed);
    assert(all_updated(changed, sent) =~= changed);
}

/// A service of this name makes for at least one.
proof fn lemma_name_is_counted(services: Seq<ServiceHandlerView>, i: int)
    requires
        0 <= i < services.len(),
    ensures
        count_of_name(services, services[i].name()) > 0,
{
    let name = services[i].name();
    services.lemma_filter_contains(|sh: ServiceHandlerView| sh.name() == name, i);
}

/// What one component changes reaches the others: where names are distinct, a copy of the
/// services that takes in the updates sent for a new status is the same as the one that was
/// changed, and the one that was changed is not changed again by its own updates.
pub proof fn law_status_updates_carry_over(
    services: Seq<ServiceHandlerView>,
    name: Seq<char>,
    status: ServiceStatus,
)
    requires
        distinct(services),
    ensures
        ({
            let sent = copies(
                EventView::StatusChanged(name, status),
                count_of_name(services, name),
            );
            let changed = with_status_of(services, name, status);
            &&& all_updated(services, sent) == changed
            &&& all_updated(changed, sent) == changed
        }),
{
    let ev = EventView::StatusChanged(name, status);
    let n = count_of_name(services, name);
    let changed = with_status_of(services, name, status);
    assert forall|i: int| 0 <= i < services.len() && #[trigger] changed[i] != services[i] implies n
        > 0 by {
        lemma_name_is_counted(services, i);
    }
    lemma_update_carries_over(services, changed, ev, n);
}

/// What one component changes reaches the others: where names are distinct, a copy of the
/// services that takes in the updates sent for a new process is the same as the one that was
/// changed, and the one that was changed is not changed again by its own updates.
pub proof fn law_pid_updates_carry_over(
    services: Seq<ServiceHandlerView>,
    name: Seq<char>,
    pid: i32,
)
    requires
        distinct(services),
    ensures
        ({
            let sent = copies(EventView::PidChanged(name, pid), count_of_name(services, name));
            let changed = with_pid_of(services, name, pid);
            &&& all_updated(services, sent) == changed
            &&& all_updated(changed, sent) == changed
        }),
{
    let ev = EventView::PidChanged(name, pid);
    let n = count_of_name(services, name);
    let changed = with_pid_of(services, name, pid);
    assert forall|i: int| 0 <= i < services.len() && #[trigger] changed[i] != services[i] implies n
        > 0 by {
        lemma_name_is_counted(services, i);
    }
    lemma_update_carries_over(services, changed, ev, n);
}

/// What one component makes of an exit code reaches the others: where names are distinct, a
/// copy of the services that takes in the update is the same as the one that was changed.
pub proof fn law_exit_update_carries_over(
    services: Seq<ServiceHandlerView>,
    i: int,
    exit_code: i32,
)
    requires
        distinct(services),
        0 <= i < services.len(),
    ensures
        ({
            let status = status_by_exit_code(services[i], exit_code);
            all_updated(services, seq![EventView::StatusChanged(services[i].name(), status)])
                == services.update(i, services[i].with_status(status))
        }),
{
    let status = status_by_exit_code(services[i], exit_code);
    let ev = EventView::StatusChanged(services[i].name(), status);
    let changed = services.update(i, services[i].with_status(status));
    lemma_all_are_first(services);
    assert(seq![ev] =~= copies(ev, 1));
    assert forall|j: int| 0 <= j < services.len() implies #[trigger] all_updated(
        services,
        seq![ev],
    )[j] == changed[j] by {
        assert(is_first_of_name(services, j));
        lemma_same_update(services[j], ev, 1);
        if j < i {
            assert(services[j].name() != services[i].name());
        } else if i < j {
            assert(services[i].name() != services[j].name());
        }
    }
    assert(all_updated(services, seq![ev]) =~= changed);
}

/// Where nothing has come in, taking it in changes nothing.
pub proof fn law_no_updates_change_nothing(services: Seq<ServiceHandlerView>)
    ensures
        all_updated(services, Seq::empty()) == services,
{
    assert(all_updated(services, Seq::empty()) =~= services);
}

/// Updates change of a service its status and its process alone, and nothing where none of
/// them names it.
pub proof fn law_updates_are_local(
    services: Seq<ServiceHandlerView>,
    evs: Seq<EventView>,
    i: int,
)
    requires
        0 <= i < services.len(),
    ensures
        all_updated(services, evs).len() == services.len(),
        all_updated(services, evs)[i] == (ServiceHandlerView {
            status: all_updated(services, evs)[i].status,
            pid: all_updated(services, evs)[i].pid,
            ..services[i]
        }),
        (forall|k: int|
            0 <= k < evs.len() ==> updated(services[i], #[trigger] evs[k]) == services[i])
            ==> all_updated(services, evs)[i] == services[i],
{
    lemma_after_updates_is_local(services[i], evs);
}

proof fn lemma_after_updates_is_local(sh: ServiceHandlerView, evs: Seq<EventView>)
    ensures
        after_updates(sh, evs) == (ServiceHandlerView {
            status: after_updates(sh, evs).status,
            pid: after_updates(sh, evs).pid,
            ..sh
        }),
        (forall|k: int| 0 <= k < evs.len() ==> updated(sh, #[trigger] evs[k]) == sh)
            ==> after_updates(sh, evs) == sh,
    decreases evs.len(),
{
    if evs.len() > 0 {
        lemma_after_updates_is_local(sh, evs.drop_last());
        if forall|k: int| 0 <= k < evs.len() ==> updated(sh, #[trigger] evs[k]) == sh {
            assert forall|k: int| 0 <= k < evs.drop_last().len() implies updated(
                sh,
                #[trigger] evs.drop_last()[k],
            ) == sh by {
                assert(evs.drop_last()[k] == evs[k]);
            }
            assert(updated(sh, evs[evs.len() - 1]) == sh);
        }
    }
}

/// An update of a status reaches the first service that it names, and changes nothing else.
pub proof fn law_status_update_reaches_the_first(
    services: Seq<ServiceHandlerView>,
    name: Seq<char>,
    status: ServiceStatus,
    i: int,
)
    requires
        0 <= i < services.len(),
    ensures
        all_updated(services, seq![EventView::StatusChanged(name, status)]).len() == services.len(),
        services[i].service.name == name && (forall|j: int|
            0 <= j < i ==> (#[trigger] services[j]).service.name != name) ==> all_updated(
            services,
            seq![EventView::StatusChanged(name, status)],
        )[i] == (ServiceHandlerView { status, ..services[i] }),
        services[i].service.name != name || (exists|j: int|
            0 <= j < i && (#[trigger] services[j]).service.name == name) ==> all_updated(
            services,
            seq![EventView::StatusChanged(name, status)],
        )[i] == services[i],
{
    let ev = EventView::StatusChanged(name, status);
    lemma_one_update(services, ev, i);
    lemma_first_of_name(services, i);
}

/// An update of a process reaches the first service that it names, and changes nothing else.
pub proof fn law_pid_update_reaches_the_first(
    services: Seq<ServiceHandlerView>,
    name: Seq<char>,
    pid: i32,
    i: int,
)
    requires
        0 <= i < services.len(),
    ensures
        all_updated(services, seq![EventView::PidChanged(name, pid)]).len() == services.len(),
        services[i].service.name == name && (forall|j: int|
            0 <= j < i ==> (#[trigger] services[j]).service.name != name) ==> all_updated(
            services,
            seq![EventView::PidChanged(name, pid)],
        )[i] == (ServiceHandlerView { pid: Some(pid), ..services[i] }),
        services[i].service.name != name || (exists|j: int|
            0 <= j < i && (#[trigger] services[j]).service.name == name) ==> all_updated(
            services,
            seq![EventView::PidChanged(name, pid)],
        )[i] == services[i],
{
    let ev = EventView::PidChanged(name, pid);
    lemma_one_update(services, ev, i);
    lemma_first_of_name(services, i);
}

/// Events that tell neither a status nor a process change no service.
pub proof fn law_other_events_are_no_updates(services: Seq<ServiceHandlerView>, ev: EventView)
    requires
        !(ev is StatusChanged),
        !(ev is PidChanged),
    ensures
        all_updated(services, seq![ev]) == services,
{
    assert forall|i: int| 0 <= i < services.len() implies #[trigger] all_updated(
        services,
        seq![ev],
    )[i] == services[i] by {
        lemma_one_update(services, ev, i);
    }
    assert(all_updated(services, seq![ev]) =~= services);
}

/// Updates have their effect one after the other.
pub proof fn law_updates_follow_each_other(
    services: Seq<ServiceHandlerView>,
    first: Seq<EventView>,
    second: Seq<EventView>,
)
    ensures
        all_updated(services, first + second) == all_updated(
            all_updated(services, first),
            second,
        ),
{
    let between = all_updated(services, first);
    assert forall|i: int| 0 <= i < services.len() implies #[trigger] between[i].name()
        == services[i].name() by {
        lemma_after_updates_is_local(services[i], first);
    }
    assert forall|i: int| 0 <= i < services.len() implies #[trigger] all_updated(
        services,
        first + second,
    )[i] == all_updated(between, second)[i] by {
        lemma_first_by_names(between, services, i);
        lemma_updates_concat(services[i], first, second);
    }
    assert(all_updated(services, first + second) =~= all_updated(between, second));
}

proof fn lemma_updates_concat(
    sh: ServiceHandlerView,
    first: Seq<EventView>,
    second: Seq<EventView>,
)
    ensures
        after_updates(sh, first + second) == after_updates(after_updates(sh, first), second),
    decreases second.len(),
{
    if second.len() == 0 {
        assert(first + second =~= first);
    } else {
        lemma_updates_concat(sh, first, second.drop_last());
        assert((first + second).drop_last() =~= first + second.drop_last());
        assert((first + second).last() == second.last());
    }
}

proof fn lemma_one_update(services: Seq<ServiceHandlerView>, ev: EventView, i: int)
    requires
        0 <= i < services.len(),
    ensures
        all_updated(services, seq![ev])[i] == if is_first_of_name(services, i) {
            updated(services[i], ev)
        } else {
            services[i]
        },
{
    reveal_with_fuel(after_updates, 2);
    assert(seq![ev].drop_last() =~= Seq::<EventView>::empty());
    assert(seq![ev].last() == ev);
}

proof fn lemma_first_of_name(services: Seq<ServiceHandlerView>, i: int)
    requires
        0 <= i < services.len(),
    ensures
        is_first_of_name(services, i) <==> forall|j: int|
            0 <= j < i ==> (#[trigger] services[j]).service.name != services[i].service.name,
{
    if is_first_of_name(services, i) {
        assert forall|j: int| 0 <= j < i implies (#[trigger] services[j]).service.name
            != services[i].service.name by {
            assert(services[j].name() != services[i].name());
        }
    }
}

/// A new status is that of every service of the name, and of no other, and changes nothing else
/// of them. So is a new process.
pub proof fn law_changes_by_name(
    services: Seq<ServiceHandlerView>,
    name: Seq<char>,
    status: ServiceStatus,
    pid: i32,
    i: int,
)
    requires
        0 <= i < services.len(),
    ensures
        with_status_of(services, name, status).len() == services.len(),
        with_pid_of(services, name, pid).len() == services.len(),
        services[i].service.name == name ==> with_status_of(services, name, status)[i] == (
        ServiceHandlerView { status, ..services[i] }),
        services[i].service.name == name ==> with_pid_of(services, name, pid)[i] == (
        ServiceHandlerView { pid: Some(pid), ..services[i] }),
        services[i].service.name != name ==> with_status_of(services, name, status)[i]
            == services[i] && with_pid_of(services, name, pid)[i] == services[i],
{
}

/// Services are counted by their name, each once.
pub proof fn law_names_are_counted(
    services: Seq<ServiceHandlerView>,
    sh: ServiceHandlerView,
    name: Seq<char>,
)
    ensures
        count_of_name(Seq::empty(), name) == 0,
        sh.service.name == name ==> count_of_name(services.push(sh), name) == count_of_name(
            services,
            name,
        ) + 1,
        sh.service.name != name ==> count_of_name(services.push(sh), name) == count_of_name(
            services,
            name,
        ),
{
    reveal(Seq::filter);
    assert(services.push(sh).drop_last() =~= services);
}

/// Where every update could be sent, every service is changed, and one update for each service of
/// the name was sent, and nothing else.
pub proof fn law_told_of_every_change(
    before: ServiceRepositoryView,
    name: Seq<char>,
    changed: Seq<ServiceHandlerView>,
    update: EventView,
    after: ServiceRepositoryView,
)
    requires
        changed_and_told(before, name, changed, update, Ok(()), after),
    ensures
        after.services == changed,
        after.updates_queue.inbox == before.updates_queue.inbox,
        after.updates_queue.outbox.channel == before.updates_queue.outbox.channel,
        after.updates_queue.outbox.put.len() == before.updates_queue.outbox.put.len()
            + count_of_name(before.services, name),
        forall|k: int|
            0 <= k < before.updates_queue.outbox.put.len()
                ==> #[trigger] after.updates_queue.outbox.put[k]
                == before.updates_queue.outbox.put[k],
        forall|k: int|
            before.updates_queue.outbox.put.len() <= k < after.updates_queue.outbox.put.len()
                ==> #[trigger] after.updates_queue.outbox.put[k] == update,
{
}

/// Where an update was refused, it was that of a service of the name: the services up to it are
/// changed, those after it are not, and one update was sent for each service of the name before
/// it, and nothing else.
pub proof fn law_told_until_refused(
    before: ServiceRepositoryView,
    name: Seq<char>,
    changed: Seq<ServiceHandlerView>,
    update: EventView,
    back: Event,
    after: ServiceRepositoryView,
)
    requires
        changed_and_told(before, name, changed, update, Err(back), after),
        changed.len() == before.services.len(),
    ensures
        back@ == update,
        send_refused(before.updates_queue.outbox.channel, update),
        after.updates_queue.inbox == before.updates_queue.inbox,
        after.updates_queue.outbox.channel == before.updates_queue.outbox.channel,
        exists|k: int|
            {
                &&& 0 <= k < before.services.len()
                &&& (#[trigger] before.services[k]).service.name == name
                &&& after.services.len() == before.services.len()
                &&& forall|i: int| 0 <= i <= k ==> #[trigger] after.services[i] == changed[i]
                &&& forall|i: int|
                    k < i < before.services.len() ==> #[trigger] after.services[i]
                        == before.services[i]
                &&& after.updates_queue.outbox.put.len() == before.updates_queue.outbox.put.len()
                    + count_of_name(before.services.take(k), name)
                &&& forall|i: int|
                    0 <= i < before.updates_queue.outbox.put.len()
                        ==> #[trigger] after.updates_queue.outbox.put[i]
                        == before.updates_queue.outbox.put[i]
                &&& forall|i: int|
                    before.updates_queue.outbox.put.len() <= i
                        < after.updates_queue.outbox.put.len()
                        ==> #[trigger] after.updates_queue.outbox.put[i] == update
            },
{
    let k = choose|k: int|
        {
            &&& 0 <= k < before.services.len()
            &&& #[trigger] before.services[k].name() == name
            &&& back@ == update
            &&& send_refused(before.updates_queue.outbox.channel, update)
            &&& after == (ServiceRepositoryView {
                services: changed.take(k + 1) + before.services.skip(k + 1),
                updates_queue: before.updates_queue.with_put(
                    copies(update, count_of_name(before.services.take(k), name)),
                ),
            })
        };
    assert(before.services[k].service.name == name);
}

/// The updates for services that are handed back tell their statuses, one for each, in order.
pub proof fn law_updates_tell_statuses(
    changed: Seq<Option<ServiceHandler>>,
    last: Option<ServiceHandler>,
)
    ensures
        status_updates(Seq::empty()) == Seq::<EventView>::empty(),
        match last {
            Some(sh) => status_updates(changed.push(last)) == status_updates(changed).push(
                EventView::StatusChanged(sh@.service.name, sh@.status),
            ),
            None => status_updates(changed.push(last)) == status_updates(changed),
        },
{
    assert(changed.push(last).drop_last() =~= changed);
}

/// Where every update could be sent, every service was handed out, and what was sent are the
/// updates for those that were handed back, and nothing else. Otherwise it was the update for the
/// last one handed back that was refused, and those for the ones before it were sent.
pub proof fn law_mutations_are_told(
    before: BusConnectorView,
    handed_back: Seq<Option<ServiceHandler>>,
    n: nat,
    res: Result<(), Event>,
    after: BusConnectorView,
)
    requires
        mutations_told(before, handed_back, n, res, after),
    ensures
        after.inbox == before.inbox,
        after.outbox.channel == before.outbox.channel,
        match res {
            Ok(_) => handed_back.len() == n && after.outbox.put == before.outbox.put
                + status_updates(handed_back),
            Err(back) => {
                &&& handed_back.len() > 0
                &&& handed_back[handed_back.len() - 1] matches Some(sh) && back@
                    == EventView::StatusChanged(sh@.service.name, sh@.status)
                &&& send_refused(before.outbox.channel, back@)
                &&& after.outbox.put == before.outbox.put + status_updates(
                    handed_back.take(handed_back.len() - 1),
                )
            },
        },
{
    if res is Err {
        assert(handed_back.drop_last() =~= handed_back.take(handed_back.len() - 1));
    }
}

/// The status that follows from an exit code is success exactly where the code is one of those
/// that the service names, and failure otherwise.
pub proof fn law_exit_code_decides(sh: ServiceHandlerView, exit_code: i32)
    ensures
        status_by_exit_code(sh, exit_code) == ServiceStatus::Success <==> exists|k: int|
            0 <= k < sh.service.failure.successful_exit_code.len()
                && #[trigger] sh.service.failure.successful_exit_code[k] == exit_code,
        status_by_exit_code(sh, exit_code) == ServiceStatus::Success || status_by_exit_code(
            sh,
            exit_code,
        ) == ServiceStatus::Failed,
{
}

/// The first service of a process runs as that process, and no service before it does.
pub proof fn law_first_with_pid(services: Seq<ServiceHandlerView>, pid: i32, i: int)
    ensures
        is_first_with_pid(services, pid, i) <==> {
            &&& 0 <= i < services.len()
            &&& services[i].pid == Some(pid)
            &&& forall|j: int| 0 <= j < i ==> (#[trigger] services[j]).pid != Some(pid)
        },
        (exists|j: int| 0 <= j < services.len() && (#[trigger] services[j]).pid == Some(pid))
            ==> exists|j: int| is_first_with_pid(services, pid, j),
{
    if exists|j: int| 0 <= j < services.len() && (#[trigger] services[j]).pid == Some(pid) {
        let j = choose|j: int| 0 <= j < services.len() && (#[trigger] services[j]).pid == Some(pid);
        lemma_some_is_first_with_pid(services, pid, j);
    }
}

proof fn lemma_some_is_first_with_pid(services: Seq<ServiceHandlerView>, pid: i32, j: int)
    requires
        0 <= j < services.len(),
        services[j].pid == Some(pid),
    ensures
        exists|i: int| is_first_with_pid(services, pid, i),
    decreases j,
{
    if !is_first_with_pid(services, pid, j) {
        let i = choose|i: int| 0 <= i < j && (#[trigger] services[i]).pid == Some(pid);
        lemma_some_is_first_with_pid(services, pid, i);
    }
}

/// A service can run where it was not started yet, or where a service that it names as one to
/// wait for runs or has finished, and nowhere else.
pub proof fn law_who_can_run(services: Seq<ServiceHandlerView>, sh: ServiceHandlerView)
    ensures
        can_run(services, sh) <==> sh.status == ServiceStatus::Initial || exists|k: int, j: int|
            {
                &&& 0 <= k < sh.service.start_after.len()
                &&& 0 <= j < services.len()
                &&& (#[trigger] services[j]).service.name == #[trigger] sh.service.start_after[k]
                &&& services[j].status == ServiceStatus::Running || services[j].status
                    == ServiceStatus::Finished
            },
{
    let names = sh.service.start_after;
    if sh.status != ServiceStatus::Initial && can_run(services, sh) {
        let k = choose|k: int| 0 <= k < names.len() && is_up(services, #[trigger] names[k]);
        let j = choose|j: int|
            0 <= j < services.len() && #[trigger] services[j].name() == names[k]
                && services[j].has_started();
        assert(services[j].service.name == names[k]);
    }
    if exists|k: int, j: int|
        {
            &&& 0 <= k < names.len()
            &&& 0 <= j < services.len()
            &&& (#[trigger] services[j]).service.name == #[trigger] names[k]
            &&& services[j].status == ServiceStatus::Running || services[j].status
                == ServiceStatus::Finished
        } {
        let (k, j) = choose|k: int, j: int|
            {
                &&& 0 <= k < names.len()
                &&& 0 <= j < services.len()
                &&& (#[trigger] services[j]).service.name == #[trigger] names[k]
                &&& services[j].status == ServiceStatus::Running || services[j].status
                    == ServiceStatus::Finished
            };
        assert(services[j].name() == names[k]);
        assert(is_up(services, names[k]));
    }
}

} // verus!
