//! The values that the components exchange.

use crate::clock::duration_nanos;
use crate::clock::NANOS_PER_SEC;
use std::time::Duration;
use vstd::prelude::*;

verus! {

/// The name of a service.
pub type ServiceName = String;

/// Where a service stands in its life.
#[derive(Clone, Copy, Debug, PartialEq, Eq, Structural)]
pub enum ServiceStatus {
    Initial,
    ToBeRun,
    Starting,
    Started,
    Running,
    InKilling,
    Success,
    Finished,
    Failed,
    FinishedFailed,
}

/// The outcome of a healthiness check.
#[derive(Clone, Copy, Debug, PartialEq, Eq, Structural)]
pub enum HealthinessStatus {
    Healthy,
    Unhealthy,
}

/// A process id.
#[derive(Clone, Copy, Debug, PartialEq, Eq, Structural)]
pub struct Pid {
    raw: i32,
}

impl View for Pid {
    type V = i32;

    closed spec fn view(&self) -> i32 {
        self.raw
    }
}

impl Pid {
    /// The process id with this number.
    pub fn from_raw(raw: i32) -> (pid: Pid)
        ensures
            pid@ == raw,
    {
        Pid { raw }
    }

    /// The number of the process id.
    pub fn as_raw(self) -> (raw: i32)
        ensures
            raw == self@,
    {
        self.raw
    }
}

/// How the supervisor itself ends.
#[derive(Clone, Copy, Debug, PartialEq, Eq, Structural)]
pub enum ExitStatus {
    Successful,
    SomeServiceFailed,
}

/// When a service that has ended is started again.
#[derive(Clone, Copy, Debug, PartialEq, Eq, Structural)]
pub enum RestartStrategy {
    Never,
    OnFailure,
    Always,
}

/// What the failure of a service means for the others.
#[derive(Clone, Copy, Debug, PartialEq, Eq, Structural)]
pub enum FailureStrategy {
    Ignore,
    KillDependents,
    Shutdown,
}

/// The signals that can be sent to a service.
#[derive(Clone, Copy, Debug, PartialEq, Eq, Structural)]
pub enum TerminationSignal {
    TERM,
    HUP,
    INT,
    QUIT,
    KILL,
    USR1,
    USR2,
}

/// How a service is started again.
#[derive(Clone, Copy, Debug, PartialEq, Eq)]
pub struct Restart {
    pub strategy: RestartStrategy,
    /// The delay before a start, for each attempt made so far.
    pub backoff: Duration,
    /// How many failed starts are put up with.
    pub attempts: u32,
}

/// What counts as a failure of a service, and what follows from it.
#[derive(Debug, PartialEq, Eq)]
pub struct Failure {
    pub successful_exit_code: Vec<i32>,
    pub strategy: FailureStrategy,
}

/// How a service is terminated.
#[derive(Debug, PartialEq, Eq)]
pub struct Termination {
    pub signal: TerminationSignal,
    /// How long a service may take to exit.
    pub wait: Duration,
    /// The services whose failure terminates this one.
    pub die_if_failed: Vec<ServiceName>,
}

/// The part of a service's definition that its supervision depends on.
#[derive(Debug, PartialEq, Eq)]
pub struct Service {
    pub name: ServiceName,
    /// The services that have to be up before this one starts.
    pub start_after: Vec<ServiceName>,
    pub restart: Restart,
    pub failure: Failure,
    pub termination: Termination,
}

/// The mathematical value of a [`Failure`].
#[verifier::ext_equal]
pub struct FailureView {
    pub successful_exit_code: Seq<i32>,
    pub strategy: FailureStrategy,
}

/// The mathematical value of a [`Termination`].
#[verifier::ext_equal]
pub struct TerminationView {
    pub signal: TerminationSignal,
    pub wait: Duration,
    pub die_if_failed: Seq<Seq<char>>,
}

/// The mathematical value of a [`Service`].
#[verifier::ext_equal]
pub struct ServiceView {
    pub name: Seq<char>,
    pub start_after: Seq<Seq<char>>,
    pub restart: Restart,
    pub failure: FailureView,
    pub termination: TerminationView,
}

/// The texts of some names.
pub open spec fn name_views(names: Seq<ServiceName>) -> Seq<Seq<char>> {
    Seq::new(names.len(), |i: int| names[i]@)
}

impl View for Failure {
    type V = FailureView;

    open spec fn view(&self) -> FailureView {
        FailureView {
            successful_exit_code: self.successful_exit_code@,
            strategy: self.strategy,
        }
    }
}

impl View for Termination {
    type V = TerminationView;

    open spec fn view(&self) -> TerminationView {
        TerminationView {
            signal: self.signal,
            wait: self.wait,
            die_if_failed: name_views(self.die_if_failed@),
        }
    }
}

impl View for Service {
    type V = ServiceView;

    open spec fn view(&self) -> ServiceView {
        ServiceView {
            name: self.name@,
            start_after: name_views(self.start_after@),
            restart: self.restart,
            failure: self.failure@,
            termination: self.termination@,
        }
    }
}

/// Copies a list of names.
fn clone_names(names: &Vec<ServiceName>) -> (copy: Vec<ServiceName>)
    ensures
        copy@ == names@,
{
    let mut copy: Vec<ServiceName> = Vec::new();
    for i in 0..names.len()
        invariant
            copy@ == names@.take(i as int),
    {
        copy.push(names[i].clone());
    }
    copy
}

/// Whether a name is in a list.
pub fn contains_name(names: &Vec<ServiceName>, name: &ServiceName) -> (found: bool)
    ensures
        found == name_views(names@).contains(name@),
{
    for i in 0..names.len()
        invariant
            forall|j: int| 0 <= j < i ==> name_views(names@)[j] != name@,
    {
        if names[i] == *name {
            assert(name_views(names@)[i as int] == name@);
            return true;
        }
    }
    false
}

impl Clone for Failure {
    fn clone(&self) -> (copy: Failure)
        ensures
            copy@ == self@,
    {
        let mut codes: Vec<i32> = Vec::new();
        for i in 0..self.successful_exit_code.len()
            invariant
                codes@ == self.successful_exit_code@.take(i as int),
        {
            codes.push(self.successful_exit_code[i]);
        }
        Failure { successful_exit_code: codes, strategy: self.strategy }
    }
}

impl Clone for Termination {
    fn clone(&self) -> (copy: Termination)
        ensures
            copy@ == self@,
    {
        Termination {
            signal: self.signal,
            wait: self.wait,
            die_if_failed: clone_names(&self.die_if_failed),
        }
    }
}

impl Clone for Service {
    fn clone(&self) -> (copy: Service)
        ensures
            copy@ == self@,
    {
        Service {
            name: self.name.clone(),
            start_after: clone_names(&self.start_after),
            restart: self.restart,
            failure: self.failure.clone(),
            termination: self.termination.clone(),
        }
    }
}

impl Failure {
    /// Whether a process that exits with this code has failed.
    pub fn is_failure(&self, exit_code: i32) -> (failed: bool)
        ensures
            failed == !self@.successful_exit_code.contains(exit_code),
    {
        for i in 0..self.successful_exit_code.len()
            invariant
                forall|j: int| 0 <= j < i ==> self.successful_exit_code@[j] != exit_code,
        {
            if self.successful_exit_code[i] == exit_code {
                assert(self@.successful_exit_code[i as int] == exit_code);
                return false;
            }
        }
        true
    }
}

impl Service {
    /// A service of this name with nothing configured: it starts at once, is not restarted,
    /// succeeds with exit code 0, and is sent `TERM` and given five seconds to exit. Its
    /// failure is ignored.
    pub fn from_name(name: &str) -> (service: Service)
        ensures
            service@.name == name@,
            service@.start_after == Seq::<Seq<char>>::empty(),
            service@.restart.strategy == RestartStrategy::Never,
            duration_nanos(service@.restart.backoff) == 0,
            service@.restart.attempts == 0,
            service@.failure.successful_exit_code == seq![0i32],
            service@.failure.strategy == FailureStrategy::Ignore,
            service@.termination.signal == TerminationSignal::TERM,
            duration_nanos(service@.termination.wait) == 5 * NANOS_PER_SEC,
            service@.termination.die_if_failed == Seq::<Seq<char>>::empty(),
    {
        let mut codes: Vec<i32> = Vec::new();
        codes.push(0);
        Service {
            name: name.to_owned(),
            start_after: Vec::new(),
            restart: Restart {
                strategy: RestartStrategy::Never,
                backoff: Duration::from_secs(0),
                attempts: 0,
            },
            failure: Failure {
                successful_exit_code: codes,
                strategy: FailureStrategy::Ignore,
            },
            termination: Termination {
                signal: TerminationSignal::TERM,
                wait: Duration::from_secs(5),
                die_if_failed: Vec::new(),
            },
        }
    }
}

/// What happens in the system, or is asked of it.
#[derive(Debug, PartialEq, Eq)]
pub enum Event {
    /// The service runs as this process.
    PidChanged(ServiceName, Pid),
    /// The status of the service is, or should be, this one.
    StatusChanged(ServiceName, ServiceStatus),
    /// The process of the service has exited with this code.
    ServiceExited(ServiceName, i32),
    /// The service is to be killed without further waiting.
    ForceKill(ServiceName),
    /// The service is to be asked to terminate.
    Kill(ServiceName),
    /// The system shuts down.
    ShuttingDownInitiated,
    /// The process of the service could not be made.
    SpawnFailed(ServiceName),
    /// The service is to be started.
    Run(ServiceName),
    /// A healthiness check of the service has ended.
    HealthCheck(ServiceName, HealthinessStatus),
}

/// The mathematical value of an [`Event`].
pub enum EventView {
    PidChanged(Seq<char>, i32),
    StatusChanged(Seq<char>, ServiceStatus),
    ServiceExited(Seq<char>, i32),
    ForceKill(Seq<char>),
    Kill(Seq<char>),
    ShuttingDownInitiated,
    SpawnFailed(Seq<char>),
    Run(Seq<char>),
    HealthCheck(Seq<char>, HealthinessStatus),
}

impl View for Event {
    type V = EventView;

    open spec fn view(&self) -> EventView {
        match *self {
            Event::PidChanged(name, pid) => EventView::PidChanged(name@, pid@),
            Event::StatusChanged(name, status) => EventView::StatusChanged(name@, status),
            Event::ServiceExited(name, code) => EventView::ServiceExited(name@, code),
            Event::ForceKill(name) => EventView::ForceKill(name@),
            Event::Kill(name) => EventView::Kill(name@),
            Event::ShuttingDownInitiated => EventView::ShuttingDownInitiated,
            Event::SpawnFailed(name) => EventView::SpawnFailed(name@),
            Event::Run(name) => EventView::Run(name@),
            Event::HealthCheck(name, health) => EventView::HealthCheck(name@, health),
        }
    }
}

impl Clone for Event {
    fn clone(&self) -> (ev: Event)
        ensures
            ev == *self,
    {
        match self {
            Event::PidChanged(name, pid) => Event::PidChanged(name.clone(), *pid),
            Event::StatusChanged(name, status) => Event::StatusChanged(name.clone(), *status),
            Event::ServiceExited(name, code) => Event::ServiceExited(name.clone(), *code),
            Event::ForceKill(name) => Event::ForceKill(name.clone()),
            Event::Kill(name) => Event::Kill(name.clone()),
            Event::ShuttingDownInitiated => Event::ShuttingDownInitiated,
            Event::SpawnFailed(name) => Event::SpawnFailed(name.clone()),
            Event::Run(name) => Event::Run(name.clone()),
            Event::HealthCheck(name, health) => Event::HealthCheck(name.clone(), *health),
        }
    }
}

impl Event {
    /// The event that the status of a service is, or should be, this one.
    pub fn new_status_changed(name: &ServiceName, status: ServiceStatus) -> (ev: Event)
        ensures
            ev@ == EventView::StatusChanged(name@, status),
    {
        Event::StatusChanged(name.clone(), status)
    }

    /// The request to kill a service without further waiting.
    pub fn new_force_kill(name: &ServiceName) -> (ev: Event)
        ensures
            ev@ == EventView::ForceKill(name@),
    {
        Event::ForceKill(name.clone())
    }
}

/// The values of some events.
pub open spec fn event_views(evs: Seq<Event>) -> Seq<EventView> {
    Seq::new(evs.len(), |i: int| evs[i]@)
}

} // verus!
