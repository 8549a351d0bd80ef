//! What is known of a service while it is supervised.

use crate::clock;
use crate::clock::now_returned;
use crate::formats::Pid;
use crate::formats::Service;
use crate::formats::ServiceName;
use crate::formats::ServiceStatus;
use crate::formats::ServiceView;
use std::time::Instant;
use vstd::prelude::*;

verus! {

/// A service, and where it stands.
#[derive(Debug)]
pub struct ServiceHandler {
    pub service: Service,
    pub status: ServiceStatus,
    pub pid: Option<Pid>,
    /// How many times the service has failed while it was starting.
    pub restart_attempts: u32,
    /// How many healthiness checks have failed since the last one that did not.
    pub healthiness_checks_failed: u32,
    /// When the service was last asked to terminate.
    pub shutting_down_start: Option<Instant>,
}

/// The mathematical value of a [`ServiceHandler`].
#[verifier::ext_equal]
pub struct ServiceHandlerView {
    pub service: ServiceView,
    pub status: ServiceStatus,
    pub pid: Option<i32>,
    pub restart_attempts: u32,
    pub healthiness_checks_failed: u32,
    pub shutting_down_start: Option<Instant>,
}

impl ServiceHandlerView {
    /// The name of the service.
    pub open spec fn name(self) -> Seq<char> {
        self.service.name
    }

    /// The same service in another status.
    pub open spec fn with_status(self, status: ServiceStatus) -> ServiceHandlerView {
        ServiceHandlerView { status, ..self }
    }

    /// The service is up, or has been.
    pub open spec fn has_started(self) -> bool {
        self.status == ServiceStatus::Running || self.status == ServiceStatus::Finished
    }

    /// Nothing further will happen to the service.
    pub open spec fn has_finished(self) -> bool {
        self.status == ServiceStatus::Finished || self.status == ServiceStatus::FinishedFailed
    }
}

/// The number of a process id, if there is one.
pub open spec fn pid_view(pid: Option<Pid>) -> Option<i32> {
    match pid {
        Some(p) => Some(p@),
        None => None,
    }
}

impl View for ServiceHandler {
    type V = ServiceHandlerView;

    open spec fn view(&self) -> ServiceHandlerView {
        ServiceHandlerView {
            service: self.service@,
            status: self.status,
            pid: pid_view(self.pid),
            restart_attempts: self.restart_attempts,
            healthiness_checks_failed: self.healthiness_checks_failed,
            shutting_down_start: self.shutting_down_start,
        }
    }
}

/// The values of some handlers.
pub open spec fn handler_views(handlers: Seq<ServiceHandler>) -> Seq<ServiceHandlerView> {
    Seq::new(handlers.len(), |i: int| handlers[i]@)
}

impl Clone for ServiceHandler {
    fn clone(&self) -> (copy: ServiceHandler)
        ensures
            copy@ == self@,
    {
        ServiceHandler {
            service: self.service.clone(),
            status: self.status,
            pid: self.pid,
            restart_attempts: self.restart_attempts,
            healthiness_checks_failed: self.healthiness_checks_failed,
            shutting_down_start: self.shutting_down_start,
        }
    }
}

impl From<Service> for ServiceHandler {
    /// A service that has not been started yet.
    fn from(service: Service) -> (handler: ServiceHandler) {
        ServiceHandler {
            service,
            status: ServiceStatus::Initial,
            pid: None,
            restart_attempts: 0,
            healthiness_checks_failed: 0,
            shutting_down_start: None,
        }
    }
}

impl vstd::std_specs::convert::FromSpecImpl<Service> for ServiceHandler {
    open spec fn obeys_from_spec() -> bool {
        true
    }

    open spec fn from_spec(service: Service) -> ServiceHandler {
        ServiceHandler {
            service,
            status: ServiceStatus::Initial,
            pid: None,
            restart_attempts: 0,
            healthiness_checks_failed: 0,
            shutting_down_start: None,
        }
    }
}

impl ServiceHandler {
    /// The service.
    pub fn service(&self) -> (service: &Service)
        ensures
            *service == self.service,
    {
        &self.service
    }

    /// The name of the service.
    pub fn name(&self) -> (name: &ServiceName)
        ensures
            *name == self.service.name,
            name@ == self@.name(),
    {
        &self.service.name
    }

    /// The services that have to be up before this one starts.
    pub fn start_after(&self) -> (names: &Vec<ServiceName>)
        ensures
            *names == self.service.start_after,
    {
        &self.service.start_after
    }

    /// The process of the service.
    pub fn pid(&self) -> (pid: Option<Pid>)
        ensures
            pid == self.pid,
    {
        self.pid
    }

    /// Notes the process of the service.
    pub fn set_pid(&mut self, pid: Pid)
        ensures
            final(self)@ == (ServiceHandlerView { pid: Some(pid@), ..old(self)@ }),
    {
        self.pid = Some(pid);
    }

    /// Puts the service into a status.
    pub fn set_status(&mut self, status: ServiceStatus)
        ensures
            final(self)@ == old(self)@.with_status(status),
    {
        self.status = status;
    }

    /// Puts the service into the status that follows from the exit code of its process.
    pub fn set_status_by_exit_code(&mut self, exit_code: i32)
        ensures
            final(self)@ == old(self)@.with_status(
                if old(self)@.service.failure.successful_exit_code.contains(exit_code) {
                    ServiceStatus::Success
                } else {
                    ServiceStatus::Failed
                },
            ),
    {
        if self.service.failure.is_failure(exit_code) {
            self.status = ServiceStatus::Failed;
        } else {
            self.status = ServiceStatus::Success;
        }
    }

    /// Notes that the service has been asked to terminate, now.
    pub fn shutting_down_started(&mut self)
        ensures
            final(self)@.shutting_down_start matches Some(now) && now_returned(now),
            final(self)@ == (ServiceHandlerView {
                shutting_down_start: final(self)@.shutting_down_start,
                ..old(self)@
            }),
    {
        self.shutting_down_start = Some(clock::now());
    }

    /// Whether the service has failed to start more often than is put up with.
    pub fn restart_attempts_are_over(&self) -> (over: bool)
        ensures
            over == (self@.restart_attempts > self@.service.restart.attempts),
    {
        self.restart_attempts > self.service.restart.attempts
    }

    pub fn is_initial(&self) -> (res: bool)
        ensures
            res == (self@.status == ServiceStatus::Initial),
    {
        self.status == ServiceStatus::Initial
    }

    pub fn is_to_be_run(&self) -> (res: bool)
        ensures
            res == (self@.status == ServiceStatus::ToBeRun),
    {
        self.status == ServiceStatus::ToBeRun
    }

    pub fn is_running(&self) -> (res: bool)
        ensures
            res == (self@.status == ServiceStatus::Running),
    {
        self.status == ServiceStatus::Running
    }

    pub fn is_in_killing(&self) -> (res: bool)
        ensures
            res == (self@.status == ServiceStatus::InKilling),
    {
        self.status == ServiceStatus::InKilling
    }

    pub fn is_failed(&self) -> (res: bool)
        ensures
            res == (self@.status == ServiceStatus::Failed),
    {
        self.status == ServiceStatus::Failed
    }

    pub fn is_finished(&self) -> (res: bool)
        ensures
            res == (self@.status == ServiceStatus::Finished),
    {
        self.status == ServiceStatus::Finished
    }

    pub fn is_finished_failed(&self) -> (res: bool)
        ensures
            res == (self@.status == ServiceStatus::FinishedFailed),
    {
        self.status == ServiceStatus::FinishedFailed
    }
}

/// A service that is taken over has not been started yet, and is as it is defined.
pub proof fn law_taken_over_as_defined(service: Service)
    ensures
        ({
            let sh = <ServiceHandler as vstd::std_specs::convert::FromSpec<Service>>::from_spec(
                service,
            );
            &&& sh@.service == service@
            &&& sh@.status == ServiceStatus::Initial
            &&& sh@.pid is None
            &&& sh@.restart_attempts == 0
            &&& sh@.healthiness_checks_failed == 0
            &&& sh@.shutting_down_start is None
        }),
{
}

} // verus!
