//! The supervision core of a process supervisor: the message bus that its components
//! talk over, the repository of supervised services, and the state machine that starts,
//! restarts and kills them.

pub mod bus;
pub mod clock;
pub mod formats;
pub mod service_handler;
pub mod runtime;
pub mod repository;
