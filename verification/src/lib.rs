//! Registry of custom hardware-exception handlers for code that runs inside an
//! enclave.
//!
//! Trusted code registers callbacks that an external fault dispatcher consults,
//! in chain order, when a hardware exception is raised inside the enclave. This
//! crate owns the chain: it decides where a new handler is placed, hands out the
//! handle that identifies each registration, and removes a registration again
//! when its handle is presented. It never invokes a handler itself.

pub mod chain;
pub mod handle;
pub mod laws;
pub mod registry;
pub mod veh;

pub use crate::chain::HandlerEntry;
pub use crate::handle::ExceptionHandle;
pub use crate::registry::HandlerRegistry;
