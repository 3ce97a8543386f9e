//! Local-first task-list client core: the local model of a remote task
//! service, the queue of commands waiting for the server, and the
//! reconciliation of a server response into the local model.

pub mod ident;
pub mod model;
pub mod sync;
pub mod sync_laws;
