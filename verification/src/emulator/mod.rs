//! Guest threads and the state of the guest process.
pub mod base_task;
pub mod dispatcher;
pub mod state;
