//! The decisions behind a small digest of finished work: which requests a
//! run asks of a task-management service, in which order, and how the tasks
//! that come back are filtered, ordered and rendered.
//!
//! The crate sends and receives nothing. A caller drives a
//! [`pipeline::Pipeline`] by performing each request it asks for and handing
//! the parsed reply back; [`run`] states what such a run adds up to.

pub mod clock;
pub mod credentials;
pub mod digest;
pub mod error;
pub mod model;
pub mod pipeline;
pub mod request;
pub mod run;
