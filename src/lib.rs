//! The connection engine of a small synchronous HTTP server: request framing,
//! keep-alive decisions, response serialization, route dispatch, and the
//! sizing rules of its worker pool and hand-off queue.
use vstd::prelude::*;

pub mod builtins;
pub mod config;
pub mod connection;
pub mod dispatch;
pub mod framing;
pub mod headers;
pub mod jwt;
pub mod params;
pub mod pool;
pub mod queue;
pub mod request;
pub mod response;
pub mod routing;
pub mod session;
pub mod text;
pub mod wire;
