//! A completion-driven key-value server core: framing, operation tokens,
//! buffer pooling, request backlog and the command store, with the event
//! loop's decisions expressed as verified state transitions.

pub mod token;
pub mod protocol;
pub mod stream;
pub mod slots;
pub mod registry;
pub mod pool;
pub mod store;
pub mod conns;
pub mod backlog;
pub mod model;
pub mod server;
pub mod session;
