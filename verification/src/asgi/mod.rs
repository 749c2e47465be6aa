//! The ASGI side: the request scope, the `receive` and `send` callables, and
//! what the filter writes to Envoy for them.
pub mod content;
pub mod lifespan;
pub mod scope;
pub mod send;
pub mod websocket;
