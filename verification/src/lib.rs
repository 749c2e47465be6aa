//! Verified core of an Envoy-hosted Python (ASGI / WSGI) application server.
//!
//! The modules hold the protocol logic: the event queue between Envoy and
//! Python, request-scope construction, request body reading, the ASGI and WSGI
//! response state machines, lifespan handling, the upstream HTTP client state
//! and the WebSocket handshake decisions. Thread, GIL and Envoy plumbing lives
//! outside this crate.
pub mod asgi;
pub mod body;
pub mod config;
pub mod eventbridge;
pub mod headers;
pub mod response;
pub mod scope;
pub mod text;
pub mod transport;
pub mod wsgi;
