//! The WSGI side: reading the request body for the application and
//! turning the application's response into Envoy calls.
pub mod environ;
pub mod errors;
pub mod filter;
pub mod input;
pub mod response;
pub mod types;
