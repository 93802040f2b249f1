//! Update-negotiation and device-resolution engine for an over-the-air
//! firmware distribution endpoint.
//!
//! Devices poll an HTTP endpoint with their identity and the build timestamp
//! of the firmware they run; the engine decides whether a newer image exists
//! for that device. The HTTP layer and all file reads live outside this
//! crate; the modules here take plain values (header pairs, file contents as
//! text) and return plain values (decisions, status codes, registry states).
#![verifier::loop_isolation(false)]

pub mod auth;
pub mod codec;
pub mod decision;
pub mod errors;
pub mod headers;
pub mod registry;
pub mod resolve;
pub mod text;
pub mod timestamp;
