//! Bridge between a Nova launch monitor and a golf-shot analytics consumer.
//!
//! The library holds the verified core of the bridge: configuration
//! validation, endpoint discovery and fallback, the device-schema to
//! canonical-schema mapper with unit conversion, the connection-supervision
//! state machine, the shot pipeline around the external computation step,
//! and the subscriber broadcast hub. All network and process plumbing
//! lives outside the library and hands it plain values.

pub mod bridge;
pub mod config;
pub mod discovery;
pub mod hub;
pub mod json;
pub mod mapper;
pub mod number;
pub mod serial;
pub mod shot;
pub mod text;
