//! A device connection broker: a registry of live device sessions keyed by
//! serial number, the handshake/heartbeat state machine that governs each
//! device connection, and the decision logic of the HTTP control endpoint
//! that forwards commands to registered devices.
//!
//! Everything here is pure logic over plain values. Listening sockets, the
//! HTTP server, and the wire-format codec live outside the library and drive
//! it through these types.

pub mod gateway;
pub mod params;
pub mod registry;
pub mod session;
pub mod text;
