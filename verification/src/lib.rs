//! A local-network friend-exchange engine: peers discover each other,
//! perform a mutual-consent request/accept/reject handshake over an
//! encrypted point-to-point transport, and exchange profile payloads.
//!
//! The protocol rules, the wire codec, the pending-request registry and
//! the timetable utilities live here, verified; the transport, discovery
//! and UI plumbing drive them from outside.

pub mod bitmap;
pub mod codec;
pub mod data;
pub mod queries;
pub mod registry;
pub mod schedule;
pub mod service;
