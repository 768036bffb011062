//! A terminal dashboard core for monitoring a running data pipeline.
//!
//! The library holds the verified heart of the dashboard: the topology table
//! and its merge rules ([`state`]), the event-source multiplexer ([`events`]),
//! the session state machine ([`controller`]), and the frame layout
//! ([`widgets`]). Everything that touches the network or the terminal lives
//! outside, hands the library plain values, and takes plain values back.

pub mod controller;
pub mod events;
pub mod state;
pub mod widgets;
