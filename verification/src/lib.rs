//! Device-presence tracking and output remapping for a graphics tablet.
//!
//! This crate is the verified core of a tablet monitor switcher. It parses
//! the output of an external device-listing tool into device identifiers,
//! tracks the connection state across periodic polls and reports change
//! events, and drives a fail-fast remapping session that orders one mapping
//! command per listed device. Invoking the external tool is input/output and
//! is left to the surrounding program, which hands the raw outcomes (stdout
//! bytes, exit successes) to the functions here.

pub mod parser;
pub mod remap;
pub mod tracker;
