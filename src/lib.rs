//! Helpers for a local two-tier development project: reading the ports that
//! its configuration files name, telling which of its frontend and backend
//! exist, and keeping the table of the dev servers that run for it.

pub mod port;
pub mod registry;
pub mod detect;
