//! Core of a line-oriented chat service: a registry of unique display
//! names, a registry of rooms with broadcast topics, and the per-session
//! command dispatch that ties them together.
pub mod names;
pub mod parse;
pub mod protocol;
pub mod rooms;
pub mod session;
pub mod shared;
