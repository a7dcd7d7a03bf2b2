//! Running one command: what every executor shares, and what the local and
//! the docker executor decide each for itself.

pub mod common;
pub mod docker;
pub mod local;
pub mod profiler;
