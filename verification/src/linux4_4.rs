//! Routines for Linux 4.4.

pub mod pgrep;
pub mod procfs;
