//! Routines for parsing /proc files on Linux 4.4.0 efficiently for use in benchmarking.
//!
//! Read the man page for procfs (`man procfs`) for more info about the meaning of a file's
//! contents.

pub mod meminfo;
