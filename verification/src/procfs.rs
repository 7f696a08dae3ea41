//! Routines for parsing /proc files on Linux 4.4.0-103 efficiently for use in benchmarking

pub mod pid;
