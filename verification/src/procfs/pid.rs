//! Routines for parsing the files of one process under /proc

pub mod stat;
