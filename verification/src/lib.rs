//! Measurement collection for benchmarks: a fixed-capacity sample buffer,
//! clocks that produce comparable timestamps, and memoized statistics over
//! a finished batch of samples.

pub mod linux4_4;
pub mod procfs;
pub mod resultarray;
pub mod samples;
pub mod text;
pub mod timing;
pub mod wide;
