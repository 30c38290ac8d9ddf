//! Watching other machines: reachability, GPUs and jobs.

pub mod gpu;
pub mod host;
pub mod jobs;
pub mod laws;
pub mod runner;
pub mod ssh_monitor;
