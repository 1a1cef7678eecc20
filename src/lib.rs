//! Scheduling and address-space core of a small teaching kernel: a single-core
//! processor cursor, per-task virtual memory sets with overlap checking and
//! address translation, and the syscall adapters built on them.
use vstd::prelude::*;

pub mod config;
pub mod frame;
pub mod mm;
pub mod task;
pub mod processor;
pub mod syscall;
pub mod laws;
