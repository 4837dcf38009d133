//! Process-scheduling and address-space core of a small cooperative kernel.
//!
//! The crate has three tightly coupled pieces: a proportional-share stride
//! scheduler over a ready queue of task control blocks, per-task address
//! spaces managed at page granularity by `mmap`/`munmap`, and the byte-level
//! translator that carries syscall results across the user/kernel boundary.

pub mod addr;
pub mod config;
pub mod encode;
pub mod manager;
pub mod mm;
pub mod syscall;
pub mod task;
pub mod translator;
