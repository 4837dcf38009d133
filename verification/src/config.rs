//! Compile-time configuration constants shared by the whole core.

use vstd::prelude::*;

verus! {

/// Number of bytes in one page; a power of two.
pub const PAGE_SIZE: usize = 4096;

/// Exclusive upper bound on virtual page numbers the core will map.
/// Also bounds how many physical frames the model allocator hands out;
/// small enough that any byte index into physical memory fits a word.
pub const MAX_VPN: usize = 0x1_0000;

/// Syscall ids run from 0 (inclusive) to this bound (exclusive); the
/// per-task syscall counter table has exactly this many slots.
pub const MAX_SYSCALL_NUM: usize = 500;

/// Stride numerator: each dispatch advances the chosen task's stride by
/// `BIG_STRIDE / priority`, so higher priority means smaller steps and
/// therefore more frequent dispatch.
pub const BIG_STRIDE: usize = 0x10_0000;

} // verus!
