//! Machine constants shared by the memory and scheduling code.
use vstd::prelude::*;

verus! {

/// Bytes in one page.
pub const PAGE_SIZE: u64 = 4096;

/// One past the highest user virtual address (a 39-bit address space).
pub const VA_LIMIT: u64 = 0x80_0000_0000;

/// One past the highest virtual page number.
pub const VPN_LIMIT: u64 = 0x800_0000;

/// One past the highest physical page number (a 44-bit frame number).
pub const PPN_LIMIT: u64 = 0x1000_0000_0000;

/// Number of distinct syscall ids whose invocations are counted per task.
pub const MAX_SYSCALL_NUM: usize = 500;

/// Lowest priority value a task may be given.
pub const MIN_PRIORITY: isize = 2;

/// Priority a task starts with.
pub const DEFAULT_PRIORITY: isize = 16;

} // verus!
