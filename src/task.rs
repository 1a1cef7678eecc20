//! The per-task record: identity, status, saved context, address space and
//! accounting.
use vstd::prelude::*;
use crate::config::{DEFAULT_PRIORITY, MAX_SYSCALL_NUM, MIN_PRIORITY, PAGE_SIZE, VA_LIMIT};
use crate::frame::FrameAllocator;
use crate::mm::{
    frames_apart, has_region_at, lemma_region_unique, meets, region_at, vpn_ceil, vpn_floor, MapError,
    MapPermission, VirtualMemorySet, PERM_R, PERM_U, PERM_W,
};

verus! {

/// Where a task is in its life cycle.
#[derive(Clone, Copy, Debug, PartialEq, Eq, Structural)]
pub enum TaskStatus {
    Ready,
    Running,
    Exited,
}

/// Callee-saved registers of a suspended control flow: return address,
/// stack pointer and `s0`..`s11`.
#[derive(Clone, Copy, Debug)]
pub struct TaskContext {
    pub ra: usize,
    pub sp: usize,
    pub s: [usize; 12],
}

impl TaskContext {
    /// A context with every register zero.
    pub fn zero_init() -> (r: Self)
        ensures
            r.ra == 0 && r.sp == 0,
            forall|i: int| 0 <= i < 12 ==> r.s[i] == 0,
    {
        TaskContext { ra: 0, sp: 0, s: [0usize; 12] }
    }
}

/// Moving the end of `t`'s heap by `size` bytes succeeds with `avail` free
/// frames: the new end stays between the heap's bottom and the top of the
/// user address space, and the pages it gains can be mapped or the pages it
/// loses belong to the heap region.
pub open spec fn brk_succeeds(t: TaskControlBlock, avail: nat, size: int) -> bool {
    let new_brk = t.program_brk + size;
    let hb = vpn_floor(t.heap_bottom);
    let oe = vpn_ceil(t.program_brk);
    let ne = vpn_ceil(new_brk as u64);
    let ms = t.memory_set;
    let a = ms.areas()[region_at(ms, hb)];
    &&& t.heap_bottom <= new_brk <= VA_LIMIT
    &&& {
        ||| ne == oe
        ||| ne > oe && oe == hb && !(exists|j: int|
            0 <= j < ms.areas().len() && meets(#[trigger] ms.areas()[j], hb, ne)) && avail >= ne - hb
        ||| ne > oe && oe > hb && has_region_at(ms, hb) && a.end_vpn < ne && !(exists|j: int|
            0 <= j < ms.areas().len() && j != region_at(ms, hb) && meets(
                #[trigger] ms.areas()[j],
                a.end_vpn,
                ne,
            )) && avail >= ne - a.end_vpn
        ||| ne < oe && ne == hb && exists|j: int|
            0 <= j < ms.areas().len() && #[trigger] ms.areas()[j].start_vpn == hb
                && ms.areas()[j].end_vpn == oe
        ||| ne < oe && ne > hb && has_region_at(ms, hb) && ne < a.end_vpn
    }
}

/// Accounting snapshot handed to user space.
pub struct TaskInfo {
    pub status: TaskStatus,
    pub syscall_times: Vec<u32>,
    /// Milliseconds since the task was first scheduled.
    pub time: usize,
}

/// One task.
pub struct TaskControlBlock {
    pub pid: usize,
    pub status: TaskStatus,
    pub task_cx: TaskContext,
    pub memory_set: VirtualMemorySet,
    /// Invocation count of each syscall id.
    pub syscall_times: Vec<u32>,
    /// When, in milliseconds, the task was first scheduled.
    pub start_time: Option<usize>,
    pub priority: isize,
    /// Lowest address of the heap.
    pub heap_bottom: u64,
    /// Current end of the heap.
    pub program_brk: u64,
}

impl TaskControlBlock {
    pub open spec fn wf(&self) -> bool {
        &&& self.memory_set.wf()
        &&& self.syscall_times@.len() == MAX_SYSCALL_NUM
        &&& self.priority >= MIN_PRIORITY
        &&& self.heap_bottom <= self.program_brk <= VA_LIMIT
        &&& self.heap_bottom % PAGE_SIZE == 0
    }

    /// A ready task that has not run yet, with no syscalls counted and an
    /// empty heap at `heap_bottom`.
    pub fn new(pid: usize, memory_set: VirtualMemorySet, task_cx: TaskContext, heap_bottom: u64) -> (r:
        Self)
        requires
            memory_set.wf(),
            heap_bottom % PAGE_SIZE == 0,
            heap_bottom <= VA_LIMIT,
        ensures
            r.wf(),
            r.pid == pid,
            r.status == TaskStatus::Ready,
            r.task_cx == task_cx,
            r.memory_set == memory_set,
            forall|i: int| 0 <= i < MAX_SYSCALL_NUM ==> r.syscall_times@[i] == 0,
            r.start_time is None,
            r.priority == DEFAULT_PRIORITY,
            r.heap_bottom == heap_bottom,
            r.program_brk == heap_bottom,
    {
        TaskControlBlock {
            pid,
            status: TaskStatus::Ready,
            task_cx,
            memory_set,
            syscall_times: vec![0u32; MAX_SYSCALL_NUM],
            start_time: None,
            priority: DEFAULT_PRIORITY,
            heap_bottom,
            program_brk: heap_bottom,
        }
    }

    pub fn status(&self) -> (r: TaskStatus)
        ensures
            r == self.status,
    {
        self.status
    }

    pub fn priority(&self) -> (r: isize)
        ensures
            r == self.priority,
    {
        self.priority
    }

    /// How often syscall `id` was invoked.
    pub fn syscall_count(&self, id: usize) -> (r: u32)
        requires
            id < self.syscall_times@.len(),
        ensures
            r == self.syscall_times@[id as int],
    {
        self.syscall_times[id]
    }

    /// Moves the end of the heap by `size` bytes, mapping or unmapping the
    /// pages that the heap gains or loses; returns the previous end. `None`,
    /// with nothing changed, when the new end would fall below the heap's
    /// bottom or past the user address space, or the pages cannot be
    /// mapped.
    pub fn change_program_brk(&mut self, frames: &mut FrameAllocator, size: i32) -> (r: Option<u64>)
        requires
            old(self).wf(),
            old(frames).wf(),
            old(self).memory_set.frames_within(old(frames).allocated()),
        ensures
            final(self).wf(),
            final(frames).wf(),
            final(self).memory_set.frames_within(final(frames).allocated()),
            forall|b: VirtualMemorySet|
                b.frames_within(old(frames).allocated()) && #[trigger] frames_apart(old(self).memory_set, b)
                    ==> b.frames_within(final(frames).allocated()) && frames_apart(final(self).memory_set, b),
            r is Some <==> brk_succeeds(*old(self), old(frames).available(), size as int),
            r is None ==> *final(self) == *old(self) && final(frames).allocated()
                == old(frames).allocated(),
            r is Some ==> {
                &&& r == Some(old(self).program_brk)
                &&& final(self).program_brk == old(self).program_brk + size
                &&& *final(self) == (TaskControlBlock {
                    memory_set: final(self).memory_set,
                    program_brk: final(self).program_brk,
                    ..*old(self)
                })
                &&& vpn_ceil(final(self).program_brk) > vpn_floor(old(self).heap_bottom) && vpn_ceil(
                    final(self).program_brk,
                ) != vpn_ceil(old(self).program_brk) ==> {
                    let ms = final(self).memory_set;
                    let hb = vpn_floor(old(self).heap_bottom);
                    has_region_at(ms, hb) && ms.areas()[region_at(ms, hb)].end_vpn == vpn_ceil(
                        final(self).program_brk,
                    )
                }
            },
    {
        let old_brk = self.program_brk;
        let new_brk_i: i64 = old_brk as i64 + size as i64;
        if new_brk_i < self.heap_bottom as i64 || new_brk_i > VA_LIMIT as i64 {
            return None;
        }
        let new_brk = new_brk_i as u64;
        let hb = self.heap_bottom / PAGE_SIZE;
        let old_end = (old_brk + (PAGE_SIZE - 1)) / PAGE_SIZE;
        let new_end = (new_brk + (PAGE_SIZE - 1)) / PAGE_SIZE;
        proof {
            assert(hb <= old_end && hb <= new_end) by (nonlinear_arith)
                requires hb == self.heap_bottom / 4096, old_end == (old_brk + 4095) / 4096,
                    new_end == (new_brk + 4095) / 4096, self.heap_bottom <= old_brk,
                    self.heap_bottom <= new_brk;
            assert(new_end <= 0x800_0000 && old_end <= 0x800_0000) by (nonlinear_arith)
                requires old_end == (old_brk + 4095) / 4096, new_end == (new_brk + 4095) / 4096,
                    old_brk <= 0x80_0000_0000, new_brk <= 0x80_0000_0000;
            assert(new_end * 4096 <= VA_LIMIT && old_end * 4096 <= VA_LIMIT) by (nonlinear_arith)
                requires new_end <= 0x800_0000, old_end <= 0x800_0000;
            assert(hb == vpn_floor(self.heap_bottom));
            assert(old_end == vpn_ceil(old_brk));
            assert(new_end == vpn_ceil(new_brk));
            assert(self.heap_bottom == hb * 4096) by (nonlinear_arith)
                requires hb == self.heap_bottom / 4096, self.heap_bottom % 4096 == 0;
        }
        let ghost ms0 = self.memory_set;
        let res: Result<(), MapError> = if new_end == old_end {
            Ok(())
        } else if new_end > old_end {
            if old_end == hb {
                let perm = MapPermission { bits: PERM_R | PERM_W | PERM_U };
                proof {
                    assert((new_end * 4096 + 4095) / 4096 == new_end) by (nonlinear_arith);
                }
                let r = self.memory_set.add_mapping(frames, self.heap_bottom, new_end * PAGE_SIZE, perm);
                proof {
                    if r is Ok {
                        let ms = self.memory_set;
                        let n = ms.areas().len() - 1;
                        lemma_region_unique(ms, n);
                    }
                }
                r
            } else {
                let r = self.memory_set.append_to(frames, hb, new_end);
                proof {
                    if r is Ok {
                        lemma_region_unique(self.memory_set, region_at(ms0, hb));
                    }
                }
                r
            }
        } else {
            if new_end == hb {
                proof {
                    assert((old_end * 4096 + 4095) / 4096 == old_end) by (nonlinear_arith);
                }
                let r = self.memory_set.remove_region(frames, self.heap_bottom, old_end * PAGE_SIZE);
                proof {
                    if let Err(e) = r {
                        match e {
                            MapError::InvalidRange => {},
                            MapError::Overlap => {},
                            MapError::NotMapped => {},
                            MapError::OutOfFrames => {},
                        }
                    }
                }
                r
            } else {
                let r = self.memory_set.shrink_to(frames, hb, new_end);
                proof {
                    if r is Ok {
                        lemma_region_unique(self.memory_set, region_at(ms0, hb));
                    }
                }
                r
            }
        };
        proof {
            if let Err(e) = res {
                match e {
                    MapError::InvalidRange => {},
                    MapError::Overlap => {},
                    MapError::NotMapped => {},
                    MapError::OutOfFrames => {},
                }
            }
        }
        match res {
            Ok(()) => {
                self.program_brk = new_brk;
                Some(old_brk)
            },
            Err(_) => None,
        }
    }
}

} // verus!
