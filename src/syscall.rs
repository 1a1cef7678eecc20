//! Syscall adapters: each checks its raw arguments, then asks the processor,
//! the current task's memory set or the ready queue to do the work. A user
//! pointer is only ever resolved through the current task's memory set.
use vstd::prelude::*;
use crate::frame::FrameAllocator;
use crate::mm::{frames_apart, frames_in, has_region_at, region_at, mapping_added, pages_cut, port_bits, vpn_ceil, vpn_floor, PhysSegment, VirtualMemorySet};
use crate::processor::{
    mmap_succeeds, munmap_succeeds, sched_ok, with_memory, Processor, TaskManager,
};
use crate::task::{brk_succeeds, TaskContext, TaskControlBlock, TaskInfo, TaskStatus};

verus! {

/// Bytes of a `TimeVal` in user memory: two 64-bit words.
pub const TIME_VAL_SIZE: u64 = 16;

/// Bytes of a `TaskInfo` in user memory: a 32-bit status, the counters,
/// padding, and a 64-bit time.
pub const TASK_INFO_SIZE: u64 = 2016;

/// Microseconds in a second.
pub const MICROS_PER_SEC: usize = 1_000_000;

/// A point in time as seconds and microseconds.
#[derive(Clone, Copy, Debug, PartialEq, Eq, Structural)]
pub struct TimeVal {
    pub sec: usize,
    pub usec: usize,
}

/// `us` microseconds, split into whole seconds and the rest.
pub fn time_val_of(us: usize) -> (r: TimeVal)
    ensures
        r.sec == us / MICROS_PER_SEC,
        r.usec == us % MICROS_PER_SEC,
        r.usec < MICROS_PER_SEC,
        r.sec * MICROS_PER_SEC + r.usec == us,
{
    TimeVal { sec: us / MICROS_PER_SEC, usec: us % MICROS_PER_SEC }
}

/// A value to copy into user memory, piece by piece, at `dest`.
pub struct TimeValWrite {
    pub value: TimeVal,
    pub dest: Vec<PhysSegment>,
}

/// A value to copy into user memory, piece by piece, at `dest`.
pub struct TaskInfoWrite {
    pub value: TaskInfo,
    pub dest: Vec<PhysSegment>,
}

/// The memory set of the current task, if any.
pub open spec fn current_memory(p: Processor) -> Option<VirtualMemorySet> {
    match p.current_task() {
        Some(t) => Some(t.memory_set),
        None => None,
    }
}

/// Reports the time `now_us` at user address `ts`: 0 and the write to make
/// when the current task may write all of `[ts, ts + 16)`, else -1 and nothing
/// to write.
pub fn sys_get_time(p: &Processor, ts: usize, now_us: usize) -> (r: (isize, Option<TimeValWrite>))
    requires
        p.wf(),
    ensures
        r.0 == 0 <==> (current_memory(*p) is Some && ts + TIME_VAL_SIZE <= u64::MAX
            && current_memory(*p)->Some_0.writes_all(ts as u64, TIME_VAL_SIZE)),
        r.0 == 0 || r.0 == -1,
        r.1 is Some <==> r.0 == 0,
        r.1 matches Some(w) ==> {
            &&& w.value.sec == now_us / MICROS_PER_SEC
            &&& w.value.usec == now_us % MICROS_PER_SEC
            &&& current_memory(*p)->Some_0.splits(ts as u64, TIME_VAL_SIZE, w.dest@)
        },
{
    match p.current() {
        Some(t) => match t.memory_set.user_segments(ts as u64, TIME_VAL_SIZE) {
            Some(dest) => (0, Some(TimeValWrite { value: time_val_of(now_us), dest })),
            None => (-1, None),
        },
        None => (-1, None),
    }
}

/// Reports the current task's accounting at `now_ms` at user address `ti`:
/// 0 and the write to make when the current task may write all of
/// `[ti, ti + TASK_INFO_SIZE)`, else -1 and nothing to write.
pub fn sys_task_info(p: &Processor, ti: usize, now_ms: usize) -> (r: (isize, Option<TaskInfoWrite>))
    requires
        p.wf(),
    ensures
        r.0 == 0 <==> (current_memory(*p) is Some && ti + TASK_INFO_SIZE <= u64::MAX
            && current_memory(*p)->Some_0.writes_all(ti as u64, TASK_INFO_SIZE)),
        r.0 == 0 || r.0 == -1,
        r.1 is Some <==> r.0 == 0,
        r.1 matches Some(w) ==> {
            let t = p.current_task()->Some_0;
            &&& w.value.status == TaskStatus::Running
            &&& w.value.syscall_times@ == t.syscall_times@
            &&& w.value.time == match t.start_time {
                Some(s) => if now_ms >= s { (now_ms - s) as usize } else { 0 },
                None => 0,
            }
            &&& t.memory_set.splits(ti as u64, TASK_INFO_SIZE, w.dest@)
        },
{
    match p.current() {
        Some(t) => match t.memory_set.user_segments(ti as u64, TASK_INFO_SIZE) {
            Some(dest) => match p.get_task_info(now_ms) {
                Some(value) => (0, Some(TaskInfoWrite { value, dest })),
                None => (-1, None),
            },
            None => (-1, None),
        },
        None => (-1, None),
    }
}

/// Maps `[start, start + len)` into the current task with the rights of
/// `port` (bit 0 read, bit 1 write, bit 2 execute): 0 on success, else -1
/// with nothing changed.
pub fn sys_mmap(p: &mut Processor, frames: &mut FrameAllocator, start: usize, len: usize, port: usize) -> (r:
    isize)
    requires
        old(p).wf(),
        old(frames).wf(),
        old(p).current_task() matches Some(t) ==> t.memory_set.frames_within(old(frames).allocated()),
    ensures
        final(p).wf(),
        final(frames).wf(),
        r == 0 || r == -1,
        r == 0 <==> (old(p).current_task() is Some && mmap_succeeds(
            old(p).current_task()->Some_0.memory_set,
            old(frames).available(),
            start,
            len,
            port,
        )),
        port == 0 || port > 7 || start % 4096 != 0 || len == 0 ==> r == -1,
        r == -1 ==> final(p).current_task() == old(p).current_task() && final(frames).allocated()
            == old(frames).allocated() && final(frames).available() == old(frames).available(),
        r == 0 ==> {
            let t = old(p).current_task()->Some_0;
            let ms = final(p).current_task()->Some_0.memory_set;
            let a = ms.areas().last();
            &&& final(p).current_task() == Some(with_memory(t, ms))
            &&& ms.areas() == t.memory_set.areas().push(a)
            &&& a.start_vpn == vpn_floor(start as u64)
            &&& a.end_vpn == vpn_ceil((start + len) as u64)
            &&& a.perm.bits == port_bits(port as u64)
            &&& mapping_added(t.memory_set, ms, *old(frames), *final(frames), start as u64, (start + len) as u64, a.perm)
        },
        final(p).current_task() matches Some(t) ==> t.memory_set.frames_within(final(frames).allocated()),
        old(p).current_task() is Some ==> forall|b: VirtualMemorySet|
            b.frames_within(old(frames).allocated()) && #[trigger] frames_apart(
                old(p).current_task()->Some_0.memory_set,
                b,
            ) ==> b.frames_within(final(frames).allocated()) && frames_apart(
                final(p).current_task()->Some_0.memory_set,
                b,
            ),
{
    if port == 0 || port > 7 {
        return -1;
    }
    if start % 4096 != 0 || len == 0 {
        return -1;
    }
    p.task_mmap(frames, start, len, port)
}

/// Unmaps the region that covers exactly `[start, start + len)` from the
/// current task: 0 on success, else -1 with nothing changed.
pub fn sys_munmap(p: &mut Processor, frames: &mut FrameAllocator, start: usize, len: usize) -> (r: isize)
    requires
        old(p).wf(),
        old(frames).wf(),
        old(p).current_task() matches Some(t) ==> t.memory_set.frames_within(old(frames).allocated()),
    ensures
        final(p).wf(),
        final(frames).wf(),
        r == 0 || r == -1,
        r == 0 <==> (old(p).current_task() is Some && munmap_succeeds(
            old(p).current_task()->Some_0.memory_set,
            start,
            len,
        )),
        start % 4096 != 0 || len == 0 ==> r == -1,
        r == -1 ==> final(p).current_task() == old(p).current_task() && final(frames).allocated()
            == old(frames).allocated() && final(frames).available() == old(frames).available(),
        r == 0 ==> {
            let t = old(p).current_task()->Some_0;
            let ms = final(p).current_task()->Some_0.memory_set;
            &&& final(p).current_task() == Some(with_memory(t, ms))
            &&& pages_cut(t.memory_set, ms, vpn_floor(start as u64), vpn_ceil((start + len) as u64))
            &&& final(frames).allocated() == old(frames).allocated().difference(
                frames_in(t.memory_set, vpn_floor(start as u64), vpn_ceil((start + len) as u64)),
            )
        },
        final(p).current_task() matches Some(t) ==> t.memory_set.frames_within(final(frames).allocated()),
        old(p).current_task() is Some ==> forall|b: VirtualMemorySet|
            b.frames_within(old(frames).allocated()) && #[trigger] frames_apart(
                old(p).current_task()->Some_0.memory_set,
                b,
            ) ==> b.frames_within(final(frames).allocated()) && frames_apart(
                final(p).current_task()->Some_0.memory_set,
                b,
            ),
{
    if start % 4096 != 0 || len == 0 {
        return -1;
    }
    p.task_unmap(frames, start, len)
}

/// The current task gives up the CPU and waits in the queue, to resume
/// from `cx`; always 0.
pub fn sys_yield(p: &mut Processor, manager: &mut TaskManager, cx: TaskContext) -> (r: isize)
    requires
        sched_ok(*old(p), *old(manager)),
    ensures
        r == 0,
        sched_ok(*final(p), *final(manager)),
        final(p).current_task() is None,
        match old(p).current_task() {
            Some(t) => final(manager).queue() == old(manager).queue().push(
                (TaskControlBlock { status: TaskStatus::Ready, task_cx: cx, ..t }),
            ),
            None => final(manager).queue() == old(manager).queue(),
        },
{
    p.suspend_to(manager, cx);
    0
}

/// Ends the current task: it is marked exited and its frames go back to
/// the allocator. The caller then switches to the idle control flow and
/// never returns to the task.
pub fn sys_exit(p: &mut Processor, frames: &mut FrameAllocator, exit_code: i32) -> (r: Option<
    TaskControlBlock,
>)
    requires
        old(p).wf(),
        old(frames).wf(),
        old(p).current_task() matches Some(t) ==> t.memory_set.frames_within(old(frames).allocated()),
    ensures
        final(p).current_task() is None,
        final(frames).wf(),
        r is Some <==> old(p).current_task() is Some,
        r matches Some(x) ==> x.status == TaskStatus::Exited && x.pid == old(p).current_task()->Some_0.pid
            && x.memory_set.areas().len() == 0,
        forall|f: u64|
            #[trigger] final(frames).allocated().contains(f) <==> old(frames).allocated().contains(f)
                && !(current_memory(*old(p)) matches Some(ms) && ms.holds_frame(f)),
{
    let r = p.exit_current(frames);
    proof {
        assert forall|f: u64|
            #[trigger] frames.allocated().contains(f) <==> old(frames).allocated().contains(f)
                && !(current_memory(*old(p)) matches Some(ms) && ms.holds_frame(f)) by {
            if old(p).current_task() is Some {
                assert(frames.allocated().contains(f) == old(frames).allocated().difference(
                    Set::new(|g: u64| old(p).current_task()->Some_0.memory_set.holds_frame(g)),
                ).contains(f));
            }
        }
    }
    r
}

/// Moves the end of the current task's heap by `size` bytes: the previous
/// end on success, else -1 with nothing changed.
pub fn sys_sbrk(p: &mut Processor, frames: &mut FrameAllocator, size: i32) -> (r: isize)
    requires
        old(p).wf(),
        old(frames).wf(),
        old(p).current_task() matches Some(t) ==> t.memory_set.frames_within(old(frames).allocated()),
    ensures
        final(p).wf(),
        final(frames).wf(),
        r != -1 <==> (old(p).current_task() is Some && old(p).current_task()->Some_0.program_brk
            <= isize::MAX && brk_succeeds(
            old(p).current_task()->Some_0,
            old(frames).available(),
            size as int,
        )),
        r != -1 ==> {
            let t = old(p).current_task()->Some_0;
            let t2 = final(p).current_task()->Some_0;
            &&& r == t.program_brk
            &&& final(p).current_task() == Some(
                (TaskControlBlock {
                    memory_set: t2.memory_set,
                    program_brk: (t.program_brk + size) as u64,
                    ..t
                }),
            )
            &&& vpn_ceil(t2.program_brk) > vpn_floor(t.heap_bottom) && vpn_ceil(t2.program_brk)
                != vpn_ceil(t.program_brk) ==> has_region_at(t2.memory_set, vpn_floor(t.heap_bottom))
                && t2.memory_set.areas()[region_at(t2.memory_set, vpn_floor(t.heap_bottom))].end_vpn
                == vpn_ceil(t2.program_brk)
        },
        r == -1 ==> final(p).current_task() == old(p).current_task() && final(frames).allocated()
            == old(frames).allocated(),
        final(p).current_task() matches Some(t) ==> t.memory_set.frames_within(final(frames).allocated()),
{
    match p.current() {
        Some(t) => {
            if t.program_brk > isize::MAX as u64 {
                return -1;
            }
        },
        None => {
            return -1;
        },
    }
    match p.change_program_brk(frames, size) {
        Some(old_brk) => old_brk as isize,
        None => -1,
    }
}

} // verus!
