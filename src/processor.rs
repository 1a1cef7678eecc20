//! The single-core processor cursor and the ready queue: which task owns
//! the CPU, the idle control flow, and the operations a running task asks
//! of the kernel.
use vstd::prelude::*;
use crate::config::{MAX_SYSCALL_NUM, MIN_PRIORITY, VA_LIMIT};
use crate::frame::FrameAllocator;
use crate::mm::{
    frames_apart, frames_in, has_region_at, region_at, mapping_added, maps_range, meets, pages_cut, port_bits, valid_range, vpn_ceil, vpn_floor, MapError,
    MapPermission, VirtualMemorySet,
};
use crate::task::{brk_succeeds, TaskContext, TaskControlBlock, TaskInfo, TaskStatus};

verus! {

/// `t` with its memory set replaced.
pub open spec fn with_memory(t: TaskControlBlock, ms: VirtualMemorySet) -> TaskControlBlock {
    TaskControlBlock { memory_set: ms, ..t }
}

/// A user range `[start, start + len)` that `mmap` and `munmap` accept.
pub open spec fn user_range_ok(start: usize, len: usize) -> bool {
    start + len <= VA_LIMIT && valid_range(start as u64, (start + len) as u64)
}

/// What `mmap` needs to succeed on a memory set, with `avail` free frames.
pub open spec fn mmap_succeeds(ms: VirtualMemorySet, avail: nat, start: usize, len: usize, port: usize) -> bool {
    &&& 1 <= port <= 7
    &&& user_range_ok(start, len)
    &&& !(exists|i: int|
        0 <= i < ms.areas().len() && meets(
            #[trigger] ms.areas()[i],
            vpn_floor(start as u64),
            vpn_ceil((start + len) as u64),
        ))
    &&& avail >= vpn_ceil((start + len) as u64) - vpn_floor(start as u64)
}

/// What `munmap` needs to succeed on a memory set: every page of the range
/// is mapped.
pub open spec fn munmap_succeeds(ms: VirtualMemorySet, start: usize, len: usize) -> bool {
    &&& user_range_ok(start, len)
    &&& maps_range(ms, vpn_floor(start as u64), vpn_ceil((start + len) as u64))
}

/// The queue of tasks waiting for the CPU, served first in, first out.
pub struct TaskManager {
    ready: Vec<TaskControlBlock>,
}

impl TaskManager {
    /// The waiting tasks, the next one to run first.
    pub closed spec fn queue(&self) -> Seq<TaskControlBlock> {
        self.ready@
    }

    pub fn new() -> (r: Self)
        ensures
            r.queue() == Seq::<TaskControlBlock>::empty(),
    {
        TaskManager { ready: Vec::new() }
    }

    /// Queues a ready task behind the others.
    pub fn add_task(&mut self, task: TaskControlBlock)
        requires
            task.wf(),
            task.status == TaskStatus::Ready,
        ensures
            final(self).queue() == old(self).queue().push(task),
    {
        self.ready.push(task);
    }

    /// Takes the task at the head of the queue.
    pub fn fetch_task(&mut self) -> (r: Option<TaskControlBlock>)
        ensures
            old(self).queue().len() == 0 ==> r is None && final(self).queue() == old(self).queue(),
            old(self).queue().len() > 0 ==> r == Some(old(self).queue()[0]) && final(self).queue()
                == old(self).queue().drop_first(),
    {
        if self.ready.len() == 0 {
            None
        } else {
            let t = self.ready.remove(0);
            proof {
                assert(self.ready@ =~= old(self).queue().drop_first());
            }
            Some(t)
        }
    }

    /// Number of waiting tasks.
    pub fn len(&self) -> (r: usize)
        ensures
            r == self.queue().len(),
    {
        self.ready.len()
    }
}

/// Every task that is alive: those waiting, then the running one.
pub open spec fn live_tasks(p: Processor, m: TaskManager) -> Seq<TaskControlBlock> {
    match p.current_task() {
        Some(t) => m.queue().push(t),
        None => m.queue(),
    }
}

/// The scheduling state is coherent: the running task, if any, is the
/// processor's current one and every waiting task is ready and well formed.
pub open spec fn sched_ok(p: Processor, m: TaskManager) -> bool {
    &&& p.wf()
    &&& forall|i: int|
        0 <= i < m.queue().len() ==> (#[trigger] m.queue()[i]).status == TaskStatus::Ready
            && m.queue()[i].wf()
}

/// The scheduling cursor of the one core.
pub struct Processor {
    current: Option<TaskControlBlock>,
    idle_task_cx: TaskContext,
}

impl Processor {
    /// The task that owns the CPU, if any.
    pub closed spec fn current_task(&self) -> Option<TaskControlBlock> {
        self.current
    }

    /// The saved context of the idle control flow.
    pub closed spec fn idle_cx(&self) -> TaskContext {
        self.idle_task_cx
    }

    pub open spec fn wf(&self) -> bool {
        self.current_task() matches Some(t) ==> t.wf() && t.status == TaskStatus::Running
    }

    /// A processor with no current task.
    pub fn new() -> (r: Self)
        ensures
            r.wf(),
            r.current_task() is None,
            r.idle_cx().ra == 0 && r.idle_cx().sp == 0,
            forall|i: int| 0 <= i < 12 ==> r.idle_cx().s[i] == 0,
    {
        Processor { current: None, idle_task_cx: TaskContext::zero_init() }
    }

    /// The saved context of the idle control flow, to switch back to.
    pub fn idle_task_cx(&self) -> (r: TaskContext)
        ensures
            r == self.idle_cx(),
    {
        self.idle_task_cx
    }

    /// The slot of the idle control flow's context, for the switch that
    /// leaves it to save into.
    pub fn idle_task_cx_mut(&mut self) -> (r: &mut TaskContext)
        ensures
            *r == old(self).idle_cx(),
            final(self).idle_cx() == *final(r),
            final(self).current_task() == old(self).current_task(),
    {
        &mut self.idle_task_cx
    }

    /// Removes the current task and hands it over.
    pub fn take_current(&mut self) -> (r: Option<TaskControlBlock>)
        ensures
            r == old(self).current_task(),
            final(self).current_task() is None,
            final(self).idle_cx() == old(self).idle_cx(),
    {
        let mut cur: Option<TaskControlBlock> = None;
        std::mem::swap(&mut self.current, &mut cur);
        cur
    }

    /// The current task, if any.
    pub fn current(&self) -> (r: Option<&TaskControlBlock>)
        ensures
            r matches Some(t) ==> self.current_task() == Some(*t),
            r is None <==> self.current_task() is None,
    {
        match &self.current {
            Some(t) => Some(t),
            None => None,
        }
    }

    /// Makes `task` the running task, first scheduled at `now_ms` unless it
    /// ran before, and returns the context to switch to.
    pub fn run_task(&mut self, task: TaskControlBlock, now_ms: usize) -> (r: TaskContext)
        requires
            old(self).current_task() is None,
            task.wf(),
        ensures
            final(self).wf(),
            r == task.task_cx,
            final(self).idle_cx() == old(self).idle_cx(),
            final(self).current_task() == Some(
                (TaskControlBlock {
                    status: TaskStatus::Running,
                    start_time: if task.start_time is None {
                        Some(now_ms)
                    } else {
                        task.start_time
                    },
                    ..task
                }),
            ),
    {
        let mut task = task;
        task.status = TaskStatus::Running;
        if task.start_time.is_none() {
            task.start_time = Some(now_ms);
        }
        let cx = task.task_cx;
        self.current = Some(task);
        cx
    }

    /// Takes the current task off the CPU, ready to run again from `cx`.
    pub fn suspend_current(&mut self, cx: TaskContext) -> (r: Option<TaskControlBlock>)
        requires
            old(self).wf(),
        ensures
            final(self).current_task() is None,
            final(self).idle_cx() == old(self).idle_cx(),
            match old(self).current_task() {
                Some(t) => r == Some(
                    (TaskControlBlock { status: TaskStatus::Ready, task_cx: cx, ..t }),
                ),
                None => r is None,
            },
            r matches Some(t) ==> t.wf(),
    {
        match self.take_current() {
            Some(t) => {
                let mut t = t;
                t.status = TaskStatus::Ready;
                t.task_cx = cx;
                Some(t)
            },
            None => None,
        }
    }

    /// Ends the current task: it is marked exited and every frame of its
    /// address space goes back to the allocator.
    pub fn exit_current(&mut self, frames: &mut FrameAllocator) -> (r: Option<TaskControlBlock>)
        requires
            old(self).wf(),
            old(frames).wf(),
            old(self).current_task() matches Some(t) ==> t.memory_set.frames_within(
                old(frames).allocated(),
            ),
        ensures
            final(self).current_task() is None,
            final(self).idle_cx() == old(self).idle_cx(),
            final(frames).wf(),
            match old(self).current_task() {
                Some(t) => r matches Some(x) && x.pid == t.pid && x.status == TaskStatus::Exited
                    && x.memory_set.areas().len() == 0 && final(frames).allocated()
                    =~= old(frames).allocated().difference(
                    Set::new(|f: u64| t.memory_set.holds_frame(f)),
                ),
                None => r is None && final(frames).allocated() == old(frames).allocated(),
            },
            old(self).current_task() is Some ==> forall|b: VirtualMemorySet|
                b.frames_within(old(frames).allocated()) && #[trigger] frames_apart(
                    old(self).current_task()->Some_0.memory_set,
                    b,
                ) ==> b.frames_within(final(frames).allocated()),
    {
        match self.take_current() {
            Some(t) => {
                let mut t = t;
                t.status = TaskStatus::Exited;
                t.memory_set.recycle(frames);
                Some(t)
            },
            None => None,
        }
    }

    /// Counts one more invocation of syscall `id` by the current task; a
    /// count that has reached `u32::MAX` stays there.
    pub fn set_syscall_times(&mut self, syscall_id: usize)
        requires
            old(self).wf(),
        ensures
            final(self).wf(),
            final(self).idle_cx() == old(self).idle_cx(),
            match old(self).current_task() {
                Some(t) => final(self).current_task() == Some(
                    (TaskControlBlock {
                        syscall_times: final(self).current_task()->Some_0.syscall_times,
                        ..t
                    }),
                ) && final(self).current_task()->Some_0.syscall_times@ == if syscall_id
                    < MAX_SYSCALL_NUM && t.syscall_times@[syscall_id as int] < u32::MAX {
                    t.syscall_times@.update(
                        syscall_id as int,
                        (t.syscall_times@[syscall_id as int] + 1) as u32,
                    )
                } else {
                    t.syscall_times@
                },
                None => final(self).current_task() is None,
            },
            old(self).current_task() is Some ==> forall|i: int|
                0 <= i < MAX_SYSCALL_NUM ==> #[trigger] final(self).current_task()->Some_0.syscall_times@[i]
                    >= old(self).current_task()->Some_0.syscall_times@[i],
    {
        match self.take_current() {
            Some(t) => {
                let mut t = t;
                if syscall_id < t.syscall_times.len() && t.syscall_times[syscall_id] < u32::MAX {
                    t.syscall_times[syscall_id] = t.syscall_times[syscall_id] + 1;
                }
                self.current = Some(t);
            },
            None => {},
        }
    }

    /// The accounting snapshot of the current task at `now_ms`.
    pub fn get_task_info(&self, now_ms: usize) -> (r: Option<TaskInfo>)
        requires
            self.wf(),
        ensures
            r is Some <==> self.current_task() is Some,
            r matches Some(info) ==> {
                let t = self.current_task()->Some_0;
                &&& info.status == TaskStatus::Running
                &&& info.syscall_times@ == t.syscall_times@
                &&& info.time == match t.start_time {
                    Some(s) => if now_ms >= s { (now_ms - s) as usize } else { 0 },
                    None => 0,
                }
            },
    {
        match &self.current {
            Some(t) => {
                let times = t.syscall_times.clone();
                proof {
                    assert(times@ =~= t.syscall_times@);
                }
                let time = match t.start_time {
                    Some(s) => now_ms.saturating_sub(s),
                    None => 0,
                };
                Some(TaskInfo { status: TaskStatus::Running, syscall_times: times, time })
            },
            None => None,
        }
    }

    /// Maps `[start, start + len)` into the current task with the access
    /// rights of `port`: 0 on success, -1 when there is no current task,
    /// `port` is not in `1..=7`, the range is not a page-aligned non-empty
    /// user range, it meets a mapped region, or frames run out. Nothing
    /// changes on -1.
    pub fn task_mmap(&mut self, frames: &mut FrameAllocator, start: usize, len: usize, port: usize) -> (r:
        isize)
        requires
            old(self).wf(),
            old(frames).wf(),
            old(self).current_task() matches Some(t) ==> t.memory_set.frames_within(
                old(frames).allocated(),
            ),
        ensures
            final(self).wf(),
            final(frames).wf(),
            final(self).idle_cx() == old(self).idle_cx(),
            r == 0 || r == -1,
            r == 0 <==> (old(self).current_task() is Some && mmap_succeeds(
                old(self).current_task()->Some_0.memory_set,
                old(frames).available(),
                start,
                len,
                port,
            )),
            r == -1 ==> final(self).current_task() == old(self).current_task()
                && final(frames).allocated() == old(frames).allocated()
                && final(frames).available() == old(frames).available(),
            r == 0 ==> {
                let t = old(self).current_task()->Some_0;
                let ms = final(self).current_task()->Some_0.memory_set;
                let a = ms.areas().last();
                &&& final(self).current_task() == Some(with_memory(t, ms))
                &&& ms.areas() == t.memory_set.areas().push(a)
                &&& a.start_vpn == vpn_floor(start as u64)
                &&& a.end_vpn == vpn_ceil((start + len) as u64)
                &&& a.perm.bits == port_bits(port as u64)
                &&& mapping_added(t.memory_set, ms, *old(frames), *final(frames), start as u64, (start + len) as u64, a.perm)
            },
            final(self).current_task() matches Some(t) ==> t.memory_set.frames_within(
                final(frames).allocated(),
            ),
            old(self).current_task() is Some ==> forall|b: VirtualMemorySet|
                b.frames_within(old(frames).allocated()) && #[trigger] frames_apart(
                    old(self).current_task()->Some_0.memory_set,
                    b,
                ) ==> b.frames_within(final(frames).allocated()) && frames_apart(
                    final(self).current_task()->Some_0.memory_set,
                    b,
                ),
    {
        if port == 0 || port > 7 {
            return -1;
        }
        if start as u64 >= VA_LIMIT || len as u64 > VA_LIMIT - start as u64 {
            proof {
                if self.current_task() is Some {
                    assert(!user_range_ok(start, len));
                }
            }
            return -1;
        }
        let start_va = start as u64;
        let end_va = start as u64 + len as u64;
        assert(start_va == start as int && end_va == start + len);
        assert(end_va == (start + len) as u64);
        let perm = MapPermission::from_port(port as u64);
        match self.take_current() {
            Some(t) => {
                let mut t = t;
                let res = t.memory_set.add_mapping(frames, start_va, end_va, perm);
                self.current = Some(t);
                match res {
                    Ok(()) => 0,
                    Err(e) => {
                        proof {
                            match e {
                                MapError::InvalidRange => {},
                                MapError::Overlap => {},
                                MapError::NotMapped => {},
                                MapError::OutOfFrames => {},
                            }
                        }
                        -1
                    },
                }
            },
            None => -1,
        }
    }

    /// Unmaps the region that covers exactly `[start, start + len)` from
    /// the current task: 0 on success, -1 when there is no current task,
    /// the range is not a page-aligned non-empty user range, or no region
    /// covers exactly it. Nothing changes on -1.
    pub fn task_unmap(&mut self, frames: &mut FrameAllocator, start: usize, len: usize) -> (r: isize)
        requires
            old(self).wf(),
            old(frames).wf(),
            old(self).current_task() matches Some(t) ==> t.memory_set.frames_within(
                old(frames).allocated(),
            ),
        ensures
            final(self).wf(),
            final(frames).wf(),
            final(self).idle_cx() == old(self).idle_cx(),
            r == 0 || r == -1,
            r == 0 <==> (old(self).current_task() is Some && munmap_succeeds(
                old(self).current_task()->Some_0.memory_set,
                start,
                len,
            )),
            r == -1 ==> final(self).current_task() == old(self).current_task()
                && final(frames).allocated() == old(frames).allocated()
                && final(frames).available() == old(frames).available(),
            r == 0 ==> {
                let t = old(self).current_task()->Some_0;
                let ms = final(self).current_task()->Some_0.memory_set;
                &&& final(self).current_task() == Some(with_memory(t, ms))
                &&& pages_cut(t.memory_set, ms, vpn_floor(start as u64), vpn_ceil((start + len) as u64))
                &&& final(frames).allocated() == old(frames).allocated().difference(
                    frames_in(t.memory_set, vpn_floor(start as u64), vpn_ceil((start + len) as u64)),
                )
            },
            final(self).current_task() matches Some(t) ==> t.memory_set.frames_within(
                final(frames).allocated(),
            ),
            old(self).current_task() is Some ==> forall|b: VirtualMemorySet|
                b.frames_within(old(frames).allocated()) && #[trigger] frames_apart(
                    old(self).current_task()->Some_0.memory_set,
                    b,
                ) ==> b.frames_within(final(frames).allocated()) && frames_apart(
                    final(self).current_task()->Some_0.memory_set,
                    b,
                ),
    {
        if start as u64 >= VA_LIMIT || len as u64 > VA_LIMIT - start as u64 {
            return -1;
        }
        let start_va = start as u64;
        let end_va = start as u64 + len as u64;
        assert(end_va == (start + len) as u64);
        match self.take_current() {
            Some(t) => {
                let mut t = t;
                let res = t.memory_set.remove_mapping(frames, start_va, end_va);
                self.current = Some(t);
                match res {
                    Ok(()) => 0,
                    Err(e) => {
                        proof {
                            match e {
                                MapError::InvalidRange => {},
                                MapError::Overlap => {},
                                MapError::NotMapped => {},
                                MapError::OutOfFrames => {},
                            }
                        }
                        -1
                    },
                }
            },
            None => -1,
        }
    }

    /// Sets the current task's priority: returns `prio`, or -1 without any
    /// change when `prio` is below the minimum or there is no current task.
    pub fn task_set_priority(&mut self, prio: isize) -> (r: isize)
        requires
            old(self).wf(),
        ensures
            final(self).wf(),
            final(self).idle_cx() == old(self).idle_cx(),
            r == if prio >= MIN_PRIORITY && old(self).current_task() is Some { prio as int } else { -1 },
            r == -1 ==> final(self).current_task() == old(self).current_task(),
            r != -1 ==> final(self).current_task() == Some(
                (TaskControlBlock { priority: prio, ..old(self).current_task()->Some_0 }),
            ),
    {
        if prio < MIN_PRIORITY {
            return -1;
        }
        match self.take_current() {
            Some(t) => {
                let mut t = t;
                t.priority = prio;
                self.current = Some(t);
                prio
            },
            None => -1,
        }
    }

    /// One pass of the scheduling loop: takes the next ready task, makes it
    /// the running one (first scheduled at `now_ms` unless it ran before),
    /// and returns the context to switch to; `None` when no task is ready.
    pub fn dispatch(&mut self, manager: &mut TaskManager, now_ms: usize) -> (r: Option<TaskContext>)
        requires
            old(self).current_task() is None,
            sched_ok(*old(self), *old(manager)),
        ensures
            sched_ok(*final(self), *final(manager)),
            final(self).idle_cx() == old(self).idle_cx(),
            old(manager).queue().len() == 0 ==> r is None && final(self).current_task() is None
                && final(manager).queue() == old(manager).queue(),
            old(manager).queue().len() > 0 ==> {
                let t = old(manager).queue()[0];
                &&& r == Some(t.task_cx)
                &&& final(manager).queue() == old(manager).queue().drop_first()
                &&& final(self).current_task() == Some(
                    (TaskControlBlock {
                        status: TaskStatus::Running,
                        start_time: if t.start_time is None {
                            Some(now_ms)
                        } else {
                            t.start_time
                        },
                        ..t
                    }),
                )
            },
    {
        match manager.fetch_task() {
            Some(task) => {
                proof {
                    assert(old(manager).queue()[0].wf());
                    assert forall|i: int| 0 <= i < manager.queue().len() implies (#[trigger] manager.queue()[i]).status
                        == TaskStatus::Ready && manager.queue()[i].wf() by {
                        assert(manager.queue()[i] == old(manager).queue()[i + 1]);
                    }
                }
                Some(self.run_task(task, now_ms))
            },
            None => None,
        }
    }

    /// The current task gives up the CPU: it is queued behind the others,
    /// ready to resume from `cx`.
    pub fn suspend_to(&mut self, manager: &mut TaskManager, cx: TaskContext)
        requires
            sched_ok(*old(self), *old(manager)),
        ensures
            sched_ok(*final(self), *final(manager)),
            final(self).current_task() is None,
            final(self).idle_cx() == old(self).idle_cx(),
            match old(self).current_task() {
                Some(t) => final(manager).queue() == old(manager).queue().push(
                    (TaskControlBlock { status: TaskStatus::Ready, task_cx: cx, ..t }),
                ),
                None => final(manager).queue() == old(manager).queue(),
            },
    {
        match self.suspend_current(cx) {
            Some(t) => {
                manager.add_task(t);
                proof {
                    assert forall|i: int| 0 <= i < manager.queue().len() implies (#[trigger] manager.queue()[i]).status
                        == TaskStatus::Ready && manager.queue()[i].wf() by {
                        if i < old(manager).queue().len() {
                            assert(manager.queue()[i] == old(manager).queue()[i]);
                        }
                    }
                }
            },
            None => {},
        }
    }

    /// Moves the end of the current task's heap by `size` bytes; the
    /// previous end, or `None` with nothing changed when there is no
    /// current task or the heap cannot be moved there.
    pub fn change_program_brk(&mut self, frames: &mut FrameAllocator, size: i32) -> (r: Option<u64>)
        requires
            old(self).wf(),
            old(frames).wf(),
            old(self).current_task() matches Some(t) ==> t.memory_set.frames_within(
                old(frames).allocated(),
            ),
        ensures
            final(self).wf(),
            final(frames).wf(),
            final(self).idle_cx() == old(self).idle_cx(),
            old(self).current_task() is None ==> r is None && final(self).current_task() is None
                && final(frames).allocated() == old(frames).allocated(),
            r is None ==> final(self).current_task() == old(self).current_task()
                && final(frames).allocated() == old(frames).allocated(),
            r is Some ==> {
                let t = old(self).current_task()->Some_0;
                let t2 = final(self).current_task()->Some_0;
                &&& r == Some(t.program_brk)
                &&& final(self).current_task() == Some(
                    (TaskControlBlock {
                        memory_set: t2.memory_set,
                        program_brk: (t.program_brk + size) as u64,
                        ..t
                    }),
                )
                &&& vpn_ceil(t2.program_brk) > vpn_floor(t.heap_bottom) && vpn_ceil(t2.program_brk)
                    != vpn_ceil(t.program_brk) ==> has_region_at(t2.memory_set, vpn_floor(t.heap_bottom))
                    && t2.memory_set.areas()[region_at(t2.memory_set, vpn_floor(t.heap_bottom))].end_vpn
                    == vpn_ceil(t2.program_brk)
            },
            r is Some <==> (old(self).current_task() is Some && brk_succeeds(
                old(self).current_task()->Some_0,
                old(frames).available(),
                size as int,
            )),
            final(self).current_task() matches Some(t) ==> t.memory_set.frames_within(
                final(frames).allocated(),
            ),
            old(self).current_task() is Some ==> forall|b: VirtualMemorySet|
                b.frames_within(old(frames).allocated()) && #[trigger] frames_apart(
                    old(self).current_task()->Some_0.memory_set,
                    b,
                ) ==> b.frames_within(final(frames).allocated()) && frames_apart(
                    final(self).current_task()->Some_0.memory_set,
                    b,
                ),
    {
        match self.take_current() {
            Some(t) => {
                let mut t = t;
                let r = t.change_program_brk(frames, size);
                self.current = Some(t);
                r
            },
            None => None,
        }
    }
}

} // verus!
