//! Properties that hold across calls: isolation of address spaces, regions
//! that never overlap, mapping then unmapping as a no-op, and at most one
//! running task.
use vstd::prelude::*;
use crate::config::PAGE_SIZE;
use crate::frame::FrameAllocator;
use crate::mm::{
    frames_apart, holds_page, mapping_added, mapping_removed, meets, vpn_floor,
    MapPermission, VirtualMemorySet,
};
use crate::processor::{live_tasks, sched_ok, Processor, TaskManager};
use crate::task::{TaskControlBlock, TaskStatus};

verus! {

/// The physical page of a translated address is the frame that backs the
/// virtual page.
proof fn lemma_frame_of(ms: VirtualMemorySet, va: u64, pa: u64) -> (f: u64)
    requires
        ms.wf(),
        ms.translates_to(va, pa),
    ensures
        pa / PAGE_SIZE == f,
        exists|i: int, k: int|
            0 <= i < ms.areas().len() && 0 <= k < ms.areas()[i].frames@.len()
                && #[trigger] ms.areas()[i].frames@[k] == f,
{
    let i = choose|i: int|
        0 <= i < ms.areas().len() && #[trigger] holds_page(ms.areas()[i], vpn_floor(va)) && pa
            == ms.areas()[i].frames@[vpn_floor(va) - ms.areas()[i].start_vpn] * PAGE_SIZE + va
            % PAGE_SIZE;
    assert(crate::mm::area_ok(ms.areas()[i]));
    let k = vpn_floor(va) - ms.areas()[i].start_vpn;
    let f = ms.areas()[i].frames@[k];
    let o = va % 4096;
    assert((f * 4096 + o) / 4096 == f) by (nonlinear_arith)
        requires 0 <= o < 4096;
    f
}

/// Isolation: when no frame backs pages of two distinct tasks, an address
/// mapped in one never reaches a physical page that the other can reach.
pub proof fn lemma_isolation(
    tasks: Seq<TaskControlBlock>,
    a: int,
    b: int,
    va: u64,
    pa: u64,
    vb: u64,
    pb: u64,
)
    requires
        0 <= a < tasks.len(),
        0 <= b < tasks.len(),
        a != b,
        forall|x: int| 0 <= x < tasks.len() ==> (#[trigger] tasks[x]).wf(),
        forall|x: int, y: int|
            0 <= x < tasks.len() && 0 <= y < tasks.len() && x != y ==> frames_apart(
                #[trigger] tasks[x].memory_set,
                #[trigger] tasks[y].memory_set,
            ),
        tasks[a].memory_set.translates_to(va, pa),
        tasks[b].memory_set.translates_to(vb, pb),
    ensures
        pa / PAGE_SIZE != pb / PAGE_SIZE,
{
    let ma = tasks[a].memory_set;
    let mb = tasks[b].memory_set;
    let f = lemma_frame_of(ma, va, pa);
    let g = lemma_frame_of(mb, vb, pb);
    let (i, k) = choose|i: int, k: int|
        0 <= i < ma.areas().len() && 0 <= k < ma.areas()[i].frames@.len()
            && #[trigger] ma.areas()[i].frames@[k] == f;
    let (j, l) = choose|j: int, l: int|
        0 <= j < mb.areas().len() && 0 <= l < mb.areas()[j].frames@.len()
            && #[trigger] mb.areas()[j].frames@[l] == g;
    assert(frames_apart(ma, mb));
    assert(ma.areas()[i].frames@[k] != mb.areas()[j].frames@[l]);
}

/// Regions never overlap: after a successful mapping on a set whose regions
/// are pairwise disjoint, the new region meets none of those installed
/// before it, and all regions are still pairwise disjoint.
pub proof fn lemma_mapping_disjoint(
    ms0: VirtualMemorySet,
    ms1: VirtualMemorySet,
    f0: FrameAllocator,
    f1: FrameAllocator,
    start_va: u64,
    end_va: u64,
    perm: MapPermission,
)
    requires
        ms0.wf(),
        mapping_added(ms0, ms1, f0, f1, start_va, end_va, perm),
    ensures
        forall|i: int|
            0 <= i < ms1.areas().len() - 1 ==> !meets(
                #[trigger] ms1.areas()[i],
                ms1.areas().last().start_vpn,
                ms1.areas().last().end_vpn,
            ),
        forall|i: int, j: int|
            0 <= i < ms1.areas().len() && 0 <= j < ms1.areas().len() && i != j ==> !meets(
                #[trigger] ms1.areas()[i],
                ms1.areas()[j].start_vpn,
                #[trigger] ms1.areas()[j].end_vpn,
            ),
{
    let a = ms1.areas().last();
    let n = ms0.areas().len() as int;
    assert forall|i: int| 0 <= i < ms1.areas().len() - 1 implies !meets(
        #[trigger] ms1.areas()[i],
        a.start_vpn,
        a.end_vpn,
    ) by {
        assert(ms1.areas()[i] == ms0.areas()[i]);
    }
    assert forall|i: int, j: int|
        0 <= i < ms1.areas().len() && 0 <= j < ms1.areas().len() && i != j implies !meets(
        #[trigger] ms1.areas()[i],
        ms1.areas()[j].start_vpn,
        #[trigger] ms1.areas()[j].end_vpn,
    ) by {
        if i < n && j < n {
            assert(ms1.areas()[i] == ms0.areas()[i] && ms1.areas()[j] == ms0.areas()[j]);
        } else if i < n {
            assert(ms1.areas()[i] == ms0.areas()[i] && ms1.areas()[j] == a);
        } else {
            assert(ms1.areas()[j] == ms0.areas()[j] && ms1.areas()[i] == a);
            assert(!meets(ms0.areas()[j], a.start_vpn, a.end_vpn));
        }
    }
}

/// Round trip: mapping a range and then unmapping the same range leaves the
/// regions, the frames held and the frames free as they were.
pub proof fn lemma_round_trip(
    ms0: VirtualMemorySet,
    ms1: VirtualMemorySet,
    ms2: VirtualMemorySet,
    f0: FrameAllocator,
    f1: FrameAllocator,
    f2: FrameAllocator,
    start_va: u64,
    end_va: u64,
    perm: MapPermission,
)
    requires
        ms0.wf(),
        mapping_added(ms0, ms1, f0, f1, start_va, end_va, perm),
        mapping_removed(ms1, ms2, f1, f2, start_va, end_va),
    ensures
        ms2.areas() == ms0.areas(),
        f2.allocated() == f0.allocated(),
        f2.available() == f0.available(),
{
    let a = ms1.areas().last();
    let n = ms0.areas().len() as int;
    let i = choose|i: int|
        0 <= i < ms1.areas().len() && #[trigger] ms1.areas()[i].start_vpn == vpn_floor(start_va)
            && ms1.areas()[i].end_vpn == crate::mm::vpn_ceil(end_va) && ms2.areas()
            == ms1.areas().remove(i) && f2.allocated() == f1.allocated().difference(
            ms1.areas()[i].frames@.to_set(),
        ) && f2.available() == f1.available() + ms1.areas()[i].frames@.len();
    if i < n {
        assert(ms1.areas()[i] == ms0.areas()[i]);
        assert(!meets(ms0.areas()[i], a.start_vpn, a.end_vpn));
    }
    assert(i == n);
    assert(ms2.areas() =~= ms0.areas());
    assert(f2.allocated() =~= f0.allocated()) by {
        assert forall|f: u64| #[trigger] f2.allocated().contains(f) == f0.allocated().contains(f) by {
            if a.frames@.to_set().contains(f) {
                let k = choose|k: int| 0 <= k < a.frames@.len() && a.frames@[k] == f;
                assert(!f0.allocated().contains(a.frames@[k]));
            }
        }
    }
}

/// Scheduler exclusivity: in a coherent scheduling state, no two live
/// tasks are both running.
pub proof fn lemma_one_running(p: Processor, m: TaskManager)
    requires
        sched_ok(p, m),
    ensures
        forall|i: int, j: int|
            0 <= i < live_tasks(p, m).len() && 0 <= j < live_tasks(p, m).len() && i != j ==> !(
            #[trigger] live_tasks(p, m)[i].status == TaskStatus::Running
                && #[trigger] live_tasks(p, m)[j].status == TaskStatus::Running),
{
    let live = live_tasks(p, m);
    let n = m.queue().len() as int;
    assert forall|i: int, j: int|
        0 <= i < live.len() && 0 <= j < live.len() && i != j implies !(
        #[trigger] live[i].status == TaskStatus::Running && #[trigger] live[j].status
            == TaskStatus::Running) by {
        if i < n {
            assert(live[i] == m.queue()[i]);
        } else {
            assert(live[j] == m.queue()[j]);
        }
    }
}

} // verus!
