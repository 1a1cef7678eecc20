use os::config::{DEFAULT_PRIORITY, MAX_SYSCALL_NUM, PAGE_SIZE};
use os::frame::FrameAllocator;
use os::mm::{MapError, MapPermission, VirtualMemorySet, PERM_R, PERM_U, PERM_W, PERM_X};
use os::processor::{Processor, TaskManager};
use os::syscall::{
    sys_exit, sys_get_time, sys_mmap, sys_munmap, sys_sbrk, sys_task_info, sys_yield, time_val_of,
    MICROS_PER_SEC, TASK_INFO_SIZE, TIME_VAL_SIZE,
};
use os::task::{TaskContext, TaskControlBlock, TaskStatus};

const HEAP_BOTTOM: u64 = 0x40_0000;

fn task(pid: usize) -> TaskControlBlock {
    TaskControlBlock::new(pid, VirtualMemorySet::new(), TaskContext::zero_init(), HEAP_BOTTOM)
}

fn frames() -> FrameAllocator {
    FrameAllocator::new(0x80000, 0x80100)
}

fn running(pid: usize) -> (Processor, TaskManager) {
    let mut p = Processor::new();
    let mut m = TaskManager::new();
    m.add_task(task(pid));
    assert!(p.dispatch(&mut m, 0).is_some());
    (p, m)
}

fn area_count(p: &Processor) -> usize {
    p.current().unwrap().memory_set.area_count()
}

#[test]
fn mmap_overlap_munmap_scenario() {
    let mut f = frames();
    let (mut p, _m) = running(1);
    assert_eq!(sys_mmap(&mut p, &mut f, 0x10000, 0x2000, 3), 0);
    assert_eq!(area_count(&p), 1);
    let a = p.current().unwrap().memory_set.area(0);
    assert_eq!(a.start_vpn(), 0x10);
    assert_eq!(a.end_vpn(), 0x12);
    assert_eq!(a.page_count(), 2);
    assert_eq!(a.perm().bits(), PERM_R | PERM_W | PERM_U);
    assert_eq!(sys_mmap(&mut p, &mut f, 0x11000, 0x1000, 3), -1);
    assert_eq!(area_count(&p), 1);
    assert_eq!(sys_munmap(&mut p, &mut f, 0x10000, 0x2000), 0);
    assert_eq!(area_count(&p), 0);
}

#[test]
fn mmap_rejects_misaligned_start() {
    let mut f = frames();
    let (mut p, _m) = running(1);
    assert_eq!(sys_mmap(&mut p, &mut f, 0x10001, 0x1000, 3), -1);
    assert_eq!(sys_mmap(&mut p, &mut f, 0x10800, 0x1000, 1), -1);
    assert_eq!(area_count(&p), 0);
}

#[test]
fn mmap_rejects_illegal_port() {
    let mut f = frames();
    let (mut p, _m) = running(1);
    assert_eq!(sys_mmap(&mut p, &mut f, 0x10000, 0x1000, 0), -1);
    assert_eq!(sys_mmap(&mut p, &mut f, 0x10000, 0x1000, 8), -1);
    assert_eq!(sys_mmap(&mut p, &mut f, 0x10000, 0x1000, 0xf), -1);
    assert_eq!(area_count(&p), 0);
    assert_eq!(sys_mmap(&mut p, &mut f, 0x10000, 0x1000, 7), 0);
}

#[test]
fn mmap_rejects_empty_and_out_of_space_ranges() {
    let mut f = frames();
    let (mut p, _m) = running(1);
    assert_eq!(sys_mmap(&mut p, &mut f, 0x10000, 0, 3), -1);
    assert_eq!(sys_mmap(&mut p, &mut f, 0x80_0000_0000, 0x1000, 3), -1);
    assert_eq!(area_count(&p), 0);
}

#[test]
fn mmap_rounds_length_up_to_pages() {
    let mut f = frames();
    let (mut p, _m) = running(1);
    assert_eq!(sys_mmap(&mut p, &mut f, 0x20000, 0x1001, 1), 0);
    let a = p.current().unwrap().memory_set.area(0);
    assert_eq!(a.end_vpn() - a.start_vpn(), 2);
    assert_eq!(a.perm(), MapPermission { bits: PERM_R | PERM_U });
}

#[test]
fn port_maps_to_flag_bits() {
    assert_eq!(MapPermission::from_port(1).bits(), PERM_R | PERM_U);
    assert_eq!(MapPermission::from_port(2).bits(), PERM_W | PERM_U);
    assert_eq!(MapPermission::from_port(4).bits(), PERM_X | PERM_U);
    assert_eq!(MapPermission::from_port(7).bits(), PERM_R | PERM_W | PERM_X | PERM_U);
}

#[test]
fn munmap_errors() {
    let mut f = frames();
    let (mut p, _m) = running(1);
    assert_eq!(sys_munmap(&mut p, &mut f, 0x10000, 0x1000), -1);
    assert_eq!(sys_mmap(&mut p, &mut f, 0x10000, 0x2000, 3), 0);
    assert_eq!(sys_munmap(&mut p, &mut f, 0x10800, 0x1000), -1);
    assert_eq!(sys_munmap(&mut p, &mut f, 0x10000, 0), -1);
    assert_eq!(sys_munmap(&mut p, &mut f, 0x11000, 0x2000), -1);
    assert_eq!(area_count(&p), 1);
    let ms = &p.current().unwrap().memory_set;
    assert!(ms.translate(0x10000).is_some());
    assert!(ms.translate(0x11000).is_some());
}

#[test]
fn munmap_front_of_region() {
    let mut f = frames();
    let (mut p, _m) = running(1);
    assert_eq!(sys_mmap(&mut p, &mut f, 0x10000, 0x2000, 3), 0);
    let keep = p.current().unwrap().memory_set.translate(0x11008);
    assert_eq!(sys_munmap(&mut p, &mut f, 0x10000, 0x1000), 0);
    let ms = &p.current().unwrap().memory_set;
    assert_eq!(ms.area_count(), 1);
    assert_eq!((ms.area(0).start_vpn(), ms.area(0).end_vpn()), (0x11, 0x12));
    assert_eq!(ms.translate(0x10000), None);
    assert_eq!(ms.translate(0x11008), keep);
}

#[test]
fn munmap_back_of_region() {
    let mut f = frames();
    let (mut p, _m) = running(1);
    assert_eq!(sys_mmap(&mut p, &mut f, 0x10000, 0x3000, 3), 0);
    assert_eq!(sys_munmap(&mut p, &mut f, 0x12000, 0x1000), 0);
    let ms = &p.current().unwrap().memory_set;
    assert_eq!(ms.area_count(), 1);
    assert_eq!((ms.area(0).start_vpn(), ms.area(0).end_vpn()), (0x10, 0x12));
    assert_eq!(ms.translate(0x12000), None);
}

#[test]
fn munmap_middle_splits_region() {
    let mut f = FrameAllocator::new(0, 3);
    let (mut p, _m) = running(1);
    assert_eq!(sys_mmap(&mut p, &mut f, 0x10000, 0x3000, 3), 0);
    let low = p.current().unwrap().memory_set.translate(0x10000);
    let high = p.current().unwrap().memory_set.translate(0x12000);
    assert_eq!(sys_munmap(&mut p, &mut f, 0x11000, 0x1000), 0);
    let ms = &p.current().unwrap().memory_set;
    assert_eq!(ms.area_count(), 2);
    assert_eq!(ms.translate(0x11000), None);
    assert_eq!(ms.translate(0x10000), low);
    assert_eq!(ms.translate(0x12000), high);
    assert_eq!(f.alloc_frame(), Some(1));
    assert_eq!(f.alloc_frame(), None);
}

#[test]
fn munmap_across_regions() {
    let mut f = frames();
    let (mut p, _m) = running(1);
    assert_eq!(sys_mmap(&mut p, &mut f, 0x10000, 0x2000, 3), 0);
    assert_eq!(sys_mmap(&mut p, &mut f, 0x12000, 0x2000, 1), 0);
    assert_eq!(sys_munmap(&mut p, &mut f, 0x11000, 0x2000), 0);
    let ms = &p.current().unwrap().memory_set;
    assert_eq!(ms.area_count(), 2);
    assert!(ms.translate(0x10000).is_some());
    assert_eq!(ms.translate(0x11000), None);
    assert_eq!(ms.translate(0x12000), None);
    assert!(ms.translate(0x13000).is_some());
}

#[test]
fn munmap_with_hole_changes_nothing() {
    let mut f = frames();
    let (mut p, _m) = running(1);
    assert_eq!(sys_mmap(&mut p, &mut f, 0x10000, 0x1000, 3), 0);
    assert_eq!(sys_mmap(&mut p, &mut f, 0x12000, 0x1000, 3), 0);
    assert_eq!(sys_munmap(&mut p, &mut f, 0x10000, 0x3000), -1);
    let ms = &p.current().unwrap().memory_set;
    assert_eq!(ms.area_count(), 2);
    assert!(ms.translate(0x10000).is_some());
}

#[test]
fn get_time_needs_writable_page() {
    let mut f = frames();
    let (mut p, _m) = running(1);
    assert_eq!(sys_mmap(&mut p, &mut f, 0x10000, 0x1000, 1), 0);
    assert_eq!(sys_get_time(&p, 0x10000, 5).0, -1);
    assert_eq!(sys_mmap(&mut p, &mut f, 0x20000, 0x1000, 2), 0);
    assert_eq!(sys_get_time(&p, 0x20000, 5).0, 0);
}

#[test]
fn add_mapping_errors() {
    let mut f = FrameAllocator::new(10, 12);
    let mut ms = VirtualMemorySet::new();
    let perm = MapPermission::from_port(3);
    assert_eq!(ms.add_mapping(&mut f, 0x1001, 0x3000, perm), Err(MapError::InvalidRange));
    assert_eq!(ms.add_mapping(&mut f, 0x1000, 0x1000, perm), Err(MapError::InvalidRange));
    assert_eq!(ms.add_mapping(&mut f, 0x1000, 0x4000, perm), Err(MapError::OutOfFrames));
    assert_eq!(ms.area_count(), 0);
    assert_eq!(ms.add_mapping(&mut f, 0x1000, 0x3000, perm), Ok(()));
    assert_eq!(ms.add_mapping(&mut f, 0x2000, 0x3000, perm), Err(MapError::Overlap));
    assert_eq!(ms.remove_mapping(&mut f, 0x5000, 0x6000), Err(MapError::NotMapped));
    assert_eq!(ms.remove_mapping(&mut f, 0x2000, 0x4000), Err(MapError::NotMapped));
    assert_eq!(ms.remove_mapping(&mut f, 0x5001, 0x6000), Err(MapError::InvalidRange));
}

#[test]
fn out_of_frames_gives_frames_back() {
    let mut f = FrameAllocator::new(100, 103);
    let (mut p, _m) = running(1);
    assert_eq!(sys_mmap(&mut p, &mut f, 0x10000, 0x4000, 3), -1);
    assert_eq!(area_count(&p), 0);
    assert_eq!(sys_mmap(&mut p, &mut f, 0x10000, 0x3000, 3), 0);
    assert_eq!(f.alloc_frame(), None);
}

#[test]
fn frame_allocator_reuses_returned_frames() {
    let mut f = FrameAllocator::new(5, 7);
    let a = f.alloc_frame().unwrap();
    let b = f.alloc_frame().unwrap();
    assert_eq!((a, b), (5, 6));
    assert_eq!(f.alloc_frame(), None);
    f.dealloc_frame(a);
    assert_eq!(f.alloc_frame(), Some(5));
}

#[test]
fn translate_keeps_offset() {
    let mut f = FrameAllocator::new(0x200, 0x210);
    let mut ms = VirtualMemorySet::new();
    ms.add_mapping(&mut f, 0x3000, 0x5000, MapPermission::from_port(3)).unwrap();
    assert_eq!(ms.translate(0x3123), Some(0x200 * PAGE_SIZE + 0x123));
    assert_eq!(ms.translate(0x4ff0), Some(0x201 * PAGE_SIZE + 0xff0));
    assert_eq!(ms.translate(0x5000), None);
    assert_eq!(ms.translate(0x2fff), None);
}

#[test]
fn user_buffer_straddling_pages_is_split() {
    let mut f = FrameAllocator::new(0x300, 0x310);
    let mut ms = VirtualMemorySet::new();
    ms.add_mapping(&mut f, 0x3000, 0x5000, MapPermission::from_port(3)).unwrap();
    let segs = ms.user_segments(0x3ff8, 16).unwrap();
    assert_eq!(segs.len(), 2);
    assert_eq!((segs[0].va, segs[0].pa, segs[0].len), (0x3ff8, 0x300 * PAGE_SIZE + 0xff8, 8));
    assert_eq!((segs[1].va, segs[1].pa, segs[1].len), (0x4000, 0x301 * PAGE_SIZE, 8));
    assert_eq!(ms.user_segments(0x4ff8, 16), None);
    assert_eq!(ms.user_segments(0x9000, 0).map(|s| s.len()), Some(0));
}

#[test]
fn isolation_between_tasks() {
    let mut f = frames();
    let mut a = VirtualMemorySet::new();
    let mut b = VirtualMemorySet::new();
    a.add_mapping(&mut f, 0x10000, 0x12000, MapPermission::from_port(3)).unwrap();
    b.add_mapping(&mut f, 0x10000, 0x12000, MapPermission::from_port(3)).unwrap();
    for va in [0x10000u64, 0x10fff, 0x11000, 0x11abc] {
        let pa = a.translate(va).unwrap();
        let pb = b.translate(va).unwrap();
        assert_ne!(pa / PAGE_SIZE, pb / PAGE_SIZE);
    }
}

#[test]
fn map_then_unmap_round_trip() {
    let mut f = frames();
    let mut ms = VirtualMemorySet::new();
    ms.add_mapping(&mut f, 0x1000, 0x2000, MapPermission::from_port(1)).unwrap();
    let before = ms.translate(0x1010);
    ms.add_mapping(&mut f, 0x8000, 0xa000, MapPermission::from_port(3)).unwrap();
    ms.remove_mapping(&mut f, 0x8000, 0xa000).unwrap();
    assert_eq!(ms.area_count(), 1);
    assert_eq!(ms.translate(0x1010), before);
    assert_eq!(ms.translate(0x8000), None);
}

#[test]
fn get_time_writes_split_time() {
    let mut f = frames();
    let (mut p, _m) = running(1);
    assert_eq!(sys_mmap(&mut p, &mut f, 0x10000, 0x1000, 3), 0);
    let (r, w) = sys_get_time(&p, 0x10010, 3_000_123);
    assert_eq!(r, 0);
    let w = w.unwrap();
    assert_eq!((w.value.sec, w.value.usec), (3, 123));
    assert_eq!(w.dest.len(), 1);
    assert_eq!(w.dest[0].len, TIME_VAL_SIZE);
    assert_eq!(w.dest[0].pa % PAGE_SIZE, 0x10);
}

#[test]
fn get_time_twice_differs_by_elapsed() {
    let mut f = frames();
    let (mut p, _m) = running(1);
    assert_eq!(sys_mmap(&mut p, &mut f, 0x10000, 0x1000, 3), 0);
    let t1 = sys_get_time(&p, 0x10000, 1_999_500).1.unwrap().value;
    let t2 = sys_get_time(&p, 0x10000, 2_000_500).1.unwrap().value;
    let us = |t: os::syscall::TimeVal| t.sec * MICROS_PER_SEC + t.usec;
    assert_eq!(us(t2) - us(t1), 1000);
    assert_eq!((t1.sec, t2.sec), (1, 2));
}

#[test]
fn get_time_unmapped_pointer_fails() {
    let (p, _m) = running(1);
    let (r, w) = sys_get_time(&p, 0x10000, 5);
    assert_eq!(r, -1);
    assert!(w.is_none());
    assert_eq!(sys_get_time(&Processor::new(), 0x10000, 5).0, -1);
}

#[test]
fn time_val_splits_microseconds() {
    let t = time_val_of(12_345_678);
    assert_eq!((t.sec, t.usec), (12, 345_678));
    let z = time_val_of(999_999);
    assert_eq!((z.sec, z.usec), (0, 999_999));
}

#[test]
fn task_info_reports_counts_and_time() {
    let mut f = frames();
    let mut p = Processor::new();
    let mut m = TaskManager::new();
    m.add_task(task(1));
    p.dispatch(&mut m, 100).unwrap();
    assert_eq!(sys_mmap(&mut p, &mut f, 0x10000, 0x2000, 3), 0);
    p.set_syscall_times(64);
    p.set_syscall_times(64);
    p.set_syscall_times(169);
    let (r, w) = sys_task_info(&p, 0x10800, 350);
    assert_eq!(r, 0);
    let w = w.unwrap();
    assert_eq!(w.value.status, TaskStatus::Running);
    assert_eq!(w.value.syscall_times.len(), MAX_SYSCALL_NUM);
    assert_eq!(w.value.syscall_times[64], 2);
    assert_eq!(w.value.syscall_times[169], 1);
    assert_eq!(w.value.syscall_times[0], 0);
    assert_eq!(w.value.time, 250);
    let total: u64 = w.dest.iter().map(|s| s.len).sum();
    assert_eq!(total, TASK_INFO_SIZE);
    assert_eq!(w.dest.len(), 1);
    assert_eq!(sys_task_info(&p, 0x11ff0, 350).0, -1);
}

#[test]
fn syscall_counts_grow_by_one() {
    let (mut p, _m) = running(1);
    for n in 1..=5u32 {
        p.set_syscall_times(93);
        assert_eq!(p.current().unwrap().syscall_count(93), n);
    }
    p.set_syscall_times(MAX_SYSCALL_NUM);
    assert_eq!(p.current().unwrap().syscall_count(MAX_SYSCALL_NUM - 1), 0);
}

#[test]
fn set_priority_checks_minimum() {
    let (mut p, _m) = running(1);
    assert_eq!(p.task_set_priority(1), -1);
    assert_eq!(p.current().unwrap().priority(), DEFAULT_PRIORITY);
    assert_eq!(p.task_set_priority(5), 5);
    assert_eq!(p.current().unwrap().priority(), 5);
    assert_eq!(Processor::new().task_set_priority(5), -1);
}

#[test]
fn at_most_one_task_runs() {
    let mut f = frames();
    let mut p = Processor::new();
    let mut m = TaskManager::new();
    m.add_task(task(1));
    m.add_task(task(2));
    assert!(p.dispatch(&mut m, 0).is_some());
    assert_eq!(p.current().unwrap().pid, 1);
    assert_eq!(p.current().unwrap().status(), TaskStatus::Running);
    assert_eq!(m.len(), 1);
    assert_eq!(sys_yield(&mut p, &mut m, TaskContext::zero_init()), 0);
    assert!(p.current().is_none());
    assert_eq!(m.len(), 2);
    assert!(p.dispatch(&mut m, 10).is_some());
    assert_eq!(p.current().unwrap().pid, 2);
    let done = sys_exit(&mut p, &mut f, 0).unwrap();
    assert_eq!(done.status(), TaskStatus::Exited);
    assert!(p.current().is_none());
    let mut q = TaskManager::new();
    assert!(p.dispatch(&mut q, 20).is_none());
}

#[test]
fn exit_returns_frames() {
    let mut f = FrameAllocator::new(0, 4);
    let (mut p, _m) = running(1);
    assert_eq!(sys_mmap(&mut p, &mut f, 0x10000, 0x2000, 3), 0);
    assert_eq!(sys_mmap(&mut p, &mut f, 0x20000, 0x2000, 3), 0);
    assert_eq!(f.alloc_frame(), None);
    let t = sys_exit(&mut p, &mut f, 7).unwrap();
    assert_eq!(t.memory_set.area_count(), 0);
    for _ in 0..4 {
        assert!(f.alloc_frame().is_some());
    }
}

#[test]
fn sbrk_grows_and_shrinks_heap() {
    let mut f = frames();
    let (mut p, _m) = running(1);
    assert_eq!(sys_sbrk(&mut p, &mut f, -1), -1);
    assert_eq!(sys_sbrk(&mut p, &mut f, 100), HEAP_BOTTOM as isize);
    assert_eq!(area_count(&p), 1);
    assert_eq!(sys_sbrk(&mut p, &mut f, 0x2000), HEAP_BOTTOM as isize + 100);
    let a = p.current().unwrap().memory_set.area(0);
    assert_eq!((a.start_vpn(), a.end_vpn()), (HEAP_BOTTOM / PAGE_SIZE, HEAP_BOTTOM / PAGE_SIZE + 3));
    assert_eq!(sys_sbrk(&mut p, &mut f, -0x1000), HEAP_BOTTOM as isize + 0x2064);
    let a = p.current().unwrap().memory_set.area(0);
    assert_eq!(a.end_vpn(), HEAP_BOTTOM / PAGE_SIZE + 2);
    assert_eq!(sys_sbrk(&mut p, &mut f, -0x1064), HEAP_BOTTOM as isize + 0x1064);
    assert_eq!(area_count(&p), 0);
    assert_eq!(p.current().unwrap().program_brk, HEAP_BOTTOM);
}

#[test]
fn sbrk_fails_on_collision_and_without_task() {
    let mut f = frames();
    let (mut p, _m) = running(1);
    assert_eq!(sys_mmap(&mut p, &mut f, (HEAP_BOTTOM + 0x1000) as usize, 0x1000, 3), 0);
    assert_eq!(sys_sbrk(&mut p, &mut f, 0x10), HEAP_BOTTOM as isize);
    assert_eq!(sys_sbrk(&mut p, &mut f, 0x1000), -1);
    assert_eq!(p.current().unwrap().program_brk, HEAP_BOTTOM + 0x10);
    let mut idle = Processor::new();
    assert_eq!(sys_sbrk(&mut idle, &mut f, 0x10), -1);
}
