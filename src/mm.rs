//! Per-task virtual memory: mapped regions, their backing frames, and
//! translation of user virtual addresses to physical addresses.
use vstd::prelude::*;
use crate::config::{PAGE_SIZE, PPN_LIMIT, VA_LIMIT, VPN_LIMIT};
use crate::frame::FrameAllocator;

verus! {

/// Access rights of a mapping, as page-table flag bits.
#[derive(Clone, Copy, Debug, PartialEq, Eq, Structural)]
pub struct MapPermission {
    pub bits: u8,
}

/// Readable.
pub const PERM_R: u8 = 2;
/// Writable.
pub const PERM_W: u8 = 4;
/// Executable.
pub const PERM_X: u8 = 8;
/// Reachable from user mode.
pub const PERM_U: u8 = 16;

/// The flag bits for a legal `mmap` protection value: bit 0 read, bit 1
/// write, bit 2 execute, always with user access.
pub open spec fn port_bits(port: u64) -> u8
    recommends
        1 <= port <= 7,
{
    (port * 2 + PERM_U) as u8
}

impl MapPermission {
    /// The user-mode permission described by an `mmap` protection value.
    pub fn from_port(port: u64) -> (r: MapPermission)
        requires
            1 <= port <= 7,
        ensures
            r.bits == port_bits(port),
    {
        MapPermission { bits: (port as u8) * 2 + PERM_U }
    }

    pub fn bits(&self) -> (r: u8)
        ensures
            r == self.bits,
    {
        self.bits
    }
}

/// Why a change to a memory set was refused.
#[derive(Clone, Copy, Debug, PartialEq, Eq, Structural)]
pub enum MapError {
    /// The start is not page-aligned, the range is empty, or it leaves the
    /// user address space.
    InvalidRange,
    /// The range meets a region that is already mapped.
    Overlap,
    /// No mapping covers exactly this range.
    NotMapped,
    /// The frame allocator ran out of frames.
    OutOfFrames,
}

/// A contiguous run of virtual pages `[start_vpn, end_vpn)` with one
/// permission, backed by one frame per page (`frames[k]` backs page
/// `start_vpn + k`).
pub struct MapArea {
    pub start_vpn: u64,
    pub end_vpn: u64,
    pub perm: MapPermission,
    pub frames: Vec<u64>,
}

impl MapArea {
    pub fn start_vpn(&self) -> (r: u64)
        ensures
            r == self.start_vpn,
    {
        self.start_vpn
    }

    pub fn end_vpn(&self) -> (r: u64)
        ensures
            r == self.end_vpn,
    {
        self.end_vpn
    }

    pub fn perm(&self) -> (r: MapPermission)
        ensures
            r == self.perm,
    {
        self.perm
    }

    /// Number of pages in the region.
    pub fn page_count(&self) -> (r: u64)
        requires
            self.start_vpn <= self.end_vpn,
        ensures
            r == self.end_vpn - self.start_vpn,
    {
        self.end_vpn - self.start_vpn
    }
}

/// Page number holding a virtual address.
pub open spec fn vpn_floor(va: u64) -> u64 {
    (va / PAGE_SIZE) as u64
}

/// First page number at or after a virtual address.
pub open spec fn vpn_ceil(va: u64) -> u64 {
    ((va + PAGE_SIZE - 1) / PAGE_SIZE as int) as u64
}

/// A range of virtual addresses that a mapping may cover.
pub open spec fn valid_range(start_va: u64, end_va: u64) -> bool {
    &&& start_va % PAGE_SIZE == 0
    &&& start_va < end_va
    &&& end_va <= VA_LIMIT
}

pub open spec fn area_ok(a: MapArea) -> bool {
    &&& a.start_vpn < a.end_vpn <= VPN_LIMIT
    &&& a.frames@.len() == a.end_vpn - a.start_vpn
    &&& forall|k: int| 0 <= k < a.frames@.len() ==> #[trigger] a.frames@[k] < PPN_LIMIT
}

/// The permission lets user code write, so the kernel may write there on
/// its behalf.
pub open spec fn user_writable(perm: MapPermission) -> bool {
    perm.bits & PERM_W != 0 && perm.bits & PERM_U != 0
}

/// The page range `[s, e)` meets the region.
pub open spec fn meets(a: MapArea, s: u64, e: u64) -> bool {
    a.start_vpn < e && s < a.end_vpn
}

pub open spec fn holds_page(a: MapArea, vpn: u64) -> bool {
    a.start_vpn <= vpn < a.end_vpn
}

/// No frame backs two pages of the regions.
pub open spec fn frames_distinct(areas: Seq<MapArea>) -> bool {
    forall|i: int, k: int, j: int, l: int|
        0 <= i < areas.len() && 0 <= j < areas.len() && 0 <= k < areas[i].frames@.len()
            && 0 <= l < areas[j].frames@.len() && (i != j || k != l)
            ==> #[trigger] areas[i].frames@[k] != #[trigger] areas[j].frames@[l]
}

/// Regions that are each well formed, pairwise disjoint in their pages,
/// and backed by distinct frames.
pub open spec fn areas_wf(areas: Seq<MapArea>) -> bool {
    &&& forall|i: int| 0 <= i < areas.len() ==> area_ok(#[trigger] areas[i])
    &&& forall|i: int, j: int|
        0 <= i < areas.len() && 0 <= j < areas.len() && i != j
            ==> !meets(#[trigger] areas[i], areas[j].start_vpn, #[trigger] areas[j].end_vpn)
    &&& frames_distinct(areas)
}

/// No frame backs a page of both `a` and `b`.
pub open spec fn frames_apart(a: VirtualMemorySet, b: VirtualMemorySet) -> bool {
    forall|i: int, k: int, j: int, l: int|
        0 <= i < a.areas().len() && 0 <= k < a.areas()[i].frames@.len() && 0 <= j < b.areas().len()
            && 0 <= l < b.areas()[j].frames@.len() ==> #[trigger] a.areas()[i].frames@[k]
            != #[trigger] b.areas()[j].frames@[l]
}

/// `ms1` and `f1` are `ms0` and `f0` after `[start_va, end_va)` was
/// mapped with `perm`: one new region at the end, meeting none before it,
/// backed by frames that were free.
pub open spec fn mapping_added(
    ms0: VirtualMemorySet,
    ms1: VirtualMemorySet,
    f0: FrameAllocator,
    f1: FrameAllocator,
    start_va: u64,
    end_va: u64,
    perm: MapPermission,
) -> bool {
    let a = ms1.areas().last();
    &&& ms1.areas() == ms0.areas().push(a)
    &&& a.start_vpn == vpn_floor(start_va)
    &&& a.end_vpn == vpn_ceil(end_va)
    &&& a.perm == perm
    &&& a.start_vpn < a.end_vpn
    &&& forall|i: int| 0 <= i < ms0.areas().len() ==> !meets(#[trigger] ms0.areas()[i], a.start_vpn, a.end_vpn)
    &&& forall|k: int| 0 <= k < a.frames@.len() ==> !f0.allocated().contains(#[trigger] a.frames@[k])
    &&& f1.allocated() == f0.allocated().union(a.frames@.to_set())
    &&& f1.available() == f0.available() - a.frames@.len()
}

/// `ms1` and `f1` are `ms0` and `f0` after the region covering exactly
/// `[start_va, end_va)` was unmapped and its frames given back.
pub open spec fn mapping_removed(
    ms0: VirtualMemorySet,
    ms1: VirtualMemorySet,
    f0: FrameAllocator,
    f1: FrameAllocator,
    start_va: u64,
    end_va: u64,
) -> bool {
    exists|i: int|
        0 <= i < ms0.areas().len() && #[trigger] ms0.areas()[i].start_vpn == vpn_floor(start_va)
            && ms0.areas()[i].end_vpn == vpn_ceil(end_va) && ms1.areas() == ms0.areas().remove(i)
            && f1.allocated() == f0.allocated().difference(ms0.areas()[i].frames@.to_set())
            && f1.available() == f0.available() + ms0.areas()[i].frames@.len()
}

/// Page `vpn` of `ms` is backed by frame `f` with permission `perm`.
pub open spec fn page_entry(ms: VirtualMemorySet, vpn: u64, f: u64, perm: MapPermission) -> bool {
    exists|i: int|
        0 <= i < ms.areas().len() && #[trigger] holds_page(ms.areas()[i], vpn) && ms.areas()[i].frames@[vpn
            - ms.areas()[i].start_vpn] == f && ms.areas()[i].perm == perm
}

/// `ms1` is `ms0` with the pages `[lo, hi)` unmapped: every other page keeps
/// its frame and permission, and no page of `[lo, hi)` is mapped.
pub open spec fn pages_cut(ms0: VirtualMemorySet, ms1: VirtualMemorySet, lo: u64, hi: u64) -> bool {
    &&& forall|v: u64, f: u64, p: MapPermission|
        #![trigger page_entry(ms1, v, f, p)]
        #![trigger page_entry(ms0, v, f, p)]
        !(lo <= v < hi) ==> (page_entry(ms1, v, f, p) <==> page_entry(ms0, v, f, p))
    &&& forall|v: u64| lo <= v < hi ==> !#[trigger] ms1.maps_page(v)
}

/// The frames that back the pages `[lo, hi)` of `ms`.
pub open spec fn frames_in(ms: VirtualMemorySet, lo: u64, hi: u64) -> Set<u64> {
    Set::new(|f: u64| exists|v: u64, p: MapPermission| lo <= v < hi && #[trigger] page_entry(ms, v, f, p))
}

/// Every page of `[lo, hi)` is mapped in `ms`.
pub open spec fn maps_range(ms: VirtualMemorySet, lo: u64, hi: u64) -> bool {
    forall|v: u64| lo <= v < hi ==> #[trigger] ms.maps_page(v)
}

/// Some region of `ms` starts at page `s`.
pub open spec fn has_region_at(ms: VirtualMemorySet, s: u64) -> bool {
    exists|i: int| 0 <= i < ms.areas().len() && #[trigger] ms.areas()[i].start_vpn == s
}

/// The position of the region of `ms` that starts at page `s`.
pub open spec fn region_at(ms: VirtualMemorySet, s: u64) -> int {
    choose|i: int| 0 <= i < ms.areas().len() && #[trigger] ms.areas()[i].start_vpn == s
}

/// The per-task set of mapped regions.
pub struct VirtualMemorySet {
    areas: Vec<MapArea>,
}

/// A piece of a user buffer that lies inside one page: `len` bytes at user
/// address `va`, found at physical address `pa`.
#[derive(Clone, Copy, Debug, PartialEq, Eq, Structural)]
pub struct PhysSegment {
    pub va: u64,
    pub pa: u64,
    pub len: u64,
}

impl VirtualMemorySet {
    /// The regions, in the order they were mapped.
    pub closed spec fn areas(&self) -> Seq<MapArea> {
        self.areas@
    }

    pub open spec fn wf(&self) -> bool {
        areas_wf(self.areas())
    }

    /// Some page of the set is backed by frame `f`.
    pub open spec fn holds_frame(&self, f: u64) -> bool {
        exists|i: int, k: int|
            0 <= i < self.areas().len() && 0 <= k < self.areas()[i].frames@.len()
                && #[trigger] self.areas()[i].frames@[k] == f
    }

    /// Every frame backing a page of the set lies in `s`.
    pub open spec fn frames_within(&self, s: Set<u64>) -> bool {
        forall|i: int, k: int|
            0 <= i < self.areas().len() && 0 <= k < self.areas()[i].frames@.len()
                ==> s.contains(#[trigger] self.areas()[i].frames@[k])
    }

    /// Page `vpn` is mapped.
    pub open spec fn maps_page(&self, vpn: u64) -> bool {
        exists|i: int| 0 <= i < self.areas().len() && holds_page(#[trigger] self.areas()[i], vpn)
    }

    /// The set maps `va` to physical address `pa`.
    pub open spec fn translates_to(&self, va: u64, pa: u64) -> bool {
        exists|i: int|
            0 <= i < self.areas().len() && #[trigger] holds_page(self.areas()[i], vpn_floor(va))
                && pa == self.areas()[i].frames@[vpn_floor(va) - self.areas()[i].start_vpn]
                * PAGE_SIZE + va % PAGE_SIZE
    }

    /// The set with no regions.
    pub fn new() -> (r: Self)
        ensures
            r.wf(),
            r.areas() == Seq::<MapArea>::empty(),
    {
        VirtualMemorySet { areas: Vec::new() }
    }

    /// Number of regions.
    pub fn area_count(&self) -> (r: usize)
        ensures
            r == self.areas().len(),
    {
        self.areas.len()
    }

    /// The region at position `i`.
    pub fn area(&self, i: usize) -> (r: &MapArea)
        requires
            i < self.areas().len(),
        ensures
            *r == self.areas()[i as int],
    {
        &self.areas[i]
    }

    /// Whether some region meets the page range `[s, e)`.
    fn overlaps(&self, s: u64, e: u64) -> (r: bool)
        ensures
            r == exists|i: int| 0 <= i < self.areas().len() && meets(#[trigger] self.areas()[i], s, e),
    {
        let mut i: usize = 0;
        while i < self.areas.len()
            invariant
                i <= self.areas@.len(),
                forall|j: int| 0 <= j < i ==> !meets(#[trigger] self.areas@[j], s, e),
            decreases self.areas@.len() - i,
        {
            let a = &self.areas[i];
            if a.start_vpn < e && s < a.end_vpn {
                assert(meets(self.areas()[i as int], s, e));
                return true;
            }
            i = i + 1;
        }
        false
    }

    /// Maps the pages `[floor(start_va), ceil(end_va))` with `perm`, each
    /// backed by a fresh frame, as a new region at the end of the set.
    /// Nothing changes when it fails.
    pub fn add_mapping(
        &mut self,
        frames: &mut FrameAllocator,
        start_va: u64,
        end_va: u64,
        perm: MapPermission,
    ) -> (r: Result<(), MapError>)
        requires
            old(self).wf(),
            old(frames).wf(),
            old(self).frames_within(old(frames).allocated()),
        ensures
            final(self).wf(),
            final(frames).wf(),
            final(self).frames_within(final(frames).allocated()),
            forall|b: VirtualMemorySet|
                b.frames_within(old(frames).allocated()) && #[trigger] frames_apart(*old(self), b)
                    ==> b.frames_within(final(frames).allocated()) && frames_apart(*final(self), b),
            r == Err::<(), MapError>(MapError::InvalidRange) <==> !valid_range(start_va, end_va),
            r == Err::<(), MapError>(MapError::Overlap) <==> valid_range(start_va, end_va)
                && exists|i: int|
                0 <= i < old(self).areas().len() && meets(
                    #[trigger] old(self).areas()[i],
                    vpn_floor(start_va),
                    vpn_ceil(end_va),
                ),
            r == Err::<(), MapError>(MapError::OutOfFrames) <==> valid_range(start_va, end_va)
                && !(exists|i: int|
                0 <= i < old(self).areas().len() && meets(
                    #[trigger] old(self).areas()[i],
                    vpn_floor(start_va),
                    vpn_ceil(end_va),
                )) && old(frames).available() < vpn_ceil(end_va) - vpn_floor(start_va),
            r != Err::<(), MapError>(MapError::NotMapped),
            r is Err ==> *final(self) == *old(self) && final(frames).allocated()
                == old(frames).allocated() && final(frames).available() == old(frames).available(),
            r is Ok ==> valid_range(start_va, end_va) && !(exists|i: int|
                0 <= i < old(self).areas().len() && meets(
                    #[trigger] old(self).areas()[i],
                    vpn_floor(start_va),
                    vpn_ceil(end_va),
                )) && old(frames).available() >= vpn_ceil(end_va) - vpn_floor(start_va),
            r is Ok ==> mapping_added(*old(self), *final(self), *old(frames), *final(frames), start_va, end_va, perm),
    {
        if !(start_va % PAGE_SIZE == 0 && start_va < end_va && end_va <= VA_LIMIT) {
            return Err(MapError::InvalidRange);
        }
        let s = start_va / PAGE_SIZE;
        let e = (end_va + (PAGE_SIZE - 1)) / PAGE_SIZE;
        assert(s < e <= VPN_LIMIT);
        if self.overlaps(s, e) {
            return Err(MapError::Overlap);
        }
        let ghost alloc0 = frames.allocated();
        let got = match Self::alloc_frames(frames, e - s) {
            Some(got) => got,
            None => {
                return Err(MapError::OutOfFrames);
            },
        };
        let area = MapArea { start_vpn: s, end_vpn: e, perm, frames: got };
        let ghost old_areas = self.areas@;
        self.areas.push(area);
        proof {
            let areas = self.areas@;
            assert(areas.last() == area);
            assert forall|i: int, k: int, j: int, l: int|
                0 <= i < areas.len() && 0 <= j < areas.len() && 0 <= k < areas[i].frames@.len()
                    && 0 <= l < areas[j].frames@.len() && (i != j || k != l)
                implies #[trigger] areas[i].frames@[k] != #[trigger] areas[j].frames@[l] by {
                let n = old_areas.len() as int;
                if i < n && j < n {
                    assert(areas[i] == old_areas[i] && areas[j] == old_areas[j]);
                } else if i < n {
                    assert(areas[i] == old_areas[i]);
                    assert(alloc0.contains(old_areas[i].frames@[k]));
                } else if j < n {
                    assert(areas[j] == old_areas[j]);
                    assert(alloc0.contains(old_areas[j].frames@[l]));
                } else {
                }
            }
            assert forall|i: int, j: int|
                0 <= i < areas.len() && 0 <= j < areas.len() && i != j
                implies !meets(#[trigger] areas[i], areas[j].start_vpn, #[trigger] areas[j].end_vpn) by {
                let n = old_areas.len() as int;
                if i < n && j < n {
                    assert(areas[i] == old_areas[i] && areas[j] == old_areas[j]);
                } else if i < n {
                    assert(areas[i] == old_areas[i]);
                    assert(!meets(old_areas[i], s, e));
                } else {
                    assert(areas[j] == old_areas[j]);
                    assert(!meets(old_areas[j], s, e));
                }
            }
            assert(forall|i: int| 0 <= i < old_areas.len() ==> areas[i] == old_areas[i]);
            assert forall|i: int, k: int|
                0 <= i < areas.len() && 0 <= k < areas[i].frames@.len()
                implies frames.allocated().contains(#[trigger] areas[i].frames@[k]) by {
                if i == old_areas.len() {
                    assert(areas[i] == area);
                    assert(got@.to_set().contains(got@[k]));
                } else {
                    assert(areas[i] == old_areas[i]);
                    assert(alloc0.contains(old_areas[i].frames@[k]));
                }
            }
            assert(areas =~= old_areas.push(area));
            assert forall|b: VirtualMemorySet|
                b.frames_within(old(frames).allocated()) && #[trigger] frames_apart(*old(self), b)
                implies b.frames_within(frames.allocated()) && frames_apart(*self, b) by {
                assert forall|i: int, k: int, j: int, l: int|
                    0 <= i < self.areas().len() && 0 <= k < self.areas()[i].frames@.len() && 0 <= j
                        < b.areas().len() && 0 <= l < b.areas()[j].frames@.len()
                    implies #[trigger] self.areas()[i].frames@[k] != #[trigger] b.areas()[j].frames@[l] by {
                    assert(alloc0.contains(b.areas()[j].frames@[l]));
                    if i < old_areas.len() {
                        assert(old(self).areas()[i] == self.areas()[i]);
                        assert(old_areas[i].frames@[k] != b.areas()[j].frames@[l]);
                    } else {
                        assert(self.areas()[i] == area);
                        assert(!alloc0.contains(got@[k]));
                    }
                }
            }
        }
        Ok(())
    }

    /// Unmaps the pages `[floor(start_va), ceil(end_va))`, which must all be
    /// mapped: regions inside the range go, regions that reach into it
    /// shrink or split, and the frames of those pages go back to the
    /// allocator. Nothing changes when it fails.
    pub fn remove_mapping(&mut self, frames: &mut FrameAllocator, start_va: u64, end_va: u64) -> (r:
        Result<(), MapError>)
        requires
            old(self).wf(),
            old(frames).wf(),
            old(self).frames_within(old(frames).allocated()),
        ensures
            final(self).wf(),
            final(frames).wf(),
            final(self).frames_within(final(frames).allocated()),
            forall|b: VirtualMemorySet|
                b.frames_within(old(frames).allocated()) && #[trigger] frames_apart(*old(self), b)
                    ==> b.frames_within(final(frames).allocated()) && frames_apart(*final(self), b),
            r == Err::<(), MapError>(MapError::InvalidRange) <==> !valid_range(start_va, end_va),
            r == Err::<(), MapError>(MapError::NotMapped) <==> valid_range(start_va, end_va) && !maps_range(
                *old(self),
                vpn_floor(start_va),
                vpn_ceil(end_va),
            ),
            r != Err::<(), MapError>(MapError::Overlap) && r != Err::<(), MapError>(MapError::OutOfFrames),
            r is Err ==> *final(self) == *old(self) && final(frames).allocated()
                == old(frames).allocated() && final(frames).available() == old(frames).available(),
            r is Ok ==> valid_range(start_va, end_va) && pages_cut(
                *old(self),
                *final(self),
                vpn_floor(start_va),
                vpn_ceil(end_va),
            ) && final(frames).allocated() == old(frames).allocated().difference(
                frames_in(*old(self), vpn_floor(start_va), vpn_ceil(end_va)),
            ),
            r is Ok && (exists|i: int|
                0 <= i < old(self).areas().len() && #[trigger] old(self).areas()[i].start_vpn
                    == vpn_floor(start_va) && old(self).areas()[i].end_vpn == vpn_ceil(end_va))
                ==> mapping_removed(*old(self), *final(self), *old(frames), *final(frames), start_va, end_va),
    {
        if !(start_va % PAGE_SIZE == 0 && start_va < end_va && end_va <= VA_LIMIT) {
            return Err(MapError::InvalidRange);
        }
        let s = start_va / PAGE_SIZE;
        let e = (end_va + (PAGE_SIZE - 1)) / PAGE_SIZE;
        let ghost ms0 = *self;
        let ghost alloc0 = frames.allocated();
        let mut v: u64 = s;
        while v < e
            invariant
                s <= v <= e,
                *self == ms0,
                ms0 == *old(self),
                ms0.wf(),
                *frames == *old(frames),
                frames.wf(),
                self.frames_within(frames.allocated()),
                valid_range(start_va, end_va),
                s == vpn_floor(start_va),
                e == vpn_ceil(end_va),
                forall|u: u64| s <= u < v ==> #[trigger] self.maps_page(u),
            decreases e - v,
        {
            if self.area_holding(v).is_none() {
                assert(!self.maps_page(v));
                return Err(MapError::NotMapped);
            }
            v = v + 1;
        }
        match self.remove_region(frames, start_va, end_va) {
            Ok(()) => {
                proof {
                    let i = choose|i: int|
                        0 <= i < ms0.areas().len() && #[trigger] ms0.areas()[i].start_vpn == vpn_floor(start_va)
                            && ms0.areas()[i].end_vpn == vpn_ceil(end_va) && self.areas() == ms0.areas().remove(i)
                            && frames.allocated() == alloc0.difference(ms0.areas()[i].frames@.to_set())
                            && frames.available() == old(frames).available() + ms0.areas()[i].frames@.len();
                    lemma_remove_area_pages(ms0, *self, i);
                }
                return Ok(());
            },
            Err(err) => {
                proof {
                    match err {
                        MapError::InvalidRange => {},
                        MapError::Overlap => {},
                        MapError::NotMapped => {},
                        MapError::OutOfFrames => {},
                    }
                }
            },
        }
        let mut v: u64 = s;
        while v < e
            invariant
                self.wf(),
                frames.wf(),
                self.frames_within(frames.allocated()),
                ms0.wf(),
                ms0 == *old(self),
                alloc0 == old(frames).allocated(),
                valid_range(start_va, end_va),
                s == vpn_floor(start_va),
                e == vpn_ceil(end_va),
                e <= VPN_LIMIT,
                s <= v <= e,
                pages_cut(ms0, *self, s, v),
                frames.allocated() == alloc0.difference(frames_in(ms0, s, v)),
                forall|u: u64| v <= u < e ==> #[trigger] self.maps_page(u),
                !(exists|i: int|
                    0 <= i < ms0.areas().len() && #[trigger] ms0.areas()[i].start_vpn == s
                        && ms0.areas()[i].end_vpn == e),
                forall|b: VirtualMemorySet|
                    b.frames_within(alloc0) && #[trigger] frames_apart(ms0, b) ==> b.frames_within(
                        frames.allocated(),
                    ) && frames_apart(*self, b),
            decreases e - v,
        {
            let ghost x = *self;
            let mut i = self.area_holding(v).unwrap();
            if self.areas[i].start_vpn < v {
                self.split_at(i, v);
                let n = self.areas.len();
                assert(i + 1 < n);
                i = i + 1;
            }
            let end_i = self.areas[i].end_vpn;
            let cut = if end_i < e { end_i } else { e };
            if cut < end_i {
                self.split_at(i, cut);
            }
            let ghost y = *self;
            let ghost alloc1 = frames.allocated();
            proof {
                assert(y.areas()[i as int].start_vpn == v && y.areas()[i as int].end_vpn == cut);
                assert(area_ok(y.areas()[i as int]));
                lemma_same_frames(x, y, alloc1);
                assert((v * 4096) % 4096 == 0 && (v * 4096) / 4096 == v) by (nonlinear_arith);
                assert((cut * 4096 + 4095) / 4096 == cut) by (nonlinear_arith);
                assert(v * 4096 < cut * 4096 <= VPN_LIMIT * 4096) by (nonlinear_arith)
                    requires v < cut <= VPN_LIMIT;
                assert(y.areas()[i as int].start_vpn == vpn_floor((v * 4096) as u64));
                assert(y.areas()[i as int].end_vpn == vpn_ceil((cut * 4096) as u64));
            }
            let r = self.remove_region(frames, v * PAGE_SIZE, cut * PAGE_SIZE);
            proof {
                if let Err(err) = r {
                    match err {
                        MapError::InvalidRange => {},
                        MapError::Overlap => {},
                        MapError::NotMapped => {},
                        MapError::OutOfFrames => {},
                    }
                }
                let j = choose|j: int|
                    0 <= j < y.areas().len() && #[trigger] y.areas()[j].start_vpn == vpn_floor((v * 4096) as u64)
                        && y.areas()[j].end_vpn == vpn_ceil((cut * 4096) as u64) && self.areas() == y.areas().remove(j)
                        && frames.allocated() == alloc1.difference(y.areas()[j].frames@.to_set());
                lemma_remove_area_pages(y, *self, j);
                lemma_cut_compose(ms0, x, y, *self, s, v, cut);
                assert(frames.allocated() =~= alloc0.difference(frames_in(ms0, s, cut)));
                assert forall|b: VirtualMemorySet|
                    b.frames_within(alloc0) && #[trigger] frames_apart(ms0, b) implies b.frames_within(
                        frames.allocated(),
                    ) && frames_apart(*self, b) by {
                    lemma_same_frames_apart(x, y, b);
                }
                assert forall|u: u64| cut <= u < e implies #[trigger] self.maps_page(u) by {
                    assert(x.maps_page(u));
                    lemma_maps_entry(x, u);
                    lemma_maps_entry(*self, u);
                    let (f, p) = choose|f: u64, p: MapPermission| page_entry(x, u, f, p);
                    assert(page_entry(y, u, f, p));
                    assert(page_entry(*self, u, f, p));
                }
            }
            v = cut;
        }
        Ok(())
    }

    /// Unmaps the region that covers exactly the pages
    /// `[floor(start_va), ceil(end_va))` and gives its frames back. Nothing
    /// changes when it fails.
    pub fn remove_region(&mut self, frames: &mut FrameAllocator, start_va: u64, end_va: u64) -> (r:
        Result<(), MapError>)
        requires
            old(self).wf(),
            old(frames).wf(),
            old(self).frames_within(old(frames).allocated()),
        ensures
            final(self).wf(),
            final(frames).wf(),
            final(self).frames_within(final(frames).allocated()),
            forall|b: VirtualMemorySet|
                b.frames_within(old(frames).allocated()) && #[trigger] frames_apart(*old(self), b)
                    ==> b.frames_within(final(frames).allocated()) && frames_apart(*final(self), b),
            r == Err::<(), MapError>(MapError::InvalidRange) <==> !valid_range(start_va, end_va),
            r == Err::<(), MapError>(MapError::NotMapped) <==> valid_range(start_va, end_va) && !(
            exists|i: int|
                0 <= i < old(self).areas().len() && #[trigger] old(self).areas()[i].start_vpn
                    == vpn_floor(start_va) && old(self).areas()[i].end_vpn == vpn_ceil(end_va)),
            r != Err::<(), MapError>(MapError::Overlap) && r != Err::<(), MapError>(MapError::OutOfFrames),
            r is Err ==> *final(self) == *old(self) && final(frames).allocated()
                == old(frames).allocated() && final(frames).available() == old(frames).available(),
            r is Ok ==> valid_range(start_va, end_va),
            r is Ok ==> mapping_removed(*old(self), *final(self), *old(frames), *final(frames), start_va, end_va),
    {
        if !(start_va % PAGE_SIZE == 0 && start_va < end_va && end_va <= VA_LIMIT) {
            return Err(MapError::InvalidRange);
        }
        let s = start_va / PAGE_SIZE;
        let e = (end_va + (PAGE_SIZE - 1)) / PAGE_SIZE;
        let mut i: usize = 0;
        while i < self.areas.len() && !(self.areas[i].start_vpn == s && self.areas[i].end_vpn == e)
            invariant
                i <= self.areas@.len(),
                self.areas@ == old(self).areas(),
                valid_range(start_va, end_va),
                s == vpn_floor(start_va),
                e == vpn_ceil(end_va),
                forall|j: int|
                    0 <= j < i ==> !(#[trigger] self.areas@[j].start_vpn == s && self.areas@[j].end_vpn
                        == e),
            decreases self.areas@.len() - i,
        {
            i = i + 1;
        }
        if i == self.areas.len() {
            return Err(MapError::NotMapped);
        }
        let ghost old_areas = self.areas@;
        let ghost alloc0 = frames.allocated();
        let ghost avail0 = frames.available();
        let area = self.areas.remove(i);
        proof {
            lemma_remove_keeps_wf(old_areas, i as int);
            assert(area == old_areas[i as int]);
        }
        let n = area.frames.len();
        let mut k: usize = 0;
        while k < n
            invariant
                n == area.frames@.len(),
                area == old_areas[i as int],
                old_areas == old(self).areas(),
                old_areas[i as int].start_vpn == vpn_floor(start_va),
                old_areas[i as int].end_vpn == vpn_ceil(end_va),
                alloc0 == old(frames).allocated(),
                avail0 == old(frames).available(),
                0 <= i < old_areas.len(),
                areas_wf(old_areas),
                self.areas@ == old_areas.remove(i as int),
                forall|a: int, l: int|
                    0 <= a < old_areas.len() && 0 <= l < old_areas[a].frames@.len()
                        ==> alloc0.contains(#[trigger] old_areas[a].frames@[l]),
                k <= n,
                frames.wf(),
                frames.allocated() == alloc0.difference(area.frames@.take(k as int).to_set()),
                frames.available() == avail0 + k,
            decreases n - k,
        {
            let f = area.frames[k];
            proof {
                assert(alloc0.contains(old_areas[i as int].frames@[k as int]));
                assert(!area.frames@.take(k as int).to_set().contains(f)) by {
                    if area.frames@.take(k as int).to_set().contains(f) {
                        let m = choose|m: int|
                            0 <= m < k && #[trigger] area.frames@.take(k as int)[m] == f;
                        assert(old_areas[i as int].frames@[m] == old_areas[i as int].frames@[k as int]);
                    }
                }
                assert(area.frames@.take(k as int + 1) =~= area.frames@.take(k as int).push(f));
                area.frames@.take(k as int).lemma_push_to_set_commute(f);
            }
            frames.dealloc_frame(f);
            k = k + 1;
            proof {
                assert(frames.allocated() =~= alloc0.difference(area.frames@.take(k as int).to_set()));
            }
        }
        proof {
            assert(area.frames@.take(n as int) =~= area.frames@);
            let r = self.areas@;
            assert forall|a: int, l: int|
                0 <= a < r.len() && 0 <= l < r[a].frames@.len()
                implies frames.allocated().contains(#[trigger] r[a].frames@[l]) by {
                let a2 = if a < i { a } else { a + 1 };
                assert(r[a] == old_areas[a2]);
                assert(alloc0.contains(old_areas[a2].frames@[l]));
                if area.frames@.to_set().contains(r[a].frames@[l]) {
                    let m = choose|m: int| 0 <= m < n && #[trigger] area.frames@[m] == r[a].frames@[l];
                    assert(old_areas[i as int].frames@[m] == old_areas[a2].frames@[l]);
                }
            }
            assert forall|b: VirtualMemorySet|
                b.frames_within(old(frames).allocated()) && #[trigger] frames_apart(*old(self), b)
                implies b.frames_within(frames.allocated()) && frames_apart(*self, b) by {
                assert forall|j: int, l: int|
                    0 <= j < b.areas().len() && 0 <= l < b.areas()[j].frames@.len()
                    implies frames.allocated().contains(#[trigger] b.areas()[j].frames@[l]) by {
                    assert(alloc0.contains(b.areas()[j].frames@[l]));
                    if area.frames@.to_set().contains(b.areas()[j].frames@[l]) {
                        let m = choose|m: int| 0 <= m < n && #[trigger] area.frames@[m] == b.areas()[j].frames@[l];
                        assert(old_areas[i as int].frames@[m] == b.areas()[j].frames@[l]);
                    }
                }
                assert forall|a: int, k: int, j: int, l: int|
                    0 <= a < r.len() && 0 <= k < r[a].frames@.len() && 0 <= j
                        < b.areas().len() && 0 <= l < b.areas()[j].frames@.len()
                    implies #[trigger] r[a].frames@[k] != #[trigger] b.areas()[j].frames@[l] by {
                    let a2 = if a < i { a } else { a + 1 };
                    assert(r[a] == old_areas[a2]);
                    assert(old_areas[a2].frames@[k] != b.areas()[j].frames@[l]);
                }
            }
        }
        Ok(())
    }

    /// The physical address that `va` maps to, or `None` when its page is
    /// not mapped.
    pub fn translate(&self, va: u64) -> (r: Option<u64>)
        requires
            self.wf(),
        ensures
            r is None <==> !self.maps_page(vpn_floor(va)),
            r matches Some(pa) ==> self.translates_to(va, pa),
    {
        let vpn = va / PAGE_SIZE;
        let mut i: usize = 0;
        while i < self.areas.len()
            invariant
                i <= self.areas@.len(),
                self.wf(),
                vpn == vpn_floor(va),
                forall|j: int| 0 <= j < i ==> !holds_page(#[trigger] self.areas@[j], vpn),
            decreases self.areas@.len() - i,
        {
            let a = &self.areas[i];
            if a.start_vpn <= vpn && vpn < a.end_vpn {
                proof {
                    assert(area_ok(self.areas@[i as int]));
                }
                let f = a.frames[(vpn - a.start_vpn) as usize];
                assert(f * 4096 <= (PPN_LIMIT - 1) * 4096) by (nonlinear_arith)
                    requires f < PPN_LIMIT;
                let pa = f * PAGE_SIZE + va % PAGE_SIZE;
                assert(holds_page(self.areas()[i as int], vpn_floor(va)));
                return Some(pa);
            }
            i = i + 1;
        }
        None
    }

    /// Page `vpn` is mapped writable and reachable from user mode.
    pub open spec fn writable_page(&self, vpn: u64) -> bool {
        exists|i: int|
            0 <= i < self.areas().len() && holds_page(#[trigger] self.areas()[i], vpn) && user_writable(
                self.areas()[i].perm,
            )
    }

    /// Every address of `[va, va + len)` lies in a page that user code may
    /// write.
    pub open spec fn writes_all(&self, va: u64, len: u64) -> bool {
        forall|a: u64| va <= a < va + len ==> #[trigger] self.writable_page(vpn_floor(a))
    }

    /// `segs` splits the user buffer `[va, va + len)` into consecutive
    /// non-empty pieces, each inside one page, with their physical addresses.
    pub open spec fn splits(&self, va: u64, len: u64, segs: Seq<PhysSegment>) -> bool {
        &&& segs.len() == 0 <==> len == 0
        &&& segs.len() > 0 ==> segs[0].va == va && segs.last().va + segs.last().len == va + len
        &&& forall|k: int|
            0 <= k < segs.len() ==> {
                &&& (#[trigger] segs[k]).len > 0
                &&& segs[k].va % PAGE_SIZE + segs[k].len <= PAGE_SIZE
                &&& self.translates_to(segs[k].va, segs[k].pa)
            }
        &&& forall|k: int| 0 <= k < segs.len() - 1 ==> #[trigger] segs[k + 1].va == segs[k].va + segs[k].len
    }

    /// Resolves the user buffer `[va, va + len)` page by page, so that a
    /// buffer that straddles pages is written piece by piece; `None` when
    /// some byte of it lies in a page that user code may not write.
    pub fn user_segments(&self, va: u64, len: u64) -> (r: Option<Vec<PhysSegment>>)
        requires
            self.wf(),
        ensures
            r is Some <==> va + len <= u64::MAX && self.writes_all(va, len),
            r matches Some(segs) ==> self.splits(va, len, segs@),
    {
        if va >= VA_LIMIT || len > VA_LIMIT - va {
            if len > 0 && va >= VA_LIMIT {
                assert(!self.writable_page(vpn_floor(va))) by {
                    if self.writable_page(vpn_floor(va)) {
                        let i = choose|i: int| 0 <= i < self.areas().len() && holds_page(#[trigger] self.areas()[i], vpn_floor(va)) && user_writable(self.areas()[i].perm);
                        assert(area_ok(self.areas()[i]));
                    }
                }
            }
            if len > 0 && va < VA_LIMIT {
                let ghost top: u64 = VA_LIMIT;
                assert(!self.writable_page(vpn_floor(top))) by {
                    if self.writable_page(vpn_floor(top)) {
                        let i = choose|i: int| 0 <= i < self.areas().len() && holds_page(#[trigger] self.areas()[i], vpn_floor(top)) && user_writable(self.areas()[i].perm);
                        assert(area_ok(self.areas()[i]));
                    }
                }
            }
            return if len == 0 { Some(Vec::new()) } else { None };
        }
        let end = va + len;
        let mut segs: Vec<PhysSegment> = Vec::new();
        let mut cur: u64 = va;
        while cur < end
            invariant
                self.wf(),
                end == va + len,
                end <= VA_LIMIT,
                va <= cur <= end,
                segs@.len() == 0 <==> cur == va,
                segs@.len() > 0 ==> segs@[0].va == va && segs@.last().va + segs@.last().len == cur,
                forall|k: int|
                    0 <= k < segs@.len() ==> {
                        &&& (#[trigger] segs@[k]).len > 0
                        &&& segs@[k].va % PAGE_SIZE + segs@[k].len <= PAGE_SIZE
                        &&& self.translates_to(segs@[k].va, segs@[k].pa)
                    },
                forall|k: int| 0 <= k < segs@.len() - 1 ==> #[trigger] segs@[k + 1].va == segs@[k].va + segs@[k].len,
                forall|a: u64| va <= a < cur ==> #[trigger] self.writable_page(vpn_floor(a)),
            decreases end - cur,
        {
            let room = PAGE_SIZE - cur % PAGE_SIZE;
            let l = if room < end - cur { room } else { end - cur };
            match self.area_holding(cur / PAGE_SIZE) {
                None => {
                    proof {
                        if self.writable_page(vpn_floor(cur)) {
                            let j = choose|j: int| 0 <= j < self.areas().len() && holds_page(#[trigger] self.areas()[j], vpn_floor(cur)) && user_writable(self.areas()[j].perm);
                            assert(self.maps_page(vpn_floor(cur)));
                        }
                    }
                    return None;
                },
                Some(i) => {
                    let bits = self.areas[i].perm.bits;
                    if !(bits & PERM_W != 0 && bits & PERM_U != 0) {
                        proof {
                            if self.writable_page(vpn_floor(cur)) {
                                let j = choose|j: int| 0 <= j < self.areas().len() && holds_page(#[trigger] self.areas()[j], vpn_floor(cur)) && user_writable(self.areas()[j].perm);
                                if j != i {
                                    assert(area_ok(self.areas()[j]));
                                    assert(meets(self.areas()[j], self.areas()[i as int].start_vpn, self.areas()[i as int].end_vpn));
                                }
                            }
                        }
                        return None;
                    }
                    assert(self.writable_page(vpn_floor(cur)));
                    assert(self.maps_page(vpn_floor(cur)));
                },
            }
            match self.translate(cur) {
                None => {
                    return None;
                },
                Some(pa) => {
                    let seg = PhysSegment { va: cur, pa, len: l };
                    let ghost prev = segs@;
                    segs.push(seg);
                    proof {
                        assert(segs@ == prev.push(seg));
                        assert forall|k: int| 0 <= k < segs@.len() - 1 implies #[trigger] segs@[k + 1].va == segs@[k].va + segs@[k].len by {
                            if k + 1 < prev.len() {
                                assert(segs@[k + 1] == prev[k + 1] && segs@[k] == prev[k]);
                            } else {
                                assert(segs@[k] == prev.last());
                            }
                        }
                        assert forall|a: u64| va <= a < cur + l implies #[trigger] self.writable_page(vpn_floor(a)) by {
                            if a >= cur {
                                lemma_same_page(cur, a, l);
                            }
                        }
                    }
                    cur = cur + l;
                },
            }
        }
        Some(segs)
    }

    /// Unmaps every region and gives all their frames back.
    pub fn recycle(&mut self, frames: &mut FrameAllocator)
        requires
            old(self).wf(),
            old(frames).wf(),
            old(self).frames_within(old(frames).allocated()),
        ensures
            final(self).wf(),
            final(frames).wf(),
            final(self).areas().len() == 0,
            forall|f: u64|
                #[trigger] final(frames).allocated().contains(f) <==> old(frames).allocated().contains(f)
                    && !old(self).holds_frame(f),
            forall|b: VirtualMemorySet|
                b.frames_within(old(frames).allocated()) && #[trigger] frames_apart(*old(self), b)
                    ==> b.frames_within(final(frames).allocated()),
    {
        let ghost ms0 = *self;
        let ghost alloc0 = frames.allocated();
        while self.areas.len() > 0
            invariant
                self.wf(),
                frames.wf(),
                self.frames_within(frames.allocated()),
                ms0.wf(),
                ms0 == *old(self),
                alloc0 == old(frames).allocated(),
                self.areas().len() <= ms0.areas().len(),
                self.areas() == ms0.areas().take(self.areas().len() as int),
                forall|f: u64|
                    #[trigger] frames.allocated().contains(f) <==> alloc0.contains(f) && (
                    !ms0.holds_frame(f) || self.holds_frame(f)),
            decreases self.areas@.len(),
        {
            let m = self.areas.len();
            let s = self.areas[m - 1].start_vpn;
            let e = self.areas[m - 1].end_vpn;
            let ghost prev = *self;
            let ghost alloc1 = frames.allocated();
            proof {
                assert(area_ok(self.areas()[m - 1]));
                assert((s * 4096) % 4096 == 0 && (s * 4096) / 4096 == s) by (nonlinear_arith);
                assert((e * 4096 + 4095) / 4096 == e) by (nonlinear_arith);
                assert(s * 4096 < e * 4096 <= VPN_LIMIT * 4096) by (nonlinear_arith)
                    requires s < e <= VPN_LIMIT;
            }
            assert(prev.areas()[m - 1].start_vpn == vpn_floor((s * 4096) as u64));
            assert(valid_range((s * 4096) as u64, (e * 4096) as u64));
            assert(prev.areas()[m - 1].end_vpn == vpn_ceil((e * 4096) as u64));
            assert(prev.areas()[m - 1].start_vpn == vpn_floor((s * 4096) as u64) && prev.areas()[m - 1].end_vpn == vpn_ceil((e * 4096) as u64));
            let r = self.remove_region(frames, s * PAGE_SIZE, e * PAGE_SIZE);
            proof {
                assert(r != Err::<(), MapError>(MapError::InvalidRange));
                assert(r != Err::<(), MapError>(MapError::NotMapped));
                assert(r != Err::<(), MapError>(MapError::Overlap));
                assert(r != Err::<(), MapError>(MapError::OutOfFrames));
                if let Err(err) = r {
                    match err {
                        MapError::InvalidRange => {},
                        MapError::Overlap => {},
                        MapError::NotMapped => {},
                        MapError::OutOfFrames => {},
                    }
                }
                let i = choose|i: int|
                    0 <= i < prev.areas().len() && #[trigger] prev.areas()[i].start_vpn
                        == vpn_floor((s * 4096) as u64) && prev.areas()[i].end_vpn == vpn_ceil(
                        (e * 4096) as u64,
                    ) && self.areas() == prev.areas().remove(i) && frames.allocated()
                        == alloc1.difference(prev.areas()[i].frames@.to_set());
                if i != m - 1 {
                    assert(meets(prev.areas()[i], prev.areas()[m - 1].start_vpn, prev.areas()[m - 1].end_vpn));
                }
                assert(self.areas() =~= ms0.areas().take(self.areas().len() as int));
                let a = prev.areas()[m - 1];
                assert forall|f: u64|
                    #[trigger] frames.allocated().contains(f) <==> alloc0.contains(f) && (
                    !ms0.holds_frame(f) || self.holds_frame(f)) by {
                    if a.frames@.to_set().contains(f) {
                        let k = choose|k: int| 0 <= k < a.frames@.len() && a.frames@[k] == f;
                        assert(prev.areas()[m - 1].frames@[k] == f);
                        assert(ms0.areas()[m - 1] == a);
                        assert(ms0.holds_frame(f));
                        if self.holds_frame(f) {
                            let (j, l) = choose|j: int, l: int|
                                0 <= j < self.areas().len() && 0 <= l < self.areas()[j].frames@.len()
                                    && #[trigger] self.areas()[j].frames@[l] == f;
                            assert(prev.areas()[j] == self.areas()[j]);
                            assert(prev.areas()[j].frames@[l] == prev.areas()[m - 1].frames@[k]);
                        }
                    } else {
                        if prev.holds_frame(f) {
                            let (j, l) = choose|j: int, l: int|
                                0 <= j < prev.areas().len() && 0 <= l < prev.areas()[j].frames@.len()
                                    && #[trigger] prev.areas()[j].frames@[l] == f;
                            if j == m - 1 {
                                assert(a.frames@.to_set().contains(f));
                            } else {
                                assert(self.areas()[j] == prev.areas()[j]);
                                assert(self.holds_frame(f));
                            }
                        }
                        if self.holds_frame(f) {
                            let (j, l) = choose|j: int, l: int|
                                0 <= j < self.areas().len() && 0 <= l < self.areas()[j].frames@.len()
                                    && #[trigger] self.areas()[j].frames@[l] == f;
                            assert(prev.areas()[j] == self.areas()[j]);
                            assert(prev.holds_frame(f));
                        }
                    }
                }
            }
        }
        proof {
            assert forall|b: VirtualMemorySet|
                b.frames_within(old(frames).allocated()) && #[trigger] frames_apart(*old(self), b)
                implies b.frames_within(frames.allocated()) by {
                assert forall|j: int, l: int|
                    0 <= j < b.areas().len() && 0 <= l < b.areas()[j].frames@.len()
                    implies frames.allocated().contains(#[trigger] b.areas()[j].frames@[l]) by {
                    let f = b.areas()[j].frames@[l];
                    assert(alloc0.contains(f));
                    if ms0.holds_frame(f) {
                        let (i, k) = choose|i: int, k: int|
                            0 <= i < ms0.areas().len() && 0 <= k < ms0.areas()[i].frames@.len()
                                && #[trigger] ms0.areas()[i].frames@[k] == f;
                        assert(ms0.areas()[i].frames@[k] != b.areas()[j].frames@[l]);
                    }
                }
            }
        }
    }

    /// The position of the region that starts at page `s`, if any.
    fn find_region(&self, s: u64) -> (r: Option<usize>)
        requires
            self.wf(),
        ensures
            r is None <==> !has_region_at(*self, s),
            r matches Some(i) ==> i == region_at(*self, s) && i < self.areas().len(),
    {
        let mut i: usize = 0;
        while i < self.areas.len() && self.areas[i].start_vpn != s
            invariant
                i <= self.areas@.len(),
                forall|j: int| 0 <= j < i ==> (#[trigger] self.areas@[j]).start_vpn != s,
            decreases self.areas@.len() - i,
        {
            i = i + 1;
        }
        if i == self.areas.len() {
            None
        } else {
            proof {
                assert(self.areas()[i as int].start_vpn == s);
                let j = region_at(*self, s);
                if j != i {
                    assert(meets(self.areas()[j], self.areas()[i as int].start_vpn, self.areas()[i as int].end_vpn));
                }
            }
            Some(i)
        }
    }

    /// Grows the region that starts at page `start_vpn` so that it ends at
    /// page `new_end`, backing the new pages with fresh frames. Nothing
    /// changes when it fails.
    pub fn append_to(&mut self, frames: &mut FrameAllocator, start_vpn: u64, new_end: u64) -> (r: Result<(), MapError>)
        requires
            old(self).wf(),
            old(frames).wf(),
            old(self).frames_within(old(frames).allocated()),
        ensures
            final(self).wf(),
            final(frames).wf(),
            final(self).frames_within(final(frames).allocated()),
            forall|b: VirtualMemorySet|
                b.frames_within(old(frames).allocated()) && #[trigger] frames_apart(*old(self), b)
                    ==> b.frames_within(final(frames).allocated()) && frames_apart(*final(self), b),
            ({
                let i = region_at(*old(self), start_vpn);
                let a = old(self).areas()[i];
                &&& r == Err::<(), MapError>(MapError::NotMapped) <==> !has_region_at(*old(self), start_vpn)
                &&& r == Err::<(), MapError>(MapError::InvalidRange) <==> has_region_at(*old(self), start_vpn)
                    && !(a.end_vpn < new_end <= VPN_LIMIT)
                &&& r == Err::<(), MapError>(MapError::Overlap) <==> has_region_at(*old(self), start_vpn)
                    && a.end_vpn < new_end <= VPN_LIMIT && exists|j: int|
                    0 <= j < old(self).areas().len() && j != i && meets(
                        #[trigger] old(self).areas()[j],
                        a.end_vpn,
                        new_end,
                    )
                &&& r == Err::<(), MapError>(MapError::OutOfFrames) <==> has_region_at(*old(self), start_vpn)
                    && a.end_vpn < new_end <= VPN_LIMIT && !(exists|j: int|
                    0 <= j < old(self).areas().len() && j != i && meets(
                        #[trigger] old(self).areas()[j],
                        a.end_vpn,
                        new_end,
                    )) && old(frames).available() < new_end - a.end_vpn
                &&& r is Ok ==> {
                    let b = final(self).areas()[i];
                    &&& final(self).areas() == old(self).areas().update(i, b)
                    &&& b.start_vpn == start_vpn && b.end_vpn == new_end && b.perm == a.perm
                    &&& b.frames@.take(a.frames@.len() as int) == a.frames@
                    &&& final(frames).allocated() == old(frames).allocated().union(
                        b.frames@.skip(a.frames@.len() as int).to_set(),
                    )
                }
            }),
            r is Err ==> *final(self) == *old(self) && final(frames).allocated()
                == old(frames).allocated() && final(frames).available() == old(frames).available(),
    {
        let i = match self.find_region(start_vpn) {
            Some(i) => i,
            None => {
                return Err(MapError::NotMapped);
            },
        };
        let end = self.areas[i].end_vpn;
        if !(end < new_end && new_end <= VPN_LIMIT) {
            return Err(MapError::InvalidRange);
        }
        let mut j: usize = 0;
        while j < self.areas.len()
            invariant
                j <= self.areas@.len(),
                i < self.areas@.len(),
                *self == *old(self),
                *frames == *old(frames),
                self.wf(),
                frames.wf(),
                self.frames_within(frames.allocated()),
                has_region_at(*old(self), start_vpn),
                i == region_at(*old(self), start_vpn),
                end == self.areas@[i as int].end_vpn,
                end < new_end <= VPN_LIMIT,
                forall|k: int| 0 <= k < j && k != i ==> !meets(#[trigger] self.areas@[k], end, new_end),
            decreases self.areas@.len() - j,
        {
            if j != i && self.areas[j].start_vpn < new_end && end < self.areas[j].end_vpn {
                assert(meets(self.areas()[j as int], end, new_end));
                return Err(MapError::Overlap);
            }
            j = j + 1;
        }
        let ghost alloc0 = frames.allocated();
        let ghost old_areas = self.areas@;
        let mut got = match Self::alloc_frames(frames, new_end - end) {
            Some(got) => got,
            None => {
                return Err(MapError::OutOfFrames);
            },
        };
        let ghost fresh = got@;
        let mut a = self.areas.remove(i);
        let ghost a0 = a;
        proof {
            assert(a0 == old_areas[i as int]);
            assert(area_ok(a0));
        }
        a.frames.append(&mut got);
        a.end_vpn = new_end;
        self.areas.insert(i, a);
        proof {
            let areas = self.areas@;
            assert(areas =~= old_areas.update(i as int, a));
            assert(a.frames@ == a0.frames@ + fresh);
            assert(a.frames@.take(a0.frames@.len() as int) =~= a0.frames@);
            assert(a.frames@.skip(a0.frames@.len() as int) =~= fresh);
            let n0 = a0.frames@.len() as int;
            assert forall|x: int| 0 <= x < areas.len() implies area_ok(#[trigger] areas[x]) by {
                if x == i {
                    assert forall|k: int| 0 <= k < a.frames@.len() implies #[trigger] a.frames@[k] < PPN_LIMIT by {
                        if k >= n0 {
                            assert(a.frames@[k] == fresh[k - n0]);
                        } else {
                            assert(a.frames@[k] == a0.frames@[k]);
                        }
                    }
                } else {
                    assert(areas[x] == old_areas[x]);
                }
            }
            assert forall|x: int, y: int|
                0 <= x < areas.len() && 0 <= y < areas.len() && x != y
                implies !meets(#[trigger] areas[x], areas[y].start_vpn, #[trigger] areas[y].end_vpn) by {
                assert(!meets(old_areas[x], old_areas[y].start_vpn, old_areas[y].end_vpn));
            }
            assert forall|x: int, k: int|
                0 <= x < areas.len() && 0 <= k < areas[x].frames@.len()
                implies frames.allocated().contains(#[trigger] areas[x].frames@[k]) by {
                if x == i && k >= n0 {
                    assert(a.frames@[k] == fresh[k - n0]);
                    assert(fresh.to_set().contains(fresh[k - n0]));
                } else if x == i {
                    assert(a.frames@[k] == old_areas[x].frames@[k]);
                } else {
                    assert(areas[x] == old_areas[x]);
                }
            }
            assert forall|x: int, k: int, y: int, l: int|
                0 <= x < areas.len() && 0 <= y < areas.len() && 0 <= k < areas[x].frames@.len()
                    && 0 <= l < areas[y].frames@.len() && (x != y || k != l)
                implies #[trigger] areas[x].frames@[k] != #[trigger] areas[y].frames@[l] by {
                let fx = areas[x].frames@[k];
                let fy = areas[y].frames@[l];
                let new_x = x == i && k >= n0;
                let new_y = y == i && l >= n0;
                if new_x {
                    assert(fx == fresh[k - n0]);
                }
                if new_y {
                    assert(fy == fresh[l - n0]);
                }
                if !new_x {
                    if x == i { assert(fx == old_areas[x].frames@[k]); } else { assert(areas[x] == old_areas[x]); }
                    assert(alloc0.contains(fx));
                }
                if !new_y {
                    if y == i { assert(fy == old_areas[y].frames@[l]); } else { assert(areas[y] == old_areas[y]); }
                    assert(alloc0.contains(fy));
                }
                if !new_x && !new_y {
                    assert(old_areas[x].frames@[k] == fx && old_areas[y].frames@[l] == fy);
                }
            }
            assert forall|b: VirtualMemorySet|
                b.frames_within(old(frames).allocated()) && #[trigger] frames_apart(*old(self), b)
                implies b.frames_within(frames.allocated()) && frames_apart(*self, b) by {
                assert forall|x: int, k: int, y: int, l: int|
                    0 <= x < areas.len() && 0 <= k < areas[x].frames@.len() && 0 <= y
                        < b.areas().len() && 0 <= l < b.areas()[y].frames@.len()
                    implies #[trigger] self.areas()[x].frames@[k] != #[trigger] b.areas()[y].frames@[l] by {
                    assert(alloc0.contains(b.areas()[y].frames@[l]));
                    if x == i && k >= n0 {
                        assert(a.frames@[k] == fresh[k - n0]);
                    } else if x == i {
                        assert(a.frames@[k] == old_areas[x].frames@[k]);
                    } else {
                        assert(areas[x] == old_areas[x]);
                    }
                }
            }
        }
        Ok(())
    }

    /// Shrinks the region that starts at page `start_vpn` so that it ends at
    /// page `new_end`, giving back the frames of the pages it loses. Nothing
    /// changes when it fails.
    pub fn shrink_to(&mut self, frames: &mut FrameAllocator, start_vpn: u64, new_end: u64) -> (r: Result<(), MapError>)
        requires
            old(self).wf(),
            old(frames).wf(),
            old(self).frames_within(old(frames).allocated()),
        ensures
            final(self).wf(),
            final(frames).wf(),
            final(self).frames_within(final(frames).allocated()),
            forall|b: VirtualMemorySet|
                b.frames_within(old(frames).allocated()) && #[trigger] frames_apart(*old(self), b)
                    ==> b.frames_within(final(frames).allocated()) && frames_apart(*final(self), b),
            r != Err::<(), MapError>(MapError::Overlap) && r != Err::<(), MapError>(MapError::OutOfFrames),
            ({
                let i = region_at(*old(self), start_vpn);
                let a = old(self).areas()[i];
                let keep = new_end - start_vpn;
                &&& r == Err::<(), MapError>(MapError::NotMapped) <==> !has_region_at(*old(self), start_vpn)
                &&& r == Err::<(), MapError>(MapError::InvalidRange) <==> has_region_at(*old(self), start_vpn)
                    && !(start_vpn < new_end < a.end_vpn)
                &&& r is Ok ==> {
                    let b = final(self).areas()[i];
                    &&& final(self).areas() == old(self).areas().update(i, b)
                    &&& b.start_vpn == start_vpn && b.end_vpn == new_end && b.perm == a.perm
                    &&& b.frames@ == a.frames@.take(keep)
                    &&& final(frames).allocated() == old(frames).allocated().difference(
                        a.frames@.skip(keep).to_set(),
                    )
                }
            }),
            r is Err ==> *final(self) == *old(self) && final(frames).allocated()
                == old(frames).allocated() && final(frames).available() == old(frames).available(),
    {
        let i = match self.find_region(start_vpn) {
            Some(i) => i,
            None => {
                return Err(MapError::NotMapped);
            },
        };
        if !(start_vpn < new_end && new_end < self.areas[i].end_vpn) {
            return Err(MapError::InvalidRange);
        }
        let ghost alloc0 = frames.allocated();
        let ghost old_areas = self.areas@;
        let mut a = self.areas.remove(i);
        let ghost a0 = a;
        proof {
            assert(a0 == old_areas[i as int]);
            assert(area_ok(a0));
        }
        let keep = (new_end - start_vpn) as usize;
        while a.frames.len() > keep
            invariant
                a0 == old_areas[i as int],
                0 <= i < old_areas.len(),
                areas_wf(old_areas),
                area_ok(a0),
                keep < a0.frames@.len(),
                keep <= a.frames@.len() <= a0.frames@.len(),
                a.frames@ == a0.frames@.take(a.frames@.len() as int),
                a.start_vpn == a0.start_vpn && a.end_vpn == a0.end_vpn && a.perm == a0.perm,
                forall|x: int, k: int|
                    0 <= x < old_areas.len() && 0 <= k < old_areas[x].frames@.len()
                        ==> alloc0.contains(#[trigger] old_areas[x].frames@[k]),
                frames.wf(),
                frames.allocated() == alloc0.difference(a0.frames@.skip(a.frames@.len() as int).to_set()),
            decreases a.frames@.len(),
        {
            let ghost len = a.frames@.len() as int;
            let f = a.frames.pop().unwrap();
            proof {
                assert(f == a0.frames@[len - 1]);
                assert(alloc0.contains(old_areas[i as int].frames@[len - 1]));
                assert(!a0.frames@.skip(len).to_set().contains(f)) by {
                    if a0.frames@.skip(len).to_set().contains(f) {
                        let m = choose|m: int| 0 <= m < a0.frames@.skip(len).len() && #[trigger] a0.frames@.skip(len)[m] == f;
                        assert(old_areas[i as int].frames@[len + m] == old_areas[i as int].frames@[len - 1]);
                    }
                }
                assert(a0.frames@.skip(len - 1).to_set() =~= a0.frames@.skip(len).to_set().insert(f)) by {
                    assert forall|g: u64| #[trigger] a0.frames@.skip(len - 1).to_set().contains(g) <==> a0.frames@.skip(len).to_set().insert(f).contains(g) by {
                        if a0.frames@.skip(len - 1).to_set().contains(g) {
                            let m = choose|m: int| 0 <= m < a0.frames@.skip(len - 1).len() && #[trigger] a0.frames@.skip(len - 1)[m] == g;
                            if m > 0 {
                                assert(a0.frames@.skip(len)[m - 1] == g);
                            }
                        }
                        if a0.frames@.skip(len).to_set().contains(g) {
                            let m = choose|m: int| 0 <= m < a0.frames@.skip(len).len() && #[trigger] a0.frames@.skip(len)[m] == g;
                            assert(a0.frames@.skip(len - 1)[m + 1] == g);
                        }
                        if g == f {
                            assert(a0.frames@.skip(len - 1)[0] == g);
                        }
                    }
                }
                assert(a.frames@ =~= a0.frames@.take(len - 1));
            }
            frames.dealloc_frame(f);
            proof {
                assert(frames.allocated() =~= alloc0.difference(a0.frames@.skip(a.frames@.len() as int).to_set()));
            }
        }
        a.end_vpn = new_end;
        self.areas.insert(i, a);
        proof {
            let areas = self.areas@;
            let n1 = keep as int;
            assert(areas =~= old_areas.update(i as int, a));
            assert forall|x: int| 0 <= x < areas.len() implies area_ok(#[trigger] areas[x]) by {
                if x == i {
                    assert forall|k: int| 0 <= k < a.frames@.len() implies #[trigger] a.frames@[k] < PPN_LIMIT by {
                        assert(a.frames@[k] == a0.frames@[k]);
                    }
                } else {
                    assert(areas[x] == old_areas[x]);
                }
            }
            assert forall|x: int, y: int|
                0 <= x < areas.len() && 0 <= y < areas.len() && x != y
                implies !meets(#[trigger] areas[x], areas[y].start_vpn, #[trigger] areas[y].end_vpn) by {
                assert(!meets(old_areas[x], old_areas[y].start_vpn, old_areas[y].end_vpn));
            }
            assert forall|x: int, k: int, y: int, l: int|
                0 <= x < areas.len() && 0 <= y < areas.len() && 0 <= k < areas[x].frames@.len()
                    && 0 <= l < areas[y].frames@.len() && (x != y || k != l)
                implies #[trigger] areas[x].frames@[k] != #[trigger] areas[y].frames@[l] by {
                assert(areas[x].frames@[k] == old_areas[x].frames@[k]);
                assert(areas[y].frames@[l] == old_areas[y].frames@[l]);
            }
            assert forall|x: int, k: int|
                0 <= x < areas.len() && 0 <= k < areas[x].frames@.len()
                implies frames.allocated().contains(#[trigger] areas[x].frames@[k]) by {
                let g = areas[x].frames@[k];
                assert(g == old_areas[x].frames@[k]);
                if a0.frames@.skip(n1).to_set().contains(g) {
                    let m = choose|m: int| 0 <= m < a0.frames@.skip(n1).len() && #[trigger] a0.frames@.skip(n1)[m] == g;
                    assert(old_areas[i as int].frames@[n1 + m] == g);
                }
            }
            assert forall|b: VirtualMemorySet|
                b.frames_within(old(frames).allocated()) && #[trigger] frames_apart(*old(self), b)
                implies b.frames_within(frames.allocated()) && frames_apart(*self, b) by {
                assert forall|y: int, l: int|
                    0 <= y < b.areas().len() && 0 <= l < b.areas()[y].frames@.len()
                    implies frames.allocated().contains(#[trigger] b.areas()[y].frames@[l]) by {
                    let g = b.areas()[y].frames@[l];
                    assert(alloc0.contains(g));
                    if a0.frames@.skip(n1).to_set().contains(g) {
                        let m = choose|m: int| 0 <= m < a0.frames@.skip(n1).len() && #[trigger] a0.frames@.skip(n1)[m] == g;
                        assert(old_areas[i as int].frames@[n1 + m] == g);
                    }
                }
                assert forall|x: int, k: int, y: int, l: int|
                    0 <= x < areas.len() && 0 <= k < areas[x].frames@.len() && 0 <= y
                        < b.areas().len() && 0 <= l < b.areas()[y].frames@.len()
                    implies #[trigger] self.areas()[x].frames@[k] != #[trigger] b.areas()[y].frames@[l] by {
                    assert(areas[x].frames@[k] == old_areas[x].frames@[k]);
                }
            }
        }
        Ok(())
    }

    /// The position of a region that holds page `vpn`, if any.
    fn area_holding(&self, vpn: u64) -> (r: Option<usize>)
        ensures
            r is None <==> !self.maps_page(vpn),
            r matches Some(i) ==> i < self.areas().len() && holds_page(self.areas()[i as int], vpn),
    {
        let mut i: usize = 0;
        while i < self.areas.len()
            invariant
                i <= self.areas@.len(),
                forall|j: int| 0 <= j < i ==> !holds_page(#[trigger] self.areas@[j], vpn),
            decreases self.areas@.len() - i,
        {
            if self.areas[i].start_vpn <= vpn && vpn < self.areas[i].end_vpn {
                assert(holds_page(self.areas()[i as int], vpn));
                return Some(i);
            }
            i = i + 1;
        }
        None
    }

    /// Splits the region at position `i` in two at page `mid`: the lower
    /// part stays at `i`, the upper part follows it. Every page keeps its
    /// frame and permission.
    #[verifier::rlimit(60)]
    fn split_at(&mut self, i: usize, mid: u64)
        requires
            old(self).wf(),
            i < old(self).areas().len(),
            old(self).areas()[i as int].start_vpn < mid < old(self).areas()[i as int].end_vpn,
        ensures
            final(self).wf(),
            final(self).areas().len() == old(self).areas().len() + 1,
            final(self).areas()[i as int].start_vpn == old(self).areas()[i as int].start_vpn,
            final(self).areas()[i as int].end_vpn == mid,
            final(self).areas()[i + 1].start_vpn == mid,
            final(self).areas()[i + 1].end_vpn == old(self).areas()[i as int].end_vpn,
            forall|v: u64, f: u64, p: MapPermission|
                #![trigger page_entry(*final(self), v, f, p)]
                #![trigger page_entry(*old(self), v, f, p)]
                page_entry(*final(self), v, f, p) <==> page_entry(*old(self), v, f, p),
            forall|f: u64| #[trigger] final(self).holds_frame(f) <==> old(self).holds_frame(f),
            forall|v: u64| #[trigger] final(self).maps_page(v) <==> old(self).maps_page(v),
    {
        let ghost o = self.areas@;
        let mut a = self.areas.remove(i);
        proof {
            assert(a == o[i as int]);
            assert(area_ok(a));
        }
        let k = (mid - a.start_vpn) as usize;
        let tail = a.frames.split_off(k);
        let right = MapArea { start_vpn: mid, end_vpn: a.end_vpn, perm: a.perm, frames: tail };
        a.end_vpn = mid;
        self.areas.insert(i, right);
        self.areas.insert(i, a);
        proof {
            let n = self.areas@;
            let a0 = o[i as int];
            let kk = k as int;
            assert(a.frames@ == a0.frames@.subrange(0, kk));
            assert(right.frames@ == a0.frames@.subrange(kk, a0.frames@.len() as int));
            assert(n.len() == o.len() + 1);
            assert(n[i as int] == a && n[i + 1] == right);
            assert forall|x: int| 0 <= x < i implies #[trigger] n[x] == o[x] by {}
            assert forall|x: int| i + 1 < x < n.len() implies #[trigger] n[x] == o[x - 1] by {}
            // where each page of the new set comes from
            let src = |x: int| if x <= i { x } else { x - 1 };
            let off = |x: int| if x == i + 1 { kk } else { 0 };
            assert forall|x: int, q: int| 0 <= x < n.len() && 0 <= q < n[x].frames@.len()
                implies #[trigger] n[x].frames@[q] == o[src(x)].frames@[q + off(x)] && 0 <= q + off(x) < o[src(x)].frames@.len() by {
                if x < i {} else if x == i {} else if x == i + 1 {} else {}
            }
            assert forall|x: int| 0 <= x < n.len() implies n[x].start_vpn - o[src(x)].start_vpn == off(x)
                && o[src(x)].start_vpn <= #[trigger] n[x].start_vpn && n[x].end_vpn <= o[src(x)].end_vpn
                && n[x].perm == o[src(x)].perm && 0 <= src(x) < o.len() by {
                if x < i {} else if x == i {} else if x == i + 1 {} else {}
            }
            assert forall|x: int| 0 <= x < n.len() implies area_ok(#[trigger] n[x]) by {
                assert(area_ok(o[src(x)]));
                assert forall|q: int| 0 <= q < n[x].frames@.len() implies #[trigger] n[x].frames@[q] < PPN_LIMIT by {
                    assert(n[x].frames@[q] == o[src(x)].frames@[q + off(x)]);
                }
            }
            assert forall|x: int, y: int| 0 <= x < n.len() && 0 <= y < n.len() && x != y
                implies !meets(#[trigger] n[x], n[y].start_vpn, #[trigger] n[y].end_vpn) by {
                if src(x) != src(y) {
                    assert(!meets(o[src(x)], o[src(y)].start_vpn, o[src(y)].end_vpn));
                }
            }
            assert forall|x: int, q: int, y: int, l: int|
                0 <= x < n.len() && 0 <= y < n.len() && 0 <= q < n[x].frames@.len()
                    && 0 <= l < n[y].frames@.len() && (x != y || q != l)
                implies #[trigger] n[x].frames@[q] != #[trigger] n[y].frames@[l] by {
                assert(n[x].frames@[q] == o[src(x)].frames@[q + off(x)]);
                assert(n[y].frames@[l] == o[src(y)].frames@[l + off(y)]);
            }
            assert forall|v: u64, f: u64, p: MapPermission|
                #![trigger page_entry(*self, v, f, p)]
                #![trigger page_entry(*old(self), v, f, p)]
                page_entry(*self, v, f, p) <==> page_entry(*old(self), v, f, p) by {
                if page_entry(*self, v, f, p) {
                    let x = choose|x: int| 0 <= x < n.len() && #[trigger] holds_page(n[x], v) && n[x].frames@[v
                        - n[x].start_vpn] == f && n[x].perm == p;
                    let y = src(x);
                    assert(n[x].start_vpn - o[y].start_vpn == off(x) && n[x].perm == o[y].perm);
                    assert(n[x].frames@[v - n[x].start_vpn] == o[y].frames@[v - n[x].start_vpn + off(x)]);
                    assert(holds_page(o[y], v));
                    assert(o[y].frames@[v - o[y].start_vpn] == f);
                    assert(old(self).areas()[y] == o[y]);
                    assert(page_entry(*old(self), v, f, p));
                }
                if page_entry(*old(self), v, f, p) {
                    let y = choose|y: int| 0 <= y < o.len() && #[trigger] holds_page(o[y], v) && o[y].frames@[v
                        - o[y].start_vpn] == f && o[y].perm == p;
                    let x = if y < i { y } else if y > i { y + 1 } else if v < mid { i as int } else { i + 1 };
                    assert(src(x) == y);
                    assert(n[x].start_vpn - o[y].start_vpn == off(x) && n[x].perm == o[y].perm);
                    assert(holds_page(n[x], v));
                    assert(n[x].frames@[v - n[x].start_vpn] == o[src(x)].frames@[v - n[x].start_vpn + off(x)]);
                    assert(n[x].frames@[v - n[x].start_vpn] == f);
                    assert(self.areas()[x] == n[x]);
                    assert(page_entry(*self, v, f, p));
                }
            }
            assert forall|v: u64| #[trigger] self.maps_page(v) <==> old(self).maps_page(v) by {
                if self.maps_page(v) {
                    let x = choose|x: int| 0 <= x < n.len() && holds_page(#[trigger] n[x], v);
                    assert(n[x].start_vpn - o[src(x)].start_vpn == off(x));
                    assert(holds_page(o[src(x)], v));
                    assert(old(self).areas()[src(x)] == o[src(x)]);
                }
                if old(self).maps_page(v) {
                    let y = choose|y: int| 0 <= y < o.len() && holds_page(#[trigger] o[y], v);
                    let x = if y < i { y } else if y > i { y + 1 } else if v < mid { i as int } else { i + 1 };
                    assert(n[x].start_vpn - o[src(x)].start_vpn == off(x));
                    assert(holds_page(n[x], v));
                    assert(self.areas()[x] == n[x]);
                }
            }
            assert forall|f: u64| #[trigger] self.holds_frame(f) <==> old(self).holds_frame(f) by {
                if self.holds_frame(f) {
                    let (x, q) = choose|x: int, q: int| 0 <= x < n.len() && 0 <= q < n[x].frames@.len()
                        && #[trigger] n[x].frames@[q] == f;
                    assert(n[x].frames@[q] == o[src(x)].frames@[q + off(x)]);
                    assert(old(self).areas()[src(x)] == o[src(x)]);
                    assert(old(self).areas()[src(x)].frames@[q + off(x)] == f);
                }
                if old(self).holds_frame(f) {
                    let (y, l) = choose|y: int, l: int| 0 <= y < o.len() && 0 <= l < o[y].frames@.len()
                        && #[trigger] o[y].frames@[l] == f;
                    let x = if y < i { y } else if y > i { y + 1 } else if l < kk { i as int } else { i + 1 };
                    let q = if x == i + 1 { l - kk } else { l };
                    assert(n[x].start_vpn - o[src(x)].start_vpn == off(x));
                    assert(0 <= q < n[x].frames@.len());
                    assert(n[x].frames@[q] == o[src(x)].frames@[q + off(x)]);
                    assert(self.areas()[x] == n[x]);
                    assert(self.areas()[x].frames@[q] == f);
                }
            }
        }
    }

    /// Takes `n` distinct free frames from the allocator, or none at all
    /// when fewer are free.
    fn alloc_frames(frames: &mut FrameAllocator, n: u64) -> (r: Option<Vec<u64>>)
        requires
            old(frames).wf(),
        ensures
            final(frames).wf(),
            r is Some <==> old(frames).available() >= n,
            r is None ==> final(frames).allocated() == old(frames).allocated()
                && final(frames).available() == old(frames).available(),
            r matches Some(got) ==> {
                &&& got@.len() == n
                &&& got@.no_duplicates()
                &&& forall|k: int| 0 <= k < got@.len() ==> #[trigger] got@[k] < PPN_LIMIT
                &&& forall|k: int| 0 <= k < got@.len() ==> !old(frames).allocated().contains(#[trigger] got@[k])
                &&& final(frames).allocated() == old(frames).allocated().union(got@.to_set())
                &&& final(frames).available() == old(frames).available() - n
            },
    {
        let ghost alloc0 = frames.allocated();
        let ghost avail0 = frames.available();
        let mut got: Vec<u64> = Vec::new();
        let mut c: u64 = 0;
        while c < n
            invariant
                c <= n,
                got@.len() == c,
                alloc0 == old(frames).allocated(),
                avail0 == old(frames).available(),
                frames.wf(),
                frames.allocated() == alloc0.union(got@.to_set()),
                frames.available() == avail0 - got@.len(),
                got@.no_duplicates(),
                forall|k: int| 0 <= k < got@.len() ==> #[trigger] got@[k] < PPN_LIMIT,
                forall|k: int| 0 <= k < got@.len() ==> !alloc0.contains(#[trigger] got@[k]),
            decreases n - c,
        {
            match frames.alloc_frame() {
                Some(f) => {
                    let ghost prev = got@;
                    proof {
                        assert(!prev.contains(f));
                        prev.lemma_push_to_set_commute(f);
                    }
                    got.push(f);
                    proof {
                        assert(got@ == prev.push(f));
                        assert forall|i: int, j: int|
                            0 <= i < got@.len() && 0 <= j < got@.len() && i != j
                            implies got@[i] != got@[j] by {
                            if j == got@.len() - 1 {
                                assert(prev.contains(prev[i]));
                            } else if i == got@.len() - 1 {
                                assert(prev.contains(prev[j]));
                            } else {
                                assert(prev[i] != prev[j]);
                            }
                        }
                    }
                },
                None => {
                    Self::give_back(frames, &mut got, Ghost(alloc0));
                    return None;
                },
            }
            c = c + 1;
        }
        Some(got)
    }

    /// Returns to the allocator the frames of a mapping that could not be
    /// completed.
    fn give_back(frames: &mut FrameAllocator, got: &mut Vec<u64>, alloc0: Ghost<Set<u64>>)
        requires
            old(frames).wf(),
            old(frames).allocated() == alloc0@.union(old(got)@.to_set()),
            old(got)@.no_duplicates(),
            forall|k: int| 0 <= k < old(got)@.len() ==> !alloc0@.contains(#[trigger] old(got)@[k]),
        ensures
            final(frames).wf(),
            final(frames).allocated() == alloc0@,
            final(frames).available() == old(frames).available() + old(got)@.len(),
    {
        let ghost avail0 = frames.available();
        let ghost n0 = got@.len();
        while got.len() > 0
            invariant
                frames.wf(),
                frames.allocated() == alloc0@.union(got@.to_set()),
                got@.no_duplicates(),
                forall|k: int| 0 <= k < got@.len() ==> !alloc0@.contains(#[trigger] got@[k]),
                frames.available() == avail0 + (n0 - got@.len()),
                got@.len() <= n0,
            decreases got@.len(),
        {
            let ghost before = got@;
            let f = got.pop().unwrap();
            proof {
                assert(before =~= got@.push(f));
                got@.lemma_push_to_set_commute(f);
                assert(!got@.contains(f)) by {
                    if got@.contains(f) {
                        let k = choose|k: int| 0 <= k < got@.len() && got@[k] == f;
                        assert(before[k] == before[before.len() - 1]);
                    }
                }
                assert(before.to_set().contains(f));
                assert(got@.to_set() =~= before.to_set().remove(f));
                assert forall|k: int| 0 <= k < got@.len() implies !alloc0@.contains(#[trigger] got@[k]) by {
                    assert(got@[k] == before[k]);
                }
                assert forall|i: int, j: int|
                    0 <= i < got@.len() && 0 <= j < got@.len() && i != j
                    implies got@[i] != got@[j] by {
                    assert(got@[i] == before[i] && got@[j] == before[j]);
                }
            }
            frames.dealloc_frame(f);
            proof {
                assert(frames.allocated() =~= alloc0@.union(got@.to_set()));
            }
        }
        proof {
            assert(got@.to_set() =~= Set::<u64>::empty());
            assert(frames.allocated() =~= alloc0@);
        }
    }
}

/// Dropping a region keeps the rest well formed.
pub proof fn lemma_remove_keeps_wf(areas: Seq<MapArea>, i: int)
    requires
        areas_wf(areas),
        0 <= i < areas.len(),
    ensures
        areas_wf(areas.remove(i)),
{
    let r = areas.remove(i);
    assert forall|j: int| 0 <= j < r.len() implies r[j] == areas[if j < i { j } else { j + 1 }] by {}
    assert forall|j: int| 0 <= j < r.len() implies area_ok(#[trigger] r[j]) by {
        assert(r[j] == areas[if j < i { j } else { j + 1 }]);
    }
    assert forall|a: int, b: int|
        0 <= a < r.len() && 0 <= b < r.len() && a != b
        implies !meets(#[trigger] r[a], r[b].start_vpn, #[trigger] r[b].end_vpn) by {
        let a2 = if a < i { a } else { a + 1 };
        let b2 = if b < i { b } else { b + 1 };
        assert(r[a] == areas[a2] && r[b] == areas[b2]);
    }
    assert forall|a: int, k: int, b: int, l: int|
        0 <= a < r.len() && 0 <= b < r.len() && 0 <= k < r[a].frames@.len()
            && 0 <= l < r[b].frames@.len() && (a != b || k != l)
        implies #[trigger] r[a].frames@[k] != #[trigger] r[b].frames@[l] by {
        let a2 = if a < i { a } else { a + 1 };
        let b2 = if b < i { b } else { b + 1 };
        assert(r[a] == areas[a2] && r[b] == areas[b2]);
    }
}

/// Addresses in one page, from `a` on, share its page number.
proof fn lemma_same_page(a: u64, b: u64, l: u64)
    requires
        a % PAGE_SIZE + l <= PAGE_SIZE,
        a <= b < a + l,
    ensures
        vpn_floor(b) == vpn_floor(a),
{
    assert(b / 4096 == a / 4096) by (nonlinear_arith)
        requires a % 4096 + l <= 4096, a <= b, b < a + l;
}

/// In a well-formed set at most one region starts at a given page.
pub proof fn lemma_region_unique(ms: VirtualMemorySet, i: int)
    requires
        ms.wf(),
        0 <= i < ms.areas().len(),
    ensures
        has_region_at(ms, ms.areas()[i].start_vpn),
        region_at(ms, ms.areas()[i].start_vpn) == i,
{
    let s = ms.areas()[i].start_vpn;
    assert(ms.areas()[i].start_vpn == s);
    let j = region_at(ms, s);
    if j != i {
        assert(area_ok(ms.areas()[i]) && area_ok(ms.areas()[j]));
        assert(meets(ms.areas()[j], ms.areas()[i].start_vpn, ms.areas()[i].end_vpn));
    }
}

/// Dropping a whole region unmaps exactly its pages and frees exactly its
/// frames.
proof fn lemma_remove_area_pages(ms0: VirtualMemorySet, ms1: VirtualMemorySet, i: int)
    requires
        ms0.wf(),
        0 <= i < ms0.areas().len(),
        ms1.areas() == ms0.areas().remove(i),
    ensures
        pages_cut(ms0, ms1, ms0.areas()[i].start_vpn, ms0.areas()[i].end_vpn),
        frames_in(ms0, ms0.areas()[i].start_vpn, ms0.areas()[i].end_vpn) == ms0.areas()[i].frames@.to_set(),
{
    let a = ms0.areas()[i];
    let o = ms0.areas();
    let n = ms1.areas();
    assert(area_ok(a));
    assert forall|x: int| 0 <= x < n.len() implies #[trigger] n[x] == o[if x < i { x } else { x + 1 }] by {}
    assert forall|v: u64, f: u64, p: MapPermission|
        !(a.start_vpn <= v < a.end_vpn) implies (page_entry(ms1, v, f, p) <==> page_entry(ms0, v, f, p)) by {
        if page_entry(ms1, v, f, p) {
            let x = choose|x: int| 0 <= x < n.len() && #[trigger] holds_page(n[x], v) && n[x].frames@[v
                - n[x].start_vpn] == f && n[x].perm == p;
            let y = if x < i { x } else { x + 1 };
            assert(n[x] == o[y]);
            assert(holds_page(o[y], v));
        }
        if page_entry(ms0, v, f, p) {
            let y = choose|y: int| 0 <= y < o.len() && #[trigger] holds_page(o[y], v) && o[y].frames@[v
                - o[y].start_vpn] == f && o[y].perm == p;
            assert(y != i);
            let x = if y < i { y } else { y - 1 };
            assert(n[x] == o[y]);
            assert(holds_page(n[x], v));
        }
    }
    assert forall|v: u64| a.start_vpn <= v < a.end_vpn implies !#[trigger] ms1.maps_page(v) by {
        if ms1.maps_page(v) {
            let x = choose|x: int| 0 <= x < n.len() && holds_page(#[trigger] n[x], v);
            let y = if x < i { x } else { x + 1 };
            assert(n[x] == o[y]);
            assert(meets(o[y], a.start_vpn, a.end_vpn));
        }
    }
    assert(frames_in(ms0, a.start_vpn, a.end_vpn) =~= a.frames@.to_set()) by {
        assert forall|f: u64| frames_in(ms0, a.start_vpn, a.end_vpn).contains(f) <==> #[trigger] a.frames@.to_set().contains(f) by {
            if frames_in(ms0, a.start_vpn, a.end_vpn).contains(f) {
                let (v, p) = choose|v: u64, p: MapPermission| a.start_vpn <= v < a.end_vpn && #[trigger] page_entry(ms0, v, f, p);
                let y = choose|y: int| 0 <= y < o.len() && #[trigger] holds_page(o[y], v) && o[y].frames@[v
                    - o[y].start_vpn] == f && o[y].perm == p;
                if y != i {
                    assert(meets(o[y], a.start_vpn, a.end_vpn));
                }
                assert(a.frames@[v - a.start_vpn] == f);
            }
            if a.frames@.to_set().contains(f) {
                let k = choose|k: int| 0 <= k < a.frames@.len() && a.frames@[k] == f;
                let v = (a.start_vpn + k) as u64;
                assert(holds_page(o[i], v));
                assert(page_entry(ms0, v, f, a.perm));
            }
        }
    }
}

/// In a well-formed set a page is mapped exactly when it has an entry.
proof fn lemma_maps_entry(ms: VirtualMemorySet, v: u64)
    requires
        ms.wf(),
    ensures
        ms.maps_page(v) <==> exists|f: u64, p: MapPermission| page_entry(ms, v, f, p),
{
    if ms.maps_page(v) {
        let i = choose|i: int| 0 <= i < ms.areas().len() && holds_page(#[trigger] ms.areas()[i], v);
        assert(area_ok(ms.areas()[i]));
        let a = ms.areas()[i];
        assert(page_entry(ms, v, a.frames@[v - a.start_vpn], a.perm));
    }
}

/// Two sets backed by the same frames are held and kept apart alike.
proof fn lemma_same_frames(x: VirtualMemorySet, y: VirtualMemorySet, held: Set<u64>)
    requires
        forall|f: u64| #[trigger] y.holds_frame(f) <==> x.holds_frame(f),
        x.frames_within(held),
    ensures
        y.frames_within(held),
{
    assert forall|i: int, k: int|
        0 <= i < y.areas().len() && 0 <= k < y.areas()[i].frames@.len()
        implies held.contains(#[trigger] y.areas()[i].frames@[k]) by {
        let f = y.areas()[i].frames@[k];
        assert(y.holds_frame(f));
        let (j, l) = choose|j: int, l: int| 0 <= j < x.areas().len() && 0 <= l < x.areas()[j].frames@.len()
            && #[trigger] x.areas()[j].frames@[l] == f;
    }
}

/// Two sets backed by the same frames are apart from the same sets.
proof fn lemma_same_frames_apart(x: VirtualMemorySet, y: VirtualMemorySet, b: VirtualMemorySet)
    requires
        forall|f: u64| #[trigger] y.holds_frame(f) <==> x.holds_frame(f),
        frames_apart(x, b),
    ensures
        frames_apart(y, b),
{
    assert forall|i: int, k: int, j: int, l: int|
        0 <= i < y.areas().len() && 0 <= k < y.areas()[i].frames@.len() && 0 <= j < b.areas().len()
            && 0 <= l < b.areas()[j].frames@.len()
        implies #[trigger] y.areas()[i].frames@[k] != #[trigger] b.areas()[j].frames@[l] by {
        let f = y.areas()[i].frames@[k];
        assert(y.holds_frame(f));
        let (i2, k2) = choose|i2: int, k2: int| 0 <= i2 < x.areas().len() && 0 <= k2 < x.areas()[i2].frames@.len()
            && #[trigger] x.areas()[i2].frames@[k2] == f;
        assert(x.areas()[i2].frames@[k2] != b.areas()[j].frames@[l]);
    }
}

/// Cutting `[s, v)`, then regrouping regions without touching any page,
/// then cutting `[v, cut)` cuts `[s, cut)`.
proof fn lemma_cut_compose(
    ms0: VirtualMemorySet,
    x: VirtualMemorySet,
    y: VirtualMemorySet,
    z: VirtualMemorySet,
    s: u64,
    v: u64,
    cut: u64,
)
    requires
        x.wf(),
        y.wf(),
        z.wf(),
        s <= v <= cut,
        pages_cut(ms0, x, s, v),
        forall|w: u64, f: u64, p: MapPermission|
            #![trigger page_entry(y, w, f, p)]
            #![trigger page_entry(x, w, f, p)]
            page_entry(y, w, f, p) <==> page_entry(x, w, f, p),
        forall|w: u64| #[trigger] y.maps_page(w) <==> x.maps_page(w),
        pages_cut(y, z, v, cut),
    ensures
        pages_cut(ms0, z, s, cut),
        frames_in(y, v, cut) == frames_in(ms0, v, cut),
        frames_in(ms0, s, v).union(frames_in(ms0, v, cut)) == frames_in(ms0, s, cut),
{
    assert forall|w: u64| s <= w < cut implies !#[trigger] z.maps_page(w) by {
        if w >= v {
        } else {
            lemma_maps_entry(z, w);
            lemma_maps_entry(x, w);
            if z.maps_page(w) {
                let (f, p) = choose|f: u64, p: MapPermission| page_entry(z, w, f, p);
                assert(page_entry(y, w, f, p));
                assert(page_entry(x, w, f, p));
            }
        }
    }
    assert forall|w: u64, f: u64, p: MapPermission|
        !(s <= w < cut) implies (#[trigger] page_entry(z, w, f, p) <==> page_entry(ms0, w, f, p)) by {
        assert(page_entry(z, w, f, p) <==> page_entry(y, w, f, p));
        assert(page_entry(y, w, f, p) <==> page_entry(x, w, f, p));
        assert(page_entry(x, w, f, p) <==> page_entry(ms0, w, f, p));
    }
    assert(frames_in(y, v, cut) =~= frames_in(ms0, v, cut)) by {
        assert forall|f: u64| #[trigger] frames_in(y, v, cut).contains(f) <==> frames_in(ms0, v, cut).contains(f) by {
            if frames_in(y, v, cut).contains(f) {
                let (w, p) = choose|w: u64, p: MapPermission| v <= w < cut && #[trigger] page_entry(y, w, f, p);
                assert(page_entry(x, w, f, p));
            }
            if frames_in(ms0, v, cut).contains(f) {
                let (w, p) = choose|w: u64, p: MapPermission| v <= w < cut && #[trigger] page_entry(ms0, w, f, p);
                assert(page_entry(x, w, f, p));
            }
        }
    }
    assert(frames_in(ms0, s, v).union(frames_in(ms0, v, cut)) =~= frames_in(ms0, s, cut)) by {
        assert forall|f: u64| #[trigger] frames_in(ms0, s, cut).contains(f) implies frames_in(ms0, s, v).union(frames_in(ms0, v, cut)).contains(f) by {
            let (w, p) = choose|w: u64, p: MapPermission| s <= w < cut && #[trigger] page_entry(ms0, w, f, p);
            if w < v {
                assert(frames_in(ms0, s, v).contains(f));
            } else {
                assert(frames_in(ms0, v, cut).contains(f));
            }
        }
    }
}

} // verus!
