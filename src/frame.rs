//! The physical frame allocator: hands out page frames by number and takes
//! them back, never handing out a frame that is still held.
use vstd::prelude::*;
use crate::config::PPN_LIMIT;

verus! {

/// A stack allocator over the frame numbers `[current, end)`, reusing
/// frames that were given back before touching fresh ones.
pub struct FrameAllocator {
    current: u64,
    end: u64,
    recycled: Vec<u64>,
    /// The frames handed out and not yet given back.
    outstanding: Ghost<Set<u64>>,
}

impl FrameAllocator {
    /// The frames handed out and not yet given back.
    pub closed spec fn allocated(&self) -> Set<u64> {
        self.outstanding@
    }

    /// How many frames can still be handed out.
    pub closed spec fn available(&self) -> nat {
        ((self.end - self.current) + self.recycled@.len()) as nat
    }

    pub closed spec fn wf(&self) -> bool {
        &&& self.current <= self.end <= PPN_LIMIT
        &&& self.recycled@.no_duplicates()
        &&& forall|i: int| 0 <= i < self.recycled@.len() ==> {
            &&& #[trigger] self.recycled@[i] < self.current
            &&& !self.outstanding@.contains(self.recycled@[i])
        }
        &&& forall|f: u64| #[trigger] self.outstanding@.contains(f) ==> f < self.current
        &&& self.outstanding@.finite()
    }

    /// An allocator over the frames `[start, end)` with none handed out.
    pub fn new(start: u64, end: u64) -> (r: Self)
        requires
            start <= end <= PPN_LIMIT,
        ensures
            r.wf(),
            r.allocated() == Set::<u64>::empty(),
            r.available() == end - start,
    {
        FrameAllocator {
            current: start,
            end,
            recycled: Vec::new(),
            outstanding: Ghost(Set::empty()),
        }
    }

    /// Hands out a frame that is not held, or `None` when all are held.
    pub fn alloc_frame(&mut self) -> (r: Option<u64>)
        requires
            old(self).wf(),
        ensures
            final(self).wf(),
            r is Some <==> old(self).available() > 0,
            r is Some ==> final(self).available() == old(self).available() - 1,
            r is None ==> final(self).available() == old(self).available(),
            match r {
                Some(f) => {
                    &&& !old(self).allocated().contains(f)
                    &&& f < PPN_LIMIT
                    &&& final(self).allocated() == old(self).allocated().insert(f)
                },
                None => final(self).allocated() == old(self).allocated(),
            },
    {
        if let Some(f) = self.recycled.pop() {
            proof {
                let old_rec = old(self).recycled@;
                assert(old_rec[old_rec.len() - 1] == f);
                assert(forall|i: int| 0 <= i < self.recycled@.len() ==> self.recycled@[i] == old_rec[i]);
                assert forall|i: int| 0 <= i < self.recycled@.len() implies self.recycled@[i] != f by {
                    assert(old_rec[i] != old_rec[old_rec.len() - 1]);
                }
            }
            self.outstanding = Ghost(self.outstanding@.insert(f));
            Some(f)
        } else if self.current < self.end {
            let f = self.current;
            self.current = self.current + 1;
            self.outstanding = Ghost(self.outstanding@.insert(f));
            Some(f)
        } else {
            None
        }
    }

    /// Takes back a frame that is held.
    pub fn dealloc_frame(&mut self, f: u64)
        requires
            old(self).wf(),
            old(self).allocated().contains(f),
        ensures
            final(self).wf(),
            final(self).allocated() == old(self).allocated().remove(f),
            final(self).available() == old(self).available() + 1,
    {
        proof {
            assert(!self.recycled@.contains(f));
        }
        self.recycled.push(f);
        self.outstanding = Ghost(self.outstanding@.remove(f));
        proof {
            let old_rec = old(self).recycled@;
            assert(self.recycled@ == old_rec.push(f));
            assert forall|i: int, j: int|
                0 <= i < self.recycled@.len() && 0 <= j < self.recycled@.len() && i != j
                implies self.recycled@[i] != self.recycled@[j] by {
                if i < old_rec.len() && j < old_rec.len() {
                } else if i < old_rec.len() {
                    assert(old_rec.contains(old_rec[i]));
                } else {
                    assert(old_rec.contains(old_rec[j]));
                }
            }
        }
    }
}

} // verus!
