use vstd::prelude::*;

verus! {

/// Allocation counters: the largest single allocation, the peak and current
/// number of live bytes, and whether more bytes were freed than were live.
#[derive(Clone, Copy, Debug)]
pub struct AllocationStats {
    pub largest_allocation: usize,
    pub peak_live_bytes: usize,
    pub live_bytes: usize,
    pub invalid_deallocation: bool,
}

impl AllocationStats {
    /// The peak covers every live total and every single allocation.
    pub open spec fn wf(&self) -> bool {
        &&& self.live_bytes <= self.peak_live_bytes
        &&& self.largest_allocation <= self.peak_live_bytes
    }

    /// Counters with nothing recorded.
    pub fn new() -> (r: Self)
        ensures
            r.largest_allocation == 0,
            r.peak_live_bytes == 0,
            r.live_bytes == 0,
            !r.invalid_deallocation,
            r.wf(),
    {
        AllocationStats {
            largest_allocation: 0,
            peak_live_bytes: 0,
            live_bytes: 0,
            invalid_deallocation: false,
        }
    }

    /// Record an allocation of `size` bytes.
    pub fn allocated(&mut self, size: usize)
        requires
            old(self).live_bytes + size <= usize::MAX,
        ensures
            final(self).largest_allocation == if size > old(self).largest_allocation {
                size
            } else {
                old(self).largest_allocation
            },
            final(self).live_bytes == old(self).live_bytes + size,
            final(self).peak_live_bytes == if final(self).live_bytes > old(self).peak_live_bytes {
                final(self).live_bytes
            } else {
                old(self).peak_live_bytes
            },
            final(self).invalid_deallocation == old(self).invalid_deallocation,
            old(self).wf() ==> final(self).wf(),
    {
        if size > self.largest_allocation {
            self.largest_allocation = size;
        }
        self.live_bytes = self.live_bytes + size;
        if self.live_bytes > self.peak_live_bytes {
            self.peak_live_bytes = self.live_bytes;
        }
    }

    /// Record that `size` bytes were freed; freeing more than is live is
    /// remembered instead of counted.
    pub fn freed(&mut self, size: usize)
        ensures
            final(self).largest_allocation == old(self).largest_allocation,
            final(self).peak_live_bytes == old(self).peak_live_bytes,
            size <= old(self).live_bytes ==> final(self).live_bytes == old(self).live_bytes - size
                && final(self).invalid_deallocation == old(self).invalid_deallocation,
            size > old(self).live_bytes ==> final(self).live_bytes == old(self).live_bytes
                && final(self).invalid_deallocation,
            old(self).wf() ==> final(self).wf(),
    {
        if size <= self.live_bytes {
            self.live_bytes = self.live_bytes - size;
        } else {
            self.invalid_deallocation = true;
        }
    }
}

} // verus!
