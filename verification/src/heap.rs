//! Linear bump cursor behind the kernel's global allocator.

use vstd::prelude::*;

verus! {

/// Size of the static kernel heap the cursor manages.
pub const HEAP_SIZE: usize = 262144;

/// `v` rounded up to the next multiple of `a`.
pub open spec fn spec_align_up(v: int, a: int) -> int
    recommends
        a >= 1,
{
    ((v + a - 1) / a) * a
}

/// Rounding up lands on a multiple, at or above `v`, less than `v + a`.
pub proof fn lemma_align_up_bounds(v: int, a: int)
    requires
        v >= 0,
        a >= 1,
    ensures
        spec_align_up(v, a) >= v,
        spec_align_up(v, a) % a == 0,
        spec_align_up(v, a) < v + a,
{
    assert(spec_align_up(v, a) >= v && spec_align_up(v, a) % a == 0 && spec_align_up(v, a) < v
        + a) by (nonlinear_arith)
        requires
            v >= 0 && a >= 1,
    ;
}

/// Internal state of the linear allocator: it hands out addresses from
/// `next` forward and never frees.
pub struct BumpCursor {
    start: usize,
    end: usize,
    next: usize,
}

impl BumpCursor {
    pub closed spec fn spec_start(&self) -> usize {
        self.start
    }

    pub closed spec fn spec_end(&self) -> usize {
        self.end
    }

    pub closed spec fn spec_next(&self) -> usize {
        self.next
    }

    pub open spec fn wf(&self) -> bool {
        self.spec_start() <= self.spec_next() <= self.spec_end()
    }

    /// An empty cursor that cannot serve anything until `init`.
    pub fn new() -> (r: BumpCursor)
        ensures
            r.wf(),
            r.spec_start() == 0,
            r.spec_end() == 0,
            r.spec_next() == 0,
    {
        BumpCursor { start: 0, end: 0, next: 0 }
    }

    /// Hands the cursor the heap range `[start, start + size)`.
    pub fn init(&mut self, start: usize, size: usize)
        ensures
            final(self).wf(),
            final(self).spec_start() == start,
            final(self).spec_next() == start,
            final(self).spec_end() == if start + size > usize::MAX {
                usize::MAX
            } else {
                (start + size) as usize
            },
    {
        self.start = start;
        self.end = if size > usize::MAX - start {
            usize::MAX
        } else {
            start + size
        };
        self.next = start;
    }

    /// Serves one block of `size` bytes aligned to `align`: the lowest
    /// aligned address at or after the cursor, if the block still fits
    /// before `end`; never anything overlapping an earlier block.
    pub fn alloc_bytes(&mut self, size: usize, align: usize) -> (r: Option<usize>)
        requires
            old(self).wf(),
            align >= 1,
        ensures
            final(self).wf(),
            final(self).spec_start() == old(self).spec_start(),
            final(self).spec_end() == old(self).spec_end(),
            match r {
                Some(addr) => {
                    &&& addr == spec_align_up(old(self).spec_next() as int, align as int)
                    &&& addr as int % (align as int) == 0
                    &&& addr >= old(self).spec_next()
                    &&& addr + size <= old(self).spec_end()
                    &&& final(self).spec_next() == addr + size
                },
                None => {
                    &&& *final(self) == *old(self)
                    &&& spec_align_up(old(self).spec_next() as int, align as int) + size > old(
                        self,
                    ).spec_end()
                },
            },
    {
        proof {
            lemma_align_up_bounds(self.next as int, align as int);
        }
        let rem: usize = self.next % align;
        let aligned: usize = if rem == 0 {
            self.next
        } else if self.next <= usize::MAX - (align - rem) {
            self.next + (align - rem)
        } else {
            proof {
                assert(spec_align_up(self.next as int, align as int) == self.next + (align - rem))
                    by (nonlinear_arith)
                    requires
                        align >= 1,
                        rem == self.next as int % align as int,
                        rem != 0,
                ;
            }
            return None;
        };
        proof {
            assert(aligned == spec_align_up(self.next as int, align as int))
                by (nonlinear_arith)
                requires
                    align >= 1,
                    rem == self.next as int % align as int,
                    aligned == if rem == 0 {
                        self.next as int
                    } else {
                        self.next + (align - rem)
                    },
            ;
        }
        if size > usize::MAX - aligned {
            return None;
        }
        let limit: usize = aligned + size;
        if limit > self.end {
            return None;
        }
        self.next = limit;
        Some(aligned)
    }
}

/// Two blocks served one after the other never overlap: the second begins
/// at or after the end of the first.
pub proof fn lemma_heap_blocks_disjoint(
    next0: int,
    size1: int,
    align1: int,
    size2: int,
    align2: int,
)
    requires
        next0 >= 0,
        size1 >= 0,
        align1 >= 1,
        align2 >= 1,
    ensures
        ({
            let a1 = spec_align_up(next0, align1);
            let a2 = spec_align_up(a1 + size1, align2);
            a1 % align1 == 0 && a2 % align2 == 0 && a1 + size1 <= a2
        }),
{
    lemma_align_up_bounds(next0, align1);
    let a1 = spec_align_up(next0, align1);
    lemma_align_up_bounds(a1 + size1, align2);
}

} // verus!
