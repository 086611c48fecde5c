//! Bump-style physical frame allocator over the firmware memory map.

use vstd::prelude::*;

verus! {

/// Size of a physical frame.
pub const FRAME_SIZE: u64 = 4096;
/// Lowest address the kernel hands out, to stay clear of low memory.
pub const MIN_ALLOCATABLE_ADDR: u64 = 0x20_0000;

/// One firmware memory-map record; `entry_type == 1` means usable RAM.
#[derive(Clone, Copy, Debug, PartialEq, Eq, Structural)]
pub struct MemoryMapEntry {
    pub base: u64,
    pub length: u64,
    pub entry_type: u32,
    pub acpi_extended_attributes: u32,
}

/// A 4096-byte aligned physical frame.
#[derive(Clone, Copy, Debug, PartialEq, Eq, Structural)]
pub struct PhysicalFrame {
    pub start: u64,
}

/// Counters the `mem` shell command shows.
#[derive(Clone, Copy, Debug, PartialEq, Eq, Structural)]
pub struct FrameStats {
    pub total_frames: u64,
    pub allocated_frames: u64,
    pub free_frames: u64,
}

/// `a + b` stopping at the top of `u64`.
pub open spec fn sat_add_u64(a: u64, b: u64) -> int {
    if a + b > u64::MAX {
        u64::MAX as int
    } else {
        a + b
    }
}

/// `v` rounded up to the next frame boundary.
pub open spec fn spec_align4k(v: int) -> int {
    ((v + 4095) / 4096) * 4096
}

pub open spec fn spec_max(a: int, b: int) -> int {
    if a >= b {
        a
    } else {
        b
    }
}

/// Whether memory-map record `r` can serve frames at all.
pub open spec fn region_usable(r: MemoryMapEntry) -> bool {
    r.entry_type == 1 && r.length > 0
}

/// The allocator's cursor: `(idx, next, end)`. While `next < end`, the
/// cursor sits inside usable region `idx - 1`, clipped to `min`.
pub open spec fn cursor_ok(
    regions: Seq<MemoryMapEntry>,
    min: u64,
    idx: int,
    next: u64,
    end: u64,
) -> bool {
    &&& 0 <= idx <= regions.len()
    &&& next <= end
    &&& (next < end ==> {
        &&& 1 <= idx
        &&& region_usable(regions[idx - 1])
        &&& end == sat_add_u64(regions[idx - 1].base, regions[idx - 1].length)
        &&& next >= regions[idx - 1].base
        &&& next >= min
    })
}

/// What allocating yields when the cursor must move to region `idx` or
/// beyond: the new cursor and the frame, if any region still has room.
pub open spec fn spec_alloc_from(regions: Seq<MemoryMapEntry>, min: u64, idx: int) -> (
    int,
    u64,
    u64,
    Option<u64>,
)
    decreases regions.len() - idx,
{
    if idx < 0 || idx >= regions.len() {
        (regions.len() as int, 0u64, 0u64, None)
    } else {
        let r = regions[idx];
        if !region_usable(r) {
            spec_alloc_from(regions, min, idx + 1)
        } else {
            let start = spec_max(r.base as int, min as int);
            let end = sat_add_u64(r.base, r.length);
            if start >= end {
                spec_alloc_from(regions, min, idx + 1)
            } else {
                let frame = spec_align4k(start);
                if frame + 4096 <= end {
                    (idx + 1, (frame + 4096) as u64, end as u64, Some(frame as u64))
                } else {
                    spec_alloc_from(regions, min, idx + 1)
                }
            }
        }
    }
}

/// What one `alloc` call yields from the cursor `(idx, next, end)`.
pub open spec fn spec_alloc_step(
    regions: Seq<MemoryMapEntry>,
    min: u64,
    idx: int,
    next: u64,
    end: u64,
) -> (int, u64, u64, Option<u64>) {
    if next < end {
        let frame = spec_align4k(next as int);
        if frame + 4096 <= end {
            (idx, (frame + 4096) as u64, end, Some(frame as u64))
        } else {
            spec_alloc_from(regions, min, idx)
        }
    } else {
        spec_alloc_from(regions, min, idx)
    }
}

/// The memory map lists its usable regions in ascending, non-overlapping
/// order.
pub open spec fn regions_sorted(regions: Seq<MemoryMapEntry>) -> bool {
    forall|i: int, j: int|
        0 <= i < j < regions.len() ==> sat_add_u64(
            (#[trigger] regions[i]).base,
            regions[i].length,
        ) <= (#[trigger] regions[j]).base
}

proof fn lemma_align4k_bounds(v: int)
    requires
        v >= 0,
    ensures
        spec_align4k(v) >= v,
        spec_align4k(v) % 4096 == 0,
        spec_align4k(v) < v + 4096,
{
    assert(spec_align4k(v) >= v && spec_align4k(v) % 4096 == 0 && spec_align4k(v) < v + 4096)
        by (nonlinear_arith)
        requires
            v >= 0,
    ;
}

/// When the region walk from `idx` on yields a frame, the frame is aligned,
/// at or above the floor, and the new cursor sits right after it inside one
/// usable region.
proof fn lemma_alloc_from_some(regions: Seq<MemoryMapEntry>, min: u64, idx: int)
    requires
        0 <= idx,
    ensures
        ({
            let (idx1, next1, end1, res) = spec_alloc_from(regions, min, idx);
            res matches Some(a) ==> {
                &&& a % 4096 == 0
                &&& a >= min
                &&& next1 == a + 4096
                &&& idx <= idx1 - 1 < regions.len()
                &&& region_usable(regions[idx1 - 1])
                &&& regions[idx1 - 1].base <= a
                &&& a + 4096 <= sat_add_u64(regions[idx1 - 1].base, regions[idx1 - 1].length)
                &&& end1 == sat_add_u64(regions[idx1 - 1].base, regions[idx1 - 1].length)
                &&& cursor_ok(regions, min, idx1, next1, end1)
            }
        }),
    decreases regions.len() - idx,
{
    if idx < regions.len() {
        let r = regions[idx];
        if region_usable(r) {
            let start = spec_max(r.base as int, min as int);
            let end = sat_add_u64(r.base, r.length);
            if start < end {
                lemma_align4k_bounds(start);
            }
        }
        lemma_alloc_from_some(regions, min, idx + 1);
    }
}

/// When one allocation step yields a frame, the frame is aligned, at or
/// above the floor, inside one usable region of the map, and the new cursor
/// sits right after it.
pub proof fn lemma_step_some(regions: Seq<MemoryMapEntry>, min: u64, idx: int, next: u64, end: u64)
    requires
        cursor_ok(regions, min, idx, next, end),
    ensures
        ({
            let (idx1, next1, end1, res) = spec_alloc_step(regions, min, idx, next, end);
            res matches Some(a) ==> {
                &&& a % 4096 == 0
                &&& a >= min
                &&& next1 == a + 4096
                &&& 1 <= idx1 <= regions.len()
                &&& region_usable(regions[idx1 - 1])
                &&& regions[idx1 - 1].base <= a
                &&& a + 4096 <= sat_add_u64(regions[idx1 - 1].base, regions[idx1 - 1].length)
                &&& end1 == sat_add_u64(regions[idx1 - 1].base, regions[idx1 - 1].length)
                &&& cursor_ok(regions, min, idx1, next1, end1)
            }
        }),
{
    if next < end {
        lemma_align4k_bounds(next as int);
        let frame = spec_align4k(next as int);
        if frame + 4096 <= end {
        } else {
            lemma_alloc_from_some(regions, min, idx);
        }
    } else {
        lemma_alloc_from_some(regions, min, idx);
    }
}

/// Every frame the allocator returns lies frame-aligned inside a usable
/// region of the memory map, at or above the allocation floor.
pub proof fn lemma_frame_in_usable_region(
    regions: Seq<MemoryMapEntry>,
    min: u64,
    idx: int,
    next: u64,
    end: u64,
)
    requires
        cursor_ok(regions, min, idx, next, end),
    ensures
        spec_alloc_step(regions, min, idx, next, end).3 matches Some(a) ==> {
            &&& a % 4096 == 0
            &&& a >= min
            &&& exists|j: int|
                0 <= j < regions.len() && region_usable(#[trigger] regions[j]) && regions[j].base
                    <= a && a + 4096 <= regions[j].base + regions[j].length
        },
{
    lemma_step_some(regions, min, idx, next, end);
    let (idx1, next1, end1, res) = spec_alloc_step(regions, min, idx, next, end);
    if res is Some {
        let a = res.unwrap();
        assert(region_usable(regions[idx1 - 1]) && regions[idx1 - 1].base <= a && a + 4096
            <= regions[idx1 - 1].base + regions[idx1 - 1].length);
    }
}

/// Over a sorted memory map, two successive allocations return strictly
/// increasing frame addresses.
pub proof fn lemma_alloc_monotonic(
    regions: Seq<MemoryMapEntry>,
    min: u64,
    idx: int,
    next: u64,
    end: u64,
)
    requires
        cursor_ok(regions, min, idx, next, end),
        regions_sorted(regions),
    ensures
        ({
            let (idx1, next1, end1, res1) = spec_alloc_step(regions, min, idx, next, end);
            let (idx2, next2, end2, res2) = spec_alloc_step(regions, min, idx1, next1, end1);
            res1 matches Some(a1) ==> res2 matches Some(a2) ==> a2 > a1
        }),
{
    let (idx1, next1, end1, res1) = spec_alloc_step(regions, min, idx, next, end);
    let (idx2, next2, end2, res2) = spec_alloc_step(regions, min, idx1, next1, end1);
    lemma_step_some(regions, min, idx, next, end);
    if res1 is Some && res2 is Some {
        let a1 = res1.unwrap();
        let a2 = res2.unwrap();
        lemma_step_some(regions, min, idx1, next1, end1);
        if next1 < end1 {
            let frame = spec_align4k(next1 as int);
            lemma_align4k_bounds(next1 as int);
            if frame + 4096 <= end1 {
                assert(a2 == frame >= next1);
            } else {
                lemma_alloc_from_some(regions, min, idx1);
                let (idx2b, _, _, _) = spec_alloc_from(regions, min, idx1);
                assert(sat_add_u64(regions[idx1 - 1].base, regions[idx1 - 1].length)
                    <= regions[idx2b - 1].base);
            }
        } else {
            lemma_alloc_from_some(regions, min, idx1);
            let (idx2b, _, _, _) = spec_alloc_from(regions, min, idx1);
            assert(sat_add_u64(regions[idx1 - 1].base, regions[idx1 - 1].length) <= regions[idx2b
                - 1].base);
        }
    }
}

/// Sequential iterator over allocatable frames in the usable regions.
pub struct FrameAllocator {
    regions: Vec<MemoryMapEntry>,
    region_index: usize,
    next_addr: u64,
    region_end: u64,
    min_addr: u64,
}

impl FrameAllocator {
    pub closed spec fn spec_regions(&self) -> Seq<MemoryMapEntry> {
        self.regions@
    }

    pub closed spec fn spec_min_addr(&self) -> u64 {
        self.min_addr
    }

    /// The cursor as the spec model sees it.
    pub closed spec fn spec_cursor(&self) -> (int, u64, u64) {
        (self.region_index as int, self.next_addr, self.region_end)
    }

    pub open spec fn wf(&self) -> bool {
        cursor_ok(
            self.spec_regions(),
            self.spec_min_addr(),
            self.spec_cursor().0,
            self.spec_cursor().1,
            self.spec_cursor().2,
        )
    }

    /// Positions the cursor on the next usable region at or after
    /// `region_index`; leaves an empty cursor when none is left.
    fn select_next_region(&mut self)
        requires
            old(self).spec_cursor().0 <= old(self).spec_regions().len(),
        ensures
            final(self).spec_regions() == old(self).spec_regions(),
            final(self).spec_min_addr() == old(self).spec_min_addr(),
            final(self).wf(),
            final(self).spec_cursor().1 < final(self).spec_cursor().2 ==> {
                &&& final(self).spec_cursor().0 > old(self).spec_cursor().0
                &&& spec_alloc_from(
                    old(self).spec_regions(),
                    old(self).spec_min_addr(),
                    old(self).spec_cursor().0,
                ) == spec_alloc_step(
                    final(self).spec_regions(),
                    final(self).spec_min_addr(),
                    final(self).spec_cursor().0,
                    final(self).spec_cursor().1,
                    final(self).spec_cursor().2,
                )
            },
            final(self).spec_cursor().1 >= final(self).spec_cursor().2 ==> {
                &&& final(self).spec_cursor() == (
                    old(self).spec_regions().len() as int,
                    0u64,
                    0u64,
                )
                &&& spec_alloc_from(
                    old(self).spec_regions(),
                    old(self).spec_min_addr(),
                    old(self).spec_cursor().0,
                ) == (old(self).spec_regions().len() as int, 0u64, 0u64, None::<u64>)
            },
    {
        let n: usize = self.regions.len();
        while self.region_index < n
            invariant
                n == self.spec_regions().len(),
                self.region_index <= n,
                self.region_index >= old(self).spec_cursor().0,
                spec_alloc_from(self.spec_regions(), self.min_addr, old(self).spec_cursor().0)
                    == spec_alloc_from(
                    self.spec_regions(),
                    self.min_addr,
                    self.region_index as int,
                ),
                self.spec_regions() == old(self).spec_regions(),
                self.min_addr == old(self).spec_min_addr(),
                self.next_addr == old(self).next_addr,
                self.region_end == old(self).region_end,
            decreases n - self.region_index,
        {
            let region: MemoryMapEntry = self.regions[self.region_index];
            self.region_index = self.region_index + 1;

            if region.entry_type != 1 || region.length == 0 {
                continue ;
            }
            let start: u64 = if region.base > self.min_addr {
                region.base
            } else {
                self.min_addr
            };
            let end: u64 = if region.length > u64::MAX - region.base {
                u64::MAX
            } else {
                region.base + region.length
            };
            if start >= end {
                continue ;
            }
            self.next_addr = start;
            self.region_end = end;
            proof {
                let j = self.region_index as int - 1;
                assert(self.spec_regions()[j] == region);
                assert(start as int == spec_max(region.base as int, self.min_addr as int));
                assert(end as int == sat_add_u64(region.base, region.length));
                assert(spec_alloc_from(self.spec_regions(), self.min_addr, j) == spec_alloc_step(
                    self.spec_regions(),
                    self.min_addr,
                    j + 1,
                    start,
                    end,
                ));
            }
            return ;
        }
        self.next_addr = 0;
        self.region_end = 0;
    }

    /// Starts the allocator over `regions`, never handing out an address
    /// below `min_addr`.
    pub fn new(regions: &[MemoryMapEntry], min_addr: u64) -> (r: FrameAllocator)
        ensures
            r.wf(),
            r.spec_regions() == regions@,
            r.spec_min_addr() == min_addr,
            spec_alloc_step(
                r.spec_regions(),
                min_addr,
                r.spec_cursor().0,
                r.spec_cursor().1,
                r.spec_cursor().2,
            ) == spec_alloc_from(regions@, min_addr, 0),
    {
        let mut allocator = FrameAllocator {
            regions: vstd::slice::slice_to_vec(regions),
            region_index: 0,
            next_addr: 0,
            region_end: 0,
            min_addr,
        };
        allocator.select_next_region();
        allocator
    }

    /// Hands out the next free frame, or nothing when every usable region
    /// is spent. The result is exactly what the cursor model says.
    pub fn alloc_frame(&mut self) -> (r: Option<PhysicalFrame>)
        requires
            old(self).wf(),
        ensures
            final(self).wf(),
            final(self).spec_regions() == old(self).spec_regions(),
            final(self).spec_min_addr() == old(self).spec_min_addr(),
            ({
                let (idx, next, end, res) = spec_alloc_step(
                    old(self).spec_regions(),
                    old(self).spec_min_addr(),
                    old(self).spec_cursor().0,
                    old(self).spec_cursor().1,
                    old(self).spec_cursor().2,
                );
                &&& final(self).spec_cursor() == (idx, next, end)
                &&& (match (r, res) {
                    (Some(f), Some(a)) => f.start == a,
                    (None, None) => true,
                    _ => false,
                })
            }),
    {
        let ghost regions0 = self.regions@;
        let ghost min0 = self.min_addr;
        let ghost step0 = spec_alloc_step(
            regions0,
            min0,
            self.region_index as int,
            self.next_addr,
            self.region_end,
        );
        loop
            invariant
                self.wf(),
                self.regions@ == regions0,
                self.min_addr == min0,
                regions0 == old(self).spec_regions(),
                min0 == old(self).spec_min_addr(),
                step0 == spec_alloc_step(
                    regions0,
                    min0,
                    old(self).spec_cursor().0,
                    old(self).spec_cursor().1,
                    old(self).spec_cursor().2,
                ),
                step0 == spec_alloc_step(
                    regions0,
                    min0,
                    self.region_index as int,
                    self.next_addr,
                    self.region_end,
                ),
            decreases 2 * (regions0.len() - self.region_index) + (if self.next_addr
                < self.region_end {
                2int
            } else {
                1int
            }),
        {
            if self.next_addr >= self.region_end {
                proof {
                    assert(step0 == spec_alloc_from(regions0, min0, self.region_index as int));
                }
                self.select_next_region();
                if self.next_addr >= self.region_end {
                    proof {
                        assert(step0 == (regions0.len() as int, 0u64, 0u64, None::<u64>));
                    }
                    return None;
                }
                proof {
                    assert(step0 == spec_alloc_step(
                        regions0,
                        min0,
                        self.region_index as int,
                        self.next_addr,
                        self.region_end,
                    ));
                }
            }
            let next: u64 = self.next_addr;
            let rem: u64 = next % FRAME_SIZE;
            let frame_start_opt: Option<u64> = if rem == 0 {
                Some(next)
            } else if next <= u64::MAX - (FRAME_SIZE - rem) {
                Some(next + (FRAME_SIZE - rem))
            } else {
                None
            };
            proof {
                assert(spec_align4k(next as int) == if next as int % 4096 == 0 {
                    next as int
                } else {
                    next as int + (4096 - next as int % 4096)
                }) by (nonlinear_arith);
            }
            match frame_start_opt {
                Some(frame_start) => {
                    if frame_start <= u64::MAX - FRAME_SIZE && frame_start + FRAME_SIZE
                        <= self.region_end {
                        proof {
                            assert(frame_start == spec_align4k(next as int));
                            assert(step0 == (
                                self.region_index as int,
                                (frame_start + FRAME_SIZE) as u64,
                                self.region_end,
                                Some(frame_start),
                            ));
                        }
                        self.next_addr = frame_start + FRAME_SIZE;
                        return Some(PhysicalFrame { start: frame_start });
                    } else {
                        proof {
                            assert(frame_start == spec_align4k(next as int));
                            assert(spec_align4k(next as int) + 4096 > self.region_end);
                        }
                        self.next_addr = self.region_end;
                    }
                },
                None => {
                    proof {
                        assert(spec_align4k(next as int) + 4096 > self.region_end);
                    }
                    self.next_addr = self.region_end;
                },
            }
        }
    }
}

/// Frames a single region contributes to the total, counting a trailing
/// partial frame as whole, as the boot banner always has.
pub open spec fn spec_region_frames(r: MemoryMapEntry, min: u64) -> int {
    if !region_usable(r) {
        0
    } else {
        let start = spec_align4k(spec_max(r.base as int, min as int)) / 4096;
        let end = spec_align4k(sat_add_u64(r.base, r.length)) / 4096;
        if start < end {
            end - start
        } else {
            0
        }
    }
}

/// Total frames the usable regions contribute.
pub open spec fn spec_usable_frames(regions: Seq<MemoryMapEntry>, min: u64) -> int
    decreases regions.len(),
{
    if regions.len() == 0 {
        0
    } else {
        spec_usable_frames(regions.drop_last(), min) + spec_region_frames(regions.last(), min)
    }
}

/// Ceiling of `v / 4096`, computed without overflowing.
fn div4k_up(v: u64) -> (r: u64)
    ensures
        r == spec_align4k(v as int) / 4096,
{
    let d: u64 = v / 4096;
    let rem: u64 = v % 4096;
    proof {
        assert(spec_align4k(v as int) / 4096 == v as int / 4096 + (if v as int % 4096 == 0 {
            0int
        } else {
            1int
        })) by (nonlinear_arith);
    }
    if rem == 0 {
        d
    } else {
        d + 1
    }
}

/// Counts the frames the allocator could ever serve out of `entries`.
pub fn count_usable_frames(entries: &[MemoryMapEntry], min_addr: u64) -> (r: u64)
    ensures
        spec_usable_frames(entries@, min_addr) <= u64::MAX ==> r == spec_usable_frames(
            entries@,
            min_addr,
        ),
{
    let n: usize = entries.len();
    let mut count: u64 = 0;
    let mut i: usize = 0;
    proof {
        assert(entries@.take(0) =~= Seq::<MemoryMapEntry>::empty());
        lemma_usable_frames_monotone(entries@, min_addr, 0);
    }
    while i < n
        invariant
            n == entries@.len(),
            i <= n,
            count == spec_usable_frames(entries@.take(i as int), min_addr) || spec_usable_frames(
                entries@,
                min_addr,
            ) > u64::MAX,
            count <= spec_usable_frames(entries@.take(i as int), min_addr),
            spec_usable_frames(entries@.take(i as int), min_addr) <= spec_usable_frames(
                entries@,
                min_addr,
            ),
        decreases n - i,
    {
        let region: MemoryMapEntry = entries[i];
        let ghost prefix = entries@.take(i as int);
        let mut add: u64 = 0;
        if region.entry_type == 1 && region.length != 0 {
            let base: u64 = if region.base > min_addr {
                region.base
            } else {
                min_addr
            };
            let limit: u64 = if region.length > u64::MAX - region.base {
                u64::MAX
            } else {
                region.base + region.length
            };
            let start: u64 = div4k_up(base);
            let end: u64 = div4k_up(limit);
            if start < end {
                add = end - start;
            }
            proof {
                assert((spec_align4k(limit as int) - spec_align4k(base as int)) / 4096
                    == spec_align4k(limit as int) / 4096 - spec_align4k(base as int) / 4096)
                    by (nonlinear_arith);
                assert(add == spec_region_frames(region, min_addr));
            }
        }
        proof {
            assert(entries@.take(i as int + 1).drop_last() =~= prefix);
            assert(entries@.take(i as int + 1).last() == region);
            lemma_usable_frames_monotone(entries@, min_addr, i as int + 1);
        }
        if count > u64::MAX - add {
            count = u64::MAX;
            proof {
                assert(spec_usable_frames(entries@.take(i as int + 1), min_addr) > u64::MAX);
            }
        } else {
            count = count + add;
        }
        i = i + 1;
    }
    proof {
        assert(entries@.take(n as int) =~= entries@);
    }
    count
}

/// A prefix of the memory map never counts more frames than the whole map.
proof fn lemma_usable_frames_monotone(regions: Seq<MemoryMapEntry>, min: u64, k: int)
    requires
        0 <= k <= regions.len(),
    ensures
        spec_usable_frames(regions.take(k), min) <= spec_usable_frames(regions, min),
        spec_region_frames(regions.last(), min) >= 0 || regions.len() == 0,
    decreases regions.len() - k,
{
    if k < regions.len() {
        lemma_usable_frames_monotone(regions, min, k + 1);
        assert(regions.take(k + 1).drop_last() =~= regions.take(k));
        assert(regions.take(k + 1).last() == regions[k]);
        lemma_region_frames_nonneg(regions[k], min);
    } else {
        assert(regions.take(k) =~= regions);
    }
    if regions.len() > 0 {
        lemma_region_frames_nonneg(regions.last(), min);
    }
}

proof fn lemma_region_frames_nonneg(r: MemoryMapEntry, min: u64)
    ensures
        spec_region_frames(r, min) >= 0,
{
}

} // verus!
