//! Capacity-bounded LRU sector cache in front of any block device.

use vstd::prelude::*;

verus! {

use crate::block::{BlockDevice, BlockError};
use crate::codec::zero_bytes;

/// `x + 1`, stopping at the top of `u64` instead of wrapping.
pub open spec fn sat_inc(x: u64) -> u64 {
    if x == u64::MAX {
        x
    } else {
        (x + 1) as u64
    }
}

#[derive(Debug)]
struct CacheLine {
    valid: bool,
    lba: u64,
    last_use: u64,
    data: Vec<u8>,
}

#[derive(Clone, Copy, Debug, PartialEq, Eq, Structural)]
pub struct CacheStats {
    pub hits: u64,
    pub misses: u64,
}

pub struct CachedBlockDevice<D: BlockDevice> {
    inner: D,
    lines: Vec<CacheLine>,
    ticks: u64,
    hits: u64,
    misses: u64,
}

impl<D: BlockDevice> CachedBlockDevice<D> {
    /// Every valid line holds a true copy of the sector it names.
    pub closed spec fn wf_cache(&self) -> bool {
        &&& self.inner.wf()
        &&& self.lines@.len() >= 1
        &&& forall|i: int|
            0 <= i < self.lines@.len() ==> (#[trigger] self.lines@[i]).data@.len() == 512
        &&& forall|i: int|
            0 <= i < self.lines@.len() && (#[trigger] self.lines@[i]).valid
                ==> self.inner.spec_sectors().contains_key(self.lines@[i].lba)
                && self.lines@[i].data@ == self.inner.spec_sectors()[self.lines@[i].lba]
    }

    /// The wrapped device.
    pub closed spec fn spec_inner(&self) -> D {
        self.inner
    }

    /// Whether a copy of sector `lba` sits in the cache.
    pub closed spec fn spec_cached(&self, lba: u64) -> bool {
        exists|i: int|
            0 <= i < self.lines@.len() && (#[trigger] self.lines@[i]).valid && self.lines@[i].lba
                == lba
    }

    pub closed spec fn spec_hits(&self) -> u64 {
        self.hits
    }

    pub closed spec fn spec_misses(&self) -> u64 {
        self.misses
    }

    /// Wraps `inner` with `capacity` cache lines (at least one).
    pub fn new(inner: D, capacity: usize) -> (r: CachedBlockDevice<D>)
        requires
            inner.wf(),
        ensures
            r.wf_cache(),
            r.spec_inner() == inner,
            r.spec_hits() == 0,
            r.spec_misses() == 0,
            forall|lba: u64| !r.spec_cached(lba),
    {
        let want: usize = if capacity < 1 {
            1
        } else {
            capacity
        };
        let mut lines: Vec<CacheLine> = Vec::new();
        let mut i: usize = 0;
        while i < want
            invariant
                i <= want,
                lines@.len() == i,
                forall|j: int|
                    0 <= j < i ==> !(#[trigger] lines@[j]).valid && lines@[j].data@.len() == 512,
            decreases want - i,
        {
            lines.push(CacheLine { valid: false, lba: 0, last_use: 0, data: zero_bytes(512) });
            i = i + 1;
        }
        CachedBlockDevice { inner, lines, ticks: 1, hits: 0, misses: 0 }
    }

    /// Cumulative hit and miss counts.
    pub fn stats(&self) -> (r: CacheStats)
        ensures
            r.hits == self.spec_hits(),
            r.misses == self.spec_misses(),
    {
        CacheStats { hits: self.hits, misses: self.misses }
    }

    /// The cache front of `read_sector`: a hit is served from the cache
    /// without touching the device and counts on `hits`, leaving every
    /// line's address alone; a miss asks the device once, fills a line
    /// chosen by least recent use, and counts on `misses`. No call ever
    /// makes a sector other than the requested one newly cached, and a
    /// failed fill leaves the buffer alone and the requested sector
    /// uncached.
    pub fn read_sector_cached(&mut self, lba: u64, out: &mut Vec<u8>) -> (r: Result<
        (),
        BlockError,
    >)
        requires
            old(self).wf_cache(),
        ensures
            final(self).wf_cache(),
            final(self).spec_inner().spec_sectors() == old(self).spec_inner().spec_sectors(),
            final(out)@.len() == old(out)@.len(),
            forall|l: u64|
                final(self).spec_cached(l) ==> old(self).spec_cached(l) || l == lba,
            old(out)@.len() != 512 ==> r == Err::<(), BlockError>(BlockError::InvalidBufferSize)
                && final(out)@ == old(out)@ && *final(self) == *old(self),
            old(out)@.len() == 512 && old(self).spec_cached(lba) ==> {
                &&& r is Ok
                &&& final(self).spec_hits() == sat_inc(old(self).spec_hits())
                &&& final(self).spec_misses() == old(self).spec_misses()
                &&& final(self).spec_inner() == old(self).spec_inner()
                &&& forall|l: u64| final(self).spec_cached(l) == old(self).spec_cached(l)
            },
            old(out)@.len() == 512 && !old(self).spec_cached(lba) ==> {
                &&& final(self).spec_misses() == sat_inc(old(self).spec_misses())
                &&& final(self).spec_hits() == old(self).spec_hits()
                &&& (r is Ok ==> final(self).spec_cached(lba))
                &&& (r is Err ==> final(out)@ == old(out)@ && !final(self).spec_cached(lba))
            },
            r matches Ok(k) ==> old(out)@.len() == 512 && old(
                self,
            ).spec_inner().spec_sectors().contains_key(lba) && final(out)@ == old(
                self,
            ).spec_inner().spec_sectors()[lba],
    {
        if out.len() != 512 {
            return Err(BlockError::InvalidBufferSize);
        }
        self.ticks = if self.ticks == u64::MAX {
            0
        } else {
            self.ticks + 1
        };
        let line_count: usize = self.lines.len();

        let mut hit_at: usize = line_count;
        let mut i: usize = 0;
        loop
            invariant_except_break
                line_count == self.lines@.len(),
                i <= line_count,
                hit_at == line_count,
                forall|j: int|
                    0 <= j < i ==> !((#[trigger] self.lines@[j]).valid && self.lines@[j].lba
                        == lba),
            ensures
                line_count == self.lines@.len(),
                hit_at <= line_count,
                hit_at < line_count ==> self.lines@[hit_at as int].valid
                    && self.lines@[hit_at as int].lba == lba,
                hit_at == line_count ==> forall|j: int|
                    0 <= j < line_count ==> !((#[trigger] self.lines@[j]).valid
                        && self.lines@[j].lba == lba),
            decreases line_count - i,
        {
            if i >= line_count {
                break ;
            }
            if self.lines[i].valid && self.lines[i].lba == lba {
                hit_at = i;
                break ;
            }
            i = i + 1;
        }
        if hit_at < line_count {
            assert(self.spec_cached(lba));
            if self.hits < u64::MAX {
                self.hits = self.hits + 1;
            }
            let tick: u64 = self.ticks;
            let line = &mut self.lines[hit_at];
            line.last_use = tick;
            let mut k: usize = 0;
            while k < 512
                invariant
                    k <= 512,
                    hit_at < self.lines@.len(),
                    self.lines@[hit_at as int].data@.len() == 512,
                    out@.len() == 512,
                    forall|j: int|
                        0 <= j < k ==> out@[j] == self.lines@[hit_at as int].data@[j],
                decreases 512 - k,
            {
                out[k] = self.lines[hit_at].data[k];
                k = k + 1;
            }
            proof {
                assert(out@ =~= self.lines@[hit_at as int].data@);
                assert forall|l: u64|
                    self.spec_cached(l) == old(self).spec_cached(l) by {
                    if self.spec_cached(l) {
                        let i = choose|i: int|
                            0 <= i < self.lines@.len() && (#[trigger] self.lines@[i]).valid
                                && self.lines@[i].lba == l;
                        assert(old(self).lines@[i].valid && old(self).lines@[i].lba == l);
                    }
                    if old(self).spec_cached(l) {
                        let i = choose|i: int|
                            0 <= i < old(self).lines@.len() && (#[trigger] old(
                                self,
                            ).lines@[i]).valid && old(self).lines@[i].lba == l;
                        assert(self.lines@[i].valid && self.lines@[i].lba == l);
                    }
                }
            }
            return Ok(());
        }
        assert(!self.spec_cached(lba));
        if self.misses < u64::MAX {
            self.misses = self.misses + 1;
        }

        let mut victim: usize = 0;
        let mut j: usize = 1;
        while j < line_count
            invariant
                line_count == self.lines@.len(),
                1 <= line_count,
                victim < line_count,
                j <= line_count,
            decreases line_count - j,
        {
            let jkey: u64 = if self.lines[j].valid {
                self.lines[j].last_use
            } else {
                0
            };
            let vkey: u64 = if self.lines[victim].valid {
                self.lines[victim].last_use
            } else {
                0
            };
            if jkey < vkey {
                victim = j;
            }
            j = j + 1;
        }

        let mut scratch: Vec<u8> = zero_bytes(512);
        match self.inner.read_sector(lba, &mut scratch) {
            Ok(()) => {
                let tick: u64 = self.ticks;
                self.lines[victim] = CacheLine { valid: true, lba, last_use: tick, data: scratch };
                let mut k: usize = 0;
                while k < 512
                    invariant
                        k <= 512,
                        victim < self.lines@.len(),
                        self.lines@[victim as int].data@.len() == 512,
                        out@.len() == 512,
                        forall|j2: int|
                            0 <= j2 < k ==> out@[j2] == self.lines@[victim as int].data@[j2],
                    decreases 512 - k,
                {
                    out[k] = self.lines[victim].data[k];
                    k = k + 1;
                }
                proof {
                    assert(out@ =~= self.lines@[victim as int].data@);
                    assert forall|l: u64|
                        self.spec_cached(l) implies (old(self).spec_cached(l) || l == lba) by {
                        let i = choose|i: int|
                            0 <= i < self.lines@.len() && (#[trigger] self.lines@[i]).valid
                                && self.lines@[i].lba == l;
                        if i != victim {
                            assert(old(self).lines@[i].valid && old(self).lines@[i].lba == l);
                        }
                    }
                }
                Ok(())
            },
            Err(e) => {
                self.lines[victim] = CacheLine {
                    valid: false,
                    lba: 0,
                    last_use: 0,
                    data: scratch,
                };
                proof {
                    assert forall|l: u64|
                        self.spec_cached(l) implies old(self).spec_cached(l) by {
                        let i = choose|i: int|
                            0 <= i < self.lines@.len() && (#[trigger] self.lines@[i]).valid
                                && self.lines@[i].lba == l;
                        assert(i != victim);
                        assert(old(self).lines@[i].valid && old(self).lines@[i].lba == l);
                    }
                    assert(!self.spec_cached(lba));
                }
                Err(e)
            },
        }
    }
}

impl<D: BlockDevice> BlockDevice for CachedBlockDevice<D> {
    open spec fn wf(&self) -> bool {
        self.wf_cache()
    }

    open spec fn spec_sectors(&self) -> Map<u64, Seq<u8>> {
        self.spec_inner().spec_sectors()
    }

    fn sector_size(&self) -> (r: usize) {
        self.inner.sector_size()
    }

    fn read_sector(&mut self, lba: u64, out: &mut Vec<u8>) -> (r: Result<(), BlockError>) {
        self.read_sector_cached(lba, out)
    }
}

} // verus!
