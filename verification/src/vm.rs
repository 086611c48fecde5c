//! Page-table entry layout and the 2-MiB identity page-directory view.

use vstd::prelude::*;

verus! {

#[derive(Clone, Copy, Debug, PartialEq, Eq, PartialOrd, Ord, Structural)]
pub struct PhysAddr(pub u64);

#[derive(Clone, Copy, Debug, PartialEq, Eq, PartialOrd, Ord, Structural)]
pub struct VirtAddr(pub u64);

#[derive(Clone, Copy, Debug, PartialEq, Eq, Structural)]
pub struct PageSize4K;

#[derive(Clone, Copy, Debug, PartialEq, Eq, Structural)]
pub struct PageSize2M;

#[verifier::reject_recursive_types(S)]
pub struct Page<S> {
    pub base: VirtAddr,
    pub marker: core::marker::PhantomData<S>,
}

impl<S> Page<S> {
    pub fn new(base: VirtAddr) -> (r: Page<S>)
        ensures
            r.base == base,
    {
        Page { base, marker: core::marker::PhantomData }
    }
}

pub const FLAG_PRESENT: u64 = 1;
pub const FLAG_WRITABLE: u64 = 2;
pub const FLAG_USER: u64 = 4;
pub const FLAG_PAGE_SIZE: u64 = 128;
pub const FLAG_NO_EXEC: u64 = 0x8000_0000_0000_0000;

/// Physical-address bits of a page-table word: bits 12 through 51.
pub const PTE_ADDR_MASK: u64 = 0x000f_ffff_ffff_f000;

/// `addr` rounded down to a multiple of `align`.
pub fn align_down(addr: u64, align: u64) -> (r: u64)
    requires
        align >= 1,
    ensures
        r == addr - (addr as int % align as int),
        r as int % align as int == 0,
        r <= addr,
{
    let rem: u64 = addr % align;
    proof {
        assert(rem <= addr && (addr - rem) % (align as int) == 0) by (nonlinear_arith)
            requires
                align >= 1 && rem == addr as int % align as int && addr >= 0,
        ;
    }
    addr - rem
}

/// `addr` rounded up to a multiple of `align`.
pub fn align_up(addr: u64, align: u64) -> (r: u64)
    requires
        align >= 1,
        crate::heap::spec_align_up(addr as int, align as int) <= u64::MAX,
    ensures
        r == crate::heap::spec_align_up(addr as int, align as int),
        r as int % align as int == 0,
        r >= addr,
{
    proof {
        crate::heap::lemma_align_up_bounds(addr as int, align as int);
    }
    let rem: u64 = addr % align;
    if rem == 0 {
        proof {
            assert(crate::heap::spec_align_up(addr as int, align as int) == addr)
                by (nonlinear_arith)
                requires
                    align >= 1 && addr as int % align as int == 0,
            ;
        }
        addr
    } else {
        proof {
            assert(crate::heap::spec_align_up(addr as int, align as int) == addr + (align - rem))
                by (nonlinear_arith)
                requires
                    align >= 1,
                    rem == addr as int % align as int,
                    rem != 0,
            ;
        }
        addr + (align - rem)
    }
}

/// One 64-bit page-directory word.
#[derive(Clone, Copy, Debug, PartialEq, Eq, Structural)]
pub struct PageTableEntry(pub u64);

impl PageTableEntry {
    pub fn empty() -> (r: PageTableEntry)
        ensures
            r.0 == 0,
    {
        PageTableEntry(0)
    }

    pub fn is_present(self) -> (r: bool)
        ensures
            r == ((self.0 & FLAG_PRESENT) != 0),
    {
        (self.0 & FLAG_PRESENT) != 0
    }

    /// The physical address held in bits 12..51.
    pub fn addr(self) -> (r: PhysAddr)
        ensures
            r.0 == self.0 & PTE_ADDR_MASK,
    {
        PhysAddr(self.0 & PTE_ADDR_MASK)
    }

    /// Everything outside the address bits.
    pub fn flags(self) -> (r: u64)
        ensures
            r == self.0 & 0xfff0_0000_0000_0fff,
    {
        self.0 & 0xfff0_0000_0000_0fff
    }

    /// Installs `phys` (rounded down to a 4-KiB boundary) with `flags`.
    pub fn set(&mut self, phys: PhysAddr, flags: u64)
        ensures
            final(self).0 == ((phys.0 & 0xffff_ffff_ffff_f000) | flags),
    {
        self.0 = (phys.0 & 0xffff_ffff_ffff_f000) | flags;
    }
}

/// The value `map_2m_identity` writes: the physical address rounded down to
/// a 2-MiB boundary, marked present and large, and writable on demand.
pub open spec fn spec_2m_entry(phys: u64, writable: bool) -> u64 {
    (phys & 0xffff_ffff_ffe0_0000) | (if writable {
        FLAG_PRESENT | FLAG_PAGE_SIZE | FLAG_WRITABLE
    } else {
        FLAG_PRESENT | FLAG_PAGE_SIZE
    })
}

/// A 512-slot page directory of 2-MiB mappings.
pub trait Mapper2M: Sized {
    /// The directory's 512 words.
    spec fn entries_view(&self) -> Seq<u64>;

    fn map_2m_identity(&mut self, index: usize, phys: PhysAddr, writable: bool)
        requires
            old(self).entries_view().len() == 512,
            index < 512,
        ensures
            final(self).entries_view() == old(self).entries_view().update(
                index as int,
                spec_2m_entry(phys.0, writable),
            ),
    ;

    fn entry(&self, index: usize) -> (r: PageTableEntry)
        requires
            self.entries_view().len() == 512,
            index < 512,
        ensures
            r.0 == self.entries_view()[index as int],
    ;
}

/// The boot-constructed identity page directory, held by value.
pub struct BootPageDirectoryMapper {
    entries: [u64; 512],
}

impl BootPageDirectoryMapper {
    pub fn new(entries: [u64; 512]) -> (r: BootPageDirectoryMapper)
        ensures
            r.entries_view() == entries@,
    {
        BootPageDirectoryMapper { entries }
    }
}

impl Mapper2M for BootPageDirectoryMapper {
    closed spec fn entries_view(&self) -> Seq<u64> {
        self.entries@
    }

    fn map_2m_identity(&mut self, index: usize, phys: PhysAddr, writable: bool) {
        let mut flags: u64 = FLAG_PRESENT | FLAG_PAGE_SIZE;
        if writable {
            flags = flags | FLAG_WRITABLE;
        }
        let addr: u64 = phys.0 & 0xffff_ffff_ffe0_0000;
        self.entries[index] = addr | flags;
    }

    fn entry(&self, index: usize) -> (r: PageTableEntry) {
        PageTableEntry(self.entries[index])
    }
}

} // verus!
