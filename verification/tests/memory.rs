use eres_os::bootinfo::{BootInfoRaw, BootInfoView, BOOT_INFO_MAGIC};
use eres_os::frame::{count_usable_frames, FrameAllocator, MemoryMapEntry, FRAME_SIZE};
use eres_os::heap::BumpCursor;
use eres_os::vm::{
    align_down, align_up, BootPageDirectoryMapper, Mapper2M, PageTableEntry, PhysAddr,
    FLAG_PAGE_SIZE, FLAG_PRESENT, FLAG_WRITABLE,
};

#[test]
fn allocates_consecutive_frames() {
    let regions = [MemoryMapEntry {
        base: 0x200000,
        length: FRAME_SIZE * 3,
        entry_type: 1,
        acpi_extended_attributes: 0,
    }];

    let mut alloc = FrameAllocator::new(&regions, 0x200000);
    assert_eq!(alloc.alloc_frame().map(|f| f.start), Some(0x200000));
    assert_eq!(alloc.alloc_frame().map(|f| f.start), Some(0x201000));
    assert_eq!(alloc.alloc_frame().map(|f| f.start), Some(0x202000));
    assert_eq!(alloc.alloc_frame().map(|f| f.start), None);
}

#[test]
fn skips_reserved_regions() {
    let regions = [
        MemoryMapEntry {
            base: 0x200000,
            length: FRAME_SIZE,
            entry_type: 2,
            acpi_extended_attributes: 0,
        },
        MemoryMapEntry {
            base: 0x300000,
            length: FRAME_SIZE,
            entry_type: 1,
            acpi_extended_attributes: 0,
        },
    ];

    let mut alloc = FrameAllocator::new(&regions, 0x200000);
    assert_eq!(alloc.alloc_frame().map(|f| f.start), Some(0x300000));
    assert_eq!(alloc.alloc_frame().map(|f| f.start), None);
}

#[test]
fn honors_min_allocatable_address() {
    let regions = [MemoryMapEntry {
        base: 0x100000,
        length: FRAME_SIZE * 4,
        entry_type: 1,
        acpi_extended_attributes: 0,
    }];

    let mut alloc = FrameAllocator::new(&regions, 0x102000);
    assert_eq!(alloc.alloc_frame().map(|f| f.start), Some(0x102000));
    assert_eq!(alloc.alloc_frame().map(|f| f.start), Some(0x103000));
    assert_eq!(alloc.alloc_frame().map(|f| f.start), None);
}

#[test]
fn counts_total_usable_frames() {
    let regions = [
        MemoryMapEntry {
            base: 0x100000,
            length: FRAME_SIZE * 2,
            entry_type: 1,
            acpi_extended_attributes: 0,
        },
        MemoryMapEntry {
            base: 0x200000,
            length: FRAME_SIZE * 3,
            entry_type: 1,
            acpi_extended_attributes: 0,
        },
    ];

    let total = count_usable_frames(&regions, 0x200000);
    assert_eq!(total, 3);
}

#[test]
fn cursor_allocates_with_alignment() {
    let start: usize = 0x1000;

    let mut cursor = BumpCursor::new();
    cursor.init(start, 128);

    let first = cursor.alloc_bytes(1, 1).expect("first block");
    let second = cursor.alloc_bytes(8, 8).expect("second block");
    assert_eq!(first, start);
    assert_eq!(second % 8, 0);
    assert!(second >= first + 1);
}

#[test]
fn cursor_returns_null_when_exhausted() {
    let start: usize = 0x1000;

    let mut cursor = BumpCursor::new();
    cursor.init(start, 16);

    let _ = cursor.alloc_bytes(12, 1);
    let exhausted = cursor.alloc_bytes(8, 1);
    assert!(exhausted.is_none());
}

#[test]
fn aligns_addresses() {
    assert_eq!(align_down(0x12345, 0x1000), 0x12000);
    assert_eq!(align_up(0x12345, 0x1000), 0x13000);
}

#[test]
fn page_table_entry_roundtrip() {
    let mut entry = PageTableEntry::empty();
    entry.set(PhysAddr(0x12345_6789), FLAG_PRESENT | FLAG_WRITABLE);
    assert!(entry.is_present());
    assert_eq!(entry.addr().0, 0x12345_6000);
    assert_eq!(entry.flags() & FLAG_WRITABLE, FLAG_WRITABLE);
}

#[test]
fn maps_2m_entries() {
    let table = [0u64; 512];
    let mut mapper = BootPageDirectoryMapper::new(table);
    mapper.map_2m_identity(1, PhysAddr(0x2345_6789), true);
    let entry = mapper.entry(1);
    assert!(entry.is_present());
    assert_eq!(entry.addr().0, 0x2340_0000);
    assert_eq!(entry.flags() & FLAG_PAGE_SIZE, FLAG_PAGE_SIZE);
    assert_eq!(entry.flags() & FLAG_WRITABLE, FLAG_WRITABLE);
}

#[test]
fn parses_valid_boot_info() {
    let entries = vec![MemoryMapEntry {
        base: 0x100000,
        length: 0x200000,
        entry_type: 1,
        acpi_extended_attributes: 0,
    }];

    let raw = BootInfoRaw {
        magic: BOOT_INFO_MAGIC,
        version: 1,
        memory_map_entries: entries.len() as u32,
        memory_map_entry_size: 24,
        memory_map_ptr: 0x8000,
        reserved: 0,
    };

    let parsed = BootInfoView::from_record(&raw, entries.clone()).expect("valid boot info");
    assert_eq!(parsed.entries(), &entries);
}

#[test]
fn rejects_invalid_magic() {
    let raw = BootInfoRaw {
        magic: 0,
        version: 1,
        memory_map_entries: 0,
        memory_map_entry_size: 24,
        memory_map_ptr: 0,
        reserved: 0,
    };

    assert!(BootInfoView::from_record(&raw, Vec::new()).is_none());
}
