//! Validation of the boot-information record the loader hands over.

use vstd::prelude::*;

verus! {

use crate::frame::MemoryMapEntry;

/// Identification value the loader writes into the record.
pub const BOOT_INFO_MAGIC: u32 = 0x534f5245;

/// Version of the record layout this kernel accepts.
pub const BOOT_INFO_VERSION: u32 = 1;

/// Size in bytes of one memory-map record.
pub const MEMORY_MAP_ENTRY_SIZE: u32 = 24;

/// The raw record at the well-known address, as plain values.
#[derive(Clone, Copy, Debug, PartialEq, Eq, Structural)]
pub struct BootInfoRaw {
    pub magic: u32,
    pub version: u32,
    pub memory_map_entries: u32,
    pub memory_map_entry_size: u32,
    pub memory_map_ptr: u64,
    pub reserved: u64,
}

/// The checks `from_record` makes before trusting the record.
pub open spec fn spec_boot_info_valid(raw: BootInfoRaw) -> bool {
    &&& raw.magic == BOOT_INFO_MAGIC
    &&& raw.version == BOOT_INFO_VERSION
    &&& raw.memory_map_entry_size == MEMORY_MAP_ENTRY_SIZE
    &&& (raw.memory_map_entries > 0 ==> raw.memory_map_ptr != 0)
}

/// A validated view: the memory map as owned records.
pub struct BootInfoView {
    memory_map: Vec<MemoryMapEntry>,
}

impl BootInfoView {
    pub closed spec fn spec_entries(&self) -> Seq<MemoryMapEntry> {
        self.memory_map@
    }

    /// Validates the record against the map that was read for it; accepts
    /// exactly when the magic, version and record size are right, a
    /// non-empty map came from a non-null pointer, and the map holds as
    /// many records as the record declares.
    pub fn from_record(raw: &BootInfoRaw, memory_map: Vec<MemoryMapEntry>) -> (r: Option<
        BootInfoView,
    >)
        ensures
            r is Some <==> (spec_boot_info_valid(*raw) && memory_map@.len()
                == raw.memory_map_entries),
            r matches Some(view) ==> view.spec_entries() == memory_map@,
    {
        if raw.magic != BOOT_INFO_MAGIC {
            return None;
        }
        if raw.version != BOOT_INFO_VERSION {
            return None;
        }
        if raw.memory_map_entry_size != MEMORY_MAP_ENTRY_SIZE {
            return None;
        }
        if raw.memory_map_entries > 0 && raw.memory_map_ptr == 0 {
            return None;
        }
        if memory_map.len() as u64 != raw.memory_map_entries as u64 {
            return None;
        }
        Some(BootInfoView { memory_map })
    }

    /// The memory map.
    pub fn entries(&self) -> (r: &Vec<MemoryMapEntry>)
        ensures
            r@ == self.spec_entries(),
    {
        &self.memory_map
    }
}

} // verus!
