//! Block-device capability: 512-byte sector reads with a typed error.

use vstd::prelude::*;

verus! {

#[derive(Clone, Copy, Debug, PartialEq, Eq, Structural)]
pub enum BlockError {
    InvalidBufferSize,
    DeviceFault,
    Timeout,
    Unsupported,
}

/// The sector-model type, for implementors that live outside the proofs.
pub type SectorMap = Map<u64, Seq<u8>>;

/// A sector map is proper when every sector it holds is 512 bytes long.
pub open spec fn sectors_wf(m: Map<u64, Seq<u8>>) -> bool {
    forall|lba: u64| m.contains_key(lba) ==> (#[trigger] m[lba]).len() == 512
}

/// A device serving 512-byte sectors. The model `spec_sectors` gives the
/// sectors the device can serve; a read may fail at any time (hardware may),
/// but a successful read returns exactly the modeled sector, and no call
/// changes the model.
pub trait BlockDevice: Sized {
    /// Well-formedness the device keeps between calls.
    spec fn wf(&self) -> bool;

    /// The sectors this device serves, by logical block address.
    spec fn spec_sectors(&self) -> Map<u64, Seq<u8>>;

    fn sector_size(&self) -> (r: usize)
        ensures
            r == 512,
    {
        512
    }

    /// Reads sector `lba` into `out`, which must be exactly one sector long.
    fn read_sector(&mut self, lba: u64, out: &mut Vec<u8>) -> (r: Result<(), BlockError>)
        requires
            old(self).wf(),
        ensures
            final(self).wf(),
            final(self).spec_sectors() == old(self).spec_sectors(),
            final(out)@.len() == old(out)@.len(),
            old(out)@.len() != 512 ==> r == Err::<(), BlockError>(BlockError::InvalidBufferSize)
                && final(out)@ == old(out)@,
            r matches Ok(k) ==> old(out)@.len() == 512 && old(self).spec_sectors().contains_key(
                lba,
            ) && final(out)@ == old(self).spec_sectors()[lba],
    ;
}

#[derive(Clone, Copy, Debug, PartialEq, Eq, Structural)]
pub enum StorageError {
    Block(BlockError),
    Corrupt,
    Unsupported,
}

impl From<BlockError> for StorageError {
    fn from(value: BlockError) -> (r: Self) {
        StorageError::Block(value)
    }
}

impl vstd::std_specs::convert::FromSpecImpl<BlockError> for StorageError {
    open spec fn obeys_from_spec() -> bool {
        true
    }

    open spec fn from_spec(value: BlockError) -> Self {
        StorageError::Block(value)
    }
}

} // verus!
