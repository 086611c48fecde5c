//! ATA programmed-I/O read protocol for the primary channel: the command
//! bytes, the status-poll decisions, and the word-to-byte unpacking. The
//! thin runtime performs the actual port traffic.

use vstd::prelude::*;

verus! {

use crate::block::BlockError;
use crate::ports::PortOp;

pub const ATA_DATA: u16 = 0x1F0;
pub const ATA_SECTOR_COUNT: u16 = 0x1F2;
pub const ATA_LBA_LOW: u16 = 0x1F3;
pub const ATA_LBA_MID: u16 = 0x1F4;
pub const ATA_LBA_HIGH: u16 = 0x1F5;
pub const ATA_DRIVE_HEAD: u16 = 0x1F6;
pub const ATA_STATUS_COMMAND: u16 = 0x1F7;

pub const ATA_CMD_READ_SECTORS: u8 = 0x20;
pub const ATA_STATUS_ERR: u8 = 0x01;
pub const ATA_STATUS_DF: u8 = 0x20;
pub const ATA_STATUS_DRQ: u8 = 0x08;
pub const ATA_STATUS_BSY: u8 = 0x80;

/// How many status polls are spent before a read times out.
pub const STATUS_POLL_LIMIT: usize = 100000;

/// Largest sector address the 28-bit protocol reaches.
pub const MAX_LBA: u64 = 0x0FFF_FFFF;

/// Primary-channel device selection; bit 0x40 selects LBA mode, bit 0x10
/// master against slave.
pub struct AtaPio {
    pub drive_select: u8,
}

/// What one look at the status register decides.
#[derive(Clone, Copy, Debug, PartialEq, Eq, Structural)]
pub enum StatusDecision {
    Busy,
    Fault,
    Ready,
    NotReady,
}

impl AtaPio {
    /// The master drive on the primary channel.
    pub fn primary_master() -> (r: AtaPio)
        ensures
            r.drive_select == 0xE0,
    {
        AtaPio { drive_select: 0xE0 }
    }

    /// The six register writes that ask for one sector at `lba`.
    pub fn read_setup_sequence(&self, lba: u32) -> (r: Vec<PortOp>)
        requires
            lba <= MAX_LBA,
        ensures
            r@ == seq![
                PortOp::Write(ATA_DRIVE_HEAD, (self.drive_select | ((lba / 0x1000000) % 16) as u8)
                    as u8),
                PortOp::Write(ATA_SECTOR_COUNT, 1),
                PortOp::Write(ATA_LBA_LOW, (lba % 256) as u8),
                PortOp::Write(ATA_LBA_MID, ((lba / 256) % 256) as u8),
                PortOp::Write(ATA_LBA_HIGH, ((lba / 65536) % 256) as u8),
                PortOp::Write(ATA_STATUS_COMMAND, ATA_CMD_READ_SECTORS),
            ],
    {
        let head: u8 = self.drive_select | ((lba / 0x1000000) % 16) as u8;
        let mut ops: Vec<PortOp> = Vec::new();
        ops.push(PortOp::Write(ATA_DRIVE_HEAD, head));
        ops.push(PortOp::Write(ATA_SECTOR_COUNT, 1));
        ops.push(PortOp::Write(ATA_LBA_LOW, (lba % 256) as u8));
        ops.push(PortOp::Write(ATA_LBA_MID, ((lba / 256) % 256) as u8));
        ops.push(PortOp::Write(ATA_LBA_HIGH, ((lba / 65536) % 256) as u8));
        ops.push(PortOp::Write(ATA_STATUS_COMMAND, ATA_CMD_READ_SECTORS));
        proof {
            assert(ops@ =~= seq![
                PortOp::Write(ATA_DRIVE_HEAD, (self.drive_select | ((lba / 0x1000000) % 16) as u8)
                    as u8),
                PortOp::Write(ATA_SECTOR_COUNT, 1),
                PortOp::Write(ATA_LBA_LOW, (lba % 256) as u8),
                PortOp::Write(ATA_LBA_MID, ((lba / 256) % 256) as u8),
                PortOp::Write(ATA_LBA_HIGH, ((lba / 65536) % 256) as u8),
                PortOp::Write(ATA_STATUS_COMMAND, ATA_CMD_READ_SECTORS),
            ]);
        }
        ops
    }
}

/// Reads one status byte: busy comes first, then the error bits, then
/// data-ready; anything else means keep polling.
pub fn classify_status(status: u8) -> (r: StatusDecision)
    ensures
        (status & ATA_STATUS_BSY) != 0 ==> r == StatusDecision::Busy,
        (status & ATA_STATUS_BSY) == 0 && ((status & ATA_STATUS_ERR) != 0 || (status
            & ATA_STATUS_DF) != 0) ==> r == StatusDecision::Fault,
        (status & ATA_STATUS_BSY) == 0 && (status & ATA_STATUS_ERR) == 0 && (status
            & ATA_STATUS_DF) == 0 && (status & ATA_STATUS_DRQ) != 0 ==> r
            == StatusDecision::Ready,
        (status & ATA_STATUS_BSY) == 0 && (status & ATA_STATUS_ERR) == 0 && (status
            & ATA_STATUS_DF) == 0 && (status & ATA_STATUS_DRQ) == 0 ==> r
            == StatusDecision::NotReady,
{
    if (status & ATA_STATUS_BSY) != 0 {
        StatusDecision::Busy
    } else if (status & ATA_STATUS_ERR) != 0 || (status & ATA_STATUS_DF) != 0 {
        StatusDecision::Fault
    } else if (status & ATA_STATUS_DRQ) != 0 {
        StatusDecision::Ready
    } else {
        StatusDecision::NotReady
    }
}

/// The checks a read request passes before any port is touched.
pub fn read_sector_precheck(buffer_len: usize, lba: u64) -> (r: Option<BlockError>)
    ensures
        buffer_len != 512 ==> r == Some(BlockError::InvalidBufferSize),
        buffer_len == 512 && lba > MAX_LBA ==> r == Some(BlockError::Unsupported),
        buffer_len == 512 && lba <= MAX_LBA ==> r is None,
{
    if buffer_len != 512 {
        Some(BlockError::InvalidBufferSize)
    } else if lba > MAX_LBA {
        Some(BlockError::Unsupported)
    } else {
        None
    }
}

/// Unpacks the 256 little-endian data-port words into sector bytes.
pub fn sector_from_words(words: &Vec<u16>) -> (r: Vec<u8>)
    requires
        words@.len() == 256,
    ensures
        r@.len() == 512,
        forall|i: int|
            0 <= i < 256 ==> r@[2 * i] == (#[trigger] words@[i]) % 256 && r@[2 * i + 1]
                == words@[i] / 256,
{
    let mut out: Vec<u8> = Vec::new();
    let mut i: usize = 0;
    while i < 256
        invariant
            words@.len() == 256,
            i <= 256,
            out@.len() == 2 * i,
            forall|j: int|
                0 <= j < i ==> out@[2 * j] == (#[trigger] words@[j]) % 256 && out@[2 * j + 1]
                    == words@[j] / 256,
        decreases 256 - i,
    {
        let word: u16 = words[i];
        out.push((word % 256) as u8);
        out.push((word / 256) as u8);
        i = i + 1;
    }
    out
}

} // verus!
