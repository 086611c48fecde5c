use std::cell::Cell;
use std::rc::Rc;

use eres_os::ata::{classify_status, read_sector_precheck, sector_from_words, AtaPio,
    StatusDecision};
use eres_os::block::{BlockDevice, BlockError};
use eres_os::cache::CachedBlockDevice;
use eres_os::interrupts::{dispatch_action, eoi_irq, DispatchAction, IdtEntry};
use eres_os::ports::{pit_divisor, remap_sequence, send_eoi_sequence, PortOp, PIT_TARGET_HZ};
use vstd::prelude::*;

struct MockBlock {
    sector0: Vec<u8>,
}

impl MockBlock {
    fn new() -> Self {
        let mut sector0 = vec![0u8; 512];
        sector0[510] = 0x55;
        sector0[511] = 0xAA;
        Self { sector0 }
    }
}

impl BlockDevice for MockBlock {
    fn wf(&self) -> bool {
        unreachable!()
    }

    fn spec_sectors(&self) -> Map<u64, Seq<u8>> {
        unreachable!()
    }

    fn read_sector(&mut self, lba: u64, out: &mut Vec<u8>) -> Result<(), BlockError> {
        if out.len() != 512 {
            return Err(BlockError::InvalidBufferSize);
        }
        if lba != 0 {
            return Err(BlockError::Unsupported);
        }
        out.copy_from_slice(&self.sector0);
        Ok(())
    }
}

#[test]
fn reads_boot_signature_from_mock_device() {
    let mut dev = MockBlock::new();
    let mut buf = vec![0u8; 512];
    dev.read_sector(0, &mut buf).expect("sector read");
    assert_eq!((buf[510], buf[511]), (0x55, 0xAA));
}

#[test]
fn rejects_wrong_buffer_size() {
    let mut dev = MockBlock::new();
    let mut buf = vec![0u8; 128];
    assert_eq!(
        dev.read_sector(0, &mut buf),
        Err(BlockError::InvalidBufferSize)
    );
}

struct MockDev {
    sectors: Vec<Vec<u8>>,
    reads: Rc<Cell<usize>>,
}

impl BlockDevice for MockDev {
    fn wf(&self) -> bool {
        unreachable!()
    }

    fn spec_sectors(&self) -> Map<u64, Seq<u8>> {
        unreachable!()
    }

    fn read_sector(&mut self, lba: u64, out: &mut Vec<u8>) -> Result<(), BlockError> {
        if out.len() != 512 {
            return Err(BlockError::InvalidBufferSize);
        }
        let src = self.sectors.get(lba as usize).ok_or(BlockError::Unsupported)?;
        out.copy_from_slice(src);
        self.reads.set(self.reads.get() + 1);
        Ok(())
    }
}

#[test]
fn caches_repeated_sector_reads() {
    let mut s0 = vec![0u8; 512];
    s0[0] = 42;
    let reads = Rc::new(Cell::new(0));
    let dev = MockDev { sectors: vec![s0], reads: Rc::clone(&reads) };
    let mut cached = CachedBlockDevice::new(dev, 4);
    let mut buf = vec![0u8; 512];
    cached.read_sector(0, &mut buf).expect("read");
    cached.read_sector(0, &mut buf).expect("read");
    let stats = cached.stats();
    assert_eq!(stats.hits, 1);
    assert_eq!(stats.misses, 1);
    assert_eq!(reads.get(), 1);
    assert_eq!(buf[0], 42);
}

#[test]
fn cache_counts_distinct_reads_as_misses() {
    let reads = Rc::new(Cell::new(0));
    let mut sectors = Vec::new();
    for i in 0..6u8 {
        let mut s = vec![0u8; 512];
        s[0] = i;
        sectors.push(s);
    }
    let dev = MockDev { sectors, reads: Rc::clone(&reads) };
    let mut cached = CachedBlockDevice::new(dev, 4);
    let mut buf = vec![0u8; 512];
    for lba in 0..6u64 {
        cached.read_sector(lba, &mut buf).expect("read");
        assert_eq!(buf[0], lba as u8);
    }
    let stats = cached.stats();
    assert_eq!(stats.hits, 0);
    assert_eq!(stats.misses, 6);
    assert_eq!(reads.get(), 6);
}

#[test]
fn cache_rejects_wrong_buffer_size() {
    let reads = Rc::new(Cell::new(0));
    let dev = MockDev { sectors: vec![vec![0u8; 512]], reads: Rc::clone(&reads) };
    let mut cached = CachedBlockDevice::new(dev, 2);
    let mut buf = vec![0u8; 100];
    assert_eq!(cached.read_sector(0, &mut buf), Err(BlockError::InvalidBufferSize));
    assert_eq!(reads.get(), 0);
}

#[test]
fn cache_propagates_device_errors() {
    let reads = Rc::new(Cell::new(0));
    let dev = MockDev { sectors: vec![vec![0u8; 512]], reads: Rc::clone(&reads) };
    let mut cached = CachedBlockDevice::new(dev, 2);
    let mut buf = vec![0u8; 512];
    assert_eq!(cached.read_sector(7, &mut buf), Err(BlockError::Unsupported));
    let stats = cached.stats();
    assert_eq!(stats.misses, 1);
    assert_eq!(stats.hits, 0);
}

#[test]
fn pit_target_frequency_is_reasonable() {
    assert!(PIT_TARGET_HZ >= 10);
    assert!(PIT_TARGET_HZ <= 1000);
}

#[test]
fn pit_divisor_matches_base_clock() {
    assert_eq!(pit_divisor(), 11931);
}

#[test]
fn pic_remap_program_shape() {
    let ops = remap_sequence(0xFC, 0xFF);
    assert_eq!(ops.len(), 18);
    assert_eq!(ops[0], PortOp::Write(0x20, 0x11));
    assert_eq!(ops[4], PortOp::Write(0x21, 0x20));
    assert_eq!(ops[6], PortOp::Write(0xA1, 0x28));
    assert_eq!(ops[16], PortOp::Write(0x21, 0xFC));
    assert_eq!(ops[17], PortOp::Write(0xA1, 0xFF));
}

#[test]
fn eoi_goes_to_both_controllers_for_high_irqs() {
    assert_eq!(send_eoi_sequence(1), vec![PortOp::Write(0x20, 0x20)]);
    assert_eq!(
        send_eoi_sequence(9),
        vec![PortOp::Write(0xA0, 0x20), PortOp::Write(0x20, 0x20)]
    );
}

#[test]
fn ata_setup_program_encodes_lba() {
    let dev = AtaPio::primary_master();
    let ops = dev.read_setup_sequence(0x0ABCDEF1);
    assert_eq!(ops[0], PortOp::Write(0x1F6, 0xE0 | 0x0A));
    assert_eq!(ops[1], PortOp::Write(0x1F2, 1));
    assert_eq!(ops[2], PortOp::Write(0x1F3, 0xF1));
    assert_eq!(ops[3], PortOp::Write(0x1F4, 0xDE));
    assert_eq!(ops[4], PortOp::Write(0x1F5, 0xBC));
    assert_eq!(ops[5], PortOp::Write(0x1F7, 0x20));
}

#[test]
fn ata_status_classification() {
    assert_eq!(classify_status(0x80), StatusDecision::Busy);
    assert_eq!(classify_status(0x01), StatusDecision::Fault);
    assert_eq!(classify_status(0x20), StatusDecision::Fault);
    assert_eq!(classify_status(0x08), StatusDecision::Ready);
    assert_eq!(classify_status(0x00), StatusDecision::NotReady);
}

#[test]
fn ata_precheck_rejects_bad_requests() {
    assert_eq!(read_sector_precheck(100, 0), Some(BlockError::InvalidBufferSize));
    assert_eq!(read_sector_precheck(512, 0x1000_0000), Some(BlockError::Unsupported));
    assert_eq!(read_sector_precheck(512, 5), None);
}

#[test]
fn ata_words_unpack_little_endian() {
    let mut words = vec![0u16; 256];
    words[0] = 0xAA55;
    words[255] = 0x0102;
    let bytes = sector_from_words(&words);
    assert_eq!(bytes.len(), 512);
    assert_eq!((bytes[0], bytes[1]), (0x55, 0xAA));
    assert_eq!((bytes[510], bytes[511]), (0x02, 0x01));
}

#[test]
fn idt_entry_splits_handler_address() {
    let mut entry = IdtEntry::missing();
    entry.set_handler(0x1234_5678_9ABC_DEF0);
    assert_eq!(entry.offset_low, 0xDEF0);
    assert_eq!(entry.offset_mid, 0x9ABC);
    assert_eq!(entry.offset_high, 0x1234_5678);
    assert_eq!(entry.selector, 0x18);
    assert_eq!(entry.flags, 0x8E);
}

#[test]
fn dispatch_routes_vectors() {
    assert_eq!(dispatch_action(32), DispatchAction::Timer);
    assert_eq!(dispatch_action(33), DispatchAction::Keyboard);
    assert_eq!(dispatch_action(13), DispatchAction::Fatal);
    assert_eq!(eoi_irq(33), Some(1));
    assert_eq!(eoi_irq(14), None);
}
