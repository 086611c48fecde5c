//! Planned port I/O: the byte sequences the controller drivers emit. The
//! logic here decides what is written where; the thin runtime outside this
//! crate performs the writes.

use vstd::prelude::*;

verus! {

/// One step of a port program: write a byte to a port, or the short
/// settle delay (a write to port 0x80).
#[derive(Clone, Copy, Debug, PartialEq, Eq, Structural)]
pub enum PortOp {
    Write(u16, u8),
    Wait,
}

pub const PIC1_COMMAND: u16 = 0x20;
pub const PIC1_DATA: u16 = 0x21;
pub const PIC2_COMMAND: u16 = 0xA0;
pub const PIC2_DATA: u16 = 0xA1;
pub const PIC_EOI: u8 = 0x20;

/// First vector of the master controller after the remap.
pub const PIC1_OFFSET: u8 = 0x20;

/// First vector of the slave controller after the remap.
pub const PIC2_OFFSET: u8 = 0x28;

/// The initialization-word sequence that moves both controllers to vectors
/// 0x20 and 0x28 and then restores the masks read beforehand.
pub open spec fn spec_remap_sequence(master_mask: u8, slave_mask: u8) -> Seq<PortOp> {
    seq![
        PortOp::Write(PIC1_COMMAND, 0x11),
        PortOp::Wait,
        PortOp::Write(PIC2_COMMAND, 0x11),
        PortOp::Wait,
        PortOp::Write(PIC1_DATA, PIC1_OFFSET),
        PortOp::Wait,
        PortOp::Write(PIC2_DATA, PIC2_OFFSET),
        PortOp::Wait,
        PortOp::Write(PIC1_DATA, 4),
        PortOp::Wait,
        PortOp::Write(PIC2_DATA, 2),
        PortOp::Wait,
        PortOp::Write(PIC1_DATA, 0x01),
        PortOp::Wait,
        PortOp::Write(PIC2_DATA, 0x01),
        PortOp::Wait,
        PortOp::Write(PIC1_DATA, master_mask),
        PortOp::Write(PIC2_DATA, slave_mask),
    ]
}

/// The controller remap program, given the masks read from both data ports.
pub fn remap_sequence(master_mask: u8, slave_mask: u8) -> (r: Vec<PortOp>)
    ensures
        r@ == spec_remap_sequence(master_mask, slave_mask),
{
    let mut ops: Vec<PortOp> = Vec::new();
    ops.push(PortOp::Write(PIC1_COMMAND, 0x11));
    ops.push(PortOp::Wait);
    ops.push(PortOp::Write(PIC2_COMMAND, 0x11));
    ops.push(PortOp::Wait);
    ops.push(PortOp::Write(PIC1_DATA, PIC1_OFFSET));
    ops.push(PortOp::Wait);
    ops.push(PortOp::Write(PIC2_DATA, PIC2_OFFSET));
    ops.push(PortOp::Wait);
    ops.push(PortOp::Write(PIC1_DATA, 4));
    ops.push(PortOp::Wait);
    ops.push(PortOp::Write(PIC2_DATA, 2));
    ops.push(PortOp::Wait);
    ops.push(PortOp::Write(PIC1_DATA, 0x01));
    ops.push(PortOp::Wait);
    ops.push(PortOp::Write(PIC2_DATA, 0x01));
    ops.push(PortOp::Wait);
    ops.push(PortOp::Write(PIC1_DATA, master_mask));
    ops.push(PortOp::Write(PIC2_DATA, slave_mask));
    proof {
        assert(ops@ =~= spec_remap_sequence(master_mask, slave_mask));
    }
    ops
}

/// The two writes that install interrupt masks on both controllers.
pub fn set_masks_sequence(master: u8, slave: u8) -> (r: Vec<PortOp>)
    ensures
        r@ == seq![PortOp::Write(PIC1_DATA, master), PortOp::Write(PIC2_DATA, slave)],
{
    let mut ops: Vec<PortOp> = Vec::new();
    ops.push(PortOp::Write(PIC1_DATA, master));
    ops.push(PortOp::Write(PIC2_DATA, slave));
    proof {
        assert(ops@ =~= seq![PortOp::Write(PIC1_DATA, master), PortOp::Write(PIC2_DATA, slave)]);
    }
    ops
}

/// End-of-interrupt: the slave controller is told first when the request
/// came through it, the master always.
pub fn send_eoi_sequence(irq: u8) -> (r: Vec<PortOp>)
    ensures
        irq >= 8 ==> r@ == seq![
            PortOp::Write(PIC2_COMMAND, PIC_EOI),
            PortOp::Write(PIC1_COMMAND, PIC_EOI),
        ],
        irq < 8 ==> r@ == seq![PortOp::Write(PIC1_COMMAND, PIC_EOI)],
{
    let mut ops: Vec<PortOp> = Vec::new();
    if irq >= 8 {
        ops.push(PortOp::Write(PIC2_COMMAND, PIC_EOI));
    }
    ops.push(PortOp::Write(PIC1_COMMAND, PIC_EOI));
    proof {
        if irq >= 8 {
            assert(ops@ =~= seq![
                PortOp::Write(PIC2_COMMAND, PIC_EOI),
                PortOp::Write(PIC1_COMMAND, PIC_EOI),
            ]);
        } else {
            assert(ops@ =~= seq![PortOp::Write(PIC1_COMMAND, PIC_EOI)]);
        }
    }
    ops
}

pub const PIT_COMMAND: u16 = 0x43;
pub const PIT_CHANNEL0_DATA: u16 = 0x40;
pub const PIT_BASE_FREQUENCY: u32 = 1193182;
pub const PIT_TARGET_HZ: u32 = 100;

/// The channel-0 divisor for the target tick rate.
pub fn pit_divisor() -> (r: u16)
    ensures
        r == PIT_BASE_FREQUENCY / PIT_TARGET_HZ,
{
    (PIT_BASE_FREQUENCY / PIT_TARGET_HZ) as u16
}

/// Programs channel 0 to mode 3, lo/hi access, at the target rate.
pub fn pit_init_sequence() -> (r: Vec<PortOp>)
    ensures
        r@ == seq![
            PortOp::Write(PIT_COMMAND, 0x36),
            PortOp::Write(PIT_CHANNEL0_DATA, ((PIT_BASE_FREQUENCY / PIT_TARGET_HZ) % 256) as u8),
            PortOp::Write(PIT_CHANNEL0_DATA, ((PIT_BASE_FREQUENCY / PIT_TARGET_HZ) / 256) as u8),
        ],
{
    let divisor: u16 = pit_divisor();
    let mut ops: Vec<PortOp> = Vec::new();
    ops.push(PortOp::Write(PIT_COMMAND, 0x36));
    ops.push(PortOp::Write(PIT_CHANNEL0_DATA, (divisor % 256) as u8));
    ops.push(PortOp::Write(PIT_CHANNEL0_DATA, (divisor / 256) as u8));
    proof {
        assert(ops@ =~= seq![
            PortOp::Write(PIT_COMMAND, 0x36),
            PortOp::Write(PIT_CHANNEL0_DATA, ((PIT_BASE_FREQUENCY / PIT_TARGET_HZ) % 256) as u8),
            PortOp::Write(PIT_CHANNEL0_DATA, ((PIT_BASE_FREQUENCY / PIT_TARGET_HZ) / 256) as u8),
        ]);
    }
    ops
}

} // verus!
