//! Interrupt-table entry layout and the dispatch decisions of the common
//! interrupt handler. The assembly stubs and the `lidt` load live in the
//! thin runtime; everything decided here is plain data.

use vstd::prelude::*;

verus! {

use vstd::utf8::encode_utf8;

pub const IDT_ENTRIES: usize = 256;
pub const KERNEL_CODE_SELECTOR: u16 = 0x18;
pub const INTERRUPT_GATE_FLAGS: u8 = 0x8E;

/// Vector of the timer interrupt after the controller remap.
pub const IRQ_TIMER_VECTOR: u8 = 0x20;

/// Vector of the keyboard interrupt after the controller remap.
pub const IRQ_KEYBOARD_VECTOR: u8 = 0x21;

/// One 16-byte interrupt gate, as plain fields in table order.
#[derive(Clone, Copy, Debug, PartialEq, Eq, Structural)]
pub struct IdtEntry {
    pub offset_low: u16,
    pub selector: u16,
    pub ist: u8,
    pub flags: u8,
    pub offset_mid: u16,
    pub offset_high: u32,
    pub reserved: u32,
}

impl IdtEntry {
    /// An absent gate: every field zero.
    pub fn missing() -> (r: IdtEntry)
        ensures
            r == (IdtEntry {
                offset_low: 0,
                selector: 0,
                ist: 0,
                flags: 0,
                offset_mid: 0,
                offset_high: 0,
                reserved: 0,
            }),
    {
        IdtEntry {
            offset_low: 0,
            selector: 0,
            ist: 0,
            flags: 0,
            offset_mid: 0,
            offset_high: 0,
            reserved: 0,
        }
    }

    /// Installs a present 64-bit interrupt gate for the handler at `addr`:
    /// the address split into its low, middle and high parts, the kernel
    /// code selector, no interrupt stack, gate type 0x8E.
    pub fn set_handler(&mut self, addr: u64)
        ensures
            final(self).offset_low == addr % 0x10000,
            final(self).offset_mid == (addr / 0x10000) % 0x10000,
            final(self).offset_high == addr / 0x100000000,
            final(self).selector == KERNEL_CODE_SELECTOR,
            final(self).ist == 0,
            final(self).flags == INTERRUPT_GATE_FLAGS,
            final(self).reserved == 0,
    {
        self.offset_low = (addr % 0x10000) as u16;
        self.selector = KERNEL_CODE_SELECTOR;
        self.ist = 0;
        self.flags = INTERRUPT_GATE_FLAGS;
        self.offset_mid = ((addr / 0x10000) % 0x10000) as u16;
        self.offset_high = (addr / 0x100000000) as u32;
        self.reserved = 0;
    }
}

/// The one-word limit field of the table register: table bytes minus one.
pub fn idt_limit() -> (r: u16)
    ensures
        r == 16 * IDT_ENTRIES - 1,
{
    (16 * IDT_ENTRIES - 1) as u16
}

/// What the common handler does with a vector.
#[derive(Clone, Copy, Debug, PartialEq, Eq, Structural)]
pub enum DispatchAction {
    Fatal,
    Timer,
    Keyboard,
}

/// The timer ticks, the keyboard is read; every other routed vector is a
/// fatal exception.
pub fn dispatch_action(vector: u64) -> (r: DispatchAction)
    ensures
        vector == IRQ_TIMER_VECTOR ==> r == DispatchAction::Timer,
        vector == IRQ_KEYBOARD_VECTOR ==> r == DispatchAction::Keyboard,
        vector != IRQ_TIMER_VECTOR && vector != IRQ_KEYBOARD_VECTOR ==> r
            == DispatchAction::Fatal,
{
    if vector == IRQ_TIMER_VECTOR as u64 {
        DispatchAction::Timer
    } else if vector == IRQ_KEYBOARD_VECTOR as u64 {
        DispatchAction::Keyboard
    } else {
        DispatchAction::Fatal
    }
}

/// The banner label of a fatal vector.
pub fn exception_message(vector: u64) -> (r: Vec<u8>)
    ensures
        vector == 0 ==> r@ == encode_utf8("EXC: divide by zero"@),
        vector == 6 ==> r@ == encode_utf8("EXC: invalid opcode"@),
        vector == 8 ==> r@ == encode_utf8("EXC: double fault"@),
        vector == 13 ==> r@ == encode_utf8("EXC: general protection fault"@),
        vector == 14 ==> r@ == encode_utf8("EXC: page fault"@),
        !(vector == 0 || vector == 6 || vector == 8 || vector == 13 || vector == 14) ==> r@
            == encode_utf8("EXC: unhandled vector"@),
{
    if vector == 0 {
        "EXC: divide by zero".as_bytes_vec()
    } else if vector == 6 {
        "EXC: invalid opcode".as_bytes_vec()
    } else if vector == 8 {
        "EXC: double fault".as_bytes_vec()
    } else if vector == 13 {
        "EXC: general protection fault".as_bytes_vec()
    } else if vector == 14 {
        "EXC: page fault".as_bytes_vec()
    } else {
        "EXC: unhandled vector".as_bytes_vec()
    }
}

/// Whether the fatal banner also shows the faulting address register.
pub fn wants_fault_address(vector: u64) -> (r: bool)
    ensures
        r == (vector == 14),
{
    vector == 14
}

/// The request number to acknowledge, for vectors the controllers route.
pub fn eoi_irq(vector: u64) -> (r: Option<u8>)
    ensures
        0x20 <= vector < 0x30 ==> r == Some((vector - 0x20) as u8),
        !(0x20 <= vector < 0x30) ==> r is None,
{
    if 0x20 <= vector && vector < 0x30 {
        Some((vector - 0x20) as u8)
    } else {
        None
    }
}

} // verus!
