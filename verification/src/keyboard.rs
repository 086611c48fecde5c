//! PS/2 scancode decoding (German QWERTZ, set 1) and the single-producer /
//! single-consumer key-event ring between the interrupt handler and the
//! shell.

use vstd::prelude::*;

verus! {

/// Ring capacity in slots; one slot always stays free, so at most
/// `BUFFER_SIZE - 1` events sit in the ring.
pub const BUFFER_SIZE: usize = 256;

pub const KEY_ENTER: u16 = 0x100;
pub const KEY_BACKSPACE: u16 = 0x101;
pub const KEY_UP: u16 = 0x102;
pub const KEY_DOWN: u16 = 0x103;

#[derive(Clone, Copy, Debug, PartialEq, Eq, Structural)]
pub enum KeyEvent {
    Char(u8),
    Enter,
    Backspace,
    Up,
    Down,
}

/// The ASCII byte a make-code produces under the QWERTZ layout, with the
/// shift state applied; control keys map to backspace, tab, newline.
pub open spec fn spec_decode_scancode(scancode: u8, shift: bool) -> Option<u8> {
    match scancode {
        0x01 => Some(0x1Bu8),
        0x02 => Some(if shift { 0x21u8 } else { 0x31u8 }),  // ! 1
        0x03 => Some(if shift { 0x22u8 } else { 0x32u8 }),  // " 2
        0x04 => Some(if shift { 0x23u8 } else { 0x33u8 }),  // # 3
        0x05 => Some(if shift { 0x24u8 } else { 0x34u8 }),  // $ 4
        0x06 => Some(if shift { 0x25u8 } else { 0x35u8 }),  // % 5
        0x07 => Some(if shift { 0x26u8 } else { 0x36u8 }),  // & 6
        0x08 => Some(if shift { 0x2Fu8 } else { 0x37u8 }),  // / 7
        0x09 => Some(if shift { 0x28u8 } else { 0x38u8 }),  // ( 8
        0x0A => Some(if shift { 0x29u8 } else { 0x39u8 }),  // ) 9
        0x0B => Some(if shift { 0x3Du8 } else { 0x30u8 }),  // = 0
        0x0C => Some(if shift { 0x3Fu8 } else { 0x2Du8 }),  // ? -
        0x0D => Some(if shift { 0x60u8 } else { 0x2Bu8 }),  // ` +
        0x0E => Some(8u8),
        0x0F => Some(9u8),
        0x10 => Some(if shift { 0x51u8 } else { 0x71u8 }),  // Q q
        0x11 => Some(if shift { 0x57u8 } else { 0x77u8 }),  // W w
        0x12 => Some(if shift { 0x45u8 } else { 0x65u8 }),  // E e
        0x13 => Some(if shift { 0x52u8 } else { 0x72u8 }),  // R r
        0x14 => Some(if shift { 0x54u8 } else { 0x74u8 }),  // T t
        0x15 => Some(if shift { 0x5Au8 } else { 0x7Au8 }),  // Z z
        0x16 => Some(if shift { 0x55u8 } else { 0x75u8 }),  // U u
        0x17 => Some(if shift { 0x49u8 } else { 0x69u8 }),  // I i
        0x18 => Some(if shift { 0x4Fu8 } else { 0x6Fu8 }),  // O o
        0x19 => Some(if shift { 0x50u8 } else { 0x70u8 }),  // P p
        0x1A => Some(if shift { 0x55u8 } else { 0x75u8 }),  // U u (umlaut fallback)
        0x1B => Some(if shift { 0x2Bu8 } else { 0x23u8 }),  // + #
        0x1C => Some(10u8),
        0x1E => Some(if shift { 0x41u8 } else { 0x61u8 }),  // A a
        0x1F => Some(if shift { 0x53u8 } else { 0x73u8 }),  // S s
        0x20 => Some(if shift { 0x44u8 } else { 0x64u8 }),  // D d
        0x21 => Some(if shift { 0x46u8 } else { 0x66u8 }),  // F f
        0x22 => Some(if shift { 0x47u8 } else { 0x67u8 }),  // G g
        0x23 => Some(if shift { 0x48u8 } else { 0x68u8 }),  // H h
        0x24 => Some(if shift { 0x4Au8 } else { 0x6Au8 }),  // J j
        0x25 => Some(if shift { 0x4Bu8 } else { 0x6Bu8 }),  // K k
        0x26 => Some(if shift { 0x4Cu8 } else { 0x6Cu8 }),  // L l
        0x27 => Some(if shift { 0x3Au8 } else { 0x3Bu8 }),  // : ;
        0x28 => Some(if shift { 0x22u8 } else { 0x27u8 }),  // " '
        0x29 => Some(if shift { 0x7Eu8 } else { 0x60u8 }),  // ~ `
        0x2B => Some(if shift { 0x2Au8 } else { 0x27u8 }),  // * '
        0x2C => Some(if shift { 0x59u8 } else { 0x79u8 }),  // Y y
        0x2D => Some(if shift { 0x58u8 } else { 0x78u8 }),  // X x
        0x2E => Some(if shift { 0x43u8 } else { 0x63u8 }),  // C c
        0x2F => Some(if shift { 0x56u8 } else { 0x76u8 }),  // V v
        0x30 => Some(if shift { 0x42u8 } else { 0x62u8 }),  // B b
        0x31 => Some(if shift { 0x4Eu8 } else { 0x6Eu8 }),  // N n
        0x32 => Some(if shift { 0x4Du8 } else { 0x6Du8 }),  // M m
        0x33 => Some(if shift { 0x3Bu8 } else { 0x2Cu8 }),  // ; ,
        0x34 => Some(if shift { 0x3Au8 } else { 0x2Eu8 }),  // : .
        0x35 => Some(if shift { 0x5Fu8 } else { 0x2Du8 }),  // _ -
        0x39 => Some(0x20u8),
        _ => None,
    }
}

/// Translates one make-code to its ASCII byte.
pub fn decode_scancode(scancode: u8, shift: bool) -> (r: Option<u8>)
    ensures
        r == spec_decode_scancode(scancode, shift),
{
    let ch: u8 = match scancode {
        0x01 => 0x1B,
        0x02 => if shift { 0x21 } else { 0x31 },
        0x03 => if shift { 0x22 } else { 0x32 },
        0x04 => if shift { 0x23 } else { 0x33 },
        0x05 => if shift { 0x24 } else { 0x34 },
        0x06 => if shift { 0x25 } else { 0x35 },
        0x07 => if shift { 0x26 } else { 0x36 },
        0x08 => if shift { 0x2F } else { 0x37 },
        0x09 => if shift { 0x28 } else { 0x38 },
        0x0A => if shift { 0x29 } else { 0x39 },
        0x0B => if shift { 0x3D } else { 0x30 },
        0x0C => if shift { 0x3F } else { 0x2D },
        0x0D => if shift { 0x60 } else { 0x2B },
        0x0E => 8,
        0x0F => 9,
        0x10 => if shift { 0x51 } else { 0x71 },
        0x11 => if shift { 0x57 } else { 0x77 },
        0x12 => if shift { 0x45 } else { 0x65 },
        0x13 => if shift { 0x52 } else { 0x72 },
        0x14 => if shift { 0x54 } else { 0x74 },
        0x15 => if shift { 0x5A } else { 0x7A },
        0x16 => if shift { 0x55 } else { 0x75 },
        0x17 => if shift { 0x49 } else { 0x69 },
        0x18 => if shift { 0x4F } else { 0x6F },
        0x19 => if shift { 0x50 } else { 0x70 },
        0x1A => if shift { 0x55 } else { 0x75 },
        0x1B => if shift { 0x2B } else { 0x23 },
        0x1C => 10,
        0x1E => if shift { 0x41 } else { 0x61 },
        0x1F => if shift { 0x53 } else { 0x73 },
        0x20 => if shift { 0x44 } else { 0x64 },
        0x21 => if shift { 0x46 } else { 0x66 },
        0x22 => if shift { 0x47 } else { 0x67 },
        0x23 => if shift { 0x48 } else { 0x68 },
        0x24 => if shift { 0x4A } else { 0x6A },
        0x25 => if shift { 0x4B } else { 0x6B },
        0x26 => if shift { 0x4C } else { 0x6C },
        0x27 => if shift { 0x3A } else { 0x3B },
        0x28 => if shift { 0x22 } else { 0x27 },
        0x29 => if shift { 0x7E } else { 0x60 },
        0x2B => if shift { 0x2A } else { 0x27 },
        0x2C => if shift { 0x59 } else { 0x79 },
        0x2D => if shift { 0x58 } else { 0x78 },
        0x2E => if shift { 0x43 } else { 0x63 },
        0x2F => if shift { 0x56 } else { 0x76 },
        0x30 => if shift { 0x42 } else { 0x62 },
        0x31 => if shift { 0x4E } else { 0x6E },
        0x32 => if shift { 0x4D } else { 0x6D },
        0x33 => if shift { 0x3B } else { 0x2C },
        0x34 => if shift { 0x3A } else { 0x2E },
        0x35 => if shift { 0x5F } else { 0x2D },
        0x39 => 0x20,
        _ => {
            return None;
        },
    };
    Some(ch)
}

/// The 16-bit slot value an event occupies in the ring.
pub open spec fn spec_encode_event(event: KeyEvent) -> u16 {
    match event {
        KeyEvent::Char(ch) => ch as u16,
        KeyEvent::Enter => KEY_ENTER,
        KeyEvent::Backspace => KEY_BACKSPACE,
        KeyEvent::Up => KEY_UP,
        KeyEvent::Down => KEY_DOWN,
    }
}

/// The event a 16-bit slot value stands for.
pub open spec fn spec_decode_event(code: u16) -> Option<KeyEvent> {
    if code <= 0xFF {
        Some(KeyEvent::Char(code as u8))
    } else if code == KEY_ENTER {
        Some(KeyEvent::Enter)
    } else if code == KEY_BACKSPACE {
        Some(KeyEvent::Backspace)
    } else if code == KEY_UP {
        Some(KeyEvent::Up)
    } else if code == KEY_DOWN {
        Some(KeyEvent::Down)
    } else {
        None
    }
}

fn encode_event(event: KeyEvent) -> (r: u16)
    ensures
        r == spec_encode_event(event),
{
    match event {
        KeyEvent::Char(ch) => ch as u16,
        KeyEvent::Enter => KEY_ENTER,
        KeyEvent::Backspace => KEY_BACKSPACE,
        KeyEvent::Up => KEY_UP,
        KeyEvent::Down => KEY_DOWN,
    }
}

fn decode_event(code: u16) -> (r: Option<KeyEvent>)
    ensures
        r == spec_decode_event(code),
{
    if code <= 0xFF {
        Some(KeyEvent::Char(code as u8))
    } else if code == KEY_ENTER {
        Some(KeyEvent::Enter)
    } else if code == KEY_BACKSPACE {
        Some(KeyEvent::Backspace)
    } else if code == KEY_UP {
        Some(KeyEvent::Up)
    } else if code == KEY_DOWN {
        Some(KeyEvent::Down)
    } else {
        None
    }
}

/// Decoding a slot written by the producer gives back the produced event:
/// nothing in the ring can come out as a different or reordered event.
pub proof fn lemma_event_code_roundtrip(event: KeyEvent)
    ensures
        spec_decode_event(spec_encode_event(event)) == Some(event),
{
}

/// The slot codes that one incoming scancode byte appends to the ring.
pub open spec fn spec_feed_events(shift: bool, e0: bool, scancode: u8) -> Seq<u16> {
    if scancode == 0xE0 {
        seq![]
    } else if e0 {
        if scancode >= 0x80 {
            seq![]
        } else if scancode == 0x48 {
            seq![KEY_UP]
        } else if scancode == 0x50 {
            seq![KEY_DOWN]
        } else {
            seq![]
        }
    } else if scancode == 0x2A || scancode == 0x36 || scancode == 0xAA || scancode == 0xB6 {
        seq![]
    } else if scancode >= 0x80 {
        seq![]
    } else {
        match spec_decode_scancode(scancode, shift) {
            Some(ch) => if ch == 8 {
                seq![KEY_BACKSPACE]
            } else if ch == 10 {
                seq![KEY_ENTER]
            } else {
                seq![ch as u16]
            },
            None => seq![],
        }
    }
}

/// The shift state after one incoming byte.
pub open spec fn spec_feed_shift(shift: bool, e0: bool, scancode: u8) -> bool {
    if scancode == 0xE0 || e0 {
        shift
    } else if scancode == 0x2A || scancode == 0x36 {
        true
    } else if scancode == 0xAA || scancode == 0xB6 {
        false
    } else {
        shift
    }
}

/// The extended-prefix flag after one incoming byte.
pub open spec fn spec_feed_e0(e0: bool, scancode: u8) -> bool {
    scancode == 0xE0
}

/// Decoder state plus the SPSC ring. The producer (the keyboard interrupt)
/// only ever advances `head`; the consumer only ever advances `tail`.
pub struct KeyboardState {
    shift: bool,
    e0_prefix: bool,
    head: usize,
    tail: usize,
    buffer: Vec<u16>,
}

impl KeyboardState {
    pub closed spec fn spec_shift(&self) -> bool {
        self.shift
    }

    pub closed spec fn spec_e0(&self) -> bool {
        self.e0_prefix
    }

    pub open spec fn wf(&self) -> bool {
        &&& self.spec_head() < BUFFER_SIZE
        &&& self.spec_tail() < BUFFER_SIZE
        &&& self.spec_buffer().len() == BUFFER_SIZE
    }

    pub closed spec fn spec_head(&self) -> usize {
        self.head
    }

    pub closed spec fn spec_tail(&self) -> usize {
        self.tail
    }

    pub closed spec fn spec_buffer(&self) -> Seq<u16> {
        self.buffer@
    }

    /// The event codes waiting in the ring, oldest first.
    pub open spec fn pending(&self) -> Seq<u16> {
        if self.spec_tail() <= self.spec_head() {
            self.spec_buffer().subrange(self.spec_tail() as int, self.spec_head() as int)
        } else {
            self.spec_buffer().subrange(self.spec_tail() as int, BUFFER_SIZE as int)
                + self.spec_buffer().subrange(0, self.spec_head() as int)
        }
    }

    pub fn new() -> (r: KeyboardState)
        ensures
            r.wf(),
            !r.spec_shift(),
            !r.spec_e0(),
            r.pending() == Seq::<u16>::empty(),
    {
        let r = KeyboardState {
            shift: false,
            e0_prefix: false,
            head: 0,
            tail: 0,
            buffer: crate::codec::zero_u16(BUFFER_SIZE),
        };
        proof {
            assert(r.pending() =~= Seq::<u16>::empty());
        }
        r
    }

    /// Appends one event code at `head`, or drops it when the ring is full.
    fn push_event(&mut self, event: KeyEvent)
        requires
            old(self).wf(),
        ensures
            final(self).wf(),
            final(self).spec_shift() == old(self).spec_shift(),
            final(self).spec_e0() == old(self).spec_e0(),
            final(self).spec_tail() == old(self).spec_tail(),
            final(self).pending() == if old(self).pending().len() + 1 < BUFFER_SIZE {
                old(self).pending().push(spec_encode_event(event))
            } else {
                old(self).pending()
            },
    {
        let next_head: usize = if self.head + 1 == BUFFER_SIZE {
            0
        } else {
            self.head + 1
        };
        if next_head == self.tail {
            proof {
                assert(old(self).pending().len() + 1 >= BUFFER_SIZE);
            }
            return ;
        }
        let code: u16 = encode_event(event);
        self.buffer[self.head] = code;
        self.head = next_head;
        proof {
            assert(old(self).pending().len() + 1 < BUFFER_SIZE);
            assert(self.pending() =~= old(self).pending().push(code));
        }
    }

    /// Runs the scancode state machine for one byte: prefix and shift
    /// bookkeeping, release filtering, and the layout table; whatever event
    /// comes out is appended to the ring in arrival order.
    pub fn feed_scancode(&mut self, scancode: u8)
        requires
            old(self).wf(),
        ensures
            final(self).wf(),
            final(self).spec_shift() == spec_feed_shift(
                old(self).spec_shift(),
                old(self).spec_e0(),
                scancode,
            ),
            final(self).spec_e0() == spec_feed_e0(old(self).spec_e0(), scancode),
            final(self).pending() == {
                let emitted = spec_feed_events(old(self).spec_shift(), old(self).spec_e0(), scancode);
                if old(self).pending().len() + emitted.len() < BUFFER_SIZE {
                    old(self).pending() + emitted
                } else {
                    old(self).pending()
                }
            },
    {
        proof {
            assert(old(self).pending() + Seq::<u16>::empty() =~= old(self).pending());
        }
        if scancode == 0xE0 {
            self.e0_prefix = true;
            return ;
        }
        if self.e0_prefix {
            self.e0_prefix = false;
            if scancode >= 0x80 {
                return ;
            }
            if scancode == 0x48 {
                self.push_event(KeyEvent::Up);
                proof {
                    lemma_one_event(old(self).pending(), self.pending(), spec_feed_events(
                        old(self).spec_shift(),
                        old(self).spec_e0(),
                        scancode,
                    ));
                }
            } else if scancode == 0x50 {
                self.push_event(KeyEvent::Down);
                proof {
                    lemma_one_event(old(self).pending(), self.pending(), spec_feed_events(
                        old(self).spec_shift(),
                        old(self).spec_e0(),
                        scancode,
                    ));
                }
            }
            return ;
        }
        if scancode == 0x2A || scancode == 0x36 {
            self.shift = true;
            return ;
        }
        if scancode == 0xAA || scancode == 0xB6 {
            self.shift = false;
            return ;
        }
        if scancode >= 0x80 {
            return ;
        }
        match decode_scancode(scancode, self.shift) {
            Some(ch) => {
                if ch == 8 {
                    self.push_event(KeyEvent::Backspace);
                } else if ch == 10 {
                    self.push_event(KeyEvent::Enter);
                } else {
                    self.push_event(KeyEvent::Char(ch));
                }
                proof {
                    lemma_one_event(old(self).pending(), self.pending(), spec_feed_events(
                        old(self).spec_shift(),
                        old(self).spec_e0(),
                        scancode,
                    ));
                }
            },
            None => (),
        }
    }

    /// Feeds one byte as if it had come from the keyboard port.
    pub fn inject_scancode(&mut self, scancode: u8)
        requires
            old(self).wf(),
        ensures
            final(self).wf(),
            final(self).spec_shift() == spec_feed_shift(
                old(self).spec_shift(),
                old(self).spec_e0(),
                scancode,
            ),
            final(self).spec_e0() == spec_feed_e0(old(self).spec_e0(), scancode),
            final(self).pending() == {
                let emitted = spec_feed_events(old(self).spec_shift(), old(self).spec_e0(), scancode);
                if old(self).pending().len() + emitted.len() < BUFFER_SIZE {
                    old(self).pending() + emitted
                } else {
                    old(self).pending()
                }
            },
    {
        self.feed_scancode(scancode)
    }

    /// Takes the oldest event out of the ring, in exactly the order the
    /// producer put them in.
    pub fn try_read_key(&mut self) -> (r: Option<KeyEvent>)
        requires
            old(self).wf(),
        ensures
            final(self).wf(),
            final(self).spec_shift() == old(self).spec_shift(),
            final(self).spec_e0() == old(self).spec_e0(),
            old(self).pending().len() == 0 ==> r is None && final(self).pending() == old(
                self,
            ).pending(),
            old(self).pending().len() > 0 ==> final(self).pending() == old(self).pending().skip(1)
                && r == spec_decode_event(old(self).pending()[0]),
    {
        if self.head == self.tail {
            proof {
                assert(self.pending().len() == 0);
            }
            return None;
        }
        let code: u16 = self.buffer[self.tail];
        proof {
            assert(old(self).pending().len() > 0);
            assert(old(self).pending()[0] == code);
        }
        self.tail = if self.tail + 1 == BUFFER_SIZE {
            0
        } else {
            self.tail + 1
        };
        proof {
            assert(self.pending() =~= old(self).pending().skip(1));
        }
        decode_event(code)
    }

    /// Like `try_read_key`, flattened to a byte: enter becomes a newline,
    /// backspace the backspace byte, arrow keys nothing.
    pub fn try_read_char(&mut self) -> (r: Option<u8>)
        requires
            old(self).wf(),
        ensures
            final(self).wf(),
            final(self).spec_shift() == old(self).spec_shift(),
            final(self).spec_e0() == old(self).spec_e0(),
            old(self).pending().len() == 0 ==> r is None && final(self).pending() == old(
                self,
            ).pending(),
            old(self).pending().len() > 0 ==> final(self).pending() == old(self).pending().skip(1)
                && r == (match spec_decode_event(old(self).pending()[0]) {
                Some(KeyEvent::Char(ch)) => Some(ch),
                Some(KeyEvent::Enter) => Some(10u8),
                Some(KeyEvent::Backspace) => Some(8u8),
                _ => None,
            }),
    {
        match self.try_read_key() {
            Some(KeyEvent::Char(ch)) => Some(ch),
            Some(KeyEvent::Enter) => Some(10),
            Some(KeyEvent::Backspace) => Some(8),
            _ => None,
        }
    }

    /// Empties the ring, keeping the decoder flags.
    pub fn clear_buffer(&mut self)
        requires
            old(self).wf(),
        ensures
            final(self).wf(),
            final(self).spec_shift() == old(self).spec_shift(),
            final(self).spec_e0() == old(self).spec_e0(),
            final(self).pending() == Seq::<u16>::empty(),
    {
        self.head = 0;
        self.tail = 0;
        proof {
            assert(self.pending() =~= Seq::<u16>::empty());
        }
    }
}

/// Lifts "the queue grew by the one emitted code" from `push` to the
/// one-element emission sequences of the state machine.
proof fn lemma_one_event(before: Seq<u16>, after: Seq<u16>, emitted: Seq<u16>)
    requires
        emitted.len() == 1,
        after == if before.len() + 1 < BUFFER_SIZE {
            before.push(emitted[0])
        } else {
            before
        },
    ensures
        after == if before.len() + emitted.len() < BUFFER_SIZE {
            before + emitted
        } else {
            before
        },
{
    if before.len() + 1 < BUFFER_SIZE {
        assert(before.push(emitted[0]) =~= before + emitted);
    }
}

} // verus!
