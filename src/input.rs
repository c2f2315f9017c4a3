//! RDP input events: keyboard (scancode and Unicode), mouse, extended mouse
//! and synchronize events, and the Input Event PDU that carries them.
use vstd::prelude::*;
use crate::ber::{reads, BerReader};
use crate::bytes::{get_le16, get_le32, le16, le32, lemma_le16, lemma_le32, put_u16_le, put_u32_le};
use crate::error::{ErrorKind, PduError, Result};

verus! {

/// Flags of a scancode keyboard event.
#[derive(Debug, Clone, Copy, PartialEq, Eq)]
pub struct KeyboardFlags(pub u16);

impl KeyboardFlags {
    /// Key released.
    pub const RELEASE: u16 = 0x8000;
    /// Extended key.
    pub const EXTENDED: u16 = 0x0100;
    /// Second extended key set.
    pub const EXTENDED1: u16 = 0x0200;

    /// Flags with the given bits.
    pub fn new(value: u16) -> (r: Self)
        ensures
            r.0 == value,
    {
        KeyboardFlags(value)
    }

    /// A key press.
    pub fn key_down() -> (r: Self)
        ensures
            r.0 == 0x0000,
    {
        KeyboardFlags(0)
    }

    /// A key release.
    pub fn key_up() -> (r: Self)
        ensures
            r.0 == 0x8000,
    {
        KeyboardFlags(Self::RELEASE)
    }

    /// An extended key press.
    pub fn extended_key_down() -> (r: Self)
        ensures
            r.0 == 0x0100,
    {
        KeyboardFlags(Self::EXTENDED)
    }

    /// An extended key release.
    pub fn extended_key_up() -> (r: Self)
        ensures
            r.0 == 0x8100,
    {
        let v = Self::EXTENDED | Self::RELEASE;
        assert(0x0100u16 | 0x8000u16 == 0x8100u16) by (bit_vector);
        KeyboardFlags(v)
    }

    /// Whether the release bit is set.
    pub fn is_release(&self) -> (r: bool)
        ensures
            r == (self.0 & 0x8000 != 0),
    {
        self.0 & Self::RELEASE != 0
    }

    /// Whether the extended bit is set.
    pub fn is_extended(&self) -> (r: bool)
        ensures
            r == (self.0 & 0x0100 != 0),
    {
        self.0 & Self::EXTENDED != 0
    }

    /// The bits.
    pub fn as_u16(self) -> (r: u16)
        ensures
            r == self.0,
    {
        self.0
    }
}

/// A scancode keyboard event.
#[derive(Debug, Clone, Copy, PartialEq, Eq)]
pub struct KeyboardEvent {
    pub flags: KeyboardFlags,
    /// The scancode.
    pub key_code: u16,
    pub pad: u16,
}

impl KeyboardEvent {
    pub open spec fn spec_bytes(&self) -> Seq<u8> {
        le16(self.flags.0)
            + le16(self.key_code)
            + le16(self.pad)
    }

    /// What the decoder makes of `s`.
    pub open spec fn spec_parse(s: Seq<u8>) -> core::result::Result<(KeyboardEvent, int), ErrorKind> {
        if s.len() < 6 {
            Err(ErrorKind::InsufficientData { needed: 6, available: s.len() as usize })
        } else {
            Ok((KeyboardEvent {
                flags: KeyboardFlags(get_le16(s, 0)),
                key_code: get_le16(s, 2),
                pad: get_le16(s, 4),
            }, 6))
        }
    }

    /// Appends the 6 bytes.
    pub fn encode(&self, buffer: &mut Vec<u8>) -> (r: Result<()>)
        ensures
            r is Ok,
            final(buffer)@ == old(buffer)@ + self.spec_bytes(),
    {
        put_u16_le(buffer, self.flags.0);
        put_u16_le(buffer, self.key_code);
        put_u16_le(buffer, self.pad);
        assert(final(buffer)@ =~= old(buffer)@ + self.spec_bytes());
        Ok(())
    }

    /// Reads the 6 bytes.
    pub fn decode(buffer: &mut BerReader) -> (r: Result<Self>)
        ensures
            crate::ber::consumed(*old(buffer), *final(buffer)),
            reads(r, Self::spec_parse(old(buffer).rest()), old(buffer).rest(), final(buffer).rest()),
    {
        if buffer.remaining() < 6 {
            return Err(PduError::InsufficientData { needed: 6, available: buffer.remaining() });
        }
        let ghost s = buffer.rest();
        let flags_raw = buffer.take_u16_le();
        assert(buffer.rest() =~= s.skip(2));
        let key_code_raw = buffer.take_u16_le();
        assert(buffer.rest() =~= s.skip(4));
        let pad_raw = buffer.take_u16_le();
        assert(buffer.rest() =~= s.skip(6));
        Ok(KeyboardEvent {
            flags: KeyboardFlags(flags_raw),
            key_code: key_code_raw,
            pad: pad_raw,
        })
    }

    /// Always 6.
    pub fn size(&self) -> (n: usize)
        ensures
            n == self.spec_bytes().len(),
    {
        6
    }

    /// Every value is read back as written; the bytes after it stay unread.
    pub proof fn lemma_round_trip(self, tail: Seq<u8>)
        ensures
            Self::spec_parse(self.spec_bytes() + tail) == Ok::<(KeyboardEvent, int), ErrorKind>((self, 6)),
    {
        let s = self.spec_bytes() + tail;
        lemma_le16(self.flags.0);
        assert(get_le16(s, 0) == get_le16(le16(self.flags.0), 0));
        lemma_le16(self.key_code);
        assert(get_le16(s, 2) == get_le16(le16(self.key_code), 0));
        lemma_le16(self.pad);
        assert(get_le16(s, 4) == get_le16(le16(self.pad), 0));
    }
}

impl KeyboardEvent {
    pub const SIZE: usize = 6;

    pub fn new(flags: KeyboardFlags, key_code: u16) -> (r: Self)
        ensures
            r == (KeyboardEvent { flags, key_code, pad: 0 }),
    {
        KeyboardEvent { flags, key_code, pad: 0 }
    }

    pub fn key_down(key_code: u16) -> (r: Self)
        ensures
            r == (KeyboardEvent { flags: KeyboardFlags(0), key_code, pad: 0 }),
    {
        Self::new(KeyboardFlags::key_down(), key_code)
    }

    pub fn key_up(key_code: u16) -> (r: Self)
        ensures
            r == (KeyboardEvent { flags: KeyboardFlags(0x8000), key_code, pad: 0 }),
    {
        Self::new(KeyboardFlags::key_up(), key_code)
    }

    pub fn extended_key_down(key_code: u16) -> (r: Self)
        ensures
            r == (KeyboardEvent { flags: KeyboardFlags(0x0100), key_code, pad: 0 }),
    {
        Self::new(KeyboardFlags::extended_key_down(), key_code)
    }

    pub fn extended_key_up(key_code: u16) -> (r: Self)
        ensures
            r == (KeyboardEvent { flags: KeyboardFlags(0x8100), key_code, pad: 0 }),
    {
        Self::new(KeyboardFlags::extended_key_up(), key_code)
    }
}

/// Flags of a Unicode keyboard event.
#[derive(Debug, Clone, Copy, PartialEq, Eq)]
pub struct UnicodeKeyboardFlags(pub u16);

impl UnicodeKeyboardFlags {
    /// Key released.
    pub const RELEASE: u16 = 0x8000;

    /// Flags with the given bits.
    pub fn new(value: u16) -> (r: Self)
        ensures
            r.0 == value,
    {
        UnicodeKeyboardFlags(value)
    }

    /// A key press.
    pub fn key_down() -> (r: Self)
        ensures
            r.0 == 0x0000,
    {
        UnicodeKeyboardFlags(0)
    }

    /// A key release.
    pub fn key_up() -> (r: Self)
        ensures
            r.0 == 0x8000,
    {
        UnicodeKeyboardFlags(Self::RELEASE)
    }

    /// Whether the release bit is set.
    pub fn is_release(&self) -> (r: bool)
        ensures
            r == (self.0 & 0x8000 != 0),
    {
        self.0 & Self::RELEASE != 0
    }

    /// The bits.
    pub fn as_u16(self) -> (r: u16)
        ensures
            r == self.0,
    {
        self.0
    }
}

/// A Unicode keyboard event.
#[derive(Debug, Clone, Copy, PartialEq, Eq)]
pub struct UnicodeKeyboardEvent {
    pub flags: UnicodeKeyboardFlags,
    /// The UTF-16 code unit.
    pub unicode_code: u16,
    pub pad: u16,
}

impl UnicodeKeyboardEvent {
    pub open spec fn spec_bytes(&self) -> Seq<u8> {
        le16(self.flags.0)
            + le16(self.unicode_code)
            + le16(self.pad)
    }

    /// What the decoder makes of `s`.
    pub open spec fn spec_parse(s: Seq<u8>) -> core::result::Result<(UnicodeKeyboardEvent, int), ErrorKind> {
        if s.len() < 6 {
            Err(ErrorKind::InsufficientData { needed: 6, available: s.len() as usize })
        } else {
            Ok((UnicodeKeyboardEvent {
                flags: UnicodeKeyboardFlags(get_le16(s, 0)),
                unicode_code: get_le16(s, 2),
                pad: get_le16(s, 4),
            }, 6))
        }
    }

    /// Appends the 6 bytes.
    pub fn encode(&self, buffer: &mut Vec<u8>) -> (r: Result<()>)
        ensures
            r is Ok,
            final(buffer)@ == old(buffer)@ + self.spec_bytes(),
    {
        put_u16_le(buffer, self.flags.0);
        put_u16_le(buffer, self.unicode_code);
        put_u16_le(buffer, self.pad);
        assert(final(buffer)@ =~= old(buffer)@ + self.spec_bytes());
        Ok(())
    }

    /// Reads the 6 bytes.
    pub fn decode(buffer: &mut BerReader) -> (r: Result<Self>)
        ensures
            crate::ber::consumed(*old(buffer), *final(buffer)),
            reads(r, Self::spec_parse(old(buffer).rest()), old(buffer).rest(), final(buffer).rest()),
    {
        if buffer.remaining() < 6 {
            return Err(PduError::InsufficientData { needed: 6, available: buffer.remaining() });
        }
        let ghost s = buffer.rest();
        let flags_raw = buffer.take_u16_le();
        assert(buffer.rest() =~= s.skip(2));
        let unicode_code_raw = buffer.take_u16_le();
        assert(buffer.rest() =~= s.skip(4));
        let pad_raw = buffer.take_u16_le();
        assert(buffer.rest() =~= s.skip(6));
        Ok(UnicodeKeyboardEvent {
            flags: UnicodeKeyboardFlags(flags_raw),
            unicode_code: unicode_code_raw,
            pad: pad_raw,
        })
    }

    /// Always 6.
    pub fn size(&self) -> (n: usize)
        ensures
            n == self.spec_bytes().len(),
    {
        6
    }

    /// Every value is read back as written; the bytes after it stay unread.
    pub proof fn lemma_round_trip(self, tail: Seq<u8>)
        ensures
            Self::spec_parse(self.spec_bytes() + tail) == Ok::<(UnicodeKeyboardEvent, int), ErrorKind>((self, 6)),
    {
        let s = self.spec_bytes() + tail;
        lemma_le16(self.flags.0);
        assert(get_le16(s, 0) == get_le16(le16(self.flags.0), 0));
        lemma_le16(self.unicode_code);
        assert(get_le16(s, 2) == get_le16(le16(self.unicode_code), 0));
        lemma_le16(self.pad);
        assert(get_le16(s, 4) == get_le16(le16(self.pad), 0));
    }
}

impl UnicodeKeyboardEvent {
    pub const SIZE: usize = 6;

    pub fn new(flags: UnicodeKeyboardFlags, unicode_code: u16) -> (r: Self)
        ensures
            r == (UnicodeKeyboardEvent { flags, unicode_code, pad: 0 }),
    {
        UnicodeKeyboardEvent { flags, unicode_code, pad: 0 }
    }

    pub fn key_down(unicode_code: u16) -> (r: Self)
        ensures
            r == (UnicodeKeyboardEvent { flags: UnicodeKeyboardFlags(0), unicode_code, pad: 0 }),
    {
        Self::new(UnicodeKeyboardFlags::key_down(), unicode_code)
    }

    pub fn key_up(unicode_code: u16) -> (r: Self)
        ensures
            r == (UnicodeKeyboardEvent { flags: UnicodeKeyboardFlags(0x8000), unicode_code, pad: 0 }),
    {
        Self::new(UnicodeKeyboardFlags::key_up(), unicode_code)
    }
}

/// Flags of a mouse event.
#[derive(Debug, Clone, Copy, PartialEq, Eq)]
pub struct MouseFlags(pub u16);

impl MouseFlags {
    pub const MOVE: u16 = 0x0800;
    pub const DOWN: u16 = 0x8000;
    pub const BUTTON1: u16 = 0x1000;
    pub const BUTTON2: u16 = 0x2000;
    pub const BUTTON3: u16 = 0x4000;
    pub const WHEEL: u16 = 0x0200;
    pub const HWHEEL: u16 = 0x0400;
    pub const WHEEL_NEGATIVE: u16 = 0x0100;

    /// Flags with the given bits.
    pub fn new(value: u16) -> (r: Self)
        ensures
            r.0 == value,
    {
        MouseFlags(value)
    }

    /// A move.
    pub fn move_event() -> (r: Self)
        ensures
            r.0 == 0x0800,
    {
        MouseFlags(Self::MOVE)
    }

    /// Left button pressed.
    pub fn left_button_down() -> (r: Self)
        ensures
            r.0 == 0x9000,
    {
        let v = Self::DOWN | Self::BUTTON1;
        assert(0x8000u16 | 0x1000u16 == 0x9000u16) by (bit_vector);
        MouseFlags(v)
    }

    /// Left button released.
    pub fn left_button_up() -> (r: Self)
        ensures
            r.0 == 0x1000,
    {
        MouseFlags(Self::BUTTON1)
    }

    /// Right button pressed.
    pub fn right_button_down() -> (r: Self)
        ensures
            r.0 == 0xA000,
    {
        let v = Self::DOWN | Self::BUTTON2;
        assert(0x8000u16 | 0x2000u16 == 0xA000u16) by (bit_vector);
        MouseFlags(v)
    }

    /// Right button released.
    pub fn right_button_up() -> (r: Self)
        ensures
            r.0 == 0x2000,
    {
        MouseFlags(Self::BUTTON2)
    }

    /// Middle button pressed.
    pub fn middle_button_down() -> (r: Self)
        ensures
            r.0 == 0xC000,
    {
        let v = Self::DOWN | Self::BUTTON3;
        assert(0x8000u16 | 0x4000u16 == 0xC000u16) by (bit_vector);
        MouseFlags(v)
    }

    /// Middle button released.
    pub fn middle_button_up() -> (r: Self)
        ensures
            r.0 == 0x4000,
    {
        MouseFlags(Self::BUTTON3)
    }

    /// Whether the move bit is set.
    pub fn is_move(&self) -> (r: bool)
        ensures
            r == (self.0 & 0x0800 != 0),
    {
        self.0 & Self::MOVE != 0
    }

    /// Whether the down bit is set.
    pub fn is_down(&self) -> (r: bool)
        ensures
            r == (self.0 & 0x8000 != 0),
    {
        self.0 & Self::DOWN != 0
    }

    /// Whether button 1 is named.
    pub fn is_button1(&self) -> (r: bool)
        ensures
            r == (self.0 & 0x1000 != 0),
    {
        self.0 & Self::BUTTON1 != 0
    }

    /// Whether button 2 is named.
    pub fn is_button2(&self) -> (r: bool)
        ensures
            r == (self.0 & 0x2000 != 0),
    {
        self.0 & Self::BUTTON2 != 0
    }

    /// Whether button 3 is named.
    pub fn is_button3(&self) -> (r: bool)
        ensures
            r == (self.0 & 0x4000 != 0),
    {
        self.0 & Self::BUTTON3 != 0
    }

    /// Whether the vertical wheel bit is set.
    pub fn is_wheel(&self) -> (r: bool)
        ensures
            r == (self.0 & 0x0200 != 0),
    {
        self.0 & Self::WHEEL != 0
    }

    /// Whether the horizontal wheel bit is set.
    pub fn is_hwheel(&self) -> (r: bool)
        ensures
            r == (self.0 & 0x0400 != 0),
    {
        self.0 & Self::HWHEEL != 0
    }

    /// The bits.
    pub fn as_u16(self) -> (r: u16)
        ensures
            r == self.0,
    {
        self.0
    }
}

impl MouseFlags {
    /// A vertical wheel rotation: the wheel bit, and the negative bit for a
    /// negative rotation. The magnitude is not carried.
    pub fn vertical_wheel(rotation: i16) -> (r: Self)
        ensures
            r.0 == if rotation < 0 { 0x0300u16 } else { 0x0200u16 },
    {
        let mut flags = Self::WHEEL;
        if rotation < 0 {
            flags = flags | Self::WHEEL_NEGATIVE;
            assert(0x0200u16 | 0x0100u16 == 0x0300u16) by (bit_vector);
        }
        MouseFlags(flags)
    }

    /// A horizontal wheel rotation: the horizontal wheel bit, and the
    /// negative bit for a negative rotation.
    pub fn horizontal_wheel(rotation: i16) -> (r: Self)
        ensures
            r.0 == if rotation < 0 { 0x0500u16 } else { 0x0400u16 },
    {
        let mut flags = Self::HWHEEL;
        if rotation < 0 {
            flags = flags | Self::WHEEL_NEGATIVE;
            assert(0x0400u16 | 0x0100u16 == 0x0500u16) by (bit_vector);
        }
        MouseFlags(flags)
    }
}

/// A mouse event: flags and position.
#[derive(Debug, Clone, Copy, PartialEq, Eq)]
pub struct MouseEvent {
    pub flags: MouseFlags,
    pub x_pos: u16,
    pub y_pos: u16,
}

impl MouseEvent {
    pub open spec fn spec_bytes(&self) -> Seq<u8> {
        le16(self.flags.0)
            + le16(self.x_pos)
            + le16(self.y_pos)
    }

    /// What the decoder makes of `s`.
    pub open spec fn spec_parse(s: Seq<u8>) -> core::result::Result<(MouseEvent, int), ErrorKind> {
        if s.len() < 6 {
            Err(ErrorKind::InsufficientData { needed: 6, available: s.len() as usize })
        } else {
            Ok((MouseEvent {
                flags: MouseFlags(get_le16(s, 0)),
                x_pos: get_le16(s, 2),
                y_pos: get_le16(s, 4),
            }, 6))
        }
    }

    /// Appends the 6 bytes.
    pub fn encode(&self, buffer: &mut Vec<u8>) -> (r: Result<()>)
        ensures
            r is Ok,
            final(buffer)@ == old(buffer)@ + self.spec_bytes(),
    {
        put_u16_le(buffer, self.flags.0);
        put_u16_le(buffer, self.x_pos);
        put_u16_le(buffer, self.y_pos);
        assert(final(buffer)@ =~= old(buffer)@ + self.spec_bytes());
        Ok(())
    }

    /// Reads the 6 bytes.
    pub fn decode(buffer: &mut BerReader) -> (r: Result<Self>)
        ensures
            crate::ber::consumed(*old(buffer), *final(buffer)),
            reads(r, Self::spec_parse(old(buffer).rest()), old(buffer).rest(), final(buffer).rest()),
    {
        if buffer.remaining() < 6 {
            return Err(PduError::InsufficientData { needed: 6, available: buffer.remaining() });
        }
        let ghost s = buffer.rest();
        let flags_raw = buffer.take_u16_le();
        assert(buffer.rest() =~= s.skip(2));
        let x_pos_raw = buffer.take_u16_le();
        assert(buffer.rest() =~= s.skip(4));
        let y_pos_raw = buffer.take_u16_le();
        assert(buffer.rest() =~= s.skip(6));
        Ok(MouseEvent {
            flags: MouseFlags(flags_raw),
            x_pos: x_pos_raw,
            y_pos: y_pos_raw,
        })
    }

    /// Always 6.
    pub fn size(&self) -> (n: usize)
        ensures
            n == self.spec_bytes().len(),
    {
        6
    }

    /// Every value is read back as written; the bytes after it stay unread.
    pub proof fn lemma_round_trip(self, tail: Seq<u8>)
        ensures
            Self::spec_parse(self.spec_bytes() + tail) == Ok::<(MouseEvent, int), ErrorKind>((self, 6)),
    {
        let s = self.spec_bytes() + tail;
        lemma_le16(self.flags.0);
        assert(get_le16(s, 0) == get_le16(le16(self.flags.0), 0));
        lemma_le16(self.x_pos);
        assert(get_le16(s, 2) == get_le16(le16(self.x_pos), 0));
        lemma_le16(self.y_pos);
        assert(get_le16(s, 4) == get_le16(le16(self.y_pos), 0));
    }
}

impl MouseEvent {
    pub const SIZE: usize = 6;

    pub fn new(flags: MouseFlags, x_pos: u16, y_pos: u16) -> (r: Self)
        ensures
            r == (MouseEvent { flags, x_pos, y_pos }),
    {
        MouseEvent { flags, x_pos, y_pos }
    }

    /// A move to the position.
    pub fn move_to(x_pos: u16, y_pos: u16) -> (r: Self)
        ensures
            r == (MouseEvent { flags: MouseFlags(0x0800), x_pos, y_pos }),
    {
        Self::new(MouseFlags::move_event(), x_pos, y_pos)
    }

    /// Left button pressed at the position.
    pub fn left_down(x_pos: u16, y_pos: u16) -> (r: Self)
        ensures
            r == (MouseEvent { flags: MouseFlags(0x9000), x_pos, y_pos }),
    {
        Self::new(MouseFlags::left_button_down(), x_pos, y_pos)
    }

    /// Left button released at the position.
    pub fn left_up(x_pos: u16, y_pos: u16) -> (r: Self)
        ensures
            r == (MouseEvent { flags: MouseFlags(0x1000), x_pos, y_pos }),
    {
        Self::new(MouseFlags::left_button_up(), x_pos, y_pos)
    }

    /// Right button pressed at the position.
    pub fn right_down(x_pos: u16, y_pos: u16) -> (r: Self)
        ensures
            r == (MouseEvent { flags: MouseFlags(0xA000), x_pos, y_pos }),
    {
        Self::new(MouseFlags::right_button_down(), x_pos, y_pos)
    }

    /// Right button released at the position.
    pub fn right_up(x_pos: u16, y_pos: u16) -> (r: Self)
        ensures
            r == (MouseEvent { flags: MouseFlags(0x2000), x_pos, y_pos }),
    {
        Self::new(MouseFlags::right_button_up(), x_pos, y_pos)
    }
}

/// Flags of an extended mouse event.
#[derive(Debug, Clone, Copy, PartialEq, Eq)]
pub struct ExtendedMouseFlags(pub u16);

impl ExtendedMouseFlags {
    pub const BUTTON1: u16 = 0x0001;
    pub const BUTTON2: u16 = 0x0002;
    pub const DOWN: u16 = 0x0010;
    pub const MOVE: u16 = 0x0020;
    pub const XBUTTON1: u16 = 0x0004;
    pub const XBUTTON2: u16 = 0x0008;

    /// Flags with the given bits.
    pub fn new(value: u16) -> (r: Self)
        ensures
            r.0 == value,
    {
        ExtendedMouseFlags(value)
    }

    /// A move.
    pub fn move_event() -> (r: Self)
        ensures
            r.0 == 0x0020,
    {
        ExtendedMouseFlags(Self::MOVE)
    }

    /// Extra button 1 pressed.
    pub fn button1_down() -> (r: Self)
        ensures
            r.0 == 0x0011,
    {
        let v = Self::DOWN | Self::BUTTON1;
        assert(0x0010u16 | 0x0001u16 == 0x0011u16) by (bit_vector);
        ExtendedMouseFlags(v)
    }

    /// Extra button 1 released.
    pub fn button1_up() -> (r: Self)
        ensures
            r.0 == 0x0001,
    {
        ExtendedMouseFlags(Self::BUTTON1)
    }

    /// Extra button 2 pressed.
    pub fn button2_down() -> (r: Self)
        ensures
            r.0 == 0x0012,
    {
        let v = Self::DOWN | Self::BUTTON2;
        assert(0x0010u16 | 0x0002u16 == 0x0012u16) by (bit_vector);
        ExtendedMouseFlags(v)
    }

    /// Extra button 2 released.
    pub fn button2_up() -> (r: Self)
        ensures
            r.0 == 0x0002,
    {
        ExtendedMouseFlags(Self::BUTTON2)
    }

    /// Whether the move bit is set.
    pub fn is_move(&self) -> (r: bool)
        ensures
            r == (self.0 & 0x0020 != 0),
    {
        self.0 & Self::MOVE != 0
    }

    /// Whether the down bit is set.
    pub fn is_down(&self) -> (r: bool)
        ensures
            r == (self.0 & 0x0010 != 0),
    {
        self.0 & Self::DOWN != 0
    }

    /// The bits.
    pub fn as_u16(self) -> (r: u16)
        ensures
            r == self.0,
    {
        self.0
    }
}

/// An extended mouse event: flags and position.
#[derive(Debug, Clone, Copy, PartialEq, Eq)]
pub struct ExtendedMouseEvent {
    pub flags: ExtendedMouseFlags,
    pub x_pos: u16,
    pub y_pos: u16,
}

impl ExtendedMouseEvent {
    pub open spec fn spec_bytes(&self) -> Seq<u8> {
        le16(self.flags.0)
            + le16(self.x_pos)
            + le16(self.y_pos)
    }

    /// What the decoder makes of `s`.
    pub open spec fn spec_parse(s: Seq<u8>) -> core::result::Result<(ExtendedMouseEvent, int), ErrorKind> {
        if s.len() < 6 {
            Err(ErrorKind::InsufficientData { needed: 6, available: s.len() as usize })
        } else {
            Ok((ExtendedMouseEvent {
                flags: ExtendedMouseFlags(get_le16(s, 0)),
                x_pos: get_le16(s, 2),
                y_pos: get_le16(s, 4),
            }, 6))
        }
    }

    /// Appends the 6 bytes.
    pub fn encode(&self, buffer: &mut Vec<u8>) -> (r: Result<()>)
        ensures
            r is Ok,
            final(buffer)@ == old(buffer)@ + self.spec_bytes(),
    {
        put_u16_le(buffer, self.flags.0);
        put_u16_le(buffer, self.x_pos);
        put_u16_le(buffer, self.y_pos);
        assert(final(buffer)@ =~= old(buffer)@ + self.spec_bytes());
        Ok(())
    }

    /// Reads the 6 bytes.
    pub fn decode(buffer: &mut BerReader) -> (r: Result<Self>)
        ensures
            crate::ber::consumed(*old(buffer), *final(buffer)),
            reads(r, Self::spec_parse(old(buffer).rest()), old(buffer).rest(), final(buffer).rest()),
    {
        if buffer.remaining() < 6 {
            return Err(PduError::InsufficientData { needed: 6, available: buffer.remaining() });
        }
        let ghost s = buffer.rest();
        let flags_raw = buffer.take_u16_le();
        assert(buffer.rest() =~= s.skip(2));
        let x_pos_raw = buffer.take_u16_le();
        assert(buffer.rest() =~= s.skip(4));
        let y_pos_raw = buffer.take_u16_le();
        assert(buffer.rest() =~= s.skip(6));
        Ok(ExtendedMouseEvent {
            flags: ExtendedMouseFlags(flags_raw),
            x_pos: x_pos_raw,
            y_pos: y_pos_raw,
        })
    }

    /// Always 6.
    pub fn size(&self) -> (n: usize)
        ensures
            n == self.spec_bytes().len(),
    {
        6
    }

    /// Every value is read back as written; the bytes after it stay unread.
    pub proof fn lemma_round_trip(self, tail: Seq<u8>)
        ensures
            Self::spec_parse(self.spec_bytes() + tail) == Ok::<(ExtendedMouseEvent, int), ErrorKind>((self, 6)),
    {
        let s = self.spec_bytes() + tail;
        lemma_le16(self.flags.0);
        assert(get_le16(s, 0) == get_le16(le16(self.flags.0), 0));
        lemma_le16(self.x_pos);
        assert(get_le16(s, 2) == get_le16(le16(self.x_pos), 0));
        lemma_le16(self.y_pos);
        assert(get_le16(s, 4) == get_le16(le16(self.y_pos), 0));
    }
}

impl ExtendedMouseEvent {
    pub const SIZE: usize = 6;

    pub fn new(flags: ExtendedMouseFlags, x_pos: u16, y_pos: u16) -> (r: Self)
        ensures
            r == (ExtendedMouseEvent { flags, x_pos, y_pos }),
    {
        ExtendedMouseEvent { flags, x_pos, y_pos }
    }

    /// A move to the position.
    pub fn move_to(x_pos: u16, y_pos: u16) -> (r: Self)
        ensures
            r == (ExtendedMouseEvent { flags: ExtendedMouseFlags(0x0020), x_pos, y_pos }),
    {
        Self::new(ExtendedMouseFlags::move_event(), x_pos, y_pos)
    }
}

/// A synchronize event: the toggle key states, then a pad.
#[derive(Debug, Clone, Copy, PartialEq, Eq)]
pub struct SyncEvent {
    /// Toggle states.
    pub flags: u16,
    pub pad: u32,
}

impl SyncEvent {
    pub open spec fn spec_bytes(&self) -> Seq<u8> {
        le16(self.flags)
            + le32(self.pad)
    }

    /// What the decoder makes of `s`.
    pub open spec fn spec_parse(s: Seq<u8>) -> core::result::Result<(SyncEvent, int), ErrorKind> {
        if s.len() < 6 {
            Err(ErrorKind::InsufficientData { needed: 6, available: s.len() as usize })
        } else {
            Ok((SyncEvent {
                flags: get_le16(s, 0),
                pad: get_le32(s, 2),
            }, 6))
        }
    }

    /// Appends the 6 bytes.
    pub fn encode(&self, buffer: &mut Vec<u8>) -> (r: Result<()>)
        ensures
            r is Ok,
            final(buffer)@ == old(buffer)@ + self.spec_bytes(),
    {
        put_u16_le(buffer, self.flags);
        put_u32_le(buffer, self.pad);
        assert(final(buffer)@ =~= old(buffer)@ + self.spec_bytes());
        Ok(())
    }

    /// Reads the 6 bytes.
    pub fn decode(buffer: &mut BerReader) -> (r: Result<Self>)
        ensures
            crate::ber::consumed(*old(buffer), *final(buffer)),
            reads(r, Self::spec_parse(old(buffer).rest()), old(buffer).rest(), final(buffer).rest()),
    {
        if buffer.remaining() < 6 {
            return Err(PduError::InsufficientData { needed: 6, available: buffer.remaining() });
        }
        let ghost s = buffer.rest();
        let flags_raw = buffer.take_u16_le();
        assert(buffer.rest() =~= s.skip(2));
        let pad_raw = buffer.take_u32_le();
        assert(buffer.rest() =~= s.skip(6));
        Ok(SyncEvent {
            flags: flags_raw,
            pad: pad_raw,
        })
    }

    /// Always 6.
    pub fn size(&self) -> (n: usize)
        ensures
            n == self.spec_bytes().len(),
    {
        6
    }

    /// Every value is read back as written; the bytes after it stay unread.
    pub proof fn lemma_round_trip(self, tail: Seq<u8>)
        ensures
            Self::spec_parse(self.spec_bytes() + tail) == Ok::<(SyncEvent, int), ErrorKind>((self, 6)),
    {
        let s = self.spec_bytes() + tail;
        lemma_le16(self.flags);
        assert(get_le16(s, 0) == get_le16(le16(self.flags), 0));
        lemma_le32(self.pad);
        assert(get_le32(s, 2) == get_le32(le32(self.pad), 0));
    }
}

impl SyncEvent {
    pub const SCROLL_LOCK: u16 = 0x0001;
    pub const NUM_LOCK: u16 = 0x0002;
    pub const CAPS_LOCK: u16 = 0x0004;
    pub const KANA_LOCK: u16 = 0x0008;
    pub const SIZE: usize = 6;

    pub fn new(flags: u16) -> (r: Self)
        ensures
            r == (SyncEvent { flags, pad: 0 }),
    {
        SyncEvent { flags, pad: 0 }
    }
}

/// Message types of input events.
#[derive(Debug, Clone, Copy, PartialEq, Eq, Structural)]
pub enum InputEventType {
    Sync,
    Unused,
    Scancode,
    Unicode,
    Mouse,
    ExtendedMouse,
}

impl InputEventType {
    pub open spec fn spec_as_u16(self) -> u16 {
        match self {
            InputEventType::Sync => 0x00,
            InputEventType::Unused => 0x02,
            InputEventType::Scancode => 0x04,
            InputEventType::Unicode => 0x05,
            InputEventType::Mouse => 0x8001,
            InputEventType::ExtendedMouse => 0x8002,
        }
    }

    pub open spec fn spec_from_u16(value: u16) -> Option<InputEventType> {
        if value == 0x00 {
            Some(InputEventType::Sync)
        } else if value == 0x02 {
            Some(InputEventType::Unused)
        } else if value == 0x04 {
            Some(InputEventType::Scancode)
        } else if value == 0x05 {
            Some(InputEventType::Unicode)
        } else if value == 0x8001 {
            Some(InputEventType::Mouse)
        } else if value == 0x8002 {
            Some(InputEventType::ExtendedMouse)
        } else {
            None
        }
    }

    pub proof fn lemma_from_as(self)
        ensures
            Self::spec_from_u16(self.spec_as_u16()) == Some(self),
    {
    }

    /// The value on the wire.
    pub fn as_u16(self) -> (r: u16)
        ensures
            r == self.spec_as_u16(),
            Self::spec_from_u16(r) == Some(self),
    {
        match self {
            InputEventType::Sync => 0x00,
            InputEventType::Unused => 0x02,
            InputEventType::Scancode => 0x04,
            InputEventType::Unicode => 0x05,
            InputEventType::Mouse => 0x8001,
            InputEventType::ExtendedMouse => 0x8002,
        }
    }

    /// The variant with the given value, if any.
    pub fn from_u16(value: u16) -> (r: Option<InputEventType>)
        ensures
            r == Self::spec_from_u16(value),
            r matches Some(v) ==> v.spec_as_u16() == value,
    {
        match value {
            0x00 => Some(InputEventType::Sync),
            0x02 => Some(InputEventType::Unused),
            0x04 => Some(InputEventType::Scancode),
            0x05 => Some(InputEventType::Unicode),
            0x8001 => Some(InputEventType::Mouse),
            0x8002 => Some(InputEventType::ExtendedMouse),
            _ => None,
        }
    }
}


/// One input event with its variant body.
#[derive(Debug, Clone, Copy, PartialEq, Eq)]
pub enum InputEvent {
    Keyboard(KeyboardEvent),
    Unicode(UnicodeKeyboardEvent),
    Mouse(MouseEvent),
    ExtendedMouse(ExtendedMouseEvent),
    Sync(SyncEvent),
}

impl InputEvent {
    pub const BASE_SIZE: usize = 4;

    pub open spec fn spec_event_type(&self) -> InputEventType {
        match self {
            InputEvent::Keyboard(_) => InputEventType::Scancode,
            InputEvent::Unicode(_) => InputEventType::Unicode,
            InputEvent::Mouse(_) => InputEventType::Mouse,
            InputEvent::ExtendedMouse(_) => InputEventType::ExtendedMouse,
            InputEvent::Sync(_) => InputEventType::Sync,
        }
    }

    pub open spec fn body_bytes(&self) -> Seq<u8> {
        match self {
            InputEvent::Keyboard(e) => e.spec_bytes(),
            InputEvent::Unicode(e) => e.spec_bytes(),
            InputEvent::Mouse(e) => e.spec_bytes(),
            InputEvent::ExtendedMouse(e) => e.spec_bytes(),
            InputEvent::Sync(e) => e.spec_bytes(),
        }
    }

    /// Event time (always 0), message type, then the body.
    pub open spec fn spec_bytes(&self) -> Seq<u8> {
        le16(0) + le16(self.spec_event_type().spec_as_u16()) + self.body_bytes()
    }

    /// What the decoder makes of `s`. The reserved type 2 is refused after
    /// its six body bytes are read.
    pub open spec fn spec_parse(s: Seq<u8>) -> core::result::Result<(InputEvent, int), ErrorKind> {
        if s.len() < 4 {
            Err(ErrorKind::InsufficientData { needed: 4, available: s.len() as usize })
        } else {
            let b = s.skip(4);
            match InputEventType::spec_from_u16(get_le16(s, 2)) {
                None => Err(ErrorKind::ParseError),
                Some(InputEventType::Scancode) => match KeyboardEvent::spec_parse(b) {
                    Ok((e, n)) => Ok((InputEvent::Keyboard(e), 4 + n)),
                    Err(k) => Err(k),
                },
                Some(InputEventType::Unicode) => match UnicodeKeyboardEvent::spec_parse(b) {
                    Ok((e, n)) => Ok((InputEvent::Unicode(e), 4 + n)),
                    Err(k) => Err(k),
                },
                Some(InputEventType::Mouse) => match MouseEvent::spec_parse(b) {
                    Ok((e, n)) => Ok((InputEvent::Mouse(e), 4 + n)),
                    Err(k) => Err(k),
                },
                Some(InputEventType::ExtendedMouse) => match ExtendedMouseEvent::spec_parse(b) {
                    Ok((e, n)) => Ok((InputEvent::ExtendedMouse(e), 4 + n)),
                    Err(k) => Err(k),
                },
                Some(InputEventType::Sync) => match SyncEvent::spec_parse(b) {
                    Ok((e, n)) => Ok((InputEvent::Sync(e), 4 + n)),
                    Err(k) => Err(k),
                },
                Some(InputEventType::Unused) => if b.len() < 6 {
                    Err(ErrorKind::InsufficientData { needed: 6, available: b.len() as usize })
                } else {
                    Err(ErrorKind::ParseError)
                },
            }
        }
    }

    /// The message type of this event.
    pub fn event_type(&self) -> (t: InputEventType)
        ensures
            t == self.spec_event_type(),
    {
        match self {
            InputEvent::Keyboard(_) => InputEventType::Scancode,
            InputEvent::Unicode(_) => InputEventType::Unicode,
            InputEvent::Mouse(_) => InputEventType::Mouse,
            InputEvent::ExtendedMouse(_) => InputEventType::ExtendedMouse,
            InputEvent::Sync(_) => InputEventType::Sync,
        }
    }

    /// Appends the four-byte prefix and the body.
    pub fn encode(&self, buffer: &mut Vec<u8>) -> (r: Result<()>)
        ensures
            r is Ok,
            final(buffer)@ == old(buffer)@ + self.spec_bytes(),
    {
        put_u16_le(buffer, 0);
        put_u16_le(buffer, self.event_type().as_u16());
        let ghost mid = buffer@;
        match self {
            InputEvent::Keyboard(e) => {
                let _ = e.encode(buffer);
            },
            InputEvent::Unicode(e) => {
                let _ = e.encode(buffer);
            },
            InputEvent::Mouse(e) => {
                let _ = e.encode(buffer);
            },
            InputEvent::ExtendedMouse(e) => {
                let _ = e.encode(buffer);
            },
            InputEvent::Sync(e) => {
                let _ = e.encode(buffer);
            },
        }
        assert(final(buffer)@ =~= old(buffer)@ + self.spec_bytes());
        Ok(())
    }

    /// Reads one event.
    pub fn decode(buffer: &mut BerReader) -> (r: Result<Self>)
        ensures
            crate::ber::consumed(*old(buffer), *final(buffer)),
            reads(r, Self::spec_parse(old(buffer).rest()), old(buffer).rest(), final(buffer).rest()),
    {
        if buffer.remaining() < 4 {
            return Err(PduError::InsufficientData { needed: 4, available: buffer.remaining() });
        }
        let ghost s = buffer.rest();
        let _time = buffer.take_u16_le();
        let message_type = buffer.take_u16_le();
        assert(buffer.rest() =~= s.skip(4));
        let event_type = match InputEventType::from_u16(message_type) {
            Some(t) => t,
            None => {
                return Err(PduError::parse("unknown input event type"));
            },
        };
        let r = match event_type {
            InputEventType::Scancode => match KeyboardEvent::decode(buffer) {
                Ok(e) => Ok(InputEvent::Keyboard(e)),
                Err(e) => Err(e),
            },
            InputEventType::Unicode => match UnicodeKeyboardEvent::decode(buffer) {
                Ok(e) => Ok(InputEvent::Unicode(e)),
                Err(e) => Err(e),
            },
            InputEventType::Mouse => match MouseEvent::decode(buffer) {
                Ok(e) => Ok(InputEvent::Mouse(e)),
                Err(e) => Err(e),
            },
            InputEventType::ExtendedMouse => match ExtendedMouseEvent::decode(buffer) {
                Ok(e) => Ok(InputEvent::ExtendedMouse(e)),
                Err(e) => Err(e),
            },
            InputEventType::Sync => match SyncEvent::decode(buffer) {
                Ok(e) => Ok(InputEvent::Sync(e)),
                Err(e) => Err(e),
            },
            InputEventType::Unused => {
                let _ = buffer.read_bytes(6)?;
                Err(PduError::parse("reserved input event type"))
            },
        };
        proof {
            if r is Ok {
                let n = Self::spec_parse(s)->Ok_0.1;
                assert(s.skip(4).skip(n - 4) =~= s.skip(n));
            }
        }
        r
    }

    /// Prefix plus body length: 10 for every event.
    pub fn size(&self) -> (n: usize)
        ensures
            n == self.spec_bytes().len(),
            n == 10,
    {
        let body: usize = match self {
            InputEvent::Keyboard(e) => e.size(),
            InputEvent::Unicode(e) => e.size(),
            InputEvent::Mouse(e) => e.size(),
            InputEvent::ExtendedMouse(e) => e.size(),
            InputEvent::Sync(e) => e.size(),
        };
        Self::BASE_SIZE + body
    }

    /// Every event is read back as written.
    pub proof fn lemma_round_trip(self, tail: Seq<u8>)
        ensures
            Self::spec_parse(self.spec_bytes() + tail) == Ok::<(InputEvent, int), ErrorKind>(
                (self, self.spec_bytes().len() as int),
            ),
    {
        let s = self.spec_bytes() + tail;
        let t = self.spec_event_type();
        t.lemma_from_as();
        lemma_le16(0);
        lemma_le16(t.spec_as_u16());
        assert(get_le16(s, 2) == get_le16(le16(t.spec_as_u16()), 0));
        assert(s.skip(4) =~= self.body_bytes() + tail);
        match self {
            InputEvent::Keyboard(e) => e.lemma_round_trip(tail),
            InputEvent::Unicode(e) => e.lemma_round_trip(tail),
            InputEvent::Mouse(e) => e.lemma_round_trip(tail),
            InputEvent::ExtendedMouse(e) => e.lemma_round_trip(tail),
            InputEvent::Sync(e) => e.lemma_round_trip(tail),
        }
    }
}

/// The bytes of events one after another.
pub open spec fn events_bytes(es: Seq<InputEvent>) -> Seq<u8>
    decreases es.len(),
{
    if es.len() == 0 {
        Seq::empty()
    } else {
        events_bytes(es.drop_last()) + es.last().spec_bytes()
    }
}

/// `k` events one after another.
pub open spec fn parse_events(s: Seq<u8>, k: nat) -> core::result::Result<(Seq<InputEvent>, int), ErrorKind>
    decreases k,
{
    if k == 0 {
        Ok((Seq::empty(), 0))
    } else {
        match parse_events(s, (k - 1) as nat) {
            Err(e) => Err(e),
            Ok((es, m)) => match InputEvent::spec_parse(s.skip(m)) {
                Err(e) => Err(e),
                Ok((ev, n)) => Ok((es.push(ev), m + n)),
            },
        }
    }
}

/// Once reading events in a row has failed, reading more fails the same way.
pub proof fn lemma_events_error_sticks(s: Seq<u8>, j: nat, k: nat)
    requires
        j <= k,
        parse_events(s, j) is Err,
    ensures
        parse_events(s, k) == parse_events(s, j),
    decreases k - j,
{
    if j < k {
        lemma_events_error_sticks(s, j, (k - 1) as nat);
    }
}

/// Events written one after another are read back, and the bytes after them
/// stay unread.
pub proof fn lemma_events_round_trip(es: Seq<InputEvent>, tail: Seq<u8>)
    ensures
        parse_events(events_bytes(es) + tail, es.len()) == Ok::<(Seq<InputEvent>, int), ErrorKind>(
            (es, events_bytes(es).len() as int),
        ),
    decreases es.len(),
{
    if es.len() > 0 {
        let init = es.drop_last();
        let last = es.last();
        let s = events_bytes(es) + tail;
        assert(s =~= events_bytes(init) + (last.spec_bytes() + tail));
        lemma_events_round_trip(init, last.spec_bytes() + tail);
        assert(s.skip(events_bytes(init).len() as int) =~= last.spec_bytes() + tail);
        last.lemma_round_trip(tail);
        assert(init.push(last) =~= es);
        assert((es.len() - 1) as nat == init.len());
        assert(events_bytes(es).len() == events_bytes(init).len() + last.spec_bytes().len());
    } else {
        assert(es =~= Seq::<InputEvent>::empty());
    }
}

/// What an [`InputEventPdu`] holds.
pub struct InputEventPduModel {
    pub num_events: u16,
    pub events: Seq<InputEvent>,
}

/// The Input Event PDU: a count, a pad, then the events.
#[derive(Debug, Clone, PartialEq, Eq)]
pub struct InputEventPdu {
    pub num_events: u16,
    pub events: Vec<InputEvent>,
}

impl View for InputEventPdu {
    type V = InputEventPduModel;

    open spec fn view(&self) -> InputEventPduModel {
        InputEventPduModel { num_events: self.num_events, events: self.events@ }
    }
}

impl InputEventPduModel {
    pub open spec fn spec_bytes(&self) -> Seq<u8> {
        le16(self.num_events) + le16(0) + events_bytes(self.events)
    }

    /// The count matches the events.
    pub open spec fn wf(&self) -> bool {
        self.num_events == self.events.len()
    }
}

impl InputEventPdu {
    pub const MIN_SIZE: usize = 4;

    /// Count and pad, then as many events as the count says.
    pub open spec fn spec_parse(s: Seq<u8>) -> core::result::Result<(InputEventPduModel, int), ErrorKind> {
        if s.len() < 4 {
            Err(ErrorKind::InsufficientData { needed: 4, available: s.len() as usize })
        } else {
            match parse_events(s.skip(4), get_le16(s, 0) as nat) {
                Err(e) => Err(e),
                Ok((es, m)) => Ok((InputEventPduModel { num_events: get_le16(s, 0), events: es }, 4 + m)),
            }
        }
    }

    /// A PDU carrying `events`; the count is derived.
    pub fn new(events: Vec<InputEvent>) -> (r: Self)
        requires
            events@.len() <= 65535,
        ensures
            r@.wf(),
            r@.events == events@,
    {
        let num_events = events.len() as u16;
        InputEventPdu { num_events, events }
    }

    /// A PDU carrying one event.
    pub fn single(event: InputEvent) -> (r: Self)
        ensures
            r@.wf(),
            r@.events == seq![event],
    {
        let v = vec![event];
        assert(v@ =~= seq![event]);
        Self::new(v)
    }

    /// Appends count, pad and events.
    pub fn encode(&self, buffer: &mut Vec<u8>) -> (r: Result<()>)
        ensures
            r is Ok,
            final(buffer)@ == old(buffer)@ + self@.spec_bytes(),
    {
        put_u16_le(buffer, self.num_events);
        put_u16_le(buffer, 0);
        let ghost start = buffer@;
        let mut i: usize = 0;
        while i < self.events.len()
            invariant
                i <= self.events@.len(),
                buffer@ == start + events_bytes(self.events@.take(i as int)),
            decreases self.events@.len() - i,
        {
            let _ = self.events[i].encode(buffer);
            assert(self.events@.take(i + 1).drop_last() =~= self.events@.take(i as int));
            i = i + 1;
        }
        assert(self.events@.take(i as int) =~= self.events@);
        assert(final(buffer)@ =~= old(buffer)@ + self@.spec_bytes());
        Ok(())
    }

    /// Reads the count and the pad, then that many events.
    pub fn decode(buffer: &mut BerReader) -> (r: Result<Self>)
        ensures
            crate::ber::consumed(*old(buffer), *final(buffer)),
            crate::ber::reads_view(r, Self::spec_parse(old(buffer).rest()), old(buffer).rest(), final(buffer).rest()),
    {
        if buffer.remaining() < 4 {
            return Err(PduError::InsufficientData { needed: 4, available: buffer.remaining() });
        }
        let ghost s0 = buffer.rest();
        let num_events = buffer.take_u16_le();
        let _pad = buffer.take_u16_le();
        assert(buffer.rest() =~= s0.skip(4));
        let ghost s = buffer.rest();
        let mut events: Vec<InputEvent> = Vec::new();
        let mut i: u16 = 0;
        let ghost mut m: int = 0;
        assert(s.skip(0) =~= s);
        while i < num_events
            invariant
                crate::ber::consumed(*old(buffer), *buffer),
                i <= num_events,
                s0 == old(buffer).rest(),
                s0.len() >= 4,
                num_events == get_le16(s0, 0),
                s == s0.skip(4),
                parse_events(s, i as nat) == Ok::<(Seq<InputEvent>, int), ErrorKind>((events@, m)),
                0 <= m <= s.len(),
                buffer.rest() == s.skip(m),
            decreases num_events - i,
        {
            let ev = match InputEvent::decode(buffer) {
                Ok(ev) => ev,
                Err(e) => {
                    proof {
                        assert(((i + 1) as nat - 1) as nat == i as nat);
                        assert(parse_events(s, (i + 1) as nat) == Err::<(Seq<InputEvent>, int), ErrorKind>(e.spec_kind()));
                        lemma_events_error_sticks(s, (i + 1) as nat, num_events as nat);
                    }
                    return Err(e);
                },
            };
            let ghost n = InputEvent::spec_parse(s.skip(m))->Ok_0.1;
            proof {
                assert(s.skip(m).skip(n) =~= s.skip(m + n));
                m = m + n;
            }
            events.push(ev);
            i = i + 1;
        }
        assert(s0.skip(4).skip(m) =~= s0.skip(4 + m));
        Ok(InputEventPdu { num_events, events })
    }

    /// Four plus the size of every event.
    pub fn size(&self) -> (n: usize)
        requires
            self@.events.len() <= 65535,
        ensures
            n == self@.spec_bytes().len(),
            n <= 4 + 10 * 65535,
    {
        let mut n: usize = Self::MIN_SIZE;
        let mut i: usize = 0;
        while i < self.events.len()
            invariant
                i <= self.events@.len() <= 65535,
                n == 4 + events_bytes(self.events@.take(i as int)).len(),
                n <= 4 + 10 * i,
            decreases self.events@.len() - i,
        {
            assert(self.events@.take(i + 1).drop_last() =~= self.events@.take(i as int));
            n = n + self.events[i].size();
            i = i + 1;
        }
        assert(self.events@.take(i as int) =~= self.events@);
        n
    }

    /// A PDU whose count matches its events is read back as written.
    pub proof fn lemma_round_trip(m: InputEventPduModel, tail: Seq<u8>)
        requires
            m.wf(),
        ensures
            Self::spec_parse(m.spec_bytes() + tail) == Ok::<(InputEventPduModel, int), ErrorKind>(
                (m, m.spec_bytes().len() as int),
            ),
    {
        let s = m.spec_bytes() + tail;
        lemma_le16(m.num_events);
        lemma_le16(0);
        assert(get_le16(s, 0) == get_le16(le16(m.num_events), 0));
        assert(s.skip(4) =~= events_bytes(m.events) + tail);
        lemma_events_round_trip(m.events, tail);
    }
}

} // verus!
