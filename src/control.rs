//! RDP control sub-PDUs: Synchronize, Control, Font List and Font Map.
use vstd::prelude::*;
use crate::ber::{reads, BerReader};
use crate::bytes::{get_le16, get_le32, le16, le32, lemma_le16, lemma_le32, put_u16_le, put_u32_le};
use crate::error::{ErrorKind, PduError, Result};

verus! {

/// Actions of a Control PDU.
#[derive(Debug, Clone, Copy, PartialEq, Eq, Structural)]
pub enum ControlAction {
    RequestControl,
    GrantedControl,
    Detach,
    Cooperate,
}

impl ControlAction {
    pub open spec fn spec_as_u16(self) -> u16 {
        match self {
            ControlAction::RequestControl => 0x01,
            ControlAction::GrantedControl => 0x02,
            ControlAction::Detach => 0x03,
            ControlAction::Cooperate => 0x04,
        }
    }

    pub open spec fn spec_from_u16(value: u16) -> Option<ControlAction> {
        if value == 0x01 {
            Some(ControlAction::RequestControl)
        } else if value == 0x02 {
            Some(ControlAction::GrantedControl)
        } else if value == 0x03 {
            Some(ControlAction::Detach)
        } else if value == 0x04 {
            Some(ControlAction::Cooperate)
        } else {
            None
        }
    }

    pub proof fn lemma_from_as(self)
        ensures
            Self::spec_from_u16(self.spec_as_u16()) == Some(self),
    {
    }

    /// The value on the wire.
    pub fn as_u16(self) -> (r: u16)
        ensures
            r == self.spec_as_u16(),
            Self::spec_from_u16(r) == Some(self),
    {
        match self {
            ControlAction::RequestControl => 0x01,
            ControlAction::GrantedControl => 0x02,
            ControlAction::Detach => 0x03,
            ControlAction::Cooperate => 0x04,
        }
    }

    /// The variant with the given value, if any.
    pub fn from_u16(value: u16) -> (r: Option<ControlAction>)
        ensures
            r == Self::spec_from_u16(value),
            r matches Some(v) ==> v.spec_as_u16() == value,
    {
        match value {
            0x01 => Some(ControlAction::RequestControl),
            0x02 => Some(ControlAction::GrantedControl),
            0x03 => Some(ControlAction::Detach),
            0x04 => Some(ControlAction::Cooperate),
            _ => None,
        }
    }
}

/// Synchronize PDU: message type and target user.
#[derive(Debug, Clone, Copy, PartialEq, Eq)]
pub struct SynchronizePdu {
    /// Always 1.
    pub message_type: u16,
    pub target_user: u16,
}

impl SynchronizePdu {
    pub open spec fn spec_bytes(&self) -> Seq<u8> {
        le16(self.message_type)
            + le16(self.target_user)
    }

    /// What the decoder makes of `s`.
    pub open spec fn spec_parse(s: Seq<u8>) -> core::result::Result<(SynchronizePdu, int), ErrorKind> {
        if s.len() < 4 {
            Err(ErrorKind::InsufficientData { needed: 4, available: s.len() as usize })
        } else {
            Ok((SynchronizePdu {
                message_type: get_le16(s, 0),
                target_user: get_le16(s, 2),
            }, 4))
        }
    }

    /// Appends the 4 bytes.
    pub fn encode(&self, buffer: &mut Vec<u8>) -> (r: Result<()>)
        ensures
            r is Ok,
            final(buffer)@ == old(buffer)@ + self.spec_bytes(),
    {
        put_u16_le(buffer, self.message_type);
        put_u16_le(buffer, self.target_user);
        assert(final(buffer)@ =~= old(buffer)@ + self.spec_bytes());
        Ok(())
    }

    /// Reads the 4 bytes.
    pub fn decode(buffer: &mut BerReader) -> (r: Result<Self>)
        ensures
            crate::ber::consumed(*old(buffer), *final(buffer)),
            reads(r, Self::spec_parse(old(buffer).rest()), old(buffer).rest(), final(buffer).rest()),
    {
        if buffer.remaining() < 4 {
            return Err(PduError::InsufficientData { needed: 4, available: buffer.remaining() });
        }
        let ghost s = buffer.rest();
        let message_type_raw = buffer.take_u16_le();
        assert(buffer.rest() =~= s.skip(2));
        let target_user_raw = buffer.take_u16_le();
        assert(buffer.rest() =~= s.skip(4));
        Ok(SynchronizePdu {
            message_type: message_type_raw,
            target_user: target_user_raw,
        })
    }

    /// Always 4.
    pub fn size(&self) -> (n: usize)
        ensures
            n == self.spec_bytes().len(),
    {
        4
    }

    /// Every value is read back as written; the bytes after it stay unread.
    pub proof fn lemma_round_trip(self, tail: Seq<u8>)
        ensures
            Self::spec_parse(self.spec_bytes() + tail) == Ok::<(SynchronizePdu, int), ErrorKind>((self, 4)),
    {
        let s = self.spec_bytes() + tail;
        lemma_le16(self.message_type);
        assert(get_le16(s, 0) == get_le16(le16(self.message_type), 0));
        lemma_le16(self.target_user);
        assert(get_le16(s, 2) == get_le16(le16(self.target_user), 0));
    }
}

/// Control PDU: action, grant id and control id.
#[derive(Debug, Clone, Copy, PartialEq, Eq)]
pub struct ControlPdu {
    pub action: ControlAction,
    pub grant_id: u16,
    pub control_id: u32,
}

impl ControlPdu {
    pub open spec fn spec_bytes(&self) -> Seq<u8> {
        le16(self.action.spec_as_u16())
            + le16(self.grant_id)
            + le32(self.control_id)
    }

    /// What the decoder makes of `s`.
    pub open spec fn spec_parse(s: Seq<u8>) -> core::result::Result<(ControlPdu, int), ErrorKind> {
        if s.len() < 8 {
            Err(ErrorKind::InsufficientData { needed: 8, available: s.len() as usize })
        } else if ControlAction::spec_from_u16(get_le16(s, 0)) is None {
            Err(ErrorKind::ParseError)
        } else {
            Ok((ControlPdu {
                action: ControlAction::spec_from_u16(get_le16(s, 0))->0,
                grant_id: get_le16(s, 2),
                control_id: get_le32(s, 4),
            }, 8))
        }
    }

    /// Appends the 8 bytes.
    pub fn encode(&self, buffer: &mut Vec<u8>) -> (r: Result<()>)
        ensures
            r is Ok,
            final(buffer)@ == old(buffer)@ + self.spec_bytes(),
    {
        put_u16_le(buffer, self.action.as_u16());
        put_u16_le(buffer, self.grant_id);
        put_u32_le(buffer, self.control_id);
        assert(final(buffer)@ =~= old(buffer)@ + self.spec_bytes());
        Ok(())
    }

    /// Reads the 8 bytes.
    pub fn decode(buffer: &mut BerReader) -> (r: Result<Self>)
        ensures
            crate::ber::consumed(*old(buffer), *final(buffer)),
            reads(r, Self::spec_parse(old(buffer).rest()), old(buffer).rest(), final(buffer).rest()),
    {
        if buffer.remaining() < 8 {
            return Err(PduError::InsufficientData { needed: 8, available: buffer.remaining() });
        }
        let ghost s = buffer.rest();
        let action_raw = buffer.take_u16_le();
        assert(buffer.rest() =~= s.skip(2));
        let grant_id_raw = buffer.take_u16_le();
        assert(buffer.rest() =~= s.skip(4));
        let control_id_raw = buffer.take_u32_le();
        assert(buffer.rest() =~= s.skip(8));
        let action = match ControlAction::from_u16(action_raw) {
            Some(v) => v,
            None => {
                return Err(PduError::parse("unknown ControlAction value"));
            },
        };
        Ok(ControlPdu {
            action,
            grant_id: grant_id_raw,
            control_id: control_id_raw,
        })
    }

    /// Always 8.
    pub fn size(&self) -> (n: usize)
        ensures
            n == self.spec_bytes().len(),
    {
        8
    }

    /// Every value is read back as written; the bytes after it stay unread.
    pub proof fn lemma_round_trip(self, tail: Seq<u8>)
        ensures
            Self::spec_parse(self.spec_bytes() + tail) == Ok::<(ControlPdu, int), ErrorKind>((self, 8)),
    {
        let s = self.spec_bytes() + tail;
        self.action.lemma_from_as();
        lemma_le16(self.action.spec_as_u16());
        assert(get_le16(s, 0) == get_le16(le16(self.action.spec_as_u16()), 0));
        lemma_le16(self.grant_id);
        assert(get_le16(s, 2) == get_le16(le16(self.grant_id), 0));
        lemma_le32(self.control_id);
        assert(get_le32(s, 4) == get_le32(le32(self.control_id), 0));
    }
}

/// Font List PDU.
#[derive(Debug, Clone, Copy, PartialEq, Eq)]
pub struct FontListPdu {
    pub number_fonts: u16,
    pub total_num_fonts: u16,
    pub list_flags: u16,
    pub entry_size: u16,
}

impl FontListPdu {
    pub open spec fn spec_bytes(&self) -> Seq<u8> {
        le16(self.number_fonts)
            + le16(self.total_num_fonts)
            + le16(self.list_flags)
            + le16(self.entry_size)
    }

    /// What the decoder makes of `s`.
    pub open spec fn spec_parse(s: Seq<u8>) -> core::result::Result<(FontListPdu, int), ErrorKind> {
        if s.len() < 8 {
            Err(ErrorKind::InsufficientData { needed: 8, available: s.len() as usize })
        } else {
            Ok((FontListPdu {
                number_fonts: get_le16(s, 0),
                total_num_fonts: get_le16(s, 2),
                list_flags: get_le16(s, 4),
                entry_size: get_le16(s, 6),
            }, 8))
        }
    }

    /// Appends the 8 bytes.
    pub fn encode(&self, buffer: &mut Vec<u8>) -> (r: Result<()>)
        ensures
            r is Ok,
            final(buffer)@ == old(buffer)@ + self.spec_bytes(),
    {
        put_u16_le(buffer, self.number_fonts);
        put_u16_le(buffer, self.total_num_fonts);
        put_u16_le(buffer, self.list_flags);
        put_u16_le(buffer, self.entry_size);
        assert(final(buffer)@ =~= old(buffer)@ + self.spec_bytes());
        Ok(())
    }

    /// Reads the 8 bytes.
    pub fn decode(buffer: &mut BerReader) -> (r: Result<Self>)
        ensures
            crate::ber::consumed(*old(buffer), *final(buffer)),
            reads(r, Self::spec_parse(old(buffer).rest()), old(buffer).rest(), final(buffer).rest()),
    {
        if buffer.remaining() < 8 {
            return Err(PduError::InsufficientData { needed: 8, available: buffer.remaining() });
        }
        let ghost s = buffer.rest();
        let number_fonts_raw = buffer.take_u16_le();
        assert(buffer.rest() =~= s.skip(2));
        let total_num_fonts_raw = buffer.take_u16_le();
        assert(buffer.rest() =~= s.skip(4));
        let list_flags_raw = buffer.take_u16_le();
        assert(buffer.rest() =~= s.skip(6));
        let entry_size_raw = buffer.take_u16_le();
        assert(buffer.rest() =~= s.skip(8));
        Ok(FontListPdu {
            number_fonts: number_fonts_raw,
            total_num_fonts: total_num_fonts_raw,
            list_flags: list_flags_raw,
            entry_size: entry_size_raw,
        })
    }

    /// Always 8.
    pub fn size(&self) -> (n: usize)
        ensures
            n == self.spec_bytes().len(),
    {
        8
    }

    /// Every value is read back as written; the bytes after it stay unread.
    pub proof fn lemma_round_trip(self, tail: Seq<u8>)
        ensures
            Self::spec_parse(self.spec_bytes() + tail) == Ok::<(FontListPdu, int), ErrorKind>((self, 8)),
    {
        let s = self.spec_bytes() + tail;
        lemma_le16(self.number_fonts);
        assert(get_le16(s, 0) == get_le16(le16(self.number_fonts), 0));
        lemma_le16(self.total_num_fonts);
        assert(get_le16(s, 2) == get_le16(le16(self.total_num_fonts), 0));
        lemma_le16(self.list_flags);
        assert(get_le16(s, 4) == get_le16(le16(self.list_flags), 0));
        lemma_le16(self.entry_size);
        assert(get_le16(s, 6) == get_le16(le16(self.entry_size), 0));
    }
}

/// Font Map PDU.
#[derive(Debug, Clone, Copy, PartialEq, Eq)]
pub struct FontMapPdu {
    pub number_entries: u16,
    pub total_num_entries: u16,
    pub map_flags: u16,
    pub entry_size: u16,
}

impl FontMapPdu {
    pub open spec fn spec_bytes(&self) -> Seq<u8> {
        le16(self.number_entries)
            + le16(self.total_num_entries)
            + le16(self.map_flags)
            + le16(self.entry_size)
    }

    /// What the decoder makes of `s`.
    pub open spec fn spec_parse(s: Seq<u8>) -> core::result::Result<(FontMapPdu, int), ErrorKind> {
        if s.len() < 8 {
            Err(ErrorKind::InsufficientData { needed: 8, available: s.len() as usize })
        } else {
            Ok((FontMapPdu {
                number_entries: get_le16(s, 0),
                total_num_entries: get_le16(s, 2),
                map_flags: get_le16(s, 4),
                entry_size: get_le16(s, 6),
            }, 8))
        }
    }

    /// Appends the 8 bytes.
    pub fn encode(&self, buffer: &mut Vec<u8>) -> (r: Result<()>)
        ensures
            r is Ok,
            final(buffer)@ == old(buffer)@ + self.spec_bytes(),
    {
        put_u16_le(buffer, self.number_entries);
        put_u16_le(buffer, self.total_num_entries);
        put_u16_le(buffer, self.map_flags);
        put_u16_le(buffer, self.entry_size);
        assert(final(buffer)@ =~= old(buffer)@ + self.spec_bytes());
        Ok(())
    }

    /// Reads the 8 bytes.
    pub fn decode(buffer: &mut BerReader) -> (r: Result<Self>)
        ensures
            crate::ber::consumed(*old(buffer), *final(buffer)),
            reads(r, Self::spec_parse(old(buffer).rest()), old(buffer).rest(), final(buffer).rest()),
    {
        if buffer.remaining() < 8 {
            return Err(PduError::InsufficientData { needed: 8, available: buffer.remaining() });
        }
        let ghost s = buffer.rest();
        let number_entries_raw = buffer.take_u16_le();
        assert(buffer.rest() =~= s.skip(2));
        let total_num_entries_raw = buffer.take_u16_le();
        assert(buffer.rest() =~= s.skip(4));
        let map_flags_raw = buffer.take_u16_le();
        assert(buffer.rest() =~= s.skip(6));
        let entry_size_raw = buffer.take_u16_le();
        assert(buffer.rest() =~= s.skip(8));
        Ok(FontMapPdu {
            number_entries: number_entries_raw,
            total_num_entries: total_num_entries_raw,
            map_flags: map_flags_raw,
            entry_size: entry_size_raw,
        })
    }

    /// Always 8.
    pub fn size(&self) -> (n: usize)
        ensures
            n == self.spec_bytes().len(),
    {
        8
    }

    /// Every value is read back as written; the bytes after it stay unread.
    pub proof fn lemma_round_trip(self, tail: Seq<u8>)
        ensures
            Self::spec_parse(self.spec_bytes() + tail) == Ok::<(FontMapPdu, int), ErrorKind>((self, 8)),
    {
        let s = self.spec_bytes() + tail;
        lemma_le16(self.number_entries);
        assert(get_le16(s, 0) == get_le16(le16(self.number_entries), 0));
        lemma_le16(self.total_num_entries);
        assert(get_le16(s, 2) == get_le16(le16(self.total_num_entries), 0));
        lemma_le16(self.map_flags);
        assert(get_le16(s, 4) == get_le16(le16(self.map_flags), 0));
        lemma_le16(self.entry_size);
        assert(get_le16(s, 6) == get_le16(le16(self.entry_size), 0));
    }
}

impl SynchronizePdu {
    pub const SYNCMSGTYPE_SYNC: u16 = 1;
    pub const SIZE: usize = 4;

    /// A synchronize message for `target_user`.
    pub fn new(target_user: u16) -> (r: Self)
        ensures
            r == (SynchronizePdu { message_type: 1, target_user }),
    {
        SynchronizePdu { message_type: Self::SYNCMSGTYPE_SYNC, target_user }
    }
}

impl ControlPdu {
    pub const SIZE: usize = 8;

    /// Cooperate, with grant and control ids zero.
    pub fn cooperate() -> (r: Self)
        ensures
            r == (ControlPdu { action: ControlAction::Cooperate, grant_id: 0, control_id: 0 }),
    {
        ControlPdu { action: ControlAction::Cooperate, grant_id: 0, control_id: 0 }
    }

    /// Request control, with grant and control ids zero.
    pub fn request_control() -> (r: Self)
        ensures
            r == (ControlPdu { action: ControlAction::RequestControl, grant_id: 0, control_id: 0 }),
    {
        ControlPdu { action: ControlAction::RequestControl, grant_id: 0, control_id: 0 }
    }

    /// Granted control to `grant_id`, with control id 1000.
    pub fn granted_control(grant_id: u16) -> (r: Self)
        ensures
            r == (ControlPdu { action: ControlAction::GrantedControl, grant_id, control_id: 1000 }),
    {
        ControlPdu { action: ControlAction::GrantedControl, grant_id, control_id: 1000 }
    }
}

impl FontListPdu {
    pub const FONTLIST_FIRST_AND_LAST: u16 = 0x0003;
    pub const ENTRY_SIZE: u16 = 0x0032;
    pub const SIZE: usize = 8;

    /// No fonts, first and last, entry size 0x32.
    pub fn new() -> (r: Self)
        ensures
            r == (FontListPdu { number_fonts: 0, total_num_fonts: 0, list_flags: 3, entry_size: 0x32 }),
    {
        FontListPdu {
            number_fonts: 0,
            total_num_fonts: 0,
            list_flags: Self::FONTLIST_FIRST_AND_LAST,
            entry_size: Self::ENTRY_SIZE,
        }
    }
}

impl Default for FontListPdu {
    fn default() -> (r: Self)
        ensures
            r == (FontListPdu { number_fonts: 0, total_num_fonts: 0, list_flags: 3, entry_size: 0x32 }),
    {
        Self::new()
    }
}

impl FontMapPdu {
    pub const FONTMAP_FIRST_AND_LAST: u16 = 0x0003;
    pub const ENTRY_SIZE: u16 = 0x0004;
    pub const SIZE: usize = 8;

    /// No entries, first and last, entry size 4.
    pub fn new() -> (r: Self)
        ensures
            r == (FontMapPdu { number_entries: 0, total_num_entries: 0, map_flags: 3, entry_size: 4 }),
    {
        FontMapPdu {
            number_entries: 0,
            total_num_entries: 0,
            map_flags: Self::FONTMAP_FIRST_AND_LAST,
            entry_size: Self::ENTRY_SIZE,
        }
    }
}

impl Default for FontMapPdu {
    fn default() -> (r: Self)
        ensures
            r == (FontMapPdu { number_entries: 0, total_num_entries: 0, map_flags: 3, entry_size: 4 }),
    {
        Self::new()
    }
}

} // verus!
