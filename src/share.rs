//! RDP share-level headers: the Share Control header and the Share Data header.
use vstd::prelude::*;
use crate::ber::{reads, BerReader};
use crate::bytes::{get_le16, get_le32, le16, le32, lemma_le16, lemma_le32, put_u16_le, put_u32_le, put_u8};
use crate::error::{ErrorKind, PduError, Result};

verus! {

/// Share Control PDU types.
#[derive(Debug, Clone, Copy, PartialEq, Eq, Structural)]
pub enum PduType {
    DemandActive,
    ConfirmActive,
    DeactivateAll,
    Data,
    ServerRedirect,
}

impl PduType {
    pub open spec fn spec_as_u16(self) -> u16 {
        match self {
            PduType::DemandActive => 0x01,
            PduType::ConfirmActive => 0x03,
            PduType::DeactivateAll => 0x06,
            PduType::Data => 0x07,
            PduType::ServerRedirect => 0x0A,
        }
    }

    pub open spec fn spec_from_u16(value: u16) -> Option<PduType> {
        if value == 0x01 {
            Some(PduType::DemandActive)
        } else if value == 0x03 {
            Some(PduType::ConfirmActive)
        } else if value == 0x06 {
            Some(PduType::DeactivateAll)
        } else if value == 0x07 {
            Some(PduType::Data)
        } else if value == 0x0A {
            Some(PduType::ServerRedirect)
        } else {
            None
        }
    }

    pub proof fn lemma_from_as(self)
        ensures
            Self::spec_from_u16(self.spec_as_u16()) == Some(self),
    {
    }

    /// The value on the wire.
    pub fn as_u16(self) -> (r: u16)
        ensures
            r == self.spec_as_u16(),
            Self::spec_from_u16(r) == Some(self),
    {
        match self {
            PduType::DemandActive => 0x01,
            PduType::ConfirmActive => 0x03,
            PduType::DeactivateAll => 0x06,
            PduType::Data => 0x07,
            PduType::ServerRedirect => 0x0A,
        }
    }

    /// The variant with the given value, if any.
    pub fn from_u16(value: u16) -> (r: Option<PduType>)
        ensures
            r == Self::spec_from_u16(value),
            r matches Some(v) ==> v.spec_as_u16() == value,
    {
        match value {
            0x01 => Some(PduType::DemandActive),
            0x03 => Some(PduType::ConfirmActive),
            0x06 => Some(PduType::DeactivateAll),
            0x07 => Some(PduType::Data),
            0x0A => Some(PduType::ServerRedirect),
            _ => None,
        }
    }
}

/// Share Data PDU types (pduType2).
#[derive(Debug, Clone, Copy, PartialEq, Eq, Structural)]
pub enum DataPduType {
    Update,
    Control,
    Pointer,
    Input,
    Synchronize,
    RefreshRect,
    PlaySound,
    SuppressOutput,
    ShutdownRequest,
    ShutdownDenied,
    SaveSessionInfo,
    FontList,
    FontMap,
    SetKeyboardIndicators,
    BitmapCachePersistentList,
    BitmapCacheError,
    SetKeyboardImeStatus,
    OffscreenCacheError,
    SetErrorInfo,
    DrawNineGridError,
    DrawGdiPlusError,
    ArcStatus,
    StatusInfo,
    MonitorLayout,
}

impl DataPduType {
    pub open spec fn spec_as_u8(self) -> u8 {
        match self {
            DataPduType::Update => 0x02,
            DataPduType::Control => 0x14,
            DataPduType::Pointer => 0x1B,
            DataPduType::Input => 0x1C,
            DataPduType::Synchronize => 0x1F,
            DataPduType::RefreshRect => 0x21,
            DataPduType::PlaySound => 0x22,
            DataPduType::SuppressOutput => 0x23,
            DataPduType::ShutdownRequest => 0x24,
            DataPduType::ShutdownDenied => 0x25,
            DataPduType::SaveSessionInfo => 0x26,
            DataPduType::FontList => 0x27,
            DataPduType::FontMap => 0x28,
            DataPduType::SetKeyboardIndicators => 0x29,
            DataPduType::BitmapCachePersistentList => 0x2B,
            DataPduType::BitmapCacheError => 0x2C,
            DataPduType::SetKeyboardImeStatus => 0x2D,
            DataPduType::OffscreenCacheError => 0x2E,
            DataPduType::SetErrorInfo => 0x2F,
            DataPduType::DrawNineGridError => 0x30,
            DataPduType::DrawGdiPlusError => 0x31,
            DataPduType::ArcStatus => 0x32,
            DataPduType::StatusInfo => 0x36,
            DataPduType::MonitorLayout => 0x37,
        }
    }

    pub open spec fn spec_from_u8(value: u8) -> Option<DataPduType> {
        if value == 0x02 {
            Some(DataPduType::Update)
        } else if value == 0x14 {
            Some(DataPduType::Control)
        } else if value == 0x1B {
            Some(DataPduType::Pointer)
        } else if value == 0x1C {
            Some(DataPduType::Input)
        } else if value == 0x1F {
            Some(DataPduType::Synchronize)
        } else if value == 0x21 {
            Some(DataPduType::RefreshRect)
        } else if value == 0x22 {
            Some(DataPduType::PlaySound)
        } else if value == 0x23 {
            Some(DataPduType::SuppressOutput)
        } else if value == 0x24 {
            Some(DataPduType::ShutdownRequest)
        } else if value == 0x25 {
            Some(DataPduType::ShutdownDenied)
        } else if value == 0x26 {
            Some(DataPduType::SaveSessionInfo)
        } else if value == 0x27 {
            Some(DataPduType::FontList)
        } else if value == 0x28 {
            Some(DataPduType::FontMap)
        } else if value == 0x29 {
            Some(DataPduType::SetKeyboardIndicators)
        } else if value == 0x2B {
            Some(DataPduType::BitmapCachePersistentList)
        } else if value == 0x2C {
            Some(DataPduType::BitmapCacheError)
        } else if value == 0x2D {
            Some(DataPduType::SetKeyboardImeStatus)
        } else if value == 0x2E {
            Some(DataPduType::OffscreenCacheError)
        } else if value == 0x2F {
            Some(DataPduType::SetErrorInfo)
        } else if value == 0x30 {
            Some(DataPduType::DrawNineGridError)
        } else if value == 0x31 {
            Some(DataPduType::DrawGdiPlusError)
        } else if value == 0x32 {
            Some(DataPduType::ArcStatus)
        } else if value == 0x36 {
            Some(DataPduType::StatusInfo)
        } else if value == 0x37 {
            Some(DataPduType::MonitorLayout)
        } else {
            None
        }
    }

    pub proof fn lemma_from_as(self)
        ensures
            Self::spec_from_u8(self.spec_as_u8()) == Some(self),
    {
    }

    /// The value on the wire.
    pub fn as_u8(self) -> (r: u8)
        ensures
            r == self.spec_as_u8(),
            Self::spec_from_u8(r) == Some(self),
    {
        match self {
            DataPduType::Update => 0x02,
            DataPduType::Control => 0x14,
            DataPduType::Pointer => 0x1B,
            DataPduType::Input => 0x1C,
            DataPduType::Synchronize => 0x1F,
            DataPduType::RefreshRect => 0x21,
            DataPduType::PlaySound => 0x22,
            DataPduType::SuppressOutput => 0x23,
            DataPduType::ShutdownRequest => 0x24,
            DataPduType::ShutdownDenied => 0x25,
            DataPduType::SaveSessionInfo => 0x26,
            DataPduType::FontList => 0x27,
            DataPduType::FontMap => 0x28,
            DataPduType::SetKeyboardIndicators => 0x29,
            DataPduType::BitmapCachePersistentList => 0x2B,
            DataPduType::BitmapCacheError => 0x2C,
            DataPduType::SetKeyboardImeStatus => 0x2D,
            DataPduType::OffscreenCacheError => 0x2E,
            DataPduType::SetErrorInfo => 0x2F,
            DataPduType::DrawNineGridError => 0x30,
            DataPduType::DrawGdiPlusError => 0x31,
            DataPduType::ArcStatus => 0x32,
            DataPduType::StatusInfo => 0x36,
            DataPduType::MonitorLayout => 0x37,
        }
    }

    /// The variant with the given value, if any.
    pub fn from_u8(value: u8) -> (r: Option<DataPduType>)
        ensures
            r == Self::spec_from_u8(value),
            r matches Some(v) ==> v.spec_as_u8() == value,
    {
        match value {
            0x02 => Some(DataPduType::Update),
            0x14 => Some(DataPduType::Control),
            0x1B => Some(DataPduType::Pointer),
            0x1C => Some(DataPduType::Input),
            0x1F => Some(DataPduType::Synchronize),
            0x21 => Some(DataPduType::RefreshRect),
            0x22 => Some(DataPduType::PlaySound),
            0x23 => Some(DataPduType::SuppressOutput),
            0x24 => Some(DataPduType::ShutdownRequest),
            0x25 => Some(DataPduType::ShutdownDenied),
            0x26 => Some(DataPduType::SaveSessionInfo),
            0x27 => Some(DataPduType::FontList),
            0x28 => Some(DataPduType::FontMap),
            0x29 => Some(DataPduType::SetKeyboardIndicators),
            0x2B => Some(DataPduType::BitmapCachePersistentList),
            0x2C => Some(DataPduType::BitmapCacheError),
            0x2D => Some(DataPduType::SetKeyboardImeStatus),
            0x2E => Some(DataPduType::OffscreenCacheError),
            0x2F => Some(DataPduType::SetErrorInfo),
            0x30 => Some(DataPduType::DrawNineGridError),
            0x31 => Some(DataPduType::DrawGdiPlusError),
            0x32 => Some(DataPduType::ArcStatus),
            0x36 => Some(DataPduType::StatusInfo),
            0x37 => Some(DataPduType::MonitorLayout),
            _ => None,
        }
    }
}


/// The Share Control header: total length, PDU type with the protocol
/// version bit 0x0010, and the source, all little-endian.
#[derive(Debug, Clone, Copy, PartialEq, Eq)]
pub struct ShareControlHeader {
    pub total_length: u16,
    pub pdu_type: PduType,
    pub pdu_source: u16,
}

impl ShareControlHeader {
    pub const SIZE: usize = 6;
    pub const PROTOCOL_VERSION: u16 = 0x0010;

    pub open spec fn spec_bytes(&self) -> Seq<u8> {
        le16(self.total_length) + le16(self.pdu_type.spec_as_u16() | 0x0010) + le16(self.pdu_source)
    }

    /// What the decoder makes of `s`: the version bit is masked off before
    /// the type is looked up.
    pub open spec fn spec_parse(s: Seq<u8>) -> core::result::Result<(ShareControlHeader, int), ErrorKind> {
        if s.len() < 6 {
            Err(ErrorKind::InsufficientData { needed: 6, available: s.len() as usize })
        } else if PduType::spec_from_u16(get_le16(s, 2) & 0xFFEF) is None {
            Err(ErrorKind::ParseError)
        } else {
            Ok((
                ShareControlHeader {
                    total_length: get_le16(s, 0),
                    pdu_type: PduType::spec_from_u16(get_le16(s, 2) & 0xFFEF)->0,
                    pdu_source: get_le16(s, 4),
                },
                6,
            ))
        }
    }

    pub fn new(total_length: u16, pdu_type: PduType, pdu_source: u16) -> (h: Self)
        ensures
            h == (ShareControlHeader { total_length, pdu_type, pdu_source }),
    {
        ShareControlHeader { total_length, pdu_type, pdu_source }
    }

    /// Appends the six bytes.
    pub fn encode(&self, buffer: &mut Vec<u8>) -> (r: Result<()>)
        ensures
            r is Ok,
            final(buffer)@ == old(buffer)@ + self.spec_bytes(),
    {
        put_u16_le(buffer, self.total_length);
        put_u16_le(buffer, self.pdu_type.as_u16() | Self::PROTOCOL_VERSION);
        put_u16_le(buffer, self.pdu_source);
        assert(final(buffer)@ =~= old(buffer)@ + self.spec_bytes());
        Ok(())
    }

    /// Reads the six bytes.
    pub fn decode(buffer: &mut BerReader) -> (r: Result<Self>)
        ensures
            crate::ber::consumed(*old(buffer), *final(buffer)),
            reads(r, Self::spec_parse(old(buffer).rest()), old(buffer).rest(), final(buffer).rest()),
    {
        if buffer.remaining() < 6 {
            return Err(PduError::InsufficientData { needed: 6, available: buffer.remaining() });
        }
        let ghost s = buffer.rest();
        let total_length = buffer.take_u16_le();
        assert(buffer.rest() =~= s.skip(2));
        let raw = buffer.take_u16_le();
        assert(buffer.rest() =~= s.skip(4));
        let pdu_source = buffer.take_u16_le();
        assert(buffer.rest() =~= s.skip(6));
        let pdu_type = match PduType::from_u16(raw & 0xFFEF) {
            Some(t) => t,
            None => {
                return Err(PduError::parse("unknown share control PDU type"));
            },
        };
        Ok(ShareControlHeader { total_length, pdu_type, pdu_source })
    }

    /// Always 6.
    pub fn size(&self) -> (n: usize)
        ensures
            n == self.spec_bytes().len(),
    {
        Self::SIZE
    }

    /// Every header is read back as written.
    pub proof fn lemma_round_trip(self, tail: Seq<u8>)
        ensures
            Self::spec_parse(self.spec_bytes() + tail) == Ok::<(ShareControlHeader, int), ErrorKind>((self, 6)),
    {
        let s = self.spec_bytes() + tail;
        let t = self.pdu_type.spec_as_u16();
        lemma_le16(self.total_length);
        lemma_le16(t | 0x0010);
        lemma_le16(self.pdu_source);
        assert(get_le16(s, 0) == get_le16(le16(self.total_length), 0));
        assert(get_le16(s, 2) == get_le16(le16(t | 0x0010), 0));
        assert(get_le16(s, 4) == get_le16(le16(self.pdu_source), 0));
        assert((t | 0x0010) & 0xFFEF == t) by (bit_vector)
            requires
                t == 1 || t == 3 || t == 6 || t == 7 || t == 10,
        ;
        self.pdu_type.lemma_from_as();
    }
}

/// The Share Data header: 12 little-endian bytes.
#[derive(Debug, Clone, Copy, PartialEq, Eq)]
pub struct ShareDataHeader {
    pub share_id: u32,
    /// 1 low, 2 medium, 4 high.
    pub stream_id: u8,
    pub uncompressed_length: u16,
    pub pdu_type2: DataPduType,
    pub compressed_type: u8,
    pub compressed_length: u16,
}

impl ShareDataHeader {
    pub open spec fn spec_bytes(&self) -> Seq<u8> {
        le32(self.share_id)
            + seq![0]
            + seq![self.stream_id]
            + le16(self.uncompressed_length)
            + seq![self.pdu_type2.spec_as_u8()]
            + seq![self.compressed_type]
            + le16(self.compressed_length)
    }

    /// What the decoder makes of `s`.
    pub open spec fn spec_parse(s: Seq<u8>) -> core::result::Result<(ShareDataHeader, int), ErrorKind> {
        if s.len() < 12 {
            Err(ErrorKind::InsufficientData { needed: 12, available: s.len() as usize })
        } else if DataPduType::spec_from_u8(s[8]) is None {
            Err(ErrorKind::ParseError)
        } else {
            Ok((ShareDataHeader {
                share_id: get_le32(s, 0),
                stream_id: s[5],
                uncompressed_length: get_le16(s, 6),
                pdu_type2: DataPduType::spec_from_u8(s[8])->0,
                compressed_type: s[9],
                compressed_length: get_le16(s, 10),
            }, 12))
        }
    }

    /// Appends the 12 bytes.
    pub fn encode(&self, buffer: &mut Vec<u8>) -> (r: Result<()>)
        ensures
            r is Ok,
            final(buffer)@ == old(buffer)@ + self.spec_bytes(),
    {
        put_u32_le(buffer, self.share_id);
        put_u8(buffer, 0);
        put_u8(buffer, self.stream_id);
        put_u16_le(buffer, self.uncompressed_length);
        put_u8(buffer, self.pdu_type2.as_u8());
        put_u8(buffer, self.compressed_type);
        put_u16_le(buffer, self.compressed_length);
        assert(final(buffer)@ =~= old(buffer)@ + self.spec_bytes());
        Ok(())
    }

    /// Reads the 12 bytes.
    pub fn decode(buffer: &mut BerReader) -> (r: Result<Self>)
        ensures
            crate::ber::consumed(*old(buffer), *final(buffer)),
            reads(r, Self::spec_parse(old(buffer).rest()), old(buffer).rest(), final(buffer).rest()),
    {
        if buffer.remaining() < 12 {
            return Err(PduError::InsufficientData { needed: 12, available: buffer.remaining() });
        }
        let ghost s = buffer.rest();
        let share_id_raw = buffer.take_u32_le();
        assert(buffer.rest() =~= s.skip(4));
        let _pad1 = buffer.take_u8();
        assert(buffer.rest() =~= s.skip(5));
        let stream_id_raw = buffer.take_u8();
        assert(buffer.rest() =~= s.skip(6));
        let uncompressed_length_raw = buffer.take_u16_le();
        assert(buffer.rest() =~= s.skip(8));
        let pdu_type2_raw = buffer.take_u8();
        assert(buffer.rest() =~= s.skip(9));
        let compressed_type_raw = buffer.take_u8();
        assert(buffer.rest() =~= s.skip(10));
        let compressed_length_raw = buffer.take_u16_le();
        assert(buffer.rest() =~= s.skip(12));
        let pdu_type2 = match DataPduType::from_u8(pdu_type2_raw) {
            Some(v) => v,
            None => {
                return Err(PduError::parse("unknown DataPduType value"));
            },
        };
        Ok(ShareDataHeader {
            share_id: share_id_raw,
            stream_id: stream_id_raw,
            uncompressed_length: uncompressed_length_raw,
            pdu_type2,
            compressed_type: compressed_type_raw,
            compressed_length: compressed_length_raw,
        })
    }

    /// Always 12.
    pub fn size(&self) -> (n: usize)
        ensures
            n == self.spec_bytes().len(),
    {
        12
    }

    /// Every value is read back as written; the bytes after it stay unread.
    pub proof fn lemma_round_trip(self, tail: Seq<u8>)
        ensures
            Self::spec_parse(self.spec_bytes() + tail) == Ok::<(ShareDataHeader, int), ErrorKind>((self, 12)),
    {
        let s = self.spec_bytes() + tail;
        lemma_le32(self.share_id);
        assert(get_le32(s, 0) == get_le32(le32(self.share_id), 0));
        assert(s[4] == 0);
        assert(s[5] == self.stream_id);
        lemma_le16(self.uncompressed_length);
        assert(get_le16(s, 6) == get_le16(le16(self.uncompressed_length), 0));
        self.pdu_type2.lemma_from_as();
        assert(s[8] == self.pdu_type2.spec_as_u8());
        assert(s[9] == self.compressed_type);
        lemma_le16(self.compressed_length);
        assert(get_le16(s, 10) == get_le16(le16(self.compressed_length), 0));
    }
}

impl ShareDataHeader {
    pub const SIZE: usize = 12;
    pub const STREAM_LOW: u8 = 1;
    pub const STREAM_MED: u8 = 2;
    pub const STREAM_HI: u8 = 4;

    /// A header on the low stream, without compression.
    pub fn new(share_id: u32, pdu_type2: DataPduType, uncompressed_length: u16) -> (h: Self)
        ensures
            h == (ShareDataHeader {
                share_id,
                stream_id: 1,
                uncompressed_length,
                pdu_type2,
                compressed_type: 0,
                compressed_length: 0,
            }),
    {
        ShareDataHeader {
            share_id,
            stream_id: Self::STREAM_LOW,
            uncompressed_length,
            pdu_type2,
            compressed_type: 0,
            compressed_length: 0,
        }
    }
}

} // verus!
