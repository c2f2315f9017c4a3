//! RDP capability sets: the set header, the General, Bitmap, Order and Input
//! sets, and an opaque form that keeps any other set byte for byte.
use vstd::prelude::*;
use crate::ber::{reads, reads_view, BerReader};
use crate::bytes::{to_array16, to_array32, get_le16, get_le32, le16, le32, lemma_le16, lemma_le32, put_bytes, put_u16_le, put_u32_le, put_u8};
use crate::error::{ErrorKind, PduError, Result};
use crate::unicode::{
    lemma_name_field_round_trip, lemma_units_bytes_len, name_field, parse_name_field, put_name_field,
    read_name_field, utf16_encode, utf16_valid,
};

verus! {

/// Capability set types.
#[derive(Debug, Clone, Copy, PartialEq, Eq, Structural)]
pub enum CapabilitySetType {
    General,
    Bitmap,
    Order,
    BitmapCache,
    Control,
    Activation,
    Pointer,
    Share,
    ColorCache,
    Sound,
    Input,
    Font,
    Brush,
    GlyphCache,
    OffscreenCache,
    BitmapCacheHostSupport,
    BitmapCacheV2,
    VirtualChannel,
    DrawNineGrid,
    DrawGdiPlus,
    Rail,
    Window,
    DesktopComposition,
    MultifragmentUpdate,
    LargePointer,
    SurfaceCommands,
    BitmapCodecs,
    FrameAcknowledge,
}

impl CapabilitySetType {
    pub open spec fn spec_as_u16(self) -> u16 {
        match self {
            CapabilitySetType::General => 0x01,
            CapabilitySetType::Bitmap => 0x02,
            CapabilitySetType::Order => 0x03,
            CapabilitySetType::BitmapCache => 0x04,
            CapabilitySetType::Control => 0x05,
            CapabilitySetType::Activation => 0x07,
            CapabilitySetType::Pointer => 0x08,
            CapabilitySetType::Share => 0x09,
            CapabilitySetType::ColorCache => 0x0A,
            CapabilitySetType::Sound => 0x0C,
            CapabilitySetType::Input => 0x0D,
            CapabilitySetType::Font => 0x0E,
            CapabilitySetType::Brush => 0x0F,
            CapabilitySetType::GlyphCache => 0x10,
            CapabilitySetType::OffscreenCache => 0x11,
            CapabilitySetType::BitmapCacheHostSupport => 0x12,
            CapabilitySetType::BitmapCacheV2 => 0x13,
            CapabilitySetType::VirtualChannel => 0x14,
            CapabilitySetType::DrawNineGrid => 0x15,
            CapabilitySetType::DrawGdiPlus => 0x16,
            CapabilitySetType::Rail => 0x17,
            CapabilitySetType::Window => 0x18,
            CapabilitySetType::DesktopComposition => 0x19,
            CapabilitySetType::MultifragmentUpdate => 0x1A,
            CapabilitySetType::LargePointer => 0x1B,
            CapabilitySetType::SurfaceCommands => 0x1C,
            CapabilitySetType::BitmapCodecs => 0x1D,
            CapabilitySetType::FrameAcknowledge => 0x1E,
        }
    }

    pub open spec fn spec_from_u16(value: u16) -> Option<CapabilitySetType> {
        if value == 0x01 {
            Some(CapabilitySetType::General)
        } else if value == 0x02 {
            Some(CapabilitySetType::Bitmap)
        } else if value == 0x03 {
            Some(CapabilitySetType::Order)
        } else if value == 0x04 {
            Some(CapabilitySetType::BitmapCache)
        } else if value == 0x05 {
            Some(CapabilitySetType::Control)
        } else if value == 0x07 {
            Some(CapabilitySetType::Activation)
        } else if value == 0x08 {
            Some(CapabilitySetType::Pointer)
        } else if value == 0x09 {
            Some(CapabilitySetType::Share)
        } else if value == 0x0A {
            Some(CapabilitySetType::ColorCache)
        } else if value == 0x0C {
            Some(CapabilitySetType::Sound)
        } else if value == 0x0D {
            Some(CapabilitySetType::Input)
        } else if value == 0x0E {
            Some(CapabilitySetType::Font)
        } else if value == 0x0F {
            Some(CapabilitySetType::Brush)
        } else if value == 0x10 {
            Some(CapabilitySetType::GlyphCache)
        } else if value == 0x11 {
            Some(CapabilitySetType::OffscreenCache)
        } else if value == 0x12 {
            Some(CapabilitySetType::BitmapCacheHostSupport)
        } else if value == 0x13 {
            Some(CapabilitySetType::BitmapCacheV2)
        } else if value == 0x14 {
            Some(CapabilitySetType::VirtualChannel)
        } else if value == 0x15 {
            Some(CapabilitySetType::DrawNineGrid)
        } else if value == 0x16 {
            Some(CapabilitySetType::DrawGdiPlus)
        } else if value == 0x17 {
            Some(CapabilitySetType::Rail)
        } else if value == 0x18 {
            Some(CapabilitySetType::Window)
        } else if value == 0x19 {
            Some(CapabilitySetType::DesktopComposition)
        } else if value == 0x1A {
            Some(CapabilitySetType::MultifragmentUpdate)
        } else if value == 0x1B {
            Some(CapabilitySetType::LargePointer)
        } else if value == 0x1C {
            Some(CapabilitySetType::SurfaceCommands)
        } else if value == 0x1D {
            Some(CapabilitySetType::BitmapCodecs)
        } else if value == 0x1E {
            Some(CapabilitySetType::FrameAcknowledge)
        } else {
            None
        }
    }

    pub proof fn lemma_from_as(self)
        ensures
            Self::spec_from_u16(self.spec_as_u16()) == Some(self),
    {
    }

    /// The value on the wire.
    pub fn as_u16(self) -> (r: u16)
        ensures
            r == self.spec_as_u16(),
            Self::spec_from_u16(r) == Some(self),
    {
        match self {
            CapabilitySetType::General => 0x01,
            CapabilitySetType::Bitmap => 0x02,
            CapabilitySetType::Order => 0x03,
            CapabilitySetType::BitmapCache => 0x04,
            CapabilitySetType::Control => 0x05,
            CapabilitySetType::Activation => 0x07,
            CapabilitySetType::Pointer => 0x08,
            CapabilitySetType::Share => 0x09,
            CapabilitySetType::ColorCache => 0x0A,
            CapabilitySetType::Sound => 0x0C,
            CapabilitySetType::Input => 0x0D,
            CapabilitySetType::Font => 0x0E,
            CapabilitySetType::Brush => 0x0F,
            CapabilitySetType::GlyphCache => 0x10,
            CapabilitySetType::OffscreenCache => 0x11,
            CapabilitySetType::BitmapCacheHostSupport => 0x12,
            CapabilitySetType::BitmapCacheV2 => 0x13,
            CapabilitySetType::VirtualChannel => 0x14,
            CapabilitySetType::DrawNineGrid => 0x15,
            CapabilitySetType::DrawGdiPlus => 0x16,
            CapabilitySetType::Rail => 0x17,
            CapabilitySetType::Window => 0x18,
            CapabilitySetType::DesktopComposition => 0x19,
            CapabilitySetType::MultifragmentUpdate => 0x1A,
            CapabilitySetType::LargePointer => 0x1B,
            CapabilitySetType::SurfaceCommands => 0x1C,
            CapabilitySetType::BitmapCodecs => 0x1D,
            CapabilitySetType::FrameAcknowledge => 0x1E,
        }
    }

    /// The variant with the given value, if any.
    pub fn from_u16(value: u16) -> (r: Option<CapabilitySetType>)
        ensures
            r == Self::spec_from_u16(value),
            r matches Some(v) ==> v.spec_as_u16() == value,
    {
        match value {
            0x01 => Some(CapabilitySetType::General),
            0x02 => Some(CapabilitySetType::Bitmap),
            0x03 => Some(CapabilitySetType::Order),
            0x04 => Some(CapabilitySetType::BitmapCache),
            0x05 => Some(CapabilitySetType::Control),
            0x07 => Some(CapabilitySetType::Activation),
            0x08 => Some(CapabilitySetType::Pointer),
            0x09 => Some(CapabilitySetType::Share),
            0x0A => Some(CapabilitySetType::ColorCache),
            0x0C => Some(CapabilitySetType::Sound),
            0x0D => Some(CapabilitySetType::Input),
            0x0E => Some(CapabilitySetType::Font),
            0x0F => Some(CapabilitySetType::Brush),
            0x10 => Some(CapabilitySetType::GlyphCache),
            0x11 => Some(CapabilitySetType::OffscreenCache),
            0x12 => Some(CapabilitySetType::BitmapCacheHostSupport),
            0x13 => Some(CapabilitySetType::BitmapCacheV2),
            0x14 => Some(CapabilitySetType::VirtualChannel),
            0x15 => Some(CapabilitySetType::DrawNineGrid),
            0x16 => Some(CapabilitySetType::DrawGdiPlus),
            0x17 => Some(CapabilitySetType::Rail),
            0x18 => Some(CapabilitySetType::Window),
            0x19 => Some(CapabilitySetType::DesktopComposition),
            0x1A => Some(CapabilitySetType::MultifragmentUpdate),
            0x1B => Some(CapabilitySetType::LargePointer),
            0x1C => Some(CapabilitySetType::SurfaceCommands),
            0x1D => Some(CapabilitySetType::BitmapCodecs),
            0x1E => Some(CapabilitySetType::FrameAcknowledge),
            _ => None,
        }
    }
}

/// The header of a capability set: its type and its length.
#[derive(Debug, Clone, Copy, PartialEq, Eq)]
pub struct CapabilitySetHeader {
    pub capability_set_type: CapabilitySetType,
    /// Length of the set, header included.
    pub length_capability: u16,
}

impl CapabilitySetHeader {
    pub open spec fn spec_bytes(&self) -> Seq<u8> {
        le16(self.capability_set_type.spec_as_u16())
            + le16(self.length_capability)
    }

    /// What the decoder makes of `s`.
    pub open spec fn spec_parse(s: Seq<u8>) -> core::result::Result<(CapabilitySetHeader, int), ErrorKind> {
        if s.len() < 4 {
            Err(ErrorKind::InsufficientData { needed: 4, available: s.len() as usize })
        } else if CapabilitySetType::spec_from_u16(get_le16(s, 0)) is None {
            Err(ErrorKind::ParseError)
        } else {
            Ok((CapabilitySetHeader {
                capability_set_type: CapabilitySetType::spec_from_u16(get_le16(s, 0))->0,
                length_capability: get_le16(s, 2),
            }, 4))
        }
    }

    /// Appends the 4 bytes.
    pub fn encode(&self, buffer: &mut Vec<u8>) -> (r: Result<()>)
        ensures
            r is Ok,
            final(buffer)@ == old(buffer)@ + self.spec_bytes(),
    {
        put_u16_le(buffer, self.capability_set_type.as_u16());
        put_u16_le(buffer, self.length_capability);
        assert(final(buffer)@ =~= old(buffer)@ + self.spec_bytes());
        Ok(())
    }

    /// Reads the 4 bytes.
    pub fn decode(buffer: &mut BerReader) -> (r: Result<Self>)
        ensures
            crate::ber::consumed(*old(buffer), *final(buffer)),
            reads(r, Self::spec_parse(old(buffer).rest()), old(buffer).rest(), final(buffer).rest()),
    {
        if buffer.remaining() < 4 {
            return Err(PduError::InsufficientData { needed: 4, available: buffer.remaining() });
        }
        let ghost s = buffer.rest();
        let capability_set_type_raw = buffer.take_u16_le();
        assert(buffer.rest() =~= s.skip(2));
        let length_capability_raw = buffer.take_u16_le();
        assert(buffer.rest() =~= s.skip(4));
        let capability_set_type = match CapabilitySetType::from_u16(capability_set_type_raw) {
            Some(v) => v,
            None => {
                return Err(PduError::parse("unknown CapabilitySetType value"));
            },
        };
        Ok(CapabilitySetHeader {
            capability_set_type,
            length_capability: length_capability_raw,
        })
    }

    /// Always 4.
    pub fn size(&self) -> (n: usize)
        ensures
            n == self.spec_bytes().len(),
    {
        4
    }

    /// Every value is read back as written; the bytes after it stay unread.
    pub proof fn lemma_round_trip(self, tail: Seq<u8>)
        ensures
            Self::spec_parse(self.spec_bytes() + tail) == Ok::<(CapabilitySetHeader, int), ErrorKind>((self, 4)),
    {
        let s = self.spec_bytes() + tail;
        self.capability_set_type.lemma_from_as();
        lemma_le16(self.capability_set_type.spec_as_u16());
        assert(get_le16(s, 0) == get_le16(le16(self.capability_set_type.spec_as_u16()), 0));
        lemma_le16(self.length_capability);
        assert(get_le16(s, 2) == get_le16(le16(self.length_capability), 0));
    }
}

impl CapabilitySetHeader {
    pub const SIZE: usize = 4;

    pub fn new(capability_set_type: CapabilitySetType, length_capability: u16) -> (r: Self)
        ensures
            r == (CapabilitySetHeader { capability_set_type, length_capability }),
    {
        CapabilitySetHeader { capability_set_type, length_capability }
    }
}

/// The General capability set.
#[derive(Debug, Clone, Copy, PartialEq, Eq)]
pub struct GeneralCapability {
    pub os_major_type: u16,
    pub os_minor_type: u16,
    pub protocol_version: u16,
    pub general_compression_types: u16,
    pub extra_flags: u16,
    pub update_capability_flag: u16,
    pub remote_unshare_flag: u16,
    pub general_compression_level: u16,
    pub refresh_rect_support: u8,
    pub suppress_output_support: u8,
}

impl GeneralCapability {
    pub open spec fn data_bytes(&self) -> Seq<u8> {
        le16(self.os_major_type)
            + le16(self.os_minor_type)
            + le16(self.protocol_version)
            + le16(0)
            + le16(self.general_compression_types)
            + le16(self.extra_flags)
            + le16(self.update_capability_flag)
            + le16(self.remote_unshare_flag)
            + le16(self.general_compression_level)
            + seq![self.refresh_rect_support]
            + seq![self.suppress_output_support]
    }

    /// What the body decoder makes of `s`.
    pub open spec fn spec_parse_data(s: Seq<u8>) -> core::result::Result<(GeneralCapability, int), ErrorKind> {
        if s.len() < 20 {
            Err(ErrorKind::InsufficientData { needed: 20, available: s.len() as usize })
        } else {
            Ok((GeneralCapability {
                os_major_type: get_le16(s, 0),
                os_minor_type: get_le16(s, 2),
                protocol_version: get_le16(s, 4),
                general_compression_types: get_le16(s, 8),
                extra_flags: get_le16(s, 10),
                update_capability_flag: get_le16(s, 12),
                remote_unshare_flag: get_le16(s, 14),
                general_compression_level: get_le16(s, 16),
                refresh_rect_support: s[18],
                suppress_output_support: s[19],
            }, 20))
        }
    }

    fn encode_data(&self, buffer: &mut Vec<u8>) -> (r: Result<()>)
        ensures
            r is Ok,
            final(buffer)@ == old(buffer)@ + self.data_bytes(),
    {
        put_u16_le(buffer, self.os_major_type);
        put_u16_le(buffer, self.os_minor_type);
        put_u16_le(buffer, self.protocol_version);
        put_u16_le(buffer, 0);
        put_u16_le(buffer, self.general_compression_types);
        put_u16_le(buffer, self.extra_flags);
        put_u16_le(buffer, self.update_capability_flag);
        put_u16_le(buffer, self.remote_unshare_flag);
        put_u16_le(buffer, self.general_compression_level);
        put_u8(buffer, self.refresh_rect_support);
        put_u8(buffer, self.suppress_output_support);
        assert(final(buffer)@ =~= old(buffer)@ + self.data_bytes());
        Ok(())
    }

    /// Reads the 20-byte body; the header has been read already.
    pub fn decode_data(buffer: &mut BerReader, _data_len: usize) -> (r: Result<Self>)
        ensures
            crate::ber::consumed(*old(buffer), *final(buffer)),
            reads(r, Self::spec_parse_data(old(buffer).rest()), old(buffer).rest(), final(buffer).rest()),
    {
        if buffer.remaining() < 20 {
            return Err(PduError::InsufficientData { needed: 20, available: buffer.remaining() });
        }
        let ghost s = buffer.rest();
        let os_major_type_raw = buffer.take_u16_le();
        assert(buffer.rest() =~= s.skip(2));
        let os_minor_type_raw = buffer.take_u16_le();
        assert(buffer.rest() =~= s.skip(4));
        let protocol_version_raw = buffer.take_u16_le();
        assert(buffer.rest() =~= s.skip(6));
        let _pad = buffer.take_u16_le();
        assert(buffer.rest() =~= s.skip(8));
        let general_compression_types_raw = buffer.take_u16_le();
        assert(buffer.rest() =~= s.skip(10));
        let extra_flags_raw = buffer.take_u16_le();
        assert(buffer.rest() =~= s.skip(12));
        let update_capability_flag_raw = buffer.take_u16_le();
        assert(buffer.rest() =~= s.skip(14));
        let remote_unshare_flag_raw = buffer.take_u16_le();
        assert(buffer.rest() =~= s.skip(16));
        let general_compression_level_raw = buffer.take_u16_le();
        assert(buffer.rest() =~= s.skip(18));
        let refresh_rect_support_raw = buffer.take_u8();
        assert(buffer.rest() =~= s.skip(19));
        let suppress_output_support_raw = buffer.take_u8();
        assert(buffer.rest() =~= s.skip(20));
        Ok(GeneralCapability {
            os_major_type: os_major_type_raw,
            os_minor_type: os_minor_type_raw,
            protocol_version: protocol_version_raw,
            general_compression_types: general_compression_types_raw,
            extra_flags: extra_flags_raw,
            update_capability_flag: update_capability_flag_raw,
            remote_unshare_flag: remote_unshare_flag_raw,
            general_compression_level: general_compression_level_raw,
            refresh_rect_support: refresh_rect_support_raw,
            suppress_output_support: suppress_output_support_raw,
        })
    }


    /// Every body is read back as written; the bytes after it stay unread.
    pub proof fn lemma_round_trip(self, tail: Seq<u8>)
        ensures
            Self::spec_parse_data(self.data_bytes() + tail) == Ok::<(GeneralCapability, int), ErrorKind>((self, 20)),
    {
        let s = self.data_bytes() + tail;
        lemma_le16(self.os_major_type);
        assert(get_le16(s, 0) == get_le16(le16(self.os_major_type), 0));
        lemma_le16(self.os_minor_type);
        assert(get_le16(s, 2) == get_le16(le16(self.os_minor_type), 0));
        lemma_le16(self.protocol_version);
        assert(get_le16(s, 4) == get_le16(le16(self.protocol_version), 0));
        lemma_le16(0);
        assert(get_le16(s, 6) == get_le16(le16(0), 0));
        lemma_le16(self.general_compression_types);
        assert(get_le16(s, 8) == get_le16(le16(self.general_compression_types), 0));
        lemma_le16(self.extra_flags);
        assert(get_le16(s, 10) == get_le16(le16(self.extra_flags), 0));
        lemma_le16(self.update_capability_flag);
        assert(get_le16(s, 12) == get_le16(le16(self.update_capability_flag), 0));
        lemma_le16(self.remote_unshare_flag);
        assert(get_le16(s, 14) == get_le16(le16(self.remote_unshare_flag), 0));
        lemma_le16(self.general_compression_level);
        assert(get_le16(s, 16) == get_le16(le16(self.general_compression_level), 0));
        assert(s[18] == self.refresh_rect_support);
        assert(s[19] == self.suppress_output_support);
    }
}

impl GeneralCapability {
    pub const DATA_SIZE: usize = 20;

    /// The set header (type 1, length 24), then the body.
    pub open spec fn spec_bytes(&self) -> Seq<u8> {
        le16(1) + le16(24) + self.data_bytes()
    }

    /// Appends the set header and the body.
    pub fn encode(&self, buffer: &mut Vec<u8>) -> (r: Result<()>)
        ensures
            r is Ok,
            final(buffer)@ == old(buffer)@ + self.spec_bytes(),
    {
        put_u16_le(buffer, 1);
        put_u16_le(buffer, (CapabilitySetHeader::SIZE + Self::DATA_SIZE) as u16);
        let _ = self.encode_data(buffer);
        assert(final(buffer)@ =~= old(buffer)@ + self.spec_bytes());
        Ok(())
    }

    /// Header and body: 24.
    pub fn size(&self) -> (n: usize)
        ensures
            n == self.spec_bytes().len(),
    {
        CapabilitySetHeader::SIZE + Self::DATA_SIZE
    }
}

impl GeneralCapability {
    /// OS 1/3, protocol 0x0200, extra flags 0x040D, refresh and suppress supported.
    pub fn new() -> (r: Self)
        ensures
            r == (GeneralCapability {
                os_major_type: 1,
                os_minor_type: 3,
                protocol_version: 0x0200,
                general_compression_types: 0,
                extra_flags: 0x040D,
                update_capability_flag: 0,
                remote_unshare_flag: 0,
                general_compression_level: 0,
                refresh_rect_support: 1,
                suppress_output_support: 1,
            }),
    {
        GeneralCapability {
            os_major_type: 1,
            os_minor_type: 3,
            protocol_version: 0x0200,
            general_compression_types: 0,
            extra_flags: 0x040D,
            update_capability_flag: 0,
            remote_unshare_flag: 0,
            general_compression_level: 0,
            refresh_rect_support: 1,
            suppress_output_support: 1,
        }
    }
}

impl Default for GeneralCapability {
    fn default() -> (r: Self)
        ensures
            r.protocol_version == 0x0200,
    {
        Self::new()
    }
}

/// The Bitmap capability set.
#[derive(Debug, Clone, Copy, PartialEq, Eq)]
pub struct BitmapCapability {
    pub preferred_bits_per_pixel: u16,
    pub receive1_bits_per_pixel: u16,
    pub receive4_bits_per_pixel: u16,
    pub receive8_bits_per_pixel: u16,
    pub desktop_width: u16,
    pub desktop_height: u16,
    pub desktop_resize_flag: u16,
    pub bitmap_compression_flag: u16,
    pub high_color_flags: u8,
    pub drawing_flags: u8,
    pub multiple_rectangle_support: u16,
}

impl BitmapCapability {
    pub open spec fn data_bytes(&self) -> Seq<u8> {
        le16(self.preferred_bits_per_pixel)
            + le16(self.receive1_bits_per_pixel)
            + le16(self.receive4_bits_per_pixel)
            + le16(self.receive8_bits_per_pixel)
            + le16(self.desktop_width)
            + le16(self.desktop_height)
            + le16(0)
            + le16(self.desktop_resize_flag)
            + le16(self.bitmap_compression_flag)
            + seq![self.high_color_flags]
            + seq![self.drawing_flags]
            + le16(self.multiple_rectangle_support)
            + le16(0)
    }

    /// What the body decoder makes of `s`.
    pub open spec fn spec_parse_data(s: Seq<u8>) -> core::result::Result<(BitmapCapability, int), ErrorKind> {
        if s.len() < 24 {
            Err(ErrorKind::InsufficientData { needed: 24, available: s.len() as usize })
        } else {
            Ok((BitmapCapability {
                preferred_bits_per_pixel: get_le16(s, 0),
                receive1_bits_per_pixel: get_le16(s, 2),
                receive4_bits_per_pixel: get_le16(s, 4),
                receive8_bits_per_pixel: get_le16(s, 6),
                desktop_width: get_le16(s, 8),
                desktop_height: get_le16(s, 10),
                desktop_resize_flag: get_le16(s, 14),
                bitmap_compression_flag: get_le16(s, 16),
                high_color_flags: s[18],
                drawing_flags: s[19],
                multiple_rectangle_support: get_le16(s, 20),
            }, 24))
        }
    }

    fn encode_data(&self, buffer: &mut Vec<u8>) -> (r: Result<()>)
        ensures
            r is Ok,
            final(buffer)@ == old(buffer)@ + self.data_bytes(),
    {
        put_u16_le(buffer, self.preferred_bits_per_pixel);
        put_u16_le(buffer, self.receive1_bits_per_pixel);
        put_u16_le(buffer, self.receive4_bits_per_pixel);
        put_u16_le(buffer, self.receive8_bits_per_pixel);
        put_u16_le(buffer, self.desktop_width);
        put_u16_le(buffer, self.desktop_height);
        put_u16_le(buffer, 0);
        put_u16_le(buffer, self.desktop_resize_flag);
        put_u16_le(buffer, self.bitmap_compression_flag);
        put_u8(buffer, self.high_color_flags);
        put_u8(buffer, self.drawing_flags);
        put_u16_le(buffer, self.multiple_rectangle_support);
        put_u16_le(buffer, 0);
        assert(final(buffer)@ =~= old(buffer)@ + self.data_bytes());
        Ok(())
    }

    /// Reads the 24-byte body; the header has been read already.
    pub fn decode_data(buffer: &mut BerReader, _data_len: usize) -> (r: Result<Self>)
        ensures
            crate::ber::consumed(*old(buffer), *final(buffer)),
            reads(r, Self::spec_parse_data(old(buffer).rest()), old(buffer).rest(), final(buffer).rest()),
    {
        if buffer.remaining() < 24 {
            return Err(PduError::InsufficientData { needed: 24, available: buffer.remaining() });
        }
        let ghost s = buffer.rest();
        let preferred_bits_per_pixel_raw = buffer.take_u16_le();
        assert(buffer.rest() =~= s.skip(2));
        let receive1_bits_per_pixel_raw = buffer.take_u16_le();
        assert(buffer.rest() =~= s.skip(4));
        let receive4_bits_per_pixel_raw = buffer.take_u16_le();
        assert(buffer.rest() =~= s.skip(6));
        let receive8_bits_per_pixel_raw = buffer.take_u16_le();
        assert(buffer.rest() =~= s.skip(8));
        let desktop_width_raw = buffer.take_u16_le();
        assert(buffer.rest() =~= s.skip(10));
        let desktop_height_raw = buffer.take_u16_le();
        assert(buffer.rest() =~= s.skip(12));
        let _pad1 = buffer.take_u16_le();
        assert(buffer.rest() =~= s.skip(14));
        let desktop_resize_flag_raw = buffer.take_u16_le();
        assert(buffer.rest() =~= s.skip(16));
        let bitmap_compression_flag_raw = buffer.take_u16_le();
        assert(buffer.rest() =~= s.skip(18));
        let high_color_flags_raw = buffer.take_u8();
        assert(buffer.rest() =~= s.skip(19));
        let drawing_flags_raw = buffer.take_u8();
        assert(buffer.rest() =~= s.skip(20));
        let multiple_rectangle_support_raw = buffer.take_u16_le();
        assert(buffer.rest() =~= s.skip(22));
        let _pad2 = buffer.take_u16_le();
        assert(buffer.rest() =~= s.skip(24));
        Ok(BitmapCapability {
            preferred_bits_per_pixel: preferred_bits_per_pixel_raw,
            receive1_bits_per_pixel: receive1_bits_per_pixel_raw,
            receive4_bits_per_pixel: receive4_bits_per_pixel_raw,
            receive8_bits_per_pixel: receive8_bits_per_pixel_raw,
            desktop_width: desktop_width_raw,
            desktop_height: desktop_height_raw,
            desktop_resize_flag: desktop_resize_flag_raw,
            bitmap_compression_flag: bitmap_compression_flag_raw,
            high_color_flags: high_color_flags_raw,
            drawing_flags: drawing_flags_raw,
            multiple_rectangle_support: multiple_rectangle_support_raw,
        })
    }


    /// Every body is read back as written; the bytes after it stay unread.
    pub proof fn lemma_round_trip(self, tail: Seq<u8>)
        ensures
            Self::spec_parse_data(self.data_bytes() + tail) == Ok::<(BitmapCapability, int), ErrorKind>((self, 24)),
    {
        let s = self.data_bytes() + tail;
        lemma_le16(self.preferred_bits_per_pixel);
        assert(get_le16(s, 0) == get_le16(le16(self.preferred_bits_per_pixel), 0));
        lemma_le16(self.receive1_bits_per_pixel);
        assert(get_le16(s, 2) == get_le16(le16(self.receive1_bits_per_pixel), 0));
        lemma_le16(self.receive4_bits_per_pixel);
        assert(get_le16(s, 4) == get_le16(le16(self.receive4_bits_per_pixel), 0));
        lemma_le16(self.receive8_bits_per_pixel);
        assert(get_le16(s, 6) == get_le16(le16(self.receive8_bits_per_pixel), 0));
        lemma_le16(self.desktop_width);
        assert(get_le16(s, 8) == get_le16(le16(self.desktop_width), 0));
        lemma_le16(self.desktop_height);
        assert(get_le16(s, 10) == get_le16(le16(self.desktop_height), 0));
        lemma_le16(0);
        assert(get_le16(s, 12) == get_le16(le16(0), 0));
        lemma_le16(self.desktop_resize_flag);
        assert(get_le16(s, 14) == get_le16(le16(self.desktop_resize_flag), 0));
        lemma_le16(self.bitmap_compression_flag);
        assert(get_le16(s, 16) == get_le16(le16(self.bitmap_compression_flag), 0));
        assert(s[18] == self.high_color_flags);
        assert(s[19] == self.drawing_flags);
        lemma_le16(self.multiple_rectangle_support);
        assert(get_le16(s, 20) == get_le16(le16(self.multiple_rectangle_support), 0));
        lemma_le16(0);
        assert(get_le16(s, 22) == get_le16(le16(0), 0));
    }
}

impl BitmapCapability {
    pub const DATA_SIZE: usize = 24;

    /// The set header (type 2, length 28), then the body.
    pub open spec fn spec_bytes(&self) -> Seq<u8> {
        le16(2) + le16(28) + self.data_bytes()
    }

    /// Appends the set header and the body.
    pub fn encode(&self, buffer: &mut Vec<u8>) -> (r: Result<()>)
        ensures
            r is Ok,
            final(buffer)@ == old(buffer)@ + self.spec_bytes(),
    {
        put_u16_le(buffer, 2);
        put_u16_le(buffer, (CapabilitySetHeader::SIZE + Self::DATA_SIZE) as u16);
        let _ = self.encode_data(buffer);
        assert(final(buffer)@ =~= old(buffer)@ + self.spec_bytes());
        Ok(())
    }

    /// Header and body: 28.
    pub fn size(&self) -> (n: usize)
        ensures
            n == self.spec_bytes().len(),
    {
        CapabilitySetHeader::SIZE + Self::DATA_SIZE
    }
}

impl BitmapCapability {
    /// A desktop of the given size and depth; drawing flags 0x1B.
    pub fn new(width: u16, height: u16, bits_per_pixel: u16) -> (r: Self)
        ensures
            r == (BitmapCapability {
                preferred_bits_per_pixel: bits_per_pixel,
                receive1_bits_per_pixel: 1,
                receive4_bits_per_pixel: 1,
                receive8_bits_per_pixel: 1,
                desktop_width: width,
                desktop_height: height,
                desktop_resize_flag: 1,
                bitmap_compression_flag: 1,
                high_color_flags: 0,
                drawing_flags: 0x1B,
                multiple_rectangle_support: 1,
            }),
    {
        BitmapCapability {
            preferred_bits_per_pixel: bits_per_pixel,
            receive1_bits_per_pixel: 1,
            receive4_bits_per_pixel: 1,
            receive8_bits_per_pixel: 1,
            desktop_width: width,
            desktop_height: height,
            desktop_resize_flag: 1,
            bitmap_compression_flag: 1,
            high_color_flags: 0,
            drawing_flags: 0x1B,
            multiple_rectangle_support: 1,
        }
    }

    /// 1920 by 1080 at 32 bits per pixel.
    pub fn default_1080p() -> (r: Self)
        ensures
            r.desktop_width == 1920 && r.desktop_height == 1080 && r.preferred_bits_per_pixel == 32,
    {
        Self::new(1920, 1080, 32)
    }
}

impl Default for BitmapCapability {
    fn default() -> (r: Self)
        ensures
            r.desktop_width == 1920,
    {
        Self::default_1080p()
    }
}


/// What an [`OrderCapability`] holds.
pub struct OrderCapabilityModel {
    pub terminal_descriptor: Seq<u8>,
    pub desktop_save_x_granularity: u16,
    pub desktop_save_y_granularity: u16,
    pub maximum_order_level: u16,
    pub number_fonts: u16,
    pub order_flags: u16,
    pub order_support: Seq<u8>,
    pub text_flags: u16,
    pub order_support_ex_flags: u16,
    pub desktop_save_size: u32,
    pub text_ansi_code_page: u16,
}

/// The Order capability set: which primary drawing orders are supported.
#[derive(Debug, Clone, Copy, PartialEq, Eq)]
pub struct OrderCapability {
    pub terminal_descriptor: [u8; 16],
    pub desktop_save_x_granularity: u16,
    pub desktop_save_y_granularity: u16,
    pub maximum_order_level: u16,
    pub number_fonts: u16,
    pub order_flags: u16,
    /// One byte per primary order; nonzero means supported.
    pub order_support: [u8; 32],
    pub text_flags: u16,
    pub order_support_ex_flags: u16,
    pub desktop_save_size: u32,
    pub text_ansi_code_page: u16,
}

impl View for OrderCapability {
    type V = OrderCapabilityModel;

    open spec fn view(&self) -> OrderCapabilityModel {
        OrderCapabilityModel {
            terminal_descriptor: self.terminal_descriptor@,
            desktop_save_x_granularity: self.desktop_save_x_granularity,
            desktop_save_y_granularity: self.desktop_save_y_granularity,
            maximum_order_level: self.maximum_order_level,
            number_fonts: self.number_fonts,
            order_flags: self.order_flags,
            order_support: self.order_support@,
            text_flags: self.text_flags,
            order_support_ex_flags: self.order_support_ex_flags,
            desktop_save_size: self.desktop_save_size,
            text_ansi_code_page: self.text_ansi_code_page,
        }
    }
}

/// The orders that a new Order capability marks as supported.
pub open spec fn default_order_support() -> Seq<u8> {
    Seq::new(
        32,
        |i: int|
            if i == 0 || i == 1 || i == 2 || i == 3 || i == 4 || i == 8 || i == 9 || i == 15 || i
                == 16 || i == 17 || i == 18 || i == 22 || i == 25 || i == 27 {
                1u8
            } else {
                0u8
            },
    )
}

impl OrderCapabilityModel {
    /// The 84-byte body.
    pub open spec fn data_bytes(&self) -> Seq<u8> {
        self.terminal_descriptor + le32(0) + le16(self.desktop_save_x_granularity) + le16(
            self.desktop_save_y_granularity,
        ) + le16(0) + le16(self.maximum_order_level) + le16(self.number_fonts) + le16(
            self.order_flags,
        ) + self.order_support + le16(self.text_flags) + le16(self.order_support_ex_flags)
            + le32(0) + le32(self.desktop_save_size) + le16(0) + le16(0) + le16(
            self.text_ansi_code_page,
        ) + le16(0)
    }

    /// The set header (type 3, length 88), then the body.
    pub open spec fn spec_bytes(&self) -> Seq<u8> {
        le16(3) + le16(88) + self.data_bytes()
    }

    /// The arrays have their sizes.
    pub open spec fn wf(&self) -> bool {
        self.terminal_descriptor.len() == 16 && self.order_support.len() == 32
    }

    /// Every well-formed body is read back as written.
    #[verifier::spinoff_prover]
    #[verifier::rlimit(100)]
    pub proof fn lemma_round_trip(self, tail: Seq<u8>)
        requires
            self.wf(),
        ensures
            OrderCapability::spec_parse_data(self.data_bytes() + tail) == Ok::<(OrderCapabilityModel, int), ErrorKind>((self, 84)),
    {
        let s = self.data_bytes() + tail;
        assert(s.subrange(0, 16) =~= self.terminal_descriptor);
        assert(s.subrange(32, 64) =~= self.order_support);
        lemma_le16(self.desktop_save_x_granularity);
        assert(get_le16(s, 20) == get_le16(le16(self.desktop_save_x_granularity), 0));
        lemma_le16(self.desktop_save_y_granularity);
        assert(get_le16(s, 22) == get_le16(le16(self.desktop_save_y_granularity), 0));
        lemma_le16(self.maximum_order_level);
        assert(get_le16(s, 26) == get_le16(le16(self.maximum_order_level), 0));
        lemma_le16(self.number_fonts);
        assert(get_le16(s, 28) == get_le16(le16(self.number_fonts), 0));
        lemma_le16(self.order_flags);
        assert(get_le16(s, 30) == get_le16(le16(self.order_flags), 0));
        lemma_le16(self.text_flags);
        assert(get_le16(s, 64) == get_le16(le16(self.text_flags), 0));
        lemma_le16(self.order_support_ex_flags);
        assert(get_le16(s, 66) == get_le16(le16(self.order_support_ex_flags), 0));
        lemma_le32(self.desktop_save_size);
        assert(get_le32(s, 72) == get_le32(le32(self.desktop_save_size), 0));
        lemma_le16(self.text_ansi_code_page);
        assert(get_le16(s, 80) == get_le16(le16(self.text_ansi_code_page), 0));
        assert(OrderCapability::spec_parse_data(s)->Ok_0.0 =~= self);
    }
}

impl OrderCapability {
    pub const DATA_SIZE: usize = 84;

    /// What the body decoder makes of `s`.
    pub open spec fn spec_parse_data(s: Seq<u8>) -> core::result::Result<(OrderCapabilityModel, int), ErrorKind> {
        if s.len() < 84 {
            Err(ErrorKind::InsufficientData { needed: 84, available: s.len() as usize })
        } else {
            Ok((
                OrderCapabilityModel {
                    terminal_descriptor: s.subrange(0, 16),
                    desktop_save_x_granularity: get_le16(s, 20),
                    desktop_save_y_granularity: get_le16(s, 22),
                    maximum_order_level: get_le16(s, 26),
                    number_fonts: get_le16(s, 28),
                    order_flags: get_le16(s, 30),
                    text_flags: get_le16(s, 64),
                    order_support_ex_flags: get_le16(s, 66),
                    order_support: s.subrange(32, 64),
                    desktop_save_size: get_le32(s, 72),
                    text_ansi_code_page: get_le16(s, 80),
                },
                84,
            ))
        }
    }

    /// Granularity 1 by 20, order level 1, flags 0xAA, text flags 0x06A1,
    /// code page 1252, and the default supported orders.
    pub fn new() -> (r: Self)
        ensures
            r@ == (OrderCapabilityModel {
                terminal_descriptor: Seq::new(16, |i: int| 0u8),
                desktop_save_x_granularity: 1,
                desktop_save_y_granularity: 20,
                maximum_order_level: 1,
                number_fonts: 0,
                order_flags: 0x00AA,
                order_support: default_order_support(),
                text_flags: 0x06A1,
                order_support_ex_flags: 0,
                desktop_save_size: 0,
                text_ansi_code_page: 1252,
            }),
    {
        let mut order_support = [0u8; 32];
        order_support[0] = 1;
        order_support[1] = 1;
        order_support[2] = 1;
        order_support[3] = 1;
        order_support[4] = 1;
        order_support[8] = 1;
        order_support[9] = 1;
        order_support[15] = 1;
        order_support[16] = 1;
        order_support[17] = 1;
        order_support[18] = 1;
        order_support[22] = 1;
        order_support[25] = 1;
        order_support[27] = 1;
        let terminal_descriptor = [0u8; 16];
        assert(order_support@ =~= default_order_support());
        assert(terminal_descriptor@ =~= Seq::new(16, |i: int| 0u8));
        OrderCapability {
            terminal_descriptor,
            desktop_save_x_granularity: 1,
            desktop_save_y_granularity: 20,
            maximum_order_level: 1,
            number_fonts: 0,
            order_flags: 0x00AA,
            order_support,
            text_flags: 0x06A1,
            order_support_ex_flags: 0,
            desktop_save_size: 0,
            text_ansi_code_page: 1252,
        }
    }

    /// Appends the set header and the body.
    pub fn encode(&self, buffer: &mut Vec<u8>) -> (r: Result<()>)
        ensures
            r is Ok,
            final(buffer)@ == old(buffer)@ + self@.spec_bytes(),
    {
        put_u16_le(buffer, 3);
        put_u16_le(buffer, (CapabilitySetHeader::SIZE + Self::DATA_SIZE) as u16);
        put_bytes(buffer, self.terminal_descriptor.as_slice());
        put_u32_le(buffer, 0);
        put_u16_le(buffer, self.desktop_save_x_granularity);
        put_u16_le(buffer, self.desktop_save_y_granularity);
        put_u16_le(buffer, 0);
        put_u16_le(buffer, self.maximum_order_level);
        put_u16_le(buffer, self.number_fonts);
        put_u16_le(buffer, self.order_flags);
        put_bytes(buffer, self.order_support.as_slice());
        put_u16_le(buffer, self.text_flags);
        put_u16_le(buffer, self.order_support_ex_flags);
        put_u32_le(buffer, 0);
        put_u32_le(buffer, self.desktop_save_size);
        put_u16_le(buffer, 0);
        put_u16_le(buffer, 0);
        put_u16_le(buffer, self.text_ansi_code_page);
        put_u16_le(buffer, 0);
        assert(final(buffer)@ =~= old(buffer)@ + self@.spec_bytes());
        Ok(())
    }

    /// Reads the 84-byte body; the header has been read already.
    #[verifier::spinoff_prover]
    #[verifier::rlimit(100)]
    pub fn decode_data(buffer: &mut BerReader, _data_len: usize) -> (r: Result<Self>)
        ensures
            crate::ber::consumed(*old(buffer), *final(buffer)),
            reads_view(r, Self::spec_parse_data(old(buffer).rest()), old(buffer).rest(), final(buffer).rest()),
    {
        if buffer.remaining() < 84 {
            return Err(PduError::InsufficientData { needed: 84, available: buffer.remaining() });
        }
        let ghost s = buffer.rest();
        let td = buffer.take_bytes(16);
        let _ = buffer.take_u32_le();
        assert(buffer.rest() =~= s.skip(20));
        let desktop_save_x_granularity = buffer.take_u16_le();
        assert(buffer.rest() =~= s.skip(22));
        let desktop_save_y_granularity = buffer.take_u16_le();
        assert(buffer.rest() =~= s.skip(24));
        let _ = buffer.take_u16_le();
        assert(buffer.rest() =~= s.skip(26));
        let maximum_order_level = buffer.take_u16_le();
        assert(buffer.rest() =~= s.skip(28));
        let number_fonts = buffer.take_u16_le();
        assert(buffer.rest() =~= s.skip(30));
        let order_flags = buffer.take_u16_le();
        assert(buffer.rest() =~= s.skip(32));
        let os = buffer.take_bytes(32);
        assert(buffer.rest() =~= s.skip(64));
        let text_flags = buffer.take_u16_le();
        assert(buffer.rest() =~= s.skip(66));
        let order_support_ex_flags = buffer.take_u16_le();
        assert(buffer.rest() =~= s.skip(68));
        let _ = buffer.take_u32_le();
        assert(buffer.rest() =~= s.skip(72));
        let desktop_save_size = buffer.take_u32_le();
        assert(buffer.rest() =~= s.skip(76));
        let _ = buffer.take_u16_le();
        let _ = buffer.take_u16_le();
        assert(buffer.rest() =~= s.skip(80));
        let text_ansi_code_page = buffer.take_u16_le();
        assert(buffer.rest() =~= s.skip(82));
        let _ = buffer.take_u16_le();
        assert(buffer.rest() =~= s.skip(84));
        assert(td@ =~= s.subrange(0, 16));
        assert(os@ =~= s.subrange(32, 64));
        let r = OrderCapability {
            terminal_descriptor: to_array16(&td),
            desktop_save_x_granularity,
            desktop_save_y_granularity,
            maximum_order_level,
            number_fonts,
            order_flags,
            order_support: to_array32(&os),
            text_flags,
            order_support_ex_flags,
            desktop_save_size,
            text_ansi_code_page,
        };
        assert(r@ =~= Self::spec_parse_data(s)->Ok_0.0);
        Ok(r)
    }

    /// Header and body: 88.
    pub fn size(&self) -> (n: usize)
        ensures
            n == self@.spec_bytes().len(),
    {
        CapabilitySetHeader::SIZE + Self::DATA_SIZE
    }
}

impl Default for OrderCapability {
    fn default() -> (r: Self)
        ensures
            r@.text_ansi_code_page == 1252,
    {
        Self::new()
    }
}

/// Input capability flags.
#[derive(Debug, Clone, Copy, PartialEq, Eq)]
pub struct InputFlags(pub u16);

impl InputFlags {
    pub const SCANCODES: u16 = 0x0001;
    pub const MOUSEX: u16 = 0x0004;
    pub const FASTPATH_INPUT: u16 = 0x0008;
    pub const UNICODE: u16 = 0x0010;
    pub const FASTPATH_INPUT2: u16 = 0x0020;
    pub const UNUSED1: u16 = 0x0040;
    pub const UNUSED2: u16 = 0x0080;
    pub const MOUSE_HWHEEL: u16 = 0x0100;

    /// The bits.
    pub fn bits(&self) -> (r: u16)
        ensures
            r == self.0,
    {
        self.0
    }

    /// The known flags among `bits`.
    pub fn from_bits_truncate(bits: u16) -> (r: Self)
        ensures
            r.0 == bits & 0x01FD,
    {
        InputFlags(bits & 0x01FD)
    }

    /// Flags with the given bits.
    pub fn new(bits: u16) -> (r: Self)
        ensures
            r.0 == bits,
    {
        InputFlags(bits)
    }

    /// Whether every flag of `other` is set.
    pub fn contains(&self, other: u16) -> (r: bool)
        ensures
            r == (self.0 & other == other),
    {
        self.0 & other == other
    }
}

/// What an [`InputCapability`] holds; the IME name as UTF-16 units.
pub struct InputCapabilityModel {
    pub input_flags: u16,
    pub keyboard_layout: u32,
    pub keyboard_type: u32,
    pub keyboard_subtype: u32,
    pub keyboard_function_key: u32,
    pub ime_file_name: Seq<u16>,
}

/// The Input capability set: input flags, keyboard and IME file name.
#[derive(Debug, Clone, PartialEq, Eq)]
pub struct InputCapability {
    pub input_flags: InputFlags,
    pub keyboard_layout: u32,
    pub keyboard_type: u32,
    pub keyboard_subtype: u32,
    pub keyboard_function_key: u32,
    pub ime_file_name: String,
}

impl View for InputCapability {
    type V = InputCapabilityModel;

    open spec fn view(&self) -> InputCapabilityModel {
        InputCapabilityModel {
            input_flags: self.input_flags.0,
            keyboard_layout: self.keyboard_layout,
            keyboard_type: self.keyboard_type,
            keyboard_subtype: self.keyboard_subtype,
            keyboard_function_key: self.keyboard_function_key,
            ime_file_name: utf16_encode(self.ime_file_name@),
        }
    }
}

impl InputCapabilityModel {
    /// The 84-byte body.
    pub open spec fn data_bytes(&self) -> Seq<u8> {
        le16(self.input_flags) + le16(0) + le32(self.keyboard_layout) + le32(self.keyboard_type)
            + le32(self.keyboard_subtype) + le32(self.keyboard_function_key) + name_field(
            self.ime_file_name,
            32,
        )
    }

    /// The set header (type 13, length 88), then the body.
    pub open spec fn spec_bytes(&self) -> Seq<u8> {
        le16(13) + le16(88) + self.data_bytes()
    }
}

impl InputCapability {
    pub const DATA_SIZE: usize = 84;
    pub const IME_FILE_NAME_SIZE: usize = 64;

    /// What the body decoder makes of `s`: unknown flag bits are dropped.
    pub open spec fn spec_parse_data(s: Seq<u8>) -> core::result::Result<(InputCapabilityModel, int), ErrorKind> {
        if s.len() < 84 {
            Err(ErrorKind::InsufficientData { needed: 84, available: s.len() as usize })
        } else {
            Ok((
                InputCapabilityModel {
                    input_flags: get_le16(s, 0) & 0x01FD,
                    keyboard_layout: get_le32(s, 4),
                    keyboard_type: get_le32(s, 8),
                    keyboard_subtype: get_le32(s, 12),
                    keyboard_function_key: get_le32(s, 16),
                    ime_file_name: parse_name_field(s.subrange(20, 84)),
                },
                84,
            ))
        }
    }

    /// Scancodes, extended mouse, fast-path input and Unicode; US layout,
    /// keyboard type 4 with 12 function keys; no IME.
    pub fn new() -> (r: Self)
        ensures
            r@ == (InputCapabilityModel {
                input_flags: 0x003D,
                keyboard_layout: 0x0409,
                keyboard_type: 4,
                keyboard_subtype: 0,
                keyboard_function_key: 12,
                ime_file_name: Seq::empty(),
            }),
    {
        let flags = InputFlags(
            InputFlags::SCANCODES | InputFlags::MOUSEX | InputFlags::FASTPATH_INPUT | InputFlags::UNICODE
                | InputFlags::FASTPATH_INPUT2,
        );
        assert(0x0001u16 | 0x0004u16 | 0x0008u16 | 0x0010u16 | 0x0020u16 == 0x003Du16) by (bit_vector);
        let ime = String::new();
        assert(utf16_encode(ime@) =~= Seq::<u16>::empty()) by {
            assert(ime@.len() == 0);
        }
        InputCapability {
            input_flags: flags,
            keyboard_layout: 0x0409,
            keyboard_type: 4,
            keyboard_subtype: 0,
            keyboard_function_key: 12,
            ime_file_name: ime,
        }
    }

    /// Appends the set header and the body.
    pub fn encode(&self, buffer: &mut Vec<u8>) -> (r: Result<()>)
        ensures
            r is Ok,
            final(buffer)@ == old(buffer)@ + self@.spec_bytes(),
    {
        put_u16_le(buffer, 13);
        put_u16_le(buffer, (CapabilitySetHeader::SIZE + Self::DATA_SIZE) as u16);
        put_u16_le(buffer, self.input_flags.0);
        put_u16_le(buffer, 0);
        put_u32_le(buffer, self.keyboard_layout);
        put_u32_le(buffer, self.keyboard_type);
        put_u32_le(buffer, self.keyboard_subtype);
        put_u32_le(buffer, self.keyboard_function_key);
        put_name_field(buffer, self.ime_file_name.as_str(), 32);
        assert(final(buffer)@ =~= old(buffer)@ + self@.spec_bytes());
        Ok(())
    }

    /// Reads the 84-byte body; the header has been read already.
    pub fn decode_data(buffer: &mut BerReader, _data_len: usize) -> (r: Result<Self>)
        ensures
            crate::ber::consumed(*old(buffer), *final(buffer)),
            reads_view(r, Self::spec_parse_data(old(buffer).rest()), old(buffer).rest(), final(buffer).rest()),
    {
        if buffer.remaining() < 84 {
            return Err(PduError::InsufficientData { needed: 84, available: buffer.remaining() });
        }
        let ghost s = buffer.rest();
        let flags = buffer.take_u16_le();
        let _ = buffer.take_u16_le();
        assert(buffer.rest() =~= s.skip(4));
        let keyboard_layout = buffer.take_u32_le();
        assert(buffer.rest() =~= s.skip(8));
        let keyboard_type = buffer.take_u32_le();
        assert(buffer.rest() =~= s.skip(12));
        let keyboard_subtype = buffer.take_u32_le();
        assert(buffer.rest() =~= s.skip(16));
        let keyboard_function_key = buffer.take_u32_le();
        assert(buffer.rest() =~= s.skip(20));
        let ime_file_name = read_name_field(buffer);
        assert(s.skip(20).take(64) =~= s.subrange(20, 84));
        assert(buffer.rest() =~= s.skip(84));
        let r = InputCapability {
            input_flags: InputFlags::from_bits_truncate(flags),
            keyboard_layout,
            keyboard_type,
            keyboard_subtype,
            keyboard_function_key,
            ime_file_name,
        };
        assert(r@ =~= Self::spec_parse_data(s)->Ok_0.0);
        Ok(r)
    }

    /// Header and body: 88.
    pub fn size(&self) -> (n: usize)
        ensures
            n == self@.spec_bytes().len(),
    {
        proof {
            let u = utf16_encode(self.ime_file_name@);
            let k = if u.len() < 32 { u.len() } else { 32 };
            lemma_units_bytes_len(u.take(k as int));
            assert(name_field(u, 32).len() == 64);
        }
        CapabilitySetHeader::SIZE + Self::DATA_SIZE
    }
}

impl Default for InputCapability {
    fn default() -> (r: Self)
        ensures
            r@.keyboard_layout == 0x0409,
    {
        Self::new()
    }
}

/// What a [`CapabilitySet`] holds.
pub enum CapabilitySetModel {
    General(GeneralCapability),
    Bitmap(BitmapCapability),
    Order(OrderCapabilityModel),
    Input(InputCapabilityModel),
    Unknown(u16, Seq<u8>),
}

/// A capability set: one of the four known bodies, or any other set kept as
/// its type and raw body.
#[derive(Debug, Clone, PartialEq, Eq)]
pub enum CapabilitySet {
    General(GeneralCapability),
    Bitmap(BitmapCapability),
    Order(OrderCapability),
    Input(InputCapability),
    Unknown(u16, Vec<u8>),
}

impl View for CapabilitySet {
    type V = CapabilitySetModel;

    open spec fn view(&self) -> CapabilitySetModel {
        match self {
            CapabilitySet::General(c) => CapabilitySetModel::General(*c),
            CapabilitySet::Bitmap(c) => CapabilitySetModel::Bitmap(*c),
            CapabilitySet::Order(c) => CapabilitySetModel::Order(c@),
            CapabilitySet::Input(c) => CapabilitySetModel::Input(c@),
            CapabilitySet::Unknown(t, d) => CapabilitySetModel::Unknown(*t, d@),
        }
    }
}

impl CapabilitySetModel {
    pub open spec fn spec_bytes(&self) -> Seq<u8> {
        match self {
            CapabilitySetModel::General(c) => c.spec_bytes(),
            CapabilitySetModel::Bitmap(c) => c.spec_bytes(),
            CapabilitySetModel::Order(c) => c.spec_bytes(),
            CapabilitySetModel::Input(c) => c.spec_bytes(),
            CapabilitySetModel::Unknown(t, d) => le16(*t) + le16((4 + d.len()) as u16) + *d,
        }
    }
}

/// The type values that have a body decoder of their own.
pub open spec fn is_known_capability(t: u16) -> bool {
    t == 1 || t == 2 || t == 3 || t == 13
}

impl CapabilitySet {
    /// What the set decoder makes of `s`: the header, then the body its type
    /// names, or for any other type the raw body the length announces.
    #[verifier::opaque]
    pub open spec fn spec_parse(s: Seq<u8>) -> core::result::Result<(CapabilitySetModel, int), ErrorKind> {
        if s.len() < 4 {
            Err(ErrorKind::InsufficientData { needed: 4, available: s.len() as usize })
        } else {
            let t = get_le16(s, 0);
            let len = get_le16(s, 2);
            let b = s.skip(4);
            if len < 4 {
                Err(ErrorKind::InvalidLength { expected: 4, actual: len as usize })
            } else if t == 1 {
                match GeneralCapability::spec_parse_data(b) {
                    Ok((c, n)) => Ok((CapabilitySetModel::General(c), 4 + n)),
                    Err(k) => Err(k),
                }
            } else if t == 2 {
                match BitmapCapability::spec_parse_data(b) {
                    Ok((c, n)) => Ok((CapabilitySetModel::Bitmap(c), 4 + n)),
                    Err(k) => Err(k),
                }
            } else if t == 3 {
                match OrderCapability::spec_parse_data(b) {
                    Ok((c, n)) => Ok((CapabilitySetModel::Order(c), 4 + n)),
                    Err(k) => Err(k),
                }
            } else if t == 13 {
                match InputCapability::spec_parse_data(b) {
                    Ok((c, n)) => Ok((CapabilitySetModel::Input(c), 4 + n)),
                    Err(k) => Err(k),
                }
            } else if b.len() < len - 4 {
                Err(ErrorKind::InsufficientData {
                    needed: (len - 4) as usize,
                    available: b.len() as usize,
                })
            } else {
                Ok((CapabilitySetModel::Unknown(t, s.subrange(4, len as int)), len as int))
            }
        }
    }

    /// The type value of this set as it stands on the wire, for every variant;
    /// for an opaque set it is the value that was read.
    pub fn type_value(&self) -> (t: u16)
        ensures
            t == get_le16(self@.spec_bytes(), 0),
    {
        let t: u16 = match self {
            CapabilitySet::General(_) => 1,
            CapabilitySet::Bitmap(_) => 2,
            CapabilitySet::Order(_) => 3,
            CapabilitySet::Input(_) => 13,
            CapabilitySet::Unknown(v, _) => *v,
        };
        proof {
            lemma_le16(t);
        }
        t
    }

    /// The named type of this set. A set of a known type gives its type; an
    /// opaque set gives the named type of its value where there is one, and
    /// General where the value has no name, so `type_value` is the one to ask
    /// for an opaque set's exact value.
    pub fn capability_type(&self) -> (t: CapabilitySetType)
        ensures
            match self {
                CapabilitySet::General(_) => t == CapabilitySetType::General,
                CapabilitySet::Bitmap(_) => t == CapabilitySetType::Bitmap,
                CapabilitySet::Order(_) => t == CapabilitySetType::Order,
                CapabilitySet::Input(_) => t == CapabilitySetType::Input,
                CapabilitySet::Unknown(v, _) => t == match CapabilitySetType::spec_from_u16(*v) {
                    Some(k) => k,
                    None => CapabilitySetType::General,
                },
            },
    {
        match self {
            CapabilitySet::General(_) => CapabilitySetType::General,
            CapabilitySet::Bitmap(_) => CapabilitySetType::Bitmap,
            CapabilitySet::Order(_) => CapabilitySetType::Order,
            CapabilitySet::Input(_) => CapabilitySetType::Input,
            CapabilitySet::Unknown(v, _) => match CapabilitySetType::from_u16(*v) {
                Some(k) => k,
                None => CapabilitySetType::General,
            },
        }
    }

    /// Appends the set: header and body.
    pub fn encode(&self, buffer: &mut Vec<u8>) -> (r: Result<()>)
        requires
            self matches CapabilitySet::Unknown(_, d) ==> d@.len() <= 65531,
        ensures
            r is Ok,
            final(buffer)@ == old(buffer)@ + self@.spec_bytes(),
    {
        match self {
            CapabilitySet::General(c) => c.encode(buffer),
            CapabilitySet::Bitmap(c) => c.encode(buffer),
            CapabilitySet::Order(c) => c.encode(buffer),
            CapabilitySet::Input(c) => c.encode(buffer),
            CapabilitySet::Unknown(t, d) => {
                put_u16_le(buffer, *t);
                put_u16_le(buffer, (CapabilitySetHeader::SIZE + d.len()) as u16);
                put_bytes(buffer, d.as_slice());
                assert(final(buffer)@ =~= old(buffer)@ + self@.spec_bytes());
                Ok(())
            },
        }
    }

    /// Reads a set. The type is read raw, so that a set of any other type is
    /// kept whole.
    pub fn decode(buffer: &mut BerReader) -> (r: Result<Self>)
        ensures
            crate::ber::consumed(*old(buffer), *final(buffer)),
            reads_view(r, Self::spec_parse(old(buffer).rest()), old(buffer).rest(), final(buffer).rest()),
    {
        reveal(CapabilitySet::spec_parse);
        if buffer.remaining() < 4 {
            return Err(PduError::InsufficientData { needed: 4, available: buffer.remaining() });
        }
        let ghost s = buffer.rest();
        let t = buffer.take_u16_le();
        let len = buffer.take_u16_le();
        assert(buffer.rest() =~= s.skip(4));
        if len < 4 {
            return Err(PduError::InvalidLength { expected: 4, actual: len as usize });
        }
        let data_len = (len - 4) as usize;
        if t == 1 {
            let c = GeneralCapability::decode_data(buffer, data_len)?;
            assert(buffer.rest() =~= s.skip(24));
            Ok(CapabilitySet::General(c))
        } else if t == 2 {
            let c = BitmapCapability::decode_data(buffer, data_len)?;
            assert(buffer.rest() =~= s.skip(28));
            Ok(CapabilitySet::Bitmap(c))
        } else if t == 3 {
            let c = OrderCapability::decode_data(buffer, data_len)?;
            assert(buffer.rest() =~= s.skip(88));
            Ok(CapabilitySet::Order(c))
        } else if t == 13 {
            let c = InputCapability::decode_data(buffer, data_len)?;
            assert(buffer.rest() =~= s.skip(88));
            Ok(CapabilitySet::Input(c))
        } else {
            let d = buffer.read_bytes(data_len)?;
            assert(d@ =~= s.subrange(4, len as int));
            assert(buffer.rest() =~= s.skip(len as int));
            Ok(CapabilitySet::Unknown(t, d))
        }
    }

    /// Header plus body length.
    pub fn size(&self) -> (n: usize)
        requires
            self matches CapabilitySet::Unknown(_, d) ==> d@.len() <= 65531,
        ensures
            n == self@.spec_bytes().len(),
    {
        match self {
            CapabilitySet::General(c) => c.size(),
            CapabilitySet::Bitmap(c) => c.size(),
            CapabilitySet::Order(c) => c.size(),
            CapabilitySet::Input(c) => c.size(),
            CapabilitySet::Unknown(_, d) => CapabilitySetHeader::SIZE + d.len(),
        }
    }
}

/// A set of a type without a body decoder of its own comes out of the decoder
/// as an opaque set holding exactly the body bytes, and encoding that set
/// gives back exactly the bytes that were read; the bytes after it stay
/// unread.
pub proof fn lemma_unknown_capability_preserved(s: Seq<u8>)
    requires
        s.len() >= 4,
        !is_known_capability(get_le16(s, 0)),
        4 <= get_le16(s, 2) <= s.len(),
    ensures
        CapabilitySet::spec_parse(s) == Ok::<(CapabilitySetModel, int), ErrorKind>(
            (CapabilitySetModel::Unknown(get_le16(s, 0), s.subrange(4, get_le16(s, 2) as int)), get_le16(s, 2) as int),
        ),
        CapabilitySetModel::Unknown(get_le16(s, 0), s.subrange(4, get_le16(s, 2) as int)).spec_bytes()
            == s.take(get_le16(s, 2) as int),
{
    reveal(CapabilitySet::spec_parse);
    let t = get_le16(s, 0);
    let len = get_le16(s, 2);
    let d = s.subrange(4, len as int);
    crate::bytes::lemma_le16_of(s, 0);
    crate::bytes::lemma_le16_of(s, 2);
    assert(((4 + d.len()) as u16) == len);
    assert(le16(t) + le16(len) + d =~= s.take(len as int));
}

proof fn lemma_general_set_round_trip(g: GeneralCapability, tail: Seq<u8>)
    ensures
        CapabilitySet::spec_parse(g.spec_bytes() + tail) == Ok::<(CapabilitySetModel, int), ErrorKind>(
            (CapabilitySetModel::General(g), 24),
        ),
{
    reveal(CapabilitySet::spec_parse);
    let s = g.spec_bytes() + tail;
    lemma_le16(1);
    lemma_le16(24);
    assert(get_le16(s, 0) == get_le16(le16(1), 0));
    assert(get_le16(s, 2) == get_le16(le16(24), 0));
    assert(s.skip(4) =~= g.data_bytes() + tail);
    g.lemma_round_trip(tail);
}

proof fn lemma_bitmap_set_round_trip(b: BitmapCapability, tail: Seq<u8>)
    ensures
        CapabilitySet::spec_parse(b.spec_bytes() + tail) == Ok::<(CapabilitySetModel, int), ErrorKind>(
            (CapabilitySetModel::Bitmap(b), 28),
        ),
{
    reveal(CapabilitySet::spec_parse);
    let s = b.spec_bytes() + tail;
    lemma_le16(2);
    lemma_le16(28);
    assert(get_le16(s, 0) == get_le16(le16(2), 0));
    assert(get_le16(s, 2) == get_le16(le16(28), 0));
    assert(s.skip(4) =~= b.data_bytes() + tail);
    b.lemma_round_trip(tail);
}

#[verifier::spinoff_prover]
#[verifier::rlimit(100)]
proof fn lemma_order_set_round_trip(o: OrderCapabilityModel, tail: Seq<u8>)
    requires
        o.wf(),
    ensures
        CapabilitySet::spec_parse(o.spec_bytes() + tail) == Ok::<(CapabilitySetModel, int), ErrorKind>(
            (CapabilitySetModel::Order(o), 88),
        ),
{
    reveal(CapabilitySet::spec_parse);
    let s = o.spec_bytes() + tail;
    lemma_le16(3);
    lemma_le16(88);
    assert(get_le16(s, 0) == get_le16(le16(3), 0));
    assert(get_le16(s, 2) == get_le16(le16(88), 0));
    assert(s.skip(4) =~= o.data_bytes() + tail);
    o.lemma_round_trip(tail);
}

proof fn lemma_unknown_set_round_trip(t: u16, d: Seq<u8>, tail: Seq<u8>)
    requires
        !is_known_capability(t),
        d.len() <= 65531,
    ensures
        CapabilitySet::spec_parse(CapabilitySetModel::Unknown(t, d).spec_bytes() + tail)
            == Ok::<(CapabilitySetModel, int), ErrorKind>((CapabilitySetModel::Unknown(t, d), 4 + d.len() as int)),
{
    reveal(CapabilitySet::spec_parse);
    let s = CapabilitySetModel::Unknown(t, d).spec_bytes() + tail;
    lemma_le16(t);
    lemma_le16((4 + d.len()) as u16);
    assert(get_le16(s, 0) == get_le16(le16(t), 0));
    assert(get_le16(s, 2) == get_le16(le16((4 + d.len()) as u16), 0));
    assert(s.subrange(4, 4 + d.len() as int) =~= d);
}

/// Every set of the General, Bitmap or Order type, and every opaque set of
/// another type whose body fits the 16-bit length, is read back as written,
/// and the bytes after it stay unread.
pub proof fn lemma_capability_round_trip(c: CapabilitySetModel, tail: Seq<u8>)
    requires
        !(c is Input),
        c matches CapabilitySetModel::Order(o) ==> o.wf(),
        c matches CapabilitySetModel::Unknown(t, d) ==> !is_known_capability(t) && d.len() <= 65531,
    ensures
        CapabilitySet::spec_parse(c.spec_bytes() + tail) == Ok::<(CapabilitySetModel, int), ErrorKind>(
            (c, c.spec_bytes().len() as int),
        ),
{
    match c {
        CapabilitySetModel::General(g) => lemma_general_set_round_trip(g, tail),
        CapabilitySetModel::Bitmap(b) => lemma_bitmap_set_round_trip(b, tail),
        CapabilitySetModel::Order(o) => lemma_order_set_round_trip(o, tail),
        CapabilitySetModel::Unknown(t, d) => lemma_unknown_set_round_trip(t, d, tail),
        CapabilitySetModel::Input(_) => {},
    }
}

/// An Input body with only known flag bits and an IME name of at most 32
/// nonzero UTF-16 units is read back as written.
pub proof fn lemma_input_round_trip(m: InputCapabilityModel, tail: Seq<u8>)
    requires
        m.input_flags & 0x01FD == m.input_flags,
        m.ime_file_name.len() <= 32,
        utf16_valid(m.ime_file_name),
        forall|i: int| 0 <= i < m.ime_file_name.len() ==> m.ime_file_name[i] != 0,
    ensures
        InputCapability::spec_parse_data(m.data_bytes() + tail) == Ok::<(InputCapabilityModel, int), ErrorKind>((m, 84)),
{
    let s = m.data_bytes() + tail;
    lemma_name_field_round_trip(m.ime_file_name, 32);
    lemma_le16(m.input_flags);
    assert(get_le16(s, 0) == get_le16(le16(m.input_flags), 0));
    lemma_le32(m.keyboard_layout);
    assert(get_le32(s, 4) == get_le32(le32(m.keyboard_layout), 0));
    lemma_le32(m.keyboard_type);
    assert(get_le32(s, 8) == get_le32(le32(m.keyboard_type), 0));
    lemma_le32(m.keyboard_subtype);
    assert(get_le32(s, 12) == get_le32(le32(m.keyboard_subtype), 0));
    lemma_le32(m.keyboard_function_key);
    assert(get_le32(s, 16) == get_le32(le32(m.keyboard_function_key), 0));
    assert(s.subrange(20, 84) =~= name_field(m.ime_file_name, 32));
    assert(InputCapability::spec_parse_data(s)->Ok_0.0 =~= m);
}

} // verus!
