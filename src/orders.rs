//! Primary drawing orders (simplified fixed-size forms) and the Orders update.
use vstd::prelude::*;
use crate::ber::{reads, reads_view, BerReader};
use crate::bytes::{
    from_i16_bits, get_le16, get_le32, i16_bits, i16_of, le16, le32, lemma_i16, lemma_le16, lemma_le32,
    put_u16_le, put_u32_le, put_u8, to_i16_bits,
};
use crate::error::{ErrorKind, PduError, Result};

verus! {

/// Primary drawing order types.
#[derive(Debug, Clone, Copy, PartialEq, Eq, Structural)]
pub enum OrderType {
    DstBlt,
    PatBlt,
    ScrBlt,
    LineTo,
    OpaqueRect,
    SaveBitmap,
    MemBlt,
    Mem3Blt,
    MultiDstBlt,
    MultiPatBlt,
    MultiScrBlt,
    MultiOpaqueRect,
    FastIndex,
    PolygonSC,
    PolygonCB,
    Polyline,
    FastGlyph,
    EllipseSC,
    EllipseCB,
    GlyphIndex,
}

impl OrderType {
    pub open spec fn spec_as_u8(self) -> u8 {
        match self {
            OrderType::DstBlt => 0x00,
            OrderType::PatBlt => 0x01,
            OrderType::ScrBlt => 0x02,
            OrderType::LineTo => 0x09,
            OrderType::OpaqueRect => 0x0A,
            OrderType::SaveBitmap => 0x0B,
            OrderType::MemBlt => 0x0D,
            OrderType::Mem3Blt => 0x0E,
            OrderType::MultiDstBlt => 0x0F,
            OrderType::MultiPatBlt => 0x10,
            OrderType::MultiScrBlt => 0x11,
            OrderType::MultiOpaqueRect => 0x12,
            OrderType::FastIndex => 0x13,
            OrderType::PolygonSC => 0x14,
            OrderType::PolygonCB => 0x15,
            OrderType::Polyline => 0x16,
            OrderType::FastGlyph => 0x18,
            OrderType::EllipseSC => 0x19,
            OrderType::EllipseCB => 0x1A,
            OrderType::GlyphIndex => 0x1B,
        }
    }

    pub open spec fn spec_from_u8(value: u8) -> Option<OrderType> {
        if value == 0x00 {
            Some(OrderType::DstBlt)
        } else if value == 0x01 {
            Some(OrderType::PatBlt)
        } else if value == 0x02 {
            Some(OrderType::ScrBlt)
        } else if value == 0x09 {
            Some(OrderType::LineTo)
        } else if value == 0x0A {
            Some(OrderType::OpaqueRect)
        } else if value == 0x0B {
            Some(OrderType::SaveBitmap)
        } else if value == 0x0D {
            Some(OrderType::MemBlt)
        } else if value == 0x0E {
            Some(OrderType::Mem3Blt)
        } else if value == 0x0F {
            Some(OrderType::MultiDstBlt)
        } else if value == 0x10 {
            Some(OrderType::MultiPatBlt)
        } else if value == 0x11 {
            Some(OrderType::MultiScrBlt)
        } else if value == 0x12 {
            Some(OrderType::MultiOpaqueRect)
        } else if value == 0x13 {
            Some(OrderType::FastIndex)
        } else if value == 0x14 {
            Some(OrderType::PolygonSC)
        } else if value == 0x15 {
            Some(OrderType::PolygonCB)
        } else if value == 0x16 {
            Some(OrderType::Polyline)
        } else if value == 0x18 {
            Some(OrderType::FastGlyph)
        } else if value == 0x19 {
            Some(OrderType::EllipseSC)
        } else if value == 0x1A {
            Some(OrderType::EllipseCB)
        } else if value == 0x1B {
            Some(OrderType::GlyphIndex)
        } else {
            None
        }
    }

    pub proof fn lemma_from_as(self)
        ensures
            Self::spec_from_u8(self.spec_as_u8()) == Some(self),
    {
    }

    /// The value on the wire.
    pub fn as_u8(self) -> (r: u8)
        ensures
            r == self.spec_as_u8(),
            Self::spec_from_u8(r) == Some(self),
    {
        match self {
            OrderType::DstBlt => 0x00,
            OrderType::PatBlt => 0x01,
            OrderType::ScrBlt => 0x02,
            OrderType::LineTo => 0x09,
            OrderType::OpaqueRect => 0x0A,
            OrderType::SaveBitmap => 0x0B,
            OrderType::MemBlt => 0x0D,
            OrderType::Mem3Blt => 0x0E,
            OrderType::MultiDstBlt => 0x0F,
            OrderType::MultiPatBlt => 0x10,
            OrderType::MultiScrBlt => 0x11,
            OrderType::MultiOpaqueRect => 0x12,
            OrderType::FastIndex => 0x13,
            OrderType::PolygonSC => 0x14,
            OrderType::PolygonCB => 0x15,
            OrderType::Polyline => 0x16,
            OrderType::FastGlyph => 0x18,
            OrderType::EllipseSC => 0x19,
            OrderType::EllipseCB => 0x1A,
            OrderType::GlyphIndex => 0x1B,
        }
    }

    /// The variant with the given value, if any.
    pub fn from_u8(value: u8) -> (r: Option<OrderType>)
        ensures
            r == Self::spec_from_u8(value),
            r matches Some(v) ==> v.spec_as_u8() == value,
    {
        match value {
            0x00 => Some(OrderType::DstBlt),
            0x01 => Some(OrderType::PatBlt),
            0x02 => Some(OrderType::ScrBlt),
            0x09 => Some(OrderType::LineTo),
            0x0A => Some(OrderType::OpaqueRect),
            0x0B => Some(OrderType::SaveBitmap),
            0x0D => Some(OrderType::MemBlt),
            0x0E => Some(OrderType::Mem3Blt),
            0x0F => Some(OrderType::MultiDstBlt),
            0x10 => Some(OrderType::MultiPatBlt),
            0x11 => Some(OrderType::MultiScrBlt),
            0x12 => Some(OrderType::MultiOpaqueRect),
            0x13 => Some(OrderType::FastIndex),
            0x14 => Some(OrderType::PolygonSC),
            0x15 => Some(OrderType::PolygonCB),
            0x16 => Some(OrderType::Polyline),
            0x18 => Some(OrderType::FastGlyph),
            0x19 => Some(OrderType::EllipseSC),
            0x1A => Some(OrderType::EllipseCB),
            0x1B => Some(OrderType::GlyphIndex),
            _ => None,
        }
    }
}

/// DstBlt: a rectangle and a raster operation.
#[derive(Debug, Clone, Copy, PartialEq, Eq)]
pub struct DstBltOrder {
    pub n_left_rect: i16,
    pub n_top_rect: i16,
    pub n_width: i16,
    pub n_height: i16,
    /// Raster operation.
    pub b_rop: u8,
}

impl DstBltOrder {
    pub open spec fn spec_bytes(&self) -> Seq<u8> {
        le16(i16_bits(self.n_left_rect))
            + le16(i16_bits(self.n_top_rect))
            + le16(i16_bits(self.n_width))
            + le16(i16_bits(self.n_height))
            + seq![self.b_rop]
    }

    /// What the decoder makes of `s`.
    pub open spec fn spec_parse(s: Seq<u8>) -> core::result::Result<(DstBltOrder, int), ErrorKind> {
        if s.len() < 9 {
            Err(ErrorKind::InsufficientData { needed: 9, available: s.len() as usize })
        } else {
            Ok((DstBltOrder {
                n_left_rect: i16_of(get_le16(s, 0)),
                n_top_rect: i16_of(get_le16(s, 2)),
                n_width: i16_of(get_le16(s, 4)),
                n_height: i16_of(get_le16(s, 6)),
                b_rop: s[8],
            }, 9))
        }
    }

    /// Appends the 9 bytes.
    pub fn encode(&self, buffer: &mut Vec<u8>) -> (r: Result<()>)
        ensures
            r is Ok,
            final(buffer)@ == old(buffer)@ + self.spec_bytes(),
    {
        put_u16_le(buffer, to_i16_bits(self.n_left_rect));
        put_u16_le(buffer, to_i16_bits(self.n_top_rect));
        put_u16_le(buffer, to_i16_bits(self.n_width));
        put_u16_le(buffer, to_i16_bits(self.n_height));
        put_u8(buffer, self.b_rop);
        assert(final(buffer)@ =~= old(buffer)@ + self.spec_bytes());
        Ok(())
    }

    /// Reads the 9 bytes.
    pub fn decode(buffer: &mut BerReader) -> (r: Result<Self>)
        ensures
            crate::ber::consumed(*old(buffer), *final(buffer)),
            reads(r, Self::spec_parse(old(buffer).rest()), old(buffer).rest(), final(buffer).rest()),
    {
        if buffer.remaining() < 9 {
            return Err(PduError::InsufficientData { needed: 9, available: buffer.remaining() });
        }
        let ghost s = buffer.rest();
        let n_left_rect_raw = from_i16_bits(buffer.take_u16_le());
        assert(buffer.rest() =~= s.skip(2));
        let n_top_rect_raw = from_i16_bits(buffer.take_u16_le());
        assert(buffer.rest() =~= s.skip(4));
        let n_width_raw = from_i16_bits(buffer.take_u16_le());
        assert(buffer.rest() =~= s.skip(6));
        let n_height_raw = from_i16_bits(buffer.take_u16_le());
        assert(buffer.rest() =~= s.skip(8));
        let b_rop_raw = buffer.take_u8();
        assert(buffer.rest() =~= s.skip(9));
        Ok(DstBltOrder {
            n_left_rect: n_left_rect_raw,
            n_top_rect: n_top_rect_raw,
            n_width: n_width_raw,
            n_height: n_height_raw,
            b_rop: b_rop_raw,
        })
    }

    /// Always 9.
    pub fn size(&self) -> (n: usize)
        ensures
            n == self.spec_bytes().len(),
    {
        9
    }

    /// Every value is read back as written; the bytes after it stay unread.
    pub proof fn lemma_round_trip(self, tail: Seq<u8>)
        ensures
            Self::spec_parse(self.spec_bytes() + tail) == Ok::<(DstBltOrder, int), ErrorKind>((self, 9)),
    {
        let s = self.spec_bytes() + tail;
        lemma_le16(i16_bits(self.n_left_rect));
        lemma_i16(self.n_left_rect);
        assert(get_le16(s, 0) == get_le16(le16(i16_bits(self.n_left_rect)), 0));
        lemma_le16(i16_bits(self.n_top_rect));
        lemma_i16(self.n_top_rect);
        assert(get_le16(s, 2) == get_le16(le16(i16_bits(self.n_top_rect)), 0));
        lemma_le16(i16_bits(self.n_width));
        lemma_i16(self.n_width);
        assert(get_le16(s, 4) == get_le16(le16(i16_bits(self.n_width)), 0));
        lemma_le16(i16_bits(self.n_height));
        lemma_i16(self.n_height);
        assert(get_le16(s, 6) == get_le16(le16(i16_bits(self.n_height)), 0));
        assert(s[8] == self.b_rop);
    }
}

impl DstBltOrder {
    pub const SIZE: usize = 9;
}

impl DstBltOrder {
    pub fn new(x: i16, y: i16, width: i16, height: i16, rop: u8) -> (r: Self)
        ensures
            r == (DstBltOrder { n_left_rect: x, n_top_rect: y, n_width: width, n_height: height, b_rop: rop }),
    {
        DstBltOrder { n_left_rect: x, n_top_rect: y, n_width: width, n_height: height, b_rop: rop }
    }
}

/// PatBlt: a rectangle, a raster operation and two colours.
#[derive(Debug, Clone, Copy, PartialEq, Eq)]
pub struct PatBltOrder {
    pub n_left_rect: i16,
    pub n_top_rect: i16,
    pub n_width: i16,
    pub n_height: i16,
    pub b_rop: u8,
    pub back_color: u32,
    pub fore_color: u32,
}

impl PatBltOrder {
    pub open spec fn spec_bytes(&self) -> Seq<u8> {
        le16(i16_bits(self.n_left_rect))
            + le16(i16_bits(self.n_top_rect))
            + le16(i16_bits(self.n_width))
            + le16(i16_bits(self.n_height))
            + seq![self.b_rop]
            + le32(self.back_color)
            + le32(self.fore_color)
    }

    /// What the decoder makes of `s`.
    pub open spec fn spec_parse(s: Seq<u8>) -> core::result::Result<(PatBltOrder, int), ErrorKind> {
        if s.len() < 17 {
            Err(ErrorKind::InsufficientData { needed: 17, available: s.len() as usize })
        } else {
            Ok((PatBltOrder {
                n_left_rect: i16_of(get_le16(s, 0)),
                n_top_rect: i16_of(get_le16(s, 2)),
                n_width: i16_of(get_le16(s, 4)),
                n_height: i16_of(get_le16(s, 6)),
                b_rop: s[8],
                back_color: get_le32(s, 9),
                fore_color: get_le32(s, 13),
            }, 17))
        }
    }

    /// Appends the 17 bytes.
    pub fn encode(&self, buffer: &mut Vec<u8>) -> (r: Result<()>)
        ensures
            r is Ok,
            final(buffer)@ == old(buffer)@ + self.spec_bytes(),
    {
        put_u16_le(buffer, to_i16_bits(self.n_left_rect));
        put_u16_le(buffer, to_i16_bits(self.n_top_rect));
        put_u16_le(buffer, to_i16_bits(self.n_width));
        put_u16_le(buffer, to_i16_bits(self.n_height));
        put_u8(buffer, self.b_rop);
        put_u32_le(buffer, self.back_color);
        put_u32_le(buffer, self.fore_color);
        assert(final(buffer)@ =~= old(buffer)@ + self.spec_bytes());
        Ok(())
    }

    /// Reads the 17 bytes.
    pub fn decode(buffer: &mut BerReader) -> (r: Result<Self>)
        ensures
            crate::ber::consumed(*old(buffer), *final(buffer)),
            reads(r, Self::spec_parse(old(buffer).rest()), old(buffer).rest(), final(buffer).rest()),
    {
        if buffer.remaining() < 17 {
            return Err(PduError::InsufficientData { needed: 17, available: buffer.remaining() });
        }
        let ghost s = buffer.rest();
        let n_left_rect_raw = from_i16_bits(buffer.take_u16_le());
        assert(buffer.rest() =~= s.skip(2));
        let n_top_rect_raw = from_i16_bits(buffer.take_u16_le());
        assert(buffer.rest() =~= s.skip(4));
        let n_width_raw = from_i16_bits(buffer.take_u16_le());
        assert(buffer.rest() =~= s.skip(6));
        let n_height_raw = from_i16_bits(buffer.take_u16_le());
        assert(buffer.rest() =~= s.skip(8));
        let b_rop_raw = buffer.take_u8();
        assert(buffer.rest() =~= s.skip(9));
        let back_color_raw = buffer.take_u32_le();
        assert(buffer.rest() =~= s.skip(13));
        let fore_color_raw = buffer.take_u32_le();
        assert(buffer.rest() =~= s.skip(17));
        Ok(PatBltOrder {
            n_left_rect: n_left_rect_raw,
            n_top_rect: n_top_rect_raw,
            n_width: n_width_raw,
            n_height: n_height_raw,
            b_rop: b_rop_raw,
            back_color: back_color_raw,
            fore_color: fore_color_raw,
        })
    }

    /// Always 17.
    pub fn size(&self) -> (n: usize)
        ensures
            n == self.spec_bytes().len(),
    {
        17
    }

    /// Every value is read back as written; the bytes after it stay unread.
    pub proof fn lemma_round_trip(self, tail: Seq<u8>)
        ensures
            Self::spec_parse(self.spec_bytes() + tail) == Ok::<(PatBltOrder, int), ErrorKind>((self, 17)),
    {
        let s = self.spec_bytes() + tail;
        lemma_le16(i16_bits(self.n_left_rect));
        lemma_i16(self.n_left_rect);
        assert(get_le16(s, 0) == get_le16(le16(i16_bits(self.n_left_rect)), 0));
        lemma_le16(i16_bits(self.n_top_rect));
        lemma_i16(self.n_top_rect);
        assert(get_le16(s, 2) == get_le16(le16(i16_bits(self.n_top_rect)), 0));
        lemma_le16(i16_bits(self.n_width));
        lemma_i16(self.n_width);
        assert(get_le16(s, 4) == get_le16(le16(i16_bits(self.n_width)), 0));
        lemma_le16(i16_bits(self.n_height));
        lemma_i16(self.n_height);
        assert(get_le16(s, 6) == get_le16(le16(i16_bits(self.n_height)), 0));
        assert(s[8] == self.b_rop);
        lemma_le32(self.back_color);
        assert(get_le32(s, 9) == get_le32(le32(self.back_color), 0));
        lemma_le32(self.fore_color);
        assert(get_le32(s, 13) == get_le32(le32(self.fore_color), 0));
    }
}

impl PatBltOrder {
    pub const SIZE: usize = 17;
}

impl PatBltOrder {
    pub fn new(x: i16, y: i16, width: i16, height: i16, rop: u8, back_color: u32, fore_color: u32) -> (r: Self)
        ensures
            r == (PatBltOrder { n_left_rect: x, n_top_rect: y, n_width: width, n_height: height, b_rop: rop, back_color, fore_color }),
    {
        PatBltOrder { n_left_rect: x, n_top_rect: y, n_width: width, n_height: height, b_rop: rop, back_color, fore_color }
    }
}

/// ScrBlt: a rectangle, a raster operation and a source point.
#[derive(Debug, Clone, Copy, PartialEq, Eq)]
pub struct ScrBltOrder {
    pub n_left_rect: i16,
    pub n_top_rect: i16,
    pub n_width: i16,
    pub n_height: i16,
    pub b_rop: u8,
    pub n_x_src: i16,
    pub n_y_src: i16,
}

impl ScrBltOrder {
    pub open spec fn spec_bytes(&self) -> Seq<u8> {
        le16(i16_bits(self.n_left_rect))
            + le16(i16_bits(self.n_top_rect))
            + le16(i16_bits(self.n_width))
            + le16(i16_bits(self.n_height))
            + seq![self.b_rop]
            + le16(i16_bits(self.n_x_src))
            + le16(i16_bits(self.n_y_src))
    }

    /// What the decoder makes of `s`.
    pub open spec fn spec_parse(s: Seq<u8>) -> core::result::Result<(ScrBltOrder, int), ErrorKind> {
        if s.len() < 13 {
            Err(ErrorKind::InsufficientData { needed: 13, available: s.len() as usize })
        } else {
            Ok((ScrBltOrder {
                n_left_rect: i16_of(get_le16(s, 0)),
                n_top_rect: i16_of(get_le16(s, 2)),
                n_width: i16_of(get_le16(s, 4)),
                n_height: i16_of(get_le16(s, 6)),
                b_rop: s[8],
                n_x_src: i16_of(get_le16(s, 9)),
                n_y_src: i16_of(get_le16(s, 11)),
            }, 13))
        }
    }

    /// Appends the 13 bytes.
    pub fn encode(&self, buffer: &mut Vec<u8>) -> (r: Result<()>)
        ensures
            r is Ok,
            final(buffer)@ == old(buffer)@ + self.spec_bytes(),
    {
        put_u16_le(buffer, to_i16_bits(self.n_left_rect));
        put_u16_le(buffer, to_i16_bits(self.n_top_rect));
        put_u16_le(buffer, to_i16_bits(self.n_width));
        put_u16_le(buffer, to_i16_bits(self.n_height));
        put_u8(buffer, self.b_rop);
        put_u16_le(buffer, to_i16_bits(self.n_x_src));
        put_u16_le(buffer, to_i16_bits(self.n_y_src));
        assert(final(buffer)@ =~= old(buffer)@ + self.spec_bytes());
        Ok(())
    }

    /// Reads the 13 bytes.
    pub fn decode(buffer: &mut BerReader) -> (r: Result<Self>)
        ensures
            crate::ber::consumed(*old(buffer), *final(buffer)),
            reads(r, Self::spec_parse(old(buffer).rest()), old(buffer).rest(), final(buffer).rest()),
    {
        if buffer.remaining() < 13 {
            return Err(PduError::InsufficientData { needed: 13, available: buffer.remaining() });
        }
        let ghost s = buffer.rest();
        let n_left_rect_raw = from_i16_bits(buffer.take_u16_le());
        assert(buffer.rest() =~= s.skip(2));
        let n_top_rect_raw = from_i16_bits(buffer.take_u16_le());
        assert(buffer.rest() =~= s.skip(4));
        let n_width_raw = from_i16_bits(buffer.take_u16_le());
        assert(buffer.rest() =~= s.skip(6));
        let n_height_raw = from_i16_bits(buffer.take_u16_le());
        assert(buffer.rest() =~= s.skip(8));
        let b_rop_raw = buffer.take_u8();
        assert(buffer.rest() =~= s.skip(9));
        let n_x_src_raw = from_i16_bits(buffer.take_u16_le());
        assert(buffer.rest() =~= s.skip(11));
        let n_y_src_raw = from_i16_bits(buffer.take_u16_le());
        assert(buffer.rest() =~= s.skip(13));
        Ok(ScrBltOrder {
            n_left_rect: n_left_rect_raw,
            n_top_rect: n_top_rect_raw,
            n_width: n_width_raw,
            n_height: n_height_raw,
            b_rop: b_rop_raw,
            n_x_src: n_x_src_raw,
            n_y_src: n_y_src_raw,
        })
    }

    /// Always 13.
    pub fn size(&self) -> (n: usize)
        ensures
            n == self.spec_bytes().len(),
    {
        13
    }

    /// Every value is read back as written; the bytes after it stay unread.
    pub proof fn lemma_round_trip(self, tail: Seq<u8>)
        ensures
            Self::spec_parse(self.spec_bytes() + tail) == Ok::<(ScrBltOrder, int), ErrorKind>((self, 13)),
    {
        let s = self.spec_bytes() + tail;
        lemma_le16(i16_bits(self.n_left_rect));
        lemma_i16(self.n_left_rect);
        assert(get_le16(s, 0) == get_le16(le16(i16_bits(self.n_left_rect)), 0));
        lemma_le16(i16_bits(self.n_top_rect));
        lemma_i16(self.n_top_rect);
        assert(get_le16(s, 2) == get_le16(le16(i16_bits(self.n_top_rect)), 0));
        lemma_le16(i16_bits(self.n_width));
        lemma_i16(self.n_width);
        assert(get_le16(s, 4) == get_le16(le16(i16_bits(self.n_width)), 0));
        lemma_le16(i16_bits(self.n_height));
        lemma_i16(self.n_height);
        assert(get_le16(s, 6) == get_le16(le16(i16_bits(self.n_height)), 0));
        assert(s[8] == self.b_rop);
        lemma_le16(i16_bits(self.n_x_src));
        lemma_i16(self.n_x_src);
        assert(get_le16(s, 9) == get_le16(le16(i16_bits(self.n_x_src)), 0));
        lemma_le16(i16_bits(self.n_y_src));
        lemma_i16(self.n_y_src);
        assert(get_le16(s, 11) == get_le16(le16(i16_bits(self.n_y_src)), 0));
    }
}

impl ScrBltOrder {
    pub const SIZE: usize = 13;
}

impl ScrBltOrder {
    pub fn new(dest_x: i16, dest_y: i16, width: i16, height: i16, rop: u8, src_x: i16, src_y: i16) -> (r: Self)
        ensures
            r == (ScrBltOrder { n_left_rect: dest_x, n_top_rect: dest_y, n_width: width, n_height: height, b_rop: rop, n_x_src: src_x, n_y_src: src_y }),
    {
        ScrBltOrder { n_left_rect: dest_x, n_top_rect: dest_y, n_width: width, n_height: height, b_rop: rop, n_x_src: src_x, n_y_src: src_y }
    }
}

/// MemBlt: a cached bitmap drawn into a rectangle.
#[derive(Debug, Clone, Copy, PartialEq, Eq)]
pub struct MemBltOrder {
    pub cache_id: u16,
    pub n_left_rect: i16,
    pub n_top_rect: i16,
    pub n_width: i16,
    pub n_height: i16,
    pub b_rop: u8,
    pub n_x_src: i16,
    pub n_y_src: i16,
    pub cache_index: u16,
}

impl MemBltOrder {
    pub open spec fn spec_bytes(&self) -> Seq<u8> {
        le16(self.cache_id)
            + le16(i16_bits(self.n_left_rect))
            + le16(i16_bits(self.n_top_rect))
            + le16(i16_bits(self.n_width))
            + le16(i16_bits(self.n_height))
            + seq![self.b_rop]
            + le16(i16_bits(self.n_x_src))
            + le16(i16_bits(self.n_y_src))
            + le16(self.cache_index)
    }

    /// What the decoder makes of `s`.
    pub open spec fn spec_parse(s: Seq<u8>) -> core::result::Result<(MemBltOrder, int), ErrorKind> {
        if s.len() < 17 {
            Err(ErrorKind::InsufficientData { needed: 17, available: s.len() as usize })
        } else {
            Ok((MemBltOrder {
                cache_id: get_le16(s, 0),
                n_left_rect: i16_of(get_le16(s, 2)),
                n_top_rect: i16_of(get_le16(s, 4)),
                n_width: i16_of(get_le16(s, 6)),
                n_height: i16_of(get_le16(s, 8)),
                b_rop: s[10],
                n_x_src: i16_of(get_le16(s, 11)),
                n_y_src: i16_of(get_le16(s, 13)),
                cache_index: get_le16(s, 15),
            }, 17))
        }
    }

    /// Appends the 17 bytes.
    pub fn encode(&self, buffer: &mut Vec<u8>) -> (r: Result<()>)
        ensures
            r is Ok,
            final(buffer)@ == old(buffer)@ + self.spec_bytes(),
    {
        put_u16_le(buffer, self.cache_id);
        put_u16_le(buffer, to_i16_bits(self.n_left_rect));
        put_u16_le(buffer, to_i16_bits(self.n_top_rect));
        put_u16_le(buffer, to_i16_bits(self.n_width));
        put_u16_le(buffer, to_i16_bits(self.n_height));
        put_u8(buffer, self.b_rop);
        put_u16_le(buffer, to_i16_bits(self.n_x_src));
        put_u16_le(buffer, to_i16_bits(self.n_y_src));
        put_u16_le(buffer, self.cache_index);
        assert(final(buffer)@ =~= old(buffer)@ + self.spec_bytes());
        Ok(())
    }

    /// Reads the 17 bytes.
    pub fn decode(buffer: &mut BerReader) -> (r: Result<Self>)
        ensures
            crate::ber::consumed(*old(buffer), *final(buffer)),
            reads(r, Self::spec_parse(old(buffer).rest()), old(buffer).rest(), final(buffer).rest()),
    {
        if buffer.remaining() < 17 {
            return Err(PduError::InsufficientData { needed: 17, available: buffer.remaining() });
        }
        let ghost s = buffer.rest();
        let cache_id_raw = buffer.take_u16_le();
        assert(buffer.rest() =~= s.skip(2));
        let n_left_rect_raw = from_i16_bits(buffer.take_u16_le());
        assert(buffer.rest() =~= s.skip(4));
        let n_top_rect_raw = from_i16_bits(buffer.take_u16_le());
        assert(buffer.rest() =~= s.skip(6));
        let n_width_raw = from_i16_bits(buffer.take_u16_le());
        assert(buffer.rest() =~= s.skip(8));
        let n_height_raw = from_i16_bits(buffer.take_u16_le());
        assert(buffer.rest() =~= s.skip(10));
        let b_rop_raw = buffer.take_u8();
        assert(buffer.rest() =~= s.skip(11));
        let n_x_src_raw = from_i16_bits(buffer.take_u16_le());
        assert(buffer.rest() =~= s.skip(13));
        let n_y_src_raw = from_i16_bits(buffer.take_u16_le());
        assert(buffer.rest() =~= s.skip(15));
        let cache_index_raw = buffer.take_u16_le();
        assert(buffer.rest() =~= s.skip(17));
        Ok(MemBltOrder {
            cache_id: cache_id_raw,
            n_left_rect: n_left_rect_raw,
            n_top_rect: n_top_rect_raw,
            n_width: n_width_raw,
            n_height: n_height_raw,
            b_rop: b_rop_raw,
            n_x_src: n_x_src_raw,
            n_y_src: n_y_src_raw,
            cache_index: cache_index_raw,
        })
    }

    /// Always 17.
    pub fn size(&self) -> (n: usize)
        ensures
            n == self.spec_bytes().len(),
    {
        17
    }

    /// Every value is read back as written; the bytes after it stay unread.
    pub proof fn lemma_round_trip(self, tail: Seq<u8>)
        ensures
            Self::spec_parse(self.spec_bytes() + tail) == Ok::<(MemBltOrder, int), ErrorKind>((self, 17)),
    {
        let s = self.spec_bytes() + tail;
        lemma_le16(self.cache_id);
        assert(get_le16(s, 0) == get_le16(le16(self.cache_id), 0));
        lemma_le16(i16_bits(self.n_left_rect));
        lemma_i16(self.n_left_rect);
        assert(get_le16(s, 2) == get_le16(le16(i16_bits(self.n_left_rect)), 0));
        lemma_le16(i16_bits(self.n_top_rect));
        lemma_i16(self.n_top_rect);
        assert(get_le16(s, 4) == get_le16(le16(i16_bits(self.n_top_rect)), 0));
        lemma_le16(i16_bits(self.n_width));
        lemma_i16(self.n_width);
        assert(get_le16(s, 6) == get_le16(le16(i16_bits(self.n_width)), 0));
        lemma_le16(i16_bits(self.n_height));
        lemma_i16(self.n_height);
        assert(get_le16(s, 8) == get_le16(le16(i16_bits(self.n_height)), 0));
        assert(s[10] == self.b_rop);
        lemma_le16(i16_bits(self.n_x_src));
        lemma_i16(self.n_x_src);
        assert(get_le16(s, 11) == get_le16(le16(i16_bits(self.n_x_src)), 0));
        lemma_le16(i16_bits(self.n_y_src));
        lemma_i16(self.n_y_src);
        assert(get_le16(s, 13) == get_le16(le16(i16_bits(self.n_y_src)), 0));
        lemma_le16(self.cache_index);
        assert(get_le16(s, 15) == get_le16(le16(self.cache_index), 0));
    }
}

impl MemBltOrder {
    pub const SIZE: usize = 17;
}

impl MemBltOrder {
    pub fn new(cache_id: u16, dest_x: i16, dest_y: i16, width: i16, height: i16, rop: u8, src_x: i16, src_y: i16, cache_index: u16) -> (r: Self)
        ensures
            r == (MemBltOrder { cache_id, n_left_rect: dest_x, n_top_rect: dest_y, n_width: width, n_height: height, b_rop: rop, n_x_src: src_x, n_y_src: src_y, cache_index }),
    {
        MemBltOrder { cache_id, n_left_rect: dest_x, n_top_rect: dest_y, n_width: width, n_height: height, b_rop: rop, n_x_src: src_x, n_y_src: src_y, cache_index }
    }
}

/// OpaqueRect: a rectangle filled with one colour.
#[derive(Debug, Clone, Copy, PartialEq, Eq)]
pub struct OpaqueRectOrder {
    pub n_left_rect: i16,
    pub n_top_rect: i16,
    pub n_width: i16,
    pub n_height: i16,
    /// 24-bit colour in a little-endian 32-bit word.
    pub color: u32,
}

impl OpaqueRectOrder {
    pub open spec fn spec_bytes(&self) -> Seq<u8> {
        le16(i16_bits(self.n_left_rect))
            + le16(i16_bits(self.n_top_rect))
            + le16(i16_bits(self.n_width))
            + le16(i16_bits(self.n_height))
            + le32(self.color)
    }

    /// What the decoder makes of `s`.
    pub open spec fn spec_parse(s: Seq<u8>) -> core::result::Result<(OpaqueRectOrder, int), ErrorKind> {
        if s.len() < 12 {
            Err(ErrorKind::InsufficientData { needed: 12, available: s.len() as usize })
        } else {
            Ok((OpaqueRectOrder {
                n_left_rect: i16_of(get_le16(s, 0)),
                n_top_rect: i16_of(get_le16(s, 2)),
                n_width: i16_of(get_le16(s, 4)),
                n_height: i16_of(get_le16(s, 6)),
                color: get_le32(s, 8),
            }, 12))
        }
    }

    /// Appends the 12 bytes.
    pub fn encode(&self, buffer: &mut Vec<u8>) -> (r: Result<()>)
        ensures
            r is Ok,
            final(buffer)@ == old(buffer)@ + self.spec_bytes(),
    {
        put_u16_le(buffer, to_i16_bits(self.n_left_rect));
        put_u16_le(buffer, to_i16_bits(self.n_top_rect));
        put_u16_le(buffer, to_i16_bits(self.n_width));
        put_u16_le(buffer, to_i16_bits(self.n_height));
        put_u32_le(buffer, self.color);
        assert(final(buffer)@ =~= old(buffer)@ + self.spec_bytes());
        Ok(())
    }

    /// Reads the 12 bytes.
    pub fn decode(buffer: &mut BerReader) -> (r: Result<Self>)
        ensures
            crate::ber::consumed(*old(buffer), *final(buffer)),
            reads(r, Self::spec_parse(old(buffer).rest()), old(buffer).rest(), final(buffer).rest()),
    {
        if buffer.remaining() < 12 {
            return Err(PduError::InsufficientData { needed: 12, available: buffer.remaining() });
        }
        let ghost s = buffer.rest();
        let n_left_rect_raw = from_i16_bits(buffer.take_u16_le());
        assert(buffer.rest() =~= s.skip(2));
        let n_top_rect_raw = from_i16_bits(buffer.take_u16_le());
        assert(buffer.rest() =~= s.skip(4));
        let n_width_raw = from_i16_bits(buffer.take_u16_le());
        assert(buffer.rest() =~= s.skip(6));
        let n_height_raw = from_i16_bits(buffer.take_u16_le());
        assert(buffer.rest() =~= s.skip(8));
        let color_raw = buffer.take_u32_le();
        assert(buffer.rest() =~= s.skip(12));
        Ok(OpaqueRectOrder {
            n_left_rect: n_left_rect_raw,
            n_top_rect: n_top_rect_raw,
            n_width: n_width_raw,
            n_height: n_height_raw,
            color: color_raw,
        })
    }

    /// Always 12.
    pub fn size(&self) -> (n: usize)
        ensures
            n == self.spec_bytes().len(),
    {
        12
    }

    /// Every value is read back as written; the bytes after it stay unread.
    pub proof fn lemma_round_trip(self, tail: Seq<u8>)
        ensures
            Self::spec_parse(self.spec_bytes() + tail) == Ok::<(OpaqueRectOrder, int), ErrorKind>((self, 12)),
    {
        let s = self.spec_bytes() + tail;
        lemma_le16(i16_bits(self.n_left_rect));
        lemma_i16(self.n_left_rect);
        assert(get_le16(s, 0) == get_le16(le16(i16_bits(self.n_left_rect)), 0));
        lemma_le16(i16_bits(self.n_top_rect));
        lemma_i16(self.n_top_rect);
        assert(get_le16(s, 2) == get_le16(le16(i16_bits(self.n_top_rect)), 0));
        lemma_le16(i16_bits(self.n_width));
        lemma_i16(self.n_width);
        assert(get_le16(s, 4) == get_le16(le16(i16_bits(self.n_width)), 0));
        lemma_le16(i16_bits(self.n_height));
        lemma_i16(self.n_height);
        assert(get_le16(s, 6) == get_le16(le16(i16_bits(self.n_height)), 0));
        lemma_le32(self.color);
        assert(get_le32(s, 8) == get_le32(le32(self.color), 0));
    }
}

impl OpaqueRectOrder {
    pub const SIZE: usize = 12;
}

impl OpaqueRectOrder {
    pub fn new(x: i16, y: i16, width: i16, height: i16, color: u32) -> (r: Self)
        ensures
            r == (OpaqueRectOrder { n_left_rect: x, n_top_rect: y, n_width: width, n_height: height, color }),
    {
        OpaqueRectOrder { n_left_rect: x, n_top_rect: y, n_width: width, n_height: height, color }
    }
}

/// A drawing order of one of the supported types.
#[derive(Debug, Clone, Copy, PartialEq, Eq)]
pub enum DrawingOrder {
    DstBlt(DstBltOrder),
    PatBlt(PatBltOrder),
    ScrBlt(ScrBltOrder),
    MemBlt(MemBltOrder),
    OpaqueRect(OpaqueRectOrder),
}

impl DrawingOrder {
    pub open spec fn spec_order_type(&self) -> OrderType {
        match self {
            DrawingOrder::DstBlt(_) => OrderType::DstBlt,
            DrawingOrder::PatBlt(_) => OrderType::PatBlt,
            DrawingOrder::ScrBlt(_) => OrderType::ScrBlt,
            DrawingOrder::MemBlt(_) => OrderType::MemBlt,
            DrawingOrder::OpaqueRect(_) => OrderType::OpaqueRect,
        }
    }

    pub open spec fn body_bytes(&self) -> Seq<u8> {
        match self {
            DrawingOrder::DstBlt(o) => o.spec_bytes(),
            DrawingOrder::PatBlt(o) => o.spec_bytes(),
            DrawingOrder::ScrBlt(o) => o.spec_bytes(),
            DrawingOrder::MemBlt(o) => o.spec_bytes(),
            DrawingOrder::OpaqueRect(o) => o.spec_bytes(),
        }
    }

    /// The type byte, then the body.
    pub open spec fn spec_bytes(&self) -> Seq<u8> {
        seq![self.spec_order_type().spec_as_u8()] + self.body_bytes()
    }

    /// What the decoder makes of `s`: known but unsupported types are refused.
    pub open spec fn spec_parse(s: Seq<u8>) -> core::result::Result<(DrawingOrder, int), ErrorKind> {
        if s.len() < 1 {
            Err(ErrorKind::InsufficientData { needed: 1, available: 0 })
        } else {
            let b = s.skip(1);
            match OrderType::spec_from_u8(s[0]) {
                Some(OrderType::DstBlt) => match DstBltOrder::spec_parse(b) {
                    Ok((o, n)) => Ok((DrawingOrder::DstBlt(o), 1 + n)),
                    Err(k) => Err(k),
                },
                Some(OrderType::PatBlt) => match PatBltOrder::spec_parse(b) {
                    Ok((o, n)) => Ok((DrawingOrder::PatBlt(o), 1 + n)),
                    Err(k) => Err(k),
                },
                Some(OrderType::ScrBlt) => match ScrBltOrder::spec_parse(b) {
                    Ok((o, n)) => Ok((DrawingOrder::ScrBlt(o), 1 + n)),
                    Err(k) => Err(k),
                },
                Some(OrderType::MemBlt) => match MemBltOrder::spec_parse(b) {
                    Ok((o, n)) => Ok((DrawingOrder::MemBlt(o), 1 + n)),
                    Err(k) => Err(k),
                },
                Some(OrderType::OpaqueRect) => match OpaqueRectOrder::spec_parse(b) {
                    Ok((o, n)) => Ok((DrawingOrder::OpaqueRect(o), 1 + n)),
                    Err(k) => Err(k),
                },
                _ => Err(ErrorKind::ParseError),
            }
        }
    }

    /// The type of this order.
    pub fn order_type(&self) -> (t: OrderType)
        ensures
            t == self.spec_order_type(),
    {
        match self {
            DrawingOrder::DstBlt(_) => OrderType::DstBlt,
            DrawingOrder::PatBlt(_) => OrderType::PatBlt,
            DrawingOrder::ScrBlt(_) => OrderType::ScrBlt,
            DrawingOrder::MemBlt(_) => OrderType::MemBlt,
            DrawingOrder::OpaqueRect(_) => OrderType::OpaqueRect,
        }
    }

    /// Appends the type byte and the body.
    pub fn encode(&self, buffer: &mut Vec<u8>) -> (r: Result<()>)
        ensures
            r is Ok,
            final(buffer)@ == old(buffer)@ + self.spec_bytes(),
    {
        put_u8(buffer, self.order_type().as_u8());
        match self {
            DrawingOrder::DstBlt(o) => {
                let _ = o.encode(buffer);
            },
            DrawingOrder::PatBlt(o) => {
                let _ = o.encode(buffer);
            },
            DrawingOrder::ScrBlt(o) => {
                let _ = o.encode(buffer);
            },
            DrawingOrder::MemBlt(o) => {
                let _ = o.encode(buffer);
            },
            DrawingOrder::OpaqueRect(o) => {
                let _ = o.encode(buffer);
            },
        }
        assert(final(buffer)@ =~= old(buffer)@ + self.spec_bytes());
        Ok(())
    }

    /// Reads one order.
    pub fn decode(buffer: &mut BerReader) -> (r: Result<Self>)
        ensures
            crate::ber::consumed(*old(buffer), *final(buffer)),
            reads(r, Self::spec_parse(old(buffer).rest()), old(buffer).rest(), final(buffer).rest()),
    {
        if buffer.remaining() < 1 {
            return Err(PduError::InsufficientData { needed: 1, available: 0 });
        }
        let ghost s = buffer.rest();
        let t = buffer.take_u8();
        let order_type = match OrderType::from_u8(t) {
            Some(t) => t,
            None => {
                return Err(PduError::parse("unknown order type"));
            },
        };
        let r = match order_type {
            OrderType::DstBlt => match DstBltOrder::decode(buffer) {
                Ok(o) => Ok(DrawingOrder::DstBlt(o)),
                Err(e) => Err(e),
            },
            OrderType::PatBlt => match PatBltOrder::decode(buffer) {
                Ok(o) => Ok(DrawingOrder::PatBlt(o)),
                Err(e) => Err(e),
            },
            OrderType::ScrBlt => match ScrBltOrder::decode(buffer) {
                Ok(o) => Ok(DrawingOrder::ScrBlt(o)),
                Err(e) => Err(e),
            },
            OrderType::MemBlt => match MemBltOrder::decode(buffer) {
                Ok(o) => Ok(DrawingOrder::MemBlt(o)),
                Err(e) => Err(e),
            },
            OrderType::OpaqueRect => match OpaqueRectOrder::decode(buffer) {
                Ok(o) => Ok(DrawingOrder::OpaqueRect(o)),
                Err(e) => Err(e),
            },
            _ => Err(PduError::parse("unsupported order type")),
        };
        proof {
            if r is Ok {
                let n = Self::spec_parse(s)->Ok_0.1;
                assert(s.skip(1).skip(n - 1) =~= s.skip(n));
            }
        }
        r
    }

    /// One plus the body size.
    pub fn size(&self) -> (n: usize)
        ensures
            n == self.spec_bytes().len(),
    {
        let body: usize = match self {
            DrawingOrder::DstBlt(o) => o.size(),
            DrawingOrder::PatBlt(o) => o.size(),
            DrawingOrder::ScrBlt(o) => o.size(),
            DrawingOrder::MemBlt(o) => o.size(),
            DrawingOrder::OpaqueRect(o) => o.size(),
        };
        1 + body
    }

    /// Every order is read back as written.
    pub proof fn lemma_round_trip(self, tail: Seq<u8>)
        ensures
            Self::spec_parse(self.spec_bytes() + tail) == Ok::<(DrawingOrder, int), ErrorKind>(
                (self, self.spec_bytes().len() as int),
            ),
    {
        match self {
            DrawingOrder::DstBlt(o) => lemma_round_trip_DstBlt(o, tail),
            DrawingOrder::PatBlt(o) => lemma_round_trip_PatBlt(o, tail),
            DrawingOrder::ScrBlt(o) => lemma_round_trip_ScrBlt(o, tail),
            DrawingOrder::MemBlt(o) => lemma_round_trip_MemBlt(o, tail),
            DrawingOrder::OpaqueRect(o) => lemma_round_trip_OpaqueRect(o, tail),
        }
    }
}

proof fn lemma_round_trip_DstBlt(o: DstBltOrder, tail: Seq<u8>)
    ensures
        DrawingOrder::spec_parse(DrawingOrder::DstBlt(o).spec_bytes() + tail) == Ok::<(DrawingOrder, int), ErrorKind>(
            (DrawingOrder::DstBlt(o), DrawingOrder::DstBlt(o).spec_bytes().len() as int),
        ),
{
    let d = DrawingOrder::DstBlt(o);
    let s = d.spec_bytes() + tail;
    assert(s[0] == OrderType::DstBlt.spec_as_u8());
    assert(OrderType::spec_from_u8(s[0]) == Some(OrderType::DstBlt));
    assert(s.skip(1) =~= o.spec_bytes() + tail);
    o.lemma_round_trip(tail);
    assert(DstBltOrder::spec_parse(s.skip(1)) == Ok::<(DstBltOrder, int), ErrorKind>((o, o.spec_bytes().len() as int)));
}

proof fn lemma_round_trip_PatBlt(o: PatBltOrder, tail: Seq<u8>)
    ensures
        DrawingOrder::spec_parse(DrawingOrder::PatBlt(o).spec_bytes() + tail) == Ok::<(DrawingOrder, int), ErrorKind>(
            (DrawingOrder::PatBlt(o), DrawingOrder::PatBlt(o).spec_bytes().len() as int),
        ),
{
    let d = DrawingOrder::PatBlt(o);
    let s = d.spec_bytes() + tail;
    assert(s[0] == OrderType::PatBlt.spec_as_u8());
    assert(OrderType::spec_from_u8(s[0]) == Some(OrderType::PatBlt));
    assert(s.skip(1) =~= o.spec_bytes() + tail);
    o.lemma_round_trip(tail);
    assert(PatBltOrder::spec_parse(s.skip(1)) == Ok::<(PatBltOrder, int), ErrorKind>((o, o.spec_bytes().len() as int)));
}

proof fn lemma_round_trip_ScrBlt(o: ScrBltOrder, tail: Seq<u8>)
    ensures
        DrawingOrder::spec_parse(DrawingOrder::ScrBlt(o).spec_bytes() + tail) == Ok::<(DrawingOrder, int), ErrorKind>(
            (DrawingOrder::ScrBlt(o), DrawingOrder::ScrBlt(o).spec_bytes().len() as int),
        ),
{
    let d = DrawingOrder::ScrBlt(o);
    let s = d.spec_bytes() + tail;
    assert(s[0] == OrderType::ScrBlt.spec_as_u8());
    assert(OrderType::spec_from_u8(s[0]) == Some(OrderType::ScrBlt));
    assert(s.skip(1) =~= o.spec_bytes() + tail);
    o.lemma_round_trip(tail);
    assert(ScrBltOrder::spec_parse(s.skip(1)) == Ok::<(ScrBltOrder, int), ErrorKind>((o, o.spec_bytes().len() as int)));
}

proof fn lemma_round_trip_MemBlt(o: MemBltOrder, tail: Seq<u8>)
    ensures
        DrawingOrder::spec_parse(DrawingOrder::MemBlt(o).spec_bytes() + tail) == Ok::<(DrawingOrder, int), ErrorKind>(
            (DrawingOrder::MemBlt(o), DrawingOrder::MemBlt(o).spec_bytes().len() as int),
        ),
{
    let d = DrawingOrder::MemBlt(o);
    let s = d.spec_bytes() + tail;
    assert(s[0] == OrderType::MemBlt.spec_as_u8());
    assert(OrderType::spec_from_u8(s[0]) == Some(OrderType::MemBlt));
    assert(s.skip(1) =~= o.spec_bytes() + tail);
    o.lemma_round_trip(tail);
    assert(MemBltOrder::spec_parse(s.skip(1)) == Ok::<(MemBltOrder, int), ErrorKind>((o, o.spec_bytes().len() as int)));
}

proof fn lemma_round_trip_OpaqueRect(o: OpaqueRectOrder, tail: Seq<u8>)
    ensures
        DrawingOrder::spec_parse(DrawingOrder::OpaqueRect(o).spec_bytes() + tail) == Ok::<(DrawingOrder, int), ErrorKind>(
            (DrawingOrder::OpaqueRect(o), DrawingOrder::OpaqueRect(o).spec_bytes().len() as int),
        ),
{
    let d = DrawingOrder::OpaqueRect(o);
    let s = d.spec_bytes() + tail;
    assert(s[0] == OrderType::OpaqueRect.spec_as_u8());
    assert(OrderType::spec_from_u8(s[0]) == Some(OrderType::OpaqueRect));
    assert(s.skip(1) =~= o.spec_bytes() + tail);
    o.lemma_round_trip(tail);
    assert(OpaqueRectOrder::spec_parse(s.skip(1)) == Ok::<(OpaqueRectOrder, int), ErrorKind>((o, o.spec_bytes().len() as int)));
}


/// The bytes of drawing orders one after another.
pub open spec fn orders_bytes(xs: Seq<DrawingOrder>) -> Seq<u8>
    decreases xs.len(),
{
    if xs.len() == 0 {
        Seq::empty()
    } else {
        orders_bytes(xs.drop_last()) + xs.last().spec_bytes()
    }
}

/// `k` drawing orders one after another.
pub open spec fn parse_orders(s: Seq<u8>, k: nat) -> core::result::Result<(Seq<DrawingOrder>, int), ErrorKind>
    decreases k,
{
    if k == 0 {
        Ok((Seq::empty(), 0))
    } else {
        match parse_orders(s, (k - 1) as nat) {
            Err(e) => Err(e),
            Ok((xs, m)) => match DrawingOrder::spec_parse(s.skip(m)) {
                Err(e) => Err(e),
                Ok((x, n)) => Ok((xs.push(x), m + n)),
            },
        }
    }
}

/// Once reading drawing orders in a row has failed, reading more fails the same way.
pub proof fn lemma_parse_orders_error_sticks(s: Seq<u8>, j: nat, k: nat)
    requires
        j <= k,
        parse_orders(s, j) is Err,
    ensures
        parse_orders(s, k) == parse_orders(s, j),
    decreases k - j,
{
    if j < k {
        lemma_parse_orders_error_sticks(s, j, (k - 1) as nat);
    }
}

/// Drawing orders written one after another are read back, and the bytes after
/// them stay unread.
pub proof fn lemma_parse_orders_round_trip(xs: Seq<DrawingOrder>, tail: Seq<u8>)
    ensures
        parse_orders(orders_bytes(xs) + tail, xs.len()) == Ok::<(Seq<DrawingOrder>, int), ErrorKind>(
            (xs, orders_bytes(xs).len() as int),
        ),
    decreases xs.len(),
{
    if xs.len() > 0 {
        let init = xs.drop_last();
        let last = xs.last();
        let s = orders_bytes(xs) + tail;
        assert(s =~= orders_bytes(init) + (last.spec_bytes() + tail));
        lemma_parse_orders_round_trip(init, last.spec_bytes() + tail);
        assert(s.skip(orders_bytes(init).len() as int) =~= last.spec_bytes() + tail);
        last.lemma_round_trip(tail);
        assert(init.push(last) =~= xs);
        assert((xs.len() - 1) as nat == init.len());
        assert(orders_bytes(xs).len() == orders_bytes(init).len() + last.spec_bytes().len());
    } else {
        assert(xs =~= Seq::<DrawingOrder>::empty());
    }
}


/// What an [`OrdersUpdate`] holds.
pub struct OrdersUpdateModel {
    pub number_orders: u16,
    pub orders: Seq<DrawingOrder>,
}

/// The Orders update: a pad, a count, then the orders.
#[derive(Debug, Clone, PartialEq, Eq)]
pub struct OrdersUpdate {
    pub number_orders: u16,
    pub orders: Vec<DrawingOrder>,
}

impl View for OrdersUpdate {
    type V = OrdersUpdateModel;

    open spec fn view(&self) -> OrdersUpdateModel {
        OrdersUpdateModel { number_orders: self.number_orders, orders: self.orders@ }
    }
}

impl OrdersUpdateModel {
    pub open spec fn spec_bytes(&self) -> Seq<u8> {
        le16(0) + le16(self.number_orders) + orders_bytes(self.orders)
    }

    /// The count matches the orders.
    pub open spec fn wf(&self) -> bool {
        self.number_orders == self.orders.len()
    }
}

impl OrdersUpdate {
    pub const MIN_SIZE: usize = 4;

    /// The header, then as many orders as the count says.
    pub open spec fn spec_parse(s: Seq<u8>) -> core::result::Result<(OrdersUpdateModel, int), ErrorKind> {
        if s.len() < 4 {
            Err(ErrorKind::InsufficientData { needed: 4, available: s.len() as usize })
        } else {
            match parse_orders(s.skip(4), get_le16(s, 2) as nat) {
                Err(e) => Err(e),
                Ok((xs, m)) => Ok((OrdersUpdateModel { number_orders: get_le16(s, 2), orders: xs }, 4 + m)),
            }
        }
    }

    /// Appends the header and the orders.
    pub fn encode(&self, buffer: &mut Vec<u8>) -> (r: Result<()>)
        ensures
            r is Ok,
            final(buffer)@ == old(buffer)@ + self@.spec_bytes(),
    {
        put_u16_le(buffer, 0);
        put_u16_le(buffer, self.number_orders);
        let ghost start = buffer@;
        let mut i: usize = 0;
        while i < self.orders.len()
            invariant
                i <= self.orders@.len(),
                buffer@ == start + orders_bytes(self.orders@.take(i as int)),
            decreases self.orders@.len() - i,
        {
            let _ = self.orders[i].encode(buffer);
            assert(self.orders@.take(i + 1).drop_last() =~= self.orders@.take(i as int));
            i = i + 1;
        }
        assert(self.orders@.take(i as int) =~= self.orders@);
        assert(final(buffer)@ =~= old(buffer)@ + self@.spec_bytes());
        Ok(())
    }

    /// Reads the header, then as many orders as it counts.
    pub fn decode(buffer: &mut BerReader) -> (r: Result<Self>)
        ensures
            crate::ber::consumed(*old(buffer), *final(buffer)),
            reads_view(r, Self::spec_parse(old(buffer).rest()), old(buffer).rest(), final(buffer).rest()),
    {
        if buffer.remaining() < 4 {
            return Err(PduError::InsufficientData { needed: 4, available: buffer.remaining() });
        }
        let ghost s0 = buffer.rest();
        let _pad = buffer.take_u16_le();
        let number_orders = buffer.take_u16_le();
        assert(buffer.rest() =~= s0.skip(4));
        let ghost s = buffer.rest();
        let mut orders: Vec<DrawingOrder> = Vec::new();
        let mut i: u16 = 0;
        let ghost mut m: int = 0;
        assert(s.skip(0) =~= s);
        while i < number_orders
            invariant
                crate::ber::consumed(*old(buffer), *buffer),
                i <= number_orders,
                s0 == old(buffer).rest(),
                s0.len() >= 4,
                number_orders == get_le16(s0, 2),
                s == s0.skip(4),
                parse_orders(s, i as nat) == Ok::<(Seq<DrawingOrder>, int), ErrorKind>((orders@, m)),
                0 <= m <= s.len(),
                buffer.rest() == s.skip(m),
            decreases number_orders - i,
        {
            let x = match DrawingOrder::decode(buffer) {
                Ok(x) => x,
                Err(e) => {
                    proof {
                        assert(((i + 1) as nat - 1) as nat == i as nat);
                        assert(parse_orders(s, (i + 1) as nat) == Err::<(Seq<DrawingOrder>, int), ErrorKind>(e.spec_kind()));
                        lemma_parse_orders_error_sticks(s, (i + 1) as nat, number_orders as nat);
                    }
                    return Err(e);
                },
            };
            let ghost n = DrawingOrder::spec_parse(s.skip(m))->Ok_0.1;
            proof {
                assert(s.skip(m).skip(n) =~= s.skip(m + n));
                m = m + n;
            }
            orders.push(x);
            i = i + 1;
        }
        assert(s0.skip(4).skip(m) =~= s0.skip(4 + m));
        Ok(OrdersUpdate { number_orders, orders })
    }

    /// The header size plus the size of every item.
    pub fn size(&self) -> (n: usize)
        requires
            self@.orders.len() <= 65535,
        ensures
            n == self@.spec_bytes().len(),
            n <= 4 + 18 * 65535,
    {
        let mut n: usize = 4;
        let mut i: usize = 0;
        while i < self.orders.len()
            invariant
                i <= self.orders@.len() <= 65535,
                n == 4 + orders_bytes(self.orders@.take(i as int)).len(),
                n <= 4 + 18 * i,
            decreases self.orders@.len() - i,
        {
            assert(self.orders@.take(i + 1).drop_last() =~= self.orders@.take(i as int));
            n = n + self.orders[i].size();
            i = i + 1;
        }
        assert(self.orders@.take(i as int) =~= self.orders@);
        n
    }

    /// A value whose count matches its orders is read back as written.
    pub proof fn lemma_round_trip(m: OrdersUpdateModel, tail: Seq<u8>)
        requires
            m.wf(),
        ensures
            Self::spec_parse(m.spec_bytes() + tail) == Ok::<(OrdersUpdateModel, int), ErrorKind>(
                (m, m.spec_bytes().len() as int),
            ),
    {
        let s = m.spec_bytes() + tail;
        lemma_le16(m.number_orders);
        lemma_le16(0);
        assert(get_le16(s, 2) == get_le16(le16(m.number_orders), 0));
        assert(s.skip(4) =~= orders_bytes(m.orders) + tail);
        lemma_parse_orders_round_trip(m.orders, tail);
    }
}

impl OrdersUpdate {
    /// An update carrying `orders`; the count is derived.
    pub fn new(orders: Vec<DrawingOrder>) -> (r: Self)
        requires
            orders@.len() <= 65535,
        ensures
            r@.wf(),
            r@.orders == orders@,
    {
        let number_orders = orders.len() as u16;
        OrdersUpdate { number_orders, orders }
    }

    /// An update carrying one order.
    pub fn single(order: DrawingOrder) -> (r: Self)
        ensures
            r@.wf(),
            r@.orders == seq![order],
    {
        let v = vec![order];
        assert(v@ =~= seq![order]);
        Self::new(v)
    }
}

} // verus!
