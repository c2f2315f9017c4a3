//! Graphics updates: the Update PDU dispatch, bitmap updates and palette updates.
use vstd::prelude::*;
use crate::ber::{reads, reads_view, BerReader};
use crate::bytes::{get_le16, le16, lemma_le16, put_bytes, put_u16_le, put_u8};
use crate::error::{ErrorKind, PduError, Result};
use crate::orders::{OrdersUpdate, OrdersUpdateModel};

verus! {

/// Update types.
#[derive(Debug, Clone, Copy, PartialEq, Eq, Structural)]
pub enum UpdateType {
    Orders,
    Bitmap,
    Palette,
    Synchronize,
}

impl UpdateType {
    pub open spec fn spec_as_u16(self) -> u16 {
        match self {
            UpdateType::Orders => 0x00,
            UpdateType::Bitmap => 0x01,
            UpdateType::Palette => 0x02,
            UpdateType::Synchronize => 0x03,
        }
    }

    pub open spec fn spec_from_u16(value: u16) -> Option<UpdateType> {
        if value == 0x00 {
            Some(UpdateType::Orders)
        } else if value == 0x01 {
            Some(UpdateType::Bitmap)
        } else if value == 0x02 {
            Some(UpdateType::Palette)
        } else if value == 0x03 {
            Some(UpdateType::Synchronize)
        } else {
            None
        }
    }

    pub proof fn lemma_from_as(self)
        ensures
            Self::spec_from_u16(self.spec_as_u16()) == Some(self),
    {
    }

    /// The value on the wire.
    pub fn as_u16(self) -> (r: u16)
        ensures
            r == self.spec_as_u16(),
            Self::spec_from_u16(r) == Some(self),
    {
        match self {
            UpdateType::Orders => 0x00,
            UpdateType::Bitmap => 0x01,
            UpdateType::Palette => 0x02,
            UpdateType::Synchronize => 0x03,
        }
    }

    /// The variant with the given value, if any.
    pub fn from_u16(value: u16) -> (r: Option<UpdateType>)
        ensures
            r == Self::spec_from_u16(value),
            r matches Some(v) ==> v.spec_as_u16() == value,
    {
        match value {
            0x00 => Some(UpdateType::Orders),
            0x01 => Some(UpdateType::Bitmap),
            0x02 => Some(UpdateType::Palette),
            0x03 => Some(UpdateType::Synchronize),
            _ => None,
        }
    }
}

/// Flags of a bitmap rectangle.
#[derive(Debug, Clone, Copy, PartialEq, Eq)]
pub struct BitmapFlags(pub u16);

impl BitmapFlags {
    /// The data is compressed.
    pub const COMPRESSED: u16 = 0x0001;
    /// No compression header precedes the data.
    pub const NO_BITMAP_COMPRESSION_HDR: u16 = 0x0400;

    /// Flags with the given bits.
    pub fn new(value: u16) -> (r: Self)
        ensures
            r.0 == value,
    {
        BitmapFlags(value)
    }

    /// No flags.
    pub fn uncompressed() -> (r: Self)
        ensures
            r.0 == 0x0000,
    {
        BitmapFlags(0)
    }

    /// Compressed.
    pub fn compressed() -> (r: Self)
        ensures
            r.0 == 0x0001,
    {
        BitmapFlags(Self::COMPRESSED)
    }

    /// Compressed, without a compression header.
    pub fn compressed_no_header() -> (r: Self)
        ensures
            r.0 == 0x0401,
    {
        let v = Self::COMPRESSED | Self::NO_BITMAP_COMPRESSION_HDR;
        assert(0x0001u16 | 0x0400u16 == 0x0401u16) by (bit_vector);
        BitmapFlags(v)
    }

    /// Whether the data is compressed.
    pub fn is_compressed(&self) -> (r: bool)
        ensures
            r == (self.0 & 0x0001 != 0),
    {
        self.0 & Self::COMPRESSED != 0
    }

    /// Whether the compression header is left out.
    pub fn no_compression_header(&self) -> (r: bool)
        ensures
            r == (self.0 & 0x0400 != 0),
    {
        self.0 & Self::NO_BITMAP_COMPRESSION_HDR != 0
    }

    /// The bits.
    pub fn as_u16(self) -> (r: u16)
        ensures
            r == self.0,
    {
        self.0
    }
}

/// One palette colour.
#[derive(Debug, Clone, Copy, PartialEq, Eq)]
pub struct PaletteEntry {
    pub red: u8,
    pub green: u8,
    pub blue: u8,
}

impl PaletteEntry {
    pub open spec fn spec_bytes(&self) -> Seq<u8> {
        seq![self.red]
            + seq![self.green]
            + seq![self.blue]
    }

    /// What the decoder makes of `s`.
    pub open spec fn spec_parse(s: Seq<u8>) -> core::result::Result<(PaletteEntry, int), ErrorKind> {
        if s.len() < 3 {
            Err(ErrorKind::InsufficientData { needed: 3, available: s.len() as usize })
        } else {
            Ok((PaletteEntry {
                red: s[0],
                green: s[1],
                blue: s[2],
            }, 3))
        }
    }

    /// Appends the 3 bytes.
    pub fn encode(&self, buffer: &mut Vec<u8>) -> (r: Result<()>)
        ensures
            r is Ok,
            final(buffer)@ == old(buffer)@ + self.spec_bytes(),
    {
        put_u8(buffer, self.red);
        put_u8(buffer, self.green);
        put_u8(buffer, self.blue);
        assert(final(buffer)@ =~= old(buffer)@ + self.spec_bytes());
        Ok(())
    }

    /// Reads the 3 bytes.
    pub fn decode(buffer: &mut BerReader) -> (r: Result<Self>)
        ensures
            crate::ber::consumed(*old(buffer), *final(buffer)),
            reads(r, Self::spec_parse(old(buffer).rest()), old(buffer).rest(), final(buffer).rest()),
    {
        if buffer.remaining() < 3 {
            return Err(PduError::InsufficientData { needed: 3, available: buffer.remaining() });
        }
        let ghost s = buffer.rest();
        let red_raw = buffer.take_u8();
        assert(buffer.rest() =~= s.skip(1));
        let green_raw = buffer.take_u8();
        assert(buffer.rest() =~= s.skip(2));
        let blue_raw = buffer.take_u8();
        assert(buffer.rest() =~= s.skip(3));
        Ok(PaletteEntry {
            red: red_raw,
            green: green_raw,
            blue: blue_raw,
        })
    }

    /// Always 3.
    pub fn size(&self) -> (n: usize)
        ensures
            n == self.spec_bytes().len(),
    {
        3
    }

    /// Every value is read back as written; the bytes after it stay unread.
    pub proof fn lemma_round_trip(self, tail: Seq<u8>)
        ensures
            Self::spec_parse(self.spec_bytes() + tail) == Ok::<(PaletteEntry, int), ErrorKind>((self, 3)),
    {
        let s = self.spec_bytes() + tail;
        assert(s[0] == self.red);
        assert(s[1] == self.green);
        assert(s[2] == self.blue);
    }
}

impl PaletteEntry {
    pub const SIZE: usize = 3;

    pub fn new(red: u8, green: u8, blue: u8) -> (r: Self)
        ensures
            r == (PaletteEntry { red, green, blue }),
    {
        PaletteEntry { red, green, blue }
    }
}

/// The bytes of palette entries one after another.
pub open spec fn entries_bytes(xs: Seq<PaletteEntry>) -> Seq<u8>
    decreases xs.len(),
{
    if xs.len() == 0 {
        Seq::empty()
    } else {
        entries_bytes(xs.drop_last()) + xs.last().spec_bytes()
    }
}

/// `k` palette entries one after another.
pub open spec fn parse_entries(s: Seq<u8>, k: nat) -> core::result::Result<(Seq<PaletteEntry>, int), ErrorKind>
    decreases k,
{
    if k == 0 {
        Ok((Seq::empty(), 0))
    } else {
        match parse_entries(s, (k - 1) as nat) {
            Err(e) => Err(e),
            Ok((xs, m)) => match PaletteEntry::spec_parse(s.skip(m)) {
                Err(e) => Err(e),
                Ok((x, n)) => Ok((xs.push(x), m + n)),
            },
        }
    }
}

/// Once reading palette entries in a row has failed, reading more fails the same way.
pub proof fn lemma_parse_entries_error_sticks(s: Seq<u8>, j: nat, k: nat)
    requires
        j <= k,
        parse_entries(s, j) is Err,
    ensures
        parse_entries(s, k) == parse_entries(s, j),
    decreases k - j,
{
    if j < k {
        lemma_parse_entries_error_sticks(s, j, (k - 1) as nat);
    }
}

/// Palette entries written one after another are read back, and the bytes after
/// them stay unread.
pub proof fn lemma_parse_entries_round_trip(xs: Seq<PaletteEntry>, tail: Seq<u8>)
    ensures
        parse_entries(entries_bytes(xs) + tail, xs.len()) == Ok::<(Seq<PaletteEntry>, int), ErrorKind>(
            (xs, entries_bytes(xs).len() as int),
        ),
    decreases xs.len(),
{
    if xs.len() > 0 {
        let init = xs.drop_last();
        let last = xs.last();
        let s = entries_bytes(xs) + tail;
        assert(s =~= entries_bytes(init) + (last.spec_bytes() + tail));
        lemma_parse_entries_round_trip(init, last.spec_bytes() + tail);
        assert(s.skip(entries_bytes(init).len() as int) =~= last.spec_bytes() + tail);
        last.lemma_round_trip(tail);
        assert(init.push(last) =~= xs);
        assert((xs.len() - 1) as nat == init.len());
        assert(entries_bytes(xs).len() == entries_bytes(init).len() + last.spec_bytes().len());
    } else {
        assert(xs =~= Seq::<PaletteEntry>::empty());
    }
}


/// What a [`PaletteUpdate`] holds.
pub struct PaletteUpdateModel {
    pub entries: Seq<PaletteEntry>,
}

/// The Palette update: a pad, a colour count, then the colours.
#[derive(Debug, Clone, PartialEq, Eq)]
pub struct PaletteUpdate {
    pub entries: Vec<PaletteEntry>,
}

impl View for PaletteUpdate {
    type V = PaletteUpdateModel;

    open spec fn view(&self) -> PaletteUpdateModel {
        PaletteUpdateModel { entries: self.entries@ }
    }
}

impl PaletteUpdateModel {
    pub open spec fn spec_bytes(&self) -> Seq<u8> {
        le16(0) + le16(self.entries.len() as u16) + entries_bytes(self.entries)
    }
}

impl PaletteUpdate {
    pub const MAX_ENTRIES: usize = 256;
    pub const MIN_SIZE: usize = 4;

    /// Pad and count, then as many colours as the count says.
    pub open spec fn spec_parse(s: Seq<u8>) -> core::result::Result<(PaletteUpdateModel, int), ErrorKind> {
        if s.len() < 4 {
            Err(ErrorKind::InsufficientData { needed: 4, available: s.len() as usize })
        } else {
            match parse_entries(s.skip(4), get_le16(s, 2) as nat) {
                Err(e) => Err(e),
                Ok((xs, m)) => Ok((PaletteUpdateModel { entries: xs }, 4 + m)),
            }
        }
    }

    pub fn new(entries: Vec<PaletteEntry>) -> (r: Self)
        ensures
            r@.entries == entries@,
    {
        PaletteUpdate { entries }
    }

    /// Appends pad, count and colours.
    pub fn encode(&self, buffer: &mut Vec<u8>) -> (r: Result<()>)
        requires
            self.entries@.len() <= 65535,
        ensures
            r is Ok,
            final(buffer)@ == old(buffer)@ + self@.spec_bytes(),
    {
        put_u16_le(buffer, 0);
        put_u16_le(buffer, self.entries.len() as u16);
        let ghost start = buffer@;
        let mut i: usize = 0;
        while i < self.entries.len()
            invariant
                i <= self.entries@.len(),
                buffer@ == start + entries_bytes(self.entries@.take(i as int)),
            decreases self.entries@.len() - i,
        {
            let _ = self.entries[i].encode(buffer);
            assert(self.entries@.take(i + 1).drop_last() =~= self.entries@.take(i as int));
            i = i + 1;
        }
        assert(self.entries@.take(i as int) =~= self.entries@);
        assert(final(buffer)@ =~= old(buffer)@ + self@.spec_bytes());
        Ok(())
    }

    /// Reads pad and count, then that many colours.
    pub fn decode(buffer: &mut BerReader) -> (r: Result<Self>)
        ensures
            crate::ber::consumed(*old(buffer), *final(buffer)),
            reads_view(r, Self::spec_parse(old(buffer).rest()), old(buffer).rest(), final(buffer).rest()),
    {
        if buffer.remaining() < 4 {
            return Err(PduError::InsufficientData { needed: 4, available: buffer.remaining() });
        }
        let ghost s0 = buffer.rest();
        let _pad = buffer.take_u16_le();
        let number_colors = buffer.take_u16_le();
        assert(buffer.rest() =~= s0.skip(4));
        let ghost s = buffer.rest();
        let mut entries: Vec<PaletteEntry> = Vec::new();
        let mut i: u16 = 0;
        let ghost mut m: int = 0;
        assert(s.skip(0) =~= s);
        while i < number_colors
            invariant
                crate::ber::consumed(*old(buffer), *buffer),
                i <= number_colors,
                s0 == old(buffer).rest(),
                s0.len() >= 4,
                number_colors == get_le16(s0, 2),
                s == s0.skip(4),
                parse_entries(s, i as nat) == Ok::<(Seq<PaletteEntry>, int), ErrorKind>((entries@, m)),
                0 <= m <= s.len(),
                buffer.rest() == s.skip(m),
            decreases number_colors - i,
        {
            let x = match PaletteEntry::decode(buffer) {
                Ok(x) => x,
                Err(e) => {
                    proof {
                        assert(((i + 1) as nat - 1) as nat == i as nat);
                        assert(parse_entries(s, (i + 1) as nat) == Err::<(Seq<PaletteEntry>, int), ErrorKind>(e.spec_kind()));
                        lemma_parse_entries_error_sticks(s, (i + 1) as nat, number_colors as nat);
                    }
                    return Err(e);
                },
            };
            let ghost n = PaletteEntry::spec_parse(s.skip(m))->Ok_0.1;
            proof {
                assert(s.skip(m).skip(n) =~= s.skip(m + n));
                m = m + n;
            }
            entries.push(x);
            i = i + 1;
        }
        assert(s0.skip(4).skip(m) =~= s0.skip(4 + m));
        Ok(PaletteUpdate { entries })
    }

    /// Four plus three bytes per colour.
    pub fn size(&self) -> (n: usize)
        requires
            self.entries@.len() <= 65535,
        ensures
            n == self@.spec_bytes().len(),
            n <= 4 + 3 * 65535,
    {
        proof {
            lemma_entries_len(self.entries@);
        }
        Self::MIN_SIZE + self.entries.len() * PaletteEntry::SIZE
    }

    /// Up to 65535 colours are read back as written.
    pub proof fn lemma_round_trip(m: PaletteUpdateModel, tail: Seq<u8>)
        requires
            m.entries.len() <= 65535,
        ensures
            Self::spec_parse(m.spec_bytes() + tail) == Ok::<(PaletteUpdateModel, int), ErrorKind>(
                (m, m.spec_bytes().len() as int),
            ),
    {
        let s = m.spec_bytes() + tail;
        lemma_le16(m.entries.len() as u16);
        lemma_le16(0);
        assert(get_le16(s, 2) == get_le16(le16(m.entries.len() as u16), 0));
        assert(s.skip(4) =~= entries_bytes(m.entries) + tail);
        lemma_parse_entries_round_trip(m.entries, tail);
    }
}

/// Colours take three bytes each.
pub proof fn lemma_entries_len(xs: Seq<PaletteEntry>)
    ensures
        entries_bytes(xs).len() == 3 * xs.len(),
    decreases xs.len(),
{
    if xs.len() > 0 {
        lemma_entries_len(xs.drop_last());
    }
}

/// What a [`BitmapData`] holds.
pub struct BitmapDataModel {
    pub dest_left: u16,
    pub dest_top: u16,
    pub dest_right: u16,
    pub dest_bottom: u16,
    pub width: u16,
    pub height: u16,
    pub bits_per_pixel: u16,
    pub flags: BitmapFlags,
    pub bitmap_length: u16,
    pub bitmap_data: Seq<u8>,
}

/// One bitmap rectangle: destination, size, depth, flags, and its data.
#[derive(Debug, Clone, PartialEq, Eq)]
pub struct BitmapData {
    pub dest_left: u16,
    pub dest_top: u16,
    pub dest_right: u16,
    pub dest_bottom: u16,
    pub width: u16,
    pub height: u16,
    pub bits_per_pixel: u16,
    pub flags: BitmapFlags,
    pub bitmap_length: u16,
    pub bitmap_data: Vec<u8>,
}

impl View for BitmapData {
    type V = BitmapDataModel;

    open spec fn view(&self) -> BitmapDataModel {
        BitmapDataModel {
            dest_left: self.dest_left,
            dest_top: self.dest_top,
            dest_right: self.dest_right,
            dest_bottom: self.dest_bottom,
            width: self.width,
            height: self.height,
            bits_per_pixel: self.bits_per_pixel,
            flags: self.flags,
            bitmap_length: self.bitmap_length,
            bitmap_data: self.bitmap_data@,
        }
    }
}

impl BitmapDataModel {
    /// The 18-byte header, then the data.
    pub open spec fn spec_bytes(&self) -> Seq<u8> {
        le16(self.dest_left) + le16(self.dest_top) + le16(self.dest_right) + le16(self.dest_bottom) + le16(self.width) + le16(self.height) + le16(self.bits_per_pixel) + le16(self.flags.0) + le16(self.bitmap_length) + self.bitmap_data
    }

    /// The length field counts the data.
    pub open spec fn wf(&self) -> bool {
        self.bitmap_length == self.bitmap_data.len()
    }

    /// Every rectangle whose length field counts its data is read back as written.
    pub proof fn lemma_round_trip(self, tail: Seq<u8>)
        requires
            self.wf(),
        ensures
            BitmapData::spec_parse(self.spec_bytes() + tail) == Ok::<(BitmapDataModel, int), ErrorKind>(
                (self, self.spec_bytes().len() as int),
            ),
    {
        let s = self.spec_bytes() + tail;
        lemma_le16(self.dest_left);
        assert(get_le16(s, 0) == get_le16(le16(self.dest_left), 0));
        lemma_le16(self.dest_top);
        assert(get_le16(s, 2) == get_le16(le16(self.dest_top), 0));
        lemma_le16(self.dest_right);
        assert(get_le16(s, 4) == get_le16(le16(self.dest_right), 0));
        lemma_le16(self.dest_bottom);
        assert(get_le16(s, 6) == get_le16(le16(self.dest_bottom), 0));
        lemma_le16(self.width);
        assert(get_le16(s, 8) == get_le16(le16(self.width), 0));
        lemma_le16(self.height);
        assert(get_le16(s, 10) == get_le16(le16(self.height), 0));
        lemma_le16(self.bits_per_pixel);
        assert(get_le16(s, 12) == get_le16(le16(self.bits_per_pixel), 0));
        lemma_le16(self.flags.0);
        assert(get_le16(s, 14) == get_le16(le16(self.flags.0), 0));
        lemma_le16(self.bitmap_length);
        assert(get_le16(s, 16) == get_le16(le16(self.bitmap_length), 0));
        assert(s.subrange(18, 18 + self.bitmap_length) =~= self.bitmap_data);
        assert(BitmapData::spec_parse(s)->Ok_0.0 =~= self);
    }
}

impl BitmapData {
    pub const HEADER_SIZE: usize = 18;

    /// The header, then as many data bytes as its length field says.
    pub open spec fn spec_parse(s: Seq<u8>) -> core::result::Result<(BitmapDataModel, int), ErrorKind> {
        if s.len() < 18 {
            Err(ErrorKind::InsufficientData { needed: 18, available: s.len() as usize })
        } else if s.len() - 18 < get_le16(s, 16) {
            Err(ErrorKind::InsufficientData {
                needed: get_le16(s, 16) as usize,
                available: (s.len() - 18) as usize,
            })
        } else {
            Ok((
                BitmapDataModel {
                    dest_left: get_le16(s, 0),
                    dest_top: get_le16(s, 2),
                    dest_right: get_le16(s, 4),
                    dest_bottom: get_le16(s, 6),
                    width: get_le16(s, 8),
                    height: get_le16(s, 10),
                    bits_per_pixel: get_le16(s, 12),
                    flags: BitmapFlags(get_le16(s, 14)),
                    bitmap_length: get_le16(s, 16),
                    bitmap_data: s.subrange(18, 18 + get_le16(s, 16)),
                },
                18 + get_le16(s, 16),
            ))
        }
    }

    /// A rectangle; the length field is derived from the data.
    pub fn new(
        dest_left: u16,
        dest_top: u16,
        dest_right: u16,
        dest_bottom: u16,
        width: u16,
        height: u16,
        bits_per_pixel: u16,
        flags: BitmapFlags,
        bitmap_data: Vec<u8>,
    ) -> (r: Self)
        requires
            bitmap_data@.len() <= 65535,
        ensures
            r@ == (BitmapDataModel {
                dest_left,
                dest_top,
                dest_right,
                dest_bottom,
                width,
                height,
                bits_per_pixel,
                flags,
                bitmap_length: bitmap_data@.len() as u16,
                bitmap_data: bitmap_data@,
            }),
            r@.wf(),
    {
        let bitmap_length = bitmap_data.len() as u16;
        BitmapData {
            dest_left,
            dest_top,
            dest_right,
            dest_bottom,
            width,
            height,
            bits_per_pixel,
            flags,
            bitmap_length,
            bitmap_data,
        }
    }

    /// An uncompressed rectangle at (x, y) of the given size: the right and
    /// bottom edges are inclusive.
    pub fn uncompressed(x: u16, y: u16, width: u16, height: u16, bits_per_pixel: u16, bitmap_data: Vec<u8>) -> (r: Self)
        requires
            1 <= x + width <= 65536,
            1 <= y + height <= 65536,
            bitmap_data@.len() <= 65535,
        ensures
            r@ == (BitmapDataModel {
                dest_left: x,
                dest_top: y,
                dest_right: (x + width - 1) as u16,
                dest_bottom: (y + height - 1) as u16,
                width,
                height,
                bits_per_pixel,
                flags: BitmapFlags(0),
                bitmap_length: bitmap_data@.len() as u16,
                bitmap_data: bitmap_data@,
            }),
            r@.wf(),
    {
        let right = (x as u32 + width as u32 - 1) as u16;
        let bottom = (y as u32 + height as u32 - 1) as u16;
        Self::new(x, y, right, bottom, width, height, bits_per_pixel, BitmapFlags::uncompressed(), bitmap_data)
    }

    /// Appends the header and the data.
    pub fn encode(&self, buffer: &mut Vec<u8>) -> (r: Result<()>)
        ensures
            r is Ok,
            final(buffer)@ == old(buffer)@ + self@.spec_bytes(),
    {
        put_u16_le(buffer, self.dest_left);
        put_u16_le(buffer, self.dest_top);
        put_u16_le(buffer, self.dest_right);
        put_u16_le(buffer, self.dest_bottom);
        put_u16_le(buffer, self.width);
        put_u16_le(buffer, self.height);
        put_u16_le(buffer, self.bits_per_pixel);
        put_u16_le(buffer, self.flags.0);
        put_u16_le(buffer, self.bitmap_length);
        put_bytes(buffer, self.bitmap_data.as_slice());
        assert(final(buffer)@ =~= old(buffer)@ + self@.spec_bytes());
        Ok(())
    }

    /// Reads the header, then the data it announces.
    pub fn decode(buffer: &mut BerReader) -> (r: Result<Self>)
        ensures
            crate::ber::consumed(*old(buffer), *final(buffer)),
            reads_view(r, Self::spec_parse(old(buffer).rest()), old(buffer).rest(), final(buffer).rest()),
    {
        if buffer.remaining() < 18 {
            return Err(PduError::InsufficientData { needed: 18, available: buffer.remaining() });
        }
        let ghost s = buffer.rest();
        let dest_left = buffer.take_u16_le();
        assert(buffer.rest() =~= s.skip(2));
        let dest_top = buffer.take_u16_le();
        assert(buffer.rest() =~= s.skip(4));
        let dest_right = buffer.take_u16_le();
        assert(buffer.rest() =~= s.skip(6));
        let dest_bottom = buffer.take_u16_le();
        assert(buffer.rest() =~= s.skip(8));
        let width = buffer.take_u16_le();
        assert(buffer.rest() =~= s.skip(10));
        let height = buffer.take_u16_le();
        assert(buffer.rest() =~= s.skip(12));
        let bits_per_pixel = buffer.take_u16_le();
        assert(buffer.rest() =~= s.skip(14));
        let flags = buffer.take_u16_le();
        assert(buffer.rest() =~= s.skip(16));
        let bitmap_length = buffer.take_u16_le();
        assert(buffer.rest() =~= s.skip(18));
        let bitmap_data = buffer.read_bytes(bitmap_length as usize)?;
        assert(bitmap_data@ =~= s.subrange(18, 18 + bitmap_length));
        assert(buffer.rest() =~= s.skip(18 + bitmap_length));
        let r = BitmapData {
            dest_left,
            dest_top,
            dest_right,
            dest_bottom,
            width,
            height,
            bits_per_pixel,
            flags: BitmapFlags(flags),
            bitmap_length,
            bitmap_data,
        };
        assert(r@ =~= Self::spec_parse(s)->Ok_0.0);
        Ok(r)
    }

    /// Header plus data length.
    pub fn size(&self) -> (n: usize)
        requires
            self@.bitmap_data.len() <= usize::MAX - 18,
        ensures
            n == self@.spec_bytes().len(),
    {
        Self::HEADER_SIZE + self.bitmap_data.len()
    }
}

/// The bytes of bitmap rectangles one after another.
pub open spec fn bitmaps_bytes(xs: Seq<BitmapDataModel>) -> Seq<u8>
    decreases xs.len(),
{
    if xs.len() == 0 {
        Seq::empty()
    } else {
        bitmaps_bytes(xs.drop_last()) + xs.last().spec_bytes()
    }
}

/// `k` bitmap rectangles one after another.
pub open spec fn parse_bitmaps(s: Seq<u8>, k: nat) -> core::result::Result<(Seq<BitmapDataModel>, int), ErrorKind>
    decreases k,
{
    if k == 0 {
        Ok((Seq::empty(), 0))
    } else {
        match parse_bitmaps(s, (k - 1) as nat) {
            Err(e) => Err(e),
            Ok((xs, m)) => match BitmapData::spec_parse(s.skip(m)) {
                Err(e) => Err(e),
                Ok((x, n)) => Ok((xs.push(x), m + n)),
            },
        }
    }
}

/// Once reading bitmap rectangles in a row has failed, reading more fails the same way.
pub proof fn lemma_parse_bitmaps_error_sticks(s: Seq<u8>, j: nat, k: nat)
    requires
        j <= k,
        parse_bitmaps(s, j) is Err,
    ensures
        parse_bitmaps(s, k) == parse_bitmaps(s, j),
    decreases k - j,
{
    if j < k {
        lemma_parse_bitmaps_error_sticks(s, j, (k - 1) as nat);
    }
}

/// Bitmap rectangles written one after another are read back, and the bytes after
/// them stay unread.
pub proof fn lemma_parse_bitmaps_round_trip(xs: Seq<BitmapDataModel>, tail: Seq<u8>)
    requires
        forall|i: int| 0 <= i < xs.len() ==> (#[trigger] xs[i]).wf(),
    ensures
        parse_bitmaps(bitmaps_bytes(xs) + tail, xs.len()) == Ok::<(Seq<BitmapDataModel>, int), ErrorKind>(
            (xs, bitmaps_bytes(xs).len() as int),
        ),
    decreases xs.len(),
{
    if xs.len() > 0 {
        let init = xs.drop_last();
        let last = xs.last();
        let s = bitmaps_bytes(xs) + tail;
        assert(s =~= bitmaps_bytes(init) + (last.spec_bytes() + tail));
        assert forall|i: int| 0 <= i < init.len() implies (#[trigger] init[i]).wf() by {
            assert(init[i] == xs[i]);
        }
        lemma_parse_bitmaps_round_trip(init, last.spec_bytes() + tail);
        assert(xs[xs.len() - 1].wf());
        assert(s.skip(bitmaps_bytes(init).len() as int) =~= last.spec_bytes() + tail);
        last.lemma_round_trip(tail);
        assert(init.push(last) =~= xs);
        assert((xs.len() - 1) as nat == init.len());
        assert(bitmaps_bytes(xs).len() == bitmaps_bytes(init).len() + last.spec_bytes().len());
    } else {
        assert(xs =~= Seq::<BitmapDataModel>::empty());
    }
}

/// The rectangles of a prefix take no more bytes than all of them.
pub proof fn lemma_bitmaps_prefix(xs: Seq<BitmapDataModel>, i: int)
    requires
        0 <= i <= xs.len(),
    ensures
        bitmaps_bytes(xs.take(i)).len() <= bitmaps_bytes(xs).len(),
    decreases xs.len(),
{
    if i < xs.len() {
        lemma_bitmaps_prefix(xs.drop_last(), i);
        assert(xs.drop_last().take(i) =~= xs.take(i));
    } else {
        assert(xs.take(i) =~= xs);
    }
}

/// The views of a list of rectangles.
pub open spec fn bitmap_views(v: Seq<BitmapData>) -> Seq<BitmapDataModel> {
    v.map_values(|b: BitmapData| b@)
}

/// What a [`BitmapUpdate`] holds.
pub struct BitmapUpdateModel {
    pub number_rectangles: u16,
    pub rectangles: Seq<BitmapDataModel>,
}

/// The Bitmap update: a count, then the rectangles.
#[derive(Debug, Clone, PartialEq, Eq)]
pub struct BitmapUpdate {
    pub number_rectangles: u16,
    pub rectangles: Vec<BitmapData>,
}

impl View for BitmapUpdate {
    type V = BitmapUpdateModel;

    open spec fn view(&self) -> BitmapUpdateModel {
        BitmapUpdateModel { number_rectangles: self.number_rectangles, rectangles: bitmap_views(self.rectangles@) }
    }
}

impl BitmapUpdateModel {
    pub open spec fn spec_bytes(&self) -> Seq<u8> {
        le16(self.number_rectangles) + bitmaps_bytes(self.rectangles)
    }

    /// The count matches the rectangles, and every rectangle's length field its data.
    pub open spec fn wf(&self) -> bool {
        &&& self.number_rectangles == self.rectangles.len()
        &&& forall|i: int| 0 <= i < self.rectangles.len() ==> (#[trigger] self.rectangles[i]).wf()
    }
}

impl BitmapUpdate {
    pub const MIN_SIZE: usize = 2;

    /// The count, then as many rectangles as it says.
    pub open spec fn spec_parse(s: Seq<u8>) -> core::result::Result<(BitmapUpdateModel, int), ErrorKind> {
        if s.len() < 2 {
            Err(ErrorKind::InsufficientData { needed: 2, available: s.len() as usize })
        } else {
            match parse_bitmaps(s.skip(2), get_le16(s, 0) as nat) {
                Err(e) => Err(e),
                Ok((xs, m)) => Ok((BitmapUpdateModel { number_rectangles: get_le16(s, 0), rectangles: xs }, 2 + m)),
            }
        }
    }

    /// An update carrying `rectangles`; the count is derived.
    pub fn new(rectangles: Vec<BitmapData>) -> (r: Self)
        requires
            rectangles@.len() <= 65535,
        ensures
            r@.number_rectangles == rectangles@.len(),
            r@.rectangles == bitmap_views(rectangles@),
    {
        let number_rectangles = rectangles.len() as u16;
        BitmapUpdate { number_rectangles, rectangles }
    }

    /// An update carrying one rectangle.
    pub fn single(bitmap: BitmapData) -> (r: Self)
        ensures
            r@.number_rectangles == 1,
            r@.rectangles == seq![bitmap@],
    {
        let ghost b = bitmap@;
        let v = vec![bitmap];
        let r = Self::new(v);
        assert(r@.rectangles =~= seq![b]);
        r
    }

    /// Appends the count and the rectangles.
    pub fn encode(&self, buffer: &mut Vec<u8>) -> (r: Result<()>)
        ensures
            r is Ok,
            final(buffer)@ == old(buffer)@ + self@.spec_bytes(),
    {
        put_u16_le(buffer, self.number_rectangles);
        let ghost start = buffer@;
        let mut i: usize = 0;
        while i < self.rectangles.len()
            invariant
                i <= self.rectangles@.len(),
                buffer@ == start + bitmaps_bytes(bitmap_views(self.rectangles@.take(i as int))),
            decreases self.rectangles@.len() - i,
        {
            let _ = self.rectangles[i].encode(buffer);
            assert(bitmap_views(self.rectangles@.take(i + 1)).drop_last() =~= bitmap_views(self.rectangles@.take(i as int)));
            assert(bitmap_views(self.rectangles@.take(i + 1)).last() == self.rectangles@[i as int]@);
            i = i + 1;
        }
        assert(self.rectangles@.take(i as int) =~= self.rectangles@);
        assert(final(buffer)@ =~= old(buffer)@ + self@.spec_bytes());
        Ok(())
    }

    /// Reads the count, then that many rectangles.
    pub fn decode(buffer: &mut BerReader) -> (r: Result<Self>)
        ensures
            crate::ber::consumed(*old(buffer), *final(buffer)),
            reads_view(r, Self::spec_parse(old(buffer).rest()), old(buffer).rest(), final(buffer).rest()),
    {
        if buffer.remaining() < 2 {
            return Err(PduError::InsufficientData { needed: 2, available: buffer.remaining() });
        }
        let ghost s0 = buffer.rest();
        let number_rectangles = buffer.take_u16_le();
        assert(buffer.rest() =~= s0.skip(2));
        let ghost s = buffer.rest();
        let mut rectangles: Vec<BitmapData> = Vec::new();
        let mut i: u16 = 0;
        let ghost mut m: int = 0;
        assert(s.skip(0) =~= s);
        assert(bitmap_views(rectangles@) =~= Seq::<BitmapDataModel>::empty());
        while i < number_rectangles
            invariant
                crate::ber::consumed(*old(buffer), *buffer),
                i <= number_rectangles,
                s0 == old(buffer).rest(),
                s0.len() >= 2,
                number_rectangles == get_le16(s0, 0),
                s == s0.skip(2),
                parse_bitmaps(s, i as nat) == Ok::<(Seq<BitmapDataModel>, int), ErrorKind>((bitmap_views(rectangles@), m)),
                0 <= m <= s.len(),
                buffer.rest() == s.skip(m),
            decreases number_rectangles - i,
        {
            let x = match BitmapData::decode(buffer) {
                Ok(x) => x,
                Err(e) => {
                    proof {
                        assert(((i + 1) as nat - 1) as nat == i as nat);
                        assert(parse_bitmaps(s, (i + 1) as nat) == Err::<(Seq<BitmapDataModel>, int), ErrorKind>(e.spec_kind()));
                        lemma_parse_bitmaps_error_sticks(s, (i + 1) as nat, number_rectangles as nat);
                    }
                    return Err(e);
                },
            };
            let ghost n = BitmapData::spec_parse(s.skip(m))->Ok_0.1;
            let ghost old_views = bitmap_views(rectangles@);
            proof {
                assert(s.skip(m).skip(n) =~= s.skip(m + n));
                m = m + n;
            }
            rectangles.push(x);
            assert(bitmap_views(rectangles@) =~= old_views.push(rectangles@.last()@));
            i = i + 1;
        }
        assert(s0.skip(2).skip(m) =~= s0.skip(2 + m));
        Ok(BitmapUpdate { number_rectangles, rectangles })
    }

    /// Two plus the size of every rectangle.
    pub fn size(&self) -> (n: usize)
        requires
            self@.spec_bytes().len() <= usize::MAX,
        ensures
            n == self@.spec_bytes().len(),
    {
        let mut n: usize = Self::MIN_SIZE;
        let mut i: usize = 0;
        while i < self.rectangles.len()
            invariant
                i <= self.rectangles@.len(),
                n == 2 + bitmaps_bytes(bitmap_views(self.rectangles@.take(i as int))).len(),
                self@.spec_bytes().len() <= usize::MAX,
            decreases self.rectangles@.len() - i,
        {
            assert(bitmap_views(self.rectangles@.take(i + 1)).drop_last() =~= bitmap_views(self.rectangles@.take(i as int)));
            assert(bitmap_views(self.rectangles@.take(i + 1)).last() == self.rectangles@[i as int]@);
            assert(self@.rectangles[i as int] == self.rectangles@[i as int]@);
            proof {
                lemma_bitmaps_prefix(self@.rectangles, i + 1);
                assert(bitmap_views(self.rectangles@.take(i + 1)) =~= self@.rectangles.take(i + 1));
                assert(bitmaps_bytes(self@.rectangles.take(i + 1)).len() == bitmaps_bytes(
                    self@.rectangles.take(i + 1).drop_last(),
                ).len() + self.rectangles@[i as int]@.spec_bytes().len());
            }
            n = n + self.rectangles[i].size();
            i = i + 1;
        }
        assert(self.rectangles@.take(i as int) =~= self.rectangles@);
        n
    }

    /// A well-formed update is read back as written.
    pub proof fn lemma_round_trip(m: BitmapUpdateModel, tail: Seq<u8>)
        requires
            m.wf(),
        ensures
            Self::spec_parse(m.spec_bytes() + tail) == Ok::<(BitmapUpdateModel, int), ErrorKind>(
                (m, m.spec_bytes().len() as int),
            ),
    {
        let s = m.spec_bytes() + tail;
        lemma_le16(m.number_rectangles);
        assert(get_le16(s, 0) == get_le16(le16(m.number_rectangles), 0));
        assert(s.skip(2) =~= bitmaps_bytes(m.rectangles) + tail);
        lemma_parse_bitmaps_round_trip(m.rectangles, tail);
    }
}

/// What an [`UpdatePdu`] holds.
pub enum UpdatePduModel {
    Orders(OrdersUpdateModel),
    Bitmap(BitmapUpdateModel),
    Palette(PaletteUpdateModel),
    Synchronize,
}

/// A graphics update: its type, then the type's body.
#[derive(Debug, Clone, PartialEq, Eq)]
pub enum UpdatePdu {
    Orders(OrdersUpdate),
    Bitmap(BitmapUpdate),
    Palette(PaletteUpdate),
    Synchronize,
}

impl View for UpdatePdu {
    type V = UpdatePduModel;

    open spec fn view(&self) -> UpdatePduModel {
        match self {
            UpdatePdu::Orders(o) => UpdatePduModel::Orders(o@),
            UpdatePdu::Bitmap(b) => UpdatePduModel::Bitmap(b@),
            UpdatePdu::Palette(p) => UpdatePduModel::Palette(p@),
            UpdatePdu::Synchronize => UpdatePduModel::Synchronize,
        }
    }
}

impl UpdatePduModel {
    pub open spec fn spec_update_type(&self) -> UpdateType {
        match self {
            UpdatePduModel::Orders(_) => UpdateType::Orders,
            UpdatePduModel::Bitmap(_) => UpdateType::Bitmap,
            UpdatePduModel::Palette(_) => UpdateType::Palette,
            UpdatePduModel::Synchronize => UpdateType::Synchronize,
        }
    }

    /// The type, then the body; a synchronize update has a two-byte pad.
    pub open spec fn spec_bytes(&self) -> Seq<u8> {
        le16(self.spec_update_type().spec_as_u16()) + match self {
            UpdatePduModel::Orders(o) => o.spec_bytes(),
            UpdatePduModel::Bitmap(b) => b.spec_bytes(),
            UpdatePduModel::Palette(p) => p.spec_bytes(),
            UpdatePduModel::Synchronize => le16(0),
        }
    }
}

impl UpdatePdu {
    /// The type, then the body that the type names.
    pub open spec fn spec_parse(s: Seq<u8>) -> core::result::Result<(UpdatePduModel, int), ErrorKind> {
        if s.len() < 2 {
            Err(ErrorKind::InsufficientData { needed: 2, available: s.len() as usize })
        } else {
            let b = s.skip(2);
            match UpdateType::spec_from_u16(get_le16(s, 0)) {
                None => Err(ErrorKind::ParseError),
                Some(UpdateType::Orders) => match OrdersUpdate::spec_parse(b) {
                    Ok((o, n)) => Ok((UpdatePduModel::Orders(o), 2 + n)),
                    Err(k) => Err(k),
                },
                Some(UpdateType::Bitmap) => match BitmapUpdate::spec_parse(b) {
                    Ok((o, n)) => Ok((UpdatePduModel::Bitmap(o), 2 + n)),
                    Err(k) => Err(k),
                },
                Some(UpdateType::Palette) => match PaletteUpdate::spec_parse(b) {
                    Ok((o, n)) => Ok((UpdatePduModel::Palette(o), 2 + n)),
                    Err(k) => Err(k),
                },
                Some(UpdateType::Synchronize) => if b.len() < 2 {
                    Err(ErrorKind::InsufficientData { needed: 2, available: b.len() as usize })
                } else {
                    Ok((UpdatePduModel::Synchronize, 4))
                },
            }
        }
    }

    /// The type of this update.
    pub fn update_type(&self) -> (t: UpdateType)
        ensures
            t == self@.spec_update_type(),
    {
        match self {
            UpdatePdu::Orders(_) => UpdateType::Orders,
            UpdatePdu::Bitmap(_) => UpdateType::Bitmap,
            UpdatePdu::Palette(_) => UpdateType::Palette,
            UpdatePdu::Synchronize => UpdateType::Synchronize,
        }
    }

    /// Appends the type and the body.
    pub fn encode(&self, buffer: &mut Vec<u8>) -> (r: Result<()>)
        requires
            self matches UpdatePdu::Palette(p) ==> p.entries@.len() <= 65535,
        ensures
            r is Ok,
            final(buffer)@ == old(buffer)@ + self@.spec_bytes(),
    {
        put_u16_le(buffer, self.update_type().as_u16());
        match self {
            UpdatePdu::Orders(o) => {
                let _ = o.encode(buffer);
            },
            UpdatePdu::Bitmap(b) => {
                let _ = b.encode(buffer);
            },
            UpdatePdu::Palette(p) => {
                let _ = p.encode(buffer);
            },
            UpdatePdu::Synchronize => {
                put_u16_le(buffer, 0);
            },
        }
        assert(final(buffer)@ =~= old(buffer)@ + self@.spec_bytes());
        Ok(())
    }

    /// Reads the type, then its body.
    pub fn decode(buffer: &mut BerReader) -> (r: Result<Self>)
        ensures
            crate::ber::consumed(*old(buffer), *final(buffer)),
            reads_view(r, Self::spec_parse(old(buffer).rest()), old(buffer).rest(), final(buffer).rest()),
    {
        if buffer.remaining() < 2 {
            return Err(PduError::InsufficientData { needed: 2, available: buffer.remaining() });
        }
        let ghost s = buffer.rest();
        let t = buffer.take_u16_le();
        assert(buffer.rest() =~= s.skip(2));
        let update_type = match UpdateType::from_u16(t) {
            Some(t) => t,
            None => {
                return Err(PduError::parse("unknown update type"));
            },
        };
        let r = match update_type {
            UpdateType::Orders => match OrdersUpdate::decode(buffer) {
                Ok(o) => {
                    let ghost n = OrdersUpdate::spec_parse(s.skip(2))->Ok_0.1;
                    assert(s.skip(2).skip(n) =~= s.skip(2 + n));
                    Ok(UpdatePdu::Orders(o))
                },
                Err(e) => Err(e),
            },
            UpdateType::Bitmap => match BitmapUpdate::decode(buffer) {
                Ok(o) => {
                    let ghost n = BitmapUpdate::spec_parse(s.skip(2))->Ok_0.1;
                    assert(s.skip(2).skip(n) =~= s.skip(2 + n));
                    Ok(UpdatePdu::Bitmap(o))
                },
                Err(e) => Err(e),
            },
            UpdateType::Palette => match PaletteUpdate::decode(buffer) {
                Ok(o) => {
                    let ghost n = PaletteUpdate::spec_parse(s.skip(2))->Ok_0.1;
                    assert(s.skip(2).skip(n) =~= s.skip(2 + n));
                    Ok(UpdatePdu::Palette(o))
                },
                Err(e) => Err(e),
            },
            UpdateType::Synchronize => {
                if buffer.remaining() < 2 {
                    return Err(PduError::InsufficientData { needed: 2, available: buffer.remaining() });
                }
                let _pad = buffer.take_u16_le();
                assert(buffer.rest() =~= s.skip(4));
                Ok(UpdatePdu::Synchronize)
            },
        };
        r
    }

    /// Two plus the body size.
    pub fn size(&self) -> (n: usize)
        requires
            match self@ {
                UpdatePduModel::Orders(o) => o.orders.len() <= 65535,
                UpdatePduModel::Bitmap(b) => b.spec_bytes().len() <= usize::MAX - 2,
                UpdatePduModel::Palette(p) => p.entries.len() <= 65535,
                UpdatePduModel::Synchronize => true,
            },
        ensures
            n == self@.spec_bytes().len(),
    {
        match self {
            UpdatePdu::Orders(o) => 2 + o.size(),
            UpdatePdu::Bitmap(b) => 2 + b.size(),
            UpdatePdu::Palette(p) => 2 + p.size(),
            UpdatePdu::Synchronize => 4,
        }
    }
}

proof fn lemma_update_header(t: UpdateType, body: Seq<u8>, tail: Seq<u8>)
    ensures
        get_le16(le16(t.spec_as_u16()) + body + tail, 0) == t.spec_as_u16(),
        UpdateType::spec_from_u16(t.spec_as_u16()) == Some(t),
        (le16(t.spec_as_u16()) + body + tail).skip(2) == body + tail,
{
    lemma_le16(t.spec_as_u16());
    t.lemma_from_as();
    let s = le16(t.spec_as_u16()) + body + tail;
    assert(get_le16(s, 0) == get_le16(le16(t.spec_as_u16()), 0));
    assert(s.skip(2) =~= body + tail);
}

/// Every well-formed update is read back as written, and the bytes after it
/// stay unread.
pub proof fn lemma_update_round_trip(m: UpdatePduModel, tail: Seq<u8>)
    requires
        m matches UpdatePduModel::Orders(o) ==> o.wf(),
        m matches UpdatePduModel::Bitmap(b) ==> b.wf(),
        m matches UpdatePduModel::Palette(p) ==> p.entries.len() <= 65535,
    ensures
        UpdatePdu::spec_parse(m.spec_bytes() + tail) == Ok::<(UpdatePduModel, int), ErrorKind>(
            (m, m.spec_bytes().len() as int),
        ),
{
    let t = m.spec_update_type();
    match m {
        UpdatePduModel::Orders(o) => {
            lemma_update_header(t, o.spec_bytes(), tail);
            OrdersUpdate::lemma_round_trip(o, tail);
        },
        UpdatePduModel::Bitmap(b) => {
            lemma_update_header(t, b.spec_bytes(), tail);
            BitmapUpdate::lemma_round_trip(b, tail);
        },
        UpdatePduModel::Palette(p) => {
            lemma_update_header(t, p.spec_bytes(), tail);
            PaletteUpdate::lemma_round_trip(p, tail);
        },
        UpdatePduModel::Synchronize => {
            lemma_update_header(t, le16(0), tail);
        },
    }
}

} // verus!
